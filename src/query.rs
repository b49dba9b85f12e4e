use vstd::prelude::*;
use vstd::string::StringSliceAdditionalSpecFns;

verus! {

/// The first index in `[from, to)` where `b` holds `c`, or `to` if none does.
pub open spec fn first_at(b: Seq<u8>, c: u8, from: int, to: int) -> int
    decreases to - from,
{
    if from >= to {
        to
    } else if b[from] == c {
        from
    } else {
        first_at(b, c, from + 1, to)
    }
}

/// The pair `b[s..e]`, read as `key=value`: when its text up to the first `=`
/// is `key`, the range of the value, which ends at the next `=` or at `e`.
pub open spec fn pair_value(b: Seq<u8>, key: Seq<u8>, s: int, e: int) -> Option<(int, int)> {
    let q = first_at(b, '=' as u8, s, e);
    if q < e && b.subrange(s, q) == key {
        Some((q + 1, first_at(b, '=' as u8, q + 1, e)))
    } else {
        None
    }
}

/// The value of the last `key=value` pair among the `&`-separated pairs of
/// `b` that start at `start` or later.
pub open spec fn last_value(b: Seq<u8>, key: Seq<u8>, start: int) -> Option<(int, int)>
    decreases b.len() - start,
{
    let e = first_at(b, '&' as u8, start, b.len() as int);
    let here = pair_value(b, key, start, e);
    if e < b.len() && start <= e {
        match last_value(b, key, e + 1) {
            Some(v) => Some(v),
            None => here,
        }
    } else {
        here
    }
}

fn find_byte(b: &[u8], c: u8, from: usize, to: usize) -> (r: usize)
    requires
        from <= to <= b@.len(),
    ensures
        r == first_at(b@, c, from as int, to as int),
        from <= r <= to,
        r < to ==> b@[r as int] == c,
{
    let mut i = from;
    while i < to
        invariant
            from <= i <= to <= b@.len(),
            first_at(b@, c, from as int, to as int) == first_at(b@, c, i as int, to as int),
        decreases to - i,
    {
        if b[i] == c {
            return i;
        }
        i = i + 1;
    }
    i
}

fn bytes_equal(b: &[u8], s: usize, e: usize, key: &[u8]) -> (r: bool)
    requires
        s <= e <= b@.len(),
    ensures
        r == (b@.subrange(s as int, e as int) == key@),
{
    if e - s != key.len() {
        return false;
    }
    let mut i: usize = 0;
    while i < key.len()
        invariant
            s <= e <= b@.len(),
            e - s == key@.len(),
            i <= key@.len(),
            forall|j: int| 0 <= j < i ==> b@[s + j] == key@[j],
        decreases key.len() - i,
    {
        if b[s + i] != key[i] {
            assert(b@.subrange(s as int, e as int)[i as int] != key@[i as int]);
            return false;
        }
        i = i + 1;
    }
    assert(b@.subrange(s as int, e as int) =~= key@);
    true
}

fn pair_value_exec(b: &[u8], key: &[u8], s: usize, e: usize) -> (r: Option<(usize, usize)>)
    requires
        s <= e <= b@.len(),
    ensures
        pair_value(b@, key@, s as int, e as int) == match r {
            Some((x, y)) => Some((x as int, y as int)),
            None => None,
        },
{
    let q = find_byte(b, 61, s, e);
    if q < e && bytes_equal(b, s, q, key) {
        let v_end = find_byte(b, 61, q + 1, e);
        Some((q + 1, v_end))
    } else {
        None
    }
}

/// The byte range in `query` of the value of its last `key=value` pair, the
/// pairs being separated by `&`. A pair without `=` is skipped, and a value
/// ends at the next `=`. The bounds fall next to ASCII bytes or at the ends,
/// so they are character boundaries.
pub fn query_param(query: &str, key: &str) -> (r: Option<(usize, usize)>)
    ensures
        last_value(query.spec_bytes(), key.spec_bytes(), 0) == match r {
            Some((x, y)) => Some((x as int, y as int)),
            None => None,
        },
{
    let b = query.as_bytes();
    let k = key.as_bytes();
    let ghost bs = b@;
    let ghost ks = k@;
    let ghost whole = last_value(bs, ks, 0);
    let mut found: Option<(usize, usize)> = None;
    let mut start: usize = 0;
    loop
        invariant
            b@ == bs,
            k@ == ks,
            start <= b@.len(),
            whole == match last_value(bs, ks, start as int) {
                Some(v) => Some(v),
                None => match found {
                    Some((x, y)) => Some((x as int, y as int)),
                    None => None,
                },
            },
            whole == last_value(query.spec_bytes(), key.spec_bytes(), 0),
        decreases b@.len() - start,
    {
        let e = find_byte(b, 38, start, b.len());
        let here = pair_value_exec(b, k, start, e);
        match here {
            Some(v) => {
                found = Some(v);
            },
            None => {},
        }
        if e >= b.len() {
            return found;
        }
        start = e + 1;
    }
}

} // verus!
