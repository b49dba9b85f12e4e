use vstd::prelude::*;

verus! {

/// The strings' contents, in order.
pub open spec fn texts(v: Seq<String>) -> Seq<Seq<char>> {
    v.map_values(|s: String| s@)
}

/// Removing the entry at `i` of a sequence without repeats removes the value stored there.
pub proof fn lemma_remove_value_at<A>(s: Seq<A>, i: int)
    requires
        s.no_duplicates(),
        0 <= i < s.len(),
    ensures
        s.remove_value(s[i]) == s.remove(i),
{
    s.index_of_first_ensures(s[i]);
    let k = s.index_of_first(s[i]).unwrap();
    assert(k == i);
}

/// Removing a value from a sequence without repeats keeps it free of repeats, and
/// takes out that value only.
pub proof fn lemma_remove_value_contents<A>(s: Seq<A>, x: A)
    requires
        s.no_duplicates(),
    ensures
        s.remove_value(x).no_duplicates(),
        forall|y: A| #[trigger] s.remove_value(x).contains(y) <==> s.contains(y) && y != x,
        !s.contains(x) ==> s.remove_value(x) == s,
{
    s.index_of_first_ensures(x);
    match s.index_of_first(x) {
        Some(i) => {
            let t = s.remove(i);
            assert forall|y: A| #[trigger] t.contains(y) <==> s.contains(y) && y != x by {
                if t.contains(y) {
                    let j = choose|j: int| 0 <= j < t.len() && t[j] == y;
                    if j < i {
                        assert(s[j] == y);
                    } else {
                        assert(s[j + 1] == y);
                    }
                }
                if s.contains(y) && y != x {
                    let j = choose|j: int| 0 <= j < s.len() && s[j] == y;
                    assert(j != i);
                    if j < i {
                        assert(t[j] == y);
                    } else {
                        assert(t[j - 1] == y);
                    }
                }
            }
            assert forall|a: int, b: int| 0 <= a < t.len() && 0 <= b < t.len() && a != b implies t[a]
                != t[b] by {
                let oa = if a < i { a } else { a + 1 };
                let ob = if b < i { b } else { b + 1 };
                assert(t[a] == s[oa]);
                assert(t[b] == s[ob]);
            }
        },
        None => {},
    }
}

/// Where `x` stands in `v`, by content.
pub fn position_of(v: &Vec<String>, x: &String) -> (r: Option<usize>)
    ensures
        match r {
            Some(i) => i < v.len() && v@[i as int]@ == x@,
            None => !texts(v@).contains(x@),
        },
{
    let mut i: usize = 0;
    while i < v.len()
        invariant
            i <= v.len(),
            forall|j: int| 0 <= j < i ==> v@[j]@ != x@,
        decreases v.len() - i,
    {
        if v[i] == *x {
            return Some(i);
        }
        i = i + 1;
    }
    assert(!texts(v@).contains(x@)) by {
        if texts(v@).contains(x@) {
            let j = choose|j: int| 0 <= j < v.len() && texts(v@)[j] == x@;
            assert(v@[j]@ == x@);
        }
    }
    None
}

} // verus!
