use game_relay::query::query_param;

fn param<'a>(q: &'a str, key: &str) -> Option<&'a str> {
    query_param(q, key).map(|(a, b)| &q[a..b])
}

#[test]
fn reads_both_parameters() {
    let q = "playerId=abc&roomId=1234";
    assert_eq!(query_param(q, "playerId"), Some((9, 12)));
    assert_eq!(param(q, "playerId"), Some("abc"));
    assert_eq!(param(q, "roomId"), Some("1234"));
    assert_eq!(param(q, "other"), None);
}

#[test]
fn empty_query_has_no_parameters() {
    assert_eq!(query_param("", "playerId"), None);
}

#[test]
fn last_pair_wins() {
    assert_eq!(param("playerId=a&playerId=b", "playerId"), Some("b"));
    assert_eq!(param("playerId=a&playerId", "playerId"), Some("a"));
}

#[test]
fn pair_without_equals_is_skipped() {
    assert_eq!(param("playerId", "playerId"), None);
    assert_eq!(param("playerId&roomId=7", "playerId"), None);
}

#[test]
fn value_stops_at_the_next_equals() {
    assert_eq!(param("playerId=a=b", "playerId"), Some("a"));
}

#[test]
fn empty_values_and_trailing_separators() {
    assert_eq!(param("x=1&playerId=", "playerId"), Some(""));
    assert_eq!(param("playerId=a&", "playerId"), Some("a"));
    assert_eq!(param("&&roomId=9&", "roomId"), Some("9"));
}

#[test]
fn key_must_match_exactly() {
    assert_eq!(param("playerIdx=1&xplayerId=2", "playerId"), None);
}

#[test]
fn non_ascii_values_slice_cleanly() {
    let q = "playerId=h\u{e9}llo&roomId=1";
    assert_eq!(param(q, "playerId"), Some("h\u{e9}llo"));
    assert_eq!(param(q, "roomId"), Some("1"));
}
