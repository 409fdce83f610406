use obslog::codec::decode_target;
use obslog::codec::encode_target;
use obslog::codec::resolve_target;

#[test]
fn shorthand_daily() {
    assert_eq!(resolve_target("daily"), "/periodic/daily/");
}

#[test]
fn shorthand_weekly() {
    assert_eq!(resolve_target("weekly"), "/periodic/weekly/");
}

#[test]
fn shorthand_monthly() {
    assert_eq!(resolve_target("monthly"), "/periodic/monthly/");
}

#[test]
fn shorthand_quarterly() {
    assert_eq!(resolve_target("quarterly"), "/periodic/quarterly/");
}

#[test]
fn shorthand_yearly() {
    assert_eq!(resolve_target("yearly"), "/periodic/yearly/");
}

#[test]
fn shorthand_is_exact_no_case_folding() {
    // Anything but the five exact tokens falls through to generic encoding.
    assert_eq!(resolve_target("Daily"), "/vault/Daily");
    assert_eq!(resolve_target("DAILY"), "/vault/DAILY");
    assert_eq!(resolve_target("dailyy"), "/vault/dailyy");
}

#[test]
fn encode_plain_segment() {
    assert_eq!(encode_target("inbox"), "/vault/inbox");
}

#[test]
fn encode_escapes_spaces_and_punctuation() {
    // Not the identity: spaces and `#` are escaped, with upper-case hex.
    assert_eq!(encode_target("my notes/Idea #1"), "/vault/my%20notes/Idea%20%231");
}

#[test]
fn encode_round_trips_through_decode() {
    let encoded = encode_target("my notes/Idea #1");
    assert_eq!(decode_target(&encoded).unwrap(), "/vault/my notes/Idea #1");
}

#[test]
fn encode_round_trips_unicode() {
    let encoded = encode_target("déjà vu/München ß");
    assert_eq!(decode_target(&encoded).unwrap(), "/vault/déjà vu/München ß");
}

#[test]
fn encode_round_trips_empty_target() {
    let encoded = encode_target("");
    assert_eq!(encoded, "/vault/");
    assert_eq!(decode_target(&encoded).unwrap(), "/vault/");
}

#[test]
fn per_segment_encoding_preserves_separators() {
    let encoded = encode_target("a/b");
    assert_eq!(encoded, "/vault/a/b");
    assert_eq!(decode_target(&encoded).unwrap(), "/vault/a/b");
}

#[test]
fn percent_in_segment_survives_round_trip() {
    // A literal `%` in a note name is escaped and comes back unchanged.
    let encoded = encode_target("100% done");
    assert_eq!(encoded, "/vault/100%25%20done");
    assert_eq!(decode_target(&encoded).unwrap(), "/vault/100% done");
}

#[test]
fn decode_plain_path_is_identity() {
    assert_eq!(decode_target("/periodic/daily/").unwrap(), "/periodic/daily/");
}

#[test]
fn decode_rejects_invalid_utf8_escape() {
    // %FF decodes to a byte that is not UTF-8.
    assert!(decode_target("/vault/%FF").is_none());
}
