use sipmon::analyze::mos::contains_ci;
use sipmon::decode::rtp::{classify, MediaKind};
use sipmon::uri::param;

#[test]
fn finds_case_insensitive_substring() {
    assert!(contains_ci("audio PCMU/8000", "pcmu"));
    assert!(contains_ci("g.711alaw", "G.711"));
    assert!(contains_ci("telephone-event", "TELEPHONE"));
}

#[test]
fn no_match_and_empty_cases() {
    assert!(!contains_ci("opus", "G.729"));
    assert!(!contains_ci("", "OPUS"));
    assert!(!contains_ci("op", "OPUS")); // needle longer than haystack
}

#[test]
fn classify_rtp_vs_rtcp() {
    // RTP: v=2, PT=0 (PCMU)
    let rtp = [0x80u8, 0x00, 0, 1, 0, 0, 0, 0, 0, 0, 0, 1];
    assert_eq!(classify(&rtp), MediaKind::Rtp);
    // RTP with marker bit: 0x80 | marker, PT stays small
    let rtp_m = [0x80u8, 0x80, 0, 1, 0, 0, 0, 0, 0, 0, 0, 1];
    assert_eq!(classify(&rtp_m), MediaKind::Rtp);
    // RTCP SR: v=2, PT=200
    let sr = [0x80u8, 200, 0, 1, 0, 0, 0, 1, 0, 0, 0, 0];
    assert_eq!(classify(&sr), MediaKind::Rtcp);
    // RTCP RR: PT=201
    let rr = [0x80u8, 201, 0, 1, 0, 0, 0, 1];
    assert_eq!(classify(&rr), MediaKind::Rtcp);
    // RTCP SDES: PT=202
    let sdes = [0x81u8, 202, 0, 1, 0, 0, 0, 1, 1, 0, 0, 0];
    assert_eq!(classify(&sdes), MediaKind::Rtcp);
    // RTCP with P bit: 0xA0
    let sr_p = [0xA0u8, 200, 0, 1, 0, 0, 0, 1];
    assert_eq!(classify(&sr_p), MediaKind::Rtcp);
    // Garbage
    assert_eq!(classify(&[0x00, 0x00]), MediaKind::Other);
}

#[test]
fn param_matches_name_case_insensitively() {
    assert_eq!(param("branch=z9hG4bK1;received=10.0.0.1", "Branch"), Some("z9hG4bK1"));
    assert_eq!(param("FROM-TAG=a;to-tag=b", "To-Tag"), Some("b"));
}

#[test]
fn param_terminators_and_end_of_value() {
    assert_eq!(param("a=1;b=2", "b"), Some("2")); // ';'
    assert_eq!(param("a=1 b=2", "b"), Some("2")); // ' '
    assert_eq!(param("a=1\tb=2", "b"), Some("2")); // tab
    assert_eq!(param("x=99", "x"), Some("99")); // end of value
}

#[test]
fn param_unquotes_value() {
    assert_eq!(param("uri=\"sip:alice@x\";tag=1", "uri"), Some("sip:alice@x"));
}

#[test]
fn param_requires_equals_after_name() {
    // "tagx" must not satisfy a lookup for "tag".
    assert_eq!(param("tagx=1;tag=2", "tag"), Some("2"));
    assert_eq!(param("only=a", "missing"), None);
}

#[test]
fn param_handles_multibyte_before_match() {
    // Non-ASCII prefix must not panic or misalign the match.
    assert_eq!(param("café=1;tag=ok", "tag"), Some("ok"));
}
