use git_vanity_hash::commit_info::CommitInfo;
use sha1::{Digest, Sha1};

fn parse(text: &str) -> CommitInfo {
    CommitInfo::from_str(text).expect("well-formed commit text")
}

#[test]
fn parse_splits_on_first_blank_line() {
    let ci = parse("tree abc\nparent def\n\nmsg");
    assert_eq!(ci.serialize_bytes(), b"tree abc\nparent def\n\nmsg".to_vec());
}

#[test]
fn parse_rejects_text_without_blank_line() {
    assert!(CommitInfo::from_str("tree abc\nparent def\nmsg").is_none());
    assert!(CommitInfo::from_str("").is_none());
    assert!(CommitInfo::from_str("\n").is_none());
}

#[test]
fn parse_keeps_blank_lines_inside_body() {
    let ci = parse("tree abc\n\nfirst\n\nsecond");
    // Only the first blank line separates; the rest belongs to the body.
    assert_eq!(ci.serialize_bytes(), b"tree abc\n\nfirst\n\nsecond".to_vec());
    let again = CommitInfo::from_str(
        String::from_utf8(ci.serialize_bytes()).unwrap().as_str(),
    )
    .unwrap();
    assert_eq!(again.serialize_bytes(), ci.serialize_bytes());
}

#[test]
fn parse_serialize_round_trip_preserves_whitespace() {
    let text = "tree abc\nauthor a b  <x@y>  123\n\n  body with  spaces\nand a newline\n";
    let ci = parse(text);
    assert_eq!(ci.serialize_bytes(), text.as_bytes().to_vec());
}

#[test]
fn add_header_appends_one_line() {
    let ci = parse("tree abc\nparent def\n\nmsg");
    let with = ci.add_header("vanity", "0-ff");
    assert_eq!(
        with.serialize_bytes(),
        b"tree abc\nparent def\nvanity 0-ff\n\nmsg".to_vec(),
    );
    // The receiver is untouched.
    assert_eq!(ci.serialize_bytes(), b"tree abc\nparent def\n\nmsg".to_vec());
}

#[test]
fn remove_header_strips_matching_lines() {
    let ci = parse("tree abc\nvanity 0-1\nparent def\n\nmsg");
    let stripped = ci.remove_header("vanity");
    assert_eq!(
        stripped.serialize_bytes(),
        b"tree abc\nparent def\n\nmsg".to_vec(),
    );
}

#[test]
fn remove_header_strips_every_matching_line() {
    // Header blocks may hold duplicate names; removal strips them all.
    let ci = parse("vanity 0-1\ntree t\nvanity 0-2\n\nmsg");
    let stripped = ci.remove_header("vanity");
    assert_eq!(stripped.serialize_bytes(), b"tree t\n\nmsg".to_vec());
}

#[test]
fn remove_header_is_a_literal_prefix_match() {
    // A header whose name merely starts with the given name is stripped too;
    // this looseness is part of the documented behavior.
    let ci = parse("vanity2 x\ntree t\n\nmsg");
    let stripped = ci.remove_header("vanity");
    assert_eq!(stripped.serialize_bytes(), b"tree t\n\nmsg".to_vec());
}

#[test]
fn add_then_remove_restores_original() {
    let ci = parse("tree abc\nparent def\n\nmsg");
    let round = ci.add_header("vanity", "3-2a").remove_header("vanity");
    assert_eq!(round.serialize_bytes(), ci.serialize_bytes());
}

#[test]
fn has_header_is_a_prefix_test() {
    let ci = parse("tree abc\nvanity 0-1\n\nmsg");
    assert!(ci.has_header("vanity"));
    assert!(ci.has_header("tree"));
    assert!(ci.has_header("tree abc"));
    assert!(!ci.has_header("parent"));
    let plain = parse("tree abc\n\nmsg");
    assert!(!plain.has_header("vanity"));
}

#[test]
fn hash_is_40_lowercase_hex_characters() {
    let h = parse("tree abc\nparent def\n\nmsg").hash();
    assert_eq!(h.len(), 40);
    assert!(h.chars().all(|c| c.is_ascii_digit() || ('a'..='f').contains(&c)));
}

#[test]
fn hash_uses_the_length_prefixed_framing() {
    // The digest must be SHA-1 over "commit <byte len>\0<text>", computed
    // here independently of the library's own framing code.
    let text = "tree abc\nparent def\n\nmsg";
    let mut framed: Vec<u8> = Vec::new();
    framed.extend_from_slice(b"commit ");
    framed.extend_from_slice(text.len().to_string().as_bytes());
    framed.push(0);
    framed.extend_from_slice(text.as_bytes());
    let expected = format!("{:x}", Sha1::digest(&framed));
    assert_eq!(parse(text).hash(), expected);
}

#[test]
fn hash_counts_bytes_not_characters() {
    // A two-byte UTF-8 character: the framing's decimal length must be the
    // byte length of the text, not its character count.
    let text = "tree abc\n\n\u{e9}";
    let ci = parse(text);
    let mut framed: Vec<u8> = Vec::new();
    framed.extend_from_slice(b"commit ");
    framed.extend_from_slice(text.len().to_string().as_bytes());
    framed.push(0);
    framed.extend_from_slice(text.as_bytes());
    assert_eq!(text.len(), text.chars().count() + 1);
    assert_eq!(ci.hash(), format!("{:x}", Sha1::digest(&framed)));
}

#[test]
fn hash_is_deterministic() {
    let a = parse("tree abc\nparent def\n\nmsg");
    let b = parse("tree abc\nparent def\n\nmsg");
    assert_eq!(a.hash(), a.hash());
    assert_eq!(a.hash(), b.hash());
}

#[test]
fn hash_is_sensitive_to_single_byte_changes() {
    let base = parse("tree abc\nparent def\n\nmsg");
    let header_changed = parse("tree abd\nparent def\n\nmsg");
    let body_changed = parse("tree abc\nparent def\n\nmsh");
    assert_ne!(base.hash(), header_changed.hash());
    assert_ne!(base.hash(), body_changed.hash());
    assert_ne!(header_changed.hash(), body_changed.hash());
}
