use git_vanity_hash::config::{err_if_false, is_all_hex, Config, Error, Mode};

fn args(words: &[&str]) -> Vec<String> {
    words.iter().map(|w| w.to_string()).collect()
}

#[test]
fn missing_mode_is_rejected() {
    assert!(matches!(
        Config::from_args(args(&["git-vanity-hash"])),
        Err(Error::MissingModeArg()),
    ));
    assert!(matches!(Config::from_args(args(&[])), Err(Error::MissingModeArg())));
}

#[test]
fn unsupported_mode_is_rejected() {
    assert!(matches!(
        Config::from_args(args(&["git-vanity-hash", "frobnicate", "ab"])),
        Err(Error::UnsupportedMode()),
    ));
}

#[test]
fn missing_prefix_is_rejected() {
    assert!(matches!(
        Config::from_args(args(&["git-vanity-hash", "find"])),
        Err(Error::MissingPrefixArg()),
    ));
    assert!(matches!(
        Config::from_args(args(&["git-vanity-hash", "update"])),
        Err(Error::MissingPrefixArg()),
    ));
}

#[test]
fn non_hex_prefix_is_rejected() {
    assert!(matches!(
        Config::from_args(args(&["git-vanity-hash", "find", "0g"])),
        Err(Error::NonHexPrefix()),
    ));
    assert!(matches!(
        Config::from_args(args(&["git-vanity-hash", "update", "xyz"])),
        Err(Error::NonHexPrefix()),
    ));
}

#[test]
fn find_mode_carries_its_prefix() {
    let config = Config::from_args(args(&["git-vanity-hash", "find", "cafe"])).unwrap();
    match config.mode {
        Mode::Find(p) => assert_eq!(p, "cafe"),
        _ => panic!("expected find mode"),
    }
}

#[test]
fn update_mode_carries_its_prefix() {
    let config = Config::from_args(args(&["git-vanity-hash", "update", "00"])).unwrap();
    match config.mode {
        Mode::Update(p) => assert_eq!(p, "00"),
        _ => panic!("expected update mode"),
    }
}

#[test]
fn revert_mode_needs_no_prefix() {
    let config = Config::from_args(args(&["git-vanity-hash", "revert"])).unwrap();
    assert!(matches!(config.mode, Mode::Revert()));
}

#[test]
fn uppercase_hex_is_accepted_as_an_argument() {
    // The argument check accepts either case; matching against the lowercase
    // hash rendering is the search's concern, not the parser's.
    let config = Config::from_args(args(&["git-vanity-hash", "find", "CAFE"])).unwrap();
    match config.mode {
        Mode::Find(p) => assert_eq!(p, "CAFE"),
        _ => panic!("expected find mode"),
    }
}

#[test]
fn is_all_hex_accepts_hex_of_either_case() {
    assert!(is_all_hex(""));
    assert!(is_all_hex("0123456789abcdef"));
    assert!(is_all_hex("ABCDEF"));
    assert!(!is_all_hex("g"));
    assert!(!is_all_hex("0x12"));
    assert!(!is_all_hex("12 34"));
}

#[test]
fn err_if_false_keeps_its_error() {
    assert!(matches!(err_if_false(true, 7u8), Ok(())));
    assert!(matches!(err_if_false(false, 7u8), Err(7u8)));
}
