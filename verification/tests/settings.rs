use rfind::args::{judge, Args, ConfigError, FileType};
use rfind::pattern::pattern_compiles;
use rfind::perm::PermSpec;

#[test]
fn perm_spec_reads_exact_values_and_masks() {
    assert_eq!(PermSpec::parse("644"), Some(PermSpec::Exact(0o644)));
    assert_eq!(PermSpec::parse("644"), Some(PermSpec::Exact(420)));
    assert_eq!(PermSpec::parse("/4000"), Some(PermSpec::Mask(0o4000)));
    assert_eq!(PermSpec::parse("/4000"), Some(PermSpec::Mask(2048)));
    assert_eq!(PermSpec::parse("7777"), Some(PermSpec::Exact(0o7777)));
    assert_eq!(PermSpec::parse("/017"), Some(PermSpec::Mask(0o17)));
    assert_eq!(PermSpec::parse("0"), Some(PermSpec::Exact(0)));
}

#[test]
fn perm_spec_rejects_what_it_cannot_read() {
    for text in [
        "", "/", "//1", "u+x", "10000", "/10000", "789", "/ 7", "7/", "+644", "/+17", "-7", "/-7",
    ] {
        assert_eq!(PermSpec::parse(text), None, "{:?}", text);
    }
}

#[test]
fn perm_spec_matches_modes() {
    assert!(PermSpec::Exact(0o644).matches(0o100644));
    assert!(!PermSpec::Exact(0o644).matches(0o100640));
    assert!(!PermSpec::Exact(0o1644).matches(0o1644));
    assert!(PermSpec::Mask(0o4000).matches(0o4755));
    assert!(!PermSpec::Mask(0o4000).matches(0o0755));
    assert!(!PermSpec::Mask(0).matches(0o7777));
    assert!(PermSpec::Mask(0o022).matches(0o020));
}

#[test]
fn pattern_compiles_tells_globs_from_malformed_text() {
    for good in ["*", "*.txt", "a?c", "[a-z]*", "[]]", "[!]]", "plain", ""] {
        assert!(pattern_compiles(good), "{:?}", good);
    }
    for bad in ["[", "[!", "***", "a**", "**a", "a**b"] {
        assert!(!pattern_compiles(bad), "{:?}", bad);
    }
}

#[test]
fn judge_names_the_first_fault() {
    assert_eq!(judge(true, true, true), Ok(()));
    assert_eq!(judge(false, true, true), Err(ConfigError::NoTypes));
    assert_eq!(judge(false, false, false), Err(ConfigError::NoTypes));
    assert_eq!(judge(true, false, true), Err(ConfigError::BadPerm));
    assert_eq!(judge(true, false, false), Err(ConfigError::BadPerm));
    assert_eq!(judge(true, true, false), Err(ConfigError::BadPattern));
}

#[test]
fn default_settings_are_valid() {
    assert_eq!(Args::default().validate(), Ok(()));
}

#[test]
fn settings_with_filters_that_can_be_read_are_valid() {
    let args = Args {
        types: vec![FileType::File],
        name: Some("*.rs".to_string()),
        perm: Some("/111".to_string()),
        suid: true,
        ..Default::default()
    };
    assert_eq!(args.validate(), Ok(()));
    let empty_name = Args { name: Some(String::new()), ..Default::default() };
    assert_eq!(empty_name.validate(), Ok(()));
}

#[test]
fn settings_without_a_type_are_rejected() {
    let args = Args { types: vec![], ..Default::default() };
    assert_eq!(args.validate(), Err(ConfigError::NoTypes));
    let worse = Args { types: vec![], perm: Some("x".to_string()), ..Default::default() };
    assert_eq!(worse.validate(), Err(ConfigError::NoTypes));
}

#[test]
fn settings_with_an_unreadable_permission_are_rejected() {
    for text in ["", "rw-", "99", "10000", "/", "+644", "/+4000"] {
        let args = Args { perm: Some(text.to_string()), ..Default::default() };
        assert_eq!(args.validate(), Err(ConfigError::BadPerm), "{:?}", text);
    }
    let both = Args { perm: Some("x".to_string()), name: Some("[".to_string()), ..Default::default() };
    assert_eq!(both.validate(), Err(ConfigError::BadPerm));
}

#[test]
fn settings_with_a_malformed_pattern_are_rejected() {
    let args = Args { name: Some("[".to_string()), ..Default::default() };
    assert_eq!(args.validate(), Err(ConfigError::BadPattern));
    let stars = Args { name: Some("***".to_string()), perm: Some("644".to_string()), ..Default::default() };
    assert_eq!(stars.validate(), Err(ConfigError::BadPattern));
}
