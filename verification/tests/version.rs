use sfsu::parse_int::IntParseError;
use sfsu::version::ParseError;
use sfsu::version::Version;

fn v(s: &str) -> Version {
    Version::new(s.to_string())
}

#[test]
fn new_keeps_raw_text() {
    for raw in ["", "1.2.3", "nightly-2024_01-01", "β.7", "  spaced  ", "1..2"] {
        assert_eq!(v(raw).as_str(), raw);
    }
}

#[test]
fn views_identity_without_separators() {
    for raw in ["", "123", "abc", "β7", "1+2"] {
        let version = v(raw);
        assert_eq!(version.dot_version(), raw);
        assert_eq!(version.underscore_version(), raw);
        assert_eq!(version.dash_version(), raw);
        assert_eq!(version.clean_version(), raw);
    }
}

#[test]
fn clean_version_removes_all_separators() {
    for raw in ["1.2_3-4", "...", "_-.", "a-b_c.d", "1.0-rc_2"] {
        let clean = v(raw).clean_version();
        assert!(!clean.contains('.'));
        assert!(!clean.contains('_'));
        assert!(!clean.contains('-'));
    }
    assert_eq!(v("1.2_3-4").clean_version(), "1234");
}

#[test]
fn views_idempotent_with_same_target() {
    for raw in ["1.2_3-4", "..", "-_", "plain", ""] {
        let once = v(raw).dot_version();
        assert_eq!(v(&once).dot_version(), once);
        let once = v(raw).underscore_version();
        assert_eq!(v(&once).underscore_version(), once);
        let once = v(raw).dash_version();
        assert_eq!(v(&once).dash_version(), once);
        let once = v(raw).clean_version();
        assert_eq!(v(&once).clean_version(), once);
    }
}

#[test]
fn consecutive_separators_never_collapsed() {
    assert_eq!(v("1..2").dot_version(), "1..2");
    assert_eq!(v("1..2").underscore_version(), "1__2");
    assert_eq!(v("1._-2").dash_version(), "1---2");
    assert_eq!(v("1..2").clean_version(), "12");
}

#[test]
fn leading_and_trailing_separators_kept() {
    assert_eq!(v("-1.2_").dash_version(), "-1-2-");
    assert_eq!(v(".abc.").underscore_version(), "_abc_");
    assert_eq!(v("_x_").dot_version(), ".x.");
}

#[test]
fn views_mix_all_separator_kinds() {
    assert_eq!(v("1.2_3-4").dot_version(), "1.2.3.4");
    assert_eq!(v("1.2_3-4").underscore_version(), "1_2_3_4");
    assert_eq!(v("1.2_3-4").dash_version(), "1-2-3-4");
    assert_eq!(v("1.2-β").dot_version(), "1.2.β");
}

#[test]
fn parse_empty_is_missing_first_part() {
    assert_eq!(v("").parse().unwrap_err(), ParseError::MissingFirstPart);
}

#[test]
fn parse_non_numeric_major_is_parse_int() {
    assert_eq!(
        v("abc").parse().unwrap_err(),
        ParseError::ParseInt(IntParseError::InvalidDigit)
    );
}

#[test]
fn parse_empty_major_segment_is_parse_int_empty() {
    assert_eq!(
        v(".1").parse().unwrap_err(),
        ParseError::ParseInt(IntParseError::Empty)
    );
}

#[test]
fn parse_overflowing_major_is_pos_overflow() {
    assert_eq!(
        v("99999999999999999999.1").parse().unwrap_err(),
        ParseError::ParseInt(IntParseError::PosOverflow)
    );
}

#[test]
fn parse_lone_plus_is_invalid_digit() {
    assert_eq!(
        v("+").parse().unwrap_err(),
        ParseError::ParseInt(IntParseError::InvalidDigit)
    );
}

#[test]
fn parse_plus_prefixed_major() {
    let p = v("+12.3").parse().unwrap();
    assert_eq!(*p.major(), 12);
    assert_eq!(*p.minor(), Some(3));
}

#[test]
fn parse_single_segment() {
    let p = v("1").parse().unwrap();
    assert_eq!(*p.major(), 1);
    assert_eq!(*p.minor(), None);
    assert_eq!(*p.patch(), None);
    assert_eq!(*p.build(), None);
    assert_eq!(*p.pre_release(), None);
}

#[test]
fn parse_three_segments() {
    let p = v("1.2.3").parse().unwrap();
    assert_eq!(*p.major(), 1);
    assert_eq!(*p.minor(), Some(2));
    assert_eq!(*p.patch(), Some(3));
    assert_eq!(*p.build(), None);
    assert_eq!(*p.pre_release(), None);
}

#[test]
fn parse_five_segments_with_text() {
    let p = v("1.2.3.beta.1").parse().unwrap();
    assert_eq!(*p.major(), 1);
    assert_eq!(*p.minor(), Some(2));
    assert_eq!(*p.patch(), Some(3));
    assert_eq!(*p.build(), Some("beta".to_string()));
    assert_eq!(*p.pre_release(), Some("1".to_string()));
}

#[test]
fn parse_malformed_middle_segment_is_skipped() {
    let p = v("1.x.3").parse().unwrap();
    assert_eq!(*p.major(), 1);
    assert_eq!(*p.minor(), None);
    assert_eq!(*p.patch(), Some(3));
    assert_eq!(*p.build(), None);
    assert_eq!(*p.pre_release(), None);
}

#[test]
fn parse_discards_segments_past_fifth() {
    let p = v("1.2.3.4.5.6.7").parse().unwrap();
    assert_eq!(*p.major(), 1);
    assert_eq!(*p.minor(), Some(2));
    assert_eq!(*p.patch(), Some(3));
    assert_eq!(*p.build(), Some("4".to_string()));
    assert_eq!(*p.pre_release(), Some("5".to_string()));
}

#[test]
fn parse_trailing_dot_leaves_minor_unset() {
    let p = v("1.").parse().unwrap();
    assert_eq!(*p.major(), 1);
    assert_eq!(*p.minor(), None);
    assert_eq!(*p.patch(), None);
    assert_eq!(*p.build(), None);
    assert_eq!(*p.pre_release(), None);
}

#[test]
fn parse_empty_middle_segments_are_positional() {
    let p = v("1...x").parse().unwrap();
    assert_eq!(*p.major(), 1);
    assert_eq!(*p.minor(), None);
    assert_eq!(*p.patch(), None);
    assert_eq!(*p.build(), Some("x".to_string()));
    assert_eq!(*p.pre_release(), None);
}

#[test]
fn parse_splits_on_dots_only() {
    assert_eq!(
        v("1-2_3.4").parse().unwrap_err(),
        ParseError::ParseInt(IntParseError::InvalidDigit)
    );
    let p = v("1.2-rc").parse().unwrap();
    assert_eq!(*p.major(), 1);
    assert_eq!(*p.minor(), None);
}

#[test]
fn error_messages_name_the_failure() {
    assert_eq!(
        ParseError::MissingFirstPart.message(),
        "the version string is missing the first part; likely an empty string"
    );
    assert_eq!(
        ParseError::ParseInt(IntParseError::InvalidDigit).message(),
        "failed to parse integer: invalid digit found in string"
    );
    assert_eq!(
        ParseError::ParseInt(IntParseError::Empty).message(),
        "failed to parse integer: cannot parse integer from empty string"
    );
    assert_eq!(
        ParseError::ParseInt(IntParseError::PosOverflow).message(),
        "failed to parse integer: number too large to fit in target type"
    );
}

#[test]
fn long_inputs_are_ordinary_data() {
    let raw = "1.".repeat(500) + "2";
    let version = v(&raw);
    assert_eq!(version.clean_version().len(), 501);
    let p = version.parse().unwrap();
    assert_eq!(*p.major(), 1);
    assert_eq!(*p.minor(), Some(1));
    assert_eq!(*p.patch(), Some(1));
    assert_eq!(*p.build(), Some("1".to_string()));
    assert_eq!(*p.pre_release(), Some("1".to_string()));
}

#[test]
fn control_characters_are_ordinary_data() {
    let p = v("1.\u{0}2.3").parse().unwrap();
    assert_eq!(*p.major(), 1);
    assert_eq!(*p.minor(), None);
    assert_eq!(*p.patch(), Some(3));
    assert_eq!(v("\u{1}-\u{2}").clean_version(), "\u{1}\u{2}");
}

#[test]
fn plus_sign_in_later_segments() {
    let p = v("1.+2.+").parse().unwrap();
    assert_eq!(*p.major(), 1);
    assert_eq!(*p.minor(), Some(2));
    assert_eq!(*p.patch(), None);
}

#[test]
fn int_error_converts_into_parse_error() {
    assert_eq!(
        ParseError::from(IntParseError::PosOverflow),
        ParseError::ParseInt(IntParseError::PosOverflow)
    );
}

#[test]
fn views_leave_the_version_unchanged() {
    let version = v("1.2_3-4");
    let _ = version.dot_version();
    let _ = version.clean_version();
    assert_eq!(version.as_str(), "1.2_3-4");
}
