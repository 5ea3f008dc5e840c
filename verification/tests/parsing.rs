use rustydave::args::parse_u32;
use rustydave::parse_args;

#[test]
fn test_parse_args() {
    let max = 10;
    assert_eq!(parse_args(&vec!["exe".to_string()], max), (1, false));
    assert_eq!(parse_args(&vec!["exe".to_string(), "3".to_string()], max), (3, false));
    assert_eq!(parse_args(&vec!["exe".to_string(), "0".to_string()], max), (1, false));
    assert_eq!(parse_args(&vec!["exe".to_string(), "20".to_string()], max), (max, false));
    assert_eq!(parse_args(&vec!["exe".to_string(), "--ascii".to_string()], max), (1, true));
    assert_eq!(
        parse_args(&vec!["exe".to_string(), "5".to_string(), "--ascii".to_string()], max),
        (5, true),
    );
}

#[test]
fn later_level_arguments_win() {
    let args = vec!["exe".to_string(), "3".to_string(), "7".to_string()];
    assert_eq!(parse_args(&args, 10), (7, false));
}

#[test]
fn unparsable_arguments_are_ignored() {
    let args = vec!["exe".to_string(), "abc".to_string(), "-4".to_string()];
    assert_eq!(parse_args(&args, 10), (1, false));
}

#[test]
fn parse_u32_accepts_numerals() {
    assert_eq!(parse_u32("0"), Some(0));
    assert_eq!(parse_u32("42"), Some(42));
    assert_eq!(parse_u32("4294967295"), Some(u32::MAX));
    assert_eq!(parse_u32("+5"), Some(5));
    assert_eq!(parse_u32("+0"), Some(0));
    assert_eq!(parse_u32("+4294967295"), Some(u32::MAX));
}

#[test]
fn parse_u32_rejects_everything_else() {
    assert_eq!(parse_u32(""), None);
    assert_eq!(parse_u32("12a"), None);
    assert_eq!(parse_u32("-1"), None);
    assert_eq!(parse_u32(" 7"), None);
    assert_eq!(parse_u32("+"), None);
    assert_eq!(parse_u32("++1"), None);
    assert_eq!(parse_u32("+1+"), None);
    assert_eq!(parse_u32("4294967296"), None);
    assert_eq!(parse_u32("+4294967296"), None);
    assert_eq!(parse_u32("99999999999999999999"), None);
}

#[test]
fn plus_prefixed_levels_parse_like_the_standard_library() {
    assert_eq!("+5".parse::<u32>(), Ok(5));
    let args = vec!["exe".to_string(), "+5".to_string()];
    assert_eq!(parse_args(&args, 10), (5, false));
}
