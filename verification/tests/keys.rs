use rustydave::rng::SimpleRng;
use rustydave::{default_max_level, Config, KeyCode};

#[test]
fn test_key_matches() {
    let config = Config::default();
    assert!(config.key_matches(KeyCode::Left, &config.keys.left));
    assert!(config.key_matches(KeyCode::Char('a'), &config.keys.left));
    assert!(config.key_matches(KeyCode::Char('A'), &config.keys.left));
    assert!(!config.key_matches(KeyCode::Right, &config.keys.left));
}

#[test]
fn test_config_default() {
    let config = Config::default();
    assert_eq!(config.max_level, 10);
    assert!(config.keys.left.contains(&"Left".to_string()));
    assert!(config.keys.jump.contains(&"Space".to_string()));
    assert!(config.keys.restart.contains(&"Enter".to_string()));
    assert_eq!(default_max_level(), 10);
}

#[test]
fn single_character_entries_match_either_case() {
    let config = Config::default();
    // the "d" and "D" entries of the right list both match either case
    assert!(config.key_matches(KeyCode::Char('d'), &config.keys.right));
    assert!(config.key_matches(KeyCode::Char('D'), &config.keys.right));
    // a one-entry list still folds case: "q" alone matches 'Q'
    let just_q = vec!["q".to_string()];
    assert!(config.key_matches(KeyCode::Char('Q'), &just_q));
    assert!(config.key_matches(KeyCode::Char('q'), &just_q));
    assert!(!config.key_matches(KeyCode::Char('x'), &just_q));
    // an uppercase entry matches its lowercase key only through case folding
    let just_cap = vec!["A".to_string()];
    assert!(config.key_matches(KeyCode::Char('a'), &just_cap));
    assert!(!config.key_matches(KeyCode::Char('b'), &just_cap));
}

#[test]
fn named_keys_match_only_their_own_code() {
    let config = Config::default();
    assert!(config.key_matches(KeyCode::Char(' '), &config.keys.jump));
    assert!(config.key_matches(KeyCode::Up, &config.keys.jump));
    assert!(!config.key_matches(KeyCode::Down, &config.keys.jump));
    assert!(config.key_matches(KeyCode::Esc, &config.keys.quit));
    assert!(config.key_matches(KeyCode::Enter, &config.keys.restart));
    assert!(!config.key_matches(KeyCode::Other, &config.keys.restart));
}

#[test]
fn rng_is_deterministic_and_range_bounded() {
    let mut a = SimpleRng::new(12345);
    let mut b = SimpleRng::new(12345);
    for _ in 0..100 {
        assert_eq!(a.next(), b.next());
    }
    let mut c = SimpleRng::new(7);
    for _ in 0..1000 {
        let v = c.range(25, 45);
        assert!((25..45).contains(&v));
    }
}

#[test]
fn degenerate_range_yields_min_and_consumes_nothing() {
    let mut a = SimpleRng::new(9);
    assert_eq!(a.range(5, 5), 5);
    assert_eq!(a.range(7, 3), 7);
    let mut b = SimpleRng::new(9);
    // the degenerate calls left the stream untouched
    assert_eq!(a.next(), b.next());
}
