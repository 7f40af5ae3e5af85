use zipchord::config::{parse_millis, AppConfig, ConfigError};

fn config(path: &str, timeout: u64) -> AppConfig {
    AppConfig { library_path: path.to_string(), chord_timeout: timeout }
}

#[test]
fn defaults_under_user_dir() {
    let c = AppConfig::defaults(Some("/home/ann")).unwrap();
    assert_eq!(c.library_path, "/home/ann/.config/chords/lib");
    assert_eq!(c.chord_timeout, 20);
    assert_eq!(AppConfig::default_library_path(Some("/root/")).unwrap(), "/root/.config/chords/lib");
    assert!(matches!(AppConfig::defaults(None), Err(ConfigError::MissingDirectory)));
}

#[test]
fn expands_home_component() {
    let home = Some("/home/ann");
    assert_eq!(AppConfig::expand_path("~/libs/en", home).unwrap(), "/home/ann/libs/en");
    assert_eq!(AppConfig::expand_path("~//libs", home).unwrap(), "/home/ann/libs");
    assert_eq!(AppConfig::expand_path("~", home).unwrap(), "/home/ann/");
    assert_eq!(AppConfig::expand_path("~ann/libs", home).unwrap(), "~ann/libs");
    assert_eq!(AppConfig::expand_path("/srv/libs", home).unwrap(), "/srv/libs");
    assert_eq!(AppConfig::expand_path("/srv/libs", None).unwrap(), "/srv/libs");
    assert!(matches!(AppConfig::expand_path("~/x", None), Err(ConfigError::MissingDirectory)));
}

#[test]
fn reads_millis() {
    assert_eq!(parse_millis("20"), Some(20));
    assert_eq!(parse_millis("+7"), Some(7));
    assert_eq!(parse_millis("18446744073709551615"), Some(u64::MAX));
    assert_eq!(parse_millis("18446744073709551616"), None);
    assert_eq!(parse_millis(""), None);
    assert_eq!(parse_millis("+"), None);
    assert_eq!(parse_millis("-3"), None);
    assert_eq!(parse_millis("1x"), None);
}

#[test]
fn parses_settings_file() {
    let mut c = config("/old", 20);
    let text = "; settings\r\n[general]\r\n  Library_Path = ~/chords ; where\r\nchord_timeout=45\nunknown = 3\nno equals here\n";
    assert!(AppConfig::parse_ini(text, &mut c, Some("/home/ann")).is_ok());
    assert_eq!(c.library_path, "/home/ann/chords");
    assert_eq!(c.chord_timeout, 45);
}

#[test]
fn last_line_without_newline_counts() {
    let mut c = config("/old", 20);
    assert!(AppConfig::parse_ini("chord_timeout = 300", &mut c, None).is_ok());
    assert_eq!(c.chord_timeout, 300);
    assert_eq!(c.library_path, "/old");
}

#[test]
fn bad_timeout_stops_parsing() {
    let mut c = config("/old", 20);
    let r = AppConfig::parse_ini("chord_timeout = fast\nlibrary_path = /new\n", &mut c, None);
    match r {
        Err(ConfigError::InvalidTimeout(v)) => assert_eq!(v, "fast"),
        other => panic!("unexpected {:?}", other),
    }
    assert_eq!(c.library_path, "/old");
}

#[test]
fn home_path_without_user_dir_fails() {
    let mut c = config("/old", 20);
    let r = AppConfig::parse_ini("library_path = ~/x\n", &mut c, None);
    assert!(matches!(r, Err(ConfigError::MissingDirectory)));
}

#[test]
fn validation_rules() {
    assert!(config("/lib", 1000).validate(true).is_ok());
    match config("/lib", 1001).validate(true) {
        Err(ConfigError::Validation(m)) => {
            assert_eq!(m, "Chord timeout cannot exceed 1000ms (got 1001ms)")
        }
        other => panic!("unexpected {:?}", other),
    }
    match config("/lib", 20).validate(false) {
        Err(ConfigError::Validation(m)) => {
            assert_eq!(m, "Library path /lib does not exist or can't be accessed")
        }
        other => panic!("unexpected {:?}", other),
    }
}
