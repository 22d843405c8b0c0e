use rust_md::config::parse_config;
use rust_md::model::ConfigError;

#[test]
fn full_configuration_parses() {
    let text = b"root_path: /vault\nignore:\n  - .git\n  - private\nprivate_include: true\nprivate_icon: \"*\"\n";
    let c = parse_config(text).unwrap();
    assert_eq!(c.root_path, b"/vault".to_vec());
    assert_eq!(c.ignore, vec![b".git".to_vec(), b"private".to_vec()]);
    assert!(c.private.expose);
    assert_eq!(c.private.icon, b"*".to_vec());
}

#[test]
fn defaults_fill_missing_settings() {
    let c = parse_config(b"root_path: /v\n").unwrap();
    assert_eq!(c.root_path, b"/v".to_vec());
    assert!(c.ignore.is_empty());
    assert!(!c.private.expose);
    assert_eq!(c.private.icon, vec![240u8, 159u8, 148u8, 146u8]);
}

#[test]
fn empty_configuration_is_an_error() {
    assert_eq!(parse_config(b"").unwrap_err(), ConfigError::Empty);
}

#[test]
fn malformed_configuration_is_an_error() {
    assert!(matches!(parse_config(b"root_path: ["), Err(ConfigError::Malformed { .. })));
}

#[test]
fn missing_root_path_is_an_error() {
    assert_eq!(parse_config(b"ignore: []\n").unwrap_err(), ConfigError::MissingRootPath);
}
