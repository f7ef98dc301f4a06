use nanochat_config::config::{Config, LoadError, PathError, SaveError};

fn make(server_url: &str, api_key: &str) -> Config {
    Config { server_url: server_url.to_string(), api_key: api_key.to_string() }
}

#[test]
fn default_is_empty_and_invalid() {
    let c = Config::default();
    assert_eq!(c.server_url, "");
    assert_eq!(c.api_key, "");
    assert!(!c.is_valid());
}

#[test]
fn is_valid_iff_both_fields_non_empty() {
    assert!(make("https://example.com", "key").is_valid());
    assert!(!make("", "key").is_valid());
    assert!(!make("https://example.com", "").is_valid());
    assert!(!make("", "").is_valid());
}

#[test]
fn to_toml_exact_text() {
    let c = make("https://example.com", "abc123");
    assert_eq!(c.to_toml(), "server_url = \"https://example.com\"\napi_key = \"abc123\"\n");
}

#[test]
fn to_toml_escapes_exact_text() {
    let c = make("a\"b", "c\\d\ne\tf\rg");
    assert_eq!(c.to_toml(), "server_url = \"a\\\"b\"\napi_key = \"c\\\\d\\ne\\tf\\rg\"\n");
}

#[test]
fn to_toml_control_chars_use_u_escapes() {
    let c = make("x\u{1}y", "z\u{7f}w");
    assert_eq!(c.to_toml(), "server_url = \"x\\u0001y\"\napi_key = \"z\\u007Fw\"\n");
}

#[test]
fn from_toml_exact_text() {
    let c = Config::from_toml("server_url = \"https://example.com\"\napi_key = \"abc123\"\n")
        .unwrap();
    assert_eq!(c.server_url, "https://example.com");
    assert_eq!(c.api_key, "abc123");
}

#[test]
fn round_trip_plain_values() {
    let c = make("https://example.com", "secret-key");
    let text = c.to_toml();
    let back = Config::from_toml(&text).unwrap();
    assert_eq!(back.server_url, c.server_url);
    assert_eq!(back.api_key, c.api_key);
}

#[test]
fn round_trip_tricky_values() {
    let cases = [
        ("quote\"inside", "back\\slash"),
        ("multi\nline", "tab\tand\rreturn"),
        ("control\u{1}\u{1f}chars", "delete\u{7f}char"),
        ("unicode \u{e9}\u{1f600}", "mixed \"\\\n\t\u{2}"),
        ("", ""),
    ];
    for (u, k) in cases {
        let c = make(u, k);
        let back = Config::from_toml(&c.to_toml()).unwrap();
        assert_eq!(back.server_url, u);
        assert_eq!(back.api_key, k);
    }
}

#[test]
fn malformed_text_fails_and_is_not_defaulted() {
    let cases = [
        "",
        "not a config at all",
        "server_url = \"a\"",
        "server_url = \"a\"\napi_key = \"b\"",
        "server_url = \"a\"\napi_key = \"b\"\n\n",
        "api_key = \"b\"\nserver_url = \"a\"\n",
        "server_url = 'a'\napi_key = 'b'\n",
        "server_url = \"a\\x\"\napi_key = \"b\"\n",
        "server_url = \"a\\u00ZZ\"\napi_key = \"b\"\n",
        "server_url = \"a\\u0041\"\napi_key = \"b\"\n",
        "server_url = \"a\u{1}\"\napi_key = \"b\"\n",
        "server_url = \"unterminated\napi_key = \"b\"\n",
    ];
    for text in cases {
        let r = Config::from_toml(text);
        match r {
            Ok(_) => panic!("malformed text was accepted: {:?}", text),
            Err(e) => {
                assert_eq!(e.message(), "Failed to parse config file: malformed configuration text");
            }
        }
    }
}

#[test]
fn load_error_messages() {
    assert_eq!(
        LoadError::Read("boom".to_string()).message(),
        "Failed to read config file: boom"
    );
    assert_eq!(
        LoadError::Parse("bad".to_string()).message(),
        "Failed to parse config file: bad"
    );
}

#[test]
fn save_error_messages() {
    assert_eq!(
        SaveError::CreateDir("denied".to_string()).message(),
        "Failed to create config directory: denied"
    );
    assert_eq!(
        SaveError::Serialize("odd".to_string()).message(),
        "Failed to serialize config: odd"
    );
    assert_eq!(
        SaveError::Write("full".to_string()).message(),
        "Failed to write config file: full"
    );
}

#[test]
fn path_error_message() {
    assert_eq!(PathError {}.message(), "Failed to determine config directory");
}

#[test]
fn config_path_ends_with_file_name() {
    let p = Config::config_path().unwrap();
    assert!(p.ends_with("/config.toml"));
    assert!(p.contains("nanochat"));
}
