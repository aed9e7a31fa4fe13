use live_md::config::{decimal_chars, Config};

#[test]
fn test_config_new() {
    let content_dir = "content".to_string();
    let output_dir = "output".to_string();
    let port = 8080;
    let host = "127.0.0.1".to_string();
    let open_browser = false;
    let broadcast_capacity = 32;

    let config = Config::new(
        content_dir.clone(),
        output_dir.clone(),
        port,
        host.clone(),
        open_browser,
        broadcast_capacity,
    );

    assert_eq!(config.content_dir, content_dir);
    assert_eq!(config.output_dir, output_dir);
    assert_eq!(config.port, port);
    assert_eq!(config.host, host);
    assert_eq!(config.open_browser, open_browser);
    assert_eq!(config.broadcast_capacity, broadcast_capacity);
}

#[test]
fn test_config_server_url() {
    let config = Config::new(
        "content".to_string(),
        "output".to_string(),
        8080,
        "127.0.0.1".to_string(),
        true,
        16,
    );

    assert_eq!(config.server_url(), "http://127.0.0.1:8080");
}

#[test]
fn test_default_config() {
    let config = Config::default();

    assert_eq!(config.port, 3000);
    assert_eq!(config.host, "127.0.0.1");
    assert_eq!(config.content_dir, "doc");
    assert_eq!(config.output_dir, "_dist");
    assert_eq!(config.broadcast_capacity, 16);
    assert!(config.open_browser);
}

#[test]
fn port_is_written_in_decimal() {
    let numeral = |n: u16| decimal_chars(n).into_iter().collect::<String>();
    assert_eq!(numeral(0), "0");
    assert_eq!(numeral(9), "9");
    assert_eq!(numeral(10), "10");
    assert_eq!(numeral(3000), "3000");
    assert_eq!(numeral(65535), "65535");
    let config = Config::new("c".to_string(), "o".to_string(), 0, "::1".to_string(), false, 1);
    assert_eq!(config.server_url(), "http://::1:0");
}
