use mbit::config::{BuildConfig, Builder, McpConfig, Transport};

#[test]
fn stdio_defaults() {
    let c = McpConfig::stdio("target/x.wasm".to_string());
    assert_eq!(c.wasm_path, "target/x.wasm");
    assert_eq!(c.transport, Transport::Stdio);
    assert_eq!(c.port, 8080);
    assert_eq!(c.host, "127.0.0.1");
    assert_eq!(c.bridge_command, "br");
    assert!(!c.quiet);
}

#[test]
fn sse_keeps_the_other_settings() {
    let mut c = McpConfig::stdio("m.wasm".to_string());
    c.bridge_command = "mybr".to_string();
    c.quiet = true;
    let c = c.sse("0.0.0.0".to_string(), 9000);
    assert_eq!(c.transport, Transport::Sse);
    assert_eq!(c.host, "0.0.0.0");
    assert_eq!(c.port, 9000);
    assert_eq!(c.wasm_path, "m.wasm");
    assert_eq!(c.bridge_command, "mybr");
    assert!(c.quiet);
}

#[test]
fn build_config_defaults() {
    let c = BuildConfig::default();
    assert!(!c.standalone);
    assert!(c.target.is_none());
    assert!(c.release);
    let c = Builder::default().build_config();
    assert!(!c.standalone && c.target.is_none() && c.release);
}

#[test]
fn builder_sets_each_field() {
    let c = Builder::new()
        .standalone(true)
        .target("aarch64-apple-darwin".to_string())
        .release(false)
        .build_config();
    assert!(c.standalone);
    assert_eq!(c.target.as_deref(), Some("aarch64-apple-darwin"));
    assert!(!c.release);
}
