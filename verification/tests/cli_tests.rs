use mbit::cli::{parse_args, CliError, Command};
use mbit::config::Transport;

fn args(v: &[&str]) -> Vec<String> {
    let mut a = vec!["mbit".to_string()];
    a.extend(v.iter().map(|s| s.to_string()));
    a
}

#[test]
fn no_command() {
    assert!(matches!(parse_args(&args(&[])), Ok(Command::Missing)));
}

#[test]
fn build_defaults_to_release() {
    match parse_args(&args(&["build"])) {
        Ok(Command::Build { release, standalone, target, quiet }) => {
            assert!(release && !standalone && target.is_none() && !quiet);
        }
        _ => panic!(),
    }
}

#[test]
fn build_options() {
    match parse_args(&args(&["build", "--debug", "--standalone", "-t", "x86_64-pc-windows-gnu", "-q"])) {
        Ok(Command::Build { release, standalone, target, quiet }) => {
            assert!(!release && standalone && quiet);
            assert_eq!(target.as_deref(), Some("x86_64-pc-windows-gnu"));
        }
        _ => panic!(),
    }
    match parse_args(&args(&["build", "--target"])) {
        Ok(Command::Build { target, .. }) => assert!(target.is_none()),
        _ => panic!(),
    }
}

#[test]
fn run_path() {
    match parse_args(&args(&["run"])) {
        Ok(Command::Run { wasm_path }) => assert!(wasm_path.is_none()),
        _ => panic!(),
    }
    match parse_args(&args(&["run", "a.wasm", "b"])) {
        Ok(Command::Run { wasm_path }) => assert_eq!(wasm_path.as_deref(), Some("a.wasm")),
        _ => panic!(),
    }
}

#[test]
fn mcp_stdio() {
    match parse_args(&args(&["mcp", "--stdio", "server.wasm", "-b", "mybr", "--port", "9"])) {
        Ok(Command::Mcp(c)) => {
            assert_eq!(c.transport, Transport::Stdio);
            // The last non-option argument is the module.
            assert_eq!(c.wasm_path, "9");
            assert_eq!(c.bridge_command, "mybr");
            assert_eq!(c.port, 8080);
            assert_eq!(c.host, "127.0.0.1");
            assert!(!c.quiet);
        }
        _ => panic!(),
    }
}

#[test]
fn mcp_sse() {
    match parse_args(&args(&["mcp", "--sse", "-p", "9000", "-H", "0.0.0.0", "--quiet", "s.wasm"])) {
        Ok(Command::Mcp(c)) => {
            assert_eq!(c.transport, Transport::Sse);
            assert_eq!(c.wasm_path, "s.wasm");
            assert_eq!(c.port, 9000);
            assert_eq!(c.host, "0.0.0.0");
            assert_eq!(c.bridge_command, "br");
            assert!(c.quiet);
        }
        _ => panic!(),
    }
    match parse_args(&args(&["mcp", "--sse", "--stdio", "--port", "70000", "s.wasm"])) {
        Ok(Command::Mcp(c)) => {
            assert_eq!(c.transport, Transport::Stdio);
            assert_eq!(c.port, 8080);
        }
        _ => panic!(),
    }
    match parse_args(&args(&["mcp", "--sse", "--port", "70000", "s.wasm"])) {
        Ok(Command::Mcp(c)) => assert_eq!(c.port, 8080),
        _ => panic!(),
    }
}

#[test]
fn mcp_errors() {
    assert!(matches!(parse_args(&args(&["mcp", "s.wasm"])), Err(CliError::MissingTransport)));
    assert!(matches!(parse_args(&args(&["mcp", "--stdio"])), Err(CliError::MissingWasmPath)));
    assert!(matches!(parse_args(&args(&["mcp", "--stdio", "-x", "--y"])), Err(CliError::MissingWasmPath)));
}

#[test]
fn test_and_bench_pass_arguments_on() {
    match parse_args(&args(&["test", "-p", "pkg", "--release"])) {
        Ok(Command::Test(rest)) => assert_eq!(rest, vec!["-p", "pkg", "--release"]),
        _ => panic!(),
    }
    match parse_args(&args(&["bench"])) {
        Ok(Command::Bench(rest)) => assert!(rest.is_empty()),
        _ => panic!(),
    }
}

#[test]
fn help_and_unknown() {
    for h in ["help", "--help", "-h"] {
        assert!(matches!(parse_args(&args(&[h])), Ok(Command::Help)));
    }
    match parse_args(&args(&["deploy"])) {
        Err(CliError::UnknownCommand(s)) => assert_eq!(s, "deploy"),
        _ => panic!(),
    }
}
