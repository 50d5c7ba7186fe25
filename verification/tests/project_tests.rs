use mbit::project::{
    filename_to_subdir, host_build_command, moon_build_args, moon_pkg_config, standalone_names,
    subdir_for_lowercase,
};

#[test]
fn implementation_files_by_name() {
    assert_eq!(filename_to_subdir("impl-string"), Some("stringUtils"));
    assert_eq!(filename_to_subdir("IMPL-HASH"), Some("hashUtils"));
    assert_eq!(filename_to_subdir("hash-utils"), Some("hashUtils"));
    assert_eq!(filename_to_subdir("MyJson"), Some("jsonUtils"));
    assert_eq!(filename_to_subdir("uuid"), Some("uuidUtils"));
    assert_eq!(filename_to_subdir("string_hash"), Some("stringUtils"));
    assert_eq!(filename_to_subdir("main"), None);
    assert_eq!(subdir_for_lowercase("STRING"), None);
}

#[test]
fn package_settings() {
    assert_eq!(moon_pkg_config("hashUtils"), Some(r#"{ "warn-list": "-44", "import": ["moonbitlang/x/crypto"] }"#));
    assert_eq!(moon_pkg_config("jsonUtils"), Some(r#"{ "warn-list": "-44", "import": ["moonbitlang/core/json"] }"#));
    assert_eq!(moon_pkg_config("uuidUtils"), Some(r#"{ "warn-list": "-44", "import": ["moonbitlang/x/crypto"] }"#));
    assert_eq!(moon_pkg_config("stringUtils"), None);
}

#[test]
fn moon_arguments() {
    assert_eq!(moon_build_args(true), vec!["build", "--target", "wasm", "--release"]);
    assert_eq!(moon_build_args(false), vec!["build", "--target", "wasm"]);
}

#[test]
fn host_compiler() {
    assert_eq!(host_build_command(None, true), ("cargo", vec!["build".to_string(), "--release".to_string()]));
    assert_eq!(host_build_command(None, false), ("cargo", vec!["build".to_string()]));
    assert_eq!(
        host_build_command(Some("aarch64-unknown-linux-gnu"), true),
        ("cross", vec!["build".to_string(), "--release".to_string(), "--target".to_string(), "aarch64-unknown-linux-gnu".to_string()])
    );
    assert_eq!(
        host_build_command(Some("x"), false),
        ("cross", vec!["build".to_string(), "--target".to_string(), "x".to_string()])
    );
}

#[test]
fn standalone_executable_names() {
    let n = standalone_names(Some("x86_64-pc-windows-gnu"), false, true);
    assert_eq!((n.binary.as_str(), n.output.as_str(), n.profile), ("app.exe", "app-x86_64-pc-windows-gnu.exe", "release"));
    let n = standalone_names(Some("aarch64-apple-darwin"), true, false);
    assert_eq!((n.binary.as_str(), n.output.as_str(), n.profile), ("app", "app-aarch64-apple-darwin", "debug"));
    let n = standalone_names(None, true, true);
    assert_eq!((n.binary.as_str(), n.output.as_str()), ("app.exe", "app.exe"));
    let n = standalone_names(None, false, true);
    assert_eq!((n.binary.as_str(), n.output.as_str()), ("app", "app"));
}
