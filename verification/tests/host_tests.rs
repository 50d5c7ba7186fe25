use mbit::host::{
    bridge_args, bridge_output, choose_bridge_path, entry_point, nanos_as_i64, now_nanos,
    take_input_chunk,
};

#[test]
fn input_chunks_come_from_the_front() {
    let mut buf = b"hello world".to_vec();
    assert_eq!(take_input_chunk(&mut buf, 5), "hello");
    assert_eq!(buf, b" world".to_vec());
    assert_eq!(take_input_chunk(&mut buf, 100), " world");
    assert!(buf.is_empty());
    assert_eq!(take_input_chunk(&mut buf, 3), "");
}

#[test]
fn input_chunk_default_size() {
    let mut buf = vec![b'x'; 3000];
    assert_eq!(take_input_chunk(&mut buf, 0).len(), 1024);
    assert_eq!(take_input_chunk(&mut buf, -7).len(), 1024);
    assert_eq!(buf.len(), 3000 - 2048);
}

#[test]
fn input_chunk_replaces_invalid_utf8() {
    let mut buf = vec![0xe2, 0x82, 0xac, b'a'];
    // Cutting a character in two leaves a replacement character.
    assert_eq!(take_input_chunk(&mut buf, 2), "\u{fffd}");
    assert_eq!(buf, vec![0xac, b'a']);
}

#[test]
fn bridge_arguments_are_the_non_empty_lines() {
    assert_eq!(bridge_args("status\n\n--json\n"), vec!["status".to_string(), "--json".to_string()]);
    assert_eq!(bridge_args(""), Vec::<String>::new());
    assert_eq!(bridge_args("\n\n"), Vec::<String>::new());
    assert_eq!(bridge_args("a b\nc"), vec!["a b".to_string(), "c".to_string()]);
}

#[test]
fn bridge_output_joins_and_trims() {
    assert_eq!(bridge_output(b"  out  \n", b""), "out");
    assert_eq!(bridge_output(b"out\n", b"err\n"), "out\n\nerr");
    assert_eq!(bridge_output(b"", b" err "), "err");
    assert_eq!(bridge_output(b"", b""), "");
}

#[test]
fn bridge_path_choice() {
    assert_eq!(choose_bridge_path(Some("/opt/br".to_string()), Some(b"/usr/bin/br\n".to_vec())), "/opt/br");
    assert_eq!(choose_bridge_path(None, Some(b"/usr/bin/br\n".to_vec())), "/usr/bin/br");
    assert_eq!(choose_bridge_path(None, None), "br");
}

#[test]
fn clock_conversion() {
    assert_eq!(nanos_as_i64(None), 0);
    assert_eq!(nanos_as_i64(Some(42)), 42);
    assert_eq!(nanos_as_i64(Some(1u128 << 64)), 0);
    assert!(now_nanos() > 0);
}

#[test]
fn entry_point_order() {
    assert_eq!(entry_point(true, true, true), Some("_start"));
    assert_eq!(entry_point(false, true, true), Some("mcp"));
    assert_eq!(entry_point(false, false, true), Some("run"));
    assert_eq!(entry_point(false, false, false), None);
}
