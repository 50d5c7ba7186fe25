use mbit::handles::{
    encode_scalar_bytes, is_scalar_value, make_read_body, HandleMap, HostValue,
    StringReadBodyState, HOST_ABI_VERSION,
};

fn read_all(st: &mut StringReadBodyState) -> Vec<i32> {
    let mut out = Vec::new();
    loop {
        let c = st.read_char();
        out.push(c);
        if c == -1 {
            return out;
        }
    }
}

#[test]
fn read_char_walks_through_the_characters() {
    let mut st = StringReadBodyState { s: "aé€😀".to_string(), pos: 0 };
    assert_eq!(read_all(&mut st), vec![0x61, 0xe9, 0x20ac, 0x1f600, -1]);
    assert_eq!(st.pos, st.s.len());
    // At the end it keeps answering -1 without moving.
    assert_eq!(st.read_char(), -1);
    assert_eq!(st.pos, st.s.len());
}

#[test]
fn read_char_inside_a_character_gives_the_byte() {
    let mut st = StringReadBodyState { s: "é!".to_string(), pos: 1 };
    assert_eq!(st.read_char(), 0xa9);
    assert_eq!(st.pos, 2);
    assert_eq!(st.read_char(), '!' as i32);
    assert_eq!(st.read_char(), -1);
}

#[test]
fn read_char_past_the_end() {
    let mut st = StringReadBodyState { s: "ab".to_string(), pos: 7 };
    assert_eq!(st.read_char(), -1);
    assert_eq!(st.pos, 7);
}

#[test]
fn encoding_matches_std() {
    for cp in [0u32, 0x41, 0x7f, 0x80, 0x7ff, 0x800, 0xd7ff, 0xe000, 0xffff, 0x10000, 0x10ffff] {
        let c = char::from_u32(cp).unwrap();
        let mut buf = [0u8; 4];
        assert!(is_scalar_value(cp));
        assert_eq!(encode_scalar_bytes(cp), c.encode_utf8(&mut buf).as_bytes().to_vec());
    }
    for cp in [0xd800u32, 0xdfff, 0x110000, u32::MAX] {
        assert!(!is_scalar_value(cp));
    }
}

#[test]
fn handle_table_stores_and_forgets() {
    let mut m = HandleMap::new();
    assert!(m.get(3).is_none());
    m.insert_at(3, make_read_body("hi".to_string()));
    match m.get(3) {
        Some(HostValue::ReadBody(st)) => {
            assert_eq!(st.s, "hi");
            assert_eq!(st.pos, 0);
        }
        _ => panic!("missing handle"),
    }
    assert!(m.get(4).is_none());
    assert!(m.remove(3).is_some());
    assert!(m.get(3).is_none());
    assert!(m.remove(3).is_none());
}

#[test]
fn built_string_reads_back() {
    let mut m = HandleMap::new();
    m.begin_create_string(10);
    for cp in ['h' as u32, 0xe9, 0xd800, 0x1f600, 0x110000, '!' as u32] {
        m.string_append_char(10, cp);
    }
    let s = m.take_created_string(10);
    assert_eq!(s, "hé😀!");
    // The body stays, emptied.
    match m.get(10) {
        Some(HostValue::CreateBody(b)) => assert!(b.is_empty()),
        _ => panic!("body gone"),
    }
    m.insert_at(11, make_read_body(s));
    assert_eq!(m.read_handle_or_empty(11), "hé😀!");
    let mut got = Vec::new();
    loop {
        let c = m.string_read_char(11);
        if c == -1 {
            break;
        }
        got.push(char::from_u32(c as u32).unwrap());
    }
    assert_eq!(got.into_iter().collect::<String>(), "hé😀!");
    m.finish_read_string(11);
    assert!(m.read_handle(11).is_none());
    assert_eq!(m.string_read_char(11), -1);
}

#[test]
fn invalid_bytes_are_replaced_when_finishing() {
    let mut m = HandleMap::new();
    m.insert_at(1, HostValue::CreateBody(vec![b'a', 0xff, b'b']));
    assert_eq!(m.take_created_string(1), "a\u{fffd}b");
}

#[test]
fn handles_of_the_wrong_kind_are_left_alone() {
    let mut m = HandleMap::new();
    m.insert_at(1, make_read_body("x".to_string()));
    m.string_append_char(1, 'y' as u32);
    assert_eq!(m.take_created_string(1), "");
    assert_eq!(m.read_handle_or_empty(1), "x");
    m.begin_create_string(2);
    assert_eq!(m.string_read_char(2), -1);
    assert!(m.read_handle(2).is_none());
    assert_eq!(m.read_handle_or_empty(2), "");
    assert_eq!(m.take_created_string(99), "");
}

#[test]
fn abi_version() {
    assert_eq!(HOST_ABI_VERSION, 1);
}
