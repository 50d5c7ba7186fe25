//! Host-side state behind the opaque string handles that a MoonBit MCP
//! module passes to its host: strings being built one character at a time,
//! strings being read one character at a time, and the map from raw handle
//! numbers to them.
use std::collections::HashMap;
use vstd::prelude::*;
use vstd::string::*;
use vstd::utf8::*;
use vstd::std_specs::hash::*;
use crate::stdlib::{string_from_utf8_lossy, utf8_lossy};

verus! {

broadcast use vstd::std_specs::hash::group_hash_axioms;

/// The ABI version that `host_br_version` reports.
pub const HOST_ABI_VERSION: i32 = 1;

/// A string being read one character at a time; `pos` is a byte offset into
/// the UTF-8 encoding of `s`.
pub struct StringReadBodyState {
    pub s: String,
    pub pos: usize,
}

/// The UTF-8 bytes of a string.
pub open spec fn utf8_bytes(s: Seq<char>) -> Seq<u8> {
    encode_utf8(s)
}

/// The bytes of `s` from byte offset `pos` on.
pub open spec fn bytes_from(s: Seq<char>, pos: int) -> Seq<u8> {
    utf8_bytes(s).subrange(pos, utf8_bytes(s).len() as int)
}

/// What `read_char` returns, and the position after it, for a string and a
/// byte position: -1 at the end; the next character's code point when the
/// rest of the bytes is valid UTF-8 (that is, when `pos` is on a character
/// boundary); and the single byte otherwise.
pub open spec fn read_char_result(s: Seq<char>, pos: int) -> (i32, int) {
    let b = utf8_bytes(s);
    if pos >= b.len() {
        (-1i32, pos)
    } else if valid_utf8(bytes_from(s, pos)) {
        (
            decode_first_scalar(bytes_from(s, pos)) as i32,
            pos + length_of_first_scalar(bytes_from(s, pos)),
        )
    } else {
        (b[pos] as i32, pos + 1)
    }
}

/// Reading never moves backwards or past the end: before the end the
/// position advances by one to four bytes; at or past the end it stays and
/// the result is -1.
pub proof fn lemma_read_char_progress(s: Seq<char>, pos: int)
    requires
        0 <= pos,
    ensures
        pos < utf8_bytes(s).len() ==> pos < read_char_result(s, pos).1 <= utf8_bytes(s).len()
            && read_char_result(s, pos).1 <= pos + 4,
        pos >= utf8_bytes(s).len() ==> read_char_result(s, pos) == (-1i32, pos),
{
    let b = utf8_bytes(s);
    if pos < b.len() {
        let rest = bytes_from(s, pos);
        if valid_utf8(rest) {
            assert(rest.len() > 0);
            assert(valid_first_scalar(rest));
        }
    }
}

/// Decodes the scalar whose encoding starts at `p`.
fn decode_scalar_at(b: &[u8], p: usize) -> (res: (u32, usize))
    requires
        p < b@.len(),
        valid_first_scalar(b@.subrange(p as int, b@.len() as int)),
    ensures
        res.0 == decode_first_scalar(b@.subrange(p as int, b@.len() as int)),
        res.1 == length_of_first_scalar(b@.subrange(p as int, b@.len() as int)),
        p + res.1 <= b@.len(),
{
    let ghost rest = b@.subrange(p as int, b@.len() as int);
    let b0 = b[p];
    assert(rest[0] == b0);
    if b0 <= 0x7f {
        ((b0 & 0x7F) as u32, 1)
    } else if 0xc0 <= b0 && b0 <= 0xdf {
        let b1 = b[p + 1];
        assert(rest[1] == b1);
        ((((b0 & 0x1F) as u32) << 6) | ((b1 & 0x3f) as u32), 2)
    } else if 0xe0 <= b0 && b0 <= 0xef {
        let b1 = b[p + 1];
        let b2 = b[p + 2];
        assert(rest[1] == b1 && rest[2] == b2);
        ((((b0 & 0x0F) as u32) << 12) | (((b1 & 0x3f) as u32) << 6) | ((b2 & 0x3f) as u32), 3)
    } else {
        let b1 = b[p + 1];
        let b2 = b[p + 2];
        let b3 = b[p + 3];
        assert(rest[1] == b1 && rest[2] == b2 && rest[3] == b3);
        (
            (((b0 & 0x07) as u32) << 18) | (((b1 & 0x3f) as u32) << 12) | (((b2 & 0x3f) as u32)
                << 6) | ((b3 & 0x3f) as u32),
            4,
        )
    }
}

impl StringReadBodyState {
    /// Reads the character at the current byte position and moves past it.
    /// Returns -1 at the end. Where the remaining bytes are not valid UTF-8,
    /// which happens when the position is inside a character, the single
    /// byte at the position is returned instead and the position moves by
    /// one.
    pub fn read_char(&mut self) -> (r: i32)
        ensures
            final(self).s == old(self).s,
            (r, final(self).pos as int) == read_char_result(old(self).s@, old(self).pos as int),
    {
        let bytes = self.s.as_str().as_bytes();
        let ghost s = self.s@;
        let ghost b = utf8_bytes(s);
        assert(bytes@ == b);
        let pos = self.pos;
        if pos >= bytes.len() {
            return -1;
        }
        proof {
            broadcast use encode_utf8_valid_utf8;
            assert(valid_utf8(b));
            is_char_boundary_iff_not_is_continuation_byte(b, pos as int);
        }
        let b0 = bytes[pos];
        if 0x80 <= b0 && b0 <= 0xbf {
            proof {
                let rest = bytes_from(s, pos as int);
                assert(rest[0] == b0);
                assert(!valid_first_scalar(rest));
            }
            self.pos = pos + 1;
            return b0 as i32;
        }
        proof {
            valid_utf8_split(b, pos as int);
            let rest = bytes_from(s, pos as int);
            assert(rest.len() > 0);
            assert(valid_first_scalar(rest));
        }
        let (cp, len) = decode_scalar_at(bytes, pos);
        self.pos = pos + len;
        cp as i32
    }
}

/// The encoding of the `k`-th character of `s` starts at the byte offset that
/// the characters before it take up, and the bytes from there on are valid
/// UTF-8 beginning with that character.
pub proof fn lemma_char_at_offset(s: Seq<char>, k: int)
    requires
        0 <= k < s.len(),
    ensures
        ({
            let p = utf8_bytes(s.take(k)).len() as int;
            let rest = bytes_from(s, p);
            &&& valid_utf8(rest)
            &&& decode_first_scalar(rest) == s[k] as u32
            &&& p + length_of_first_scalar(rest) == utf8_bytes(s.take(k + 1)).len()
        }),
{
    broadcast use encode_utf8_valid_utf8;

    lemma_encode_concat(s.take(k), s.skip(k));
    assert(s.take(k) + s.skip(k) =~= s);
    let p = utf8_bytes(s.take(k)).len() as int;
    let rest = bytes_from(s, p);
    assert(rest =~= encode_utf8(s.skip(k)));
    encode_utf8_first_scalar(s.skip(k));
    lemma_encode_concat(s.take(k), seq![s[k]]);
    assert(s.take(k) + seq![s[k]] =~= s.take(k + 1));
    assert(seq![s[k]].drop_first() =~= Seq::<char>::empty());
    assert(encode_utf8(Seq::<char>::empty()) =~= Seq::<u8>::empty());
    assert(encode_utf8(seq![s[k]]) == encode_scalar(seq![s[k]][0] as u32) + encode_utf8(
        seq![s[k]].drop_first(),
    ));
    assert(encode_utf8(seq![s[k]]) =~= encode_scalar(s[k] as u32));
}

/// Reading a string from its start yields its characters in order, each
/// returned as its code point, and -1 once every byte has been read: from the
/// byte offset of the `k`-th character, `read_char` returns that character
/// and moves to the offset of the next one.
pub proof fn lemma_read_chars_in_order(s: Seq<char>, k: int)
    requires
        0 <= k <= s.len(),
    ensures
        k < s.len() ==> read_char_result(s, utf8_bytes(s.take(k)).len() as int) == (
            s[k] as u32 as i32,
            utf8_bytes(s.take(k + 1)).len() as int,
        ),
        k == s.len() ==> read_char_result(s, utf8_bytes(s.take(k)).len() as int).0 == -1,
{
    if k < s.len() {
        lemma_char_at_offset(s, k);
        lemma_encode_len_prefix(s, k + 1);
    } else {
        assert(s.take(k) =~= s);
    }
}

proof fn lemma_encode_len_prefix(s: Seq<char>, k: int)
    requires
        0 <= k <= s.len(),
    ensures
        utf8_bytes(s.take(k)).len() <= utf8_bytes(s).len(),
{
    lemma_encode_concat(s.take(k), s.skip(k));
    assert(s.take(k) + s.skip(k) =~= s);
}

/// The encoding of a concatenation is the concatenation of the encodings.
pub proof fn lemma_encode_concat(a: Seq<char>, b: Seq<char>)
    ensures
        encode_utf8(a + b) == encode_utf8(a) + encode_utf8(b),
    decreases a.len(),
{
    if a.len() == 0 {
        assert(a + b =~= b);
        assert(encode_utf8(a) =~= Seq::<u8>::empty());
        assert(encode_utf8(a) + encode_utf8(b) =~= encode_utf8(b));
    } else {
        lemma_encode_concat(a.drop_first(), b);
        assert((a + b).drop_first() =~= a.drop_first() + b);
        assert((a + b)[0] == a[0]);
        assert(encode_utf8(a + b) =~= encode_scalar(a[0] as u32) + encode_utf8(a.drop_first() + b));
    }
}

/// A value stored under a handle is what a lookup finds there; removing a
/// handle forgets it; storing or removing one handle leaves every other
/// handle as it was.
pub proof fn lemma_handle_table(m: Map<u32, HostValue>, raw: u32, other: u32, v: HostValue)
    requires
        raw != other,
    ensures
        m.insert(raw, v).contains_key(raw) && m.insert(raw, v)[raw] == v,
        !m.remove(raw).contains_key(raw),
        m.insert(raw, v).contains_key(other) == m.contains_key(other),
        m.contains_key(other) ==> m.insert(raw, v)[other] == m[other],
        m.remove(raw).contains_key(other) == m.contains_key(other),
        m.contains_key(other) ==> m.remove(raw)[other] == m[other],
{
}

/* UTF-8 encoding of one scalar */

/// The UTF-8 encoding of a Unicode scalar value, as `char::encode_utf8`
/// writes it.
pub fn encode_scalar_bytes(v: u32) -> (r: Vec<u8>)
    requires
        is_scalar(v),
    ensures
        r@ == encode_scalar(v),
{
    let mut r: Vec<u8> = Vec::new();
    if v <= 0x7F {
        r.push((v & 0x7F) as u8);
    } else if v <= 0x7FF {
        r.push(0xC0 | ((v >> 6) & 0x1F) as u8);
        r.push(0x80 | (v & 0x3F) as u8);
    } else if v <= 0xFFFF {
        r.push(0xE0 | ((v >> 12) & 0x0F) as u8);
        r.push(0x80 | ((v >> 6) & 0x3F) as u8);
        r.push(0x80 | (v & 0x3F) as u8);
    } else {
        r.push(0xF0 | ((v >> 18) & 0x7) as u8);
        r.push(0x80 | ((v >> 12) & 0x3F) as u8);
        r.push(0x80 | ((v >> 6) & 0x3F) as u8);
        r.push(0x80 | (v & 0x3F) as u8);
    }
    assert(r@ =~= encode_scalar(v));
    r
}

/// Whether a number is a Unicode scalar value, the test that `char::from_u32`
/// makes.
pub fn is_scalar_value(v: u32) -> (r: bool)
    ensures
        r == is_scalar(v),
{
    v <= 0x10FFFF && !(0xD800 <= v && v <= 0xDFFF)
}

/* The handle table */

/// What a handle stands for: a string under construction (its UTF-8 bytes so
/// far), or a string being read.
pub enum HostValue {
    CreateBody(Vec<u8>),
    ReadBody(StringReadBodyState),
}

/// Abstract view of a handle's value.
pub enum HostValueView {
    CreateBody(Seq<u8>),
    ReadBody(Seq<char>, int),
}

impl HostValue {
    pub open spec fn view(&self) -> HostValueView {
        match self {
            HostValue::CreateBody(b) => HostValueView::CreateBody(b@),
            HostValue::ReadBody(st) => HostValueView::ReadBody(st.s@, st.pos as int),
        }
    }
}

/// The bytes after appending a code point to a string under construction:
/// its UTF-8 encoding when it is a Unicode scalar, nothing otherwise.
pub open spec fn append_code_point(bytes: Seq<u8>, cp: u32) -> Seq<u8> {
    if is_scalar(cp) {
        bytes + encode_scalar(cp)
    } else {
        bytes
    }
}

/// The bytes of a string under construction that started empty and was sent
/// the code points `cps`, in order.
pub open spec fn appended_bytes(cps: Seq<u32>) -> Seq<u8>
    decreases cps.len(),
{
    if cps.len() == 0 {
        Seq::empty()
    } else {
        append_code_point(appended_bytes(cps.drop_last()), cps.last())
    }
}

/// The characters among `cps` that are Unicode scalar values, in order.
pub open spec fn scalar_chars(cps: Seq<u32>) -> Seq<char>
    decreases cps.len(),
{
    if cps.len() == 0 {
        Seq::empty()
    } else if is_scalar(cps.last()) {
        scalar_chars(cps.drop_last()).push(cps.last() as char)
    } else {
        scalar_chars(cps.drop_last())
    }
}

/// A string built by appending code points holds valid UTF-8, and finishing
/// it gives back exactly the code points that are Unicode scalar values, in
/// the order they were sent; the others were dropped.
pub proof fn lemma_created_text(cps: Seq<u32>)
    ensures
        appended_bytes(cps) == utf8_bytes(scalar_chars(cps)),
        valid_utf8(appended_bytes(cps)),
        decode_utf8(appended_bytes(cps)) == scalar_chars(cps),
    decreases cps.len(),
{
    broadcast use encode_utf8_valid_utf8, encode_utf8_decode_utf8;

    if cps.len() == 0 {
        assert(encode_utf8(Seq::<char>::empty()) =~= Seq::<u8>::empty());
    } else {
        lemma_created_text(cps.drop_last());
        let prev = scalar_chars(cps.drop_last());
        let cp = cps.last();
        if is_scalar(cp) {
            let c = cp as char;
            assert(c as u32 == cp);
            lemma_encode_concat(prev, seq![c]);
            assert(prev + seq![c] =~= prev.push(c));
            assert(seq![c].drop_first() =~= Seq::<char>::empty());
            assert(encode_utf8(Seq::<char>::empty()) =~= Seq::<u8>::empty());
            assert(encode_utf8(seq![c]) == encode_scalar(seq![c][0] as u32) + encode_utf8(
                seq![c].drop_first(),
            ));
            assert(encode_utf8(seq![c]) =~= encode_scalar(cp));
        }
    }
}

/// Map from raw handle numbers to what they stand for.
pub struct HandleMap {
    map: HashMap<u32, HostValue>,
}

impl HandleMap {
    /// The handles and their values.
    pub closed spec fn handles(&self) -> Map<u32, HostValue> {
        self.map@
    }

    /// The handles and the views of their values.
    pub open spec fn view(&self) -> Map<u32, HostValueView> {
        Map::new(|k: u32| self.handles().contains_key(k), |k: u32| self.handles()[k].view())
    }

    /// An empty table.
    pub fn new() -> (m: Self)
        ensures
            m.handles() == Map::<u32, HostValue>::empty(),
    {
        HandleMap { map: HashMap::new() }
    }

    /// Stores `v` under `raw`, replacing what was there.
    pub fn insert_at(&mut self, raw: u32, v: HostValue)
        ensures
            final(self).handles() == old(self).handles().insert(raw, v),
    {
        self.map.insert(raw, v);
    }

    /// The value stored under `raw`, if any.
    pub fn get(&self, raw: u32) -> (r: Option<&HostValue>)
        ensures
            match r {
                Some(v) => self.handles().contains_key(raw) && *v == self.handles()[raw],
                None => !self.handles().contains_key(raw),
            },
    {
        self.map.get(&raw)
    }

    /// Removes the value stored under `raw` and gives it back, if any.
    pub fn remove(&mut self, raw: u32) -> (r: Option<HostValue>)
        ensures
            final(self).handles() == old(self).handles().remove(raw),
            match r {
                Some(v) => old(self).handles().contains_key(raw) && v == old(self).handles()[raw],
                None => !old(self).handles().contains_key(raw),
            },
    {
        self.map.remove(&raw)
    }

    /// `host_begin_create_string`: `raw` now stands for an empty string under
    /// construction.
    pub fn begin_create_string(&mut self, raw: u32)
        ensures
            final(self)@ == old(self)@.insert(raw, HostValueView::CreateBody(Seq::empty())),
    {
        let v: Vec<u8> = Vec::new();
        self.insert_at(raw, HostValue::CreateBody(v));
        assert(final(self)@ =~= old(self)@.insert(raw, HostValueView::CreateBody(Seq::empty())));
    }

    /// `host_string_append_char`: when `raw` stands for a string under
    /// construction and `cp` is a Unicode scalar value, appends its UTF-8
    /// encoding; otherwise nothing changes.
    pub fn string_append_char(&mut self, raw: u32, cp: u32)
        ensures
            (old(self)@.contains_key(raw) && old(self)@[raw] is CreateBody) ==> final(self)@
                == old(self)@.insert(
                raw,
                HostValueView::CreateBody(append_code_point(old(self)@[raw]->CreateBody_0, cp)),
            ),
            !(old(self)@.contains_key(raw) && old(self)@[raw] is CreateBody) ==> final(self)@
                == old(self)@,
    {
        match self.map.remove(&raw) {
            Some(HostValue::CreateBody(mut bytes)) => {
                let ghost old_bytes = bytes@;
                if is_scalar_value(cp) {
                    let mut enc = encode_scalar_bytes(cp);
                    bytes.append(&mut enc);
                }
                self.map.insert(raw, HostValue::CreateBody(bytes));
                proof {
                    assert(old(self)@.contains_key(raw));
                    assert(old(self)@[raw] == HostValueView::CreateBody(old_bytes));
                }
                assert(final(self)@ =~= old(self)@.insert(
                    raw,
                    HostValueView::CreateBody(append_code_point(old_bytes, cp)),
                ));
            },
            Some(other) => {
                self.map.insert(raw, other);
                assert(final(self).handles() =~= old(self).handles());
                assert(final(self)@ =~= old(self)@);
            },
            None => {
                assert(final(self).handles() =~= old(self).handles());
                assert(final(self)@ =~= old(self)@);
            },
        }
    }

    /// `host_finish_create_string`, first half: takes the bytes of the string
    /// under construction at `raw`, leaving it empty, and gives the text that
    /// `String::from_utf8_lossy` makes of them; the empty string when `raw`
    /// stands for no string under construction.
    pub fn take_created_string(&mut self, raw: u32) -> (s: String)
        ensures
            (old(self)@.contains_key(raw) && old(self)@[raw] is CreateBody) ==> {
                &&& s@ == utf8_lossy(old(self)@[raw]->CreateBody_0)
                &&& valid_utf8(old(self)@[raw]->CreateBody_0) ==> s@ == decode_utf8(
                    old(self)@[raw]->CreateBody_0,
                )
                &&& final(self)@ == old(self)@.insert(raw, HostValueView::CreateBody(Seq::empty()))
            },
            !(old(self)@.contains_key(raw) && old(self)@[raw] is CreateBody) ==> {
                &&& s@ == Seq::<char>::empty()
                &&& final(self)@ == old(self)@
            },
    {
        match self.map.remove(&raw) {
            Some(HostValue::CreateBody(bytes)) => {
                let s = string_from_utf8_lossy(bytes.as_slice());
                let empty: Vec<u8> = Vec::new();
                self.map.insert(raw, HostValue::CreateBody(empty));
                proof {
                    assert(old(self)@[raw] == HostValueView::CreateBody(bytes@));
                }
                assert(final(self)@ =~= old(self)@.insert(
                    raw,
                    HostValueView::CreateBody(Seq::empty()),
                ));
                s
            },
            Some(other) => {
                self.map.insert(raw, other);
                assert(final(self).handles() =~= old(self).handles());
                assert(final(self)@ =~= old(self)@);
                String::new()
            },
            None => {
                assert(final(self).handles() =~= old(self).handles());
                assert(final(self)@ =~= old(self)@);
                String::new()
            },
        }
    }

    /// `read_handle`: a copy of the whole string that `raw` stands for when it
    /// is a string being read.
    pub fn read_handle(&self, raw: u32) -> (r: Option<String>)
        ensures
            (self@.contains_key(raw) && self@[raw] is ReadBody) ==> (r matches Some(s) && s@
                == self@[raw]->ReadBody_0),
            !(self@.contains_key(raw) && self@[raw] is ReadBody) ==> r is None,
    {
        match self.map.get(&raw) {
            Some(HostValue::ReadBody(st)) => Some(st.s.clone()),
            _ => None,
        }
    }

    /// The string that `raw` stands for when it is a string being read, the
    /// empty string otherwise; `host_begin_read_string` and `host_br_run`
    /// start from it.
    pub fn read_handle_or_empty(&self, raw: u32) -> (s: String)
        ensures
            (self@.contains_key(raw) && self@[raw] is ReadBody) ==> s@ == self@[raw]->ReadBody_0,
            !(self@.contains_key(raw) && self@[raw] is ReadBody) ==> s@ == Seq::<char>::empty(),
    {
        match self.read_handle(raw) {
            Some(s) => s,
            None => String::new(),
        }
    }

    /// `host_string_read_char`: reads the next character of the string being
    /// read at `raw`; -1 when `raw` stands for no such string.
    pub fn string_read_char(&mut self, raw: u32) -> (r: i32)
        ensures
            (old(self)@.contains_key(raw) && old(self)@[raw] is ReadBody) ==> {
                let s = old(self)@[raw]->ReadBody_0;
                let pos = old(self)@[raw]->ReadBody_1;
                &&& r == read_char_result(s, pos).0
                &&& final(self)@ == old(self)@.insert(
                    raw,
                    HostValueView::ReadBody(s, read_char_result(s, pos).1),
                )
            },
            !(old(self)@.contains_key(raw) && old(self)@[raw] is ReadBody) ==> {
                &&& r == -1
                &&& final(self)@ == old(self)@
            },
    {
        match self.map.remove(&raw) {
            Some(HostValue::ReadBody(mut st)) => {
                let ghost old_st = st;
                let r = st.read_char();
                self.map.insert(raw, HostValue::ReadBody(st));
                proof {
                    assert(old(self)@[raw] == HostValueView::ReadBody(old_st.s@, old_st.pos as int));
                }
                assert(final(self)@ =~= old(self)@.insert(
                    raw,
                    HostValueView::ReadBody(old_st.s@, st.pos as int),
                ));
                r
            },
            Some(other) => {
                self.map.insert(raw, other);
                assert(final(self).handles() =~= old(self).handles());
                assert(final(self)@ =~= old(self)@);
                -1
            },
            None => {
                assert(final(self).handles() =~= old(self).handles());
                assert(final(self)@ =~= old(self)@);
                -1
            },
        }
    }

    /// `host_finish_read_string`: forgets the handle.
    pub fn finish_read_string(&mut self, raw: u32)
        ensures
            final(self)@ == old(self)@.remove(raw),
    {
        self.map.remove(&raw);
        assert(final(self)@ =~= old(self)@.remove(raw));
    }
}

/// `make_read_body`: a string to be read from its start.
pub fn make_read_body(s: String) -> (v: HostValue)
    ensures
        v@ == HostValueView::ReadBody(s@, 0),
{
    HostValue::ReadBody(StringReadBodyState { s, pos: 0 })
}

} // verus!
