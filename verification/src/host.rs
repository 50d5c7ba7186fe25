//! What the host imports of an MCP module decide besides the string handles:
//! chunks of buffered input, the argument list and the output of the bridge
//! command, the bridge command's path, the clock, and the entry point to call.
use vstd::prelude::*;
use vstd::string::*;
use vstd::utf8::*;
use crate::stdlib::{
    duration_as_nanos, duration_since_epoch, push_char, string_from_utf8_lossy, system_time_now,
    utf8_lossy,
};
use crate::text::{is_ws, skip_ws, to_chars, trim_chars, trim_end_at, trimmed};

verus! {

/* Buffered input */

/// How many bytes a request for `requested` bytes may take: the request when
/// positive, 1024 otherwise.
pub open spec fn chunk_limit(requested: i32) -> int {
    if requested > 0 {
        requested as int
    } else {
        1024
    }
}

/// How many bytes a request takes from a buffer of `len` bytes.
pub open spec fn chunk_len(len: int, requested: i32) -> int {
    if chunk_limit(requested) < len {
        chunk_limit(requested)
    } else {
        len
    }
}

/// `host_read_stdin_chunk`: takes up to `requested` bytes (1024 when it is
/// not positive) from the front of the buffered input and gives them as text,
/// invalid UTF-8 replaced as `String::from_utf8_lossy` does. What is taken
/// and what stays make up the buffer as it was.
pub fn take_input_chunk(buf: &mut Vec<u8>, requested: i32) -> (s: String)
    ensures
        final(buf)@ == old(buf)@.skip(chunk_len(old(buf)@.len() as int, requested)),
        s@ == utf8_lossy(old(buf)@.take(chunk_len(old(buf)@.len() as int, requested))),
        valid_utf8(old(buf)@.take(chunk_len(old(buf)@.len() as int, requested))) ==> s@
            == decode_utf8(old(buf)@.take(chunk_len(old(buf)@.len() as int, requested))),
{
    let max: usize = if requested > 0 {
        requested as usize
    } else {
        1024
    };
    let n = if max < buf.len() {
        max
    } else {
        buf.len()
    };
    let mut taken = buf.split_off(n);
    std::mem::swap(buf, &mut taken);
    assert(taken@ =~= old(buf)@.take(n as int));
    assert(buf@ =~= old(buf)@.skip(n as int));
    string_from_utf8_lossy(taken.as_slice())
}

/// A positive request takes as many bytes as it asks for, or the whole
/// buffer when that is shorter, however large the request; any other request
/// takes up to 1024 bytes. A request for at least what is buffered takes it
/// all and leaves nothing behind.
pub proof fn law_chunk_takes_what_is_asked(b: Seq<u8>, requested: i32)
    ensures
        requested > 0 ==> chunk_len(b.len() as int, requested) == if (requested as int) < b.len() {
            requested as int
        } else {
            b.len() as int
        },
        requested <= 0 ==> chunk_len(b.len() as int, requested) == if 1024 < b.len() {
            1024
        } else {
            b.len() as int
        },
        requested > 0 && b.len() <= requested ==> b.take(chunk_len(b.len() as int, requested))
            == b && b.skip(chunk_len(b.len() as int, requested)) == Seq::<u8>::empty(),
        b.take(chunk_len(b.len() as int, requested)) + b.skip(chunk_len(b.len() as int, requested))
            == b,
{
    let n = chunk_len(b.len() as int, requested);
    assert(b.take(n) + b.skip(n) =~= b);
    if requested > 0 && b.len() <= requested {
        assert(b.take(n) =~= b);
        assert(b.skip(n) =~= Seq::<u8>::empty());
    }
}

/* The bridge command */

/// Index of the first newline at or after `i` (`s.len()` when none).
pub open spec fn next_newline(s: Seq<char>, i: int) -> int
    decreases s.len() - i,
{
    if i < 0 {
        0
    } else if i >= s.len() {
        s.len() as int
    } else if s[i] == '\n' {
        i
    } else {
        next_newline(s, i + 1)
    }
}

pub proof fn lemma_next_newline_bounds(s: Seq<char>, i: int)
    requires
        0 <= i <= s.len(),
    ensures
        i <= next_newline(s, i) <= s.len(),
    decreases s.len() - i,
{
    if i < s.len() && s[i] != '\n' {
        lemma_next_newline_bounds(s, i + 1);
    }
}

/// The non-empty pieces of `s[i..]` between newlines, in order: what
/// `split('\n')` followed by dropping the empty pieces gives.
pub open spec fn nonempty_lines_from(s: Seq<char>, i: int) -> Seq<Seq<char>>
    decreases s.len() - i,
{
    if i < 0 || i > s.len() {
        Seq::empty()
    } else {
        let e = next_newline(s, i);
        proof {
            lemma_next_newline_bounds(s, i);
        }
        let piece = s.subrange(i, e);
        let rest = if e < s.len() {
            nonempty_lines_from(s, e + 1)
        } else {
            Seq::empty()
        };
        if piece.len() == 0 {
            rest
        } else {
            seq![piece] + rest
        }
    }
}

/// A string of the characters `cs[from..to]`.
pub fn string_of_chars(cs: &[char], from: usize, to: usize) -> (r: String)
    requires
        from <= to <= cs@.len(),
    ensures
        r@ == cs@.subrange(from as int, to as int),
{
    let mut r = String::new();
    let mut i = from;
    while i < to
        invariant
            from <= i <= to <= cs@.len(),
            r@ == cs@.subrange(from as int, i as int),
        decreases to - i,
    {
        push_char(&mut r, cs[i]);
        i = i + 1;
        assert(r@ =~= cs@.subrange(from as int, i as int));
    }
    r
}

/// The views of a list of strings.
pub open spec fn string_views(v: Seq<String>) -> Seq<Seq<char>> {
    v.map_values(|x: String| x@)
}

/// `host_br_run`: the arguments for the bridge command are the non-empty
/// lines of the text the module passed.
pub fn bridge_args(text: &str) -> (args: Vec<String>)
    ensures
        string_views(args@) == nonempty_lines_from(text@, 0),
{
    let cs = to_chars(text);
    let mut out: Vec<String> = Vec::new();
    let mut i: usize = 0;
    loop
        invariant
            cs@ == text@,
            i <= cs@.len(),
            string_views(out@) + nonempty_lines_from(cs@, i as int) == nonempty_lines_from(
                cs@,
                0,
            ),
        decreases cs@.len() - i,
    {
        let mut e = i;
        while e < cs.len() && cs[e] != '\n'
            invariant
                i <= e <= cs@.len(),
                next_newline(cs@, e as int) == next_newline(cs@, i as int),
            decreases cs@.len() - e,
        {
            e = e + 1;
        }
        let ghost old_out = out@;
        let ghost rest = if e < cs@.len() {
            nonempty_lines_from(cs@, e + 1)
        } else {
            Seq::<Seq<char>>::empty()
        };
        assert(nonempty_lines_from(cs@, i as int) == if e == i {
            rest
        } else {
            seq![cs@.subrange(i as int, e as int)] + rest
        });
        if e > i {
            let piece = string_of_chars(cs.as_slice(), i, e);
            out.push(piece);
            assert(string_views(out@) =~= string_views(old_out) + seq![
                cs@.subrange(i as int, e as int),
            ]);
        }
        if e >= cs.len() {
            assert(rest =~= Seq::<Seq<char>>::empty());
            assert(string_views(out@) =~= string_views(old_out) + nonempty_lines_from(
                cs@,
                i as int,
            ));
            return out;
        }
        i = e + 1;
    }
}

/// The text the bridge command's output gives: standard output, then
/// standard error when there is any (after a newline when standard output is
/// not empty), each as `String::from_utf8_lossy` reads it, trimmed.
pub open spec fn bridge_output_text(stdout: Seq<u8>, stderr: Seq<u8>) -> Seq<char> {
    let out = utf8_lossy(stdout);
    let combined = if stderr.len() == 0 {
        out
    } else if out.len() == 0 {
        utf8_lossy(stderr)
    } else {
        out.push('\n') + utf8_lossy(stderr)
    };
    trimmed(combined)
}

/// Text that starts and ends with a visible character is its own trim.
proof fn lemma_trimmed_visible(t: Seq<char>)
    requires
        t.len() > 0,
        !is_ws(t[0]),
        !is_ws(t[t.len() - 1]),
    ensures
        trimmed(t) == t,
{
    assert(skip_ws(t, 0) == 0);
    assert(trim_end_at(t, t.len() as int) == t.len());
    assert(t.subrange(0, t.len() as int) =~= t);
}

/// All of standard output is kept, every line of it: with nothing on
/// standard error the text is the whole of standard output, trimmed; with
/// something on standard error, the whole of standard output comes first,
/// then a newline and standard error, trimmed together (standard error alone
/// when standard output gives no text). Standard output that starts and ends
/// with a visible character comes out exactly, newlines and all.
pub proof fn law_bridge_output_keeps_all_output(stdout: Seq<u8>, stderr: Seq<u8>)
    ensures
        stderr.len() == 0 ==> bridge_output_text(stdout, stderr) == trimmed(utf8_lossy(stdout)),
        stderr.len() > 0 && utf8_lossy(stdout).len() > 0 ==> bridge_output_text(stdout, stderr)
            == trimmed(utf8_lossy(stdout) + seq!['\n'] + utf8_lossy(stderr)),
        stderr.len() > 0 && utf8_lossy(stdout).len() == 0 ==> bridge_output_text(stdout, stderr)
            == trimmed(utf8_lossy(stderr)),
        ({
            let t = utf8_lossy(stdout);
            stderr.len() == 0 && t.len() > 0 && !is_ws(t[0]) && !is_ws(t[t.len() - 1])
                ==> bridge_output_text(stdout, stderr) == t
        }),
{
    let t = utf8_lossy(stdout);
    assert(t.push('\n') =~= t + seq!['\n']);
    if stderr.len() == 0 && t.len() > 0 && !is_ws(t[0]) && !is_ws(t[t.len() - 1]) {
        lemma_trimmed_visible(t);
    }
}

/// A string of a sequence of characters.
pub fn string_from_chars(cs: &[char]) -> (r: String)
    ensures
        r@ == cs@,
{
    let r = string_of_chars(cs, 0, cs.len());
    assert(cs@.subrange(0, cs@.len() as int) =~= cs@);
    r
}

/// `run_bridge`: the text that the bridge command's output gives.
pub fn bridge_output(stdout: &[u8], stderr: &[u8]) -> (r: String)
    ensures
        r@ == bridge_output_text(stdout@, stderr@),
        stderr@.len() == 0 && valid_utf8(stdout@) ==> r@ == trimmed(decode_utf8(stdout@)),
{
    let out = string_from_utf8_lossy(stdout);
    let mut cs = to_chars(out.as_str());
    if stderr.len() > 0 {
        let err = string_from_utf8_lossy(stderr);
        let ecs = to_chars(err.as_str());
        if cs.len() > 0 {
            cs.push('\n');
        }
        let mut i: usize = 0;
        let ghost base = cs@;
        while i < ecs.len()
            invariant
                i <= ecs@.len(),
                cs@ == base + ecs@.take(i as int),
            decreases ecs@.len() - i,
        {
            cs.push(ecs[i]);
            i = i + 1;
            assert(cs@ =~= base + ecs@.take(i as int));
        }
        assert(ecs@.take(i as int) =~= ecs@);
        assert(base.len() == 0 ==> cs@ =~= ecs@);
    }
    let t = trim_chars(cs.as_slice());
    string_from_chars(t.as_slice())
}

/// `host_br_path`: the bridge command's path is the environment's setting
/// when there is one, else what a successful lookup printed, trimmed, else
/// `br`.
pub fn choose_bridge_path(env_value: Option<String>, lookup_output: Option<Vec<u8>>) -> (r:
    String)
    ensures
        env_value matches Some(v) ==> r@ == v@,
        (env_value is None && lookup_output is Some) ==> r@ == trimmed(
            utf8_lossy(lookup_output->0@),
        ),
        (env_value is None && lookup_output is None) ==> r@ == "br"@,
{
    match env_value {
        Some(v) => v,
        None => match lookup_output {
            Some(bytes) => {
                let s = string_from_utf8_lossy(bytes.as_slice());
                let cs = to_chars(s.as_str());
                let t = trim_chars(cs.as_slice());
                string_from_chars(t.as_slice())
            },
            None => String::from_str("br"),
        },
    }
}

/* The clock */

/// The clock reading in nanoseconds as `host_time_now` reports it: the
/// duration since the epoch converted with `as i64`, or 0 when the clock
/// stands before the epoch.
pub fn nanos_as_i64(elapsed: Option<u128>) -> (r: i64)
    ensures
        r == match elapsed {
            Some(n) => n as i64,
            None => 0i64,
        },
{
    match elapsed {
        Some(n) => n as i64,
        None => 0,
    }
}

/// `now_nanos`: nanoseconds since the epoch, read from the system clock.
pub fn now_nanos() -> i64 {
    let now = system_time_now();
    let elapsed = match duration_since_epoch(&now) {
        Ok(d) => Some(duration_as_nanos(&d)),
        Err(_) => None,
    };
    nanos_as_i64(elapsed)
}

/* The entry point */

/// The export that runs the module: `_start`, else `mcp`, else `run`,
/// whichever is first present.
pub fn entry_point(has_start: bool, has_mcp: bool, has_run: bool) -> (r: Option<&'static str>)
    ensures
        has_start ==> (r matches Some(n) && n@ == "_start"@),
        (!has_start && has_mcp) ==> (r matches Some(n) && n@ == "mcp"@),
        (!has_start && !has_mcp && has_run) ==> (r matches Some(n) && n@ == "run"@),
        (!has_start && !has_mcp && !has_run) ==> r is None,
{
    if has_start {
        Some("_start")
    } else if has_mcp {
        Some("mcp")
    } else if has_run {
        Some("run")
    } else {
        None
    }
}

} // verus!
