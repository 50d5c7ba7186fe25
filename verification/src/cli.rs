//! The command line of `mbit`: which command runs, with which settings.
use vstd::prelude::*;
use vstd::string::*;
use crate::config::{McpConfig, Transport};
use crate::text::{
    decimal, is_digit, lemma_decimal_digits, lemma_decimal_parses_back, parse_decimal,
    parse_unsigned, str_eq, to_chars, unsigned_digits,
};

verus! {

/// The views of the arguments.
pub open spec fn arg_views(args: Seq<String>) -> Seq<Seq<char>> {
    args.map_values(|s: String| s@)
}

/// Index of the first argument at or after `i` that is `long` or `short`
/// (`a.len()` when none).
pub open spec fn first_flag_from(a: Seq<Seq<char>>, long: Seq<char>, short: Seq<char>, i: int) -> int
    decreases a.len() - i,
{
    if i < 0 {
        0
    } else if i >= a.len() {
        a.len() as int
    } else if a[i] == long || a[i] == short {
        i
    } else {
        first_flag_from(a, long, short, i + 1)
    }
}

/// Whether some argument is `long` or `short`.
pub open spec fn has_flag(a: Seq<Seq<char>>, long: Seq<char>, short: Seq<char>) -> bool {
    first_flag_from(a, long, short, 0) < a.len()
}

/// The argument after the first `long` or `short`, if both exist.
pub open spec fn flag_value(a: Seq<Seq<char>>, long: Seq<char>, short: Seq<char>) -> Option<
    Seq<char>,
> {
    let i = first_flag_from(a, long, short, 0);
    if i + 1 < a.len() {
        Some(a[i + 1])
    } else {
        None
    }
}

/// Whether an argument looks like an option (starts with `-`).
pub open spec fn is_option(s: Seq<char>) -> bool {
    s.len() > 0 && s[0] == '-'
}

/// The last argument before index `j`, from index 2 on, that is not an
/// option.
pub open spec fn last_operand_before(a: Seq<Seq<char>>, j: int) -> Option<Seq<char>>
    decreases j,
{
    if j < 3 || j > a.len() {
        None
    } else if !is_option(a[j - 1]) {
        Some(a[j - 1])
    } else {
        last_operand_before(a, j - 1)
    }
}

/// The quiet flag: `--quiet` or `-q` anywhere.
pub open spec fn quiet_of(a: Seq<Seq<char>>) -> bool {
    has_flag(a, "--quiet"@, "-q"@)
}

/// The transport: `--stdio` wins over `--sse`; neither is an error.
pub open spec fn transport_of(a: Seq<Seq<char>>) -> Option<Transport> {
    if has_flag(a, "--stdio"@, "--stdio"@) {
        Some(Transport::Stdio)
    } else if has_flag(a, "--sse"@, "--sse"@) {
        Some(Transport::Sse)
    } else {
        None
    }
}

/// The port: the value after `--port` or `-p` when it parses as a `u16`,
/// 8080 otherwise.
pub open spec fn port_of(a: Seq<Seq<char>>) -> int {
    match flag_value(a, "--port"@, "-p"@) {
        Some(v) => match parse_unsigned(v, 65535) {
            Some(n) => n,
            None => 8080,
        },
        None => 8080,
    }
}

/// The listening address: the value after `--host` or `-H`, `127.0.0.1`
/// otherwise.
pub open spec fn host_of(a: Seq<Seq<char>>) -> Seq<char> {
    match flag_value(a, "--host"@, "-H"@) {
        Some(v) => v,
        None => "127.0.0.1"@,
    }
}

/// The bridge command: the value after `--bridge-cmd` or `-b`, `br`
/// otherwise.
pub open spec fn bridge_of(a: Seq<Seq<char>>) -> Seq<char> {
    match flag_value(a, "--bridge-cmd"@, "-b"@) {
        Some(v) => v,
        None => "br"@,
    }
}

/// What to do.
pub enum Command {
    /// Build the project in the current directory.
    Build { release: bool, standalone: bool, target: Option<String>, quiet: bool },
    /// Run a component, the project's default one when no path is given.
    Run { wasm_path: Option<String> },
    /// Serve a module as an MCP server.
    Mcp(McpConfig),
    /// Run the project's tests with these extra arguments.
    Test(Vec<String>),
    /// Run the project's benchmarks with these extra arguments.
    Bench(Vec<String>),
    /// Print the usage.
    Help,
    /// No command was given.
    Missing,
}

/// Why the command line was refused.
pub enum CliError {
    /// `mcp` without `--stdio` or `--sse`.
    MissingTransport,
    /// `mcp` without a module path.
    MissingWasmPath,
    /// A command that does not exist.
    UnknownCommand(String),
}

/// The view of an optional string.
pub open spec fn opt_view(o: Option<String>) -> Option<Seq<char>> {
    match o {
        Some(s) => Some(s@),
        None => None,
    }
}

/// Index of the first argument at or after `from` that is `long` or `short`.
pub fn find_flag(args: &Vec<String>, long: &str, short: &str) -> (r: usize)
    ensures
        r == first_flag_from(arg_views(args@), long@, short@, 0),
{
    let ghost a = arg_views(args@);
    let mut i: usize = 0;
    while i < args.len()
        invariant
            a == arg_views(args@),
            i <= args@.len(),
            first_flag_from(a, long@, short@, i as int) == first_flag_from(a, long@, short@, 0),
        decreases args@.len() - i,
    {
        if str_eq(args[i].as_str(), long) || str_eq(args[i].as_str(), short) {
            return i;
        }
        i = i + 1;
    }
    i
}

/// Whether some argument is `long` or `short`.
pub fn flag_present(args: &Vec<String>, long: &str, short: &str) -> (r: bool)
    ensures
        r == has_flag(arg_views(args@), long@, short@),
{
    find_flag(args, long, short) < args.len()
}

/// The argument after the first `long` or `short`.
pub fn option_value(args: &Vec<String>, long: &str, short: &str) -> (r: Option<String>)
    ensures
        opt_view(r) == flag_value(arg_views(args@), long@, short@),
{
    let i = find_flag(args, long, short);
    if i < args.len() && i + 1 < args.len() {
        Some(args[i + 1].clone())
    } else {
        None
    }
}

/// The last argument from index 2 on that does not start with `-`.
pub fn last_operand(args: &Vec<String>) -> (r: Option<String>)
    ensures
        opt_view(r) == last_operand_before(arg_views(args@), args@.len() as int),
{
    let ghost a = arg_views(args@);
    let mut j = args.len();
    while j >= 3
        invariant
            a == arg_views(args@),
            j <= args@.len(),
            last_operand_before(a, j as int) == last_operand_before(a, args@.len() as int),
        decreases j,
    {
        let cs = to_chars(args[j - 1].as_str());
        if !(cs.len() > 0 && cs[0] == '-') {
            return Some(args[j - 1].clone());
        }
        j = j - 1;
    }
    None
}

/// The arguments from index `from` on.
pub fn args_from(args: &Vec<String>, from: usize) -> (r: Vec<String>)
    requires
        from <= args@.len(),
    ensures
        arg_views(r@) == arg_views(args@).skip(from as int),
{
    let mut r: Vec<String> = Vec::new();
    let mut i = from;
    while i < args.len()
        invariant
            from <= i <= args@.len(),
            arg_views(r@) == arg_views(args@).subrange(from as int, i as int),
        decreases args@.len() - i,
    {
        let ghost old_r = r@;
        let c = args[i].clone();
        r.push(c);
        assert(arg_views(r@) =~= arg_views(old_r).push(args@[i as int]@));
        i = i + 1;
        assert(arg_views(r@) =~= arg_views(args@).subrange(from as int, i as int));
    }
    assert(arg_views(args@).subrange(from as int, i as int) =~= arg_views(args@).skip(
        from as int,
    ));
    r
}

/// Abstract view of the outcome of reading a command line.
pub enum CommandView {
    Build { release: bool, standalone: bool, target: Option<Seq<char>>, quiet: bool },
    Run { path: Option<Seq<char>> },
    Mcp {
        wasm_path: Seq<char>,
        transport: Transport,
        port: int,
        host: Seq<char>,
        bridge_command: Seq<char>,
        quiet: bool,
    },
    Test(Seq<Seq<char>>),
    Bench(Seq<Seq<char>>),
    Help,
    Missing,
    MissingTransport,
    MissingWasmPath,
    UnknownCommand(Seq<char>),
}

/// What a command line asks for. `build` releases unless `--debug`/`-d` is
/// given, makes a standalone executable with `--standalone`, and takes
/// `--target`/`-t`; `run` takes an optional path; `mcp`
/// needs a transport and a module path (the last argument that is not an
/// option), and uses the host and port only over HTTP; `test` and `bench`
/// pass the remaining arguments on.
pub open spec fn command_of(a: Seq<Seq<char>>) -> CommandView {
    if a.len() < 2 {
        CommandView::Missing
    } else if a[1] == "build"@ {
        CommandView::Build {
            release: !has_flag(a, "--debug"@, "-d"@),
            standalone: has_flag(a, "--standalone"@, "--standalone"@),
            target: flag_value(a, "--target"@, "-t"@),
            quiet: quiet_of(a),
        }
    } else if a[1] == "run"@ {
        CommandView::Run {
            path: if a.len() > 2 {
                Some(a[2])
            } else {
                None
            },
        }
    } else if a[1] == "mcp"@ {
        match transport_of(a) {
            None => CommandView::MissingTransport,
            Some(t) => match last_operand_before(a, a.len() as int) {
                None => CommandView::MissingWasmPath,
                Some(p) => CommandView::Mcp {
                    wasm_path: p,
                    transport: t,
                    port: if t == Transport::Sse {
                        port_of(a)
                    } else {
                        8080
                    },
                    host: if t == Transport::Sse {
                        host_of(a)
                    } else {
                        "127.0.0.1"@
                    },
                    bridge_command: bridge_of(a),
                    quiet: quiet_of(a),
                },
            },
        }
    } else if a[1] == "test"@ {
        CommandView::Test(a.skip(2))
    } else if a[1] == "bench"@ {
        CommandView::Bench(a.skip(2))
    } else if a[1] == "--help"@ || a[1] == "-h"@ || a[1] == "help"@ {
        CommandView::Help
    } else {
        CommandView::UnknownCommand(a[1])
    }
}

/// The view of the outcome of `parse_args`.
pub open spec fn outcome_view(r: Result<Command, CliError>) -> CommandView {
    match r {
        Ok(Command::Build { release, standalone, target, quiet }) => CommandView::Build {
            release,
            standalone,
            target: opt_view(target),
            quiet,
        },
        Ok(Command::Run { wasm_path }) => CommandView::Run { path: opt_view(wasm_path) },
        Ok(Command::Mcp(c)) => CommandView::Mcp {
            wasm_path: c.wasm_path@,
            transport: c.transport,
            port: c.port as int,
            host: c.host@,
            bridge_command: c.bridge_command@,
            quiet: c.quiet,
        },
        Ok(Command::Test(rest)) => CommandView::Test(arg_views(rest@)),
        Ok(Command::Bench(rest)) => CommandView::Bench(arg_views(rest@)),
        Ok(Command::Help) => CommandView::Help,
        Ok(Command::Missing) => CommandView::Missing,
        Err(CliError::MissingTransport) => CommandView::MissingTransport,
        Err(CliError::MissingWasmPath) => CommandView::MissingWasmPath,
        Err(CliError::UnknownCommand(s)) => CommandView::UnknownCommand(s@),
    }
}

/// The first flag at or after a valid index lies between it and the end.
proof fn lemma_first_flag_bounds(a: Seq<Seq<char>>, long: Seq<char>, short: Seq<char>, i: int)
    requires
        0 <= i,
    ensures
        0 <= first_flag_from(a, long, short, i) <= a.len(),
        i <= a.len() ==> i <= first_flag_from(a, long, short, i),
    decreases a.len() - i,
{
    if i < a.len() && !(a[i] == long || a[i] == short) {
        lemma_first_flag_bounds(a, long, short, i + 1);
    }
}

/// Two argument lists in which the same positions hold the flag `long` or
/// `short` find the first of them at the same index.
proof fn lemma_first_flag_same(
    a: Seq<Seq<char>>,
    b: Seq<Seq<char>>,
    long: Seq<char>,
    short: Seq<char>,
    i: int,
)
    requires
        a.len() == b.len(),
        forall|k: int|
            0 <= k < a.len() ==> ((a[k] == long || a[k] == short) <==> (b[k] == long || b[k]
                == short)),
    ensures
        first_flag_from(a, long, short, i) == first_flag_from(b, long, short, i),
    decreases a.len() - i,
{
    if 0 <= i < a.len() && !(a[i] == long || a[i] == short) {
        lemma_first_flag_same(a, b, long, short, i + 1);
    }
}

/// Two argument lists that differ only where both hold options have the
/// same last operand.
proof fn lemma_last_operand_same(a: Seq<Seq<char>>, b: Seq<Seq<char>>, j: int)
    requires
        a.len() == b.len(),
        forall|k: int|
            0 <= k < a.len() && a[k] != b[k] ==> is_option(a[k]) && is_option(b[k]),
    ensures
        last_operand_before(a, j) == last_operand_before(b, j),
    decreases j,
{
    if 3 <= j <= a.len() {
        lemma_last_operand_same(a, b, j - 1);
    }
}

/// The settings that `mcp --sse` reads from a flag `--port` or `-p` and the
/// number after it: the number is the port, whichever spelling is used.
pub proof fn law_sse_port(prog: Seq<char>, flag: Seq<char>, n: u16, path: Seq<char>)
    requires
        flag == "--port"@ || flag == "-p"@,
        !is_option(path),
        !(prog == "--stdio"@ || prog == "--port"@ || prog == "-p"@ || prog == "--host"@ || prog
            == "-H"@ || prog == "--bridge-cmd"@ || prog == "-b"@ || prog == "--quiet"@ || prog
            == "-q"@),
    ensures
        command_of(seq![prog, "mcp"@, "--sse"@, flag, decimal(n as nat), path]) == (
        CommandView::Mcp {
            wasm_path: path,
            transport: Transport::Sse,
            port: n as int,
            host: "127.0.0.1"@,
            bridge_command: "br"@,
            quiet: false,
        }),
{
    reveal_strlit("mcp");
    reveal_strlit("--sse");
    reveal_strlit("--stdio");
    reveal_strlit("--port");
    reveal_strlit("-p");
    reveal_strlit("--host");
    reveal_strlit("-H");
    reveal_strlit("--bridge-cmd");
    reveal_strlit("-b");
    reveal_strlit("--quiet");
    reveal_strlit("-q");
    reveal_strlit("build");
    reveal_strlit("run");
    lemma_option_names();
    let d = decimal(n as nat);
    let a = seq![prog, "mcp"@, "--sse"@, flag, d, path];
    lemma_decimal_digits(n as nat);
    lemma_decimal_parses_back(n as nat, 65535);
    assert(is_digit(d[0]));
    assert(!is_option(d));
    assert(!is_option("mcp"@));
    reveal_with_fuel(first_flag_from, 8);
    reveal_with_fuel(last_operand_before, 3);
    assert(first_flag_from(a, "--stdio"@, "--stdio"@, 0) == 6);
    assert(prog != "--sse"@ ==> first_flag_from(a, "--sse"@, "--sse"@, 0) == 2);
    assert(prog == "--sse"@ ==> first_flag_from(a, "--sse"@, "--sse"@, 0) == 0);
    assert(first_flag_from(a, "--port"@, "-p"@, 0) == 3);
    assert(first_flag_from(a, "--host"@, "-H"@, 0) == 6);
    assert(first_flag_from(a, "--bridge-cmd"@, "-b"@, 0) == 6);
    assert(first_flag_from(a, "--quiet"@, "-q"@, 0) == 6);
    assert(last_operand_before(a, 6) == Some(path));
}

/// The option names that the command line knows are all different, and
/// each starts with `-`.
proof fn lemma_option_names()
    ensures
        "--port"@ != "-p"@,
        "--port"@ != "--host"@,
        "--port"@ != "-H"@,
        "--port"@ != "--bridge-cmd"@,
        "--port"@ != "-b"@,
        "--port"@ != "--target"@,
        "--port"@ != "-t"@,
        "--port"@ != "--debug"@,
        "--port"@ != "-d"@,
        "--port"@ != "--quiet"@,
        "--port"@ != "-q"@,
        "--port"@ != "--stdio"@,
        "--port"@ != "--sse"@,
        "--port"@ != "--standalone"@,
        "-p"@ != "--host"@,
        "-p"@ != "-H"@,
        "-p"@ != "--bridge-cmd"@,
        "-p"@ != "-b"@,
        "-p"@ != "--target"@,
        "-p"@ != "-t"@,
        "-p"@ != "--debug"@,
        "-p"@ != "-d"@,
        "-p"@ != "--quiet"@,
        "-p"@ != "-q"@,
        "-p"@ != "--stdio"@,
        "-p"@ != "--sse"@,
        "-p"@ != "--standalone"@,
        "--host"@ != "-H"@,
        "--host"@ != "--bridge-cmd"@,
        "--host"@ != "-b"@,
        "--host"@ != "--target"@,
        "--host"@ != "-t"@,
        "--host"@ != "--debug"@,
        "--host"@ != "-d"@,
        "--host"@ != "--quiet"@,
        "--host"@ != "-q"@,
        "--host"@ != "--stdio"@,
        "--host"@ != "--sse"@,
        "--host"@ != "--standalone"@,
        "-H"@ != "--bridge-cmd"@,
        "-H"@ != "-b"@,
        "-H"@ != "--target"@,
        "-H"@ != "-t"@,
        "-H"@ != "--debug"@,
        "-H"@ != "-d"@,
        "-H"@ != "--quiet"@,
        "-H"@ != "-q"@,
        "-H"@ != "--stdio"@,
        "-H"@ != "--sse"@,
        "-H"@ != "--standalone"@,
        "--bridge-cmd"@ != "-b"@,
        "--bridge-cmd"@ != "--target"@,
        "--bridge-cmd"@ != "-t"@,
        "--bridge-cmd"@ != "--debug"@,
        "--bridge-cmd"@ != "-d"@,
        "--bridge-cmd"@ != "--quiet"@,
        "--bridge-cmd"@ != "-q"@,
        "--bridge-cmd"@ != "--stdio"@,
        "--bridge-cmd"@ != "--sse"@,
        "--bridge-cmd"@ != "--standalone"@,
        "-b"@ != "--target"@,
        "-b"@ != "-t"@,
        "-b"@ != "--debug"@,
        "-b"@ != "-d"@,
        "-b"@ != "--quiet"@,
        "-b"@ != "-q"@,
        "-b"@ != "--stdio"@,
        "-b"@ != "--sse"@,
        "-b"@ != "--standalone"@,
        "--target"@ != "-t"@,
        "--target"@ != "--debug"@,
        "--target"@ != "-d"@,
        "--target"@ != "--quiet"@,
        "--target"@ != "-q"@,
        "--target"@ != "--stdio"@,
        "--target"@ != "--sse"@,
        "--target"@ != "--standalone"@,
        "-t"@ != "--debug"@,
        "-t"@ != "-d"@,
        "-t"@ != "--quiet"@,
        "-t"@ != "-q"@,
        "-t"@ != "--stdio"@,
        "-t"@ != "--sse"@,
        "-t"@ != "--standalone"@,
        "--debug"@ != "-d"@,
        "--debug"@ != "--quiet"@,
        "--debug"@ != "-q"@,
        "--debug"@ != "--stdio"@,
        "--debug"@ != "--sse"@,
        "--debug"@ != "--standalone"@,
        "-d"@ != "--quiet"@,
        "-d"@ != "-q"@,
        "-d"@ != "--stdio"@,
        "-d"@ != "--sse"@,
        "-d"@ != "--standalone"@,
        "--quiet"@ != "-q"@,
        "--quiet"@ != "--stdio"@,
        "--quiet"@ != "--sse"@,
        "--quiet"@ != "--standalone"@,
        "-q"@ != "--stdio"@,
        "-q"@ != "--sse"@,
        "-q"@ != "--standalone"@,
        "--stdio"@ != "--sse"@,
        "--stdio"@ != "--standalone"@,
        "--sse"@ != "--standalone"@,
        is_option("--port"@),
        is_option("-p"@),
        is_option("--host"@),
        is_option("-H"@),
        is_option("--bridge-cmd"@),
        is_option("-b"@),
        is_option("--target"@),
        is_option("-t"@),
        is_option("--debug"@),
        is_option("-d"@),
        is_option("--quiet"@),
        is_option("-q"@),
        is_option("--stdio"@),
        is_option("--sse"@),
        is_option("--standalone"@),
{
    reveal_strlit("--port");
    reveal_strlit("-p");
    reveal_strlit("--host");
    reveal_strlit("-H");
    reveal_strlit("--bridge-cmd");
    reveal_strlit("-b");
    reveal_strlit("--target");
    reveal_strlit("-t");
    reveal_strlit("--debug");
    reveal_strlit("-d");
    reveal_strlit("--quiet");
    reveal_strlit("-q");
    reveal_strlit("--stdio");
    reveal_strlit("--sse");
    reveal_strlit("--standalone");
    assert("--port"@.len() != "-p"@.len());
    assert("--port"@[2] != "--host"@[2]);
    assert("--port"@.len() != "-H"@.len());
    assert("--port"@.len() != "--bridge-cmd"@.len());
    assert("--port"@.len() != "-b"@.len());
    assert("--port"@.len() != "--target"@.len());
    assert("--port"@.len() != "-t"@.len());
    assert("--port"@.len() != "--debug"@.len());
    assert("--port"@.len() != "-d"@.len());
    assert("--port"@.len() != "--quiet"@.len());
    assert("--port"@.len() != "-q"@.len());
    assert("--port"@.len() != "--stdio"@.len());
    assert("--port"@.len() != "--sse"@.len());
    assert("--port"@.len() != "--standalone"@.len());
    assert("-p"@.len() != "--host"@.len());
    assert("-p"@[1] != "-H"@[1]);
    assert("-p"@.len() != "--bridge-cmd"@.len());
    assert("-p"@[1] != "-b"@[1]);
    assert("-p"@.len() != "--target"@.len());
    assert("-p"@[1] != "-t"@[1]);
    assert("-p"@.len() != "--debug"@.len());
    assert("-p"@[1] != "-d"@[1]);
    assert("-p"@.len() != "--quiet"@.len());
    assert("-p"@[1] != "-q"@[1]);
    assert("-p"@.len() != "--stdio"@.len());
    assert("-p"@.len() != "--sse"@.len());
    assert("-p"@.len() != "--standalone"@.len());
    assert("--host"@.len() != "-H"@.len());
    assert("--host"@.len() != "--bridge-cmd"@.len());
    assert("--host"@.len() != "-b"@.len());
    assert("--host"@.len() != "--target"@.len());
    assert("--host"@.len() != "-t"@.len());
    assert("--host"@.len() != "--debug"@.len());
    assert("--host"@.len() != "-d"@.len());
    assert("--host"@.len() != "--quiet"@.len());
    assert("--host"@.len() != "-q"@.len());
    assert("--host"@.len() != "--stdio"@.len());
    assert("--host"@.len() != "--sse"@.len());
    assert("--host"@.len() != "--standalone"@.len());
    assert("-H"@.len() != "--bridge-cmd"@.len());
    assert("-H"@[1] != "-b"@[1]);
    assert("-H"@.len() != "--target"@.len());
    assert("-H"@[1] != "-t"@[1]);
    assert("-H"@.len() != "--debug"@.len());
    assert("-H"@[1] != "-d"@[1]);
    assert("-H"@.len() != "--quiet"@.len());
    assert("-H"@[1] != "-q"@[1]);
    assert("-H"@.len() != "--stdio"@.len());
    assert("-H"@.len() != "--sse"@.len());
    assert("-H"@.len() != "--standalone"@.len());
    assert("--bridge-cmd"@.len() != "-b"@.len());
    assert("--bridge-cmd"@.len() != "--target"@.len());
    assert("--bridge-cmd"@.len() != "-t"@.len());
    assert("--bridge-cmd"@.len() != "--debug"@.len());
    assert("--bridge-cmd"@.len() != "-d"@.len());
    assert("--bridge-cmd"@.len() != "--quiet"@.len());
    assert("--bridge-cmd"@.len() != "-q"@.len());
    assert("--bridge-cmd"@.len() != "--stdio"@.len());
    assert("--bridge-cmd"@.len() != "--sse"@.len());
    assert("--bridge-cmd"@[2] != "--standalone"@[2]);
    assert("-b"@.len() != "--target"@.len());
    assert("-b"@[1] != "-t"@[1]);
    assert("-b"@.len() != "--debug"@.len());
    assert("-b"@[1] != "-d"@[1]);
    assert("-b"@.len() != "--quiet"@.len());
    assert("-b"@[1] != "-q"@[1]);
    assert("-b"@.len() != "--stdio"@.len());
    assert("-b"@.len() != "--sse"@.len());
    assert("-b"@.len() != "--standalone"@.len());
    assert("--target"@.len() != "-t"@.len());
    assert("--target"@.len() != "--debug"@.len());
    assert("--target"@.len() != "-d"@.len());
    assert("--target"@.len() != "--quiet"@.len());
    assert("--target"@.len() != "-q"@.len());
    assert("--target"@.len() != "--stdio"@.len());
    assert("--target"@.len() != "--sse"@.len());
    assert("--target"@.len() != "--standalone"@.len());
    assert("-t"@.len() != "--debug"@.len());
    assert("-t"@[1] != "-d"@[1]);
    assert("-t"@.len() != "--quiet"@.len());
    assert("-t"@[1] != "-q"@[1]);
    assert("-t"@.len() != "--stdio"@.len());
    assert("-t"@.len() != "--sse"@.len());
    assert("-t"@.len() != "--standalone"@.len());
    assert("--debug"@.len() != "-d"@.len());
    assert("--debug"@[2] != "--quiet"@[2]);
    assert("--debug"@.len() != "-q"@.len());
    assert("--debug"@[2] != "--stdio"@[2]);
    assert("--debug"@.len() != "--sse"@.len());
    assert("--debug"@.len() != "--standalone"@.len());
    assert("-d"@.len() != "--quiet"@.len());
    assert("-d"@[1] != "-q"@[1]);
    assert("-d"@.len() != "--stdio"@.len());
    assert("-d"@.len() != "--sse"@.len());
    assert("-d"@.len() != "--standalone"@.len());
    assert("--quiet"@.len() != "-q"@.len());
    assert("--quiet"@[2] != "--stdio"@[2]);
    assert("--quiet"@.len() != "--sse"@.len());
    assert("--quiet"@.len() != "--standalone"@.len());
    assert("-q"@.len() != "--stdio"@.len());
    assert("-q"@.len() != "--sse"@.len());
    assert("-q"@.len() != "--standalone"@.len());
    assert("--stdio"@.len() != "--sse"@.len());
    assert("--stdio"@.len() != "--standalone"@.len());
    assert("--sse"@.len() != "--standalone"@.len());
}

/// Which option an argument spells, long or short: 1 for `--port`/`-p`,
/// 2 for `--host`/`-H`, 3 for `--bridge-cmd`/`-b`, 4 for `--target`/`-t`,
/// 5 for `--debug`/`-d`, 6 for `--quiet`/`-q`, 0 for anything else.
pub open spec fn option_pair(x: Seq<char>) -> int {
    if x == "--port"@ || x == "-p"@ {
        1
    } else if x == "--host"@ || x == "-H"@ {
        2
    } else if x == "--bridge-cmd"@ || x == "-b"@ {
        3
    } else if x == "--target"@ || x == "-t"@ {
        4
    } else if x == "--debug"@ || x == "-d"@ {
        5
    } else if x == "--quiet"@ || x == "-q"@ {
        6
    } else {
        0
    }
}

/// Whether two arguments are spellings, long or short, of the same option.
pub open spec fn same_option(x: Seq<char>, y: Seq<char>) -> bool {
    option_pair(x) != 0 && option_pair(x) == option_pair(y)
}

/// Whether the command reads the argument at index `k` as the value of an
/// option: the address after the first `--host`/`-H` of `mcp --sse`, the
/// bridge command after the first `--bridge-cmd`/`-b` of a complete `mcp`
/// command, the target after the first `--target`/`-t` of `build`.
pub open spec fn reads_value_at(a: Seq<Seq<char>>, k: int) -> bool {
    if a[1] == "mcp"@ {
        ||| (transport_of(a) == Some(Transport::Sse) && k == first_flag_from(
            a,
            "--host"@,
            "-H"@,
            0,
        ) + 1)
        ||| (transport_of(a) is Some && last_operand_before(a, a.len() as int) is Some && k
            == first_flag_from(a, "--bridge-cmd"@, "-b"@, 0) + 1)
    } else {
        k == first_flag_from(a, "--target"@, "-t"@, 0) + 1
    }
}

/// Arguments that spell the same option, or are equal, are found by every
/// flag lookup alike.
proof fn lemma_same_option_lookups(x: Seq<char>, y: Seq<char>)
    requires
        x == y || same_option(x, y),
    ensures
        (x == "--port"@ || x == "-p"@) <==> (y == "--port"@ || y == "-p"@),
        (x == "--host"@ || x == "-H"@) <==> (y == "--host"@ || y == "-H"@),
        (x == "--bridge-cmd"@ || x == "-b"@) <==> (y == "--bridge-cmd"@ || y == "-b"@),
        (x == "--target"@ || x == "-t"@) <==> (y == "--target"@ || y == "-t"@),
        (x == "--debug"@ || x == "-d"@) <==> (y == "--debug"@ || y == "-d"@),
        (x == "--quiet"@ || x == "-q"@) <==> (y == "--quiet"@ || y == "-q"@),
        (x == "--stdio"@) <==> (y == "--stdio"@),
        (x == "--sse"@) <==> (y == "--sse"@),
        (x == "--standalone"@) <==> (y == "--standalone"@),
        x != y ==> is_option(x) && is_option(y),
{
    lemma_option_names();
}

/// An option is never read as a number.
proof fn lemma_option_not_number(x: Seq<char>, max: int)
    requires
        is_option(x),
    ensures
        parse_unsigned(x, max) is None,
{
    assert(!is_digit(x[0]));
    assert(unsigned_digits(x) == Some(x));
}

/// The long and short spellings of an option are interchangeable: two
/// `mcp` or `build` command lines that differ only in how options are
/// spelled (`--port`/`-p`, `--host`/`-H`, `--bridge-cmd`/`-b`,
/// `--target`/`-t`, `--debug`/`-d`, `--quiet`/`-q`) ask for the same thing,
/// unless a respelled option stands where the command reads an option's
/// value.
pub proof fn law_option_spellings(a: Seq<Seq<char>>, b: Seq<Seq<char>>)
    requires
        a.len() == b.len(),
        a.len() >= 2,
        a[1] == "mcp"@ || a[1] == "build"@,
        forall|k: int| 0 <= k < a.len() ==> a[k] == b[k] || same_option(a[k], b[k]),
        forall|k: int| 0 <= k < a.len() && a[k] != b[k] ==> !reads_value_at(a, k),
    ensures
        command_of(a) == command_of(b),
{
    reveal_strlit("mcp");
    reveal_strlit("build");
    reveal_strlit("run");
    assert("mcp"@[0] != "build"@[0] && "mcp"@[0] != "run"@[0]);
    assert forall|k: int| 0 <= k < a.len() implies {
        &&& (a[k] == "--port"@ || a[k] == "-p"@) <==> (b[k] == "--port"@ || b[k] == "-p"@)
        &&& (a[k] == "--host"@ || a[k] == "-H"@) <==> (b[k] == "--host"@ || b[k] == "-H"@)
        &&& (a[k] == "--bridge-cmd"@ || a[k] == "-b"@) <==> (b[k] == "--bridge-cmd"@ || b[k]
            == "-b"@)
        &&& (a[k] == "--target"@ || a[k] == "-t"@) <==> (b[k] == "--target"@ || b[k] == "-t"@)
        &&& (a[k] == "--debug"@ || a[k] == "-d"@) <==> (b[k] == "--debug"@ || b[k] == "-d"@)
        &&& (a[k] == "--quiet"@ || a[k] == "-q"@) <==> (b[k] == "--quiet"@ || b[k] == "-q"@)
        &&& (a[k] == "--stdio"@) <==> (b[k] == "--stdio"@)
        &&& (a[k] == "--sse"@) <==> (b[k] == "--sse"@)
        &&& (a[k] == "--standalone"@) <==> (b[k] == "--standalone"@)
        &&& a[k] != b[k] ==> is_option(a[k]) && is_option(b[k])
    } by {
        lemma_same_option_lookups(a[k], b[k]);
    }
    assert(a[1] == b[1]) by {
        lemma_same_option_lookups(a[1], b[1]);
    }
    lemma_first_flag_same(a, b, "--port"@, "-p"@, 0);
    lemma_first_flag_same(a, b, "--host"@, "-H"@, 0);
    lemma_first_flag_same(a, b, "--bridge-cmd"@, "-b"@, 0);
    lemma_first_flag_same(a, b, "--target"@, "-t"@, 0);
    lemma_first_flag_same(a, b, "--debug"@, "-d"@, 0);
    lemma_first_flag_same(a, b, "--quiet"@, "-q"@, 0);
    lemma_first_flag_same(a, b, "--stdio"@, "--stdio"@, 0);
    lemma_first_flag_same(a, b, "--sse"@, "--sse"@, 0);
    lemma_first_flag_same(a, b, "--standalone"@, "--standalone"@, 0);
    lemma_last_operand_same(a, b, a.len() as int);
    assert(transport_of(a) == transport_of(b));
    assert(quiet_of(a) == quiet_of(b));
    lemma_first_flag_bounds(a, "--port"@, "-p"@, 0);
    lemma_first_flag_bounds(a, "--host"@, "-H"@, 0);
    lemma_first_flag_bounds(a, "--bridge-cmd"@, "-b"@, 0);
    lemma_first_flag_bounds(a, "--target"@, "-t"@, 0);
    let fp = first_flag_from(a, "--port"@, "-p"@, 0);
    assert(first_flag_from(b, "--port"@, "-p"@, 0) == fp);
    if 0 <= fp + 1 < a.len() {
        if a[fp + 1] != b[fp + 1] {
            lemma_same_option_lookups(a[fp + 1], b[fp + 1]);
            lemma_option_not_number(a[fp + 1], 65535);
            lemma_option_not_number(b[fp + 1], 65535);
            assert(flag_value(a, "--port"@, "-p"@) == Some(a[fp + 1]));
            assert(flag_value(b, "--port"@, "-p"@) == Some(b[fp + 1]));
        } else {
            assert(flag_value(a, "--port"@, "-p"@) == flag_value(b, "--port"@, "-p"@));
        }
    }
    assert(port_of(a) == port_of(b));
    if a[1] == "mcp"@ {
        if transport_of(a) == Some(Transport::Sse) {
            let fh = first_flag_from(a, "--host"@, "-H"@, 0);
            assert(first_flag_from(b, "--host"@, "-H"@, 0) == fh);
            if 0 <= fh + 1 < a.len() {
                assert(reads_value_at(a, fh + 1));
                assert(a[fh + 1] == b[fh + 1]);
            }
            assert(host_of(a) == host_of(b));
        }
        if transport_of(a) is Some && last_operand_before(a, a.len() as int) is Some {
            let fb = first_flag_from(a, "--bridge-cmd"@, "-b"@, 0);
            if 0 <= fb + 1 < a.len() {
                assert(reads_value_at(a, fb + 1));
            }
            assert(bridge_of(a) == bridge_of(b));
        }
        assert(last_operand_before(a, a.len() as int) == last_operand_before(b, b.len() as int));
        assert(command_of(a) == command_of(b));
    } else {
        assert(has_flag(a, "--debug"@, "-d"@) == has_flag(b, "--debug"@, "-d"@));
        assert(has_flag(a, "--standalone"@, "--standalone"@) == has_flag(
            b,
            "--standalone"@,
            "--standalone"@,
        ));
        let ft = first_flag_from(a, "--target"@, "-t"@, 0);
        if 0 <= ft + 1 < a.len() {
            assert(reads_value_at(a, ft + 1));
        }
        assert(flag_value(a, "--target"@, "-t"@) == flag_value(b, "--target"@, "-t"@));
    }
}

/// Reads the command line (`args[0]` is the program name).
pub fn parse_args(args: &Vec<String>) -> (r: Result<Command, CliError>)
    ensures
        outcome_view(r) == command_of(arg_views(args@)),
{
    let ghost a = arg_views(args@);
    let quiet = flag_present(args, "--quiet", "-q");
    if args.len() < 2 {
        return Ok(Command::Missing);
    }
    let cmd = args[1].as_str();
    proof {
        reveal_strlit("build");
        reveal_strlit("run");
        reveal_strlit("mcp");
        reveal_strlit("test");
        reveal_strlit("bench");
        reveal_strlit("--help");
        reveal_strlit("-h");
        reveal_strlit("help");
        assert(a[1] == cmd@);
    }
    if str_eq(cmd, "build") {
        let debug = flag_present(args, "--debug", "-d");
        let standalone = flag_present(args, "--standalone", "--standalone");
        let target = option_value(args, "--target", "-t");
        Ok(Command::Build { release: !debug, standalone, target, quiet })
    } else if str_eq(cmd, "run") {
        let wasm_path = if args.len() > 2 {
            Some(args[2].clone())
        } else {
            None
        };
        Ok(Command::Run { wasm_path })
    } else if str_eq(cmd, "mcp") {
        let transport = if flag_present(args, "--stdio", "--stdio") {
            Transport::Stdio
        } else if flag_present(args, "--sse", "--sse") {
            Transport::Sse
        } else {
            return Err(CliError::MissingTransport);
        };
        let port: u16 = match option_value(args, "--port", "-p") {
            Some(v) => {
                let cs = to_chars(v.as_str());
                match parse_decimal(cs.as_slice(), 65535) {
                    Some(n) => n as u16,
                    None => 8080,
                }
            },
            None => 8080,
        };
        let host = match option_value(args, "--host", "-H") {
            Some(h) => h,
            None => String::from_str("127.0.0.1"),
        };
        let bridge_command = match option_value(args, "--bridge-cmd", "-b") {
            Some(b) => b,
            None => String::from_str("br"),
        };
        let wasm_path = match last_operand(args) {
            Some(p) => p,
            None => return Err(CliError::MissingWasmPath),
        };
        let mut config = McpConfig::stdio(wasm_path);
        config.bridge_command = bridge_command;
        config.quiet = quiet;
        if transport == Transport::Sse {
            config = config.sse(host, port);
        }
        Ok(Command::Mcp(config))
    } else if str_eq(cmd, "test") {
        Ok(Command::Test(args_from(args, 2)))
    } else if str_eq(cmd, "bench") {
        Ok(Command::Bench(args_from(args, 2)))
    } else if str_eq(cmd, "--help") || str_eq(cmd, "-h") || str_eq(cmd, "help") {
        Ok(Command::Help)
    } else {
        Err(CliError::UnknownCommand(args[1].clone()))
    }
}

} // verus!
