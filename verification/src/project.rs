//! Decisions of a project build: which generated interface directory an
//! implementation file belongs to, which package settings those directories
//! get, and how the standalone executable is compiled and named.
use vstd::prelude::*;
use vstd::string::*;
use crate::stdlib::{lowercase, to_lowercase};
use crate::text::{contains, occurs_at, str_contains, str_eq};

verus! {

/// The interface directory for a lowercased file stem: the first of
/// `string`, `hash`, `json`, `uuid` that it contains decides.
pub open spec fn subdir_of(lower: Seq<char>) -> Option<Seq<char>> {
    if contains(lower, "string"@) {
        Some("stringUtils"@)
    } else if contains(lower, "hash"@) {
        Some("hashUtils"@)
    } else if contains(lower, "json"@) {
        Some("jsonUtils"@)
    } else if contains(lower, "uuid"@) {
        Some("uuidUtils"@)
    } else {
        None
    }
}

/// The interface directory for an already lowercased file stem.
pub fn subdir_for_lowercase(lower: &str) -> (r: Option<&'static str>)
    ensures
        r is None <==> subdir_of(lower@) is None,
        r matches Some(n) ==> subdir_of(lower@) == Some(n@),
{
    if str_contains(lower, "string") {
        Some("stringUtils")
    } else if str_contains(lower, "hash") {
        Some("hashUtils")
    } else if str_contains(lower, "json") {
        Some("jsonUtils")
    } else if str_contains(lower, "uuid") {
        Some("uuidUtils")
    } else {
        None
    }
}

/// A word occurs in any text that has it between two others.
proof fn lemma_contains_middle(x: Seq<char>, w: Seq<char>, y: Seq<char>)
    ensures
        contains(x + w + y, w),
{
    let s = x + w + y;
    assert(s.subrange(x.len() as int, (x.len() + w.len()) as int) =~= w);
    assert(occurs_at(s, w, x.len() as int));
}

/// A prefix none of whose characters starts the word `w` neither adds nor
/// hides an occurrence of `w`.
proof fn lemma_contains_after_prefix(p: Seq<char>, k: Seq<char>, w: Seq<char>)
    requires
        w.len() > 0,
        forall|j: int| 0 <= j < p.len() ==> p[j] != w[0],
    ensures
        contains(p + k, w) == contains(k, w),
{
    let s = p + k;
    if contains(k, w) {
        let i = choose|i: int| occurs_at(k, w, i);
        assert(s.subrange(i + p.len(), i + p.len() + w.len()) =~= k.subrange(i, i + w.len()));
        assert(occurs_at(s, w, i + p.len()));
    }
    if contains(s, w) {
        let i = choose|i: int| occurs_at(s, w, i);
        assert(s.subrange(i, i + w.len())[0] == w[0]);
        assert(s[i] == w[0]);
        if i < p.len() {
            assert(s[i] == p[i]);
        }
        assert(i >= p.len());
        assert(k.subrange(i - p.len(), i - p.len() + w.len()) =~= s.subrange(i, i + w.len()));
        assert(occurs_at(k, w, i - p.len()));
    }
}

/// Containment alone decides the directory, wherever in the stem the word
/// stands: a stem that holds `string` goes to `stringUtils`; one that holds
/// `hash` to `hashUtils` unless it also holds `string`; one that holds
/// `json` to `jsonUtils` unless it also holds `string` or `hash`; one that
/// holds `uuid` to `uuidUtils` unless it also holds one of the other three.
pub proof fn law_subdir_by_containment(x: Seq<char>, y: Seq<char>)
    ensures
        subdir_of(x + "string"@ + y) == Some("stringUtils"@),
        !contains(x + "hash"@ + y, "string"@) ==> subdir_of(x + "hash"@ + y) == Some(
            "hashUtils"@,
        ),
        !contains(x + "json"@ + y, "string"@) && !contains(x + "json"@ + y, "hash"@)
            ==> subdir_of(x + "json"@ + y) == Some("jsonUtils"@),
        !contains(x + "uuid"@ + y, "string"@) && !contains(x + "uuid"@ + y, "hash"@)
            && !contains(x + "uuid"@ + y, "json"@) ==> subdir_of(x + "uuid"@ + y) == Some(
            "uuidUtils"@,
        ),
{
    lemma_contains_middle(x, "string"@, y);
    lemma_contains_middle(x, "hash"@, y);
    lemma_contains_middle(x, "json"@, y);
    lemma_contains_middle(x, "uuid"@, y);
}

/// A stem with no keyword has no directory.
pub proof fn law_subdir_none(s: Seq<char>)
    ensures
        (!contains(s, "string"@) && !contains(s, "hash"@) && !contains(s, "json"@) && !contains(
            s,
            "uuid"@,
        )) <==> subdir_of(s) is None,
{
}

/// The `impl-` that implementation file names start with does not change
/// the directory: `impl-` followed by a stem goes where the stem goes.
pub proof fn law_subdir_impl_prefix(k: Seq<char>)
    ensures
        subdir_of("impl-"@ + k) == subdir_of(k),
{
    reveal_strlit("impl-");
    reveal_strlit("string");
    reveal_strlit("hash");
    reveal_strlit("json");
    reveal_strlit("uuid");
    let p = "impl-"@;
    lemma_contains_after_prefix(p, k, "string"@);
    lemma_contains_after_prefix(p, k, "hash"@);
    lemma_contains_after_prefix(p, k, "json"@);
    lemma_contains_after_prefix(p, k, "uuid"@);
}

/// The interface directory that an implementation file with stem
/// `filename` is copied into, decided on its lowercase form.
pub fn filename_to_subdir(filename: &str) -> (r: Option<&'static str>)
    ensures
        r is None <==> subdir_of(lowercase(filename@)) is None,
        r matches Some(n) ==> subdir_of(lowercase(filename@)) == Some(n@),
{
    let lower = to_lowercase(filename);
    subdir_for_lowercase(lower.as_str())
}

/// The `moon.pkg.json` written into an interface directory, for the
/// directories that need one.
pub fn moon_pkg_config(subdir: &str) -> (r: Option<&'static str>)
    ensures
        subdir@ == "hashUtils"@ ==> (r matches Some(c) && c@
            == "{ \"warn-list\": \"-44\", \"import\": [\"moonbitlang/x/crypto\"] }"@),
        subdir@ == "jsonUtils"@ ==> (r matches Some(c) && c@
            == "{ \"warn-list\": \"-44\", \"import\": [\"moonbitlang/core/json\"] }"@),
        subdir@ == "uuidUtils"@ ==> (r matches Some(c) && c@
            == "{ \"warn-list\": \"-44\", \"import\": [\"moonbitlang/x/crypto\"] }"@),
        !(subdir@ == "hashUtils"@ || subdir@ == "jsonUtils"@ || subdir@ == "uuidUtils"@)
            ==> r is None,
{
    proof {
        reveal_strlit("hashUtils");
        reveal_strlit("jsonUtils");
        reveal_strlit("uuidUtils");
        assert("hashUtils"@[0] != "jsonUtils"@[0]);
        assert("hashUtils"@[0] != "uuidUtils"@[0]);
        assert("jsonUtils"@[0] != "uuidUtils"@[0]);
    }
    if str_eq(subdir, "hashUtils") {
        Some("{ \"warn-list\": \"-44\", \"import\": [\"moonbitlang/x/crypto\"] }")
    } else if str_eq(subdir, "jsonUtils") {
        Some("{ \"warn-list\": \"-44\", \"import\": [\"moonbitlang/core/json\"] }")
    } else if str_eq(subdir, "uuidUtils") {
        Some("{ \"warn-list\": \"-44\", \"import\": [\"moonbitlang/x/crypto\"] }")
    } else {
        None
    }
}

/// The arguments of `moon` that compile the project to WebAssembly.
pub fn moon_build_args(release: bool) -> (r: Vec<&'static str>)
    ensures
        release ==> r@.len() == 4 && r@[3]@ == "--release"@,
        !release ==> r@.len() == 3,
        r@[0]@ == "build"@,
        r@[1]@ == "--target"@,
        r@[2]@ == "wasm"@,
{
    let mut r: Vec<&'static str> = Vec::new();
    r.push("build");
    r.push("--target");
    r.push("wasm");
    if release {
        r.push("--release");
    }
    r
}

/// The tool and arguments that compile the standalone host program:
/// `cross` for a target triple, `cargo` otherwise, with `--release` in
/// release mode.
pub fn host_build_command(target: Option<&str>, release: bool) -> (r: (&'static str, Vec<String>))
    ensures
        target is Some ==> r.0@ == "cross"@,
        target is None ==> r.0@ == "cargo"@,
        target matches Some(t) ==> (release ==> r.1@.len() == 4 && r.1@[0]@ == "build"@
            && r.1@[1]@ == "--release"@ && r.1@[2]@ == "--target"@ && r.1@[3]@ == t@),
        target matches Some(t) ==> (!release ==> r.1@.len() == 3 && r.1@[0]@ == "build"@
            && r.1@[1]@ == "--target"@ && r.1@[2]@ == t@),
        target is None ==> (release ==> r.1@.len() == 2 && r.1@[0]@ == "build"@ && r.1@[1]@
            == "--release"@),
        target is None ==> (!release ==> r.1@.len() == 1 && r.1@[0]@ == "build"@),
{
    let mut args: Vec<String> = Vec::new();
    args.push(String::from_str("build"));
    if release {
        args.push(String::from_str("--release"));
    }
    match target {
        Some(t) => {
            args.push(String::from_str("--target"));
            args.push(String::from_str(t));
            ("cross", args)
        },
        None => ("cargo", args),
    }
}

/// Names of the standalone executable: as the compiler writes it, and as it
/// is copied into `target/`; and the profile directory it is found in.
pub struct StandaloneNames {
    pub binary: String,
    pub output: String,
    pub profile: &'static str,
}

/// The executable suffix: `.exe` for a target triple that contains
/// `windows`, or, without a triple, when the host runs Windows.
pub open spec fn exe_suffix(target: Option<Seq<char>>, host_windows: bool) -> Seq<char> {
    let windows = match target {
        Some(t) => contains(t, "windows"@),
        None => host_windows,
    };
    if windows {
        ".exe"@
    } else {
        ""@
    }
}

/// The names of the standalone executable: `app` plus the suffix, copied
/// as `app-<target>` plus the suffix when cross-compiling; in `release` or
/// `debug`.
pub fn standalone_names(target: Option<&str>, host_windows: bool, release: bool) -> (r:
    StandaloneNames)
    ensures
        ({
            let tv = match target {
                Some(t) => Some(t@),
                None => None,
            };
            let ext = exe_suffix(tv, host_windows);
            &&& r.binary@ == "app"@ + ext
            &&& target matches Some(t) ==> r.output@ == "app-"@ + t@ + ext
            &&& target is None ==> r.output@ == "app"@ + ext
        }),
        release ==> r.profile@ == "release"@,
        !release ==> r.profile@ == "debug"@,
{
    let windows = match target {
        Some(t) => str_contains(t, "windows"),
        None => host_windows,
    };
    let ext = if windows {
        ".exe"
    } else {
        ""
    };
    let mut binary = String::from_str("app");
    binary.append(ext);
    let output = match target {
        Some(t) => {
            let mut o = String::from_str("app-");
            o.append(t);
            o.append(ext);
            o
        },
        None => {
            let mut o = String::from_str("app");
            o.append(ext);
            o
        },
    };
    let profile = if release {
        "release"
    } else {
        "debug"
    };
    StandaloneNames { binary, output, profile }
}

} // verus!
