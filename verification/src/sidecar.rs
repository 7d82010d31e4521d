//! Where the bundled yt-dlp and ffmpeg binaries may lie.
use vstd::prelude::*;
use vstd::string::StringExecFns;
use crate::text::{has_prefix, join_path, joined_path, plain_component, str_eq, verbatim};

verus! {

/// The target triple that the build tooling appends to sidecar binaries in
/// development, for an operating system and architecture as Rust names them
/// (`std::env::consts::OS`, `ARCH`); `None` for a platform the app is not
/// built for.
pub open spec fn triple_for(os: Seq<char>, arch: Seq<char>) -> Option<Seq<char>> {
    if os == "macos"@ && arch == "aarch64"@ {
        Some("aarch64-apple-darwin"@)
    } else if os == "macos"@ && arch == "x86_64"@ {
        Some("x86_64-apple-darwin"@)
    } else if os == "windows"@ && arch == "x86_64"@ {
        Some("x86_64-pc-windows-msvc"@)
    } else if os == "linux"@ && arch == "x86_64"@ {
        Some("x86_64-unknown-linux-gnu"@)
    } else if os == "linux"@ && arch == "aarch64"@ {
        Some("aarch64-unknown-linux-gnu"@)
    } else {
        None
    }
}

/// A triple names the architecture first and the operating system after
/// it: it begins with `arch` and a hyphen, and ends in `apple-darwin` on
/// macOS, `pc-windows-msvc` on Windows and `unknown-linux-gnu` on Linux.
pub proof fn lemma_triple_parts(os: Seq<char>, arch: Seq<char>)
    ensures
        triple_for(os, arch) matches Some(t) ==> has_prefix(t, arch + "-"@),
        triple_for(os, arch) matches Some(t) ==> (os == "macos"@ ==> t == arch + "-apple-darwin"@),
        triple_for(os, arch) matches Some(t) ==> (os == "windows"@ ==> t == arch
            + "-pc-windows-msvc"@),
        triple_for(os, arch) matches Some(t) ==> (os == "linux"@ ==> t == arch
            + "-unknown-linux-gnu"@),
{
    reveal_strlit("-");
    reveal_strlit("-apple-darwin");
    reveal_strlit("-pc-windows-msvc");
    reveal_strlit("-unknown-linux-gnu");
    reveal_strlit("aarch64-apple-darwin");
    reveal_strlit("x86_64-apple-darwin");
    reveal_strlit("x86_64-pc-windows-msvc");
    reveal_strlit("x86_64-unknown-linux-gnu");
    reveal_strlit("aarch64-unknown-linux-gnu");
    reveal_strlit("aarch64");
    reveal_strlit("x86_64");
    reveal_strlit("macos");
    reveal_strlit("windows");
    reveal_strlit("linux");
    assert("macos"@ != "windows"@) by {
        assert("macos"@.len() != "windows"@.len());
    }
    assert("linux"@ != "windows"@) by {
        assert("linux"@.len() != "windows"@.len());
    }
    assert("macos"@ != "linux"@) by {
        assert("macos"@[0] != "linux"@[0]);
    }
    assert("x86_64"@ != "aarch64"@) by {
        assert("x86_64"@.len() != "aarch64"@.len());
    }
    if os == "macos"@ && arch == "aarch64"@ {
        let t = "aarch64-apple-darwin"@;
        assert(triple_for(os, arch) == Some(t));
        assert(t =~= arch + "-apple-darwin"@);
        assert(t.subrange(0, (arch.len() + 1) as int) =~= arch + "-"@);
    } else if os == "macos"@ && arch == "x86_64"@ {
        let t = "x86_64-apple-darwin"@;
        assert(triple_for(os, arch) == Some(t));
        assert(t =~= arch + "-apple-darwin"@);
        assert(t.subrange(0, (arch.len() + 1) as int) =~= arch + "-"@);
    } else if os == "windows"@ && arch == "x86_64"@ {
        let t = "x86_64-pc-windows-msvc"@;
        assert(triple_for(os, arch) == Some(t));
        assert(t =~= arch + "-pc-windows-msvc"@);
        assert(t.subrange(0, (arch.len() + 1) as int) =~= arch + "-"@);
    } else if os == "linux"@ && arch == "x86_64"@ {
        let t = "x86_64-unknown-linux-gnu"@;
        assert(triple_for(os, arch) == Some(t));
        assert(t =~= arch + "-unknown-linux-gnu"@);
        assert(t.subrange(0, (arch.len() + 1) as int) =~= arch + "-"@);
    } else if os == "linux"@ && arch == "aarch64"@ {
        let t = "aarch64-unknown-linux-gnu"@;
        assert(triple_for(os, arch) == Some(t));
        assert(t =~= arch + "-unknown-linux-gnu"@);
        assert(t.subrange(0, (arch.len() + 1) as int) =~= arch + "-"@);
    } else {
        assert(triple_for(os, arch) is None);
    }
}

/// The target triple for `os` and `arch` (see `triple_for`).
pub fn target_triple(os: &str, arch: &str) -> (r: Option<&'static str>)
    ensures
        match r {
            Some(t) => triple_for(os@, arch@) == Some(t@),
            None => triple_for(os@, arch@) is None,
        },
{
    if str_eq(os, "macos") && str_eq(arch, "aarch64") {
        Some("aarch64-apple-darwin")
    } else if str_eq(os, "macos") && str_eq(arch, "x86_64") {
        Some("x86_64-apple-darwin")
    } else if str_eq(os, "windows") && str_eq(arch, "x86_64") {
        Some("x86_64-pc-windows-msvc")
    } else if str_eq(os, "linux") && str_eq(arch, "x86_64") {
        Some("x86_64-unknown-linux-gnu")
    } else if str_eq(os, "linux") && str_eq(arch, "aarch64") {
        Some("aarch64-unknown-linux-gnu")
    } else {
        None
    }
}

/// The file name with `suffix` appended stays a plain component when the
/// suffix has no path characters.
proof fn lemma_plain_append(a: Seq<char>, b: Seq<char>)
    requires
        plain_component(a),
        forall|i: int| 0 <= i < b.len() ==> b[i] != '/' && b[i] != '\\' && b[i] != ':',
    ensures
        plain_component(a + b),
{
    if b.len() == 0 {
        assert(a + b =~= a);
    } else if (a + b).len() == 2 {
        assert((a + b)[0] == a[0]);
    }
    assert forall|i: int| 0 <= i < (a + b).len() implies (a + b)[i] != '/' && (a + b)[i] != '\\'
        && (a + b)[i] != ':' by {
        if i < a.len() {
            assert((a + b)[i] == a[i]);
        } else {
            assert((a + b)[i] == b[i - a.len()]);
        }
    }
}

/// The places in the executable's folder `exe_dir` where the sidecar `name`
/// may lie, in the order they are tried: the bare name, the name with the
/// platform's executable suffix (".exe" on Windows), and the name with the
/// target triple appended. Each is `exe_dir` joined with that file name
/// (see `joined_path`; nothing is stated for a Windows verbatim `exe_dir`).
pub fn sidecar_candidates(exe_dir: &str, name: &str, windows: bool, triple: &str) -> (r: Vec<
    String,
>)
    ensures
        r@.len() == 3,
        plain_component(name@) && !verbatim(exe_dir@) ==> joined_path(exe_dir@, name@, r@[0]@),
        plain_component(name@) && !verbatim(exe_dir@) ==> joined_path(
            exe_dir@,
            name@ + if windows {
                ".exe"@
            } else {
                ""@
            },
            r@[1]@,
        ),
        plain_component(name@) && plain_component(triple@) && !verbatim(exe_dir@) ==> joined_path(
            exe_dir@,
            name@ + "-"@ + triple@,
            r@[2]@,
        ),
{
    proof {
        reveal_strlit(".exe");
        reveal_strlit("");
        reveal_strlit("-");
    }
    let first = join_path(exe_dir, name);
    let mut with_suffix = name.to_owned();
    if windows {
        with_suffix.append(".exe");
    } else {
        with_suffix.append("");
    }
    let mut with_triple = name.to_owned();
    with_triple.append("-");
    with_triple.append(triple);
    proof {
        if plain_component(name@) {
            if windows {
                lemma_plain_append(name@, ".exe"@);
            } else {
                assert(name@ + ""@ =~= name@);
            }
            if plain_component(triple@) {
                lemma_plain_append(name@, "-"@);
                lemma_plain_append(name@ + "-"@, triple@);
            }
        }
    }
    let second = join_path(exe_dir, with_suffix.as_str());
    let third = join_path(exe_dir, with_triple.as_str());
    let mut r: Vec<String> = Vec::new();
    r.push(first);
    r.push(second);
    r.push(third);
    r
}

} // verus!
