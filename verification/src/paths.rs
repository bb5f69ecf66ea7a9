//! Where Cucina keeps its files, and how paths are written for people. The
//! home directory and the environment are read by the caller and handed in.
use vstd::prelude::*;
use crate::git::path_eq;
use crate::text::{chars_of, ends_with, push_all, push_str, slice, starts_with, string_of, has_prefix};

verus! {

/// `base` joined with `rest` as `PathBuf::push` documents it: an absolute
/// `rest` replaces `base`; otherwise a `/` goes between them unless `base`
/// is empty or already ends with one.
pub open spec fn joined(base: Seq<char>, rest: Seq<char>) -> Seq<char> {
    if starts_with(rest, seq!['/']) {
        rest
    } else if base.len() == 0 || ends_with(base, seq!['/']) {
        base + rest
    } else {
        base + seq!['/'] + rest
    }
}

pub fn join(base: &str, rest: &str) -> (p: String)
    ensures
        p@ == joined(base@, rest@),
{
    let b = chars_of(base);
    let r = chars_of(rest);
    if r.len() > 0 && r[0] == '/' {
        assert(r@.subrange(0, 1) =~= seq!['/']);
        return string_of(r.as_slice());
    }
    assert(starts_with(rest@, seq!['/']) ==> r@.subrange(0, 1)[0] == '/');
    let mut v = b.clone();
    assert(v@ == b@);
    if b.len() == 0 || b[b.len() - 1] == '/' {
        proof {
            if b@.len() > 0 {
                assert(b@.subrange(b@.len() - 1, b@.len() as int) =~= seq!['/']);
            }
        }
    } else {
        proof {
            assert(ends_with(base@, seq!['/']) ==> b@.subrange(b@.len() - 1, b@.len() as int)[0] == '/');
        }
        v.push('/');
    }
    push_all(&mut v, r.as_slice());
    string_of(v.as_slice())
}

/// The home directory: `$HOME`, or `/` where it is not set.
pub fn home(var: Option<String>) -> (h: String)
    ensures
        h@ == (match var {
            Some(v) => v@,
            None => seq!['/'],
        }),
{
    match var {
        Some(v) => v,
        None => {
            let s = string_of(chars_of("/").as_slice());
            proof {
                reveal_strlit("/");
            }
            s
        },
    }
}

pub open spec fn data_dir_spec(home: Seq<char>) -> Seq<char> {
    joined(home, "Library/Application Support/Cucina"@)
}

/// `~/Library/Application Support/Cucina`.
pub fn data_dir(home: &str) -> (d: String)
    ensures
        d@ == data_dir_spec(home@),
{
    join(home, "Library/Application Support/Cucina")
}

/// Where the server definitions are stored.
pub fn servers_file(home: &str) -> (f: String)
    ensures
        f@ == joined(data_dir_spec(home@), "servers.json"@),
{
    let d = data_dir(home);
    join(d.as_str(), "servers.json")
}

/// The socket lives under Application Support so the CLI can find it
/// without any configuration.
pub fn socket_path(home: &str) -> (f: String)
    ensures
        f@ == joined(data_dir_spec(home@), "cucina.sock"@),
{
    let d = data_dir(home);
    join(d.as_str(), "cucina.sock")
}

/// A leading `~` expanded against `home`, so hand-typed and stored paths
/// both work.
pub open spec fn expanded(p: Seq<char>, home: Seq<char>) -> Seq<char> {
    if p == seq!['~'] {
        home
    } else if starts_with(p, seq!['~', '/']) {
        joined(home, p.subrange(2, p.len() as int))
    } else {
        p
    }
}

pub fn expand_tilde(p: &str, home: &str) -> (out: String)
    ensures
        out@ == expanded(p@, home@),
{
    let v = chars_of(p);
    if v.len() == 1 && v[0] == '~' {
        assert(v@ =~= seq!['~']);
        return string_of(chars_of(home).as_slice());
    }
    assert(p@ == seq!['~'] ==> v@.len() == 1 && v@[0] == '~');
    let pre = chars_of("~/");
    proof {
        reveal_strlit("~/");
    }
    assert(pre@ =~= seq!['~', '/']);
    if has_prefix(v.as_slice(), pre.as_slice()) {
        let rest = slice(v.as_slice(), 2, v.len());
        let rs = string_of(rest.as_slice());
        return join(home, rs.as_str());
    }
    string_of(v.as_slice())
}

/// What is left of path `p` after its leading components that make up
/// `base`, as `Path::strip_prefix` gives it; `None` when `base` is not a
/// prefix of `p` component by component.
pub uninterp spec fn path_rest(p: Seq<char>, base: Seq<char>) -> Option<Seq<char>>;

/// `Path::strip_prefix`, with the rest written out as a string. Its result
/// is named by `path_rest`. As its documentation says, the rest joined onto
/// `base` gives `p` back (as a path, compared by `path_eq`); and when nothing
/// is left, every component of `p` was one of `base`'s, so the two paths are
/// equal.
#[verifier::external_body]
fn strip_base(p: &str, base: &str) -> (r: Option<String>)
    ensures
        match r {
            Some(rest) => path_rest(p@, base@) == Some(rest@),
            None => path_rest(p@, base@) is None,
        },
        r matches Some(rest) ==> path_eq(joined(base@, rest@), p@),
        r matches Some(rest) ==> (rest@.len() == 0 ==> path_eq(base@, p@)),
{
    match std::path::Path::new(p).strip_prefix(base) {
        Ok(rest) => Some(rest.to_string_lossy().into_owned()),
        Err(_) => None,
    }
}

/// How `contract_tilde` renders `p` against `home`.
pub open spec fn contracted(p: Seq<char>, home: Seq<char>) -> Seq<char> {
    match path_rest(p, home) {
        Some(rest) => if rest.len() == 0 {
            seq!['~']
        } else {
            seq!['~', '/'] + rest
        },
        None => p,
    }
}

/// A path that `expand_tilde` would change: `~` or `~/...`.
pub open spec fn tilde_form(p: Seq<char>) -> bool {
    p == seq!['~'] || starts_with(p, seq!['~', '/'])
}

/// A path written with `~` for display, so the UI shows `~/code/api`. The
/// `~` form reads back as the same path: expanding it gives `p` itself, or,
/// where it was contracted, a path equal to `p` component by component.
pub fn contract_tilde(p: &str, home: &str) -> (out: String)
    ensures
        out@ == contracted(p@, home@),
        !tilde_form(p@) ==> (expanded(out@, home@) == p@ || path_eq(expanded(out@, home@), p@)),
{
    match strip_base(p, home) {
        Some(rest) => {
            proof {
                reveal_strlit("~");
                reveal_strlit("~/");
            }
            if rest.as_str().is_empty() {
                let s = string_of(chars_of("~").as_slice());
                assert(s@ =~= seq!['~']);
                assert(expanded(s@, home@) == home@);
                s
            } else {
                let mut v = chars_of("~/");
                push_str(&mut v, rest.as_str());
                assert(v@ =~= seq!['~', '/'] + rest@);
                assert(v@.subrange(0, 2) =~= seq!['~', '/']);
                assert(v@.subrange(2, v@.len() as int) =~= rest@);
                assert(v@ != seq!['~']);
                assert(expanded(v@, home@) == joined(home@, rest@));
                string_of(v.as_slice())
            }
        },
        None => string_of(chars_of(p).as_slice()),
    }
}

/// The last component of a path, as `Path::file_name` gives it.
pub uninterp spec fn path_file_name(p: Seq<char>) -> Option<Seq<char>>;

/// `Path::file_name`, written out as a string; named by `path_file_name`.
#[verifier::external_body]
fn file_name_of(p: &str) -> (r: Option<String>)
    ensures
        match r {
            Some(n) => path_file_name(p@) == Some(n@),
            None => path_file_name(p@) is None,
        },
{
    std::path::Path::new(p).file_name().map(|n| n.to_string_lossy().into_owned())
}

/// The shells the generated wrapper, which is POSIX shell, runs under.
pub open spec fn posix_shell(name: Seq<char>) -> bool {
    name == "zsh"@ || name == "bash"@ || name == "sh"@ || name == "ksh"@ || name == "dash"@
}

/// The shell commands run through: `$SHELL` when it names a POSIX shell,
/// otherwise (fish, nushell, or unset) `/bin/zsh`.
pub open spec fn login_shell_spec(var: Option<Seq<char>>) -> Seq<char> {
    let shell = match var {
        Some(s) => s,
        None => "/bin/zsh"@,
    };
    let name = match path_file_name(shell) {
        Some(n) => n,
        None => Seq::empty(),
    };
    if posix_shell(name) {
        shell
    } else {
        "/bin/zsh"@
    }
}

/// An environment variable's value as characters, if it is set.
pub open spec fn var_view(var: Option<String>) -> Option<Seq<char>> {
    match var {
        Some(s) => Some(s@),
        None => None,
    }
}

fn is_named(name: &str, s: &str) -> (b: bool)
    ensures
        b == (name@ == s@),
{
    let a = chars_of(name);
    let b = chars_of(s);
    crate::text::seq_eq(a.as_slice(), b.as_slice())
}

/// The user's login shell, which is what commands run through so that
/// PATH, nvm, asdf and mise behave the way they do in Terminal. `var` is
/// the value of `$SHELL`, if it is set.
pub fn login_shell(var: Option<String>) -> (shell: String)
    ensures
        shell@ == login_shell_spec(var_view(var)),
{
    let ghost sv = var_view(var);
    let shell = match var {
        Some(s) => s,
        None => string_of(chars_of("/bin/zsh").as_slice()),
    };
    let name = match file_name_of(shell.as_str()) {
        Some(n) => n,
        None => string_of(chars_of("").as_slice()),
    };
    proof {
        reveal_strlit("");
    }
    assert(shell@ == (match sv { Some(s) => s, None => "/bin/zsh"@ }));
    assert(name@ == (match path_file_name(shell@) { Some(n) => n, None => Seq::<char>::empty() }));
    let n = name.as_str();
    if is_named(n, "zsh") || is_named(n, "bash") || is_named(n, "sh") || is_named(n, "ksh") || is_named(n, "dash") {
        shell
    } else {
        string_of(chars_of("/bin/zsh").as_slice())
    }
}

} // verus!
