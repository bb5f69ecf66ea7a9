//! The desktop app's own rules, apart from its window and menu bar: what it
//! accepts from the window and what it tells the user.
use vstd::prelude::*;
use crate::model::prefix;
use crate::text::{chars_of, has_prefix, push_str, split_by, split_pieces, string_of, starts_with, eq_char, sep_pred, views};
use crate::git::path_eq;

verus! {

/// How many log lines the window reads when it names no number.
pub const WINDOW_TAIL: usize = 500;

/// A project icon keeps one or two glyphs; anything longer would break the
/// sidebar's rhythm.
pub fn group_icon(icon: &str) -> (out: String)
    ensures
        out@ == prefix(icon@, 2),
{
    let v = chars_of(icon);
    string_of(crate::model::take_chars(v.as_slice(), 2).as_slice())
}

/// Only a local http(s) address is ever handed to the browser.
pub open spec fn web_address(url: Seq<char>) -> bool {
    starts_with(url, "http://"@) || starts_with(url, "https://"@)
}

pub fn check_web_address(url: &str) -> (r: Result<(), String>)
    ensures
        web_address(url@) ==> r is Ok,
        !web_address(url@) ==> r is Err && r->Err_0@ == "Not a web address."@,
{
    let v = chars_of(url);
    let a = chars_of("http://");
    let b = chars_of("https://");
    if has_prefix(v.as_slice(), a.as_slice()) || has_prefix(v.as_slice(), b.as_slice()) {
        Ok(())
    } else {
        Err(string_of(chars_of("Not a web address.").as_slice()))
    }
}

/// Whether `dir` is one of the directories of a `PATH` value.
pub open spec fn on_path_spec(path_var: Seq<char>, dir: Seq<char>) -> bool {
    exists|i: int|
        0 <= i < split_by(path_var, eq_char(':')).len() && path_eq(
            #[trigger] split_by(path_var, eq_char(':'))[i],
            dir,
        )
}

pub fn on_path(path_var: &str, dir: &str) -> (b: bool)
    ensures
        b == on_path_spec(path_var@, dir@),
{
    let v = chars_of(path_var);
    let parts = split_pieces(v.as_slice(), Some(':'));
    assert(sep_pred(Some(':')) == eq_char(':'));
    let ghost pv = views(parts@);
    assert(pv == split_by(path_var@, eq_char(':')));
    let mut i: usize = 0;
    while i < parts.len()
        invariant
            i <= parts@.len(),
            pv == views(parts@),
            pv == split_by(path_var@, eq_char(':')),
            forall|j: int| 0 <= j < i ==> !path_eq(#[trigger] pv[j], dir@),
        decreases parts@.len() - i,
    {
        let p = string_of(parts[i].as_slice());
        assert(p@ == pv[i as int]);
        if crate::git::same_path(p.as_str(), dir) {
            return true;
        }
        i += 1;
    }
    false
}

/// What installing the command-line tool reports: where the link went,
/// and how to put it on `PATH` when it is not there yet.
pub open spec fn install_message_spec(on_path: bool, link: Seq<char>) -> Seq<char> {
    if on_path {
        "Installed. Try `cucina` in a new terminal.\n"@ + link
    } else {
        "Installed to "@ + link + ".\nAdd it to your PATH:\n  echo 'export PATH=\"$HOME/.local/bin:$PATH\"' >> ~/.zshrc"@
    }
}

pub fn install_message(on_path: bool, link: &str) -> (m: String)
    ensures
        m@ == install_message_spec(on_path, link@),
{
    if on_path {
        let mut v = chars_of("Installed. Try `cucina` in a new terminal.\n");
        push_str(&mut v, link);
        string_of(v.as_slice())
    } else {
        let mut v = chars_of("Installed to ");
        push_str(&mut v, link);
        push_str(&mut v, ".\nAdd it to your PATH:\n  echo 'export PATH=\"$HOME/.local/bin:$PATH\"' >> ~/.zshrc");
        string_of(v.as_slice())
    }
}

/// The command an MCP client is told to run: the link that installing
/// writes, which survives the app being replaced by an update; else the
/// copy inside the bundle; else the bare name.
pub fn mcp_command(installed: Option<String>, bundled: Option<String>) -> (c: String)
    ensures
        c@ == (match installed {
            Some(p) => p@,
            None => match bundled {
                Some(b) => b@,
                None => "cucina"@,
            },
        }),
{
    match installed {
        Some(p) => p,
        None => match bundled {
            Some(b) => b,
            None => string_of(chars_of("cucina").as_slice()),
        },
    }
}

} // verus!
