//! Strays: processes holding a TCP port that Cucina does not own.
//!
//! A stray is lost, not hostile — an agent's dev server whose shell went away,
//! a `npm run dev` from a terminal tab you closed a week ago. What the probes
//! print is read here; running them is the caller's business.
use vstd::prelude::*;
use std::collections::HashMap;
use crate::model::prefix;
use crate::text::{
    after_last_of, chars_of, contains_seq, contains_str, eq_char, has_prefix, last_piece,
    lead_count, lemma_lead_count, lines, not_ws, parse_u16, parse_u16_of, parse_u32, parse_u32_of,
    parse_u64, parse_u64_of, push_all, push_str, slice, split_by, split_lines, split_once,
    split_once_char, split_pieces, split_words, starts_with, string_of, trim_start,
    trim_start_set, trim_start_by, in_set, trim_start_ws, upper_of, uppercase, views, whitespace,
    words, is_ws, sep_pred, strip_prefix, strip_prefix_of, trim, trim_ws, parse_i32,
    parse_i32_of, lemma_lead_count_bound, lossy_of, utf8_lossy, signed_decimal, push_signed,
    decimal, push_decimal,
};

verus! {

/// One process holding a port. Everything here is observed, not stored — a new
/// scan replaces the lot.
#[derive(Debug)]
pub struct Stray {
    pub port: u16,
    pub pid: u32,
    /// The full command line as the kernel has it.
    pub command: String,
    /// `None` when the working directory could not be read.
    pub dir: Option<String>,
    /// Seconds since it started.
    pub age: u64,
    /// The terminal behind it, if there is one: `ZSH S004`.
    pub owner: Option<String>,
}

impl Stray {
    /// Nothing is behind it. The whole reason the feature exists.
    pub fn is_orphan(&self) -> (b: bool)
        ensures
            b == (self.owner is None),
    {
        self.owner.is_none()
    }
}

/// One row of `ps`, keyed by pid.
#[derive(Debug)]
pub struct Proc {
    pub ppid: u32,
    pub pgid: i32,
    /// `??` when the process has no controlling terminal.
    pub tty: String,
    pub age: u64,
    /// The executable on its own.
    pub exe: String,
    pub command: String,
}

pub struct ProcView {
    pub ppid: u32,
    pub pgid: i32,
    pub tty: Seq<char>,
    pub age: u64,
    pub exe: Seq<char>,
    pub command: Seq<char>,
}

impl View for Proc {
    type V = ProcView;

    open spec fn view(&self) -> ProcView {
        ProcView {
            ppid: self.ppid,
            pgid: self.pgid,
            tty: self.tty@,
            age: self.age,
            exe: self.exe@,
            command: self.command@,
        }
    }
}

impl Clone for Proc {
    fn clone(&self) -> (r: Self)
        ensures
            r == *self,
    {
        Proc {
            ppid: self.ppid,
            pgid: self.pgid,
            tty: self.tty.clone(),
            age: self.age,
            exe: self.exe.clone(),
            command: self.command.clone(),
        }
    }
}

/// Directories the machine's own software lives under.
pub open spec fn system_prefixes() -> Seq<Seq<char>> {
    seq!["/System/"@, "/usr/libexec/"@, "/Library/"@, "/sbin/"@]
}

/// Anything the user did not start themselves: an application bundle, or
/// something under the system's own directories.
pub open spec fn dev_process(exe: Seq<char>) -> bool {
    !contains_seq(exe, ".app/Contents/"@) && forall|i: int|
        0 <= i < system_prefixes().len() ==> !starts_with(exe, #[trigger] system_prefixes()[i])
}

fn prefixed(v: &[char], p: &str) -> (b: bool)
    ensures
        b == starts_with(v@, p@),
{
    let pv = chars_of(p);
    has_prefix(v, pv.as_slice())
}

/// Installed applications and the system's own agents hold ports all day, and
/// listing them would bury the one `vite` that is actually loose.
pub fn is_dev_process(exe: &str) -> (b: bool)
    ensures
        b == dev_process(exe@),
{
    let v = chars_of(exe);
    if contains_str(v.as_slice(), ".app/Contents/") {
        return false;
    }
    let r = !(prefixed(v.as_slice(), "/System/") || prefixed(v.as_slice(), "/usr/libexec/")
        || prefixed(v.as_slice(), "/Library/") || prefixed(v.as_slice(), "/sbin/"));
    assert(system_prefixes()[0] == "/System/"@);
    assert(system_prefixes()[1] == "/usr/libexec/"@);
    assert(system_prefixes()[2] == "/Library/"@);
    assert(system_prefixes()[3] == "/sbin/"@);
    r
}

/// The same bounds the port scanner uses.
pub fn plausible(port: u16) -> (b: bool)
    ensures
        b == crate::ports::plausible_port(port as int),
{
    port > 1024 && port < 60_000
}

// ---- elapsed time ---------------------------------------------------------------

/// A number in an elapsed-time field, 0 when it does not read as one.
pub open spec fn etime_number(s: Seq<char>) -> nat {
    match parse_u64(s) {
        Some(n) => n as nat,
        None => 0,
    }
}

/// Seconds in `[[dd-]hh:]mm:ss`, what BSD `ps` prints for `etime`; fields
/// that do not read as numbers count as 0, and any other shape as no time.
pub open spec fn etime_seconds(text: Seq<char>) -> nat {
    let (days, clock) = match split_once(text, '-') {
        Some((d, rest)) => (etime_number(d), rest),
        None => (0, text),
    };
    let parts = split_by(clock, eq_char(':'));
    let secs: nat = if parts.len() == 3 {
        etime_number(parts[0]) * 3600 + etime_number(parts[1]) * 60 + etime_number(parts[2])
    } else if parts.len() == 2 {
        etime_number(parts[0]) * 60 + etime_number(parts[1])
    } else if parts.len() == 1 {
        etime_number(parts[0])
    } else {
        0
    };
    days * 86_400 + secs
}

fn number_or_zero(v: &[char]) -> (n: u64)
    ensures
        n == etime_number(v@),
{
    match parse_u64_of(v) {
        Some(n) => n,
        None => 0,
    }
}

/// `[[dd-]hh:]mm:ss` — what BSD `ps` prints for `etime`.
pub fn parse_etime(text: &str) -> (secs: u64)
    requires
        etime_seconds(text@) <= u64::MAX,
    ensures
        secs == etime_seconds(text@),
{
    let v = chars_of(text);
    let (days, clock) = match split_once_char(v.as_slice(), '-') {
        Some((d, rest)) => (number_or_zero(d.as_slice()), rest),
        None => (0, slice(v.as_slice(), 0, v.len())),
    };
    let ghost sd: nat = match split_once(text@, '-') {
        Some((d, rest)) => etime_number(d),
        None => 0,
    };
    let ghost sc = match split_once(text@, '-') {
        Some((d, rest)) => rest,
        None => text@,
    };
    assert(days == sd && clock@ == sc);
    let parts = split_pieces(clock.as_slice(), Some(':'));
    assert(sep_pred(Some(':')) == eq_char(':'));
    assert(views(parts@) == split_by(sc, eq_char(':')));
    assert(parts@.len() == views(parts@).len());
    let ghost ps = views(parts@);
    proof {
        if parts@.len() >= 1 {
            assert(ps[0] == parts@[0]@);
        }
        if parts@.len() >= 2 {
            assert(ps[1] == parts@[1]@);
        }
        if parts@.len() >= 3 {
            assert(ps[2] == parts@[2]@);
        }
    }
    let ghost total = etime_seconds(text@);
    let secs: u64 = if parts.len() == 3 {
        let h = number_or_zero(parts[0].as_slice());
        let m = number_or_zero(parts[1].as_slice());
        let s = number_or_zero(parts[2].as_slice());
        assert(h * 3600 + m * 60 + s <= total);
        h * 3600 + m * 60 + s
    } else if parts.len() == 2 {
        let m = number_or_zero(parts[0].as_slice());
        let s = number_or_zero(parts[1].as_slice());
        assert(m * 60 + s <= total);
        m * 60 + s
    } else if parts.len() == 1 {
        number_or_zero(parts[0].as_slice())
    } else {
        0
    };
    days * 86_400 + secs
}

// ---- terminals ------------------------------------------------------------------

/// The executable's name with a login shell's leading dashes dropped, or
/// `shell` when there is no parent or nothing is left.
pub open spec fn owner_name(parent: Option<ProcView>) -> Seq<char> {
    match parent {
        Some(p) => {
            let name = trim_start_by(after_last_of(p.exe, '/'), eq_char('-'));
            if name.len() > 0 {
                name
            } else {
                "shell"@
            }
        },
        None => "shell"@,
    }
}

/// `zsh` on `s004` becomes `ZSH S004`; no terminal means no owner.
pub open spec fn owner_of(parent: Option<ProcView>, tty: Seq<char>) -> Option<Seq<char>> {
    if tty.len() == 0 || tty == "??"@ || tty == "?"@ {
        None
    } else {
        Some(uppercase(owner_name(parent)) + seq![' '] + uppercase(tty))
    }
}

pub open spec fn opt_proc_view(p: Option<&Proc>) -> Option<ProcView> {
    match p {
        Some(q) => Some(q@),
        None => None,
    }
}

/// The shell alone would not say which window, and the tty alone would not
/// say what is in it.
pub fn owner_label(parent: Option<&Proc>, tty: &str) -> (r: Option<String>)
    ensures
        match r {
            Some(s) => owner_of(opt_proc_view(parent), tty@) == Some(s@),
            None => owner_of(opt_proc_view(parent), tty@) is None,
        },
{
    let t = chars_of(tty);
    let q2 = chars_of("??");
    let q1 = chars_of("?");
    if t.len() == 0 || crate::text::seq_eq(t.as_slice(), q2.as_slice())
        || crate::text::seq_eq(t.as_slice(), q1.as_slice()) {
        return None;
    }
    let name: Vec<char> = match parent {
        Some(p) => {
            let exe = chars_of(p.exe.as_str());
            let base = last_piece(exe.as_slice(), '/');
            let dash = vec!['-'];
            let n = trim_start_set(base.as_slice(), dash.as_slice());
            assert(in_set(dash@) == eq_char('-')) by {
                assert forall|x: char| #[trigger] dash@.contains(x) == (x == '-') by {
                    if x == '-' {
                        assert(dash@[0] == '-');
                    }
                }
                assert(in_set(dash@) =~= eq_char('-'));
            }
            if n.len() > 0 {
                n
            } else {
                chars_of("shell")
            }
        },
        None => chars_of("shell"),
    };
    let upper_name = upper_of(string_of(name.as_slice()).as_str());
    let upper_tty = upper_of(tty);
    let mut out = chars_of(upper_name.as_str());
    out.push(' ');
    push_str(&mut out, upper_tty.as_str());
    assert(out@ =~= uppercase(name@) + seq![' '] + uppercase(tty@));
    Some(string_of(out.as_slice()))
}

// ---- ps lines -------------------------------------------------------------------

/// Everything after the first `n` whitespace-separated fields, spacing inside
/// it intact and leading whitespace dropped.
pub open spec fn skip_fields(s: Seq<char>, n: nat) -> Seq<char>
    decreases n,
{
    if n == 0 {
        s
    } else {
        let t = trim_start(s);
        skip_fields(t.skip(lead_count(t, not_ws()) as int), (n - 1) as nat)
    }
}

pub open spec fn rest_after_spec(line: Seq<char>, n: nat) -> Seq<char> {
    trim_start(skip_fields(line, n))
}

/// Skips one field: leading whitespace, then everything up to the next
/// whitespace.
fn skip_field(v: &[char]) -> (r: Vec<char>)
    ensures
        r@ == trim_start(v@).skip(lead_count(trim_start(v@), not_ws()) as int),
{
    let t = trim_start_ws(v);
    let mut i: usize = 0;
    while i < t.len() && !whitespace(t[i])
        invariant
            i <= t@.len(),
            forall|j: int| 0 <= j < i ==> (not_ws())(#[trigger] t@[j]),
        decreases t@.len() - i,
    {
        i += 1;
    }
    proof {
        lemma_lead_count(t@, not_ws(), i as int);
    }
    slice(t.as_slice(), i, t.len())
}

/// Searching for the sixth token instead would find its first occurrence
/// anywhere in the line, and a pid is a very ordinary thing to appear twice.
pub fn rest_after(line: &str, n: usize) -> (r: String)
    ensures
        r@ == rest_after_spec(line@, n as nat),
{
    let mut cur = chars_of(line);
    let mut k: usize = 0;
    while k < n
        invariant
            k <= n,
            skip_fields(cur@, (n - k) as nat) == skip_fields(line@, n as nat),
        decreases n - k,
    {
        cur = skip_field(cur.as_slice());
        k += 1;
    }
    string_of(trim_start_ws(cur.as_slice()).as_slice())
}

// ---- lsof output -----------------------------------------------------------------

/// Reading lsof's field output: the pid of the last `p<pid>` line, and the
/// pairs found so far.
pub struct ListenScan {
    pub pid: u32,
    pub found: Seq<(u32, u16)>,
}

/// A `p<pid>` line sets the current pid (0 when unreadable); an `n<address>`
/// line adds the port after its last colon to the current pid, when the pid
/// is known, the port plausible and the pair not already listed.
pub open spec fn listen_step(st: ListenScan, line: Seq<char>) -> ListenScan {
    if let Some(rest) = strip_prefix(line, "p"@) {
        ListenScan { pid: match parse_u32(rest) { Some(n) => n, None => 0 }, found: st.found }
    } else if let Some(addr) = strip_prefix(line, "n"@) {
        match parse_u16(after_last_of(addr, ':')) {
            Some(port) => if st.pid != 0 && crate::ports::plausible_port(port as int)
                && !st.found.contains((st.pid, port)) {
                ListenScan { pid: st.pid, found: st.found.push((st.pid, port)) }
            } else {
                st
            },
            None => st,
        }
    } else {
        st
    }
}

pub open spec fn listen_scan(ls: Seq<Seq<char>>) -> ListenScan
    decreases ls.len(),
{
    if ls.len() == 0 {
        ListenScan { pid: 0, found: Seq::empty() }
    } else {
        listen_step(listen_scan(ls.drop_last()), ls.last())
    }
}

fn pair_listed(found: &Vec<(u32, u16)>, pid: u32, port: u16) -> (b: bool)
    ensures
        b == found@.contains((pid, port)),
{
    let mut i: usize = 0;
    while i < found.len()
        invariant
            i <= found@.len(),
            forall|j: int| 0 <= j < i ==> found@[j] != (pid, port),
        decreases found@.len() - i,
    {
        if found[i].0 == pid && found[i].1 == port {
            assert(found@[i as int] == (pid, port));
            return true;
        }
        i += 1;
    }
    false
}

/// lsof's field output: a `p<pid>` line, then an `n<address>` line per socket.
pub fn parse_listeners(text: &str) -> (found: Vec<(u32, u16)>)
    ensures
        found@ == listen_scan(lines(text@)).found,
{
    let v = chars_of(text);
    let ls = split_lines(v.as_slice());
    let ghost all = lines(text@);
    let mut found: Vec<(u32, u16)> = Vec::new();
    let mut pid: u32 = 0;
    let mut k: usize = 0;
    while k < ls.len()
        invariant
            k <= ls@.len(),
            views(ls@) == all,
            all == lines(text@),
            pid == listen_scan(all.take(k as int)).pid,
            found@ == listen_scan(all.take(k as int)).found,
        decreases ls@.len() - k,
    {
        assert(all.take(k + 1).drop_last() == all.take(k as int));
        assert(all.take(k + 1).last() == ls@[k as int]@);
        let line = ls[k].as_slice();
        if let Some(rest) = strip_prefix_of(line, "p") {
            pid = match parse_u32_of(rest.as_slice()) {
                Some(n) => n,
                None => 0,
            };
        } else if let Some(addr) = strip_prefix_of(line, "n") {
            let tail = last_piece(addr.as_slice(), ':');
            match parse_u16_of(tail.as_slice()) {
                Some(port) => {
                    if pid != 0 && plausible(port) && !pair_listed(&found, pid, port) {
                        found.push((pid, port));
                    }
                },
                None => {},
            }
        }
        k += 1;
    }
    assert(all.take(k as int) == all);
    found
}

/// Reading lsof's directory output: the current pid, and the first directory
/// given for each pid.
pub struct DirScan {
    pub pid: u32,
    pub dirs: Map<u32, Seq<char>>,
}

/// `/` is what a process gets when it was started with no meaningful
/// directory, and adopting into `/` would be worse than not offering.
pub open spec fn dir_step(st: DirScan, line: Seq<char>) -> DirScan {
    if let Some(rest) = strip_prefix(line, "p"@) {
        DirScan { pid: match parse_u32(rest) { Some(n) => n, None => 0 }, dirs: st.dirs }
    } else if let Some(dir) = strip_prefix(line, "n"@) {
        if st.pid != 0 && dir != "/"@ && dir.len() > 0 && !st.dirs.contains_key(st.pid) {
            DirScan { pid: st.pid, dirs: st.dirs.insert(st.pid, dir) }
        } else {
            st
        }
    } else {
        st
    }
}

pub open spec fn dir_scan(ls: Seq<Seq<char>>) -> DirScan
    decreases ls.len(),
{
    if ls.len() == 0 {
        DirScan { pid: 0, dirs: Map::empty() }
    } else {
        dir_step(dir_scan(ls.drop_last()), ls.last())
    }
}

pub open spec fn dir_views(m: Map<u32, String>) -> Map<u32, Seq<char>> {
    m.map_values(|s: String| s@)
}

/// The working directory of each pid: the first one lsof gives for it.
pub fn parse_dirs(text: &str) -> (dirs: HashMap<u32, String>)
    ensures
        dir_views(dirs@) == dir_scan(lines(text@)).dirs,
{
    broadcast use vstd::std_specs::hash::group_hash_axioms;
    let v = chars_of(text);
    let ls = split_lines(v.as_slice());
    let ghost all = lines(text@);
    let mut dirs: HashMap<u32, String> = HashMap::new();
    let mut pid: u32 = 0;
    let mut k: usize = 0;
    let root = chars_of("/");
    assert(dir_views(dirs@) =~= Map::<u32, Seq<char>>::empty());
    while k < ls.len()
        invariant
            k <= ls@.len(),
            views(ls@) == all,
            all == lines(text@),
            root@ == "/"@,
            pid == dir_scan(all.take(k as int)).pid,
            dir_views(dirs@) == dir_scan(all.take(k as int)).dirs,
        decreases ls@.len() - k,
    {
        assert(all.take(k + 1).drop_last() == all.take(k as int));
        assert(all.take(k + 1).last() == ls@[k as int]@);
        let line = ls[k].as_slice();
        if let Some(rest) = strip_prefix_of(line, "p") {
            pid = match parse_u32_of(rest.as_slice()) {
                Some(n) => n,
                None => 0,
            };
        } else if let Some(dir) = strip_prefix_of(line, "n") {
            if pid != 0 && !crate::text::seq_eq(dir.as_slice(), root.as_slice()) && dir.len() > 0
                && !dirs.contains_key(&pid) {
                let ghost before = dirs@;
                dirs.insert(pid, string_of(dir.as_slice()));
                assert(dir_views(dirs@) =~= dir_views(before).insert(pid, dir@));
            }
        }
        k += 1;
    }
    assert(all.take(k as int) == all);
    dirs
}

// ---- probe failures ----------------------------------------------------------------

/// The first line with something other than whitespace on it, or nothing.
pub open spec fn first_nonblank(ls: Seq<Seq<char>>) -> Seq<char>
    decreases ls.len(),
{
    if ls.len() == 0 {
        Seq::empty()
    } else if trim(ls[0]).len() > 0 {
        ls[0]
    } else {
        first_nonblank(ls.drop_first())
    }
}

/// `<tool>: exited <code> — <first line>`, leaving out what is missing.
pub open spec fn stderr_message(tool: Seq<char>, text: Seq<char>, code: Option<i32>) -> Seq<char> {
    let first = first_nonblank(lines(text));
    match code {
        Some(c) => if first.len() == 0 {
            tool + ": exited "@ + signed_decimal(c as int)
        } else {
            tool + ": exited "@ + signed_decimal(c as int) + " — "@ + first
        },
        None => tool + ": "@ + first,
    }
}

/// Why a probe failed, in one line: its exit code and the first line of what
/// it printed on stderr.
pub fn trimmed_stderr(tool: &str, bytes: &[u8], code: Option<i32>) -> (msg: String)
    ensures
        msg@ == stderr_message(tool@, utf8_lossy(bytes@), code),
{
    let text = lossy_of(bytes);
    let v = chars_of(text.as_str());
    let ls = split_lines(v.as_slice());
    let ghost all = views(ls@);
    let mut k: usize = 0;
    assert(all.skip(0) == all);
    while k < ls.len() && trim_ws(ls[k].as_slice()).len() == 0
        invariant
            k <= ls@.len(),
            all == views(ls@),
            first_nonblank(all.skip(k as int)) == first_nonblank(all),
        decreases ls@.len() - k,
    {
        assert(all.skip(k as int).drop_first() == all.skip(k + 1));
        assert(all.skip(k as int)[0] == ls@[k as int]@);
        k += 1;
    }
    let first: Vec<char> = if k < ls.len() {
        assert(all.skip(k as int)[0] == ls@[k as int]@);
        slice(ls[k].as_slice(), 0, ls[k].len())
    } else {
        assert(all.skip(k as int).len() == 0);
        Vec::new()
    };
    assert(first@ == first_nonblank(all));
    let mut out = chars_of(tool);
    match code {
        Some(c) => {
            push_str(&mut out, ": exited ");
            push_signed(&mut out, c as i64);
            if first.len() > 0 {
                push_str(&mut out, " — ");
                push_all(&mut out, first.as_slice());
            }
        },
        None => {
            push_str(&mut out, ": ");
            push_all(&mut out, first.as_slice());
        },
    }
    assert(out@ =~= stderr_message(tool@, utf8_lossy(bytes@), code));
    string_of(out.as_slice())
}

// ---- ps output --------------------------------------------------------------------

/// One `ps -o pid=,ppid=,pgid=,tty=,etime=,command=` line as a process: the
/// first five fields, then the rest of the line as the command. A line with
/// fewer fields or no readable pid is skipped; an unreadable parent or group
/// counts as 0.
pub open spec fn proc_entry(line: Seq<char>) -> Option<(u32, ProcView)> {
    let w = words(line);
    if w.len() >= 5 {
        match parse_u32(w[0]) {
            Some(pid) => Some(
                (
                    pid,
                    ProcView {
                        ppid: match parse_u32(w[1]) {
                            Some(n) => n,
                            None => 0,
                        },
                        pgid: match parse_i32(w[2]) {
                            Some(n) => n,
                            None => 0,
                        },
                        tty: w[3],
                        age: etime_seconds(w[4]) as u64,
                        exe: Seq::empty(),
                        command: rest_after_spec(line, 5),
                    },
                ),
            ),
            None => None,
        }
    } else {
        None
    }
}

/// Elapsed times that fit a `u64` on every line that names a process.
pub open spec fn ages_fit(text: Seq<char>) -> bool {
    forall|k: int|
        0 <= k < lines(text).len() ==> {
            let w = #[trigger] words(lines(text)[k]);
            w.len() >= 5 && parse_u32(w[0]) is Some ==> etime_seconds(w[4]) <= u64::MAX
        }
}

pub open spec fn proc_table(ls: Seq<Seq<char>>) -> Map<u32, ProcView>
    decreases ls.len(),
{
    if ls.len() == 0 {
        Map::empty()
    } else {
        let m = proc_table(ls.drop_last());
        match proc_entry(ls.last()) {
            Some((pid, p)) => m.insert(pid, p),
            None => m,
        }
    }
}

/// One `ps -o pid=,comm=` line: the pid, and the rest of the line as the
/// executable.
pub open spec fn exe_entry(line: Seq<char>) -> Option<(u32, Seq<char>)> {
    let w = words(line);
    if w.len() >= 1 {
        match parse_u32(w[0]) {
            Some(pid) => Some((pid, rest_after_spec(line, 1))),
            None => None,
        }
    } else {
        None
    }
}

/// Sets the executable of every listed process that the table holds.
pub open spec fn with_exes(m: Map<u32, ProcView>, ls: Seq<Seq<char>>) -> Map<u32, ProcView>
    decreases ls.len(),
{
    if ls.len() == 0 {
        m
    } else {
        let t = with_exes(m, ls.drop_last());
        match exe_entry(ls.last()) {
            Some((pid, exe)) => if t.contains_key(pid) {
                t.insert(pid, ProcView { exe: exe, ..t[pid] })
            } else {
                t
            },
            None => t,
        }
    }
}

pub open spec fn proc_views(m: Map<u32, Proc>) -> Map<u32, ProcView> {
    m.map_values(|p: Proc| p@)
}

fn read_proc_line(line: &[char]) -> (r: Option<(u32, Proc)>)
    requires
        ({
            let w = words(line@);
            w.len() >= 5 && parse_u32(w[0]) is Some ==> etime_seconds(w[4]) <= u64::MAX
        }),
    ensures
        match r {
            Some((pid, p)) => proc_entry(line@) == Some((pid, p@)),
            None => proc_entry(line@) is None,
        },
{
    let w = split_words(line);
    if w.len() < 5 {
        return None;
    }
    assert(views(w@)[0] == w@[0]@);
    let pid = match parse_u32_of(w[0].as_slice()) {
        Some(p) => p,
        None => return None,
    };
    assert(views(w@)[1] == w@[1]@);
    assert(views(w@)[2] == w@[2]@);
    assert(views(w@)[3] == w@[3]@);
    assert(views(w@)[4] == w@[4]@);
    let ppid = match parse_u32_of(w[1].as_slice()) {
        Some(n) => n,
        None => 0,
    };
    let pgid = match parse_i32_of(w[2].as_slice()) {
        Some(n) => n,
        None => 0,
    };
    let etime = string_of(w[4].as_slice());
    let age = parse_etime(etime.as_str());
    let line_s = string_of(line);
    let command = rest_after(line_s.as_str(), 5);
    Some((pid, Proc { ppid, pgid, tty: string_of(w[3].as_slice()), age, exe: String::new(), command }))
}

fn read_exe_line(line: &[char]) -> (r: Option<(u32, String)>)
    ensures
        match r {
            Some((pid, exe)) => exe_entry(line@) == Some((pid, exe@)),
            None => exe_entry(line@) is None,
        },
{
    let w = split_words(line);
    if w.len() < 1 {
        return None;
    }
    assert(views(w@)[0] == w@[0]@);
    let pid = match parse_u32_of(w[0].as_slice()) {
        Some(p) => p,
        None => return None,
    };
    let line_s = string_of(line);
    Some((pid, rest_after(line_s.as_str(), 1)))
}

/// The process table `ps` describes: `table` is the pid/ppid/pgid/tty/etime/
/// command listing and `exes` the pid/comm one, read separately because both
/// the executable and the command can contain spaces and only one
/// space-bearing field can be last on a line. A pid listed twice keeps its
/// last row.
pub fn parse_procs(table: &str, exes: &str) -> (procs: HashMap<u32, Proc>)
    requires
        ages_fit(table@),
    ensures
        proc_views(procs@) == with_exes(proc_table(lines(table@)), lines(exes@)),
{
    broadcast use vstd::std_specs::hash::group_hash_axioms;
    let v = chars_of(table);
    let ls = split_lines(v.as_slice());
    let ghost all = lines(table@);
    let mut procs: HashMap<u32, Proc> = HashMap::new();
    let mut k: usize = 0;
    assert(proc_views(procs@) =~= Map::<u32, ProcView>::empty());
    while k < ls.len()
        invariant
            k <= ls@.len(),
            views(ls@) == all,
            all == lines(table@),
            ages_fit(table@),
            proc_views(procs@) == proc_table(all.take(k as int)),
        decreases ls@.len() - k,
    {
        assert(all.take(k + 1).drop_last() == all.take(k as int));
        assert(all.take(k + 1).last() == ls@[k as int]@);
        assert(all[k as int] == ls@[k as int]@);
        let ghost w = words(all[k as int]);
        match read_proc_line(ls[k].as_slice()) {
            Some((pid, p)) => {
                let ghost before = procs@;
                procs.insert(pid, p);
                assert(proc_views(procs@) =~= proc_views(before).insert(pid, p@));
            },
            None => {},
        }
        k += 1;
    }
    assert(all.take(k as int) == all);
    let ghost base = proc_table(all);
    let ev = chars_of(exes);
    let es = split_lines(ev.as_slice());
    let ghost eall = lines(exes@);
    let mut j: usize = 0;
    assert(eall.take(0) =~= Seq::<Seq<char>>::empty());
    while j < es.len()
        invariant
            j <= es@.len(),
            views(es@) == eall,
            eall == lines(exes@),
            proc_views(procs@) == with_exes(base, eall.take(j as int)),
        decreases es@.len() - j,
    {
        assert(eall.take(j + 1).drop_last() == eall.take(j as int));
        assert(eall.take(j + 1).last() == es@[j as int]@);
        match read_exe_line(es[j].as_slice()) {
            Some((pid, exe)) => {
                let found = match procs.get(&pid) {
                    Some(p) => Some(p.clone()),
                    None => None,
                };
                match found {
                    Some(p) => {
                        let ghost before = procs@;
                        let ghost exe_v = exe@;
                        procs.insert(pid, Proc { exe, ..p });
                        assert(proc_views(procs@) =~= proc_views(before).insert(
                            pid,
                            ProcView { exe: exe_v, ..proc_views(before)[pid] },
                        ));
                    },
                    None => {},
                }
            },
            None => {},
        }
        j += 1;
    }
    assert(eall.take(j as int) == eall);
    procs
}

// ---- assembling a scan ------------------------------------------------------------

pub struct StrayView {
    pub port: u16,
    pub pid: u32,
    pub command: Seq<char>,
    pub dir: Option<Seq<char>>,
    pub age: u64,
    pub owner: Option<Seq<char>>,
}

pub open spec fn opt_str_view(o: Option<String>) -> Option<Seq<char>> {
    match o {
        Some(s) => Some(s@),
        None => None,
    }
}

impl View for Stray {
    type V = StrayView;

    open spec fn view(&self) -> StrayView {
        StrayView {
            port: self.port,
            pid: self.pid,
            command: self.command@,
            dir: opt_str_view(self.dir),
            age: self.age,
            owner: opt_str_view(self.owner),
        }
    }
}

/// A listener worth reporting: its process is known, is not in one of `ours`
/// groups, and is something the user started.
pub open spec fn worth_reporting(procs: Map<u32, ProcView>, ours: Seq<i32>, l: (u32, u16)) -> bool {
    &&& procs.contains_key(l.0)
    &&& !ours.contains(procs[l.0].pgid)
    &&& dev_process(procs[l.0].exe)
}

fn in_groups(ours: &[i32], g: i32) -> (b: bool)
    ensures
        b == ours@.contains(g),
{
    let mut i: usize = 0;
    while i < ours.len()
        invariant
            i <= ours@.len(),
            forall|j: int| 0 <= j < i ==> ours@[j] != g,
        decreases ours@.len() - i,
    {
        if ours[i] == g {
            assert(ours@[i as int] == g);
            return true;
        }
        i += 1;
    }
    false
}

/// The listeners that are neither Cucina's own (`ours` holds its process
/// group and those of everything it supervises) nor the machine's.
pub fn keep_listeners(listeners: &[(u32, u16)], procs: &HashMap<u32, Proc>, ours: &[i32]) -> (keep: Vec<(u32, u16)>)
    ensures
        keep@ == listeners@.filter(|l: (u32, u16)| worth_reporting(proc_views(procs@), ours@, l)),
{
    broadcast use vstd::std_specs::hash::group_hash_axioms;
    let ghost f = |l: (u32, u16)| worth_reporting(proc_views(procs@), ours@, l);
    let mut keep: Vec<(u32, u16)> = Vec::new();
    let mut i: usize = 0;
    while i < listeners.len()
        invariant
            i <= listeners@.len(),
            f == (|l: (u32, u16)| worth_reporting(proc_views(procs@), ours@, l)),
            keep@ == listeners@.take(i as int).filter(f),
        decreases listeners@.len() - i,
    {
        let l = listeners[i];
        assert(listeners@.take(i + 1).drop_last() == listeners@.take(i as int));
        assert(listeners@.take(i + 1).last() == l);
        reveal(Seq::filter);
        match procs.get(&l.0) {
            Some(p) => {
                assert(proc_views(procs@)[l.0] == p@);
                let exe = p.exe.as_str();
                if !in_groups(ours, p.pgid) && is_dev_process(exe) {
                    keep.push(l);
                }
            },
            None => {},
        }
        i += 1;
    }
    assert(listeners@.take(i as int) == listeners@);
    keep
}

/// Strictly increasing.
pub open spec fn increasing(s: Seq<u32>) -> bool {
    forall|i: int, j: int| 0 <= i < j < s.len() ==> s[i] < s[j]
}

/// Each pid holding a kept port, once, in ascending order.
pub fn stray_pids(keep: &[(u32, u16)]) -> (pids: Vec<u32>)
    ensures
        increasing(pids@),
        pids@.to_set() == keep@.map_values(|l: (u32, u16)| l.0).to_set(),
{
    let ghost all = keep@.map_values(|l: (u32, u16)| l.0);
    let mut pids: Vec<u32> = Vec::new();
    let mut i: usize = 0;
    assert(pids@.to_set() =~= all.take(0).to_set());
    while i < keep.len()
        invariant
            i <= keep@.len(),
            all == keep@.map_values(|l: (u32, u16)| l.0),
            increasing(pids@),
            pids@.to_set() == all.take(i as int).to_set(),
        decreases keep@.len() - i,
    {
        let pid = keep[i].0;
        assert(all[i as int] == pid);
        assert(all.take(i + 1) == all.take(i as int).push(pid));
        let mut j: usize = 0;
        while j < pids.len() && pids[j] < pid
            invariant
                j <= pids@.len(),
                forall|k: int| 0 <= k < j ==> pids@[k] < pid,
            decreases pids@.len() - j,
        {
            j += 1;
        }
        let ghost before = pids@;
        if j < pids.len() && pids[j] == pid {
            assert(all.take(i + 1).to_set() =~= all.take(i as int).to_set().insert(pid)) by {
                broadcast use vstd::seq_lib::group_seq_properties;
            }
            assert(before.to_set().contains(pid)) by {
                assert(before[j as int] == pid);
            }
            assert(all.take(i as int).to_set().insert(pid) =~= all.take(i as int).to_set());
        } else {
            pids.insert(j, pid);
            assert(pids@ == before.insert(j as int, pid));
            assert forall|a: int, b: int| 0 <= a < b < pids@.len() implies pids@[a] < pids@[b] by {
                if b < j {
                } else if a < j && b == j {
                } else if a < j {
                    assert(pids@[b] == before[b - 1]);
                } else if a == j {
                    assert(pids@[b] == before[b - 1]);
                    assert(before[j as int] > pid);
                } else {
                    assert(pids@[a] == before[a - 1]);
                    assert(pids@[b] == before[b - 1]);
                }
            }
            assert(pids@.to_set() =~= before.to_set().insert(pid)) by {
                broadcast use vstd::seq_lib::group_seq_properties;
                assert forall|x: u32| pids@.to_set().contains(x) <==> before.to_set().insert(pid).contains(x) by {
                    if pids@.contains(x) {
                        let k = choose|k: int| 0 <= k < pids@.len() && pids@[k] == x;
                        if k < j {
                            assert(before[k] == x);
                        } else if k > j {
                            assert(before[k - 1] == x);
                        }
                    }
                    if before.contains(x) {
                        let k = choose|k: int| 0 <= k < before.len() && before[k] == x;
                        if k < j {
                            assert(pids@[k] == x);
                        } else {
                            assert(pids@[k + 1] == x);
                        }
                    }
                }
            }
            assert(all.take(i + 1).to_set() =~= all.take(i as int).to_set().insert(pid)) by {
                broadcast use vstd::seq_lib::group_seq_properties;
            }
        }
        i += 1;
    }
    assert(all.take(i as int) == all);
    pids
}

/// Orphans first, then oldest, then by port: the ones nobody is watching,
/// and the ones that have been loose longest, are the ones worth clearing.
pub open spec fn stray_le(a: StrayView, b: StrayView) -> bool {
    let oa = a.owner is None;
    let ob = b.owner is None;
    if oa != ob {
        oa
    } else if a.age != b.age {
        a.age > b.age
    } else {
        a.port <= b.port
    }
}

pub open spec fn strays_sorted(s: Seq<StrayView>) -> bool {
    forall|i: int, j: int| 0 <= i < j < s.len() ==> stray_le(#[trigger] s[i], #[trigger] s[j])
}

pub open spec fn stray_views(s: Seq<Stray>) -> Seq<StrayView> {
    s.map_values(|x: Stray| x@)
}

/// What one kept listener reports.
pub open spec fn stray_view(l: (u32, u16), procs: Map<u32, ProcView>, dirs: Map<u32, Seq<char>>) -> StrayView {
    let p = procs[l.0];
    StrayView {
        port: l.1,
        pid: l.0,
        command: p.command,
        dir: if dirs.contains_key(l.0) {
            Some(dirs[l.0])
        } else {
            None
        },
        age: p.age,
        owner: owner_of(
            if procs.contains_key(p.ppid) {
                Some(procs[p.ppid])
            } else {
                None
            },
            p.tty,
        ),
    }
}

pub open spec fn assembled(
    keep: Seq<(u32, u16)>,
    procs: Map<u32, ProcView>,
    dirs: Map<u32, Seq<char>>,
) -> Seq<StrayView> {
    keep.filter(|l: (u32, u16)| procs.contains_key(l.0)).map_values(
        |l: (u32, u16)| stray_view(l, procs, dirs),
    )
}

/// `x` placed after every stray that does not sort after it.
pub open spec fn stray_inserted(s: Seq<StrayView>, x: StrayView) -> Seq<StrayView>
    decreases s.len(),
{
    if s.len() == 0 {
        seq![x]
    } else if stray_le(s.last(), x) {
        s.push(x)
    } else {
        stray_inserted(s.drop_last(), x).push(s.last())
    }
}

/// `s` orphans first, then oldest, then by port; strays that compare equal
/// keep the order they came in.
pub open spec fn strays_in_order(s: Seq<StrayView>) -> Seq<StrayView>
    decreases s.len(),
{
    if s.len() == 0 {
        Seq::empty()
    } else {
        stray_inserted(strays_in_order(s.drop_last()), s.last())
    }
}

proof fn lemma_stray_inserted(olds: Seq<StrayView>, j: int, x: StrayView)
    requires
        0 <= j <= olds.len(),
        forall|k: int| j <= k < olds.len() ==> !stray_le(#[trigger] olds[k], x),
        j > 0 ==> stray_le(olds[j - 1], x),
    ensures
        stray_inserted(olds, x) == olds.insert(j, x),
    decreases olds.len(),
{
    if olds.len() == 0 {
        assert(olds.insert(j, x) =~= seq![x]);
    } else if stray_le(olds.last(), x) {
        assert(j == olds.len());
        assert(olds.insert(j, x) =~= olds.push(x));
    } else {
        let t = olds.drop_last();
        assert forall|k: int| j <= k < t.len() implies !stray_le(#[trigger] t[k], x) by {
            assert(t[k] == olds[k]);
        }
        if j > 0 {
            assert(t[j - 1] == olds[j - 1]);
        }
        lemma_stray_inserted(t, j, x);
        assert(t.insert(j, x).push(olds.last()) =~= olds.insert(j, x));
    }
}

fn insert_stray(sorted: &mut Vec<Stray>, x: Stray)
    requires
        strays_sorted(stray_views(old(sorted)@)),
    ensures
        stray_views(final(sorted)@) == stray_inserted(stray_views(old(sorted)@), x@),
        strays_sorted(stray_views(final(sorted)@)),
        stray_views(final(sorted)@).to_multiset() == stray_views(old(sorted)@).to_multiset().insert(x@),
{
    let ghost olds = stray_views(sorted@);
    let mut j = sorted.len();
    loop
        invariant
            j <= sorted@.len(),
            stray_views(sorted@) == olds,
            forall|k: int| j <= k < olds.len() ==> !stray_le(#[trigger] olds[k], x@),
        ensures
            j <= sorted@.len(),
            stray_views(sorted@) == olds,
            forall|k: int| j <= k < olds.len() ==> !stray_le(#[trigger] olds[k], x@),
            j > 0 ==> stray_le(olds[j - 1], x@),
        decreases j,
    {
        if j == 0 {
            break;
        }
        let y = &sorted[j - 1];
        assert(olds[j - 1] == y@);
        let oy = y.owner.is_none();
        let ox = x.owner.is_none();
        let le = if oy != ox {
            oy
        } else if y.age != x.age {
            y.age > x.age
        } else {
            y.port <= x.port
        };
        if le {
            break;
        }
        j -= 1;
    }
    let ghost xv = x@;
    proof {
        lemma_stray_inserted(olds, j as int, xv);
    }
    sorted.insert(j, x);
    let ghost ns = stray_views(sorted@);
    assert(ns =~= olds.insert(j as int, xv));
    assert forall|a: int, b: int| 0 <= a < b < ns.len() implies stray_le(#[trigger] ns[a], #[trigger] ns[b]) by {
        if b < j {
            assert(ns[a] == olds[a] && ns[b] == olds[b]);
        } else if b == j {
            assert(ns[a] == olds[a]);
            assert(stray_le(olds[a], olds[j - 1]) || a == j - 1);
        } else if a == j {
            assert(ns[b] == olds[b - 1]);
        } else if a < j {
            assert(ns[a] == olds[a] && ns[b] == olds[b - 1]);
        } else {
            assert(ns[a] == olds[a - 1] && ns[b] == olds[b - 1]);
        }
    }
    proof {
        broadcast use vstd::seq_lib::group_to_multiset_ensures;
        assert(ns.remove(j as int) =~= olds);
        assert(ns.to_multiset().remove(xv) == olds.to_multiset());
        assert(ns.to_multiset().count(xv) > 0);
        assert(ns.to_multiset() =~= olds.to_multiset().insert(xv));
    }
}

/// The strays the kept listeners describe, orphans first, then oldest.
pub fn assemble_strays(keep: &[(u32, u16)], procs: &HashMap<u32, Proc>, dirs: &HashMap<u32, String>) -> (strays: Vec<Stray>)
    ensures
        stray_views(strays@) == strays_in_order(assembled(keep@, proc_views(procs@), dir_views(dirs@))),
        strays_sorted(stray_views(strays@)),
        stray_views(strays@).to_multiset() == assembled(keep@, proc_views(procs@), dir_views(dirs@)).to_multiset(),
{
    broadcast use vstd::std_specs::hash::group_hash_axioms;
    let ghost pv = proc_views(procs@);
    let ghost dv = dir_views(dirs@);
    let ghost f = |l: (u32, u16)| pv.contains_key(l.0);
    let ghost g = |l: (u32, u16)| stray_view(l, pv, dv);
    let mut out: Vec<Stray> = Vec::new();
    let mut i: usize = 0;
    proof {
        broadcast use vstd::seq_lib::group_to_multiset_ensures;
        reveal(Seq::filter);
        assert(keep@.take(0).filter(f) =~= Seq::<(u32, u16)>::empty());
        assert(keep@.take(0).filter(f).map_values(g) =~= Seq::<StrayView>::empty());
        assert(stray_views(out@) =~= Seq::<StrayView>::empty());
    }
    while i < keep.len()
        invariant
            i <= keep@.len(),
            pv == proc_views(procs@),
            dv == dir_views(dirs@),
            f == (|l: (u32, u16)| pv.contains_key(l.0)),
            g == (|l: (u32, u16)| stray_view(l, pv, dv)),
            strays_sorted(stray_views(out@)),
            stray_views(out@) == strays_in_order(keep@.take(i as int).filter(f).map_values(g)),
            stray_views(out@).to_multiset() == keep@.take(i as int).filter(f).map_values(g).to_multiset(),
        decreases keep@.len() - i,
    {
        let (pid, port) = keep[i];
        assert(keep@.take(i + 1).drop_last() == keep@.take(i as int));
        assert(keep@.take(i + 1).last() == (pid, port));
        reveal(Seq::filter);
        match procs.get(&pid) {
            Some(p) => {
                assert(pv[pid] == p@);
                let dir = match dirs.get(&pid) {
                    Some(d) => Some(d.clone()),
                    None => None,
                };
                let parent = procs.get(&p.ppid);
                proof {
                    if procs@.contains_key(p.ppid) {
                        assert(pv[p.ppid] == procs@[p.ppid]@);
                    }
                }
                let owner = owner_label(parent, p.tty.as_str());
                let x = Stray { port, pid, command: p.command.clone(), dir, age: p.age, owner };
                assert(x@ == g((pid, port)));
                insert_stray(&mut out, x);
                proof {
                    broadcast use vstd::seq_lib::group_to_multiset_ensures;
                    let prev = keep@.take(i as int).filter(f);
                    assert(keep@.take(i + 1).filter(f) == prev.push((pid, port)));
                    assert(prev.push((pid, port)).map_values(g) =~= prev.map_values(g).push(g((pid, port))));
                    assert(prev.map_values(g).push(g((pid, port))).drop_last() =~= prev.map_values(g));
                }
            },
            None => {
                assert(keep@.take(i + 1).filter(f) == keep@.take(i as int).filter(f));
            },
        }
        i += 1;
    }
    assert(keep@.take(i as int) == keep@);
    out
}

} // verus!

verus! {

// ---- stopping one ------------------------------------------------------------------

/// Where the signals to stop a stray go.
#[derive(Debug, PartialEq, Eq, Structural, Clone, Copy)]
pub enum Target {
    /// The whole process group, which the stray leads: what job control
    /// gives anything started from a shell prompt.
    Group(i32),
    /// The process alone: it shares its parent's group, so it is a child of
    /// something bigger, and signalling that group could take the user's
    /// shell down with it.
    Process(u32),
}

/// What a stop of `pid` signals, given the process table; or why nothing
/// can be.
pub open spec fn stop_target_spec(procs: Map<u32, ProcView>, pid: u32) -> Result<Target, Seq<char>> {
    if procs.contains_key(pid) {
        if procs[pid].pgid as int == pid as int {
            Ok(Target::Group(procs[pid].pgid))
        } else {
            Ok(Target::Process(pid))
        }
    } else {
        Err("Nothing is running as pid "@ + decimal(pid as nat) + " any more."@)
    }
}

pub open spec fn target_view(r: Result<Target, String>) -> Result<Target, Seq<char>> {
    match r {
        Ok(t) => Ok(t),
        Err(e) => Err(e@),
    }
}

pub fn stop_target(procs: &HashMap<u32, Proc>, pid: u32) -> (r: Result<Target, String>)
    ensures
        target_view(r) == stop_target_spec(proc_views(procs@), pid),
{
    broadcast use vstd::std_specs::hash::group_hash_axioms;
    match procs.get(&pid) {
        Some(p) => {
            assert(proc_views(procs@)[pid] == p@);
            if p.pgid >= 0 && p.pgid as u32 == pid {
                Ok(Target::Group(p.pgid))
            } else {
                Ok(Target::Process(pid))
            }
        },
        None => {
            let mut v = chars_of("Nothing is running as pid ");
            push_decimal(&mut v, pid as u64);
            push_str(&mut v, " any more.");
            Err(string_of(v.as_slice()))
        },
    }
}

/// What is reported when a stray outlives even the kill signal.
pub fn did_not_stop(pid: u32) -> (m: String)
    ensures
        m@ == "pid "@ + decimal(pid as nat) + " did not stop."@,
{
    let mut v = chars_of("pid ");
    push_decimal(&mut v, pid as u64);
    push_str(&mut v, " did not stop.");
    string_of(v.as_slice())
}

} // verus!

verus! {

/// Whether the seconds in an elapsed-time field fit in a `u64`, which
/// `parse_etime` needs.
pub fn etime_fits(text: &str) -> (b: bool)
    ensures
        b == (etime_seconds(text@) <= u64::MAX),
{
    let v = chars_of(text);
    let (days, clock) = match split_once_char(v.as_slice(), '-') {
        Some((d, rest)) => (number_or_zero(d.as_slice()), rest),
        None => (0, slice(v.as_slice(), 0, v.len())),
    };
    let ghost sc = match split_once(text@, '-') {
        Some((d, rest)) => rest,
        None => text@,
    };
    assert(clock@ == sc);
    let parts = split_pieces(clock.as_slice(), Some(':'));
    assert(sep_pred(Some(':')) == eq_char(':'));
    assert(views(parts@) == split_by(sc, eq_char(':')));
    assert(parts@.len() == views(parts@).len());
    let ghost ps = views(parts@);
    proof {
        if parts@.len() >= 1 {
            assert(ps[0] == parts@[0]@);
        }
        if parts@.len() >= 2 {
            assert(ps[1] == parts@[1]@);
        }
        if parts@.len() >= 3 {
            assert(ps[2] == parts@[2]@);
        }
    }
    let secs: u128 = if parts.len() == 3 {
        let h = number_or_zero(parts[0].as_slice()) as u128;
        let m = number_or_zero(parts[1].as_slice()) as u128;
        let s = number_or_zero(parts[2].as_slice()) as u128;
        h * 3600 + m * 60 + s
    } else if parts.len() == 2 {
        let m = number_or_zero(parts[0].as_slice()) as u128;
        let s = number_or_zero(parts[1].as_slice()) as u128;
        m * 60 + s
    } else if parts.len() == 1 {
        number_or_zero(parts[0].as_slice()) as u128
    } else {
        0
    };
    (days as u128) * 86_400 + secs <= u64::MAX as u128
}

/// Whether every process line of a `ps` table has an elapsed time that
/// fits, which `parse_procs` needs.
pub fn ages_fit_in(table: &str) -> (b: bool)
    ensures
        b == ages_fit(table@),
{
    let v = chars_of(table);
    let ls = split_lines(v.as_slice());
    let ghost all = views(ls@);
    assert(all == lines(table@));
    let n = ls.len();
    let mut i: usize = 0;
    while i < n
        invariant
            i <= n,
            n == ls@.len(),
            all == views(ls@),
            all == lines(table@),
            forall|k: int|
                0 <= k < i ==> {
                    let w = #[trigger] words(all[k]);
                    w.len() >= 5 && parse_u32(w[0]) is Some ==> etime_seconds(w[4]) <= u64::MAX
                },
        decreases n - i,
    {
        let w = split_words(ls[i].as_slice());
        assert(views(w@) == words(all[i as int]));
        if w.len() >= 5 {
            assert(w@[0]@ == words(all[i as int])[0] && w@[4]@ == words(all[i as int])[4]);
            if parse_u32_of(w[0].as_slice()).is_some() {
                let field = string_of(w[4].as_slice());
                if !etime_fits(field.as_str()) {
                    return false;
                }
            }
        }
        i += 1;
    }
    true
}

} // verus!
