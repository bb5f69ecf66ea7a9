//! The `cucina` command line: its arguments, how a name picks servers, and
//! what it prints. Talking to the app and reading the environment are the
//! caller's part.
use vstd::prelude::*;
use crate::text::{
    chars_of, decimal, ends_with, push_decimal, has_suffix, lead_count, lemma_lead_count, lower_of, lowercase, ne_char, parse_u64,
    parse_u64_of, push_str, split_once, split_once_char, string_of, strip_prefix, strip_prefix_of,
};
use crate::git::Worktree;
use crate::ui::{painted, spaces, Paint};
use crate::model::{LogLine, Origin, Server, ServerRecord, Stream};
use crate::text::trim;
use crate::paths::var_view;
use crate::proto::ServerView;

verus! {

/// How long `--wait` waits when it is given no number.
pub const DEFAULT_WAIT_MS: u64 = 45_000;

/// How many log lines `logs` shows when `--tail` gives no number.
pub const DEFAULT_TAIL: usize = 200;

/// Flags that take the following argument as their value when written with
/// a space.
pub open spec fn value_flag(f: Seq<char>) -> bool {
    f == "name"@ || f == "dir"@ || f == "command"@ || f == "cmd"@ || f == "env"@ || f == "tail"@
        || f == "agent"@ || f == "client"@ || f == "group"@
}

fn is(f: &[char], s: &str) -> (b: bool)
    ensures
        b == (f@ == s@),
{
    let t = chars_of(s);
    crate::text::seq_eq(f, t.as_slice())
}

fn is_value_flag(f: &[char]) -> (b: bool)
    ensures
        b == value_flag(f@),
{
    is(f, "name") || is(f, "dir") || is(f, "command") || is(f, "cmd") || is(f, "env") || is(f, "tail")
        || is(f, "agent") || is(f, "client") || is(f, "group")
}

/// Flags with their values, in the order they first appeared.
pub type FlagsModel = Seq<(Seq<char>, Seq<Seq<char>>)>;

/// Where flag `k` is kept.
pub open spec fn flag_index(flags: FlagsModel, k: Seq<char>) -> Option<int>
    decreases flags.len(),
{
    if flags.len() == 0 {
        None
    } else if flags[0].0 == k {
        Some(0)
    } else {
        match flag_index(flags.drop_first(), k) {
            Some(j) => Some(j + 1),
            None => None,
        }
    }
}

/// Flag `k` with one more value `v`.
pub open spec fn with_value(flags: FlagsModel, k: Seq<char>, v: Seq<char>) -> FlagsModel {
    match flag_index(flags, k) {
        Some(j) => flags.update(j, (k, flags[j].1.push(v))),
        None => flags.push((k, seq![v])),
    }
}

/// Flag `k` present, with the values it already had.
pub open spec fn with_flag(flags: FlagsModel, k: Seq<char>) -> FlagsModel {
    match flag_index(flags, k) {
        Some(j) => flags,
        None => flags.push((k, Seq::empty())),
    }
}

/// Command-line arguments as values: the positional ones in order, and the
/// flags.
pub struct ArgsModel {
    pub positional: Seq<Seq<char>>,
    pub flags: FlagsModel,
}

/// Reading `raw` from position `i` on, having read `a` so far. A `--k=v`
/// gives flag `k` the value `v`; a `--k` that takes a value takes the next
/// argument when there is one; any other `--k` is a bare flag; everything
/// else is positional.
pub open spec fn parse_from(raw: Seq<Seq<char>>, i: int, a: ArgsModel) -> ArgsModel
    decreases raw.len() - i,
{
    if i < 0 || i >= raw.len() {
        a
    } else {
        let arg = raw[i];
        match strip_prefix(arg, "--"@) {
            Some(body) => match split_once(body, '=') {
                Some((k, v)) => parse_from(raw, i + 1, ArgsModel { flags: with_value(a.flags, k, v), ..a }),
                None => if value_flag(body) && i + 1 < raw.len() {
                    parse_from(raw, i + 2, ArgsModel { flags: with_value(a.flags, body, raw[i + 1]), ..a })
                } else {
                    parse_from(raw, i + 1, ArgsModel { flags: with_flag(a.flags, body), ..a })
                },
            },
            None => parse_from(raw, i + 1, ArgsModel { positional: a.positional.push(arg), ..a }),
        }
    }
}

pub open spec fn parsed(raw: Seq<Seq<char>>) -> ArgsModel {
    parse_from(raw, 0, ArgsModel { positional: Seq::empty(), flags: Seq::empty() })
}

/// The values of flag `k`, if it was given.
pub open spec fn flag_values(flags: FlagsModel, k: Seq<char>) -> Option<Seq<Seq<char>>> {
    match flag_index(flags, k) {
        Some(j) => Some(flags[j].1),
        None => None,
    }
}

/// The first value of flag `k`, if it has one.
pub open spec fn flag_first(flags: FlagsModel, k: Seq<char>) -> Option<Seq<char>> {
    match flag_values(flags, k) {
        Some(vs) => if vs.len() > 0 {
            Some(vs[0])
        } else {
            None
        },
        None => None,
    }
}

pub open spec fn strings(v: Seq<String>) -> Seq<Seq<char>> {
    v.map_values(|s: String| s@)
}

pub open spec fn flags_view(v: Seq<(String, Vec<String>)>) -> FlagsModel {
    v.map_values(|e: (String, Vec<String>)| (e.0@, strings(e.1@)))
}

/// Command-line arguments, read once.
pub struct Args {
    pub positional: Vec<String>,
    pub flags: Vec<(String, Vec<String>)>,
}

impl View for Args {
    type V = ArgsModel;

    open spec fn view(&self) -> ArgsModel {
        ArgsModel { positional: strings(self.positional@), flags: flags_view(self.flags@) }
    }
}

proof fn lemma_flag_index(flags: FlagsModel, k: Seq<char>, i: int)
    requires
        0 <= i <= flags.len(),
        forall|j: int| 0 <= j < i ==> (#[trigger] flags[j]).0 != k,
        i < flags.len() ==> flags[i].0 == k,
    ensures
        flag_index(flags, k) == (if i < flags.len() { Some(i) } else { None::<int> }),
    decreases i,
{
    if i > 0 {
        let t = flags.drop_first();
        assert forall|j: int| 0 <= j < i - 1 implies (#[trigger] t[j]).0 != k by {
            assert(t[j] == flags[j + 1]);
        }
        if i < flags.len() {
            assert(t[i - 1] == flags[i]);
        }
        lemma_flag_index(t, k, i - 1);
    }
}

fn find_flag(flags: &Vec<(String, Vec<String>)>, k: &[char]) -> (r: Option<usize>)
    ensures
        match r {
            Some(j) => j < flags@.len() && flag_index(flags_view(flags@), k@) == Some(j as int) && flags@[j as int].0@
                == k@,
            None => flag_index(flags_view(flags@), k@) is None,
        },
{
    let ghost fv = flags_view(flags@);
    let mut i: usize = 0;
    while i < flags.len()
        invariant
            i <= flags@.len(),
            fv == flags_view(flags@),
            fv.len() == flags@.len(),
            forall|j: int| 0 <= j < i ==> (#[trigger] fv[j]).0 != k@,
        decreases flags@.len() - i,
    {
        let name = chars_of(flags[i].0.as_str());
        if crate::text::seq_eq(name.as_slice(), k) {
            proof {
                lemma_flag_index(fv, k@, i as int);
            }
            return Some(i);
        }
        i += 1;
    }
    proof {
        lemma_flag_index(fv, k@, i as int);
    }
    None
}

fn add_value(flags: &mut Vec<(String, Vec<String>)>, k: &[char], v: String)
    ensures
        flags_view(final(flags)@) == with_value(flags_view(old(flags)@), k@, v@),
{
    let ghost before = flags_view(flags@);
    match find_flag(flags, k) {
        Some(j) => {
            let (name, mut values) = flags.remove(j);
            let ghost old_values = strings(values@);
            values.push(v);
            assert(strings(values@) =~= old_values.push(v@));
            flags.insert(j, (name, values));
            assert(flags_view(flags@) =~= before.update(j as int, (k@, before[j as int].1.push(v@))));
        },
        None => {
            let mut vs: Vec<String> = Vec::new();
            vs.push(v);
            flags.push((string_of(k), vs));
            assert(strings(seq![v]) =~= seq![v@]);
            assert(flags_view(flags@) =~= before.push((k@, seq![v@])));
        },
    }
}

fn add_flag(flags: &mut Vec<(String, Vec<String>)>, k: &[char])
    ensures
        flags_view(final(flags)@) == with_flag(flags_view(old(flags)@), k@),
{
    let ghost before = flags_view(flags@);
    match find_flag(flags, k) {
        Some(j) => {},
        None => {
            flags.push((string_of(k), Vec::new()));
            assert(strings(Seq::<String>::empty()) =~= Seq::<Seq<char>>::empty());
            assert(flags_view(flags@) =~= before.push((k@, Seq::empty())));
        },
    }
}

impl Args {
    pub fn parse(raw: Vec<String>) -> (a: Args)
        ensures
            a@ == parsed(strings(raw@)),
    {
        let ghost rv = strings(raw@);
        let mut a = Args { positional: Vec::new(), flags: Vec::new() };
        let mut i: usize = 0;
        assert(strings(Seq::<String>::empty()) =~= Seq::<Seq<char>>::empty());
        assert(flags_view(Seq::<(String, Vec<String>)>::empty()) =~= Seq::<(Seq<char>, Seq<Seq<char>>)>::empty());
        while i < raw.len()
            invariant
                i <= raw@.len(),
                rv == strings(raw@),
                rv.len() == raw@.len(),
                parse_from(rv, i as int, a@) == parsed(rv),
            decreases raw@.len() - i,
        {
            let arg = chars_of(raw[i].as_str());
            assert(arg@ == rv[i as int]);
            match strip_prefix_of(arg.as_slice(), "--") {
                Some(body) => match split_once_char(body.as_slice(), '=') {
                    Some((k, v)) => {
                        add_value(&mut a.flags, k.as_slice(), string_of(v.as_slice()));
                        i += 1;
                    },
                    None => {
                        if is_value_flag(body.as_slice()) && i + 1 < raw.len() {
                            let value = raw[i + 1].clone();
                            add_value(&mut a.flags, body.as_slice(), value);
                            i += 2;
                        } else {
                            add_flag(&mut a.flags, body.as_slice());
                            i += 1;
                        }
                    },
                },
                None => {
                    let ghost before = strings(a.positional@);
                    a.positional.push(raw[i].clone());
                    assert(strings(a.positional@) =~= before.push(arg@));
                    i += 1;
                },
            }
        }
        a
    }

    pub fn has(&self, key: &str) -> (b: bool)
        ensures
            b == (flag_index(self@.flags, key@) is Some),
    {
        let k = chars_of(key);
        find_flag(&self.flags, k.as_slice()).is_some()
    }

    pub fn get(&self, key: &str) -> (r: Option<String>)
        ensures
            match r {
                Some(v) => flag_first(self@.flags, key@) == Some(v@),
                None => flag_first(self@.flags, key@) is None,
            },
    {
        let k = chars_of(key);
        match find_flag(&self.flags, k.as_slice()) {
            Some(j) => {
                let values = &self.flags[j].1;
                if values.len() > 0 {
                    Some(values[0].clone())
                } else {
                    None
                }
            },
            None => None,
        }
    }

    pub fn all(&self, key: &str) -> (r: Vec<String>)
        ensures
            strings(r@) == (match flag_values(self@.flags, key@) {
                Some(vs) => vs,
                None => Seq::empty(),
            }),
    {
        let k = chars_of(key);
        match find_flag(&self.flags, k.as_slice()) {
            Some(j) => {
                let r = self.flags[j].1.clone();
                assert(strings(r@) =~= strings(self.flags@[j as int].1@));
                r
            },
            None => {
                let r: Vec<String> = Vec::new();
                assert(strings(r@) =~= Seq::<Seq<char>>::empty());
                r
            },
        }
    }

    /// `--wait` asks to block until the server listens: for the number of
    /// milliseconds it gives, or `DEFAULT_WAIT_MS` when it gives none.
    pub fn wait_ms(&self) -> (r: Option<u64>)
        ensures
            r == (if flag_index(self@.flags, "wait"@) is None {
                None
            } else {
                Some(
                    match flag_first(self@.flags, "wait"@) {
                        Some(v) => match parse_u64(v) {
                            Some(n) => n,
                            None => DEFAULT_WAIT_MS,
                        },
                        None => DEFAULT_WAIT_MS,
                    },
                )
            }),
    {
        if !self.has("wait") {
            return None;
        }
        match self.get("wait") {
            Some(v) => match parse_u64_of(chars_of(v.as_str()).as_slice()) {
                Some(n) => Some(n),
                None => Some(DEFAULT_WAIT_MS),
            },
            None => Some(DEFAULT_WAIT_MS),
        }
    }
}

} // verus!

verus! {

// ---- picking servers -------------------------------------------------------------

/// The first position in `s` that `p` holds at.
pub open spec fn first_index<A>(s: Seq<A>, p: spec_fn(A) -> bool) -> Option<int>
    decreases s.len(),
{
    if s.len() == 0 {
        None
    } else if p(s[0]) {
        Some(0)
    } else {
        match first_index(s.drop_first(), p) {
            Some(j) => Some(j + 1),
            None => None,
        }
    }
}

pub proof fn lemma_first_index<A>(s: Seq<A>, p: spec_fn(A) -> bool, i: int)
    requires
        0 <= i <= s.len(),
        forall|j: int| 0 <= j < i ==> !p(#[trigger] s[j]),
        i < s.len() ==> p(s[i]),
    ensures
        first_index(s, p) == (if i < s.len() { Some(i) } else { None::<int> }),
    decreases i,
{
    if i > 0 {
        let t = s.drop_first();
        assert forall|j: int| 0 <= j < i - 1 implies !p(#[trigger] t[j]) by {
            assert(t[j] == s[j + 1]);
        }
        if i < s.len() {
            assert(t[i - 1] == s[i]);
        }
        lemma_first_index(t, p, i - 1);
    }
}

/// The server to act on: the first positional argument.
pub fn need_id(args: &Args) -> (r: Result<String, String>)
    ensures
        args@.positional.len() > 0 ==> r is Ok && r->Ok_0@ == args@.positional[0],
        args@.positional.len() == 0 ==> r is Err && r->Err_0@ == "Which server? e.g. `cucina up api`"@,
{
    if args.positional.len() > 0 {
        Ok(args.positional[0].clone())
    } else {
        Err(string_of(chars_of("Which server? e.g. `cucina up api`").as_slice()))
    }
}

/// A view that `key`, already lower-cased, names by id or by name.
pub open spec fn names_server(key: Seq<char>) -> spec_fn(ServerView) -> bool {
    |v: ServerView| lowercase(v.server.id@) == key || lowercase(v.server.name@) == key
}

/// A view in the project that `key`, already lower-cased, names.
pub open spec fn in_project(key: Seq<char>) -> spec_fn(ServerView) -> bool {
    |v: ServerView| v.server.group@.len() > 0 && lowercase(v.server.group@) == key
}

pub open spec fn view_ids(v: Seq<ServerView>) -> Seq<Seq<char>> {
    v.map_values(|x: ServerView| x.server.id@)
}

/// What `resolve` gives: the one server that the key names, compared
/// without case; else every member of the project it names; else an error.
pub open spec fn resolved(views: Seq<ServerView>, key: Seq<char>) -> Result<Seq<Seq<char>>, Seq<char>> {
    let k = lowercase(key);
    match first_index(views, names_server(k)) {
        Some(j) => Ok(seq![views[j].server.id@]),
        None => {
            let group = view_ids(views.filter(in_project(k)));
            if group.len() > 0 {
                Ok(group)
            } else {
                Err("No server or group called "@ + k + "."@)
            }
        },
    }
}

pub open spec fn ids_result(r: Result<Vec<String>, String>) -> Result<Seq<Seq<char>>, Seq<char>> {
    match r {
        Ok(v) => Ok(strings(v@)),
        Err(e) => Err(e@),
    }
}

/// A name can mean one server or a whole group — `cucina up acme` should
/// bring up every service in that project.
pub fn resolve(views: &[ServerView], key: &str) -> (r: Result<Vec<String>, String>)
    ensures
        ids_result(r) == resolved(views@, key@),
{
    let k = lower_of(key);
    let n = views.len();
    let ghost p = names_server(k@);
    let mut i: usize = 0;
    while i < n
        invariant
            i <= n,
            n == views@.len(),
            p == names_server(k@),
            k@ == lowercase(key@),
            forall|j: int| 0 <= j < i ==> !p(#[trigger] views@[j]),
        decreases n - i,
    {
        let id = lower_of(views[i].server.id.as_str());
        let name = lower_of(views[i].server.name.as_str());
        if id == k || name == k {
            proof {
                lemma_first_index(views@, p, i as int);
            }
            let mut out: Vec<String> = Vec::new();
            out.push(views[i].server.id.clone());
            assert(strings(out@) =~= seq![views@[i as int].server.id@]);
            return Ok(out);
        }
        i += 1;
    }
    proof {
        lemma_first_index(views@, p, i as int);
    }
    let ghost q = in_project(k@);
    let mut group: Vec<String> = Vec::new();
    let mut j: usize = 0;
    while j < n
        invariant
            j <= n,
            n == views@.len(),
            q == in_project(k@),
            k@ == lowercase(key@),
            strings(group@) == view_ids(views@.take(j as int).filter(q)),
        decreases n - j,
    {
        proof {
            reveal(Seq::filter);
            assert(views@.take(j + 1).drop_last() =~= views@.take(j as int));
        }
        let g = &views[j].server.group;
        if !g.as_str().is_empty() && lower_of(g.as_str()) == k {
            let ghost before = strings(group@);
            group.push(views[j].server.id.clone());
            assert(strings(group@) =~= before.push(views@[j as int].server.id@));
            assert(view_ids(views@.take(j + 1).filter(q)) =~= view_ids(views@.take(j as int).filter(q)).push(
                views@[j as int].server.id@,
            ));
        }
        j += 1;
    }
    assert(views@.take(n as int) =~= views@);
    if group.len() > 0 {
        Ok(group)
    } else {
        let mut e = chars_of("No server or group called ");
        push_str(&mut e, k.as_str());
        push_str(&mut e, ".");
        Err(string_of(e.as_slice()))
    }
}

} // verus!

verus! {

// ---- worktrees --------------------------------------------------------------------

/// A worktree on the branch `key` names, compared without case.
pub open spec fn on_branch(key: Seq<char>) -> spec_fn(Worktree) -> bool {
    |w: Worktree| lowercase(w.branch@) == key
}

/// A worktree whose path ends with `key`, compared without case.
pub open spec fn path_ends_with(key: Seq<char>) -> spec_fn(Worktree) -> bool {
    |w: Worktree| ends_with(lowercase(w.path@), key)
}

/// The branches, one per line, indented under the first.
pub open spec fn branch_list(trees: Seq<Worktree>) -> Seq<char>
    decreases trees.len(),
{
    if trees.len() == 0 {
        Seq::empty()
    } else if trees.len() == 1 {
        trees[0].branch@
    } else {
        branch_list(trees.drop_last()) + "\n  "@ + trees.last().branch@
    }
}

/// Which worktree `target` picks: by branch first, then by the end of its
/// path; `Ok` holds its position.
pub open spec fn picked_worktree(trees: Seq<Worktree>, dir: Seq<char>, target: Seq<char>) -> Result<int, Seq<char>> {
    let k = lowercase(target);
    if trees.len() == 0 {
        Err(dir + " isn't a git worktree."@)
    } else {
        match first_index(trees, on_branch(k)) {
            Some(j) => Ok(j),
            None => match first_index(trees, path_ends_with(k)) {
                Some(j) => Ok(j),
                None => Err("No worktree matching `"@ + target + "`. Available:\n  "@ + branch_list(trees)),
            },
        }
    }
}

fn first_tree(trees: &[Worktree], k: &String, by_branch: bool) -> (r: Option<usize>)
    ensures
        match r {
            Some(j) => j < trees@.len() && first_index(
                trees@,
                if by_branch {
                    on_branch(k@)
                } else {
                    path_ends_with(k@)
                },
            ) == Some(j as int),
            None => first_index(
                trees@,
                if by_branch {
                    on_branch(k@)
                } else {
                    path_ends_with(k@)
                },
            ) is None,
        },
{
    let ghost p = if by_branch {
        on_branch(k@)
    } else {
        path_ends_with(k@)
    };
    let n = trees.len();
    let kv = chars_of(k.as_str());
    let mut i: usize = 0;
    while i < n
        invariant
            i <= n,
            n == trees@.len(),
            kv@ == k@,
            p == (if by_branch {
                on_branch(k@)
            } else {
                path_ends_with(k@)
            }),
            forall|j: int| 0 <= j < i ==> !p(#[trigger] trees@[j]),
        decreases n - i,
    {
        let hit = if by_branch {
            lower_of(trees[i].branch.as_str()) == *k
        } else {
            let path = chars_of(lower_of(trees[i].path.as_str()).as_str());
            has_suffix(path.as_slice(), kv.as_slice())
        };
        if hit {
            proof {
                lemma_first_index(trees@, p, i as int);
            }
            return Some(i);
        }
        i += 1;
    }
    proof {
        lemma_first_index(trees@, p, i as int);
    }
    None
}

fn branches(trees: &[Worktree]) -> (out: Vec<char>)
    ensures
        out@ == branch_list(trees@),
{
    let n = trees.len();
    let mut out: Vec<char> = Vec::new();
    let mut i: usize = 0;
    while i < n
        invariant
            i <= n,
            n == trees@.len(),
            out@ == branch_list(trees@.take(i as int)),
        decreases n - i,
    {
        assert(trees@.take(i + 1).drop_last() =~= trees@.take(i as int));
        if i > 0 {
            push_str(&mut out, "\n  ");
        } else {
            assert(trees@.take(1)[0] == trees@[0]);
        }
        push_str(&mut out, trees[i].branch.as_str());
        i += 1;
    }
    assert(trees@.take(n as int) =~= trees@);
    out
}

/// Why a directory offers no worktrees.
pub fn not_a_worktree(dir: &str) -> (e: String)
    ensures
        e@ == dir@ + " isn't a git worktree."@,
{
    let mut e = chars_of(dir);
    push_str(&mut e, " isn't a git worktree.");
    string_of(e.as_slice())
}

/// Picks a worktree by branch name, or by a path that ends with what the
/// user typed. `trees` are the worktrees of `dir`.
pub fn resolve_worktree(trees: &[Worktree], dir: &str, target: &str) -> (r: Result<Worktree, String>)
    ensures
        match picked_worktree(trees@, dir@, target@) {
            Ok(j) => r is Ok && r->Ok_0 == trees@[j],
            Err(e) => r is Err && r->Err_0@ == e,
        },
{
    if trees.len() == 0 {
        return Err(not_a_worktree(dir));
    }
    let k = lower_of(target);
    match first_tree(trees, &k, true) {
        Some(j) => Ok(trees[j].clone()),
        None => match first_tree(trees, &k, false) {
            Some(j) => Ok(trees[j].clone()),
            None => {
                let mut e = chars_of("No worktree matching `");
                push_str(&mut e, target);
                push_str(&mut e, "`. Available:\n  ");
                let list = branches(trees);
                crate::text::push_all(&mut e, list.as_slice());
                Err(string_of(e.as_slice()))
            },
        },
    }
}

// ---- escapes ------------------------------------------------------------------------

/// `s` with its ANSI escapes taken out: from each ESC through the next `m`,
/// or to the end where no `m` follows.
pub open spec fn stripped(s: Seq<char>) -> Seq<char>
    decreases s.len(),
{
    if s.len() == 0 {
        Seq::empty()
    } else if s[0] == '\x1b' {
        let rest = s.drop_first();
        let i = lead_count(rest, ne_char('m')) as int;
        if i < rest.len() {
            stripped(rest.skip(i + 1))
        } else {
            Seq::empty()
        }
    } else {
        seq![s[0]] + stripped(s.drop_first())
    }
}

pub fn strip_ansi(s: &str) -> (out: String)
    ensures
        out@ == stripped(s@),
{
    let v = chars_of(s);
    let n = v.len();
    let mut out: Vec<char> = Vec::new();
    let mut i: usize = 0;
    assert(v@.skip(0) =~= v@);
    assert(out@ + stripped(v@) =~= stripped(v@));
    while i < n
        invariant
            i <= n,
            n == v@.len(),
            v@ == s@,
            out@ + stripped(v@.skip(i as int)) == stripped(s@),
        decreases n - i,
    {
        let ghost t = v@.skip(i as int);
        assert(t.drop_first() =~= v@.skip(i + 1));
        if v[i] == '\x1b' {
            let mut j: usize = i + 1;
            while j < n && v[j] != 'm'
                invariant
                    i + 1 <= j <= n,
                    n == v@.len(),
                    forall|q: int| i + 1 <= q < j ==> v@[q] != 'm',
                decreases n - j,
            {
                j += 1;
            }
            proof {
                let rest = t.drop_first();
                assert forall|q: int| 0 <= q < j - (i + 1) implies (ne_char('m'))(#[trigger] rest[q]) by {
                    assert(rest[q] == v@[i + 1 + q]);
                }
                if j < n {
                    assert(rest[j - (i + 1)] == v@[j as int]);
                }
                lemma_lead_count(rest, ne_char('m'), j - (i + 1));
                if j < n {
                    assert(rest.skip(j - (i + 1) + 1) =~= v@.skip(j + 1));
                }
            }
            if j < n {
                i = j + 1;
            } else {
                assert(out@ + Seq::<char>::empty() =~= out@);
                assert(v@.skip(n as int) =~= Seq::<char>::empty());
                i = n;
            }
        } else {
            let ghost before = out@;
            out.push(v[i]);
            assert(out@ + stripped(v@.skip(i + 1)) =~= before + (seq![v@[i as int]] + stripped(v@.skip(i + 1))));
            i += 1;
        }
    }
    assert(v@.skip(n as int) =~= Seq::<char>::empty());
    assert(out@ + Seq::<char>::empty() =~= out@);
    string_of(out.as_slice())
}

} // verus!

verus! {

// ---- help ---------------------------------------------------------------------------

/// A command and its arguments, as the help shows them.
pub open spec fn usage(on: bool, cmd: Seq<char>, arg: Seq<char>) -> Seq<char> {
    painted(on, "1"@, cmd) + " "@ + painted(on, "2"@, arg)
}

/// The help's rows: a command on the left, what it does on the right.
pub open spec fn help_rows(on: bool) -> Seq<(Seq<char>, Seq<char>)> {
    seq![
        (painted(on, "1"@, "cucina"@), painted(on, "2"@, "what's on the heat"@)),
        (usage(on, "cucina up"@, "<id>"@), painted(on, "2"@, "start one, --wait until it's listening"@)),
        (usage(on, "cucina down"@, "<id>"@), painted(on, "2"@, "stop one"@)),
        (usage(on, "cucina restart"@, "<id>"@), painted(on, "2"@, "stop and start again"@)),
        (usage(on, "cucina logs"@, "<id>"@), painted(on, "2"@, "recent output, --tail N"@)),
        (usage(on, "cucina open"@, "<id>"@), painted(on, "2"@, "open it in the browser"@)),
        (usage(on, "cucina worktrees"@, "<id>"@), painted(on, "2"@, "git worktrees it can run from"@)),
        (usage(on, "cucina switch"@, "<id> <branch>"@), painted(on, "2"@, "move it to another worktree"@)),
        (painted(on, "1"@, "cucina add"@), painted(on, "2"@, "--name api --dir . --command \"npm run dev\""@)),
        (usage(on, "cucina rm"@, "<id>"@), painted(on, "2"@, "remove one"@)),
        (painted(on, "1"@, "cucina mcp"@), painted(on, "2"@, "run as an MCP server for coding agents"@)),
    ]
}

/// One row, padded on its visible width (escapes not counted) to column 34.
pub open spec fn help_row(left: Seq<char>, right: Seq<char>) -> Seq<char> {
    let visible = stripped(left).len();
    "  "@ + left + spaces(if visible < 34 { (34 - visible) as nat } else { 0 }) + right + "\n"@
}

pub open spec fn help_body(rows: Seq<(Seq<char>, Seq<char>)>) -> Seq<char>
    decreases rows.len(),
{
    if rows.len() == 0 {
        Seq::empty()
    } else {
        help_body(rows.drop_last()) + help_row(rows.last().0, rows.last().1)
    }
}

pub open spec fn help_flags(on: bool) -> Seq<char> {
    "\n"@ + painted(on, "2"@, "Flags"@) + "\n  "@ + painted(on, "1"@, "--json          "@) + "  "@
        + painted(on, "2"@, "machine-readable output, for agents"@) + "\n  "@
        + painted(on, "1"@, "--agent <name>  "@) + "  "@ + painted(on, "2"@, "attribute the run to an agent"@)
        + "\n  "@ + painted(on, "1"@, "--env K=V       "@) + "  "@
        + painted(on, "2"@, "set an environment variable (repeatable)"@) + "\n  "@
        + painted(on, "1"@, "--auto-restart  "@) + "  "@ + painted(on, "2"@, "bring it back if it crashes"@)
        + "\n"@
}

pub open spec fn help_text(on: bool) -> Seq<char> {
    painted(on, "38;5;208"@, "cucina"@) + "  "@ + painted(on, "2"@, "— keep your local servers on the heat"@) + "\n\n"@
        + help_body(help_rows(on)) + help_flags(on)
}

fn usage_of(paint: &Paint, cmd: &str, arg: &str) -> (s: String)
    ensures
        s@ == usage(paint.is_on(), cmd@, arg@),
{
    let mut v = chars_of(paint.bold(cmd).as_str());
    push_str(&mut v, " ");
    push_str(&mut v, paint.dim(arg).as_str());
    assert(v@ =~= usage(paint.is_on(), cmd@, arg@));
    string_of(v.as_slice())
}

fn rows_of(paint: &Paint) -> (rows: Vec<(String, String)>)
    ensures
        rows@.map_values(|r: (String, String)| (r.0@, r.1@)) == help_rows(paint.is_on()),
{
    let mut rows: Vec<(String, String)> = Vec::new();
    rows.push((paint.bold("cucina"), paint.dim("what's on the heat")));
    rows.push((usage_of(paint, "cucina up", "<id>"), paint.dim("start one, --wait until it's listening")));
    rows.push((usage_of(paint, "cucina down", "<id>"), paint.dim("stop one")));
    rows.push((usage_of(paint, "cucina restart", "<id>"), paint.dim("stop and start again")));
    rows.push((usage_of(paint, "cucina logs", "<id>"), paint.dim("recent output, --tail N")));
    rows.push((usage_of(paint, "cucina open", "<id>"), paint.dim("open it in the browser")));
    rows.push((usage_of(paint, "cucina worktrees", "<id>"), paint.dim("git worktrees it can run from")));
    rows.push((usage_of(paint, "cucina switch", "<id> <branch>"), paint.dim("move it to another worktree")));
    rows.push((paint.bold("cucina add"), paint.dim("--name api --dir . --command \"npm run dev\"")));
    rows.push((usage_of(paint, "cucina rm", "<id>"), paint.dim("remove one")));
    rows.push((paint.bold("cucina mcp"), paint.dim("run as an MCP server for coding agents")));
    assert(rows@.map_values(|r: (String, String)| (r.0@, r.1@)) =~= help_rows(paint.is_on()));
    rows
}

fn push_help_row(out: &mut Vec<char>, left: &str, right: &str)
    ensures
        final(out)@ == old(out)@ + help_row(left@, right@),
{
    let visible = chars_of(strip_ansi(left).as_str()).len();
    let pad: usize = if visible < 34 {
        34 - visible
    } else {
        0
    };
    push_str(out, "  ");
    push_str(out, left);
    let ghost mid = out@;
    let mut k: usize = 0;
    while k < pad
        invariant
            k <= pad,
            out@ == mid + spaces(k as nat),
        decreases pad - k,
    {
        out.push(' ');
        k += 1;
        assert(out@ =~= mid + spaces(k as nat));
    }
    push_str(out, right);
    push_str(out, "\n");
    assert(out@ =~= old(out)@ + help_row(left@, right@));
}

fn push_flag(out: &mut Vec<char>, paint: &Paint, flag: &str, what: &str)
    ensures
        final(out)@ == old(out)@ + "\n  "@ + painted(paint.is_on(), "1"@, flag@) + "  "@ + painted(
            paint.is_on(),
            "2"@,
            what@,
        ),
{
    push_str(out, "\n  ");
    push_str(out, paint.bold(flag).as_str());
    push_str(out, "  ");
    push_str(out, paint.dim(what).as_str());
    assert(out@ =~= old(out)@ + "\n  "@ + painted(paint.is_on(), "1"@, flag@) + "  "@ + painted(
        paint.is_on(),
        "2"@,
        what@,
    ));
}

/// What `cucina help` prints.
pub fn help(paint: &Paint) -> (out: String)
    ensures
        out@ == help_text(paint.is_on()),
{
    let ghost on = paint.is_on();
    let mut out = chars_of(paint.terracotta("cucina").as_str());
    push_str(&mut out, "  ");
    push_str(&mut out, paint.dim("— keep your local servers on the heat").as_str());
    push_str(&mut out, "\n\n");
    let ghost head = out@;
    let rows = rows_of(paint);
    let ghost rv = rows@.map_values(|r: (String, String)| (r.0@, r.1@));
    let n = rows.len();
    let mut i: usize = 0;
    while i < n
        invariant
            i <= n,
            n == rows@.len(),
            rv == rows@.map_values(|r: (String, String)| (r.0@, r.1@)),
            out@ == head + help_body(rv.take(i as int)),
        decreases n - i,
    {
        assert(rv.take(i + 1).drop_last() =~= rv.take(i as int));
        push_help_row(&mut out, rows[i].0.as_str(), rows[i].1.as_str());
        assert(out@ =~= head + help_body(rv.take(i + 1)));
        i += 1;
    }
    assert(rv.take(n as int) =~= rv);
    push_flags(&mut out, paint);
    string_of(out.as_slice())
}

fn push_flags(out: &mut Vec<char>, paint: &Paint)
    ensures
        final(out)@ == old(out)@ + help_flags(paint.is_on()),
{
    push_str(out, "\n");
    push_str(out, paint.dim("Flags").as_str());
    push_flag(out, paint, "--json          ", "machine-readable output, for agents");
    push_flag(out, paint, "--agent <name>  ", "attribute the run to an agent");
    push_flag(out, paint, "--env K=V       ", "set an environment variable (repeatable)");
    push_flag(out, paint, "--auto-restart  ", "bring it back if it crashes");
    push_str(out, "\n");
    assert(out@ =~= old(out)@ + help_flags(paint.is_on()));
}

} // verus!

verus! {

// ---- defining a server --------------------------------------------------------------

/// The order of `String`: code point by code point, a prefix first.
pub open spec fn key_less(a: Seq<char>, b: Seq<char>) -> bool
    decreases a.len(),
{
    if a.len() == 0 {
        b.len() > 0
    } else if b.len() == 0 {
        false
    } else if a[0] != b[0] {
        a[0] < b[0]
    } else {
        key_less(a.drop_first(), b.drop_first())
    }
}

fn less(a: &[char], b: &[char]) -> (r: bool)
    ensures
        r == key_less(a@, b@),
{
    let mut i: usize = 0;
    let n = a.len();
    let m = b.len();
    assert(a@.skip(0) =~= a@);
    assert(b@.skip(0) =~= b@);
    while i < n && i < m && a[i] == b[i]
        invariant
            i <= n,
            i <= m,
            n == a@.len(),
            m == b@.len(),
            key_less(a@, b@) == key_less(a@.skip(i as int), b@.skip(i as int)),
        decreases n - i,
    {
        assert(a@.skip(i as int).drop_first() =~= a@.skip(i + 1));
        assert(b@.skip(i as int).drop_first() =~= b@.skip(i + 1));
        i += 1;
    }
    if i == n {
        i < m
    } else if i == m {
        false
    } else {
        a[i] < b[i]
    }
}

pub type EnvModel = Seq<(Seq<char>, Seq<char>)>;

pub open spec fn env_view(s: Seq<(String, String)>) -> EnvModel {
    s.map_values(|e: (String, String)| (e.0@, e.1@))
}

/// Keys in strictly ascending order.
pub open spec fn env_sorted(s: EnvModel) -> bool {
    forall|i: int, j: int| 0 <= i < j < s.len() ==> key_less(#[trigger] s[i].0, #[trigger] s[j].0)
}

/// `k` set to `v` in an ordered list of pairs, as a sorted map does it:
/// an existing key keeps its place and takes the new value; a new one goes
/// before the first greater key.
pub open spec fn inserted(s: EnvModel, k: Seq<char>, v: Seq<char>) -> EnvModel
    decreases s.len(),
{
    if s.len() == 0 {
        seq![(k, v)]
    } else if s[0].0 == k {
        seq![(k, v)] + s.drop_first()
    } else if key_less(k, s[0].0) {
        seq![(k, v)] + s
    } else {
        seq![s[0]] + inserted(s.drop_first(), k, v)
    }
}

proof fn lemma_inserted(s: EnvModel, k: Seq<char>, v: Seq<char>, i: int)
    requires
        0 <= i <= s.len(),
        forall|j: int| 0 <= j < i ==> (#[trigger] s[j]).0 != k && !key_less(k, s[j].0),
        i < s.len() ==> (s[i].0 == k || key_less(k, s[i].0)),
    ensures
        inserted(s, k, v) == (if i < s.len() && s[i].0 == k {
            s.take(i) + seq![(k, v)] + s.skip(i + 1)
        } else {
            s.take(i) + seq![(k, v)] + s.skip(i)
        }),
    decreases i,
{
    if i == 0 {
        assert(s.take(0) + seq![(k, v)] + s.skip(1) =~= seq![(k, v)] + s.drop_first());
        assert(s.take(0) + seq![(k, v)] + s.skip(0) =~= seq![(k, v)] + s);
    } else {
        let t = s.drop_first();
        assert forall|j: int| 0 <= j < i - 1 implies (#[trigger] t[j]).0 != k && !key_less(k, t[j].0) by {
            assert(t[j] == s[j + 1]);
        }
        if i < s.len() {
            assert(t[i - 1] == s[i]);
        }
        lemma_inserted(t, k, v, i - 1);
        assert(s[0].0 != k && !key_less(k, s[0].0));
        if i < s.len() && s[i].0 == k {
            assert(seq![s[0]] + (t.take(i - 1) + seq![(k, v)] + t.skip(i)) =~= s.take(i) + seq![(k, v)] + s.skip(i + 1));
        } else {
            assert(seq![s[0]] + (t.take(i - 1) + seq![(k, v)] + t.skip(i - 1)) =~= s.take(i) + seq![(k, v)] + s.skip(i));
        }
    }
}

/// Sets `k` to `v` in `env`, kept in ascending key order.
pub fn env_insert(env: &mut Vec<(String, String)>, k: String, v: String)
    ensures
        env_view(final(env)@) == inserted(env_view(old(env)@), k@, v@),
{
    let ghost before = env_view(env@);
    let kc = chars_of(k.as_str());
    let n = env.len();
    let mut i: usize = 0;
    let mut done = false;
    while i < n && !done
        invariant
            i <= n,
            n == env@.len(),
            env@ == old(env)@,
            before == env_view(env@),
            kc@ == k@,
            forall|j: int| 0 <= j < i ==> (#[trigger] before[j]).0 != k@ && !key_less(k@, before[j].0),
            done ==> i < n && (before[i as int].0 == k@ || key_less(k@, before[i as int].0)),
        decreases (n - i) * 2 + (if done {
            0int
        } else {
            1int
        }),
    {
        let key = chars_of(env[i].0.as_str());
        assert(key@ == before[i as int].0);
        if crate::text::seq_eq(key.as_slice(), kc.as_slice()) || less(kc.as_slice(), key.as_slice()) {
            done = true;
        } else {
            i += 1;
        }
    }
    proof {
        lemma_inserted(before, k@, v@, i as int);
    }
    if i < n && env[i].0 == k {
        env.set(i, (k, v));
        assert(env_view(env@) =~= before.take(i as int) + seq![(kc@, v@)] + before.skip(i + 1));
    } else {
        env.insert(i, (k, v));
        assert(env_view(env@) =~= before.take(i as int) + seq![(kc@, v@)] + before.skip(i as int));
    }
}

/// The pairs that `--env KEY=VALUE` flags give, in order; `Err` holds the
/// first one without a `=`.
pub open spec fn env_from(pairs: Seq<Seq<char>>) -> Result<EnvModel, Seq<char>>
    decreases pairs.len(),
{
    if pairs.len() == 0 {
        Ok(Seq::empty())
    } else {
        match env_from(pairs.drop_last()) {
            Err(e) => Err(e),
            Ok(m) => match split_once(pairs.last(), '=') {
                Some((k, v)) => Ok(inserted(m, k, v)),
                None => Err(pairs.last()),
            },
        }
    }
}

/// The directory argument: `--dir`, or `.`.
pub open spec fn dir_arg(a: ArgsModel) -> Seq<char> {
    match flag_first(a.flags, "dir"@) {
        Some(d) => d,
        None => "."@,
    }
}

impl Args {
    /// The directory `add` was pointed at, before it is made canonical.
    pub fn dir(&self) -> (d: String)
        ensures
            d@ == dir_arg(self@),
    {
        match self.get("dir") {
            Some(d) => d,
            None => {
                let d = string_of(chars_of(".").as_slice());
                proof {
                    reveal_strlit(".");
                }
                d
            },
        }
    }
}

/// The command argument: `--command`, or `--cmd`.
pub open spec fn command_arg(a: ArgsModel) -> Option<Seq<char>> {
    match flag_first(a.flags, "command"@) {
        Some(c) => Some(c),
        None => flag_first(a.flags, "cmd"@),
    }
}

pub open spec fn env_values(a: ArgsModel) -> Seq<Seq<char>> {
    match flag_values(a.flags, "env"@) {
        Some(vs) => vs,
        None => Seq::empty(),
    }
}

/// What `build_server` makes of the arguments, given the canonical form
/// of the directory argument where there is one.
pub open spec fn built_server(a: ArgsModel, canonical: Option<Seq<char>>, s: ServerRecord) -> bool {
    &&& flag_first(a.flags, "name"@) == Some(s.name)
    &&& command_arg(a) == Some(s.command)
    &&& canonical == Some(s.dir)
    &&& env_from(env_values(a)) == Ok::<EnvModel, Seq<char>>(env_view(s.env))
    &&& s.id.len() == 0
    &&& s.group == (match flag_first(a.flags, "group"@) {
        Some(g) => g,
        None => Seq::empty(),
    })
    &&& s.tile == 0
    &&& s.auto_restart == (flag_index(a.flags, "auto-restart"@) is Some)
    &&& s.auto_start == (flag_index(a.flags, "auto-start"@) is Some)
    &&& s.created_at == 0
}

/// Why `build_server` refuses, if it does.
pub open spec fn build_error(a: ArgsModel, canonical: Option<Seq<char>>) -> Option<Seq<char>> {
    if flag_first(a.flags, "name"@) is None {
        Some("A --name is required, e.g. --name api"@)
    } else if command_arg(a) is None {
        Some("A --command is required, e.g. --command \"npm run dev\""@)
    } else if canonical is None {
        Some("Can't find the directory "@ + dir_arg(a) + "."@)
    } else {
        match env_from(env_values(a)) {
            Err(pair) => Some("--env wants KEY=VALUE, got `"@ + pair + "`"@),
            Ok(_) => None,
        }
    }
}

fn env_of(pairs: &Vec<String>) -> (r: Result<Vec<(String, String)>, String>)
    ensures
        match env_from(strings(pairs@)) {
            Ok(m) => r is Ok && env_view(r->Ok_0@) == m,
            Err(e) => r is Err && r->Err_0@ == e,
        },
{
    let ghost pv = strings(pairs@);
    let mut env: Vec<(String, String)> = Vec::new();
    let n = pairs.len();
    let mut i: usize = 0;
    assert(env_view(env@) =~= Seq::<(Seq<char>, Seq<char>)>::empty());
    while i < n
        invariant
            i <= n,
            n == pairs@.len(),
            pv == strings(pairs@),
            env_from(pv.take(i as int)) == Ok::<EnvModel, Seq<char>>(env_view(env@)),
        decreases n - i,
    {
        assert(pv.take(i + 1).drop_last() =~= pv.take(i as int));
        let p = chars_of(pairs[i].as_str());
        match split_once_char(p.as_slice(), '=') {
            Some((k, v)) => {
                env_insert(&mut env, string_of(k.as_slice()), string_of(v.as_slice()));
            },
            None => {
                assert(env_from(pv.take(i + 1)) == Err::<EnvModel, Seq<char>>(pv[i as int]));
                let ghost stop = i + 1;
                proof {
                    lemma_env_from_err(pv, stop as int, pv[i as int]);
                }
                return Err(pairs[i].clone());
            },
        }
        i += 1;
    }
    assert(pv.take(n as int) =~= pv);
    Ok(env)
}

proof fn lemma_env_from_err(pv: Seq<Seq<char>>, i: int, e: Seq<char>)
    requires
        0 <= i <= pv.len(),
        env_from(pv.take(i)) == Err::<EnvModel, Seq<char>>(e),
    ensures
        env_from(pv) == Err::<EnvModel, Seq<char>>(e),
    decreases pv.len() - i,
{
    if i < pv.len() {
        assert(pv.take(i + 1).drop_last() =~= pv.take(i));
        lemma_env_from_err(pv, i + 1, e);
    } else {
        assert(pv.take(i) =~= pv);
    }
}

/// The server that `cucina add` defines. `canonical` is the directory
/// argument made canonical, or `None` where it does not exist.
pub fn build_server(args: &Args, canonical: Option<String>) -> (r: Result<Server, String>)
    ensures
        match build_error(args@, var_view(canonical)) {
            Some(e) => r is Err && r->Err_0@ == e,
            None => r is Ok && built_server(args@, var_view(canonical), r->Ok_0@),
        },
{
    let ghost cv = var_view(canonical);
    let name = match args.get("name") {
        Some(n) => n,
        None => return Err(string_of(chars_of("A --name is required, e.g. --name api").as_slice())),
    };
    let command = match args.get("command") {
        Some(c) => c,
        None => match args.get("cmd") {
            Some(c) => c,
            None => return Err(
                string_of(chars_of("A --command is required, e.g. --command \"npm run dev\"").as_slice()),
            ),
        },
    };
    let dir = match canonical {
        Some(d) => d,
        None => {
            let mut e = chars_of("Can't find the directory ");
            push_str(&mut e, args.dir().as_str());
            push_str(&mut e, ".");
            return Err(string_of(e.as_slice()));
        },
    };
    let env = match env_of(&args.all("env")) {
        Ok(env) => env,
        Err(pair) => {
            let mut e = chars_of("--env wants KEY=VALUE, got `");
            push_str(&mut e, pair.as_str());
            push_str(&mut e, "`");
            return Err(string_of(e.as_slice()));
        },
    };
    let group = match args.get("group") {
        Some(g) => g,
        None => {
            proof {
                reveal_strlit("");
            }
            string_of(chars_of("").as_slice())
        },
    };
    proof {
        reveal_strlit("");
    }
    let id = string_of(chars_of("").as_slice());
    let auto_restart = args.has("auto-restart");
    let auto_start = args.has("auto-start");
    assert(flag_first(args@.flags, "name"@) == Some(name@));
    assert(command_arg(args@) == Some(command@));
    assert(cv == Some(dir@));
    assert(env_from(env_values(args@)) == Ok::<EnvModel, Seq<char>>(env_view(env@)));
    assert(build_error(args@, cv) is None);
    let server = Server {
            id,
            name,
            dir,
            command,
            group,
            tile: 0,
            env,
            auto_restart,
            auto_start,
            created_at: 0,
        };
    assert(server@.id.len() == 0);
    assert(server@.group == (match flag_first(args@.flags, "group"@) { Some(g) => g, None => Seq::<char>::empty() }));
    assert(built_server(args@, cv, server@));
    Ok(server)
}

} // verus!

verus! {

// ---- commands ---------------------------------------------------------------------

/// What the first argument asks for.
#[derive(Debug, PartialEq, Eq, Structural, Clone, Copy)]
pub enum Command {
    Help,
    Version,
    List,
    Start,
    Restart,
    Stop,
    Logs,
    Add,
    Remove,
    Worktrees,
    Switch,
    Open,
    Mcp,
    Unknown,
}

pub open spec fn command_for(word: Seq<char>) -> Command {
    if word == "help"@ || word == "-h"@ || word == "--help"@ {
        Command::Help
    } else if word == "version"@ || word == "-v"@ || word == "--version"@ {
        Command::Version
    } else if word == "list"@ || word == "ls"@ || word == "status"@ {
        Command::List
    } else if word == "up"@ || word == "start"@ {
        Command::Start
    } else if word == "restart"@ {
        Command::Restart
    } else if word == "down"@ || word == "stop"@ {
        Command::Stop
    } else if word == "logs"@ {
        Command::Logs
    } else if word == "add"@ {
        Command::Add
    } else if word == "rm"@ || word == "remove"@ {
        Command::Remove
    } else if word == "worktrees"@ || word == "wt"@ {
        Command::Worktrees
    } else if word == "switch"@ {
        Command::Switch
    } else if word == "open"@ {
        Command::Open
    } else if word == "mcp"@ {
        Command::Mcp
    } else {
        Command::Unknown
    }
}

impl Command {
    /// The command a word names; with no word, `list`.
    pub fn of(word: Option<&str>) -> (c: Command)
        ensures
            c == command_for(match word {
                Some(w) => w@,
                None => "list"@,
            }),
    {
        let w = match word {
            Some(w) => chars_of(w),
            None => chars_of("list"),
        };
        let w = w.as_slice();
        if is(w, "help") || is(w, "-h") || is(w, "--help") {
            Command::Help
        } else if is(w, "version") || is(w, "-v") || is(w, "--version") {
            Command::Version
        } else if is(w, "list") || is(w, "ls") || is(w, "status") {
            Command::List
        } else if is(w, "up") || is(w, "start") {
            Command::Start
        } else if is(w, "restart") {
            Command::Restart
        } else if is(w, "down") || is(w, "stop") {
            Command::Stop
        } else if is(w, "logs") {
            Command::Logs
        } else if is(w, "add") {
            Command::Add
        } else if is(w, "rm") || is(w, "remove") {
            Command::Remove
        } else if is(w, "worktrees") || is(w, "wt") {
            Command::Worktrees
        } else if is(w, "switch") {
            Command::Switch
        } else if is(w, "open") {
            Command::Open
        } else if is(w, "mcp") {
            Command::Mcp
        } else {
            Command::Unknown
        }
    }
}

/// What an unknown command is answered.
pub fn unknown_command(word: &str) -> (e: String)
    ensures
        e@ == "Don't know how to `"@ + word@ + "`. Try `cucina help`."@,
{
    let mut v = chars_of("Don't know how to `");
    push_str(&mut v, word);
    push_str(&mut v, "`. Try `cucina help`.");
    string_of(v.as_slice())
}

/// Who is driving, from the flags and from what the caller found:
/// `client_var` is `$CUCINA_CLIENT`, `stdout_is_tty` whether output goes to
/// a terminal. Agents get tagged so the menu bar can show who started what;
/// a non-interactive stdout almost always means something scripted the call.
pub open spec fn origin_client(a: ArgsModel, client_var: Option<Seq<char>>, stdout_is_tty: bool) -> Option<Seq<char>> {
    match flag_first(a.flags, "agent"@) {
        Some(n) => Some(n),
        None => match flag_first(a.flags, "client"@) {
            Some(n) => Some(n),
            None => if flag_index(a.flags, "agent"@) is Some {
                Some("agent"@)
            } else {
                match client_var {
                    Some(n) => Some(n),
                    None => if !stdout_is_tty {
                        Some("agent"@)
                    } else {
                        None
                    },
                }
            },
        },
    }
}

pub fn origin(args: &Args, client_var: Option<String>, stdout_is_tty: bool) -> (o: Origin)
    ensures
        match origin_client(args@, var_view(client_var), stdout_is_tty) {
            Some(c) => o matches Origin::Agent { client, session } && client@ == c && session@.len() == 0,
            None => o is User,
        },
{
    let ghost cv = var_view(client_var);
    let client = match args.get("agent") {
        Some(n) => Some(n),
        None => match args.get("client") {
            Some(n) => Some(n),
            None => if args.has("agent") {
                Some(string_of(chars_of("agent").as_slice()))
            } else {
                match client_var {
                    Some(n) => Some(n),
                    None => if !stdout_is_tty {
                        Some(string_of(chars_of("agent").as_slice()))
                    } else {
                        None
                    },
                }
            },
        },
    };
    assert(var_view(client) == origin_client(args@, cv, stdout_is_tty));
    match client {
        Some(c) => {
            proof {
                reveal_strlit("");
            }
            let o = Origin::agent(c.as_str(), "");
            assert(trim(Seq::<char>::empty()) =~= Seq::<char>::empty()) by {
                crate::text::lemma_lead_count(Seq::<char>::empty(), crate::text::ws(), 0);
                crate::text::lemma_trail_count(Seq::<char>::empty(), crate::text::ws(), 0);
            }
            o
        },
        None => Origin::User,
    }
}

/// How many lines `logs` shows: `--tail N`, or `DEFAULT_TAIL`.
pub open spec fn tail_arg(a: ArgsModel) -> nat {
    match flag_first(a.flags, "tail"@) {
        Some(v) => match parse_u64(v) {
            Some(n) => if n <= usize::MAX {
                n as nat
            } else {
                DEFAULT_TAIL as nat
            },
            None => DEFAULT_TAIL as nat,
        },
        None => DEFAULT_TAIL as nat,
    }
}

impl Args {
    pub fn tail(&self) -> (n: usize)
        ensures
            n as nat == tail_arg(self@),
    {
        match self.get("tail") {
            Some(v) => match parse_u64_of(chars_of(v.as_str()).as_slice()) {
                Some(n) => if n <= usize::MAX as u64 {
                    n as usize
                } else {
                    DEFAULT_TAIL
                },
                None => DEFAULT_TAIL,
            },
            None => DEFAULT_TAIL,
        }
    }
}

// ---- finding one server ---------------------------------------------------------

/// A view `key` names exactly, by id or by name.
pub open spec fn named_exactly(key: Seq<char>) -> spec_fn(ServerView) -> bool {
    |v: ServerView| v.server.id@ == key || v.server.name@ == key
}

/// A view `key` names by id, or by name compared without case.
pub open spec fn named_loosely(key: Seq<char>) -> spec_fn(ServerView) -> bool {
    |v: ServerView| v.server.id@ == key || lowercase(v.server.name@) == lowercase(key)
}

/// The views `cucina list <id>` shows: with no id all of them, else those
/// it names exactly.
pub fn listed(views: Vec<ServerView>, id: Option<&str>) -> (out: Vec<ServerView>)
    ensures
        match id {
            None => out@ == views@,
            Some(k) => out@ == views@.filter(named_exactly(k@)),
        },
{
    match id {
        None => views,
        Some(k) => {
            let ghost p = named_exactly(k@);
            let key = string_of(chars_of(k).as_slice());
            let mut out: Vec<ServerView> = Vec::new();
            let mut rest = views;
            while rest.len() > 0
                invariant
                    key@ == k@,
                    p == named_exactly(k@),
                    views@.filter(p) == out@ + rest@.filter(p),
                decreases rest@.len(),
            {
                let ghost whole = rest@;
                let v = rest.remove(0);
                proof {
                    assert(whole =~= seq![v] + rest@);
                    crate::text::lemma_filter_cons(v, rest@, p);
                }
                if v.server.id == key || v.server.name == key {
                    out.push(v);
                }
                assert(views@.filter(p) =~= out@ + rest@.filter(p));
            }
            proof {
                reveal(Seq::filter);
                assert(rest@.filter(p) =~= Seq::<ServerView>::empty());
            }
            assert(out@ =~= views@.filter(p));
            out
        },
    }
}

} // verus!

verus! {

/// Which view `key` names, by id or by name without case.
pub fn find_view(views: &[ServerView], key: &str) -> (r: Result<usize, String>)
    ensures
        match first_index(views@, named_loosely(key@)) {
            Some(j) => r == Ok::<usize, String>(j as usize),
            None => r is Err && r->Err_0@ == "No server called "@ + key@ + "."@,
        },
{
    let ghost p = named_loosely(key@);
    let k = string_of(chars_of(key).as_slice());
    let lk = lower_of(key);
    let n = views.len();
    let mut i: usize = 0;
    while i < n
        invariant
            i <= n,
            n == views@.len(),
            k@ == key@,
            lk@ == lowercase(key@),
            p == named_loosely(key@),
            forall|j: int| 0 <= j < i ==> !p(#[trigger] views@[j]),
        decreases n - i,
    {
        if views[i].server.id == k || lower_of(views[i].server.name.as_str()) == lk {
            proof {
                lemma_first_index(views@, p, i as int);
            }
            return Ok(i);
        }
        i += 1;
    }
    proof {
        lemma_first_index(views@, p, i as int);
    }
    let mut e = chars_of("No server called ");
    push_str(&mut e, key);
    push_str(&mut e, ".");
    Err(string_of(e.as_slice()))
}

/// Which view `id` names exactly, by id or by name.
pub fn find_exact(views: &[ServerView], id: &str) -> (r: Result<usize, String>)
    ensures
        match first_index(views@, named_exactly(id@)) {
            Some(j) => r == Ok::<usize, String>(j as usize),
            None => r is Err && r->Err_0@ == "No server called "@ + id@ + "."@,
        },
{
    let ghost p = named_exactly(id@);
    let k = string_of(chars_of(id).as_slice());
    let n = views.len();
    let mut i: usize = 0;
    while i < n
        invariant
            i <= n,
            n == views@.len(),
            k@ == id@,
            p == named_exactly(id@),
            forall|j: int| 0 <= j < i ==> !p(#[trigger] views@[j]),
        decreases n - i,
    {
        if views[i].server.id == k || views[i].server.name == k {
            proof {
                lemma_first_index(views@, p, i as int);
            }
            return Ok(i);
        }
        i += 1;
    }
    proof {
        lemma_first_index(views@, p, i as int);
    }
    let mut e = chars_of("No server called ");
    push_str(&mut e, id);
    push_str(&mut e, ".");
    Err(string_of(e.as_slice()))
}

pub open spec fn local_url(port: u16) -> Seq<char> {
    "http://localhost:"@ + decimal(port as nat)
}

fn url_of(port: u16) -> (u: String)
    ensures
        u@ == local_url(port),
{
    let mut v = chars_of("http://localhost:");
    push_decimal(&mut v, port as u64);
    string_of(v.as_slice())
}

/// Where `cucina open` points the browser: the server's port on localhost.
pub fn open_url(view: &ServerView, id: &str) -> (r: Result<String, String>)
    ensures
        match view.status.port {
            Some(p) => r is Ok && r->Ok_0@ == local_url(p),
            None => r is Err && r->Err_0@ == id@ + " isn't listening on a port."@,
        },
{
    match view.status.port {
        Some(p) => Ok(url_of(p)),
        None => {
            let mut e = chars_of(id);
            push_str(&mut e, " isn't listening on a port.");
            Err(string_of(e.as_slice()))
        },
    }
}

/// The worktree `switch` moves to: the second positional argument.
pub fn switch_target(args: &Args) -> (r: Result<String, String>)
    ensures
        args@.positional.len() > 1 ==> r is Ok && r->Ok_0@ == args@.positional[1],
        args@.positional.len() <= 1 ==> r is Err && r->Err_0@
            == "Which worktree? e.g. `cucina switch api feat-620-diagram-editor`"@,
{
    if args.positional.len() > 1 {
        Ok(args.positional[1].clone())
    } else {
        Err(string_of(chars_of("Which worktree? e.g. `cucina switch api feat-620-diagram-editor`").as_slice()))
    }
}

// ---- what the commands print ---------------------------------------------------------

/// `  ● api ready on http://localhost:5173`, or `  ● api started` where
/// no port is known yet.
pub open spec fn started_text(id: Seq<char>, port: Option<u16>, on: bool) -> Seq<char> {
    match port {
        Some(p) => "  "@ + painted(on, "32"@, "●"@) + " "@ + id + " ready on "@ + painted(on, "38;5;208"@, local_url(p)),
        None => "  "@ + painted(on, "32"@, "●"@) + " "@ + id + " started"@,
    }
}

pub fn started_line(id: &str, port: Option<u16>, paint: &Paint) -> (s: String)
    ensures
        s@ == started_text(id@, port, paint.is_on()),
{
    let mut v = chars_of("  ");
    push_str(&mut v, paint.green("●").as_str());
    push_str(&mut v, " ");
    push_str(&mut v, id);
    match port {
        Some(p) => {
            push_str(&mut v, " ready on ");
            push_str(&mut v, paint.terracotta(url_of(p).as_str()).as_str());
        },
        None => {
            push_str(&mut v, " started");
        },
    }
    assert(v@ =~= started_text(id@, port, paint.is_on()));
    string_of(v.as_slice())
}

/// `  ✕ api: <why>`, for a server that did not start.
pub fn failed_line(id: &str, why: &str, paint: &Paint) -> (s: String)
    ensures
        s@ == "  "@ + painted(paint.is_on(), "31"@, "✕"@) + " "@ + id@ + ": "@ + why@,
{
    let mut v = chars_of("  ");
    push_str(&mut v, paint.red("✕").as_str());
    push_str(&mut v, " ");
    push_str(&mut v, id);
    push_str(&mut v, ": ");
    push_str(&mut v, why);
    assert(v@ =~= "  "@ + painted(paint.is_on(), "31"@, "✕"@) + " "@ + id@ + ": "@ + why@);
    string_of(v.as_slice())
}

/// `  ○ api stopped`.
pub fn stopped_line(id: &str, paint: &Paint) -> (s: String)
    ensures
        s@ == "  "@ + painted(paint.is_on(), "2"@, "○"@) + " "@ + id@ + " stopped"@,
{
    let mut v = chars_of("  ");
    push_str(&mut v, paint.dim("○").as_str());
    push_str(&mut v, " ");
    push_str(&mut v, id);
    push_str(&mut v, " stopped");
    assert(v@ =~= "  "@ + painted(paint.is_on(), "2"@, "○"@) + " "@ + id@ + " stopped"@);
    string_of(v.as_slice())
}

/// `  − api removed`.
pub fn removed_line(id: &str, paint: &Paint) -> (s: String)
    ensures
        s@ == "  "@ + painted(paint.is_on(), "2"@, "−"@) + " "@ + id@ + " removed"@,
{
    let mut v = chars_of("  ");
    push_str(&mut v, paint.dim("−").as_str());
    push_str(&mut v, " ");
    push_str(&mut v, id);
    push_str(&mut v, " removed");
    assert(v@ =~= "  "@ + painted(paint.is_on(), "2"@, "−"@) + " "@ + id@ + " removed"@);
    string_of(v.as_slice())
}

/// `  + API added — start it with cucina up api`.
pub fn added_line(name: &str, id: &str, paint: &Paint) -> (s: String)
    ensures
        s@ == "  "@ + painted(paint.is_on(), "38;5;208"@, "+"@) + " "@ + painted(paint.is_on(), "1"@, name@)
            + " added — start it with "@ + painted(paint.is_on(), "1"@, "cucina up "@ + id@),
{
    let mut up = chars_of("cucina up ");
    push_str(&mut up, id);
    let mut v = chars_of("  ");
    push_str(&mut v, paint.terracotta("+").as_str());
    push_str(&mut v, " ");
    push_str(&mut v, paint.bold(name).as_str());
    push_str(&mut v, " added — start it with ");
    push_str(&mut v, paint.bold(string_of(up.as_slice()).as_str()).as_str());
    assert(v@ =~= "  "@ + painted(paint.is_on(), "38;5;208"@, "+"@) + " "@ + painted(paint.is_on(), "1"@, name@)
        + " added — start it with "@ + painted(paint.is_on(), "1"@, "cucina up "@ + id@));
    string_of(v.as_slice())
}

pub open spec fn worktree_text(t: Worktree, on: bool) -> Seq<char> {
    let mark = if t.is_current {
        painted(on, "32"@, "●"@)
    } else {
        painted(on, "2"@, "○"@)
    };
    let tag = if t.is_main {
        painted(on, "2"@, "  base"@)
    } else {
        Seq::empty()
    };
    "  "@ + mark + "  "@ + painted(on, "1"@, t.branch@) + tag
}

/// One line of `cucina worktrees`.
pub fn worktree_line(t: &Worktree, paint: &Paint) -> (s: String)
    ensures
        s@ == worktree_text(*t, paint.is_on()),
{
    let mark = if t.is_current {
        paint.green("●")
    } else {
        paint.dim("○")
    };
    let mut v = chars_of("  ");
    push_str(&mut v, mark.as_str());
    push_str(&mut v, "  ");
    push_str(&mut v, paint.bold(t.branch.as_str()).as_str());
    if t.is_main {
        push_str(&mut v, paint.dim("  base").as_str());
    }
    assert(v@ =~= worktree_text(*t, paint.is_on()));
    string_of(v.as_slice())
}

/// `  ⎇ api now on feat-64`, and ` — restarted` when it was running.
pub fn switched_line(id: &str, branch: &str, was_live: bool, paint: &Paint) -> (s: String)
    ensures
        s@ == "  "@ + painted(paint.is_on(), "38;5;208"@, "⎇"@) + " "@ + id@ + " now on "@ + painted(
            paint.is_on(),
            "1"@,
            branch@,
        ) + (if was_live {
            " — restarted"@
        } else {
            ""@
        }),
{
    let mut v = chars_of("  ");
    push_str(&mut v, paint.terracotta("⎇").as_str());
    push_str(&mut v, " ");
    push_str(&mut v, id);
    push_str(&mut v, " now on ");
    push_str(&mut v, paint.bold(branch).as_str());
    if was_live {
        push_str(&mut v, " — restarted");
    } else {
        push_str(&mut v, "");
    }
    assert(v@ =~= "  "@ + painted(paint.is_on(), "38;5;208"@, "⎇"@) + " "@ + id@ + " now on "@ + painted(
        paint.is_on(),
        "1"@,
        branch@,
    ) + (if was_live {
        " — restarted"@
    } else {
        ""@
    }));
    string_of(v.as_slice())
}

/// A log line as `logs` prints it: Cucina's own lines dim, stderr red.
pub fn log_text(line: &LogLine, paint: &Paint) -> (s: String)
    ensures
        s@ == (match line.stream {
            Stream::System => painted(paint.is_on(), "2"@, line.text@),
            Stream::Stderr => painted(paint.is_on(), "31"@, line.text@),
            Stream::Stdout => line.text@,
        }),
{
    match line.stream {
        Stream::System => paint.dim(line.text.as_str()),
        Stream::Stderr => paint.red(line.text.as_str()),
        Stream::Stdout => line.text.clone(),
    }
}

/// How a failed command is reported: `✕ <message>`.
pub fn error_line(message: &str, paint: &Paint) -> (s: String)
    ensures
        s@ == painted(paint.is_on(), "31"@, "✕"@) + " "@ + message@,
{
    let mut v = chars_of(paint.red("✕").as_str());
    push_str(&mut v, " ");
    push_str(&mut v, message);
    string_of(v.as_slice())
}

} // verus!
