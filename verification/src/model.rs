//! What the supervisor keeps track of: server definitions, their live status,
//! the tasks kept on them and the output they produce.
use vstd::prelude::*;
use crate::text::{
    trim, trim_end, trim_ws, trim_end_ws, ascii_alnum, ascii_lower, chars_of, decimal, digit_char, eq_char, in_set, is_ascii_alnum,
    is_ascii_digit, lemma_trail_count_bound, push_decimal, seq_eq, slice, string_of,
    to_ascii_lower, trail_count, trim_end_by, trim_end_set,
};

verus! {

// ---- ids -------------------------------------------------------------------

/// A slug before its trailing dashes go: every ASCII letter or digit kept and
/// lowercased, and every run of anything else turned into one dash — except at
/// the very start, where it is dropped.
pub open spec fn collapse(s: Seq<char>) -> Seq<char>
    decreases s.len(),
{
    if s.len() == 0 {
        Seq::empty()
    } else {
        let prev = collapse(s.drop_last());
        let c = s.last();
        if is_ascii_alnum(c) {
            prev.push(ascii_lower(c))
        } else if prev.len() == 0 || prev.last() == '-' {
            prev
        } else {
            prev.push('-')
        }
    }
}

/// The slug of `s`, falling back to `fallback` when nothing usable is left.
pub open spec fn slug_of(s: Seq<char>, fallback: Seq<char>) -> Seq<char> {
    let t = trim_end_by(collapse(s), eq_char('-'));
    if t.len() == 0 {
        fallback
    } else {
        t
    }
}

/// A character an id may hold: a lowercase ASCII letter, a digit or a dash.
pub open spec fn is_id_char(c: char) -> bool {
    ('a' <= c && c <= 'z') || is_ascii_digit(c) || c == '-'
}

/// What makes an id CLI-friendly: non-empty, made of id characters, with no
/// dash at either end and never two in a row.
pub open spec fn is_clean_id(s: Seq<char>) -> bool {
    &&& s.len() > 0
    &&& forall|i: int| 0 <= i < s.len() ==> is_id_char(#[trigger] s[i])
    &&& s[0] != '-'
    &&& s.last() != '-'
    &&& forall|i: int| 0 <= i < s.len() - 1 ==> !(#[trigger] s[i] == '-' && s[i + 1] == '-')
}

pub proof fn lemma_collapse_shape(s: Seq<char>)
    ensures
        forall|i: int| 0 <= i < collapse(s).len() ==> is_id_char(#[trigger] collapse(s)[i]),
        collapse(s).len() > 0 ==> collapse(s)[0] != '-',
        forall|i: int|
            0 <= i < collapse(s).len() - 1 ==> !(#[trigger] collapse(s)[i] == '-' && collapse(
                s,
            )[i + 1] == '-'),
    decreases s.len(),
{
    if s.len() > 0 {
        lemma_collapse_shape(s.drop_last());
        let prev = collapse(s.drop_last());
        let c = s.last();
        if is_ascii_alnum(c) {
            assert(is_id_char(ascii_lower(c)));
            assert(collapse(s) == prev.push(ascii_lower(c)));
            assert forall|i: int| 0 <= i < collapse(s).len() - 1 implies !(#[trigger] collapse(
                s,
            )[i] == '-' && collapse(s)[i + 1] == '-') by {
                if i < prev.len() - 1 {
                    assert(collapse(s)[i] == prev[i]);
                    assert(collapse(s)[i + 1] == prev[i + 1]);
                }
            }
        } else if !(prev.len() == 0 || prev.last() == '-') {
            assert(collapse(s) == prev.push('-'));
            assert forall|i: int| 0 <= i < collapse(s).len() - 1 implies !(#[trigger] collapse(
                s,
            )[i] == '-' && collapse(s)[i + 1] == '-') by {
                if i < prev.len() - 1 {
                    assert(collapse(s)[i] == prev[i]);
                    assert(collapse(s)[i + 1] == prev[i + 1]);
                } else {
                    assert(collapse(s)[i] == prev.last());
                }
            }
        }
    }
}

/// A slug is always a clean id, provided its fallback is one.
pub proof fn lemma_slug_is_clean(s: Seq<char>, fallback: Seq<char>)
    requires
        is_clean_id(fallback),
    ensures
        is_clean_id(slug_of(s, fallback)),
{
    let c = collapse(s);
    lemma_collapse_shape(s);
    let p = eq_char('-');
    lemma_trail_count_bound(c, p);
    let t = trim_end_by(c, p);
    if t.len() > 0 {
        assert(t.last() == c[c.len() - trail_count(c, p) - 1]);
        assert forall|i: int| 0 <= i < t.len() implies is_id_char(#[trigger] t[i]) by {
            assert(t[i] == c[i]);
        }
        assert forall|i: int| 0 <= i < t.len() - 1 implies !(#[trigger] t[i] == '-' && t[i + 1]
            == '-') by {
            assert(t[i] == c[i]);
            assert(t[i + 1] == c[i + 1]);
        }
        assert(t[0] == c[0]);
    }
}

fn collapse_exec(v: &[char]) -> (out: Vec<char>)
    ensures
        out@ == collapse(v@),
{
    let mut out: Vec<char> = Vec::new();
    let mut prev_dash = true;
    let mut i: usize = 0;
    while i < v.len()
        invariant
            i <= v@.len(),
            out@ == collapse(v@.take(i as int)),
            prev_dash == (out@.len() == 0 || out@.last() == '-'),
        decreases v@.len() - i,
    {
        let ch = v[i];
        assert(v@.take(i + 1).drop_last() == v@.take(i as int));
        assert(v@.take(i + 1).last() == ch);
        if ascii_alnum(ch) {
            out.push(to_ascii_lower(ch));
            assert(ascii_lower(ch) != '-');
            prev_dash = false;
        } else if !prev_dash {
            out.push('-');
            prev_dash = true;
        }
        i += 1;
    }
    assert(v@.take(v@.len() as int) == v@);
    out
}

fn slug_exec(v: &[char], fallback: &str) -> (out: Vec<char>)
    ensures
        out@ == slug_of(v@, fallback@),
{
    let c = collapse_exec(v);
    let dash = vec!['-'];
    let t = trim_end_set(c.as_slice(), dash.as_slice());
    assert(in_set(dash@) == eq_char('-')) by {
        assert forall|x: char| #[trigger] dash@.contains(x) == (x == '-') by {
            if x == '-' {
                assert(dash@[0] == '-');
            }
        }
        assert(in_set(dash@) =~= eq_char('-'));
    }
    if t.len() == 0 {
        chars_of(fallback)
    } else {
        t
    }
}

/// The id `slugify` gives a name: `slug_of` with `server` as the fallback.
pub open spec fn slugify_spec(s: Seq<char>) -> Seq<char> {
    slug_of(s, seq!['s', 'e', 'r', 'v', 'e', 'r'])
}

/// Turn a human name into a stable, CLI-friendly id: "My API" -> "my-api".
pub fn slugify(input: &str) -> (out: String)
    ensures
        out@ == slugify_spec(input@),
        is_clean_id(out@),
{
    let v = chars_of(input);
    let s = slug_exec(v.as_slice(), "server");
    proof {
        reveal_strlit("server");
        lemma_slug_is_clean(input@, seq!['s', 'e', 'r', 'v', 'e', 'r']);
    }
    assert("server"@ == seq!['s', 'e', 'r', 'v', 'e', 'r']) by {
        reveal_strlit("server");
    }
    string_of(s.as_slice())
}

/// The id suffixed with `-n`, the way ids are settled on collision; `n == 1`
/// stands for the id itself.
pub open spec fn candidate(base: Seq<char>, n: nat) -> Seq<char> {
    if n <= 1 {
        base
    } else {
        base + seq!['-'] + decimal(n)
    }
}

pub open spec fn taken(ids: Seq<Seq<char>>, id: Seq<char>) -> bool {
    ids.contains(id)
}

/// The first of `base`, `base-2`, `base-3`, ... that `ids` does not hold.
pub open spec fn is_settled(base: Seq<char>, ids: Seq<Seq<char>>, id: Seq<char>) -> bool {
    exists|n: nat|
        #![trigger candidate(base, n)]
        n >= 1 && id == candidate(base, n) && !taken(ids, id) && forall|m: nat|
            1 <= m < n ==> taken(ids, #[trigger] candidate(base, m))
}

pub proof fn lemma_decimal_len(n: nat)
    ensures
        decimal(n).len() >= 1,
        n >= 10 ==> decimal(n).len() >= 2,
    decreases n,
{
    if n >= 10 {
        lemma_decimal_len(n / 10);
    }
}

pub proof fn lemma_decimal_injective(a: nat, b: nat)
    requires
        decimal(a) == decimal(b),
    ensures
        a == b,
    decreases a,
{
    lemma_decimal_len(a);
    lemma_decimal_len(b);
    if a < 10 && b < 10 {
        assert(decimal(a)[0] == digit_char(a));
        assert(decimal(b)[0] == digit_char(b));
        assert((digit_char(a) as u32) == 48 + a);
    } else if a >= 10 && b >= 10 {
        assert(decimal(a).last() == digit_char(a % 10));
        assert(decimal(b).last() == digit_char(b % 10));
        assert((digit_char(a % 10) as u32) == 48 + a % 10);
        assert((digit_char(b % 10) as u32) == 48 + b % 10);
        assert(decimal(a).drop_last() == decimal(a / 10));
        assert(decimal(b).drop_last() == decimal(b / 10));
        lemma_decimal_injective(a / 10, b / 10);
    } else if a < 10 {
        assert(decimal(a).len() == 1);
    } else {
        assert(decimal(b).len() == 1);
    }
}

pub proof fn lemma_candidate_injective(base: Seq<char>, a: nat, b: nat)
    requires
        a >= 1,
        b >= 1,
        candidate(base, a) == candidate(base, b),
    ensures
        a == b,
{
    if a >= 2 && b >= 2 {
        let k = base.len() + 1;
        assert(candidate(base, a).skip(k as int) == decimal(a));
        assert(candidate(base, b).skip(k as int) == decimal(b));
        lemma_decimal_injective(a, b);
    } else if a >= 2 {
        lemma_decimal_len(a);
        assert(candidate(base, a).len() > base.len());
    } else if b >= 2 {
        lemma_decimal_len(b);
        assert(candidate(base, b).len() > base.len());
    }
}

/// Every candidate below `n` is taken, so there can be no more of them than
/// there are ids.
pub proof fn lemma_pigeonhole(base: Seq<char>, ids: Seq<Seq<char>>, n: nat)
    requires
        n >= 1,
        forall|m: nat| 1 <= m < n ==> taken(ids, #[trigger] candidate(base, m)),
    ensures
        n - 1 <= ids.len(),
{
    let f = |m: int| candidate(base, m as nat);
    let dom = vstd::set_lib::set_int_range(1, n as int);
    vstd::set_lib::lemma_int_range(1, n as int);
    assert(vstd::relations::injective_on(f, dom)) by {
        assert forall|x: int, y: int| dom.contains(x) && dom.contains(y) && #[trigger] f(x)
            == #[trigger] f(y) implies x == y by {
            lemma_candidate_injective(base, x as nat, y as nat);
        }
    }
    let img = dom.map(f);
    vstd::set_lib::lemma_map_size(dom, img, f);
    assert(img.subset_of(ids.to_set())) by {
        assert forall|s: Seq<char>| img.contains(s) implies ids.to_set().contains(s) by {
            let x = choose|x: int| dom.contains(x) && f(x) == s;
            assert(taken(ids, candidate(base, x as nat)));
        }
    }
    ids.lemma_cardinality_of_set();
    vstd::set_lib::lemma_len_subset(img, ids.to_set());
}

fn ids_contain(ids: &[String], id: &[char]) -> (b: bool)
    ensures
        b == taken(ids@.map_values(|s: String| s@), id@),
{
    let ghost vs = ids@.map_values(|s: String| s@);
    let mut i: usize = 0;
    while i < ids.len()
        invariant
            i <= ids@.len(),
            vs == ids@.map_values(|s: String| s@),
            forall|j: int| 0 <= j < i ==> vs[j] != id@,
        decreases ids@.len() - i,
    {
        let s = chars_of(ids[i].as_str());
        if seq_eq(s.as_slice(), id) {
            assert(vs[i as int] == id@);
            return true;
        }
        i += 1;
    }
    assert(!vs.contains(id@));
    false
}

fn candidate_exec(base: &[char], n: u64) -> (r: Vec<char>)
    requires
        n >= 2,
    ensures
        r@ == candidate(base@, n as nat),
{
    let mut r = slice(base, 0, base.len());
    r.push('-');
    push_decimal(&mut r, n);
    assert(r@ =~= base@ + seq!['-'] + decimal(n as nat));
    r
}

/// Settles `base` against `ids`: the first of `base`, `base-2`, `base-3`, ...
/// that none of them already is.
pub fn settle_id(base: &str, ids: &[String]) -> (id: String)
    requires
        ids@.len() < usize::MAX,
    ensures
        is_settled(base@, ids@.map_values(|s: String| s@), id@),
{
    let ghost vs = ids@.map_values(|s: String| s@);
    let b = chars_of(base);
    let mut id = slice(b.as_slice(), 0, b.len());
    let mut n: u64 = 1;
    assert(id@ == candidate(b@, 1));
    while ids_contain(ids, id.as_slice())
        invariant
            n >= 1,
            b@ == base@,
            vs == ids@.map_values(|s: String| s@),
            n <= vs.len() + 1,
            vs.len() < usize::MAX,
            id@ == candidate(b@, n as nat),
            forall|m: nat| 1 <= m < n ==> taken(vs, #[trigger] candidate(b@, m)),
        decreases vs.len() + 1 - n,
    {
        proof {
            assert forall|m: nat| 1 <= m < n + 1 implies taken(vs, #[trigger] candidate(b@, m)) by {
                if m == n {
                    assert(taken(vs, id@));
                }
            }
            lemma_pigeonhole(b@, vs, (n + 1) as nat);
        }
        n = n + 1;
        id = candidate_exec(b.as_slice(), n);
    }
    let out = string_of(id.as_slice());
    assert(is_settled(base@, vs, out@)) by {
        assert(candidate(base@, n as nat) == out@);
    }
    out
}

// ---- records ------------------------------------------------------------------

/// A server definition: where to run, what to run, and how it should behave.
#[derive(Debug)]
pub struct Server {
    pub id: String,
    pub name: String,
    /// The directory it runs in, as a path string.
    pub dir: String,
    pub command: String,
    /// Optional grouping, so a project's services travel together. Empty means
    /// ungrouped.
    pub group: String,
    /// Which ceramic tile the card wears. 0 lets Cucina choose one from the id.
    pub tile: u32,
    /// Environment variables, as key/value pairs in ascending key order with
    /// no key twice.
    pub env: Vec<(String, String)>,
    pub auto_restart: bool,
    pub auto_start: bool,
    pub created_at: u64,
}

fn clone_pairs(v: &Vec<(String, String)>) -> (r: Vec<(String, String)>)
    ensures
        r@ == v@,
{
    let mut r: Vec<(String, String)> = Vec::new();
    let mut i: usize = 0;
    while i < v.len()
        invariant
            i <= v@.len(),
            r@ == v@.take(i as int),
        decreases v@.len() - i,
    {
        let (a, b) = &v[i];
        r.push((a.clone(), b.clone()));
        assert(r@ =~= v@.take(i + 1));
        i += 1;
    }
    assert(v@.take(i as int) == v@);
    r
}

/// A server definition as a value.
pub struct ServerRecord {
    pub id: Seq<char>,
    pub name: Seq<char>,
    pub dir: Seq<char>,
    pub command: Seq<char>,
    pub group: Seq<char>,
    pub tile: u32,
    pub env: Seq<(String, String)>,
    pub auto_restart: bool,
    pub auto_start: bool,
    pub created_at: u64,
}

impl View for Server {
    type V = ServerRecord;

    open spec fn view(&self) -> ServerRecord {
        ServerRecord {
            id: self.id@,
            name: self.name@,
            dir: self.dir@,
            command: self.command@,
            group: self.group@,
            tile: self.tile,
            env: self.env@,
            auto_restart: self.auto_restart,
            auto_start: self.auto_start,
            created_at: self.created_at,
        }
    }
}

impl Clone for Server {
    fn clone(&self) -> (r: Self)
        ensures
            r@ == self@,
    {
        Server {
            id: self.id.clone(),
            name: self.name.clone(),
            dir: self.dir.clone(),
            command: self.command.clone(),
            group: self.group.clone(),
            tile: self.tile,
            env: clone_pairs(&self.env),
            auto_restart: self.auto_restart,
            auto_start: self.auto_start,
            created_at: self.created_at,
        }
    }
}

/// A project. Membership lives on the server (`Server::group`); this record
/// exists so a project can carry presentation of its own, like an icon.
#[derive(Debug)]
pub struct Group {
    pub name: String,
    pub icon: String,
}

impl Clone for Group {
    fn clone(&self) -> (r: Self)
        ensures
            r == *self,
    {
        Group { name: self.name.clone(), icon: self.icon.clone() }
    }
}

#[derive(Clone, Copy, Debug, PartialEq, Eq, Structural)]
pub enum State {
    Stopped,
    Starting,
    Running,
    Crashed,
}

pub open spec fn live(s: State) -> bool {
    s is Starting || s is Running
}

impl State {
    pub fn is_live(self) -> (b: bool)
        ensures
            b == live(self),
    {
        match self {
            State::Starting | State::Running => true,
            _ => false,
        }
    }
}

/// Who asked for this run. Lets the UI show "started by agent" and lets idle
/// timeouts apply only to runs a human didn't personally kick off.
#[derive(Debug)]
pub enum Origin {
    User,
    Agent {
        client: String,
        /// What the agent said it was working on; often empty.
        session: String,
    },
}

/// Agents are wordy when you let them, and a session name lands in a header
/// beside the server's own.
pub const SESSION_MAX: usize = 48;

/// A session name as it is kept: trimmed, and past `SESSION_MAX` characters
/// cut there, with trailing space removed and an ellipsis added.
pub open spec fn clamp_session(s: Seq<char>) -> Seq<char> {
    let t = trim(s);
    if t.len() > SESSION_MAX {
        trim_end(t.take(SESSION_MAX as int)) + seq!['…']
    } else {
        t
    }
}

pub open spec fn origin_label(o: Origin) -> Seq<char> {
    match o {
        Origin::User => seq!['y', 'o', 'u'],
        Origin::Agent { client, .. } => if client@.len() == 0 {
            seq!['a', 'n', ' ', 'a', 'g', 'e', 'n', 't']
        } else {
            client@
        },
    }
}

impl Clone for Origin {
    fn clone(&self) -> (r: Self)
        ensures
            r == *self,
    {
        match self {
            Origin::User => Origin::User,
            Origin::Agent { client, session } => Origin::Agent { client: client.clone(), session: session.clone() },
        }
    }
}

impl Origin {
    /// Clamped here rather than at each caller: the MCP tool argument and the
    /// CLI flag both feed this, and neither can vouch for what it was handed.
    pub fn agent(client: &str, session: &str) -> (o: Origin)
        ensures
            o matches Origin::Agent { client: c, session: s } && c@ == client@ && s@
                == clamp_session(session@),
    {
        let v = chars_of(session);
        let t = trim_ws(v.as_slice());
        let kept = if t.len() > SESSION_MAX {
            let cut = slice(t.as_slice(), 0, SESSION_MAX);
            let mut k = trim_end_ws(cut.as_slice());
            k.push('…');
            k
        } else {
            t
        };
        Origin::Agent { client: string_of(chars_of(client).as_slice()), session: string_of(kept.as_slice()) }
    }

    pub fn label(&self) -> (s: String)
        ensures
            s@ == origin_label(*self),
    {
        proof {
            reveal_strlit("you");
            reveal_strlit("an agent");
        }
        match self {
            Origin::User => string_of(chars_of("you").as_slice()),
            Origin::Agent { client, .. } => if client.as_str().is_empty() {
                string_of(chars_of("an agent").as_slice())
            } else {
                client.clone()
            },
        }
    }

    pub fn user() -> (o: Origin)
        ensures
            o is User,
    {
        Origin::User
    }
}

/// A command the user keeps on a server — `bin/rails db:migrate`, `npm run
/// seed`. Distinct from the server's own `command`.
#[derive(Debug)]
pub struct Task {
    /// Slugged from the command, so it is stable across runs.
    pub id: String,
    pub command: String,
    /// How the last run ended: `Some(0)` succeeded, `Some(n)` failed, `None`
    /// alongside a `last_run_at` means a signal ended it.
    pub last_exit: Option<i32>,
    /// `None` until it has run once.
    pub last_run_at: Option<u64>,
}

impl Clone for Task {
    fn clone(&self) -> (r: Self)
        ensures
            r == *self,
    {
        Task {
            id: self.id.clone(),
            command: self.command.clone(),
            last_exit: self.last_exit,
            last_run_at: self.last_run_at,
        }
    }
}

/// A command name is capped well below the session cap.
pub const COMMAND_MAX: usize = 300;

/// The longest a task id gets.
pub const TASK_ID_MAX: usize = 64;

/// The first `n` characters of `s`, or all of it when it is shorter.
pub open spec fn prefix(s: Seq<char>, n: nat) -> Seq<char> {
    if s.len() <= n {
        s
    } else {
        s.take(n as int)
    }
}

pub open spec fn task_slug(command: Seq<char>) -> Seq<char> {
    prefix(slug_of(command, seq!['t', 'a', 's', 'k']), TASK_ID_MAX as nat)
}

pub open spec fn task_command(command: Seq<char>) -> Seq<char> {
    prefix(trim(command), COMMAND_MAX as nat)
}

pub fn take_chars(v: &[char], n: usize) -> (r: Vec<char>)
    ensures
        r@ == prefix(v@, n as nat),
{
    if v.len() <= n {
        slice(v, 0, v.len())
    } else {
        slice(v, 0, n)
    }
}

pub open spec fn task_ids(tasks: Seq<Task>) -> Seq<Seq<char>> {
    tasks.map_values(|t: Task| t.id@)
}

impl Task {
    /// A readable id derived from the command. Punctuation collapses, so two
    /// different commands can land on the same slug; `with_unique_id` is what
    /// keeps them apart.
    pub fn slug(command: &str) -> (id: String)
        ensures
            id@ == task_slug(command@),
    {
        proof {
            reveal_strlit("task");
        }
        assert("task"@ == seq!['t', 'a', 's', 'k']);
        let v = chars_of(command);
        let s = slug_exec(v.as_slice(), "task");
        string_of(take_chars(s.as_slice(), TASK_ID_MAX).as_slice())
    }

    pub fn new(command: &str) -> (t: Task)
        ensures
            t.command@ == task_command(command@),
            t.id@ == task_slug(task_command(command@)),
            t.last_exit is None,
            t.last_run_at is None,
    {
        let v = chars_of(command);
        let c = take_chars(trim_ws(v.as_slice()).as_slice(), COMMAND_MAX);
        let command = string_of(c.as_slice());
        Task { id: Task::slug(command.as_str()), command, last_exit: None, last_run_at: None }
    }

    /// Settles the id against the ids already kept on the server, as
    /// `upsert` does for a server's id.
    pub fn with_unique_id(self, existing: &[Task]) -> (t: Task)
        requires
            existing@.len() < usize::MAX,
        ensures
            is_settled(self.id@, task_ids(existing@), t.id@),
            t.command == self.command,
            t.last_exit == self.last_exit,
            t.last_run_at == self.last_run_at,
    {
        let mut ids: Vec<String> = Vec::new();
        let mut i: usize = 0;
        while i < existing.len()
            invariant
                i <= existing@.len(),
                ids@.map_values(|s: String| s@) == task_ids(existing@).take(i as int),
            decreases existing@.len() - i,
        {
            let ghost before = ids@.map_values(|s: String| s@);
            let id = existing[i].id.clone();
            assert(id@ == existing@[i as int].id@);
            ids.push(id);
            assert(ids@.map_values(|s: String| s@) =~= before.push(existing@[i as int].id@));
            assert(task_ids(existing@).take(i + 1) =~= task_ids(existing@).take(i as int).push(
                existing@[i as int].id@,
            ));
            i += 1;
        }
        assert(task_ids(existing@).take(i as int) == task_ids(existing@));
        let id = settle_id(self.id.as_str(), ids.as_slice());
        Task { id, ..self }
    }
}

/// One execution of a task.
#[derive(Debug)]
pub struct Run {
    pub run_id: String,
    pub server_id: String,
    pub task_id: String,
    pub command: String,
    pub started_at: u64,
    /// `None` while it is still running.
    pub ended_at: Option<u64>,
    pub exit_code: Option<i32>,
    pub origin: Option<Origin>,
    /// When output last arrived.
    pub last_output_at: u64,
}

fn clone_origin(o: &Option<Origin>) -> (r: Option<Origin>)
    ensures
        r == *o,
{
    match o {
        Some(x) => Some(x.clone()),
        None => None,
    }
}

impl Clone for Run {
    fn clone(&self) -> (r: Self)
        ensures
            r == *self,
    {
        Run {
            run_id: self.run_id.clone(),
            server_id: self.server_id.clone(),
            task_id: self.task_id.clone(),
            command: self.command.clone(),
            started_at: self.started_at,
            ended_at: self.ended_at,
            exit_code: self.exit_code,
            origin: clone_origin(&self.origin),
            last_output_at: self.last_output_at,
        }
    }
}

impl Run {
    pub fn is_live(&self) -> (b: bool)
        ensures
            b == (self.ended_at is None),
    {
        self.ended_at.is_none()
    }
}

#[derive(Debug)]
pub struct Status {
    pub id: String,
    pub state: State,
    pub pid: Option<u32>,
    pub port: Option<u16>,
    pub started_at: Option<u64>,
    pub exit_code: Option<i32>,
    pub origin: Option<Origin>,
    pub restarts: u32,
}

/// The status of a server that is not running and never ran.
pub open spec fn stopped_status(s: Status, id: Seq<char>) -> bool {
    &&& s.id@ == id
    &&& s.state == State::Stopped
    &&& s.pid is None
    &&& s.port is None
    &&& s.started_at is None
    &&& s.exit_code is None
    &&& s.origin is None
    &&& s.restarts == 0
}

impl Clone for Status {
    fn clone(&self) -> (r: Self)
        ensures
            r == *self,
    {
        Status {
            id: self.id.clone(),
            state: self.state,
            pid: self.pid,
            port: self.port,
            started_at: self.started_at,
            exit_code: self.exit_code,
            origin: clone_origin(&self.origin),
            restarts: self.restarts,
        }
    }
}

impl Status {
    pub fn stopped(id: &str) -> (s: Status)
        ensures
            stopped_status(s, id@),
    {
        Status {
            id: string_of(chars_of(id).as_slice()),
            state: State::Stopped,
            pid: None,
            port: None,
            started_at: None,
            exit_code: None,
            origin: None,
            restarts: 0,
        }
    }
}

#[derive(Clone, Copy, Debug, PartialEq, Eq, Structural)]
pub enum Stream {
    Stdout,
    Stderr,
    /// Cucina's own commentary: "started", "exited with code 1", etc.
    System,
}

#[derive(Debug)]
pub struct LogLine {
    pub seq: u64,
    pub ts: u64,
    pub stream: Stream,
    pub text: String,
}

/// A log line as a value: its text as characters.
pub struct LineView {
    pub seq: u64,
    pub ts: u64,
    pub stream: Stream,
    pub text: Seq<char>,
}

impl View for LogLine {
    type V = LineView;

    open spec fn view(&self) -> LineView {
        LineView { seq: self.seq, ts: self.ts, stream: self.stream, text: self.text@ }
    }
}

impl Clone for LogLine {
    fn clone(&self) -> (r: Self)
        ensures
            r == *self,
    {
        LogLine { seq: self.seq, ts: self.ts, stream: self.stream, text: self.text.clone() }
    }
}

/// Pushed to the UI and to socket subscribers.
#[derive(Debug)]
pub enum Event {
    Status(Status),
    /// Someone tried to launch a second Cucina; raise the window we have.
    Show,
    Log { id: String, lines: Vec<LogLine> },
    ServersChanged,
    /// A task run started, produced its first output, or ended.
    Run(Run),
    /// A server's task list changed.
    Tasks { id: String, tasks: Vec<Task> },
}

/// Milliseconds since the Unix epoch, from the system clock; 0 if the clock
/// reads before the epoch.
#[verifier::external_body]
pub fn now_ms() -> u64 {
    std::time::SystemTime::now().duration_since(std::time::UNIX_EPOCH).map(|d| d.as_millis() as u64).unwrap_or(0)
}

} // verus!
