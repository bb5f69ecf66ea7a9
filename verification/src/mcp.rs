//! The MCP server's decisions: what the handshake says about the client,
//! how a tool's arguments are read, which servers a tool acts on and what it
//! answers. Reading stdin, writing replies and talking to the app are the
//! caller's part; JSON values are handed in as their text.
use vstd::prelude::*;
use crate::cli::{first_index, lemma_first_index, strings, view_ids};
use crate::proto::ServerView;
use crate::text::{chars_of, lowercase, lower_of, push_all, push_decimal, push_str, string_of, trim, trim_ws, decimal};
use crate::tray::joined;

verus! {

/// The protocol version answered when the client names none.
pub const LATEST_PROTOCOL: &'static str = "2025-06-18";

/// How long `wait` blocks for a port.
pub const WAIT_MS: u64 = 45_000;

/// How many log lines a tool returns when it names no number.
pub const DEFAULT_TAIL: usize = 200;

// ---- reading JSON -----------------------------------------------------------------

/// The text of member `key` of the JSON object `text`, as serde_json writes
/// it; `None` when `text` is not JSON, not an object, or has no such member.
/// It names a chain of serde_json calls: `from_str::<Value>`, then
/// `Value::get`, then `Value::to_string` on the member.
pub uninterp spec fn json_member_of(text: Seq<char>, key: Seq<char>) -> Option<Seq<char>>;

/// The string that the JSON text `text` is, if it is one. It names a chain
/// of serde_json calls: `from_str::<Value>`, then `Value::as_str`.
pub uninterp spec fn json_str_of(text: Seq<char>) -> Option<Seq<char>>;

/// The boolean that the JSON text `text` is, if it is one. It names a
/// chain of serde_json calls: `from_str::<Value>`, then `Value::as_bool`.
pub uninterp spec fn json_bool_of(text: Seq<char>) -> Option<bool>;

/// The unsigned integer that the JSON text `text` is, if it is one that
/// fits in 64 bits. It names a chain of serde_json calls:
/// `from_str::<Value>`, then `Value::as_u64`.
pub uninterp spec fn json_u64_of(text: Seq<char>) -> Option<u64>;

/// `serde_json::from_str::<Value>`, `Value::get` and `Value::to_string`:
/// the member's text, named by `json_member_of`.
#[verifier::external_body]
fn json_member(text: &str, key: &str) -> (r: Option<String>)
    ensures
        match r {
            Some(m) => json_member_of(text@, key@) == Some(m@),
            None => json_member_of(text@, key@) is None,
        },
{
    let value = serde_json::from_str::<serde_json::Value>(text).ok()?;
    value.get(key).map(|m| m.to_string())
}

/// `serde_json::from_str::<Value>` and `Value::as_str`, named by
/// `json_str_of`.
#[verifier::external_body]
fn json_str(text: &str) -> (r: Option<String>)
    ensures
        match r {
            Some(s) => json_str_of(text@) == Some(s@),
            None => json_str_of(text@) is None,
        },
{
    let value = serde_json::from_str::<serde_json::Value>(text).ok()?;
    value.as_str().map(|s| s.to_string())
}

/// `serde_json::from_str::<Value>` and `Value::as_bool`, named by
/// `json_bool_of`.
#[verifier::external_body]
fn json_bool(text: &str) -> (r: Option<bool>)
    ensures
        r == json_bool_of(text@),
{
    let value = serde_json::from_str::<serde_json::Value>(text).ok()?;
    value.as_bool()
}

/// `serde_json::from_str::<Value>` and `Value::as_u64`, named by
/// `json_u64_of`.
#[verifier::external_body]
fn json_u64(text: &str) -> (r: Option<u64>)
    ensures
        r == json_u64_of(text@),
{
    let value = serde_json::from_str::<serde_json::Value>(text).ok()?;
    value.as_u64()
}

/// The string at member `key` of the JSON object `text`.
pub open spec fn field_str(text: Seq<char>, key: Seq<char>) -> Option<Seq<char>> {
    match json_member_of(text, key) {
        Some(m) => json_str_of(m),
        None => None,
    }
}

fn field(text: &str, key: &str) -> (r: Option<String>)
    ensures
        match r {
            Some(s) => field_str(text@, key@) == Some(s@),
            None => field_str(text@, key@) is None,
        },
{
    match json_member(text, key) {
        Some(m) => json_str(m.as_str()),
        None => None,
    }
}

pub open spec fn opt_view(o: Option<String>) -> Option<Seq<char>> {
    match o {
        Some(s) => Some(s@),
        None => None,
    }
}

/// A string trimmed, where anything is left of it.
pub open spec fn nonblank(o: Option<Seq<char>>) -> Option<Seq<char>> {
    match o {
        Some(s) => if trim(s).len() > 0 {
            Some(trim(s))
        } else {
            None
        },
        None => None,
    }
}

fn nonblank_of(o: Option<String>) -> (r: Option<String>)
    ensures
        opt_view(r) == nonblank(opt_view(o)),
{
    match o {
        Some(s) => {
            let t = trim_ws(chars_of(s.as_str()).as_slice());
            if t.len() > 0 {
                Some(string_of(t.as_slice()))
            } else {
                None
            }
        },
        None => None,
    }
}

// ---- the handshake ------------------------------------------------------------------

/// The client's name from the handshake's `params`: `clientInfo.name`,
/// trimmed, where it is a string with something in it.
pub open spec fn client_in(params: Seq<char>) -> Option<Seq<char>> {
    match json_member_of(params, "clientInfo"@) {
        Some(info) => nonblank(field_str(info, "name"@)),
        None => None,
    }
}

/// The handshake is the one place a client names itself, and every client
/// names itself to every server it opens — which is what makes the
/// attribution on a card cost the user no setup at all.
pub fn client_from(params: &str) -> (r: Option<String>)
    ensures
        opt_view(r) == client_in(params@),
{
    match json_member(params, "clientInfo") {
        Some(info) => nonblank_of(field(info.as_str(), "name")),
        None => None,
    }
}

/// What one MCP server process knows of its client. One process serves one
/// client for its whole life, so the first name heard is the only one.
pub struct Session {
    client: Option<String>,
}

impl Session {
    pub closed spec fn client_view(&self) -> Option<Seq<char>> {
        opt_view(self.client)
    }

    pub fn new() -> (s: Session)
        ensures
            s.client_view() is None,
    {
        Session { client: None }
    }

    /// The client it heard first, if any.
    pub fn client(&self) -> (c: Option<String>)
        ensures
            opt_view(c) == self.client_view(),
    {
        match &self.client {
            Some(c) => Some(c.clone()),
            None => None,
        }
    }

    /// Answers `initialize`: remembers the client unless one was heard
    /// already, and returns the protocol version to answer with — the
    /// client's own where it names one.
    pub fn initialize(&mut self, params: &str) -> (version: String)
        ensures
            final(self).client_view() == (match old(self).client_view() {
                Some(c) => Some(c),
                None => client_in(params@),
            }),
            version@ == (match field_str(params@, "protocolVersion"@) {
                Some(v) => v,
                None => LATEST_PROTOCOL@,
            }),
    {
        if self.client.is_none() {
            self.client = client_from(params);
        }
        match field(params, "protocolVersion") {
            Some(v) => v,
            None => string_of(chars_of(LATEST_PROTOCOL).as_slice()),
        }
    }

    /// Who runs are attributed to. An explicit `$CUCINA_CLIENT` wins: it
    /// lets a wrapper call itself something the handshake has no way to
    /// say. Otherwise the client at its word, and the anonymous label only
    /// where it never introduced itself.
    pub fn client_name(&self, client_var: Option<String>) -> (name: String)
        ensures
            name@ == (match client_var {
                Some(v) => v@,
                None => match self.client_view() {
                    Some(c) => c,
                    None => "an agent"@,
                },
            }),
    {
        match client_var {
            Some(v) => v,
            None => match &self.client {
                Some(c) => c.clone(),
                None => string_of(chars_of("an agent").as_slice()),
            },
        }
    }
}

// ---- methods and tools -----------------------------------------------------------

#[derive(Debug, PartialEq, Eq, Structural, Clone, Copy)]
pub enum Method {
    Initialize,
    Ping,
    ToolsList,
    ToolsCall,
    Unknown,
}

fn is(v: &[char], s: &str) -> (b: bool)
    ensures
        b == (v@ == s@),
{
    let t = chars_of(s);
    crate::text::seq_eq(v, t.as_slice())
}

pub open spec fn method_for(name: Seq<char>) -> Method {
    if name == "initialize"@ {
        Method::Initialize
    } else if name == "ping"@ {
        Method::Ping
    } else if name == "tools/list"@ {
        Method::ToolsList
    } else if name == "tools/call"@ {
        Method::ToolsCall
    } else {
        Method::Unknown
    }
}

pub fn method_of(name: &str) -> (m: Method)
    ensures
        m == method_for(name@),
{
    let v = chars_of(name);
    if is(v.as_slice(), "initialize") {
        Method::Initialize
    } else if is(v.as_slice(), "ping") {
        Method::Ping
    } else if is(v.as_slice(), "tools/list") {
        Method::ToolsList
    } else if is(v.as_slice(), "tools/call") {
        Method::ToolsCall
    } else {
        Method::Unknown
    }
}

/// The JSON-RPC error for a method nobody serves.
pub fn unknown_method(name: &str) -> (e: (i32, String))
    ensures
        e.0 == -32601,
        e.1@ == "Unknown method: "@ + name@,
{
    let mut v = chars_of("Unknown method: ");
    push_str(&mut v, name);
    (-32601, string_of(v.as_slice()))
}

/// The tool a `tools/call` names, or the JSON-RPC error for a call that
/// names none.
pub fn tool_name(params: &str) -> (r: Result<String, (i32, String)>)
    ensures
        match field_str(params@, "name"@) {
            Some(n) => r is Ok && r->Ok_0@ == n,
            None => r is Err && r->Err_0.0 == -32602 && r->Err_0.1@ == "Missing tool name."@,
        },
{
    match field(params, "name") {
        Some(n) => Ok(n),
        None => Err((-32602, string_of(chars_of("Missing tool name.").as_slice()))),
    }
}

/// The arguments a `tools/call` passes, as JSON text; an empty object where
/// it passes none.
pub fn tool_arguments(params: &str) -> (args: String)
    ensures
        args@ == (match json_member_of(params@, "arguments"@) {
            Some(a) => a,
            None => "{}"@,
        }),
{
    match json_member(params, "arguments") {
        Some(a) => a,
        None => string_of(chars_of("{}").as_slice()),
    }
}

#[derive(Debug, PartialEq, Eq, Structural, Clone, Copy)]
pub enum Tool {
    List,
    Start,
    Restart,
    Stop,
    Worktrees,
    Switch,
    Logs,
    Tasks,
    RunTask,
    RunCommand,
    Run,
    StopRun,
    DeleteTask,
    SuggestTasks,
    Unknown,
}

pub open spec fn tool_for(name: Seq<char>) -> Tool {
    if name == "cucina_list"@ {
        Tool::List
    } else if name == "cucina_start"@ {
        Tool::Start
    } else if name == "cucina_restart"@ {
        Tool::Restart
    } else if name == "cucina_stop"@ {
        Tool::Stop
    } else if name == "cucina_worktrees"@ {
        Tool::Worktrees
    } else if name == "cucina_switch"@ {
        Tool::Switch
    } else if name == "cucina_logs"@ {
        Tool::Logs
    } else if name == "cucina_tasks"@ {
        Tool::Tasks
    } else if name == "cucina_run_task"@ {
        Tool::RunTask
    } else if name == "cucina_run_command"@ {
        Tool::RunCommand
    } else if name == "cucina_run"@ {
        Tool::Run
    } else if name == "cucina_stop_run"@ {
        Tool::StopRun
    } else if name == "cucina_delete_task"@ {
        Tool::DeleteTask
    } else if name == "cucina_suggest_tasks"@ {
        Tool::SuggestTasks
    } else {
        Tool::Unknown
    }
}

pub fn tool_of(name: &str) -> (t: Tool)
    ensures
        t == tool_for(name@),
{
    let v = chars_of(name);
    let v = v.as_slice();
    if is(v, "cucina_list") {
        Tool::List
    } else if is(v, "cucina_start") {
        Tool::Start
    } else if is(v, "cucina_restart") {
        Tool::Restart
    } else if is(v, "cucina_stop") {
        Tool::Stop
    } else if is(v, "cucina_worktrees") {
        Tool::Worktrees
    } else if is(v, "cucina_switch") {
        Tool::Switch
    } else if is(v, "cucina_logs") {
        Tool::Logs
    } else if is(v, "cucina_tasks") {
        Tool::Tasks
    } else if is(v, "cucina_run_task") {
        Tool::RunTask
    } else if is(v, "cucina_run_command") {
        Tool::RunCommand
    } else if is(v, "cucina_run") {
        Tool::Run
    } else if is(v, "cucina_stop_run") {
        Tool::StopRun
    } else if is(v, "cucina_delete_task") {
        Tool::DeleteTask
    } else if is(v, "cucina_suggest_tasks") {
        Tool::SuggestTasks
    } else {
        Tool::Unknown
    }
}

// ---- tool arguments ----------------------------------------------------------------

/// What the agent calls this session; empty where it says nothing.
pub fn arg_session(args: &str) -> (s: String)
    ensures
        s@ == (match field_str(args@, "session"@) {
            Some(v) => v,
            None => Seq::<char>::empty(),
        }),
{
    match field(args, "session") {
        Some(v) => v,
        None => {
            proof {
                reveal_strlit("");
            }
            string_of(chars_of("").as_slice())
        },
    }
}

pub fn arg_id(args: &str) -> (r: Result<String, String>)
    ensures
        match field_str(args@, "id"@) {
            Some(v) => r is Ok && r->Ok_0@ == v,
            None => r is Err && r->Err_0@ == "An id is required. Call cucina_list to see them."@,
        },
{
    match field(args, "id") {
        Some(v) => Ok(v),
        None => Err(string_of(chars_of("An id is required. Call cucina_list to see them.").as_slice())),
    }
}

/// A string argument as it was passed.
pub fn arg_text(args: &str, key: &str) -> (r: Option<String>)
    ensures
        opt_view(r) == field_str(args@, key@),
{
    field(args, key)
}

/// A string argument, trimmed, where something is left of it.
pub fn arg_str(args: &str, key: &str) -> (r: Option<String>)
    ensures
        opt_view(r) == nonblank(field_str(args@, key@)),
{
    nonblank_of(field(args, key))
}

/// `wait` defaults to true, which blocks for up to `WAIT_MS`.
pub fn wait_ms(args: &str) -> (r: Option<u64>)
    ensures
        r == (if (match json_member_of(args@, "wait"@) {
            Some(w) => match json_bool_of(w) {
                Some(b) => b,
                None => true,
            },
            None => true,
        }) {
            Some(WAIT_MS)
        } else {
            None
        }),
{
    let wants = match json_member(args, "wait") {
        Some(w) => match json_bool(w.as_str()) {
            Some(b) => b,
            None => true,
        },
        None => true,
    };
    if wants {
        Some(WAIT_MS)
    } else {
        None
    }
}

/// How many lines to return: `tail` where it is a number, else
/// `DEFAULT_TAIL`.
pub fn arg_tail(args: &str) -> (n: usize)
    ensures
        n == (match json_member_of(args@, "tail"@) {
            Some(t) => match json_u64_of(t) {
                Some(k) => k as usize,
                None => DEFAULT_TAIL,
            },
            None => DEFAULT_TAIL,
        }),
{
    match json_member(args, "tail") {
        Some(t) => match json_u64(t.as_str()) {
            Some(k) => k as usize,
            None => DEFAULT_TAIL,
        },
        None => DEFAULT_TAIL,
    }
}

} // verus!

verus! {

// ---- which servers a tool acts on --------------------------------------------------

/// `items` joined with `sep`.
pub fn join_strings(items: &Vec<String>, sep: &str) -> (out: String)
    ensures
        out@ == joined(strings(items@), sep@),
{
    let ghost pv = strings(items@);
    let n = items.len();
    let mut out: Vec<char> = Vec::new();
    let mut i: usize = 0;
    while i < n
        invariant
            i <= n,
            n == items@.len(),
            pv == strings(items@),
            out@ == joined(pv.take(i as int), sep@),
        decreases n - i,
    {
        assert(pv.take(i + 1).drop_last() =~= pv.take(i as int));
        if i > 0 {
            push_str(&mut out, sep);
        } else {
            assert(pv.take(1)[0] == pv[0]);
        }
        push_str(&mut out, items[i].as_str());
        i += 1;
    }
    assert(pv.take(n as int) =~= pv);
    string_of(out.as_slice())
}

fn all_ids(views: &[ServerView]) -> (ids: Vec<String>)
    ensures
        strings(ids@) == view_ids(views@),
{
    let n = views.len();
    let mut ids: Vec<String> = Vec::new();
    let mut i: usize = 0;
    while i < n
        invariant
            i <= n,
            n == views@.len(),
            strings(ids@) == view_ids(views@.take(i as int)),
        decreases n - i,
    {
        let ghost before = strings(ids@);
        ids.push(views[i].server.id.clone());
        assert(strings(ids@) =~= before.push(views@[i as int].server.id@));
        assert(view_ids(views@.take(i + 1)) =~= view_ids(views@.take(i as int)).push(views@[i as int].server.id@));
        i += 1;
    }
    assert(views@.take(n as int) =~= views@);
    ids
}

/// What an agent's `id` resolves to: as on the command line, one server or
/// a whole project, but a miss lists the ids there are.
pub open spec fn agent_resolved(views: Seq<ServerView>, key: Seq<char>) -> Result<Seq<Seq<char>>, Seq<char>> {
    match crate::cli::resolved(views, key) {
        Ok(ids) => Ok(ids),
        Err(_) => Err("No server or group called "@ + key + ". Known ids: "@ + joined(view_ids(views), ", "@)),
    }
}

/// An id may name one server or a whole group, so an agent can bring a
/// project's services up together.
pub fn resolve(views: &[ServerView], key: &str) -> (r: Result<Vec<String>, String>)
    ensures
        crate::cli::ids_result(r) == agent_resolved(views@, key@),
{
    match crate::cli::resolve(views, key) {
        Ok(ids) => Ok(ids),
        Err(_) => {
            let mut e = chars_of("No server or group called ");
            push_str(&mut e, key);
            push_str(&mut e, ". Known ids: ");
            push_str(&mut e, join_strings(&all_ids(views), ", ").as_str());
            Err(string_of(e.as_slice()))
        },
    }
}

/// A task runs a command in a single directory, so it needs exactly one
/// server: a project would have to mean "run it once per server", and
/// nothing about `db:migrate` says that is what the agent meant.
pub fn one_server(key: &str, ids: Vec<String>) -> (r: Result<String, String>)
    ensures
        ids@.len() == 1 ==> r is Ok && r->Ok_0@ == ids@[0]@,
        ids@.len() != 1 ==> r is Err && r->Err_0@ == key@ + " is a project of "@ + decimal(ids@.len())
            + " servers. A task runs in one directory, so name the server: "@ + joined(strings(ids@), ", "@),
{
    if ids.len() == 1 {
        Ok(ids[0].clone())
    } else {
        let mut e = chars_of(key);
        push_str(&mut e, " is a project of ");
        push_decimal(&mut e, ids.len() as u64);
        push_str(&mut e, " servers. A task runs in one directory, so name the server: ");
        push_str(&mut e, join_strings(&ids, ", ").as_str());
        Err(string_of(e.as_slice()))
    }
}

/// The view with exactly id `id`, which the worktree tools act on.
pub fn view_by_id(views: &[ServerView], id: &str) -> (r: Result<usize, String>)
    ensures
        match first_index(views@, |v: ServerView| v.server.id@ == id@) {
            Some(j) => r == Ok::<usize, String>(j as usize),
            None => r is Err && r->Err_0@ == "No server called "@ + id@ + "."@,
        },
{
    let ghost p = |v: ServerView| v.server.id@ == id@;
    let key = string_of(chars_of(id).as_slice());
    let n = views.len();
    let mut i: usize = 0;
    while i < n
        invariant
            i <= n,
            n == views@.len(),
            key@ == id@,
            p == (|v: ServerView| v.server.id@ == id@),
            forall|j: int| 0 <= j < i ==> !p(#[trigger] views@[j]),
        decreases n - i,
    {
        if views[i].server.id == key {
            proof {
                lemma_first_index(views@, p, i as int);
            }
            return Ok(i);
        }
        i += 1;
    }
    proof {
        lemma_first_index(views@, p, i as int);
    }
    let mut e = chars_of("No server called ");
    push_str(&mut e, id);
    push_str(&mut e, ".");
    Err(string_of(e.as_slice()))
}

/// The worktree an agent names for `cucina_switch`: by branch, without
/// case. A miss lists the branches there are.
pub open spec fn agent_worktree(trees: Seq<crate::git::Worktree>, target: Seq<char>) -> Result<int, Seq<char>> {
    match first_index(trees, crate::cli::on_branch(lowercase(target))) {
        Some(j) => Ok(j),
        None => Err(
            "No worktree called "@ + target + ". Available: "@ + joined(
                trees.map_values(|w: crate::git::Worktree| w.branch@),
                ", "@,
            ),
        ),
    }
}

pub fn pick_worktree(trees: &[crate::git::Worktree], target: &str) -> (r: Result<usize, String>)
    ensures
        match agent_worktree(trees@, target@) {
            Ok(j) => r == Ok::<usize, String>(j as usize),
            Err(e) => r is Err && r->Err_0@ == e,
        },
{
    let k = lower_of(target);
    let ghost p = crate::cli::on_branch(k@);
    let n = trees.len();
    let mut i: usize = 0;
    while i < n
        invariant
            i <= n,
            n == trees@.len(),
            k@ == lowercase(target@),
            p == crate::cli::on_branch(k@),
            forall|j: int| 0 <= j < i ==> !p(#[trigger] trees@[j]),
        decreases n - i,
    {
        if lower_of(trees[i].branch.as_str()) == k {
            proof {
                lemma_first_index(trees@, p, i as int);
            }
            return Ok(i);
        }
        i += 1;
    }
    proof {
        lemma_first_index(trees@, p, i as int);
    }
    let mut names: Vec<String> = Vec::new();
    let mut j: usize = 0;
    while j < n
        invariant
            j <= n,
            n == trees@.len(),
            strings(names@) == trees@.take(j as int).map_values(|w: crate::git::Worktree| w.branch@),
        decreases n - j,
    {
        let ghost before = strings(names@);
        names.push(trees[j].branch.clone());
        assert(strings(names@) =~= before.push(trees@[j as int].branch@));
        assert(trees@.take(j + 1).map_values(|w: crate::git::Worktree| w.branch@) =~= trees@.take(j as int).map_values(
            |w: crate::git::Worktree| w.branch@,
        ).push(trees@[j as int].branch@));
        j += 1;
    }
    assert(trees@.take(n as int) =~= trees@);
    let mut e = chars_of("No worktree called ");
    push_str(&mut e, target);
    push_str(&mut e, ". Available: ");
    push_str(&mut e, join_strings(&names, ", ").as_str());
    Err(string_of(e.as_slice()))
}

} // verus!

verus! {

// ---- what the tools answer ---------------------------------------------------------

fn cat2(a: &str, b: &str) -> (s: String)
    ensures
        s@ == a@ + b@,
{
    let mut v = chars_of(a);
    push_str(&mut v, b);
    string_of(v.as_slice())
}

fn cat(a: &str, b: &str, c: &str) -> (s: String)
    ensures
        s@ == a@ + b@ + c@,
{
    let mut v = chars_of(a);
    push_str(&mut v, b);
    push_str(&mut v, c);
    string_of(v.as_slice())
}

/// `cucina_list` with nothing defined.
pub fn no_servers_text() -> (s: String)
    ensures
        s@ == "No servers defined yet. The user can add one in the Cucina app, or with `cucina add --name api --dir . --command \"npm run dev\"`."@,
{
    string_of(
        chars_of(
            "No servers defined yet. The user can add one in the Cucina app, or with `cucina add --name api --dir . --command \"npm run dev\"`.",
        ).as_slice(),
    )
}

/// A string as `{:?}` writes it: quoted, with its escapes.
pub uninterp spec fn debug_text_of(s: Seq<char>) -> Seq<char>;

/// `<str as Debug>::fmt`, named by `debug_text_of`.
#[verifier::external_body]
fn debug_text(s: &str) -> (r: String)
    ensures
        r@ == debug_text_of(s@),
{
    format!("{:?}", s)
}

/// One server that would not start, as a line of JSON:
/// `{"id": "api", "error": "..."}`.
pub fn start_failed(id: &str, error: &str) -> (s: String)
    ensures
        s@ == "{\"id\": \""@ + id@ + "\", \"error\": "@ + debug_text_of(error@) + "}"@,
{
    let mut v = chars_of("{\"id\": \"");
    push_str(&mut v, id);
    push_str(&mut v, "\", \"error\": ");
    push_str(&mut v, debug_text(error).as_str());
    push_str(&mut v, "}");
    string_of(v.as_slice())
}

/// `api stopped.`
pub fn stopped_text(id: &str) -> (s: String)
    ensures
        s@ == id@ + " stopped."@,
{
    cat2(id, " stopped.")
}

/// `api: <why>`.
pub fn failed_text(id: &str, why: &str) -> (s: String)
    ensures
        s@ == id@ + ": "@ + why@,
{
    cat(id, ": ", why)
}

/// A server whose directory is not a git worktree.
pub fn not_a_worktree(id: &str, dir: &str) -> (s: String)
    ensures
        s@ == id@ + " is not in a git worktree ("@ + dir@ + ")."@,
{
    let mut v = chars_of(id);
    push_str(&mut v, " is not in a git worktree (");
    push_str(&mut v, dir);
    push_str(&mut v, ").");
    string_of(v.as_slice())
}

/// The answer to `cucina_logs`: the lines' text, one per line, or a note
/// that there is none.
pub fn logs_text(id: &str, lines: &Vec<crate::model::LogLine>) -> (s: String)
    ensures
        lines@.len() == 0 ==> s@ == id@ + " has produced no output."@,
        lines@.len() > 0 ==> s@ == joined(lines@.map_values(|l: crate::model::LogLine| l.text@), "\n"@),
{
    if lines.len() == 0 {
        return cat2(id, " has produced no output.");
    }
    let mut texts: Vec<String> = Vec::new();
    let n = lines.len();
    let mut i: usize = 0;
    while i < n
        invariant
            i <= n,
            n == lines@.len(),
            strings(texts@) == lines@.take(i as int).map_values(|l: crate::model::LogLine| l.text@),
        decreases n - i,
    {
        let ghost before = strings(texts@);
        texts.push(lines[i].text.clone());
        assert(strings(texts@) =~= before.push(lines@[i as int].text@));
        assert(lines@.take(i + 1).map_values(|l: crate::model::LogLine| l.text@) =~= lines@.take(i as int).map_values(
            |l: crate::model::LogLine| l.text@,
        ).push(lines@[i as int].text@));
        i += 1;
    }
    assert(lines@.take(n as int) =~= lines@);
    join_strings(&texts, "\n")
}

/// `cucina_tasks` on a server with none.
pub fn no_tasks_text(id: &str) -> (s: String)
    ensures
        s@ == id@
            + " has no tasks yet. Call cucina_suggest_tasks to see what its project defines, or cucina_run_command to run something and keep it."@,
{
    cat2(
        id,
        " has no tasks yet. Call cucina_suggest_tasks to see what its project defines, or cucina_run_command to run something and keep it.",
    )
}

/// The answer to starting a run: what the app said, and that the exit code
/// is not in it.
pub fn run_started_text(reply: &str, id: &str) -> (s: String)
    ensures
        s@ == reply@ + "\n\nStarted. Poll cucina_run with id \""@ + id@ + "\" for the exit code and output."@,
{
    let mut v = chars_of(reply);
    push_str(&mut v, "\n\nStarted. Poll cucina_run with id \"");
    push_str(&mut v, id);
    push_str(&mut v, "\" for the exit code and output.");
    string_of(v.as_slice())
}

/// `cucina_run` on a server that never ran a task.
pub fn no_run_text(id: &str) -> (s: String)
    ensures
        s@ == id@ + " has not run a task yet."@,
{
    cat2(id, " has not run a task yet.")
}

/// `cucina_delete_task` done.
pub fn task_removed_text(task_id: &str, id: &str) -> (s: String)
    ensures
        s@ == task_id@ + " removed from "@ + id@ + "."@,
{
    let mut v = chars_of(task_id);
    push_str(&mut v, " removed from ");
    push_str(&mut v, id);
    push_str(&mut v, ".");
    string_of(v.as_slice())
}

/// `cucina_suggest_tasks` with nothing found.
pub fn nothing_recognised_text(id: &str) -> (s: String)
    ensures
        s@ == "Nothing recognisable in "@ + id@
            + "'s directory — no package.json, Gemfile, Makefile or equivalent that defines commands."@,
{
    cat(
        "Nothing recognisable in ",
        id,
        "'s directory — no package.json, Gemfile, Makefile or equivalent that defines commands.",
    )
}

pub fn unknown_tool(name: &str) -> (s: String)
    ensures
        s@ == "Unknown tool: "@ + name@,
{
    cat2("Unknown tool: ", name)
}

/// Why a tool call lacks what it needs.
#[derive(Debug, PartialEq, Eq, Structural, Clone, Copy)]
pub enum Missing {
    Worktree,
    TaskId,
    Command,
    RunId,
}

pub open spec fn missing_text(m: Missing) -> Seq<char> {
    match m {
        Missing::Worktree => "A worktree branch name is required. Call cucina_worktrees to see them."@,
        Missing::TaskId => "A taskId is required. Call cucina_tasks to see them."@,
        Missing::Command => "A command is required."@,
        Missing::RunId => "A runId is required."@,
    }
}

pub fn missing(m: Missing) -> (s: String)
    ensures
        s@ == missing_text(m),
{
    match m {
        Missing::Worktree => string_of(
            chars_of("A worktree branch name is required. Call cucina_worktrees to see them.").as_slice(),
        ),
        Missing::TaskId => string_of(chars_of("A taskId is required. Call cucina_tasks to see them.").as_slice()),
        Missing::Command => string_of(chars_of("A command is required.").as_slice()),
        Missing::RunId => string_of(chars_of("A runId is required.").as_slice()),
    }
}

} // verus!

verus! {

/// The name each tool is listed under.
pub open spec fn tool_text(t: Tool) -> Seq<char> {
    match t {
        Tool::List => "cucina_list"@,
        Tool::Start => "cucina_start"@,
        Tool::Restart => "cucina_restart"@,
        Tool::Stop => "cucina_stop"@,
        Tool::Worktrees => "cucina_worktrees"@,
        Tool::Switch => "cucina_switch"@,
        Tool::Logs => "cucina_logs"@,
        Tool::Tasks => "cucina_tasks"@,
        Tool::RunTask => "cucina_run_task"@,
        Tool::RunCommand => "cucina_run_command"@,
        Tool::Run => "cucina_run"@,
        Tool::StopRun => "cucina_stop_run"@,
        Tool::DeleteTask => "cucina_delete_task"@,
        Tool::SuggestTasks => "cucina_suggest_tasks"@,
        Tool::Unknown => Seq::empty(),
    }
}

proof fn lemma_tool_text(t: Tool)
    requires
        t != Tool::Unknown,
    ensures
        tool_for(tool_text(t)) == t,
{
    reveal_strlit("cucina_list");
    reveal_strlit("cucina_start");
    reveal_strlit("cucina_restart");
    reveal_strlit("cucina_stop");
    reveal_strlit("cucina_worktrees");
    reveal_strlit("cucina_switch");
    reveal_strlit("cucina_logs");
    reveal_strlit("cucina_tasks");
    reveal_strlit("cucina_run_task");
    reveal_strlit("cucina_run_command");
    reveal_strlit("cucina_run");
    reveal_strlit("cucina_stop_run");
    reveal_strlit("cucina_delete_task");
    reveal_strlit("cucina_suggest_tasks");
    match t {
        Tool::List => {

        },
        Tool::Start => {
            assert("cucina_start"@.len() != "cucina_list"@.len());
        },
        Tool::Restart => {
            assert("cucina_restart"@.len() != "cucina_list"@.len());
            assert("cucina_restart"@.len() != "cucina_start"@.len());
        },
        Tool::Stop => {
            assert("cucina_stop"@[7] != "cucina_list"@[7]);
            assert("cucina_stop"@.len() != "cucina_start"@.len());
            assert("cucina_stop"@.len() != "cucina_restart"@.len());
        },
        Tool::Worktrees => {
            assert("cucina_worktrees"@.len() != "cucina_list"@.len());
            assert("cucina_worktrees"@.len() != "cucina_start"@.len());
            assert("cucina_worktrees"@.len() != "cucina_restart"@.len());
            assert("cucina_worktrees"@.len() != "cucina_stop"@.len());
        },
        Tool::Switch => {
            assert("cucina_switch"@.len() != "cucina_list"@.len());
            assert("cucina_switch"@.len() != "cucina_start"@.len());
            assert("cucina_switch"@.len() != "cucina_restart"@.len());
            assert("cucina_switch"@.len() != "cucina_stop"@.len());
            assert("cucina_switch"@.len() != "cucina_worktrees"@.len());
        },
        Tool::Logs => {
            assert("cucina_logs"@[8] != "cucina_list"@[8]);
            assert("cucina_logs"@.len() != "cucina_start"@.len());
            assert("cucina_logs"@.len() != "cucina_restart"@.len());
            assert("cucina_logs"@[7] != "cucina_stop"@[7]);
            assert("cucina_logs"@.len() != "cucina_worktrees"@.len());
            assert("cucina_logs"@.len() != "cucina_switch"@.len());
        },
        Tool::Tasks => {
            assert("cucina_tasks"@.len() != "cucina_list"@.len());
            assert("cucina_tasks"@[7] != "cucina_start"@[7]);
            assert("cucina_tasks"@.len() != "cucina_restart"@.len());
            assert("cucina_tasks"@.len() != "cucina_stop"@.len());
            assert("cucina_tasks"@.len() != "cucina_worktrees"@.len());
            assert("cucina_tasks"@.len() != "cucina_switch"@.len());
            assert("cucina_tasks"@.len() != "cucina_logs"@.len());
        },
        Tool::RunTask => {
            assert("cucina_run_task"@.len() != "cucina_list"@.len());
            assert("cucina_run_task"@.len() != "cucina_start"@.len());
            assert("cucina_run_task"@.len() != "cucina_restart"@.len());
            assert("cucina_run_task"@.len() != "cucina_stop"@.len());
            assert("cucina_run_task"@.len() != "cucina_worktrees"@.len());
            assert("cucina_run_task"@.len() != "cucina_switch"@.len());
            assert("cucina_run_task"@.len() != "cucina_logs"@.len());
            assert("cucina_run_task"@.len() != "cucina_tasks"@.len());
        },
        Tool::RunCommand => {
            assert("cucina_run_command"@.len() != "cucina_list"@.len());
            assert("cucina_run_command"@.len() != "cucina_start"@.len());
            assert("cucina_run_command"@.len() != "cucina_restart"@.len());
            assert("cucina_run_command"@.len() != "cucina_stop"@.len());
            assert("cucina_run_command"@.len() != "cucina_worktrees"@.len());
            assert("cucina_run_command"@.len() != "cucina_switch"@.len());
            assert("cucina_run_command"@.len() != "cucina_logs"@.len());
            assert("cucina_run_command"@.len() != "cucina_tasks"@.len());
            assert("cucina_run_command"@.len() != "cucina_run_task"@.len());
        },
        Tool::Run => {
            assert("cucina_run"@.len() != "cucina_list"@.len());
            assert("cucina_run"@.len() != "cucina_start"@.len());
            assert("cucina_run"@.len() != "cucina_restart"@.len());
            assert("cucina_run"@.len() != "cucina_stop"@.len());
            assert("cucina_run"@.len() != "cucina_worktrees"@.len());
            assert("cucina_run"@.len() != "cucina_switch"@.len());
            assert("cucina_run"@.len() != "cucina_logs"@.len());
            assert("cucina_run"@.len() != "cucina_tasks"@.len());
            assert("cucina_run"@.len() != "cucina_run_task"@.len());
            assert("cucina_run"@.len() != "cucina_run_command"@.len());
        },
        Tool::StopRun => {
            assert("cucina_stop_run"@.len() != "cucina_list"@.len());
            assert("cucina_stop_run"@.len() != "cucina_start"@.len());
            assert("cucina_stop_run"@.len() != "cucina_restart"@.len());
            assert("cucina_stop_run"@.len() != "cucina_stop"@.len());
            assert("cucina_stop_run"@.len() != "cucina_worktrees"@.len());
            assert("cucina_stop_run"@.len() != "cucina_switch"@.len());
            assert("cucina_stop_run"@.len() != "cucina_logs"@.len());
            assert("cucina_stop_run"@.len() != "cucina_tasks"@.len());
            assert("cucina_stop_run"@[7] != "cucina_run_task"@[7]);
            assert("cucina_stop_run"@.len() != "cucina_run_command"@.len());
            assert("cucina_stop_run"@.len() != "cucina_run"@.len());
        },
        Tool::DeleteTask => {
            assert("cucina_delete_task"@.len() != "cucina_list"@.len());
            assert("cucina_delete_task"@.len() != "cucina_start"@.len());
            assert("cucina_delete_task"@.len() != "cucina_restart"@.len());
            assert("cucina_delete_task"@.len() != "cucina_stop"@.len());
            assert("cucina_delete_task"@.len() != "cucina_worktrees"@.len());
            assert("cucina_delete_task"@.len() != "cucina_switch"@.len());
            assert("cucina_delete_task"@.len() != "cucina_logs"@.len());
            assert("cucina_delete_task"@.len() != "cucina_tasks"@.len());
            assert("cucina_delete_task"@.len() != "cucina_run_task"@.len());
            assert("cucina_delete_task"@[7] != "cucina_run_command"@[7]);
            assert("cucina_delete_task"@.len() != "cucina_run"@.len());
            assert("cucina_delete_task"@.len() != "cucina_stop_run"@.len());
        },
        Tool::SuggestTasks => {
            assert("cucina_suggest_tasks"@.len() != "cucina_list"@.len());
            assert("cucina_suggest_tasks"@.len() != "cucina_start"@.len());
            assert("cucina_suggest_tasks"@.len() != "cucina_restart"@.len());
            assert("cucina_suggest_tasks"@.len() != "cucina_stop"@.len());
            assert("cucina_suggest_tasks"@.len() != "cucina_worktrees"@.len());
            assert("cucina_suggest_tasks"@.len() != "cucina_switch"@.len());
            assert("cucina_suggest_tasks"@.len() != "cucina_logs"@.len());
            assert("cucina_suggest_tasks"@.len() != "cucina_tasks"@.len());
            assert("cucina_suggest_tasks"@.len() != "cucina_run_task"@.len());
            assert("cucina_suggest_tasks"@.len() != "cucina_run_command"@.len());
            assert("cucina_suggest_tasks"@.len() != "cucina_run"@.len());
            assert("cucina_suggest_tasks"@.len() != "cucina_stop_run"@.len());
            assert("cucina_suggest_tasks"@.len() != "cucina_delete_task"@.len());
        },
        Tool::Unknown => {},
    }
}

impl Tool {
    /// The name the tool list advertises; a call by that name reaches the
    /// same tool.
    pub fn name(self) -> (n: &'static str)
        ensures
            n@ == tool_text(self),
            self != Tool::Unknown ==> tool_for(n@) == self,
    {
        proof {
            reveal_strlit("");
            if self != Tool::Unknown {
                lemma_tool_text(self);
            }
        }
        match self {
            Tool::List => "cucina_list",
            Tool::Start => "cucina_start",
            Tool::Restart => "cucina_restart",
            Tool::Stop => "cucina_stop",
            Tool::Worktrees => "cucina_worktrees",
            Tool::Switch => "cucina_switch",
            Tool::Logs => "cucina_logs",
            Tool::Tasks => "cucina_tasks",
            Tool::RunTask => "cucina_run_task",
            Tool::RunCommand => "cucina_run_command",
            Tool::Run => "cucina_run",
            Tool::StopRun => "cucina_stop_run",
            Tool::DeleteTask => "cucina_delete_task",
            Tool::SuggestTasks => "cucina_suggest_tasks",
            Tool::Unknown => "",
        }
    }
}

} // verus!
