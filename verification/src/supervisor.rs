//! The supervisor's decisions: what a run's state becomes when it starts,
//! prints, is found listening, is asked to stop and exits, and how server
//! definitions are added, changed and grouped. Spawning processes, reading
//! their pipes and signalling them is the caller's part; it hands each event
//! in here and does what comes back.
use vstd::prelude::*;
use crate::model::{
    is_settled, live, settle_id, slugify, slugify_spec, Group, Origin, Server, State, Status,
};
use crate::model::ServerRecord;
use crate::git::path_eq;
use crate::text::{chars_of, push_decimal, push_signed, push_str, signed_decimal, string_of, trim, trim_ws, decimal};

verus! {

/// Crash-loop guard for auto-restart: at most this many restarts...
pub const RESTART_LIMIT: u32 = 5;

/// ...within this many milliseconds of the first start.
pub const RESTART_WINDOW_MS: u64 = 60_000;

/// What the supervisor knows about one server's current run.
#[derive(Debug)]
pub struct Runtime {
    pub status: Status,
    /// The process group of the run, while there is one.
    pub pgid: Option<i32>,
    /// Set when a stop was requested, so an exit is not treated as a crash.
    pub stopping: bool,
    /// Bumped on every start; events from an older run compare against it and
    /// are ignored.
    pub generation: u64,
    pub restart_window_start: u64,
}

pub open spec fn same_status_except_state(a: Status, b: Status) -> bool {
    &&& a.id == b.id
    &&& a.pid == b.pid
    &&& a.started_at == b.started_at
    &&& a.exit_code == b.exit_code
    &&& a.origin == b.origin
    &&& a.restarts == b.restarts
}

/// What an exit leads to.
#[derive(Debug, PartialEq, Eq, Structural)]
pub enum ExitOutcome {
    /// The exit belongs to a run that has since been replaced; nothing changes.
    Superseded,
    /// The run is over. `restart` is the attempt number to start again with,
    /// if it should be; `gave_up` says auto-restart stopped trying.
    Settled { restart: Option<u32>, gave_up: bool },
}

/// What asking a run to stop leads to.
#[derive(Debug, PartialEq, Eq, Structural)]
pub enum StopRequest {
    /// There is no live run; nothing to do.
    NotRunning,
    /// The run is marked as stopping; signal this process group, if known.
    Signal(Option<i32>),
}

impl Runtime {
    pub fn new(id: &str) -> (r: Runtime)
        ensures
            crate::model::stopped_status(r.status, id@),
            r.pgid is None,
            !r.stopping,
            r.generation == 0,
            r.restart_window_start == 0,
    {
        Runtime {
            status: Status::stopped(id),
            pgid: None,
            stopping: false,
            generation: 0,
            restart_window_start: 0,
        }
    }

    /// A run has just been spawned as process `pid`, leading its own group:
    /// it is starting, attributed to `origin`, on attempt `restarts`. A first
    /// attempt opens a new restart window. Returns the run's generation.
    pub fn begin(&mut self, pid: u32, origin: Origin, restarts: u32, now: u64) -> (generation: u64)
        requires
            old(self).generation < u64::MAX,
        ensures
            generation == old(self).generation + 1,
            final(self).generation == generation,
            !final(self).stopping,
            final(self).pgid == Some(pid as i32),
            final(self).status.id == old(self).status.id,
            final(self).status.state == State::Starting,
            final(self).status.pid == Some(pid),
            final(self).status.port is None,
            final(self).status.started_at == Some(now),
            final(self).status.exit_code is None,
            final(self).status.origin == Some(origin),
            final(self).status.restarts == restarts,
            final(self).restart_window_start == (if restarts == 0 {
                now
            } else {
                old(self).restart_window_start
            }),
    {
        self.generation = self.generation + 1;
        self.stopping = false;
        self.pgid = Some(pid as i32);
        self.status.state = State::Starting;
        self.status.pid = Some(pid);
        self.status.port = None;
        self.status.started_at = Some(now);
        self.status.exit_code = None;
        self.status.origin = Some(origin);
        self.status.restarts = restarts;
        if restarts == 0 {
            self.restart_window_start = now;
        }
        self.generation
    }

    /// The run printed a line, which may have announced `found` as its port.
    /// The first sign of life promotes Starting to Running, and the first
    /// announced port is kept. `None` when the line came from an older run
    /// (its reader should stop); otherwise whether the status changed.
    pub fn on_output(&mut self, generation: u64, found: Option<u16>) -> (changed: Option<bool>)
        ensures
            generation != old(self).generation ==> changed is None && *final(self) == *old(self),
            generation == old(self).generation ==> {
                &&& changed is Some
                &&& final(self).status.state == (if old(self).status.state == State::Starting {
                    State::Running
                } else {
                    old(self).status.state
                })
                &&& final(self).status.port == (if old(self).status.port is None {
                    found
                } else {
                    old(self).status.port
                })
                &&& same_status_except_state(final(self).status, old(self).status)
                &&& final(self).pgid == old(self).pgid
                &&& final(self).stopping == old(self).stopping
                &&& final(self).generation == old(self).generation
                &&& final(self).restart_window_start == old(self).restart_window_start
                &&& changed->0 == (old(self).status.state == State::Starting || (old(self).status.port is None && found is Some))
            },
    {
        if self.generation != generation {
            return None;
        }
        let mut changed = false;
        if self.status.state == State::Starting {
            self.status.state = State::Running;
            changed = true;
        }
        if self.status.port.is_none() {
            if let Some(p) = found {
                self.status.port = Some(p);
                changed = true;
            }
        }
        Some(changed)
    }

    /// Whether probing for a port is still worth it: the run is the current
    /// one, still live, and has no port yet.
    pub fn probing(&self, generation: u64) -> (b: bool)
        ensures
            b == (self.generation == generation && self.status.port is None && live(self.status.state)),
    {
        self.generation == generation && self.status.port.is_none() && self.status.state.is_live()
    }

    /// The kernel says the run listens on `port`. Applied only to the current
    /// run when it has no port yet, which also promotes Starting to Running.
    pub fn on_port(&mut self, generation: u64, port: u16) -> (applied: bool)
        ensures
            applied == (old(self).generation == generation && old(self).status.port is None),
            !applied ==> *final(self) == *old(self),
            applied ==> {
                &&& final(self).status.port == Some(port)
                &&& final(self).status.state == (if old(self).status.state == State::Starting {
                    State::Running
                } else {
                    old(self).status.state
                })
                &&& same_status_except_state(final(self).status, old(self).status)
                &&& final(self).pgid == old(self).pgid
                &&& final(self).stopping == old(self).stopping
                &&& final(self).generation == old(self).generation
                &&& final(self).restart_window_start == old(self).restart_window_start
            },
    {
        if self.generation == generation && self.status.port.is_none() {
            self.status.port = Some(port);
            if self.status.state == State::Starting {
                self.status.state = State::Running;
            }
            true
        } else {
            false
        }
    }

    /// Asks the run to stop. A run that is not live needs nothing; a live one
    /// is marked as stopping, so its exit is not taken for a crash.
    pub fn request_stop(&mut self) -> (r: StopRequest)
        ensures
            !live(old(self).status.state) ==> r == StopRequest::NotRunning && *final(self) == *old(self),
            live(old(self).status.state) ==> {
                &&& r == StopRequest::Signal(old(self).pgid)
                &&& final(self).stopping
                &&& final(self).status == old(self).status
                &&& final(self).pgid == old(self).pgid
                &&& final(self).generation == old(self).generation
                &&& final(self).restart_window_start == old(self).restart_window_start
            },
    {
        if !self.status.state.is_live() {
            return StopRequest::NotRunning;
        }
        self.stopping = true;
        StopRequest::Signal(self.pgid)
    }

    /// The process of run `generation` exited with `code` (`None` when a
    /// signal ended it) at `now`. A deliberate stop or a clean exit settles
    /// the run as stopped; anything else is a crash, which auto-restart
    /// answers at most `RESTART_LIMIT` times within `RESTART_WINDOW_MS`.
    pub fn on_exit(&mut self, generation: u64, code: Option<i32>, auto_restart: bool, now: u64) -> (out: ExitOutcome)
        ensures
            old(self).status.restarts <= RESTART_LIMIT ==> final(self).status.restarts <= RESTART_LIMIT,
            generation != old(self).generation ==> out == ExitOutcome::Superseded && *final(self) == *old(self),
            generation == old(self).generation ==> exit_settled(*old(self), *final(self), code, auto_restart, now, out),
    {
        if self.generation != generation {
            return ExitOutcome::Superseded;
        }
        let deliberate = self.stopping;
        self.pgid = None;
        self.status.pid = None;
        self.status.port = None;
        self.status.exit_code = code;
        let mut restart: Option<u32> = None;
        if deliberate {
            self.status.state = State::Stopped;
            self.status.started_at = None;
            self.status.origin = None;
            self.status.restarts = 0;
        } else if code == Some(0i32) {
            self.status.state = State::Stopped;
            self.status.started_at = None;
            self.status.origin = None;
        } else {
            self.status.state = State::Crashed;
            if auto_restart {
                if now.saturating_sub(self.restart_window_start) > RESTART_WINDOW_MS {
                    self.restart_window_start = now;
                    self.status.restarts = 0;
                }
                if self.status.restarts < RESTART_LIMIT {
                    self.status.restarts = self.status.restarts + 1;
                    restart = Some(self.status.restarts);
                }
            }
        }
        let crashed_code = match code {
            Some(c) => c != 0,
            None => false,
        };
        let gave_up = restart.is_none() && auto_restart && crashed_code;
        ExitOutcome::Settled { restart, gave_up }
    }
}

/// How an exit of the current run settles it.
pub open spec fn exit_settled(
    before: Runtime,
    after: Runtime,
    code: Option<i32>,
    auto_restart: bool,
    now: u64,
    out: ExitOutcome,
) -> bool {
    let deliberate = before.stopping;
    let clean = code == Some(0i32);
    let crashed = !deliberate && !clean;
    let window_expired = now - before.restart_window_start > RESTART_WINDOW_MS;
    let base = if crashed && auto_restart && window_expired {
        0
    } else {
        before.status.restarts
    };
    let restart = if crashed && auto_restart && base < RESTART_LIMIT {
        Some((base + 1) as u32)
    } else {
        None
    };
    &&& after.pgid is None
    &&& after.status.pid is None
    &&& after.status.port is None
    &&& after.status.exit_code == code
    &&& after.status.id == before.status.id
    &&& after.stopping == before.stopping
    &&& after.generation == before.generation
    &&& after.status.state == (if crashed {
        State::Crashed
    } else {
        State::Stopped
    })
    &&& !crashed ==> after.status.started_at is None && after.status.origin is None
    &&& crashed ==> after.status.started_at == before.status.started_at && after.status.origin
        == before.status.origin
    &&& after.status.restarts == (if deliberate {
        0
    } else if restart is Some {
        restart->0
    } else {
        base as u32
    })
    &&& after.restart_window_start == (if crashed && auto_restart && window_expired {
        now
    } else {
        before.restart_window_start
    })
    &&& out == ExitOutcome::Settled {
        restart,
        gave_up: restart is None && auto_restart && (code matches Some(c) && c != 0),
    }
}

/// What the log says when a run ends.
pub open spec fn exit_message_spec(code: Option<i32>) -> Seq<char> {
    match code {
        Some(c) => if c == 0 {
            "Finished cleanly."@
        } else {
            "Exited with code "@ + signed_decimal(c as int) + "."@
        },
        None => "Stopped."@,
    }
}

pub fn exit_message(code: Option<i32>) -> (m: String)
    ensures
        m@ == exit_message_spec(code),
{
    match code {
        Some(c) => if c == 0 {
            string_of(chars_of("Finished cleanly.").as_slice())
        } else {
            let mut v = chars_of("Exited with code ");
            push_signed(&mut v, c as i64);
            push_str(&mut v, ".");
            assert(v@ =~= exit_message_spec(code));
            string_of(v.as_slice())
        },
        None => string_of(chars_of("Stopped.").as_slice()),
    }
}

/// How long to wait before restart attempt `restarts`: half a second per
/// attempt, up to three seconds.
pub open spec fn restart_delay_spec(restarts: u32) -> u64 {
    (500 * (if restarts < 6 {
        restarts
    } else {
        6
    })) as u64
}

pub fn restart_delay_ms(restarts: u32) -> (ms: u64)
    ensures
        ms == restart_delay_spec(restarts),
{
    let n: u64 = if restarts < 6 {
        restarts as u64
    } else {
        6
    };
    500 * n
}

/// `Restarting in 1.5s (attempt 3 of 5).`
pub open spec fn restart_message_spec(restarts: u32) -> Seq<char> {
    let ms = restart_delay_spec(restarts);
    "Restarting in "@ + decimal((ms / 1000) as nat) + "."@ + decimal(((ms % 1000) / 100) as nat)
        + "s (attempt "@ + decimal(restarts as nat) + " of "@ + decimal(RESTART_LIMIT as nat)
        + ")."@
}

pub fn restart_message(restarts: u32) -> (m: String)
    ensures
        m@ == restart_message_spec(restarts),
{
    let ms = restart_delay_ms(restarts);
    let mut v = chars_of("Restarting in ");
    push_decimal(&mut v, ms / 1000);
    push_str(&mut v, ".");
    push_decimal(&mut v, (ms % 1000) / 100);
    push_str(&mut v, "s (attempt ");
    push_decimal(&mut v, restarts as u64);
    push_str(&mut v, " of ");
    push_decimal(&mut v, RESTART_LIMIT as u64);
    push_str(&mut v, ").");
    assert(v@ =~= restart_message_spec(restarts));
    string_of(v.as_slice())
}

/// Wrap the user's command so it carries its own dead-man's switch on fd 3:
/// a background watchdog that takes the whole process group down once the
/// pipe on fd 3 closes, which happens however Cucina dies.
pub open spec fn wrapped_command(command: Seq<char>) -> Seq<char> {
    "{ read -r _ <&3; kill -TERM -$$ 2>/dev/null; sleep 3; kill -KILL -$$ 2>/dev/null; } &\n"@
        + "__cucina_watch=$!\n"@ + "exec 3<&-\n"@ + command + "\n"@
        + "__cucina_status=$?\n"@ + "kill \"$__cucina_watch\" 2>/dev/null\n"@
        + "exit $__cucina_status\n"@
}

pub fn wrap(command: &str) -> (script: String)
    ensures
        script@ == wrapped_command(command@),
{
    let mut v = chars_of(
        "{ read -r _ <&3; kill -TERM -$$ 2>/dev/null; sleep 3; kill -KILL -$$ 2>/dev/null; } &\n",
    );
    push_str(&mut v, "__cucina_watch=$!\n");
    push_str(&mut v, "exec 3<&-\n");
    push_str(&mut v, command);
    push_str(&mut v, "\n");
    push_str(&mut v, "__cucina_status=$?\n");
    push_str(&mut v, "kill \"$__cucina_watch\" 2>/dev/null\n");
    push_str(&mut v, "exit $__cucina_status\n");
    assert(v@ =~= wrapped_command(command@));
    string_of(v.as_slice())
}

// ---- server definitions --------------------------------------------------------------

pub open spec fn records(v: Seq<Server>) -> Seq<ServerRecord> {
    v.map_values(|s: Server| s@)
}

pub open spec fn ids_of(v: Seq<Server>) -> Seq<Seq<char>> {
    v.map_values(|s: Server| s.id@)
}

/// Position of the first server with id `id`.
pub open spec fn find_id(v: Seq<Server>, id: Seq<char>) -> Option<int>
    decreases v.len(),
{
    if v.len() == 0 {
        None
    } else if v[0].id@ == id {
        Some(0)
    } else {
        match find_id(v.drop_first(), id) {
            Some(k) => Some(k + 1),
            None => None,
        }
    }
}

pub proof fn lemma_find_id(v: Seq<Server>, id: Seq<char>, i: int)
    requires
        0 <= i <= v.len(),
        forall|j: int| 0 <= j < i ==> (#[trigger] v[j]).id@ != id,
        i < v.len() ==> v[i].id@ == id,
    ensures
        find_id(v, id) == (if i < v.len() { Some(i) } else { None::<int> }),
    decreases i,
{
    if i > 0 {
        let t = v.drop_first();
        assert forall|j: int| 0 <= j < i - 1 implies (#[trigger] t[j]).id@ != id by {
            assert(t[j] == v[j + 1]);
        }
        if i < v.len() {
            assert(t[i - 1] == v[i]);
        }
        lemma_find_id(t, id, i - 1);
    }
}

fn position(servers: &Vec<Server>, id: &String) -> (r: Option<usize>)
    ensures
        match r {
            Some(k) => k < servers@.len() && find_id(servers@, id@) == Some(k as int),
            None => find_id(servers@, id@) is None,
        },
{
    let mut i: usize = 0;
    while i < servers.len()
        invariant
            i <= servers@.len(),
            forall|j: int| 0 <= j < i ==> (#[trigger] servers@[j]).id@ != id@,
        decreases servers@.len() - i,
    {
        if servers[i].id == *id {
            proof {
                lemma_find_id(servers@, id@, i as int);
            }
            return Some(i);
        }
        i += 1;
    }
    proof {
        lemma_find_id(servers@, id@, i as int);
    }
    None
}

/// The definition kept by `upsert`: its directory as expanded, and the id and
/// creation time settled for it.
pub open spec fn kept_as(s: ServerRecord, dir: Seq<char>, id: Seq<char>, created_at: u64) -> ServerRecord {
    ServerRecord { dir: dir, id: id, created_at: created_at, ..s }
}

/// What `upsert` does. A definition needs a name, a command and an existing
/// directory. A blank id means a new server: its id is the name's slug,
/// settled against the ids already in use, it is stamped `now` and appended.
/// Otherwise it replaces the server with that id, keeping its creation time.
pub open spec fn upserted(
    before: Seq<Server>,
    server: ServerRecord,
    dir: Seq<char>,
    dir_exists: bool,
    now: u64,
    after: Seq<Server>,
    r: Result<ServerRecord, Seq<char>>,
) -> bool {
    if trim(server.name).len() == 0 {
        r == Err::<ServerRecord, Seq<char>>("A name is required."@) && records(after) == records(before)
    } else if trim(server.command).len() == 0 {
        r == Err::<ServerRecord, Seq<char>>("A command is required."@) && records(after) == records(before)
    } else if !dir_exists {
        r == Err::<ServerRecord, Seq<char>>(dir + " is not a directory."@) && records(after) == records(before)
    } else if server.id.len() == 0 {
        exists|id: Seq<char>|
            #![trigger is_settled(slugify_spec(server.name), ids_of(before), id)]
            is_settled(slugify_spec(server.name), ids_of(before), id) && r == Ok::<ServerRecord, Seq<char>>(
                kept_as(server, dir, id, now),
            ) && records(after) == records(before).push(kept_as(server, dir, id, now))
    } else {
        match find_id(before, server.id) {
            None => r == Err::<ServerRecord, Seq<char>>("No server called "@ + server.id + "."@) && records(after)
                == records(before),
            Some(k) => {
                let kept = kept_as(server, dir, server.id, before[k].created_at);
                r == Ok::<ServerRecord, Seq<char>>(kept) && records(after) == records(before).update(k, kept)
            },
        }
    }
}

pub open spec fn result_view(r: Result<Server, String>) -> Result<ServerRecord, Seq<char>> {
    match r {
        Ok(s) => Ok(s@),
        Err(e) => Err(e@),
    }
}

fn err_with(prefix: &str, middle: &str, suffix: &str) -> (e: String)
    ensures
        e@ == prefix@ + middle@ + suffix@,
{
    let mut v = chars_of(prefix);
    push_str(&mut v, middle);
    push_str(&mut v, suffix);
    string_of(v.as_slice())
}

fn server_ids(servers: &Vec<Server>) -> (ids: Vec<String>)
    ensures
        ids@.map_values(|s: String| s@) == ids_of(servers@),
{
    let mut ids: Vec<String> = Vec::new();
    let mut i: usize = 0;
    while i < servers.len()
        invariant
            i <= servers@.len(),
            ids@.map_values(|s: String| s@) == ids_of(servers@).take(i as int),
        decreases servers@.len() - i,
    {
        let ghost before = ids@.map_values(|s: String| s@);
        ids.push(servers[i].id.clone());
        assert(ids@.map_values(|s: String| s@) =~= before.push(servers@[i as int].id@));
        assert(ids_of(servers@).take(i + 1) =~= ids_of(servers@).take(i as int).push(servers@[i as int].id@));
        i += 1;
    }
    assert(ids_of(servers@).take(i as int) == ids_of(servers@));
    ids
}

/// Insert or update a server definition. `dir` is its directory with `~`
/// expanded, and `dir_exists` whether that is a directory.
pub fn upsert(servers: &mut Vec<Server>, server: Server, dir: String, dir_exists: bool, now: u64) -> (r: Result<Server, String>)
    requires
        old(servers)@.len() < usize::MAX,
    ensures
        upserted(old(servers)@, server@, dir@, dir_exists, now, final(servers)@, result_view(r)),
{
    let name = chars_of(server.name.as_str());
    if trim_ws(name.as_slice()).len() == 0 {
        return Err(string_of(chars_of("A name is required.").as_slice()));
    }
    let command = chars_of(server.command.as_str());
    if trim_ws(command.as_slice()).len() == 0 {
        return Err(string_of(chars_of("A command is required.").as_slice()));
    }
    if !dir_exists {
        return Err(not_a_directory(dir.as_str()));
    }
    if server.id.as_str().is_empty() {
        let base = slugify(server.name.as_str());
        let ids = server_ids(servers);
        assert(ids@.len() == ids@.map_values(|s: String| s@).len());
        let id = settle_id(base.as_str(), ids.as_slice());
        let kept = Server { id, dir, created_at: now, ..server };
        let ghost before = records(servers@);
        servers.push(kept.clone());
        assert(records(servers@) =~= before.push(kept@));
        assert(kept@ == kept_as(server@, dir@, kept.id@, now));
        Ok(kept)
    } else {
        match position(servers, &server.id) {
            None => Err(err_with("No server called ", server.id.as_str(), ".")),
            Some(k) => {
                let created_at = servers[k].created_at;
                let kept = Server { dir, created_at, ..server };
                let ghost before = records(servers@);
                servers.set(k, kept.clone());
                assert(records(servers@) =~= before.update(k as int, kept@));
                Ok(kept)
            },
        }
    }
}

/// Forgets the server with id `id`.
pub fn remove_server(servers: &mut Vec<Server>, id: &str)
    ensures
        records(final(servers)@) == records(old(servers)@.filter(|s: Server| s.id@ != id@)),
{
    let ghost keep = |s: Server| s.id@ != id@;
    let mut out: Vec<Server> = Vec::new();
    let mut i: usize = 0;
    while i < servers.len()
        invariant
            i <= servers@.len(),
            keep == (|s: Server| s.id@ != id@),
            records(out@) == records(servers@.take(i as int).filter(keep)),
        decreases servers@.len() - i,
    {
        let s = &servers[i];
        assert(servers@.take(i + 1).drop_last() == servers@.take(i as int));
        assert(servers@.take(i + 1).last() == *s);
        reveal(Seq::filter);
        let sid = chars_of(s.id.as_str());
        let target = chars_of(id);
        if !crate::text::seq_eq(sid.as_slice(), target.as_slice()) {
            let ghost before = records(out@);
            out.push(s.clone());
            assert(records(out@) =~= before.push(s@));
            assert(records(servers@.take(i + 1).filter(keep)) =~= records(servers@.take(i as int).filter(keep)).push(s@));
        }
        i += 1;
    }
    assert(servers@.take(i as int) == servers@);
    *servers = out;
}

/// Points the server with id `id` at `dir`. `Ok(false)` when it already
/// points there (paths compared by component), `Ok(true)` when it moved.
pub fn switch_dir(servers: &mut Vec<Server>, id: &str, dir: &str) -> (r: Result<bool, String>)
    ensures
        match find_id(old(servers)@, id@) {
            None => r is Err && r->Err_0@ == "No server called "@ + id@ + "."@ && records(final(servers)@) == records(old(servers)@),
            Some(k) => if path_eq(old(servers)@[k].dir@, dir@) {
                r == Ok::<bool, String>(false) && records(final(servers)@) == records(old(servers)@)
            } else {
                r == Ok::<bool, String>(true) && records(final(servers)@) == records(old(servers)@).update(
                    k,
                    ServerRecord { dir: dir@, ..old(servers)@[k]@ },
                )
            },
        },
{
    let key = string_of(chars_of(id).as_slice());
    match position(servers, &key) {
        None => Err(err_with("No server called ", id, ".")),
        Some(k) => {
            if crate::git::same_path(servers[k].dir.as_str(), dir) {
                Ok(false)
            } else {
                let moved = Server { dir: string_of(chars_of(dir).as_slice()), ..servers[k].clone() };
                let ghost before = records(servers@);
                servers.set(k, moved);
                assert(records(servers@) =~= before.update(k as int, ServerRecord { dir: dir@, ..before[k as int] }));
                Ok(true)
            }
        },
    }
}

} // verus!

verus! {

// ---- projects -------------------------------------------------------------------------

/// Project names in order of first appearance among the servers, skipping
/// ungrouped ones and repeats.
pub open spec fn group_names(v: Seq<Server>) -> Seq<Seq<char>>
    decreases v.len(),
{
    if v.len() == 0 {
        Seq::empty()
    } else {
        let prev = group_names(v.drop_last());
        let g = v.last().group@;
        if g.len() == 0 || prev.contains(g) {
            prev
        } else {
            prev.push(g)
        }
    }
}

/// The icon stored for project `name`: that of the first record with the
/// name, or empty.
pub open spec fn stored_icon(stored: Seq<Group>, name: Seq<char>) -> Seq<char>
    decreases stored.len(),
{
    if stored.len() == 0 {
        Seq::empty()
    } else if stored[0].name@ == name {
        stored[0].icon@
    } else {
        stored_icon(stored.drop_first(), name)
    }
}

pub open spec fn group_views(v: Seq<Group>) -> Seq<(Seq<char>, Seq<char>)> {
    v.map_values(|g: Group| (g.name@, g.icon@))
}

fn icon_for(stored: &Vec<Group>, name: &String) -> (icon: String)
    ensures
        icon@ == stored_icon(stored@, name@),
{
    let mut i: usize = 0;
    assert(stored@.subrange(0, stored@.len() as int) =~= stored@);
    while i < stored.len()
        invariant
            i <= stored@.len(),
            stored_icon(stored@, name@) == stored_icon(stored@.subrange(i as int, stored@.len() as int), name@),
        decreases stored@.len() - i,
    {
        let ghost rest = stored@.subrange(i as int, stored@.len() as int);
        assert(rest.drop_first() =~= stored@.subrange(i + 1, stored@.len() as int));
        if stored[i].name == *name {
            return stored[i].icon.clone();
        }
        i += 1;
    }
    proof {
        reveal_strlit("");
        assert(stored@.subrange(i as int, stored@.len() as int).len() == 0);
    }
    string_of(chars_of("").as_slice())
}

fn has_name(out: &Vec<Group>, name: &String) -> (b: bool)
    ensures
        b == group_views(out@).map_values(|p: (Seq<char>, Seq<char>)| p.0).contains(name@),
{
    let ghost names = group_views(out@).map_values(|p: (Seq<char>, Seq<char>)| p.0);
    let mut i: usize = 0;
    while i < out.len()
        invariant
            i <= out@.len(),
            names == group_views(out@).map_values(|p: (Seq<char>, Seq<char>)| p.0),
            names.len() == out@.len(),
            forall|j: int| 0 <= j < i ==> names[j] != name@,
        decreases out@.len() - i,
    {
        if out[i].name == *name {
            assert(names[i as int] == name@);
            return true;
        }
        i += 1;
    }
    false
}

/// Every project that currently has members, in first-appearance order,
/// carrying its stored icon if it has one.
pub fn groups(servers: &Vec<Server>, stored: &Vec<Group>) -> (out: Vec<Group>)
    ensures
        out@.len() == group_names(servers@).len(),
        forall|i: int|
            0 <= i < out@.len() ==> (#[trigger] out@[i]).name@ == group_names(servers@)[i] && out@[i].icon@
                == stored_icon(stored@, group_names(servers@)[i]),
{
    let mut out: Vec<Group> = Vec::new();
    let mut i: usize = 0;
    while i < servers.len()
        invariant
            i <= servers@.len(),
            group_views(out@).map_values(|p: (Seq<char>, Seq<char>)| p.0) == group_names(servers@.take(i as int)),
            forall|j: int|
                0 <= j < out@.len() ==> (#[trigger] out@[j]).icon@ == stored_icon(stored@, out@[j].name@),
        decreases servers@.len() - i,
    {
        let ghost prev = group_views(out@).map_values(|p: (Seq<char>, Seq<char>)| p.0);
        assert(servers@.take(i + 1).drop_last() =~= servers@.take(i as int));
        assert(servers@.take(i + 1).last() == servers@[i as int]);
        let name = &servers[i].group;
        if !name.as_str().is_empty() && !has_name(&out, name) {
            let icon = icon_for(stored, name);
            out.push(Group { name: name.clone(), icon });
            assert(group_views(out@).map_values(|p: (Seq<char>, Seq<char>)| p.0) =~= prev.push(name@));
        }
        i += 1;
    }
    assert(servers@.take(i as int) =~= servers@);
    proof {
        let names = group_views(out@).map_values(|p: (Seq<char>, Seq<char>)| p.0);
        assert forall|j: int| 0 <= j < out@.len() implies (#[trigger] out@[j]).name@ == group_names(servers@)[j] by {
            assert(names[j] == out@[j].name@);
        }
    }
    out
}

/// Position of the first record named `name`.
pub open spec fn find_group(v: Seq<Group>, name: Seq<char>) -> Option<int>
    decreases v.len(),
{
    if v.len() == 0 {
        None
    } else if v[0].name@ == name {
        Some(0)
    } else {
        match find_group(v.drop_first(), name) {
            Some(k) => Some(k + 1),
            None => None,
        }
    }
}

proof fn lemma_find_group(v: Seq<Group>, name: Seq<char>, i: int)
    requires
        0 <= i <= v.len(),
        forall|j: int| 0 <= j < i ==> (#[trigger] v[j]).name@ != name,
        i < v.len() ==> v[i].name@ == name,
    ensures
        find_group(v, name) == (if i < v.len() { Some(i) } else { None::<int> }),
    decreases i,
{
    if i > 0 {
        let t = v.drop_first();
        assert forall|j: int| 0 <= j < i - 1 implies (#[trigger] t[j]).name@ != name by {
            assert(t[j] == v[j + 1]);
        }
        if i < v.len() {
            assert(t[i - 1] == v[i]);
        }
        lemma_find_group(t, name, i - 1);
    }
}

/// Gives project `name` the icon `icon`: the first record of that name is
/// changed, or a new record is added at the end.
pub fn set_group_icon(groups: &mut Vec<Group>, name: &str, icon: &str)
    requires
        old(groups)@.len() < usize::MAX,
    ensures
        match find_group(old(groups)@, name@) {
            Some(k) => group_views(final(groups)@) == group_views(old(groups)@).update(k, (name@, icon@)),
            None => group_views(final(groups)@) == group_views(old(groups)@).push((name@, icon@)),
        },
{
    let key = string_of(chars_of(name).as_slice());
    let value = string_of(chars_of(icon).as_slice());
    let mut i: usize = 0;
    while i < groups.len()
        invariant
            i <= groups@.len(),
            groups@ == old(groups)@,
            key@ == name@,
            value@ == icon@,
            forall|j: int| 0 <= j < i ==> (#[trigger] groups@[j]).name@ != name@,
        decreases groups@.len() - i,
    {
        if groups[i].name == key {
            proof {
                lemma_find_group(groups@, name@, i as int);
            }
            let ghost before = group_views(groups@);
            let g = Group { name: key, icon: value };
            groups.set(i, g);
            assert(group_views(groups@) =~= before.update(i as int, (name@, icon@)));
            return;
        }
        i += 1;
    }
    proof {
        lemma_find_group(groups@, name@, i as int);
    }
    let ghost before = group_views(groups@);
    groups.push(Group { name: key, icon: value });
    assert(group_views(groups@) =~= before.push((name@, icon@)));
}

} // verus!

verus! {

// ---- lookups and lifecycle decisions ---------------------------------------------------

/// The server with id `id`, if there is one.
pub fn get(servers: &Vec<Server>, id: &str) -> (r: Option<Server>)
    ensures
        match find_id(servers@, id@) {
            Some(k) => r is Some && r->0@ == servers@[k]@,
            None => r is None,
        },
{
    let key = string_of(chars_of(id).as_slice());
    match position(servers, &key) {
        Some(k) => Some(servers[k].clone()),
        None => None,
    }
}

/// Position of the first runtime that belongs to server `id`.
pub open spec fn find_runtime(v: Seq<Runtime>, id: Seq<char>) -> Option<int>
    decreases v.len(),
{
    if v.len() == 0 {
        None
    } else if v[0].status.id@ == id {
        Some(0)
    } else {
        match find_runtime(v.drop_first(), id) {
            Some(k) => Some(k + 1),
            None => None,
        }
    }
}

proof fn lemma_find_runtime(v: Seq<Runtime>, id: Seq<char>, i: int)
    requires
        0 <= i <= v.len(),
        forall|j: int| 0 <= j < i ==> (#[trigger] v[j]).status.id@ != id,
        i < v.len() ==> v[i].status.id@ == id,
    ensures
        find_runtime(v, id) == (if i < v.len() { Some(i) } else { None::<int> }),
    decreases i,
{
    if i > 0 {
        let t = v.drop_first();
        assert forall|j: int| 0 <= j < i - 1 implies (#[trigger] t[j]).status.id@ != id by {
            assert(t[j] == v[j + 1]);
        }
        if i < v.len() {
            assert(t[i - 1] == v[i]);
        }
        lemma_find_runtime(t, id, i - 1);
    }
}

/// Where the runtime of server `id` is kept, if it has one.
pub fn runtime_index(rts: &Vec<Runtime>, id: &str) -> (r: Option<usize>)
    ensures
        match r {
            Some(k) => k < rts@.len() && find_runtime(rts@, id@) == Some(k as int) && rts@[k as int].status.id@ == id@,
            None => find_runtime(rts@, id@) is None,
        },
{
    let key = string_of(chars_of(id).as_slice());
    let mut i: usize = 0;
    while i < rts.len()
        invariant
            i <= rts@.len(),
            key@ == id@,
            forall|j: int| 0 <= j < i ==> (#[trigger] rts@[j]).status.id@ != id@,
        decreases rts@.len() - i,
    {
        if rts[i].status.id == key {
            proof {
                lemma_find_runtime(rts@, id@, i as int);
            }
            return Some(i);
        }
        i += 1;
    }
    proof {
        lemma_find_runtime(rts@, id@, i as int);
    }
    None
}

/// Whether server `id` has a live run.
pub open spec fn live_in(rts: Seq<Runtime>, id: Seq<char>) -> bool {
    match find_runtime(rts, id) {
        Some(k) => live(rts[k].status.state),
        None => false,
    }
}

pub fn is_live(rts: &Vec<Runtime>, id: &str) -> (b: bool)
    ensures
        b == live_in(rts@, id@),
{
    match runtime_index(rts, id) {
        Some(k) => rts[k].status.state.is_live(),
        None => false,
    }
}

/// The status of server `s` as `rts` knows it.
pub open spec fn status_in(rts: Seq<Runtime>, s: Server, st: Status) -> bool {
    match find_runtime(rts, s.id@) {
        Some(k) => st == rts[k].status,
        None => crate::model::stopped_status(st, s.id@),
    }
}

/// One status per server, in the servers' order: that of its runtime, or
/// stopped where it has none.
pub fn statuses(servers: &Vec<Server>, rts: &Vec<Runtime>) -> (out: Vec<Status>)
    ensures
        out@.len() == servers@.len(),
        forall|i: int| 0 <= i < out@.len() ==> status_in(rts@, servers@[i], #[trigger] out@[i]),
{
    let mut out: Vec<Status> = Vec::new();
    let mut i: usize = 0;
    while i < servers.len()
        invariant
            i <= servers@.len(),
            out@.len() == i,
            forall|j: int| 0 <= j < i ==> status_in(rts@, servers@[j], #[trigger] out@[j]),
        decreases servers@.len() - i,
    {
        let st = match runtime_index(rts, servers[i].id.as_str()) {
            Some(k) => rts[k].status.clone(),
            None => Status::stopped(servers[i].id.as_str()),
        };
        out.push(st);
        i += 1;
    }
    out
}

/// Whether server `id` may be started: `Ok` with its definition when it
/// exists and is not already live.
pub fn start(servers: &Vec<Server>, rts: &Vec<Runtime>, id: &str) -> (r: Result<Server, String>)
    ensures
        match find_id(servers@, id@) {
            None => r is Err && r->Err_0@ == "No server called "@ + id@ + "."@,
            Some(k) => if live_in(rts@, id@) {
                r is Err && r->Err_0@ == servers@[k].name@ + " is already running."@
            } else {
                r is Ok && r->Ok_0@ == servers@[k]@
            },
        },
{
    match get(servers, id) {
        None => Err(err_with("No server called ", id, ".")),
        Some(server) => {
            if is_live(rts, id) {
                let e = err_with("", server.name.as_str(), " is already running.");
                proof {
                    reveal_strlit("");
                    assert(""@ + server.name@ =~= server.name@);
                }
                Err(e)
            } else {
                Ok(server)
            }
        },
    }
}

/// Asks server `id` to stop (see `Runtime::request_stop`).
pub fn stop(rts: &mut Vec<Runtime>, id: &str) -> (r: Result<StopRequest, String>)
    ensures
        match find_runtime(old(rts)@, id@) {
            None => r is Err && r->Err_0@ == "No server called "@ + id@ + "."@ && final(rts)@ == old(rts)@,
            Some(k) => {
                &&& final(rts)@.len() == old(rts)@.len()
                &&& forall|j: int| 0 <= j < old(rts)@.len() && j != k ==> final(rts)@[j] == old(rts)@[j]
                &&& if !live(old(rts)@[k].status.state) {
                    r == Ok::<StopRequest, String>(StopRequest::NotRunning) && final(rts)@[k] == old(rts)@[k]
                } else {
                    &&& r == Ok::<StopRequest, String>(StopRequest::Signal(old(rts)@[k].pgid))
                    &&& final(rts)@[k] == Runtime { stopping: true, ..old(rts)@[k] }
                }
            },
        },
{
    match runtime_index(rts, id) {
        None => Err(err_with("No server called ", id, ".")),
        Some(k) => {
            let mut slot = rts.remove(k);
            let ghost taken = slot;
            let out = slot.request_stop();
            assert(live(taken.status.state) ==> slot == Runtime { stopping: true, ..taken });
            rts.insert(k, slot);
            assert(rts@ =~= old(rts)@.update(k as int, slot));
            Ok(out)
        },
    }
}

/// What quitting does to every runtime: each is marked as stopping and
/// gives up its process group.
pub open spec fn shut_down(r: Runtime) -> Runtime {
    Runtime { stopping: true, pgid: None, ..r }
}

/// The process groups held, in order.
pub open spec fn held_groups(v: Seq<Runtime>) -> Seq<i32>
    decreases v.len(),
{
    if v.len() == 0 {
        Seq::empty()
    } else {
        let prev = held_groups(v.drop_last());
        match v.last().pgid {
            Some(g) => prev.push(g),
            None => prev,
        }
    }
}

/// Marks every run as stopping and takes its process group; returns the
/// groups to signal.
pub fn shutdown(rts: &mut Vec<Runtime>) -> (groups: Vec<i32>)
    ensures
        groups@ == held_groups(old(rts)@),
        final(rts)@ == old(rts)@.map_values(|r: Runtime| shut_down(r)),
{
    let mut groups: Vec<i32> = Vec::new();
    let mut i: usize = 0;
    while i < rts.len()
        invariant
            i <= rts@.len(),
            rts@.len() == old(rts)@.len(),
            groups@ == held_groups(old(rts)@.take(i as int)),
            forall|j: int| 0 <= j < i ==> rts@[j] == shut_down(#[trigger] old(rts)@[j]),
            forall|j: int| i <= j < rts@.len() ==> rts@[j] == #[trigger] old(rts)@[j],
        decreases rts@.len() - i,
    {
        assert(old(rts)@.take(i + 1).drop_last() =~= old(rts)@.take(i as int));
        let mut slot = rts.remove(i);
        if let Some(g) = slot.pgid {
            groups.push(g);
        }
        slot.stopping = true;
        slot.pgid = None;
        rts.insert(i, slot);
        i += 1;
    }
    assert(old(rts)@.take(i as int) =~= old(rts)@);
    assert(rts@ =~= old(rts)@.map_values(|r: Runtime| shut_down(r)));
    groups
}

} // verus!

verus! {

/// The runtime of server `id`, made fresh if it has none yet. Returns where
/// it is kept.
pub fn runtime_slot(rts: &mut Vec<Runtime>, id: &str) -> (k: usize)
    requires
        old(rts)@.len() < usize::MAX,
    ensures
        k < final(rts)@.len(),
        final(rts)@[k as int].status.id@ == id@,
        match find_runtime(old(rts)@, id@) {
            Some(j) => k == j && final(rts)@ == old(rts)@,
            None => {
                &&& k == old(rts)@.len()
                &&& final(rts)@.drop_last() == old(rts)@
                &&& crate::model::stopped_status(final(rts)@[k as int].status, id@)
                &&& final(rts)@[k as int].pgid is None
                &&& !final(rts)@[k as int].stopping
                &&& final(rts)@[k as int].generation == 0
                &&& final(rts)@[k as int].restart_window_start == 0
            },
        },
{
    match runtime_index(rts, id) {
        Some(k) => k,
        None => {
            rts.push(Runtime::new(id));
            assert(rts@.drop_last() =~= old(rts)@);
            rts.len() - 1
        },
    }
}

/// Forgets the runtime of server `id`.
pub fn remove_runtime(rts: &mut Vec<Runtime>, id: &str)
    ensures
        final(rts)@ == old(rts)@.filter(|r: Runtime| r.status.id@ != id@),
{
    let ghost keep = |r: Runtime| r.status.id@ != id@;
    let key = string_of(chars_of(id).as_slice());
    let mut out: Vec<Runtime> = Vec::new();
    while rts.len() > 0
        invariant
            keep == (|r: Runtime| r.status.id@ != id@),
            key@ == id@,
            old(rts)@.filter(keep) == out@ + rts@.filter(keep),
        decreases rts@.len(),
    {
        let ghost whole = rts@;
        let r = rts.remove(0);
        let ghost rest = rts@;
        proof {
            assert(whole =~= seq![r] + rest);
            crate::text::lemma_filter_cons(r, rest, keep);
        }
        if r.status.id != key {
            out.push(r);
        }
        assert(old(rts)@.filter(keep) =~= out@ + rts@.filter(keep));
    }
    proof {
        reveal(Seq::filter);
        assert(rts@.filter(keep) =~= Seq::<Runtime>::empty());
    }
    assert(out@ =~= old(rts)@.filter(keep));
    *rts = out;
}

} // verus!

verus! {

// ---- waiting for a port, and what the log says --------------------------------------

/// Where a server stands for someone waiting for it to listen.
#[derive(Debug)]
pub enum Readiness {
    /// It has a port.
    Ready,
    /// It ended before it got one; the message says how.
    Failed(String),
    /// Neither yet (or it has no status at all): keep waiting.
    Waiting,
}

pub enum ReadinessView {
    Ready,
    Failed(Seq<char>),
    Waiting,
}

pub open spec fn readiness_view(r: Readiness) -> ReadinessView {
    match r {
        Readiness::Ready => ReadinessView::Ready,
        Readiness::Failed(m) => ReadinessView::Failed(m@),
        Readiness::Waiting => ReadinessView::Waiting,
    }
}

/// A status of server `id`.
pub open spec fn status_of(id: Seq<char>) -> spec_fn(Status) -> bool {
    |s: Status| s.id@ == id
}

/// What the first status of server `id` says to someone waiting for it.
pub open spec fn readiness_of(statuses: Seq<Status>, id: Seq<char>) -> ReadinessView {
    match crate::cli::first_index(statuses, status_of(id)) {
        Some(j) => {
            let s = statuses[j];
            if s.port is Some {
                ReadinessView::Ready
            } else if s.state == State::Crashed {
                ReadinessView::Failed(
                    match s.exit_code {
                        Some(c) => id + " exited with code "@ + signed_decimal(c as int) + " while starting."@,
                        None => id + " stopped while starting."@,
                    },
                )
            } else if s.state == State::Stopped {
                ReadinessView::Failed(id + " stopped before it was ready."@)
            } else {
                ReadinessView::Waiting
            }
        },
        None => ReadinessView::Waiting,
    }
}

/// One look at the statuses on behalf of someone blocked until server `id`
/// listens, so an agent can start one and immediately reach it.
pub fn ready_check(statuses: &[Status], id: &str) -> (r: Readiness)
    ensures
        readiness_view(r) == readiness_of(statuses@, id@),
{
    let ghost p = status_of(id@);
    let key = string_of(chars_of(id).as_slice());
    let n = statuses.len();
    let mut i: usize = 0;
    while i < n
        invariant
            i <= n,
            n == statuses@.len(),
            key@ == id@,
            p == status_of(id@),
            forall|j: int| 0 <= j < i ==> !p(#[trigger] statuses@[j]),
        decreases n - i,
    {
        if statuses[i].id == key {
            proof {
                crate::cli::lemma_first_index(statuses@, p, i as int);
            }
            let s = &statuses[i];
            if s.port.is_some() {
                return Readiness::Ready;
            } else if s.state == State::Crashed {
                let mut v = chars_of(id);
                match s.exit_code {
                    Some(c) => {
                        push_str(&mut v, " exited with code ");
                        push_signed(&mut v, c as i64);
                        push_str(&mut v, " while starting.");
                    },
                    None => {
                        push_str(&mut v, " stopped while starting.");
                    },
                }
                return Readiness::Failed(string_of(v.as_slice()));
            } else if s.state == State::Stopped {
                let m = err_with("", id, " stopped before it was ready.");
                proof {
                    reveal_strlit("");
                    assert(""@ + id@ =~= id@);
                }
                return Readiness::Failed(m);
            } else {
                return Readiness::Waiting;
            }
        }
        i += 1;
    }
    proof {
        crate::cli::lemma_first_index(statuses@, p, i as int);
    }
    Readiness::Waiting
}

/// The line a run's log starts with: `$ npm run dev — in ~/code/api`.
pub fn spawn_banner(command: &str, shown_dir: &str) -> (m: String)
    ensures
        m@ == "$ "@ + command@ + " — in "@ + shown_dir@,
{
    let mut v = chars_of("$ ");
    push_str(&mut v, command);
    push_str(&mut v, " — in ");
    push_str(&mut v, shown_dir);
    string_of(v.as_slice())
}

/// Why a server whose directory has gone cannot start.
pub fn gone_message(dir: &str) -> (m: String)
    ensures
        m@ == dir@ + " no longer exists."@,
{
    let mut v = chars_of(dir);
    push_str(&mut v, " no longer exists.");
    string_of(v.as_slice())
}

/// What the log says when auto-restart stops trying.
pub fn gave_up_message() -> (m: String)
    ensures
        m@ == "Gave up restarting — it's failing too fast. Fix it and start again."@,
{
    string_of(chars_of("Gave up restarting — it's failing too fast. Fix it and start again.").as_slice())
}

pub open spec fn pair_views(v: Seq<(String, String)>) -> Seq<(Seq<char>, Seq<char>)> {
    v.map_values(|e: (String, String)| (e.0@, e.1@))
}

/// The environment a run gets, as assignments made in order (a later one
/// wins): the login shell's `PATH` where it is known, so commands like `npm`
/// are found from a Finder-launched app; the server's own variables; then
/// `CUCINA=1` and `FORCE_COLOR=0`.
pub open spec fn child_env_spec(path: Option<Seq<char>>, env: Seq<(Seq<char>, Seq<char>)>) -> Seq<(Seq<char>, Seq<char>)> {
    let head = match path {
        Some(p) => seq![("PATH"@, p)],
        None => Seq::empty(),
    };
    head + env + seq![("CUCINA"@, "1"@), ("FORCE_COLOR"@, "0"@)]
}

pub fn child_env(path: Option<String>, env: &Vec<(String, String)>) -> (out: Vec<(String, String)>)
    ensures
        pair_views(out@) == child_env_spec(crate::paths::var_view(path), pair_views(env@)),
{
    let ghost pv = crate::paths::var_view(path);
    let mut out: Vec<(String, String)> = Vec::new();
    match path {
        Some(p) => out.push((string_of(chars_of("PATH").as_slice()), p)),
        None => {},
    }
    let ghost head = pair_views(out@);
    assert(head =~= match pv {
        Some(p) => seq![("PATH"@, p)],
        None => Seq::<(Seq<char>, Seq<char>)>::empty(),
    });
    let n = env.len();
    let mut i: usize = 0;
    while i < n
        invariant
            i <= n,
            n == env@.len(),
            pair_views(out@) == head + pair_views(env@).take(i as int),
        decreases n - i,
    {
        let ghost before = pair_views(out@);
        out.push((env[i].0.clone(), env[i].1.clone()));
        assert(pair_views(out@) =~= before.push(pair_views(env@)[i as int]));
        assert(pair_views(env@).take(i + 1) =~= pair_views(env@).take(i as int).push(pair_views(env@)[i as int]));
        i += 1;
    }
    assert(pair_views(env@).take(n as int) =~= pair_views(env@));
    out.push((string_of(chars_of("CUCINA").as_slice()), string_of(chars_of("1").as_slice())));
    out.push((string_of(chars_of("FORCE_COLOR").as_slice()), string_of(chars_of("0").as_slice())));
    assert(pair_views(out@) =~= child_env_spec(pv, pair_views(env@)));
    out
}

} // verus!

verus! {

/// Why a directory cannot be used.
pub fn not_a_directory(dir: &str) -> (m: String)
    ensures
        m@ == dir@ + " is not a directory."@,
{
    let mut v = chars_of(dir);
    push_str(&mut v, " is not a directory.");
    string_of(v.as_slice())
}

/// Whether a stop of server `id` has finished: it has a runtime, and the
/// run is no longer live.
pub open spec fn settled_in(rts: Seq<Runtime>, id: Seq<char>) -> bool {
    match find_runtime(rts, id) {
        Some(k) => !live(rts[k].status.state),
        None => false,
    }
}

pub fn has_settled(rts: &Vec<Runtime>, id: &str) -> (b: bool)
    ensures
        b == settled_in(rts@, id@),
{
    match runtime_index(rts, id) {
        Some(k) => !rts[k].status.state.is_live(),
        None => false,
    }
}

/// The servers started when the app launches: those marked auto-start, in
/// order.
pub fn auto_start_ids(servers: &Vec<Server>) -> (ids: Vec<String>)
    ensures
        ids@.map_values(|s: String| s@) == servers@.filter(|s: Server| s.auto_start).map_values(|s: Server| s.id@),
{
    let ghost p = |s: Server| s.auto_start;
    let ghost f = |s: Server| s.id@;
    let n = servers.len();
    let mut ids: Vec<String> = Vec::new();
    let mut i: usize = 0;
    while i < n
        invariant
            i <= n,
            n == servers@.len(),
            p == (|s: Server| s.auto_start),
            f == (|s: Server| s.id@),
            ids@.map_values(|s: String| s@) == servers@.take(i as int).filter(p).map_values(f),
        decreases n - i,
    {
        proof {
            reveal(Seq::filter);
            assert(servers@.take(i + 1).drop_last() =~= servers@.take(i as int));
        }
        if servers[i].auto_start {
            let ghost before = ids@.map_values(|s: String| s@);
            ids.push(servers[i].id.clone());
            assert(ids@.map_values(|s: String| s@) =~= before.push(servers@[i as int].id@));
            assert(servers@.take(i + 1).filter(p).map_values(f) =~= servers@.take(i as int).filter(p).map_values(f).push(
                f(servers@[i as int]),
            ));
        }
        i += 1;
    }
    assert(servers@.take(n as int) =~= servers@);
    ids
}

} // verus!

verus! {

/// What follows pointing a server at a directory.
#[derive(Debug, PartialEq, Eq, Structural, Clone, Copy)]
pub struct SwitchPlan {
    /// Write the definitions back: the directory changed.
    pub save: bool,
    /// Tell listeners the servers changed.
    pub announce: bool,
    /// Start the server again.
    pub start_again: bool,
}

/// A server left running from a directory you have navigated away from is a
/// trap, so one that was live (and has been stopped for the move) is started
/// again in its new home, whether or not the directory actually changed. One
/// that was already idle stays idle. Only a real move is saved and announced.
pub fn after_switch(was_live: bool, moved: bool) -> (plan: SwitchPlan)
    ensures
        plan.save == moved,
        plan.announce == moved,
        plan.start_again == was_live,
{
    SwitchPlan { save: moved, announce: moved, start_again: was_live }
}

} // verus!
