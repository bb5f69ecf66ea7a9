//! The shapes the app, the CLI and the MCP server exchange over the socket.
use vstd::prelude::*;
use crate::model::{LogLine, Origin, Run, Server, Status};

verus! {

/// One server, definition plus live state — what both the UI and the CLI want.
#[derive(Debug)]
pub struct ServerView {
    pub server: Server,
    pub status: Status,
}

impl Clone for ServerView {
    fn clone(&self) -> (r: Self)
        ensures
            r.server@ == self.server@,
            r.status == self.status,
    {
        ServerView { server: self.server.clone(), status: self.status.clone() }
    }
}

/// A task run and what it has printed. One shape, so the output box and an
/// agent polling a run are reading the same thing.
#[derive(Debug)]
pub struct RunView {
    /// `None` when this server has never run a task.
    pub run: Option<Run>,
    pub lines: Vec<LogLine>,
}

#[derive(Debug)]
pub enum Request {
    Ping,
    /// Bring the existing window forward.
    Show,
    List,
    Start {
        id: String,
        origin: Origin,
        /// Block until the server is listening, up to this many milliseconds.
        wait_ms: Option<u64>,
    },
    Stop { id: String },
    Restart { id: String, origin: Origin, wait_ms: Option<u64> },
    Logs { id: String, tail: Option<usize> },
    Add { server: Server },
    Remove { id: String },
    /// Point a server at another directory, restarting it there if it was up.
    Switch { id: String, path: String },
    /// Every task kept on a server.
    Tasks { id: String },
    /// Keep a command without running it.
    AddTask { id: String, command: String },
    RemoveTask { id: String, task_id: String },
    RunTask { id: String, task_id: String, origin: Origin },
    /// Run a command not saved yet, adding it to the list.
    RunCommand { id: String, command: String, origin: Origin },
    /// The current or most recent run for a server, with its output.
    Run { id: String, tail: Option<usize> },
    StopRun { run_id: String },
    /// What this server's directory offers, read from its manifests.
    SuggestTasks { id: String },
    /// Look at what is listening right now.
    Strays,
    StopStray { pid: u32 },
}

pub open spec fn paired(servers: Seq<Server>, statuses: Seq<Status>, views: Seq<ServerView>) -> bool {
    &&& views.len() == (if servers.len() <= statuses.len() {
        servers.len()
    } else {
        statuses.len()
    })
    &&& forall|k: int|
        0 <= k < views.len() ==> (#[trigger] views[k]).server@ == servers[k]@ && views[k].status
            == statuses[k]
}

/// Each server with its status, in order.
pub fn views(servers: &[Server], statuses: &[Status]) -> (out: Vec<ServerView>)
    ensures
        paired(servers@, statuses@, out@),
{
    let mut out: Vec<ServerView> = Vec::new();
    let mut i: usize = 0;
    while i < servers.len() && i < statuses.len()
        invariant
            i <= servers@.len(),
            i <= statuses@.len(),
            out@.len() == i,
            forall|k: int|
                0 <= k < i ==> (#[trigger] out@[k]).server@ == servers@[k]@ && out@[k].status
                    == statuses@[k],
        decreases servers@.len() - i,
    {
        out.push(ServerView { server: servers[i].clone(), status: statuses[i].clone() });
        i += 1;
    }
    out
}

} // verus!
