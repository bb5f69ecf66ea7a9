//! What lives on disk, and what is kept of it when it is written back.
//! Reading and writing the file, and the JSON itself, are the caller's part.
use vstd::prelude::*;
use crate::model::{Group, Server, Task};

verus! {

/// What lives on disk. Hand-editable on purpose.
#[derive(Debug)]
pub struct Document {
    pub servers: Vec<Server>,
    pub groups: Vec<Group>,
    /// Tasks keyed by server id, in ascending key order with no key twice.
    /// Deliberately not a field on `Server`: the editor round-trips a whole
    /// server, and a frontend that did not know about tasks would send the
    /// record back without them and silently delete the lot.
    pub tasks: Vec<(String, Vec<Task>)>,
}

impl Default for Document {
    fn default() -> (d: Document)
        ensures
            d.servers@.len() == 0,
            d.groups@.len() == 0,
            d.tasks@.len() == 0,
    {
        Document { servers: Vec::new(), groups: Vec::new(), tasks: Vec::new() }
    }
}

/// Whether some server belongs to project `name`.
pub open spec fn has_member(servers: Seq<Server>, name: Seq<char>) -> bool {
    exists|i: int| 0 <= i < servers.len() && (#[trigger] servers[i]).group@ == name
}

/// Whether some server has id `id`.
pub open spec fn has_server(servers: Seq<Server>, id: Seq<char>) -> bool {
    exists|i: int| 0 <= i < servers.len() && (#[trigger] servers[i]).id@ == id
}

/// The project records worth keeping.
pub open spec fn kept_group(servers: Seq<Server>) -> spec_fn(Group) -> bool {
    |g: Group| has_member(servers, g.name@)
}

fn member_exists(servers: &[Server], name: &String) -> (b: bool)
    ensures
        b == has_member(servers@, name@),
{
    let mut i: usize = 0;
    let n = servers.len();
    while i < n
        invariant
            i <= n,
            n == servers@.len(),
            forall|j: int| 0 <= j < i ==> (#[trigger] servers@[j]).group@ != name@,
        decreases n - i,
    {
        if servers[i].group == *name {
            return true;
        }
        i += 1;
    }
    false
}

fn server_exists(servers: &[Server], id: &String) -> (b: bool)
    ensures
        b == has_server(servers@, id@),
{
    let mut i: usize = 0;
    let n = servers.len();
    while i < n
        invariant
            i <= n,
            n == servers@.len(),
            forall|j: int| 0 <= j < i ==> (#[trigger] servers@[j]).id@ != id@,
        decreases n - i,
    {
        if servers[i].id == *id {
            return true;
        }
        i += 1;
    }
    false
}

/// Drops records for projects nothing belongs to any more.
pub fn prune_groups(servers: &[Server], groups: &[Group]) -> (kept: Vec<Group>)
    ensures
        kept@ == groups@.filter(kept_group(servers@)),
{
    let ghost keep = kept_group(servers@);
    let mut kept: Vec<Group> = Vec::new();
    let mut i: usize = 0;
    let n = groups.len();
    while i < n
        invariant
            i <= n,
            n == groups@.len(),
            keep == kept_group(servers@),
            kept@ == groups@.take(i as int).filter(keep),
        decreases n - i,
    {
        proof {
            reveal(Seq::filter);
            assert(groups@.take(i + 1).drop_last() =~= groups@.take(i as int));
        }
        if member_exists(servers, &groups[i].name) {
            kept.push(groups[i].clone());
        }
        i += 1;
    }
    assert(groups@.take(n as int) =~= groups@);
    kept
}

fn clone_tasks(v: &Vec<Task>) -> (r: Vec<Task>)
    ensures
        r@ == v@,
{
    let r = v.clone();
    assert(r@ =~= v@);
    r
}

/// Task lists as values: each server id with the tasks kept for it.
pub open spec fn entry_views(v: Seq<(String, Vec<Task>)>) -> Seq<(Seq<char>, Seq<Task>)> {
    v.map_values(|e: (String, Vec<Task>)| (e.0@, e.1@))
}

/// Whether a server's task list is worth writing down: it is not empty and
/// its server still exists.
pub open spec fn worth_keeping(servers: Seq<Server>, entry: (String, Vec<Task>)) -> bool {
    entry.1@.len() > 0 && has_server(servers, entry.0@)
}

/// The task lists worth keeping.
pub open spec fn kept_list(servers: Seq<Server>) -> spec_fn((String, Vec<Task>)) -> bool {
    |e: (String, Vec<Task>)| worth_keeping(servers, e)
}

/// Drops the task lists of servers that have been deleted, and the empty
/// ones, so a server nobody kept a task on leaves nothing behind in a file
/// the user is invited to read.
pub fn prune_tasks(servers: &[Server], tasks: &[(String, Vec<Task>)]) -> (kept: Vec<(String, Vec<Task>)>)
    ensures
        entry_views(kept@) == entry_views(tasks@.filter(kept_list(servers@))),
{
    let ghost keep = kept_list(servers@);
    let mut kept: Vec<(String, Vec<Task>)> = Vec::new();
    let mut i: usize = 0;
    let n = tasks.len();
    while i < n
        invariant
            i <= n,
            n == tasks@.len(),
            keep == kept_list(servers@),
            entry_views(kept@) == entry_views(tasks@.take(i as int).filter(keep)),
        decreases n - i,
    {
        proof {
            reveal(Seq::filter);
            assert(tasks@.take(i + 1).drop_last() =~= tasks@.take(i as int));
        }
        let (id, list) = &tasks[i];
        if list.len() > 0 && server_exists(servers, id) {
            let entry = (id.clone(), clone_tasks(list));
            let ghost before = entry_views(kept@);
            kept.push(entry);
            assert(entry_views(kept@) =~= before.push((tasks@[i as int].0@, tasks@[i as int].1@)));
            assert(entry_views(tasks@.take(i + 1).filter(keep)) =~= entry_views(tasks@.take(i as int).filter(keep)).push((tasks@[i as int].0@, tasks@[i as int].1@)));
        }
        i += 1;
    }
    assert(tasks@.take(n as int) =~= tasks@);
    kept
}

/// The document written for these servers, project records and tasks: the
/// servers as they are, with records and task lists nothing refers to any
/// more left out.
pub fn document(servers: &[Server], groups: &[Group], tasks: &[(String, Vec<Task>)]) -> (doc: Document)
    ensures
        doc.servers@.len() == servers@.len(),
        forall|i: int| 0 <= i < servers@.len() ==> (#[trigger] doc.servers@[i])@ == servers@[i]@,
        doc.groups@ == groups@.filter(kept_group(servers@)),
        entry_views(doc.tasks@) == entry_views(tasks@.filter(kept_list(servers@))),
{
    let mut copy: Vec<Server> = Vec::new();
    let mut i: usize = 0;
    let n = servers.len();
    while i < n
        invariant
            i <= n,
            n == servers@.len(),
            copy@.len() == i,
            forall|j: int| 0 <= j < i ==> (#[trigger] copy@[j])@ == servers@[j]@,
        decreases n - i,
    {
        copy.push(servers[i].clone());
        i += 1;
    }
    Document { servers: copy, groups: prune_groups(servers, groups), tasks: prune_tasks(servers, tasks) }
}

} // verus!
