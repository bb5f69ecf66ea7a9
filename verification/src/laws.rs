//! What holds of the library across calls and states, stated over the same
//! spec functions the operations' own contracts use.
use vstd::prelude::*;
use crate::logs::{from_seq, stored_text, Ring, MAX_LINES, MAX_LINE_CHARS};
use crate::model::{clamp_session, collapse, is_clean_id, is_id_char, task_slug, SESSION_MAX, TASK_ID_MAX};
use crate::text::ascii_lower;
use crate::text::{
    after_last_of, all_digits, contains_seq, decimal, digit_char, digit_value, digits_value, is_ascii_alpha,
    is_ascii_digit, is_ws, lemma_trail_count, parse_nat, starts_with, ws,
};
use crate::ports::listed_port;
use crate::manifest::{any_char_of, make_target};
use crate::strays::{dev_process, system_prefixes};
use crate::supervisor::{readiness_of, status_of};
use crate::model::{live, Status};
use crate::cli::first_index;
use crate::git::{natural_from, natural_order, u128_max, lemma_digit_run_end};
use crate::ports::{bytes_value, digit_run_end, is_digit_byte};
use crate::manifest::{found_spec, offered, suggest_spec, ProjectFiles, MAX};
use crate::ports::{first_port, plausible_port, port_at};
use crate::supervisor::{exit_settled, ExitOutcome, Runtime, RESTART_LIMIT};
use crate::model::State;
use crate::text::{trim_end_by, in_set, trim};
use crate::model::{is_settled, slugify_spec, Group, Server, ServerRecord, Task};
use crate::store::{has_member, has_server, kept_group, kept_list, worth_keeping};
use crate::supervisor::{find_group, group_names, group_views, stored_icon};
use crate::cli::{env_sorted, inserted, key_less, parse_from, parsed, stripped, ArgsModel, EnvModel};
use crate::text::strip_prefix;
use crate::proto::ServerView;
use crate::tray::{menu_model, servers_of, submenu_model, toggle_model, EntryView, ItemView};
use crate::ui::painted;
use crate::text::{lemma_lead_count, ne_char};
use crate::supervisor::{find_id, held_groups, ids_of, kept_as, records, shut_down, upserted};

verus! {

/// Each log line is handed to subscribers exactly once: once pending lines
/// are taken, the emitted mark stands at the next number to hand out, and
/// nothing the ring holds is numbered that high — so a second take, and a
/// run's slice asked for from that number, come back empty until another
/// line is pushed.
pub proof fn law_taken_lines_are_not_taken_again(r: Ring)
    requires
        r.wf(),
    ensures
        from_seq(r.lines(), r.next()) == Seq::<crate::model::LineView>::empty(),
{
    reveal(Seq::filter);
    let p = |l: crate::model::LineView| l.seq >= r.next();
    assert forall|i: int| 0 <= i < r.lines().len() implies !p(#[trigger] r.lines()[i]) by {}
    lemma_filter_none(r.lines(), p);
}

proof fn lemma_filter_none<A>(s: Seq<A>, p: spec_fn(A) -> bool)
    requires
        forall|i: int| 0 <= i < s.len() ==> !p(#[trigger] s[i]),
    ensures
        s.filter(p) == Seq::<A>::empty(),
    decreases s.len(),
{
    reveal(Seq::filter);
    if s.len() > 0 {
        assert forall|i: int| 0 <= i < s.drop_last().len() implies !p(#[trigger] s.drop_last()[i]) by {
            assert(s.drop_last()[i] == s[i]);
        }
        lemma_filter_none(s.drop_last(), p);
        assert(!p(s[s.len() - 1]));
    }
    assert(s.filter(p) =~= Seq::<A>::empty());
}

/// No stored line, however long the output it came from, holds more than
/// `MAX_LINE_CHARS` characters and the two-character mark of a cut.
pub proof fn law_stored_lines_are_bounded(text: Seq<char>)
    ensures
        stored_text(text).len() <= MAX_LINE_CHARS + 2,
{
}

/// A run that was asked to stop is never restarted, whatever its exit
/// code and whether or not it auto-restarts; it settles as stopped with its
/// restart count cleared.
pub proof fn law_deliberate_stop_never_restarts(
    before: Runtime,
    after: Runtime,
    code: Option<i32>,
    auto_restart: bool,
    now: u64,
    out: ExitOutcome,
)
    requires
        before.stopping,
        exit_settled(before, after, code, auto_restart, now, out),
    ensures
        out matches ExitOutcome::Settled { restart: None, .. },
        after.status.state == State::Stopped,
        after.status.restarts == 0,
{
}

/// A clean exit is never restarted, and is not reported as giving up.
pub proof fn law_clean_exit_never_restarts(
    before: Runtime,
    after: Runtime,
    auto_restart: bool,
    now: u64,
    out: ExitOutcome,
)
    requires
        exit_settled(before, after, Some(0i32), auto_restart, now, out),
    ensures
        out == (ExitOutcome::Settled { restart: None, gave_up: false }),
        after.status.state == State::Stopped,
{
}

/// The crash-loop guard: a restart is attempt 1 to `RESTART_LIMIT`, and a
/// crash restarts only where the server auto-restarts.
pub proof fn law_restarts_are_bounded(
    before: Runtime,
    after: Runtime,
    code: Option<i32>,
    auto_restart: bool,
    now: u64,
    out: ExitOutcome,
)
    requires
        before.status.restarts <= RESTART_LIMIT,
        exit_settled(before, after, code, auto_restart, now, out),
    ensures
        after.status.restarts <= RESTART_LIMIT,
        out matches ExitOutcome::Settled { restart: Some(n), .. } ==> 1 <= n <= RESTART_LIMIT && auto_restart
            && after.status.restarts == n && after.status.state == State::Crashed,
{
}

/// Within one restart window, a server that keeps crashing is restarted at
/// most `RESTART_LIMIT` times: once its count has reached the limit, the
/// next crash in the window gives up instead.
pub proof fn law_crash_loop_gives_up(
    before: Runtime,
    after: Runtime,
    code: i32,
    now: u64,
    out: ExitOutcome,
)
    requires
        !before.stopping,
        code != 0,
        before.status.restarts == RESTART_LIMIT,
        now - before.restart_window_start <= crate::supervisor::RESTART_WINDOW_MS,
        exit_settled(before, after, Some(code), true, now, out),
    ensures
        out == (ExitOutcome::Settled { restart: None, gave_up: true }),
        after.status.state == State::Crashed,
{
}

/// A port read from a line is always a plausible one, and it is the one the
/// first announcing colon gives.
pub proof fn law_scanned_ports_are_plausible(b: Seq<u8>, p: u16)
    requires
        first_port(b, Some(p)),
    ensures
        plausible_port(p as int),
{
    let i = choose|i: int|
        0 <= i < b.len() && port_at(b, i) == Some(p) && forall|j: int| 0 <= j < i ==> #[trigger] port_at(b, j) is None;
    let start = i + 1;
    let end = crate::ports::digit_run_end(b, start);
    let value = crate::ports::bytes_value(b.subrange(start, end));
    assert(plausible_port(value as int));
    assert(value as u16 == p);
}

/// A session name, however long, is kept to `SESSION_MAX` characters and
/// the ellipsis that marks a cut.
pub proof fn law_session_names_are_clamped(s: Seq<char>)
    ensures
        clamp_session(s).len() <= SESSION_MAX + 1,
{
    let t = crate::text::trim(s);
    if t.len() > SESSION_MAX {
        crate::text::lemma_trail_count_bound(t.take(SESSION_MAX as int), crate::text::ws());
    }
}

/// A task id is never empty and never longer than `TASK_ID_MAX`.
pub proof fn law_task_ids_are_bounded(command: Seq<char>)
    ensures
        1 <= task_slug(command).len() <= TASK_ID_MAX,
{
    crate::model::lemma_slug_is_clean(command, seq!['t', 'a', 's', 'k']);
    assert(is_clean_id(seq!['t', 'a', 's', 'k']));
}

/// No two server definitions share an id.
pub open spec fn distinct_ids(v: Seq<ServerRecord>) -> bool {
    forall|i: int, j: int| 0 <= i < j < v.len() ==> (#[trigger] v[i]).id != (#[trigger] v[j]).id
}

proof fn lemma_find_id_hit(v: Seq<Server>, id: Seq<char>)
    ensures
        find_id(v, id) matches Some(k) ==> 0 <= k < v.len() && v[k].id@ == id,
    decreases v.len(),
{
    if v.len() > 0 && v[0].id@ != id {
        lemma_find_id_hit(v.drop_first(), id);
        if let Some(k) = find_id(v.drop_first(), id) {
            assert(v.drop_first()[k] == v[k + 1]);
        }
    }
}

/// Ids stay unique: whatever `upsert` does to a list of servers with
/// distinct ids, the ids stay distinct. A new server's id is settled against
/// those in use, and an update keeps the id it was found by.
pub proof fn law_upsert_keeps_ids_distinct(
    before: Seq<Server>,
    server: ServerRecord,
    dir: Seq<char>,
    dir_exists: bool,
    now: u64,
    after: Seq<Server>,
    r: Result<ServerRecord, Seq<char>>,
)
    requires
        distinct_ids(records(before)),
        upserted(before, server, dir, dir_exists, now, after, r),
    ensures
        distinct_ids(records(after)),
{
    let rb = records(before);
    let ra = records(after);
    if trim(server.name).len() == 0 || trim(server.command).len() == 0 || !dir_exists {
    } else if server.id.len() == 0 {
        let id = choose|id: Seq<char>|
            #![trigger is_settled(slugify_spec(server.name), ids_of(before), id)]
            is_settled(slugify_spec(server.name), ids_of(before), id) && r == Ok::<ServerRecord, Seq<char>>(
                kept_as(server, dir, id, now),
            ) && records(after) == records(before).push(kept_as(server, dir, id, now));
        assert(!ids_of(before).contains(id));
        assert forall|i: int, j: int| 0 <= i < j < ra.len() implies (#[trigger] ra[i]).id != (#[trigger] ra[j]).id by {
            if j == rb.len() {
                assert(ra[j].id == id);
                assert(ra[i] == rb[i]);
                assert(ids_of(before)[i] == rb[i].id);
            } else {
                assert(ra[i] == rb[i] && ra[j] == rb[j]);
            }
        }
    } else {
        lemma_find_id_hit(before, server.id);
        match find_id(before, server.id) {
            None => {},
            Some(k) => {
                assert(rb[k].id == server.id);
                assert forall|i: int, j: int| 0 <= i < j < ra.len() implies (#[trigger] ra[i]).id != (#[trigger] ra[j]).id by {
                    assert(ra[i].id == rb[i].id);
                    assert(ra[j].id == rb[j].id);
                }
            },
        }
    }
}

/// What is written back refers only to what exists, and loses nothing that
/// does: a project record is kept exactly when some server belongs to it,
/// and a task list exactly when it is not empty and its server still exists.
pub proof fn law_pruning_keeps_exactly_what_is_referenced(
    servers: Seq<Server>,
    groups: Seq<Group>,
    tasks: Seq<(String, Vec<Task>)>,
)
    ensures
        forall|i: int|
            0 <= i < groups.filter(kept_group(servers)).len() ==> has_member(
                servers,
                (#[trigger] groups.filter(kept_group(servers))[i]).name@,
            ),
        forall|i: int|
            0 <= i < groups.len() && has_member(servers, groups[i].name@) ==> groups.filter(kept_group(servers)).contains(#[trigger] groups[i]),
        forall|i: int|
            0 <= i < tasks.filter(kept_list(servers)).len() ==> {
                let e = #[trigger] tasks.filter(kept_list(servers))[i];
                e.1@.len() > 0 && has_server(servers, e.0@)
            },
        forall|i: int|
            0 <= i < tasks.len() && worth_keeping(servers, tasks[i]) ==> tasks.filter(kept_list(servers)).contains(#[trigger] tasks[i]),
{
    let pg = kept_group(servers);
    let pt = kept_list(servers);
    assert forall|i: int| 0 <= i < groups.filter(pg).len() implies pg(#[trigger] groups.filter(pg)[i]) by {
        groups.lemma_filter_pred(pg, i);
    }
    assert forall|i: int| 0 <= i < groups.len() && pg(groups[i]) implies groups.filter(pg).contains(
        #[trigger] groups[i],
    ) by {
        groups.lemma_filter_contains(pg, i);
    }
    assert forall|i: int| 0 <= i < tasks.filter(pt).len() implies pt(#[trigger] tasks.filter(pt)[i]) by {
        tasks.lemma_filter_pred(pt, i);
    }
    assert forall|i: int| 0 <= i < tasks.len() && pt(tasks[i]) implies tasks.filter(pt).contains(
        #[trigger] tasks[i],
    ) by {
        tasks.lemma_filter_contains(pt, i);
    }
}

/// The projects listed are distinct and named: no project shows twice, and
/// ungrouped servers make none.
pub proof fn law_project_names_are_distinct(servers: Seq<Server>)
    ensures
        forall|i: int, j: int|
            0 <= i < j < group_names(servers).len() ==> (#[trigger] group_names(servers)[i]) != (#[trigger] group_names(
                servers,
            )[j]),
        forall|i: int| 0 <= i < group_names(servers).len() ==> (#[trigger] group_names(servers)[i]).len() > 0,
    decreases servers.len(),
{
    if servers.len() > 0 {
        law_project_names_are_distinct(servers.drop_last());
        let prev = group_names(servers.drop_last());
        let g = servers.last().group@;
        if !(g.len() == 0 || prev.contains(g)) {
            let now = prev.push(g);
            assert forall|i: int, j: int| 0 <= i < j < now.len() implies (#[trigger] now[i]) != (#[trigger] now[j]) by {
                if j == prev.len() {
                    assert(now[i] == prev[i]);
                    assert(!prev.contains(g));
                } else {
                    assert(now[i] == prev[i] && now[j] == prev[j]);
                }
            }
            assert forall|i: int| 0 <= i < now.len() implies (#[trigger] now[i]).len() > 0 by {
                if i < prev.len() {
                    assert(now[i] == prev[i]);
                }
            }
        }
    }
}

proof fn lemma_key_less_irreflexive(a: Seq<char>)
    ensures
        !key_less(a, a),
    decreases a.len(),
{
    if a.len() > 0 {
        lemma_key_less_irreflexive(a.drop_first());
    }
}

proof fn lemma_key_less_transitive(a: Seq<char>, b: Seq<char>, c: Seq<char>)
    requires
        key_less(a, b),
        key_less(b, c),
    ensures
        key_less(a, c),
    decreases a.len(),
{
    if a.len() > 0 && b.len() > 0 && c.len() > 0 && a[0] == b[0] && b[0] == c[0] {
        lemma_key_less_transitive(a.drop_first(), b.drop_first(), c.drop_first());
    }
}

proof fn lemma_key_less_total(a: Seq<char>, b: Seq<char>)
    requires
        a != b,
    ensures
        key_less(a, b) || key_less(b, a),
    decreases a.len(),
{
    if a.len() > 0 && b.len() > 0 && a[0] == b[0] {
        if a.drop_first() == b.drop_first() {
            assert(a =~= seq![a[0]] + a.drop_first());
            assert(b =~= seq![b[0]] + b.drop_first());
        }
        lemma_key_less_total(a.drop_first(), b.drop_first());
    } else if a.len() > 0 && b.len() > 0 {
        assert(a[0] < b[0] || b[0] < a[0]);
    } else if a.len() == 0 && b.len() == 0 {
        assert(a =~= b);
    }
}

/// Setting a variable keeps a server's environment a sorted map: keys stay
/// in strictly ascending order, the key holds the new value, every other
/// pair stays, and nothing else appears.
pub proof fn law_env_insert_is_a_sorted_map_insert(s: EnvModel, k: Seq<char>, v: Seq<char>)
    requires
        env_sorted(s),
    ensures
        env_sorted(inserted(s, k, v)),
        inserted(s, k, v).contains((k, v)),
        forall|i: int| 0 <= i < s.len() && s[i].0 != k ==> inserted(s, k, v).contains(#[trigger] s[i]),
        forall|i: int|
            0 <= i < inserted(s, k, v).len() ==> #[trigger] inserted(s, k, v)[i] == (k, v) || (s.contains(
                inserted(s, k, v)[i],
            ) && inserted(s, k, v)[i].0 != k),
    decreases s.len(),
{
    let out = inserted(s, k, v);
    if s.len() == 0 {
        assert(out[0] == (k, v));
    } else {
        let x = s[0];
        let rest = s.drop_first();
        assert forall|i: int, j: int| 0 <= i < j < rest.len() implies key_less(#[trigger] rest[i].0, #[trigger] rest[j].0) by {
            assert(rest[i] == s[i + 1] && rest[j] == s[j + 1]);
        }
        assert forall|j: int| 0 <= j < rest.len() implies key_less(x.0, #[trigger] rest[j].0) by {
            assert(rest[j] == s[j + 1]);
        }
        if x.0 == k {
            assert(out == seq![(k, v)] + rest);
            assert(out[0] == (k, v));
            assert forall|i: int, j: int| 0 <= i < j < out.len() implies key_less(#[trigger] out[i].0, #[trigger] out[j].0) by {
                assert(out[j] == rest[j - 1]);
                if i > 0 {
                    assert(out[i] == rest[i - 1]);
                }
            }
            assert forall|i: int| 0 <= i < s.len() && s[i].0 != k implies out.contains(#[trigger] s[i]) by {
                assert(i > 0);
                assert(out[i] == s[i]);
            }
            assert forall|i: int| 0 <= i < out.len() implies #[trigger] out[i] == (k, v) || (s.contains(out[i]) && out[i].0
                != k) by {
                if i > 0 {
                    assert(out[i] == s[i]);
                    assert(key_less(x.0, s[i].0));
                    lemma_key_less_irreflexive(k);
                }
            }
        } else if key_less(k, x.0) {
            assert(out == seq![(k, v)] + s);
            assert(out[0] == (k, v));
            assert forall|i: int, j: int| 0 <= i < j < out.len() implies key_less(#[trigger] out[i].0, #[trigger] out[j].0) by {
                assert(out[j] == s[j - 1]);
                if i > 0 {
                    assert(out[i] == s[i - 1]);
                } else if j > 1 {
                    assert(s[j - 1] == rest[j - 2]);
                    lemma_key_less_transitive(k, x.0, s[j - 1].0);
                }
            }
            assert forall|i: int| 0 <= i < s.len() && s[i].0 != k implies out.contains(#[trigger] s[i]) by {
                assert(out[i + 1] == s[i]);
            }
            assert forall|i: int| 0 <= i < out.len() implies #[trigger] out[i] == (k, v) || (s.contains(out[i]) && out[i].0
                != k) by {
                if i > 0 {
                    assert(out[i] == s[i - 1]);
                    if i > 1 {
                        assert(s[i - 1] == rest[i - 2]);
                        lemma_key_less_transitive(k, x.0, s[i - 1].0);
                    }
                    lemma_key_less_irreflexive(k);
                }
            }
        } else {
            law_env_insert_is_a_sorted_map_insert(rest, k, v);
            let tail = inserted(rest, k, v);
            assert(out == seq![x] + tail);
            lemma_key_less_total(x.0, k);
            assert(key_less(x.0, k));
            assert forall|j: int| 0 <= j < tail.len() implies key_less(x.0, #[trigger] tail[j].0) by {
                if tail[j] != (k, v) {
                    let m = choose|m: int| 0 <= m < rest.len() && rest[m] == tail[j];
                }
            }
            assert forall|i: int, j: int| 0 <= i < j < out.len() implies key_less(#[trigger] out[i].0, #[trigger] out[j].0) by {
                assert(out[j] == tail[j - 1]);
                if i > 0 {
                    assert(out[i] == tail[i - 1]);
                }
            }
            let m = choose|m: int| 0 <= m < tail.len() && tail[m] == (k, v);
            assert(out[m + 1] == (k, v));
            assert forall|i: int| 0 <= i < s.len() && s[i].0 != k implies out.contains(#[trigger] s[i]) by {
                if i == 0 {
                    assert(out[0] == x);
                } else {
                    assert(s[i] == rest[i - 1]);
                    let q = choose|q: int| 0 <= q < tail.len() && tail[q] == rest[i - 1];
                    assert(out[q + 1] == s[i]);
                }
            }
            assert forall|i: int| 0 <= i < out.len() implies #[trigger] out[i] == (k, v) || (s.contains(out[i]) && out[i].0
                != k) by {
                if i == 0 {
                    assert(s[0] == x);
                } else {
                    assert(out[i] == tail[i - 1]);
                    if tail[i - 1] != (k, v) {
                        let q = choose|q: int| 0 <= q < rest.len() && rest[q] == tail[i - 1];
                        assert(s[q + 1] == rest[q]);
                    }
                }
            }
        }
    }
}

proof fn lemma_stripped_plain_prefix(t: Seq<char>, u: Seq<char>)
    requires
        !t.contains('\x1b'),
    ensures
        stripped(t + u) == t + stripped(u),
    decreases t.len(),
{
    if t.len() == 0 {
        assert(t + u =~= u);
        assert(t + stripped(u) =~= stripped(u));
    } else {
        let w = t + u;
        assert(t[0] != '\x1b') by {
            assert(t.contains(t[0]) || t[0] != '\x1b');
        }
        assert(w[0] == t[0]);
        assert(w.drop_first() =~= t.drop_first() + u);
        assert(!t.drop_first().contains('\x1b')) by {
            if t.drop_first().contains('\x1b') {
                let k = choose|k: int| 0 <= k < t.drop_first().len() && t.drop_first()[k] == '\x1b';
                assert(t[k + 1] == '\x1b');
            }
        }
        lemma_stripped_plain_prefix(t.drop_first(), u);
        assert(t =~= seq![t[0]] + t.drop_first());
        assert(seq![t[0]] + (t.drop_first() + stripped(u)) =~= t + stripped(u));
    }
}

proof fn lemma_stripped_escape(w: Seq<char>, u: Seq<char>)
    requires
        !w.contains('m'),
    ensures
        stripped(seq!['\x1b'] + w + seq!['m'] + u) == stripped(u),
{
    let all = seq!['\x1b'] + w + seq!['m'] + u;
    let rest = all.drop_first();
    assert(rest =~= w + seq!['m'] + u);
    assert forall|j: int| 0 <= j < w.len() implies (ne_char('m'))(#[trigger] rest[j]) by {
        assert(rest[j] == w[j]);
        assert(w.contains(w[j]));
    }
    assert(rest[w.len() as int] == 'm');
    lemma_lead_count(rest, ne_char('m'), w.len() as int);
    assert(rest.skip(w.len() as int + 1) =~= u);
}

/// Taking the escapes out of painted text gives the text back: a colour
/// adds nothing to what is visible, which is what lets the help pad its
/// columns on the visible width.
pub proof fn law_stripping_undoes_paint(on: bool, code: Seq<char>, s: Seq<char>)
    requires
        !code.contains('m'),
        !s.contains('\x1b'),
    ensures
        stripped(painted(on, code, s)) == s,
{
    reveal_strlit("\x1b[");
    reveal_strlit("m");
    reveal_strlit("\x1b[0m");
    if on {
        let w = seq!['['] + code;
        assert(!w.contains('m')) by {
            if w.contains('m') {
                let k = choose|k: int| 0 <= k < w.len() && w[k] == 'm';
                assert(k > 0);
                assert(code[k - 1] == 'm');
            }
        }
        let tail = seq!['\x1b'] + seq!['[', '0'] + seq!['m'] + Seq::<char>::empty();
        let u = s + tail;
        assert(painted(on, code, s) =~= seq!['\x1b'] + w + seq!['m'] + u);
        lemma_stripped_escape(w, u);
        lemma_stripped_plain_prefix(s, tail);
        assert(!seq!['[', '0'].contains('m')) by {
            if seq!['[', '0'].contains('m') {
                let k = choose|k: int| 0 <= k < 2 && seq!['[', '0'][k] == 'm';
            }
        }
        lemma_stripped_escape(seq!['[', '0'], Seq::<char>::empty());
        assert(stripped(Seq::<char>::empty()) == Seq::<char>::empty());
        assert(s + Seq::<char>::empty() =~= s);
    } else {
        lemma_stripped_plain_prefix(s, Seq::<char>::empty());
        assert(s + Seq::<char>::empty() =~= s);
    }
}

proof fn lemma_stored_icon_found(v: Seq<Group>, name: Seq<char>)
    ensures
        stored_icon(v, name) == (match find_group(v, name) {
            Some(k) => v[k].icon@,
            None => Seq::<char>::empty(),
        }),
        find_group(v, name) matches Some(k) ==> 0 <= k < v.len() && v[k].name@ == name,
    decreases v.len(),
{
    if v.len() > 0 && v[0].name@ != name {
        let t = v.drop_first();
        lemma_stored_icon_found(t, name);
        if let Some(k) = find_group(t, name) {
            assert(t[k] == v[k + 1]);
        }
    }
}

proof fn lemma_find_group_by_names(a: Seq<Group>, b: Seq<Group>, name: Seq<char>)
    requires
        a.len() == b.len(),
        forall|i: int| 0 <= i < a.len() ==> (#[trigger] a[i]).name@ == b[i].name@,
    ensures
        find_group(a, name) == find_group(b, name),
    decreases a.len(),
{
    if a.len() > 0 {
        assert(a[0].name@ == b[0].name@);
        let (ta, tb) = (a.drop_first(), b.drop_first());
        assert forall|i: int| 0 <= i < ta.len() implies (#[trigger] ta[i]).name@ == tb[i].name@ by {
            assert(ta[i] == a[i + 1] && tb[i] == b[i + 1]);
        }
        lemma_find_group_by_names(ta, tb, name);
    }
}

proof fn lemma_find_group_appended(v: Seq<Group>, g: Group, name: Seq<char>)
    requires
        find_group(v, name) is None,
        g.name@ == name,
    ensures
        find_group(v.push(g), name) == Some(v.len() as int),
    decreases v.len(),
{
    if v.len() > 0 {
        let t = v.drop_first();
        assert(v.push(g).drop_first() =~= t.push(g));
        assert(v.push(g)[0] == v[0]);
        lemma_find_group_appended(t, g, name);
    } else {
        assert(v.push(g)[0] == g);
    }
}

/// A project's icon reads back as it was last set: after `set_group_icon`
/// gives project `name` the icon `icon`, the icon stored for `name` is
/// `icon`, whether the project had a record before or not.
pub proof fn law_group_icon_reads_back(before: Seq<Group>, after: Seq<Group>, name: Seq<char>, icon: Seq<char>)
    requires
        match find_group(before, name) {
            Some(k) => group_views(after) == group_views(before).update(k, (name, icon)),
            None => group_views(after) == group_views(before).push((name, icon)),
        },
    ensures
        stored_icon(after, name) == icon,
{
    lemma_stored_icon_found(before, name);
    lemma_stored_icon_found(after, name);
    assert(group_views(after).len() == after.len());
    assert(group_views(before).len() == before.len());
    match find_group(before, name) {
        Some(k) => {
            assert forall|i: int| 0 <= i < after.len() implies (#[trigger] after[i]).name@ == before[i].name@ by {
                assert(group_views(after)[i] == (after[i].name@, after[i].icon@));
                assert(group_views(before)[i] == (before[i].name@, before[i].icon@));
            }
            lemma_find_group_by_names(after, before, name);
            assert(group_views(after)[k] == (after[k].name@, after[k].icon@));
        },
        None => {
            let prefix = after.drop_last();
            assert forall|i: int| 0 <= i < prefix.len() implies (#[trigger] prefix[i]).name@ == before[i].name@ by {
                assert(group_views(after)[i] == (after[i].name@, after[i].icon@));
                assert(group_views(before)[i] == (before[i].name@, before[i].icon@));
            }
            lemma_find_group_by_names(prefix, before, name);
            let last = after.last();
            assert(group_views(after)[before.len() as int] == (last.name@, last.icon@));
            assert(after =~= prefix.push(last));
            lemma_find_group_appended(prefix, last, name);
        },
    }
}

/// Once pending lines are taken, the next push makes exactly the new line
/// pending: together with the law above, every line pushed is handed out
/// once and only once.
pub proof fn law_a_pushed_line_is_pending_alone(before: Ring, after: Ring)
    requires
        before.wf(),
        before.emitted() == before.next(),
        after.wf(),
        after.next() == before.next() + 1,
        after.emitted() == before.emitted(),
        after.lines().len() > 0,
        after.lines().last().seq == before.next(),
        after.lines().drop_last() == (if before.lines().len() == MAX_LINES {
            before.lines().drop_first()
        } else {
            before.lines()
        }),
    ensures
        from_seq(after.lines(), after.emitted()) == seq![after.lines().last()],
{
    reveal(Seq::filter);
    let e = after.emitted();
    let p = |l: crate::model::LineView| l.seq >= e;
    let prefix = after.lines().drop_last();
    assert forall|i: int| 0 <= i < prefix.len() implies !p(#[trigger] prefix[i]) by {
        if before.lines().len() == MAX_LINES {
            assert(prefix[i] == before.lines()[i + 1]);
            assert(before.lines()[i + 1].seq == before.next() - before.lines().len() + i + 1);
        } else {
            assert(prefix[i] == before.lines()[i]);
            assert(before.lines()[i].seq == before.next() - before.lines().len() + i);
        }
    }
    lemma_filter_none(prefix, p);
    assert(after.lines() =~= prefix.push(after.lines().last()));
    assert(prefix.push(after.lines().last()).drop_last() =~= prefix);
    assert(from_seq(after.lines(), e) == prefix.push(after.lines().last()).filter(p));
    assert(prefix.push(after.lines().last()).filter(p) =~= seq![after.lines().last()]);
}

/// Quitting never leaves anything to come back: after `shutdown`, any run's
/// exit settles without a restart, whatever its exit code.
pub proof fn law_nothing_restarts_after_shutdown(
    before: Runtime,
    after: Runtime,
    code: Option<i32>,
    auto_restart: bool,
    now: u64,
    out: ExitOutcome,
)
    requires
        exit_settled(shut_down(before), after, code, auto_restart, now, out),
    ensures
        out matches ExitOutcome::Settled { restart: None, .. },
        after.status.state == State::Stopped,
{
}

proof fn lemma_group_names_cover(servers: Seq<Server>)
    ensures
        forall|i: int|
            0 <= i < servers.len() && (#[trigger] servers[i]).group@.len() > 0 ==> group_names(servers).contains(
                servers[i].group@,
            ),
    decreases servers.len(),
{
    if servers.len() > 0 {
        let prev_s = servers.drop_last();
        lemma_group_names_cover(prev_s);
        let prev = group_names(prev_s);
        let out = group_names(servers);
        assert forall|x: Seq<char>| prev.contains(x) implies out.contains(x) by {
            let k = choose|k: int| 0 <= k < prev.len() && prev[k] == x;
            if out != prev {
                assert(out[k] == prev[k]);
            }
        }
        assert forall|i: int|
            0 <= i < servers.len() && (#[trigger] servers[i]).group@.len() > 0 implies out.contains(servers[i].group@) by {
            if i < servers.len() - 1 {
                assert(servers[i] == prev_s[i]);
            } else {
                let g = servers.last().group@;
                if !prev.contains(g) {
                    assert(out[prev.len() as int] == g);
                }
            }
        }
    }
}

/// `e` is the submenu of project `g`, and lists `item`.
pub open spec fn submenu_lists(e: EntryView, g: Seq<char>, item: ItemView) -> bool {
    match e {
        EntryView::Submenu { id, items, .. } => id == "group:"@ + g && items.contains(item),
        _ => false,
    }
}

proof fn lemma_mapped_filter_contains<A, B>(s: Seq<A>, p: spec_fn(A) -> bool, f: spec_fn(A) -> B, i: int)
    requires
        0 <= i < s.len(),
        p(s[i]),
    ensures
        s.filter(p).map_values(f).contains(f(s[i])),
{
    s.lemma_filter_contains(p, i);
    let k = choose|k: int| 0 <= k < s.filter(p).len() && s.filter(p)[k] == s[i];
    assert(s.filter(p).map_values(f)[k] == f(s[i]));
}

/// Every server can be reached from the menu bar: an ungrouped one has its
/// own line at the top level, and a grouped one a line in its project's
/// submenu.
pub proof fn law_every_server_is_in_the_menu(views: Seq<ServerView>, now: u64)
    ensures
        forall|i: int|
            0 <= i < views.len() && (#[trigger] views[i]).server.group@.len() == 0 ==> menu_model(views, now).contains(
                EntryView::Item(toggle_model(views[i], now)),
            ),
        forall|i: int|
            0 <= i < views.len() && (#[trigger] views[i]).server.group@.len() > 0 ==> exists|j: int|
                0 <= j < menu_model(views, now).len() && submenu_lists(
                    #[trigger] menu_model(views, now)[j],
                    views[i].server.group@,
                    toggle_model(views[i], now),
                ),
{
    let menu = menu_model(views, now);
    let top_p = crate::tray::in_group(Seq::empty());
    let top_f = |v: ServerView| EntryView::Item(toggle_model(v, now));
    let names = group_names(servers_of(views));
    let sub_f = |g: Seq<char>| submenu_model(views, g, now);
    let top = views.filter(top_p).map_values(top_f);
    let subs = names.map_values(sub_f);
    lemma_group_names_cover(servers_of(views));
    assert forall|i: int|
        0 <= i < views.len() && (#[trigger] views[i]).server.group@.len() == 0 implies menu.contains(
            EntryView::Item(toggle_model(views[i], now)),
        ) by {
        assert(views[i].server.group@ =~= Seq::<char>::empty());
        lemma_mapped_filter_contains(views, top_p, top_f, i);
        let k = choose|k: int| 0 <= k < top.len() && top[k] == top_f(views[i]);
        assert(menu[k] == top[k]);
    }
    assert forall|i: int|
        0 <= i < views.len() && (#[trigger] views[i]).server.group@.len() > 0 implies exists|j: int|
            0 <= j < menu.len() && submenu_lists(#[trigger] menu[j], views[i].server.group@, toggle_model(views[i], now)) by {
        let g = views[i].server.group@;
        assert(servers_of(views)[i] == views[i].server);
        assert(names.contains(g));
        let q = choose|q: int| 0 <= q < names.len() && names[q] == g;
        assert(subs[q] == sub_f(g));
        assert(menu[top.len() + q] == subs[q]);
        let members = views.filter(crate::tray::in_group(g));
        lemma_mapped_filter_contains(views, crate::tray::in_group(g), |v: ServerView| toggle_model(v, now), i);
    }
}

/// Nothing is orphaned on quit: the groups `shutdown` hands back to be
/// signalled include the process group of every run that holds one, and
/// nothing else.
pub proof fn law_shutdown_signals_every_group(rts: Seq<Runtime>)
    ensures
        forall|k: int|
            0 <= k < rts.len() && (#[trigger] rts[k]).pgid is Some ==> held_groups(rts).contains(rts[k].pgid->0),
        forall|g: i32|
            held_groups(rts).contains(g) ==> exists|k: int| 0 <= k < rts.len() && (#[trigger] rts[k]).pgid == Some(g),
    decreases rts.len(),
{
    if rts.len() > 0 {
        let prev_r = rts.drop_last();
        law_shutdown_signals_every_group(prev_r);
        let prev = held_groups(prev_r);
        let out = held_groups(rts);
        assert forall|k: int| 0 <= k < rts.len() && (#[trigger] rts[k]).pgid is Some implies out.contains(
            rts[k].pgid->0,
        ) by {
            let g = rts[k].pgid->0;
            if k < rts.len() - 1 {
                assert(rts[k] == prev_r[k]);
                let q = choose|q: int| 0 <= q < prev.len() && prev[q] == g;
                if out != prev {
                    assert(out[q] == prev[q]);
                }
            } else {
                assert(out[prev.len() as int] == g);
            }
        }
        assert forall|g: i32| out.contains(g) implies exists|k: int| 0 <= k < rts.len() && (#[trigger] rts[k]).pgid == Some(g) by {
            let q = choose|q: int| 0 <= q < out.len() && out[q] == g;
            if q < prev.len() {
                assert(prev[q] == out[q]);
                assert(prev.contains(g));
                let k = choose|k: int| 0 <= k < prev_r.len() && (#[trigger] prev_r[k]).pgid == Some(g);
                assert(rts[k] == prev_r[k]);
            } else {
                assert(rts[rts.len() - 1].pgid == Some(g));
            }
        }
    }
}

proof fn lemma_plain_from(raw: Seq<Seq<char>>, i: int, a: ArgsModel)
    requires
        0 <= i <= raw.len(),
        forall|k: int| i <= k < raw.len() ==> strip_prefix(#[trigger] raw[k], "--"@) is None,
    ensures
        parse_from(raw, i, a) == (ArgsModel { positional: a.positional + raw.skip(i), flags: a.flags }),
    decreases raw.len() - i,
{
    if i < raw.len() {
        let b = ArgsModel { positional: a.positional.push(raw[i]), ..a };
        lemma_plain_from(raw, i + 1, b);
        assert(b.positional + raw.skip(i + 1) =~= a.positional + raw.skip(i));
    } else {
        assert(a.positional + raw.skip(i) =~= a.positional);
    }
}

/// Arguments that are not flags are kept as they are, in order: with no
/// argument starting with `--`, every argument is positional and no flag
/// is set.
pub proof fn law_plain_arguments_stay_positional(raw: Seq<Seq<char>>)
    requires
        forall|k: int| 0 <= k < raw.len() ==> strip_prefix(#[trigger] raw[k], "--"@) is None,
    ensures
        parsed(raw).positional == raw,
        parsed(raw).flags.len() == 0,
{
    let a = ArgsModel { positional: Seq::empty(), flags: Seq::empty() };
    lemma_plain_from(raw, 0, a);
    assert(Seq::<Seq<char>>::empty() + raw.skip(0) =~= raw);
}

/// `has_pending` tracks pushes: a push always leaves something pending,
/// while a fresh ring, a take and a clear (each of which sets the emitted
/// mark to the next number) leave nothing pending. So it is true exactly when
/// a line was pushed after the last take or clear.
pub proof fn law_pending_exactly_after_a_push(before: Ring, pushed: Ring, taken: Ring)
    requires
        before.wf(),
        pushed.next() == before.next() + 1,
        pushed.emitted() == before.emitted(),
        taken.emitted() == taken.next(),
    ensures
        pushed.next() > pushed.emitted(),
        !(taken.next() > taken.emitted()),
{
}

/// Slugs are fixed points: the slug of a slug is itself, so an id that
/// came from a name reads back unchanged.
pub proof fn law_slugify_is_idempotent(s: Seq<char>)
    ensures
        slugify_spec(slugify_spec(s)) == slugify_spec(s),
{
    let t = slugify_spec(s);
    crate::model::lemma_slug_is_clean(s, seq!['s', 'e', 'r', 'v', 'e', 'r']);
    assert(is_clean_id(seq!['s', 'e', 'r', 'v', 'e', 'r']));
    lemma_collapse_of_clean(t);
    crate::text::lemma_trail_count(t, crate::text::eq_char('-'), t.len() as int);
    assert(t.take(t.len() as int) =~= t);
}

proof fn lemma_collapse_of_clean(t: Seq<char>)
    requires
        forall|i: int| 0 <= i < t.len() ==> is_id_char(#[trigger] t[i]),
        t.len() > 0 ==> t[0] != '-',
        forall|i: int| 0 <= i < t.len() - 1 ==> !(#[trigger] t[i] == '-' && t[i + 1] == '-'),
    ensures
        collapse(t) == t,
    decreases t.len(),
{
    if t.len() > 0 {
        let u = t.drop_last();
        assert forall|i: int| 0 <= i < u.len() implies is_id_char(#[trigger] u[i]) by {
            assert(u[i] == t[i]);
        }
        assert forall|i: int| 0 <= i < u.len() - 1 implies !(#[trigger] u[i] == '-' && u[i + 1] == '-') by {
            assert(u[i] == t[i] && u[i + 1] == t[i + 1]);
        }
        if u.len() > 0 {
            assert(u[0] == t[0]);
        }
        lemma_collapse_of_clean(u);
        let c = t.last();
        assert(is_id_char(c));
        if c == '-' {
            assert(t.len() >= 2);
            assert(u.last() == t[t.len() - 2]);
            assert(!(t[t.len() - 2] == '-' && t[t.len() - 1] == '-'));
        } else {
            assert(ascii_lower(c) == c);
        }
        assert(u.push(c) =~= t);
    }
}

/// What is suggested is what the project's manifests offer, less the
/// start command and what is already kept, in the manifests' order and at
/// most `MAX` of it; the source is named exactly when something is left.
pub proof fn law_suggestions_are_found_commands_filtered(
    p: ProjectFiles,
    start_command: Seq<char>,
    kept: Seq<Seq<char>>,
)
    ensures
        ({
            let f = found_spec(p);
            let left = f.1.filter(|c: Seq<char>| offered(trim(start_command), kept, c));
            let r = suggest_spec(p, start_command, kept);
            &&& r.1 == left.take(if left.len() <= MAX { left.len() as int } else { MAX as int })
            &&& r.0 == (if left.len() == 0 { Seq::<char>::empty() } else { f.0 })
            &&& r.1.len() <= MAX
            &&& forall|i: int|
                0 <= i < r.1.len() ==> offered(trim(start_command), kept, #[trigger] r.1[i]) && f.1.contains(r.1[i])
        }),
{
    let f = found_spec(p);
    let pr = |c: Seq<char>| offered(trim(start_command), kept, c);
    let left = f.1.filter(pr);
    let r = suggest_spec(p, start_command, kept);
    assert(left.take(left.len() as int) =~= left);
    assert forall|i: int| 0 <= i < r.1.len() implies offered(trim(start_command), kept, #[trigger] r.1[i]) && f.1.contains(
        r.1[i],
    ) by {
        assert(r.1[i] == left[i]);
        f.1.lemma_filter_pred(pr, i);
        f.1.lemma_filter_contains_rev(pr, left[i]);
    }
}

// ---- ports announced by lsof ------------------------------------------------------

proof fn lemma_decimal_reads_back(n: nat)
    ensures
        decimal(n).len() >= 1,
        all_digits(decimal(n)),
        digits_value(decimal(n)) == n,
    decreases n,
{
    let c = digit_char(n % 10);
    assert((c as u32) == 48 + n % 10);
    assert(is_ascii_digit(c));
    assert(digit_value(c) == n % 10);
    if n >= 10 {
        lemma_decimal_reads_back(n / 10);
        let d = decimal(n);
        assert(d.drop_last() == decimal(n / 10));
        assert(d.last() == c);
        assert(digits_value(d) == digits_value(d.drop_last()) * 10 + digit_value(d.last()));
        assert(n == (n / 10) * 10 + n % 10) by (nonlinear_arith);
        assert forall|i: int| 0 <= i < d.len() implies is_ascii_digit(#[trigger] d[i]) by {
            if i < d.len() - 1 {
                assert(d[i] == decimal(n / 10)[i]);
            }
        }
    } else {
        assert(decimal(n) == seq![c]);
        assert(seq![c].drop_last() =~= Seq::<char>::empty());
        assert(digits_value(seq![c]) == digits_value(seq![c].drop_last()) * 10 + digit_value(seq![c].last()));
        assert(digits_value(Seq::<char>::empty()) == 0);
    }
}

/// The port on an `lsof -F n` name line is the number after its last
/// colon, whatever the host part holds — `*`, an IPv4 address, or an IPv6
/// one in brackets full of colons: for every plausible port `p`, the line
/// `n<host>:<p>` reads as `p`.
pub proof fn law_listed_port_follows_the_last_colon(host: Seq<char>, p: u16)
    requires
        plausible_port(p as int),
    ensures
        listed_port(seq!['n'] + host + seq![':'] + decimal(p as nat)) == Some(p),
{
    let d = decimal(p as nat);
    lemma_decimal_reads_back(p as nat);
    let line = seq!['n'] + host + seq![':'] + d;
    let addr = host + seq![':'] + d;
    assert(line.subrange(0, 1) =~= seq!['n']);
    assert(line.skip(1) =~= addr);
    assert(strip_prefix(line, seq!['n']) == Some(addr));
    assert forall|j: int| addr.len() - d.len() <= j < addr.len() implies (ne_char(':'))(#[trigger] addr[j]) by {
        assert(addr[j] == d[j - (addr.len() - d.len())]);
        assert(is_ascii_digit(d[j - (addr.len() - d.len())]));
    }
    assert(addr[addr.len() - d.len() - 1] == ':');
    lemma_trail_count(addr, ne_char(':'), addr.len() - d.len());
    assert(after_last_of(addr, ':') =~= d);
    assert(d[0] != '+') by {
        assert(is_ascii_digit(d[0]));
    }
    assert(parse_nat(d) == Some(p as nat));
}

// ---- Makefile targets --------------------------------------------------------------

/// Every `name:` line whose name starts with a letter and holds no `%`, `$`,
/// `=`, colon or whitespace names a target — hyphens, underscores, slashes
/// and dots inside the name included — unless the colon begins `:=`.
pub proof fn law_make_targets_keep_their_names(name: Seq<char>, rest: Seq<char>)
    requires
        name.len() > 0,
        is_ascii_alpha(name[0]),
        forall|i: int|
            0 <= i < name.len() ==> {
                let c = #[trigger] name[i];
                c != '%' && c != '$' && c != '=' && c != ':' && !is_ws(c)
            },
        !(rest.len() > 0 && rest[0] == '='),
    ensures
        make_target(name + seq![':'] + rest) == Some(name),
{
    let line = name + seq![':'] + rest;
    assert(line[0] == name[0]);
    assert(!seq![' ', '\t', '#', '.'].contains(line[0])) by {
        if seq![' ', '\t', '#', '.'].contains(line[0]) {
            let k = choose|k: int| 0 <= k < 4 && seq![' ', '\t', '#', '.'][k] == line[0];
        }
    }
    assert forall|j: int| 0 <= j < name.len() implies (ne_char(':'))(#[trigger] line[j]) by {
        assert(line[j] == name[j]);
    }
    assert(line[name.len() as int] == ':');
    lemma_lead_count(line, ne_char(':'), name.len() as int);
    assert(line.take(name.len() as int) =~= name);
    assert(line.skip(name.len() as int + 1) =~= rest);
    lemma_lead_count(name, ws(), 0);
    lemma_trail_count(name, ws(), name.len() as int);
    assert(name.skip(0) =~= name);
    assert(name.take(name.len() as int) =~= name);
    assert(trim(name) == name);
    assert(!starts_with(rest, "="@)) by {
        reveal_strlit("=");
        if starts_with(rest, "="@) {
            assert(rest.subrange(0, 1)[0] == rest[0]);
        }
    }
    let bad = seq!['%', '$', ' ', '='];
    assert(!any_char_of(name, bad)) by {
        if any_char_of(name, bad) {
            let i = choose|i: int| 0 <= i < name.len() && #[trigger] bad.contains(name[i]);
            let k = choose|k: int| 0 <= k < 4 && bad[k] == name[i];
            assert(is_ws(' '));
        }
    }
}

// ---- strays ------------------------------------------------------------------------

/// The machine's own software is never a stray: nothing under `/System/`,
/// `/usr/libexec/`, `/Library/` or `/sbin/` counts as a dev process, and
/// neither does anything inside an application bundle. Everything else does.
pub proof fn law_system_software_is_not_a_stray(exe: Seq<char>)
    ensures
        starts_with(exe, "/System/"@) ==> !dev_process(exe),
        starts_with(exe, "/usr/libexec/"@) ==> !dev_process(exe),
        starts_with(exe, "/Library/"@) ==> !dev_process(exe),
        starts_with(exe, "/sbin/"@) ==> !dev_process(exe),
        contains_seq(exe, ".app/Contents/"@) ==> !dev_process(exe),
        !starts_with(exe, "/System/"@) && !starts_with(exe, "/usr/libexec/"@) && !starts_with(exe, "/Library/"@)
            && !starts_with(exe, "/sbin/"@) && !contains_seq(exe, ".app/Contents/"@) ==> dev_process(exe),
{
    assert(system_prefixes()[0] == "/System/"@);
    assert(system_prefixes()[1] == "/usr/libexec/"@);
    assert(system_prefixes()[2] == "/Library/"@);
    assert(system_prefixes()[3] == "/sbin/"@);
}

// ---- waiting for a port ------------------------------------------------------------

proof fn lemma_first_index_facts<A>(s: Seq<A>, p: spec_fn(A) -> bool)
    ensures
        first_index(s, p) matches Some(j) ==> 0 <= j < s.len() && p(s[j]) && forall|k: int|
            0 <= k < j ==> !p(#[trigger] s[k]),
        first_index(s, p) is None ==> forall|k: int| 0 <= k < s.len() ==> !p(#[trigger] s[k]),
    decreases s.len(),
{
    if s.len() > 0 && !p(s[0]) {
        let t = s.drop_first();
        lemma_first_index_facts(t, p);
        assert forall|k: int| 0 < k < s.len() implies s[k] == #[trigger] t[k - 1] by {}
        if let Some(j) = first_index(t, p) {
            assert forall|k: int| 0 <= k < j + 1 implies !p(#[trigger] s[k]) by {
                if k > 0 {
                    assert(s[k] == t[k - 1]);
                }
            }
            assert(s[j + 1] == t[j]);
        } else {
            assert forall|k: int| 0 <= k < s.len() implies !p(#[trigger] s[k]) by {
                if k > 0 {
                    assert(s[k] == t[k - 1]);
                }
            }
        }
    }
}

/// `j` holds the first status of server `id`.
pub open spec fn first_status_at(statuses: Seq<Status>, id: Seq<char>, j: int) -> bool {
    &&& 0 <= j < statuses.len()
    &&& statuses[j].id@ == id
    &&& forall|k: int| 0 <= k < j ==> (#[trigger] statuses[k]).id@ != id
}

/// A waiter is released as ready only by a port: the answer is `Ready`
/// exactly when the first status of the server has a port. A live server
/// without a port — starting, or running but not yet listening — keeps it
/// waiting; and with no status at all it waits too.
pub proof fn law_ready_means_listening(statuses: Seq<Status>, id: Seq<char>)
    ensures
        forall|j: int|
            #[trigger] first_status_at(statuses, id, j) ==> ((readiness_of(statuses, id) is Ready) == (
            statuses[j].port is Some)),
        forall|j: int|
            #[trigger] first_status_at(statuses, id, j) && statuses[j].port is None && live(statuses[j].state)
                ==> readiness_of(statuses, id) is Waiting,
        (forall|j: int| 0 <= j < statuses.len() ==> (#[trigger] statuses[j]).id@ != id) ==> readiness_of(
            statuses,
            id,
        ) is Waiting,
{
    let p = status_of(id);
    lemma_first_index_facts(statuses, p);
    match first_index(statuses, p) {
        Some(j) => {
            assert forall|q: int| #[trigger] first_status_at(statuses, id, q) implies q == j by {
                if q < j {
                    assert(!p(statuses[q]));
                } else if q > j {
                    assert(statuses[j].id@ != id);
                }
            }
            assert(p(statuses[j]));
        },
        None => {
            assert(forall|k: int| 0 <= k < statuses.len() ==> !p(#[trigger] statuses[k]));
        },
    }
}

// ---- natural order ----------------------------------------------------------------

proof fn lemma_run_end_after_prefix(p: Seq<u8>, x: Seq<u8>, i: int)
    requires
        p.len() <= i <= p.len() + x.len(),
    ensures
        digit_run_end(p + x, i) == p.len() + digit_run_end(x, i - p.len()),
    decreases p.len() + x.len() - i,
{
    let a = p + x;
    if i < a.len() {
        assert(a[i] == x[i - p.len()]);
        if is_digit_byte(a[i]) {
            lemma_run_end_after_prefix(p, x, i + 1);
        }
    }
}

proof fn lemma_run_end_within_prefix(p: Seq<u8>, x: Seq<u8>, i: int)
    requires
        0 <= i < p.len(),
        !is_digit_byte(p.last()),
    ensures
        digit_run_end(p + x, i) == digit_run_end(p, i),
        digit_run_end(p, i) < p.len(),
    decreases p.len() - i,
{
    let a = p + x;
    assert(a[i] == p[i]);
    if is_digit_byte(p[i]) {
        assert(i < p.len() - 1);
        lemma_run_end_within_prefix(p, x, i + 1);
    }
}

proof fn lemma_natural_after_prefixes(p: Seq<u8>, q: Seq<u8>, x: Seq<u8>, y: Seq<u8>, i: int, j: int)
    requires
        0 <= i <= x.len(),
        0 <= j <= y.len(),
    ensures
        natural_from(p + x, q + y, p.len() + i, q.len() + j) == natural_from(x, y, i, j),
    decreases x.len() - i + y.len() - j,
{
    let a = p + x;
    let b = q + y;
    let (ai, bj) = (p.len() + i, q.len() + j);
    if i < x.len() && j < y.len() {
        assert(a[ai] == x[i] && b[bj] == y[j]);
        if is_digit_byte(x[i]) && is_digit_byte(y[j]) {
            lemma_run_end_after_prefix(p, x, ai);
            lemma_run_end_after_prefix(q, y, bj);
            lemma_digit_run_end(x, i);
            lemma_digit_run_end(y, j);
            let ei = digit_run_end(x, i);
            let ej = digit_run_end(y, j);
            assert(a.subrange(ai, p.len() + ei) =~= x.subrange(i, ei));
            assert(b.subrange(bj, q.len() + ej) =~= y.subrange(j, ej));
            lemma_natural_after_prefixes(p, q, x, y, ei, ej);
        } else {
            lemma_natural_after_prefixes(p, q, x, y, i + 1, j + 1);
        }
    }
}

/// Position `k` of `p` does not fall inside a run of digits.
pub open spec fn at_run_boundary(p: Seq<u8>, k: int) -> bool {
    k == 0 || k == p.len() || !is_digit_byte(p[k - 1]) || !is_digit_byte(p[k])
}

/// Every number written in `p` fits a `u128`, which is when runs of digits
/// compare by value.
pub open spec fn numbers_fit(p: Seq<u8>) -> bool {
    forall|k: int|
        0 <= k < p.len() && is_digit_byte(p[k]) ==> bytes_value(#[trigger] p.subrange(k, digit_run_end(p, k)))
            <= u128_max()
}

proof fn lemma_natural_common_prefix(p: Seq<u8>, x: Seq<u8>, y: Seq<u8>, k: int)
    requires
        0 <= k <= p.len(),
        at_run_boundary(p, k),
        p.len() == 0 || !is_digit_byte(p.last()),
        numbers_fit(p),
    ensures
        natural_from(p + x, p + y, k, k) == natural_order(x, y),
    decreases p.len() - k,
{
    let a = p + x;
    let b = p + y;
    if k == p.len() {
        lemma_natural_after_prefixes(p, p, x, y, 0, 0);
    } else {
        assert(a[k] == p[k] && b[k] == p[k]);
        if is_digit_byte(p[k]) {
            lemma_run_end_within_prefix(p, x, k);
            lemma_run_end_within_prefix(p, y, k);
            lemma_digit_run_end(p, k);
            let e = digit_run_end(p, k);
            assert(a.subrange(k, e) =~= p.subrange(k, e));
            assert(b.subrange(k, e) =~= p.subrange(k, e));
            assert(bytes_value(p.subrange(k, e)) <= u128_max());
            assert(!is_digit_byte(p[e]));
            lemma_natural_common_prefix(p, x, y, e);
        } else {
            lemma_natural_common_prefix(p, x, y, k + 1);
        }
    }
}

/// Natural order is decided by what follows a common beginning: when two
/// branch names share a prefix that does not end inside a number (and whose
/// numbers fit a `u128`), they compare as what comes after it does. So
/// `release-1.10` and `release-1.9` compare as `10` and `9`, and `feat-1-b`
/// comes after `feat-1-a`: an equal number never ends the comparison.
pub proof fn law_natural_order_looks_past_a_common_prefix(p: Seq<u8>, x: Seq<u8>, y: Seq<u8>)
    requires
        p.len() == 0 || !is_digit_byte(p.last()),
        numbers_fit(p),
    ensures
        natural_order(p + x, p + y) == natural_order(x, y),
{
    lemma_natural_common_prefix(p, x, y, 0);
}

proof fn lemma_run_of_digits(d: Seq<u8>, x: Seq<u8>, i: int)
    requires
        0 <= i <= d.len(),
        forall|k: int| 0 <= k < d.len() ==> is_digit_byte(#[trigger] d[k]),
        x.len() == 0 || !is_digit_byte(x[0]),
    ensures
        digit_run_end(d + x, i) == d.len(),
    decreases d.len() - i,
{
    let a = d + x;
    if i < d.len() {
        assert(a[i] == d[i]);
        lemma_run_of_digits(d, x, i + 1);
    } else if x.len() > 0 {
        assert(a[i] == x[0]);
    }
}

/// Numbers compare by value, not by their text: two names that begin with
/// numbers (each fitting a `u128`) and go on with something else order as
/// the numbers do; equal numbers, however written (`01` and `1`), leave the
/// order to what follows.
pub proof fn law_numbers_compare_by_value(d1: Seq<u8>, x: Seq<u8>, d2: Seq<u8>, y: Seq<u8>)
    requires
        d1.len() > 0,
        d2.len() > 0,
        forall|k: int| 0 <= k < d1.len() ==> is_digit_byte(#[trigger] d1[k]),
        forall|k: int| 0 <= k < d2.len() ==> is_digit_byte(#[trigger] d2[k]),
        x.len() == 0 || !is_digit_byte(x[0]),
        y.len() == 0 || !is_digit_byte(y[0]),
        bytes_value(d1) <= u128_max(),
        bytes_value(d2) <= u128_max(),
    ensures
        bytes_value(d1) < bytes_value(d2) ==> natural_order(d1 + x, d2 + y) == -1,
        bytes_value(d1) > bytes_value(d2) ==> natural_order(d1 + x, d2 + y) == 1,
        bytes_value(d1) == bytes_value(d2) ==> natural_order(d1 + x, d2 + y) == natural_order(x, y),
{
    let a = d1 + x;
    let b = d2 + y;
    assert(a[0] == d1[0] && b[0] == d2[0]);
    lemma_run_of_digits(d1, x, 0);
    lemma_run_of_digits(d2, y, 0);
    assert(a.subrange(0, d1.len() as int) =~= d1);
    assert(b.subrange(0, d2.len() as int) =~= d2);
    lemma_natural_after_prefixes(d1, d2, x, y, 0, 0);
}

/// What is taken for a Makefile target is always a usable name: it starts
/// with a letter and holds no `%`, `$`, space or `=`; and a line starting
/// with a space, a tab, `#` or `.` is never one.
pub proof fn law_make_targets_are_clean_names(line: Seq<char>)
    ensures
        make_target(line) matches Some(n) ==> n.len() > 0 && is_ascii_alpha(n[0]) && forall|i: int|
            0 <= i < n.len() ==> {
                let c = #[trigger] n[i];
                c != '%' && c != '$' && c != ' ' && c != '='
            },
        line.len() > 0 && (line[0] == ' ' || line[0] == '\t' || line[0] == '#' || line[0] == '.') ==> make_target(
            line,
        ) is None,
{
    let bad = seq!['%', '$', ' ', '='];
    if let Some(n) = make_target(line) {
        assert forall|i: int| 0 <= i < n.len() implies {
            let c = #[trigger] n[i];
            c != '%' && c != '$' && c != ' ' && c != '='
        } by {
            if n[i] == '%' {
                assert(bad[0] == n[i]);
            } else if n[i] == '$' {
                assert(bad[1] == n[i]);
            } else if n[i] == ' ' {
                assert(bad[2] == n[i]);
            } else if n[i] == '=' {
                assert(bad[3] == n[i]);
            }
            if n[i] == '%' || n[i] == '$' || n[i] == ' ' || n[i] == '=' {
                assert(bad.contains(n[i]));
                assert(any_char_of(n, bad));
            }
        }
    }
    if line.len() > 0 && (line[0] == ' ' || line[0] == '\t' || line[0] == '#' || line[0] == '.') {
        let lead = seq![' ', '\t', '#', '.'];
        if line[0] == ' ' {
            assert(lead[0] == line[0]);
        } else if line[0] == '\t' {
            assert(lead[1] == line[0]);
        } else if line[0] == '#' {
            assert(lead[2] == line[0]);
        } else {
            assert(lead[3] == line[0]);
        }
        assert(lead.contains(line[0]));
    }
}

/// A port read off an `lsof` line is always a plausible one, and only a name
/// line (`n...`) gives one.
pub proof fn law_listed_ports_are_plausible(line: Seq<char>)
    ensures
        listed_port(line) matches Some(p) ==> plausible_port(p as int) && line.len() > 0 && line[0] == 'n',
{
    if let Some(p) = listed_port(line) {
        assert(strip_prefix(line, seq!['n']) is Some);
        assert(line.subrange(0, 1)[0] == line[0]);
    }
}

/// A waiter is told of a failure exactly when the server ended before it
/// had a port: its first status has no port and it crashed or stopped.
pub proof fn law_failure_means_the_run_ended(statuses: Seq<Status>, id: Seq<char>)
    ensures
        forall|j: int|
            #[trigger] first_status_at(statuses, id, j) ==> ((readiness_of(statuses, id) is Failed) == (
            statuses[j].port is None && !live(statuses[j].state))),
{
    let p = status_of(id);
    lemma_first_index_facts(statuses, p);
    if let Some(j) = first_index(statuses, p) {
        assert forall|q: int| #[trigger] first_status_at(statuses, id, q) implies q == j by {
            if q < j {
                assert(!p(statuses[q]));
            } else if q > j {
                assert(statuses[j].id@ != id);
            }
        }
    } else {
        assert forall|q: int| #[trigger] first_status_at(statuses, id, q) implies false by {
            assert(!p(statuses[q]));
        }
    }
}

} // verus!
