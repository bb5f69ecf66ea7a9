//! The menu bar: what's on the heat, at a glance, with start/stop in one
//! click. Here the menu is built as a value and the clicks are decided; the
//! caller draws it and does what a click asks.
use vstd::prelude::*;
use crate::cli::first_index;
use crate::model::{live, Origin, Server, State, Status};
use crate::proto::ServerView;
use crate::supervisor::group_names;
use crate::text::{chars_of, decimal, push_decimal, push_signed, push_str, signed_decimal, string_of, strip_prefix, strip_prefix_of};

verus! {

pub open spec fn mark_glyph(state: State) -> Seq<char> {
    match state {
        State::Running => "●"@,
        State::Starting => "◐"@,
        State::Crashed => "✕"@,
        State::Stopped => "○"@,
    }
}

/// The glyph a server's state shows in the menu.
pub fn mark(state: State) -> (m: &'static str)
    ensures
        m@ == mark_glyph(state),
{
    match state {
        State::Running => "●",
        State::Starting => "◐",
        State::Crashed => "✕",
        State::Stopped => "○",
    }
}

/// Two digits, with a leading zero below ten.
pub open spec fn two_digits(n: nat) -> Seq<char> {
    if n < 10 {
        "0"@ + decimal(n)
    } else {
        decimal(n)
    }
}

/// How long a run has been up, tersely: `42s`, `7m`, `3h05`.
pub open spec fn uptime_text(ms: u64) -> Seq<char> {
    let secs = ms / 1000;
    if secs < 60 {
        decimal(secs as nat) + "s"@
    } else if secs < 3600 {
        decimal((secs / 60) as nat) + "m"@
    } else {
        decimal((secs / 3600) as nat) + "h"@ + two_digits(((secs % 3600) / 60) as nat)
    }
}

pub fn uptime(ms: u64) -> (out: String)
    ensures
        out@ == uptime_text(ms),
{
    let secs = ms / 1000;
    let mut v: Vec<char> = Vec::new();
    if secs < 60 {
        push_decimal(&mut v, secs);
        push_str(&mut v, "s");
    } else if secs < 3600 {
        push_decimal(&mut v, secs / 60);
        push_str(&mut v, "m");
    } else {
        push_decimal(&mut v, secs / 3600);
        push_str(&mut v, "h");
        let m = (secs % 3600) / 60;
        if m < 10 {
            push_str(&mut v, "0");
        }
        push_decimal(&mut v, m);
    }
    assert(v@ =~= uptime_text(ms));
    string_of(v.as_slice())
}

/// The parts of a server's menu line.
pub open spec fn label_parts(view: ServerView, now: u64) -> Seq<Seq<char>> {
    let s = view.status;
    let head = seq![mark_glyph(s.state) + " "@ + view.server.name@];
    if live(s.state) {
        let port = match s.port {
            Some(p) => seq![":"@ + decimal(p as nat)],
            None => Seq::empty(),
        };
        let up = match s.started_at {
            Some(t) => seq![uptime_text(if now >= t { (now - t) as u64 } else { 0 })],
            None => Seq::empty(),
        };
        let by = match s.origin {
            Some(Origin::Agent { client, .. }) => seq![
                "⌁ "@ + (if client@.len() == 0 {
                    "agent"@
                } else {
                    client@
                }),
            ],
            _ => Seq::empty(),
        };
        head + port + up + by
    } else if s.state == State::Crashed {
        head + seq![
            match s.exit_code {
                Some(c) => "exit "@ + signed_decimal(c as int),
                None => "crashed"@,
            },
        ]
    } else {
        head
    }
}

/// `parts` joined with `sep`.
pub open spec fn joined(parts: Seq<Seq<char>>, sep: Seq<char>) -> Seq<char>
    decreases parts.len(),
{
    if parts.len() == 0 {
        Seq::empty()
    } else if parts.len() == 1 {
        parts[0]
    } else {
        joined(parts.drop_last(), sep) + sep + parts.last()
    }
}

/// One line per server: "● api · :3000 · 12m". Kept terse so the menu stays
/// scannable rather than becoming a table.
pub open spec fn label_text(view: ServerView, now: u64) -> Seq<char> {
    joined(label_parts(view, now), " · "@)
}

fn join_parts(parts: &Vec<Vec<char>>, sep: &str) -> (out: Vec<char>)
    ensures
        out@ == joined(parts@.map_values(|p: Vec<char>| p@), sep@),
{
    let ghost pv = parts@.map_values(|p: Vec<char>| p@);
    let n = parts.len();
    let mut out: Vec<char> = Vec::new();
    let mut i: usize = 0;
    while i < n
        invariant
            i <= n,
            n == parts@.len(),
            pv == parts@.map_values(|p: Vec<char>| p@),
            out@ == joined(pv.take(i as int), sep@),
        decreases n - i,
    {
        assert(pv.take(i + 1).drop_last() =~= pv.take(i as int));
        if i > 0 {
            push_str(&mut out, sep);
        } else {
            assert(pv.take(1)[0] == pv[0]);
        }
        crate::text::push_all(&mut out, parts[i].as_slice());
        i += 1;
    }
    assert(pv.take(n as int) =~= pv);
    out
}

/// The menu line of `view` at time `now`.
pub fn label_at(view: &ServerView, now: u64) -> (out: String)
    ensures
        out@ == label_text(*view, now),
{
    let s = &view.status;
    let mut parts: Vec<Vec<char>> = Vec::new();
    let mut head = chars_of(mark(s.state));
    push_str(&mut head, " ");
    push_str(&mut head, view.server.name.as_str());
    parts.push(head);
    let ghost pv0 = parts@.map_values(|p: Vec<char>| p@);
    assert(pv0 =~= seq![mark_glyph(s.state) + " "@ + view.server.name@]);
    if s.state.is_live() {
        let ghost before = parts@.map_values(|p: Vec<char>| p@);
        if let Some(p) = s.port {
            let mut v = chars_of(":");
            push_decimal(&mut v, p as u64);
            parts.push(v);
        }
        let ghost with_port = parts@.map_values(|p: Vec<char>| p@);
        assert(with_port =~= before + match s.port {
            Some(p) => seq![":"@ + decimal(p as nat)],
            None => Seq::<Seq<char>>::empty(),
        });
        if let Some(t) = s.started_at {
            parts.push(chars_of(uptime(now.saturating_sub(t)).as_str()));
        }
        let ghost with_up = parts@.map_values(|p: Vec<char>| p@);
        assert(with_up =~= with_port + match s.started_at {
            Some(t) => seq![uptime_text(if now >= t { (now - t) as u64 } else { 0 })],
            None => Seq::<Seq<char>>::empty(),
        });
        if let Some(Origin::Agent { client, .. }) = &s.origin {
            let mut v = chars_of("⌁ ");
            if client.as_str().is_empty() {
                push_str(&mut v, "agent");
            } else {
                push_str(&mut v, client.as_str());
            }
            parts.push(v);
        }
        assert(parts@.map_values(|p: Vec<char>| p@) =~= label_parts(*view, now));
    } else if s.state == State::Crashed {
        let v = match s.exit_code {
            Some(c) => {
                let mut v = chars_of("exit ");
                push_signed(&mut v, c as i64);
                v
            },
            None => chars_of("crashed"),
        };
        parts.push(v);
        assert(parts@.map_values(|p: Vec<char>| p@) =~= label_parts(*view, now));
    } else {
        assert(parts@.map_values(|p: Vec<char>| p@) =~= label_parts(*view, now));
    }
    string_of(join_parts(&parts, " · ").as_slice())
}

/// The menu line of `view` as of now.
pub fn label(view: &ServerView) -> (out: String)
    ensures
        exists|now: u64| out@ == label_text(*view, now),
{
    label_at(view, crate::model::now_ms())
}

} // verus!

verus! {

// ---- the menu -------------------------------------------------------------------

/// One clickable line of the menu.
#[derive(Debug)]
pub struct Item {
    pub id: String,
    pub text: String,
    pub enabled: bool,
    /// The keyboard shortcut shown beside it, if any.
    pub accelerator: Option<String>,
}

pub struct ItemView {
    pub id: Seq<char>,
    pub text: Seq<char>,
    pub enabled: bool,
    pub accelerator: Option<Seq<char>>,
}

impl View for Item {
    type V = ItemView;

    open spec fn view(&self) -> ItemView {
        ItemView {
            id: self.id@,
            text: self.text@,
            enabled: self.enabled,
            accelerator: match self.accelerator {
                Some(a) => Some(a@),
                None => None,
            },
        }
    }
}

/// A project's submenu: its servers, then, after a separator, starting and
/// stopping all of them.
#[derive(Debug)]
pub struct Submenu {
    pub id: String,
    pub heading: String,
    pub items: Vec<Item>,
    pub start_all: Item,
    pub stop_all: Item,
}

#[derive(Debug)]
pub enum Entry {
    Item(Item),
    Separator,
    Submenu(Submenu),
}

pub enum EntryView {
    Item(ItemView),
    Separator,
    Submenu { id: Seq<char>, heading: Seq<char>, items: Seq<ItemView>, start_all: ItemView, stop_all: ItemView },
}

pub open spec fn item_views(v: Seq<Item>) -> Seq<ItemView> {
    v.map_values(|i: Item| i@)
}

pub open spec fn entry_view(e: Entry) -> EntryView {
    match e {
        Entry::Item(i) => EntryView::Item(i@),
        Entry::Separator => EntryView::Separator,
        Entry::Submenu(s) => EntryView::Submenu {
            id: s.id@,
            heading: s.heading@,
            items: item_views(s.items@),
            start_all: s.start_all@,
            stop_all: s.stop_all@,
        },
    }
}

pub open spec fn entry_views(v: Seq<Entry>) -> Seq<EntryView> {
    v.map_values(|e: Entry| entry_view(e))
}

pub open spec fn plain_item(id: Seq<char>, text: Seq<char>, enabled: bool) -> ItemView {
    ItemView { id, text, enabled, accelerator: None }
}

/// Clicking a server's line toggles it — the shortest path to what you came
/// for.
pub open spec fn toggle_model(view: ServerView, now: u64) -> ItemView {
    plain_item("toggle:"@ + view.server.id@, label_text(view, now), true)
}

pub open spec fn in_group(g: Seq<char>) -> spec_fn(ServerView) -> bool {
    |v: ServerView| v.server.group@ == g
}

pub open spec fn is_live_view() -> spec_fn(ServerView) -> bool {
    |v: ServerView| live(v.status.state)
}

pub open spec fn servers_of(views: Seq<ServerView>) -> Seq<Server> {
    views.map_values(|v: ServerView| v.server)
}

pub open spec fn submenu_model(views: Seq<ServerView>, g: Seq<char>, now: u64) -> EntryView {
    let members = views.filter(in_group(g));
    let on = members.filter(is_live_view()).len();
    EntryView::Submenu {
        id: "group:"@ + g,
        heading: if on > 0 {
            g + "   "@ + decimal(on) + "/"@ + decimal(members.len()) + " on"@
        } else {
            g
        },
        items: members.map_values(|v: ServerView| toggle_model(v, now)),
        start_all: plain_item("group-start:"@ + g, "Start all of "@ + g, on < members.len()),
        stop_all: plain_item("group-stop:"@ + g, "Stop all of "@ + g, on > 0),
    }
}

/// The menu at time `now`. Ungrouped servers sit at the top level; a
/// project's services collapse into one submenu, in order of first
/// appearance, that starts or stops them as a unit.
pub open spec fn menu_model(views: Seq<ServerView>, now: u64) -> Seq<EntryView> {
    let body = if views.len() == 0 {
        seq![EntryView::Item(plain_item("noop"@, "Nothing in the kitchen yet"@, false))]
    } else {
        views.filter(in_group(Seq::empty())).map_values(|v: ServerView| EntryView::Item(toggle_model(v, now)))
            + group_names(servers_of(views)).map_values(|g: Seq<char>| submenu_model(views, g, now))
    };
    let stop = if views.filter(is_live_view()).len() > 0 {
        seq![EntryView::Item(plain_item("stop-all"@, "Stop everything"@, true))]
    } else {
        Seq::empty()
    };
    body + seq![EntryView::Separator] + stop + seq![
        EntryView::Item(ItemView { id: "open"@, text: "Open Cucina"@, enabled: true, accelerator: Some("Cmd+O"@) }),
        EntryView::Separator,
        EntryView::Item(ItemView { id: "quit"@, text: "Quit Cucina"@, enabled: true, accelerator: Some("Cmd+Q"@) }),
    ]
}

fn text(s: &str) -> (r: String)
    ensures
        r@ == s@,
{
    string_of(chars_of(s).as_slice())
}

fn prefixed(p: &str, s: &str) -> (r: String)
    ensures
        r@ == p@ + s@,
{
    let mut v = chars_of(p);
    push_str(&mut v, s);
    string_of(v.as_slice())
}

fn toggle_item(view: &ServerView, now: u64) -> (i: Item)
    ensures
        i@ == toggle_model(*view, now),
{
    Item { id: prefixed("toggle:", view.server.id.as_str()), text: label_at(view, now), enabled: true, accelerator: None }
}

fn count_live(views: &[ServerView]) -> (n: usize)
    ensures
        n == views@.filter(is_live_view()).len(),
{
    let ghost p = is_live_view();
    let len = views.len();
    let mut n: usize = 0;
    let mut i: usize = 0;
    while i < len
        invariant
            i <= len,
            len == views@.len(),
            p == is_live_view(),
            n == views@.take(i as int).filter(p).len(),
            n <= i,
        decreases len - i,
    {
        proof {
            reveal(Seq::filter);
            assert(views@.take(i + 1).drop_last() =~= views@.take(i as int));
        }
        if views[i].status.state.is_live() {
            n += 1;
        }
        i += 1;
    }
    assert(views@.take(len as int) =~= views@);
    n
}

fn group_counts(views: &[ServerView], g: &String) -> (r: (usize, usize))
    ensures
        r.0 == views@.filter(in_group(g@)).len(),
        r.1 == views@.filter(in_group(g@)).filter(is_live_view()).len(),
{
    let ghost p = in_group(g@);
    let ghost q = is_live_view();
    let len = views.len();
    let mut total: usize = 0;
    let mut on: usize = 0;
    let mut i: usize = 0;
    while i < len
        invariant
            i <= len,
            len == views@.len(),
            p == in_group(g@),
            q == is_live_view(),
            total == views@.take(i as int).filter(p).len(),
            on == views@.take(i as int).filter(p).filter(q).len(),
            on <= total <= i,
        decreases len - i,
    {
        proof {
            reveal(Seq::filter);
            assert(views@.take(i + 1).drop_last() =~= views@.take(i as int));
            views@.take(i as int).filter(p).filter(q).lemma_filter_len(q);
            views@.take(i as int).filter(p).lemma_filter_len(q);
        }
        if views[i].server.group == *g {
            proof {
                assert(views@.take(i + 1).filter(p) == views@.take(i as int).filter(p).push(views@[i as int]));
                assert(views@.take(i + 1).filter(p).drop_last() =~= views@.take(i as int).filter(p));
            }
            total += 1;
            if views[i].status.state.is_live() {
                on += 1;
            }
        }
        i += 1;
    }
    assert(views@.take(len as int) =~= views@);
    (total, on)
}

fn submenu(views: &[ServerView], g: &String, now: u64) -> (e: Entry)
    ensures
        entry_view(e) == submenu_model(views@, g@, now),
{
    let ghost p = in_group(g@);
    let ghost f = |v: ServerView| toggle_model(v, now);
    let (total, on) = group_counts(views, g);
    let len = views.len();
    let mut items: Vec<Item> = Vec::new();
    let mut i: usize = 0;
    while i < len
        invariant
            i <= len,
            len == views@.len(),
            p == in_group(g@),
            f == (|v: ServerView| toggle_model(v, now)),
            item_views(items@) == views@.take(i as int).filter(p).map_values(f),
        decreases len - i,
    {
        proof {
            reveal(Seq::filter);
            assert(views@.take(i + 1).drop_last() =~= views@.take(i as int));
        }
        if views[i].server.group == *g {
            let ghost before = item_views(items@);
            items.push(toggle_item(&views[i], now));
            assert(item_views(items@) =~= before.push(toggle_model(views@[i as int], now)));
            assert(views@.take(i + 1).filter(p).map_values(f) =~= views@.take(i as int).filter(p).map_values(f).push(
                f(views@[i as int]),
            ));
        }
        i += 1;
    }
    assert(views@.take(len as int) =~= views@);
    let heading = if on > 0 {
        let mut v = chars_of(g.as_str());
        push_str(&mut v, "   ");
        push_decimal(&mut v, on as u64);
        push_str(&mut v, "/");
        push_decimal(&mut v, total as u64);
        push_str(&mut v, " on");
        string_of(v.as_slice())
    } else {
        g.clone()
    };
    let e = Entry::Submenu(
        Submenu {
            id: prefixed("group:", g.as_str()),
            heading,
            items,
            start_all: Item {
                id: prefixed("group-start:", g.as_str()),
                text: prefixed("Start all of ", g.as_str()),
                enabled: on < total,
                accelerator: None,
            },
            stop_all: Item {
                id: prefixed("group-stop:", g.as_str()),
                text: prefixed("Stop all of ", g.as_str()),
                enabled: on > 0,
                accelerator: None,
            },
        },
    );
    assert(entry_view(e) =~= submenu_model(views@, g@, now));
    e
}

} // verus!

verus! {

fn contains_name(names: &Vec<String>, g: &String) -> (b: bool)
    ensures
        b == crate::cli::strings(names@).contains(g@),
{
    let ghost sv = crate::cli::strings(names@);
    let mut i: usize = 0;
    while i < names.len()
        invariant
            i <= names@.len(),
            sv == crate::cli::strings(names@),
            forall|j: int| 0 <= j < i ==> sv[j] != g@,
        decreases names@.len() - i,
    {
        if names[i] == *g {
            assert(sv[i as int] == g@);
            return true;
        }
        i += 1;
    }
    false
}

/// The projects, in order of first appearance.
fn project_names(views: &[ServerView]) -> (names: Vec<String>)
    ensures
        crate::cli::strings(names@) == group_names(servers_of(views@)),
{
    let len = views.len();
    let mut names: Vec<String> = Vec::new();
    let mut i: usize = 0;
    assert(servers_of(views@.take(0)) =~= Seq::<Server>::empty());
    while i < len
        invariant
            i <= len,
            len == views@.len(),
            crate::cli::strings(names@) == group_names(servers_of(views@.take(i as int))),
        decreases len - i,
    {
        assert(servers_of(views@.take(i + 1)).drop_last() =~= servers_of(views@.take(i as int)));
        assert(servers_of(views@.take(i + 1)).last() == views@[i as int].server);
        let g = &views[i].server.group;
        if !g.as_str().is_empty() && !contains_name(&names, g) {
            let ghost before = crate::cli::strings(names@);
            names.push(g.clone());
            assert(crate::cli::strings(names@) =~= before.push(g@));
        }
        i += 1;
    }
    assert(views@.take(len as int) =~= views@);
    names
}

fn any_live(views: &[ServerView]) -> (b: bool)
    ensures
        b == (views@.filter(is_live_view()).len() > 0),
{
    count_live(views) > 0
}

/// The menu for `views` at time `now`.
pub fn build_menu(views: &[ServerView], now: u64) -> (menu: Vec<Entry>)
    ensures
        entry_views(menu@) == menu_model(views@, now),
{
    let mut menu: Vec<Entry> = Vec::new();
    let len = views.len();
    if len == 0 {
        menu.push(Entry::Item(Item { id: text("noop"), text: text("Nothing in the kitchen yet"), enabled: false, accelerator: None }));
    } else {
        let ghost p = in_group(Seq::<char>::empty());
        let ghost f = |v: ServerView| EntryView::Item(toggle_model(v, now));
        let mut i: usize = 0;
        assert(entry_views(menu@) =~= Seq::<EntryView>::empty());
        while i < len
            invariant
                i <= len,
                len == views@.len(),
                p == in_group(Seq::<char>::empty()),
                f == (|v: ServerView| EntryView::Item(toggle_model(v, now))),
                entry_views(menu@) == views@.take(i as int).filter(p).map_values(f),
            decreases len - i,
        {
            proof {
                reveal(Seq::filter);
                assert(views@.take(i + 1).drop_last() =~= views@.take(i as int));
            }
            if views[i].server.group.as_str().is_empty() {
                assert(views@[i as int].server.group@ =~= Seq::<char>::empty());
                let ghost before = entry_views(menu@);
                menu.push(Entry::Item(toggle_item(&views[i], now)));
                assert(entry_views(menu@) =~= before.push(f(views@[i as int])));
                assert(views@.take(i + 1).filter(p).map_values(f) =~= views@.take(i as int).filter(p).map_values(f).push(
                    f(views@[i as int]),
                ));
            }
            else {
                assert(views@[i as int].server.group@ != Seq::<char>::empty());
            }
            i += 1;
        }
        assert(views@.take(len as int) =~= views@);
        let ghost top = entry_views(menu@);
        let names = project_names(views);
        let ghost gn = crate::cli::strings(names@);
        let ghost h = |g: Seq<char>| submenu_model(views@, g, now);
        let mut j: usize = 0;
        while j < names.len()
            invariant
                j <= names@.len(),
                gn == crate::cli::strings(names@),
                h == (|g: Seq<char>| submenu_model(views@, g, now)),
                entry_views(menu@) == top + gn.take(j as int).map_values(h),
            decreases names@.len() - j,
        {
            let ghost before = entry_views(menu@);
            menu.push(submenu(views, &names[j], now));
            assert(entry_views(menu@) =~= before.push(h(gn[j as int])));
            assert(gn.take(j + 1).map_values(h) =~= gn.take(j as int).map_values(h).push(h(gn[j as int])));
            j += 1;
        }
        assert(gn.take(names@.len() as int) =~= gn);
    }
    let ghost body = entry_views(menu@);
    menu.push(Entry::Separator);
    if any_live(views) {
        menu.push(Entry::Item(Item { id: text("stop-all"), text: text("Stop everything"), enabled: true, accelerator: None }));
    }
    menu.push(Entry::Item(Item { id: text("open"), text: text("Open Cucina"), enabled: true, accelerator: Some(text("Cmd+O")) }));
    menu.push(Entry::Separator);
    menu.push(Entry::Item(Item { id: text("quit"), text: text("Quit Cucina"), enabled: true, accelerator: Some(text("Cmd+Q")) }));
    assert(entry_views(menu@) =~= menu_model(views@, now));
    menu
}

} // verus!

verus! {

// ---- clicks and the icon ---------------------------------------------------------

/// What a click on a menu item asks for.
#[derive(Debug)]
pub enum MenuAction {
    Quit,
    Open,
    StopAll,
    Toggle(String),
    GroupStart(String),
    GroupStop(String),
    Nothing,
}

pub enum ActionView {
    Quit,
    Open,
    StopAll,
    Toggle(Seq<char>),
    GroupStart(Seq<char>),
    GroupStop(Seq<char>),
    Nothing,
}

pub open spec fn action_view(a: MenuAction) -> ActionView {
    match a {
        MenuAction::Quit => ActionView::Quit,
        MenuAction::Open => ActionView::Open,
        MenuAction::StopAll => ActionView::StopAll,
        MenuAction::Toggle(s) => ActionView::Toggle(s@),
        MenuAction::GroupStart(s) => ActionView::GroupStart(s@),
        MenuAction::GroupStop(s) => ActionView::GroupStop(s@),
        MenuAction::Nothing => ActionView::Nothing,
    }
}

/// What the item with id `id` asks for.
pub open spec fn action_for(id: Seq<char>) -> ActionView {
    if id == "quit"@ {
        ActionView::Quit
    } else if id == "open"@ {
        ActionView::Open
    } else if id == "stop-all"@ {
        ActionView::StopAll
    } else {
        match strip_prefix(id, "toggle:"@) {
            Some(s) => ActionView::Toggle(s),
            None => match strip_prefix(id, "group-start:"@) {
                Some(g) => ActionView::GroupStart(g),
                None => match strip_prefix(id, "group-stop:"@) {
                    Some(g) => ActionView::GroupStop(g),
                    None => ActionView::Nothing,
                },
            },
        }
    }
}

fn is_id(v: &[char], s: &str) -> (b: bool)
    ensures
        b == (v@ == s@),
{
    let t = chars_of(s);
    crate::text::seq_eq(v, t.as_slice())
}

pub fn menu_action(id: &str) -> (a: MenuAction)
    ensures
        action_view(a) == action_for(id@),
{
    let v = chars_of(id);
    if is_id(v.as_slice(), "quit") {
        MenuAction::Quit
    } else if is_id(v.as_slice(), "open") {
        MenuAction::Open
    } else if is_id(v.as_slice(), "stop-all") {
        MenuAction::StopAll
    } else {
        match strip_prefix_of(v.as_slice(), "toggle:") {
            Some(s) => MenuAction::Toggle(string_of(s.as_slice())),
            None => match strip_prefix_of(v.as_slice(), "group-start:") {
                Some(g) => MenuAction::GroupStart(string_of(g.as_slice())),
                None => match strip_prefix_of(v.as_slice(), "group-stop:") {
                    Some(g) => MenuAction::GroupStop(string_of(g.as_slice())),
                    None => MenuAction::Nothing,
                },
            },
        }
    }
}

/// The ids of the servers that `pick` selects, in order.
pub open spec fn picked_ids(views: Seq<ServerView>, pick: spec_fn(ServerView) -> bool) -> Seq<Seq<char>> {
    views.filter(pick).map_values(|v: ServerView| v.server.id@)
}

/// Servers in project `g` that are live, or not.
pub open spec fn group_with(g: Seq<char>, on: bool) -> spec_fn(ServerView) -> bool {
    |v: ServerView| v.server.group@ == g && live(v.status.state) == on
}

fn ids_where(views: &[ServerView], g: Option<&str>, on: bool) -> (ids: Vec<String>)
    ensures
        crate::cli::strings(ids@) == picked_ids(
            views@,
            match g {
                Some(g) => group_with(g@, on),
                None => is_live_view(),
            },
        ),
{
    let ghost p = match g {
        Some(g) => group_with(g@, on),
        None => is_live_view(),
    };
    let key = match g {
        Some(g) => Some(string_of(chars_of(g).as_slice())),
        None => None,
    };
    let len = views.len();
    let mut ids: Vec<String> = Vec::new();
    let mut i: usize = 0;
    while i < len
        invariant
            i <= len,
            len == views@.len(),
            p == (match g {
                Some(g) => group_with(g@, on),
                None => is_live_view(),
            }),
            match g {
                Some(g) => key is Some && key->0@ == g@,
                None => key is None,
            },
            crate::cli::strings(ids@) == picked_ids(views@.take(i as int), p),
        decreases len - i,
    {
        proof {
            reveal(Seq::filter);
            assert(views@.take(i + 1).drop_last() =~= views@.take(i as int));
        }
        let hit = match &key {
            Some(k) => views[i].server.group == *k && views[i].status.state.is_live() == on,
            None => views[i].status.state.is_live(),
        };
        if hit {
            let ghost before = crate::cli::strings(ids@);
            ids.push(views[i].server.id.clone());
            assert(crate::cli::strings(ids@) =~= before.push(views@[i as int].server.id@));
            assert(picked_ids(views@.take(i + 1), p) =~= picked_ids(views@.take(i as int), p).push(
                views@[i as int].server.id@,
            ));
        }
        i += 1;
    }
    assert(views@.take(len as int) =~= views@);
    ids
}

/// "Stop everything": every live server.
pub fn stop_all_ids(views: &[ServerView]) -> (ids: Vec<String>)
    ensures
        crate::cli::strings(ids@) == picked_ids(views@, is_live_view()),
{
    ids_where(views, None, true)
}

/// "Start all of" a project: its members that are not live. "Stop all of"
/// it: those that are.
pub fn group_ids(views: &[ServerView], group: &str, on: bool) -> (ids: Vec<String>)
    ensures
        crate::cli::strings(ids@) == picked_ids(views@, group_with(group@, on)),
{
    ids_where(views, Some(group), on)
}

/// Whether clicking server `id` stops it (it is live) rather than starts it.
pub open spec fn toggle_stops_spec(statuses: Seq<Status>, id: Seq<char>) -> bool {
    match first_index(statuses, |s: Status| s.id@ == id) {
        Some(j) => live(statuses[j].state),
        None => false,
    }
}

pub fn toggle_stops(statuses: &[Status], id: &str) -> (stop: bool)
    ensures
        stop == toggle_stops_spec(statuses@, id@),
{
    let ghost p = |s: Status| s.id@ == id@;
    let key = string_of(chars_of(id).as_slice());
    let n = statuses.len();
    let mut i: usize = 0;
    while i < n
        invariant
            i <= n,
            n == statuses@.len(),
            key@ == id@,
            p == (|s: Status| s.id@ == id@),
            forall|j: int| 0 <= j < i ==> !p(#[trigger] statuses@[j]),
        decreases n - i,
    {
        if statuses[i].id == key {
            proof {
                crate::cli::lemma_first_index(statuses@, p, i as int);
            }
            return statuses[i].state.is_live();
        }
        i += 1;
    }
    proof {
        crate::cli::lemma_first_index(statuses@, p, i as int);
    }
    false
}

/// The number beside the mark: how many servers are live, and nothing at
/// all when none is. Clearing has to be an empty string: passing none reads
/// as "leave it alone" on macOS, which would strand the last count.
pub fn tray_title(views: &[ServerView]) -> (t: String)
    ensures
        t@ == (if views@.filter(is_live_view()).len() > 0 {
            decimal(views@.filter(is_live_view()).len())
        } else {
            Seq::<char>::empty()
        }),
{
    let n = count_live(views);
    let mut v: Vec<char> = Vec::new();
    if n > 0 {
        push_decimal(&mut v, n as u64);
    }
    assert(n == 0 ==> v@ =~= Seq::<char>::empty());
    string_of(v.as_slice())
}

/// The menu bar shows the active icon while anything is live.
pub fn tray_active(views: &[ServerView]) -> (b: bool)
    ensures
        b == (views@.filter(is_live_view()).len() > 0),
{
    any_live(views)
}

} // verus!
