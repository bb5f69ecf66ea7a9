//! How the command line shows things: colour, durations and the server table.
use vstd::prelude::*;
use vstd::utf8::encode_utf8;
use crate::model::{live, Origin, State};
use crate::paths::{contract_tilde, contracted};
use crate::proto::ServerView;
use crate::text::{chars_of, decimal, push_all, push_decimal, push_signed, push_str, signed_decimal, string_of};

verus! {

/// Whether output gets ANSI colour.
pub struct Paint {
    on: bool,
}

/// `s` in the colour or weight that SGR `code` selects, when painting is on.
pub open spec fn painted(on: bool, code: Seq<char>, s: Seq<char>) -> Seq<char> {
    if on {
        "\x1b["@ + code + "m"@ + s + "\x1b[0m"@
    } else {
        s
    }
}

impl Paint {
    pub closed spec fn is_on(&self) -> bool {
        self.on
    }

    /// Colour goes to a terminal, unless `NO_COLOR` is set.
    pub fn detect(no_color: bool, stdout_is_tty: bool) -> (p: Paint)
        ensures
            p.is_on() == (!no_color && stdout_is_tty),
    {
        Paint { on: !no_color && stdout_is_tty }
    }

    pub fn wrap(&self, code: &str, s: &str) -> (out: String)
        ensures
            out@ == painted(self.is_on(), code@, s@),
    {
        if self.on {
            let mut v = chars_of("\x1b[");
            push_str(&mut v, code);
            push_str(&mut v, "m");
            push_str(&mut v, s);
            push_str(&mut v, "\x1b[0m");
            assert(v@ =~= painted(self.is_on(), code@, s@));
            string_of(v.as_slice())
        } else {
            string_of(chars_of(s).as_slice())
        }
    }

    pub fn dim(&self, s: &str) -> (out: String)
        ensures
            out@ == painted(self.is_on(), "2"@, s@),
    {
        self.wrap("2", s)
    }

    pub fn bold(&self, s: &str) -> (out: String)
        ensures
            out@ == painted(self.is_on(), "1"@, s@),
    {
        self.wrap("1", s)
    }

    pub fn green(&self, s: &str) -> (out: String)
        ensures
            out@ == painted(self.is_on(), "32"@, s@),
    {
        self.wrap("32", s)
    }

    pub fn red(&self, s: &str) -> (out: String)
        ensures
            out@ == painted(self.is_on(), "31"@, s@),
    {
        self.wrap("31", s)
    }

    /// 208 is the closest 256-colour cell to Cucina's terracotta.
    pub fn terracotta(&self, s: &str) -> (out: String)
        ensures
            out@ == painted(self.is_on(), "38;5;208"@, s@),
    {
        self.wrap("38;5;208", s)
    }
}

/// A span of time, coarsened to the unit that matters: `42s`, `7m`,
/// `3h 12m`, `2d`.
pub open spec fn duration_text(ms: u64) -> Seq<char> {
    let secs = ms / 1000;
    if secs < 60 {
        decimal(secs as nat) + "s"@
    } else if secs < 3600 {
        decimal((secs / 60) as nat) + "m"@
    } else if secs < 86_400 {
        decimal((secs / 3600) as nat) + "h "@ + decimal(((secs % 3600) / 60) as nat) + "m"@
    } else {
        decimal((secs / 86_400) as nat) + "d"@
    }
}

pub fn duration(ms: u64) -> (out: String)
    ensures
        out@ == duration_text(ms),
{
    let secs = ms / 1000;
    let mut v: Vec<char> = Vec::new();
    if secs < 60 {
        push_decimal(&mut v, secs);
        push_str(&mut v, "s");
    } else if secs < 3600 {
        push_decimal(&mut v, secs / 60);
        push_str(&mut v, "m");
    } else if secs < 86_400 {
        push_decimal(&mut v, secs / 3600);
        push_str(&mut v, "h ");
        push_decimal(&mut v, (secs % 3600) / 60);
        push_str(&mut v, "m");
    } else {
        push_decimal(&mut v, secs / 86_400);
        push_str(&mut v, "d");
    }
    assert(v@ =~= duration_text(ms));
    string_of(v.as_slice())
}

pub open spec fn mark_text(state: State, on: bool) -> Seq<char> {
    match state {
        State::Running => painted(on, "32"@, "●"@),
        State::Starting => painted(on, "38;5;208"@, "◐"@),
        State::Crashed => painted(on, "31"@, "✕"@),
        State::Stopped => painted(on, "2"@, "○"@),
    }
}

/// The glyph that shows a state at a glance.
pub fn mark(state: State, paint: &Paint) -> (out: String)
    ensures
        out@ == mark_text(state, paint.is_on()),
{
    match state {
        State::Running => paint.green("●"),
        State::Starting => paint.terracotta("◐"),
        State::Crashed => paint.red("✕"),
        State::Stopped => paint.dim("○"),
    }
}

pub open spec fn word_text(state: State) -> Seq<char> {
    match state {
        State::Running => "running"@,
        State::Starting => "starting"@,
        State::Crashed => "crashed"@,
        State::Stopped => "stopped"@,
    }
}

/// A state in words.
pub fn word(state: State) -> (w: &'static str)
    ensures
        w@ == word_text(state),
{
    match state {
        State::Running => "running",
        State::Starting => "starting",
        State::Crashed => "crashed",
        State::Stopped => "stopped",
    }
}

} // verus!

verus! {

// ---- the server table -------------------------------------------------------------

/// The length of `s` in bytes, as `str::len` reports it.
pub open spec fn byte_len(s: Seq<char>) -> nat {
    (encode_utf8(s).len() as usize) as nat
}

/// The name column is as wide as the longest name in bytes, and at least 4.
pub open spec fn name_width(v: Seq<ServerView>) -> nat
    decreases v.len(),
{
    if v.len() == 0 {
        4
    } else {
        let w = name_width(v.drop_last());
        let n = byte_len(v.last().server.name@);
        if n > w {
            n
        } else {
            w
        }
    }
}

/// The state column is as wide as the longest state word.
pub open spec fn state_width(v: Seq<ServerView>) -> nat
    decreases v.len(),
{
    if v.len() == 0 {
        0
    } else {
        let w = state_width(v.drop_last());
        let n = word_text(v.last().status.state).len();
        if n > w {
            n
        } else {
            w
        }
    }
}

pub open spec fn spaces(n: nat) -> Seq<char> {
    Seq::new(n, |i: int| ' ')
}

/// `s` padded with spaces on the right to `w` characters.
pub open spec fn pad_right(s: Seq<char>, w: nat) -> Seq<char> {
    if s.len() >= w {
        s
    } else {
        s + spaces((w - s.len()) as nat)
    }
}

/// `s` padded with spaces on the left to `w` characters.
pub open spec fn pad_left(s: Seq<char>, w: nat) -> Seq<char> {
    if s.len() >= w {
        s
    } else {
        spaces((w - s.len()) as nat) + s
    }
}

pub open spec fn port_text(port: Option<u16>) -> Seq<char> {
    match port {
        Some(p) => ":"@ + decimal(p as nat),
        None => Seq::empty(),
    }
}

/// How long a live run has been up, measured at `now`.
pub open spec fn uptime_text(s: crate::model::Status, now: u64) -> Seq<char> {
    match s.started_at {
        Some(t) => if live(s.state) {
            duration_text(if now >= t { (now - t) as u64 } else { 0 })
        } else {
            Seq::empty()
        },
        None => Seq::empty(),
    }
}

pub open spec fn detail_text(s: crate::model::Status) -> Seq<char> {
    match s.exit_code {
        Some(c) => if s.state == State::Crashed {
            "exit "@ + signed_decimal(c as int)
        } else {
            Seq::empty()
        },
        None => Seq::empty(),
    }
}

/// Which agent started a run, and on what.
pub open spec fn by_text(o: Option<Origin>) -> Seq<char> {
    match o {
        Some(Origin::Agent { client, session }) => {
            let who = if client@.len() == 0 {
                "agent"@
            } else {
                client@
            };
            if session@.len() == 0 {
                "  ⌁ "@ + who
            } else {
                "  ⌁ "@ + who + " · "@ + session@
            }
        },
        _ => Seq::empty(),
    }
}

/// The mark, name and state columns of a row.
pub open spec fn row_head(v: ServerView, nw: nat, sw: nat, on: bool) -> Seq<char> {
    "  "@ + mark_text(v.status.state, on) + "  "@ + painted(on, "1"@, pad_right(v.server.name@, nw)) + "  "@
        + painted(on, "2"@, pad_right(word_text(v.status.state), sw))
}

/// The port and uptime columns of a row.
pub open spec fn row_middle(v: ServerView, on: bool, now: u64) -> Seq<char> {
    "  "@ + pad_left(painted(on, "38;5;208"@, port_text(v.status.port)), 7) + "  "@
        + pad_left(painted(on, "2"@, uptime_text(v.status, now)), 6)
}

/// The last columns of a row: how it exited, or where it runs; and who
/// started it.
pub open spec fn row_tail(v: ServerView, on: bool, home: Seq<char>) -> Seq<char> {
    let detail = detail_text(v.status);
    "  "@ + painted(on, "2"@, if detail.len() == 0 {
        contracted(v.server.dir@, home)
    } else {
        detail
    }) + painted(on, "2"@, by_text(v.status.origin)) + "\n"@
}

pub open spec fn row_text(v: ServerView, nw: nat, sw: nat, on: bool, now: u64, home: Seq<char>) -> Seq<char> {
    row_head(v, nw, sw, on) + row_middle(v, on, now) + row_tail(v, on, home)
}

pub open spec fn rows_text(v: Seq<ServerView>, nw: nat, sw: nat, on: bool, now: u64, home: Seq<char>) -> Seq<char>
    decreases v.len(),
{
    if v.len() == 0 {
        Seq::empty()
    } else {
        rows_text(v.drop_last(), nw, sw, on, now, home) + row_text(v.last(), nw, sw, on, now, home)
    }
}

/// The table `cucina` prints with no arguments, at time `now`.
pub open spec fn table_text(views: Seq<ServerView>, on: bool, now: u64, home: Seq<char>) -> Seq<char> {
    if views.len() == 0 {
        painted(on, "2"@, "Nothing in the kitchen yet."@) + "\n"@
            + painted(on, "2"@, "  cucina add --name api --dir . --command \"npm run dev\""@) + "\n"@
    } else {
        rows_text(views, name_width(views), state_width(views), on, now, home)
    }
}

fn push_padded_right(v: &mut Vec<char>, s: &[char], w: usize)
    ensures
        final(v)@ == old(v)@ + pad_right(s@, w as nat),
{
    push_all(v, s);
    if s.len() < w {
        let ghost mid = v@;
        let mut k: usize = s.len();
        while k < w
            invariant
                s@.len() <= k <= w,
                mid == old(v)@ + s@,
                v@ == mid + spaces((k - s@.len()) as nat),
            decreases w - k,
        {
            v.push(' ');
            k += 1;
            assert(v@ =~= mid + spaces((k - s@.len()) as nat));
        }
        assert(v@ =~= old(v)@ + pad_right(s@, w as nat));
    } else {
        assert(v@ =~= old(v)@ + pad_right(s@, w as nat));
    }
}

fn push_padded_left(v: &mut Vec<char>, s: &[char], w: usize)
    ensures
        final(v)@ == old(v)@ + pad_left(s@, w as nat),
{
    if s.len() < w {
        let mut k: usize = s.len();
        while k < w
            invariant
                s@.len() <= k <= w,
                v@ == old(v)@ + spaces((k - s@.len()) as nat),
            decreases w - k,
        {
            v.push(' ');
            k += 1;
            assert(v@ =~= old(v)@ + spaces((k - s@.len()) as nat));
        }
    }
    let ghost mid = v@;
    push_all(v, s);
    assert(v@ =~= old(v)@ + pad_left(s@, w as nat));
}

fn port_of(port: Option<u16>) -> (out: Vec<char>)
    ensures
        out@ == port_text(port),
{
    let mut v: Vec<char> = Vec::new();
    if let Some(p) = port {
        v.push(':');
        push_decimal(&mut v, p as u64);
        proof {
            reveal_strlit(":");
        }
        assert(v@ =~= port_text(port));
    }
    v
}

fn uptime_of(s: &crate::model::Status, now: u64) -> (out: Vec<char>)
    ensures
        out@ == uptime_text(*s, now),
{
    match s.started_at {
        Some(t) => if s.state.is_live() {
            chars_of(duration(now.saturating_sub(t)).as_str())
        } else {
            Vec::new()
        },
        None => Vec::new(),
    }
}

fn detail_of(s: &crate::model::Status) -> (out: Vec<char>)
    ensures
        out@ == detail_text(*s),
{
    match s.exit_code {
        Some(c) => if s.state == State::Crashed {
            let mut v = chars_of("exit ");
            push_signed(&mut v, c as i64);
            v
        } else {
            Vec::new()
        },
        None => Vec::new(),
    }
}

fn by_of(o: &Option<Origin>) -> (out: Vec<char>)
    ensures
        out@ == by_text(*o),
{
    match o {
        Some(Origin::Agent { client, session }) => {
            let mut v = chars_of("  ⌁ ");
            if client.as_str().is_empty() {
                push_str(&mut v, "agent");
            } else {
                push_str(&mut v, client.as_str());
            }
            if !session.as_str().is_empty() {
                push_str(&mut v, " · ");
                push_str(&mut v, session.as_str());
            }
            assert(v@ =~= by_text(*o));
            v
        },
        _ => Vec::new(),
    }
}

fn push_head(out: &mut Vec<char>, view: &ServerView, paint: &Paint, nw: usize, sw: usize)
    ensures
        final(out)@ == old(out)@ + row_head(*view, nw as nat, sw as nat, paint.is_on()),
{
    let s = &view.status;
    push_str(out, "  ");
    push_str(out, mark(s.state, paint).as_str());
    push_str(out, "  ");
    let mut name: Vec<char> = Vec::new();
    push_padded_right(&mut name, chars_of(view.server.name.as_str()).as_slice(), nw);
    push_str(out, paint.bold(string_of(name.as_slice()).as_str()).as_str());
    push_str(out, "  ");
    let mut state: Vec<char> = Vec::new();
    push_padded_right(&mut state, chars_of(word(s.state)).as_slice(), sw);
    push_str(out, paint.dim(string_of(state.as_slice()).as_str()).as_str());
    assert(out@ =~= old(out)@ + row_head(*view, nw as nat, sw as nat, paint.is_on()));
}

fn push_middle(out: &mut Vec<char>, view: &ServerView, paint: &Paint, now: u64)
    ensures
        final(out)@ == old(out)@ + row_middle(*view, paint.is_on(), now),
{
    let s = &view.status;
    push_str(out, "  ");
    let port = paint.terracotta(string_of(port_of(s.port).as_slice()).as_str());
    push_padded_left(out, chars_of(port.as_str()).as_slice(), 7);
    push_str(out, "  ");
    let up = paint.dim(string_of(uptime_of(s, now).as_slice()).as_str());
    push_padded_left(out, chars_of(up.as_str()).as_slice(), 6);
    assert(out@ =~= old(out)@ + row_middle(*view, paint.is_on(), now));
}

fn push_tail(out: &mut Vec<char>, view: &ServerView, paint: &Paint, home: &str)
    ensures
        final(out)@ == old(out)@ + row_tail(*view, paint.is_on(), home@),
{
    let s = &view.status;
    push_str(out, "  ");
    let detail = detail_of(s);
    let last = if detail.len() == 0 {
        contract_tilde(view.server.dir.as_str(), home)
    } else {
        string_of(detail.as_slice())
    };
    push_str(out, paint.dim(last.as_str()).as_str());
    push_str(out, paint.dim(string_of(by_of(&s.origin).as_slice()).as_str()).as_str());
    push_str(out, "\n");
    assert(out@ =~= old(out)@ + row_tail(*view, paint.is_on(), home@));
}

fn push_row(out: &mut Vec<char>, view: &ServerView, paint: &Paint, nw: usize, sw: usize, now: u64, home: &str)
    ensures
        final(out)@ == old(out)@ + row_text(*view, nw as nat, sw as nat, paint.is_on(), now, home@),
{
    push_head(out, view, paint, nw, sw);
    push_middle(out, view, paint, now);
    push_tail(out, view, paint, home);
    assert(out@ =~= old(out)@ + row_text(*view, nw as nat, sw as nat, paint.is_on(), now, home@));
}

/// The table at time `now`, with paths under `home` written with `~`.
/// Columns are padded to the widest value so it stays readable with long
/// names.
pub fn table_at(views: &[ServerView], paint: &Paint, now: u64, home: &str) -> (out: String)
    ensures
        out@ == table_text(views@, paint.is_on(), now, home@),
{
    let n = views.len();
    if n == 0 {
        let mut v = chars_of(paint.dim("Nothing in the kitchen yet.").as_str());
        push_str(&mut v, "\n");
        push_str(&mut v, paint.dim("  cucina add --name api --dir . --command \"npm run dev\"").as_str());
        push_str(&mut v, "\n");
        assert(v@ =~= table_text(views@, paint.is_on(), now, home@));
        return string_of(v.as_slice());
    }
    let mut nw: usize = 4;
    let mut sw: usize = 0;
    let mut i: usize = 0;
    while i < n
        invariant
            i <= n,
            n == views@.len(),
            nw as nat == name_width(views@.take(i as int)),
            sw as nat == state_width(views@.take(i as int)),
        decreases n - i,
    {
        assert(views@.take(i + 1).drop_last() =~= views@.take(i as int));
        let b = views[i].server.name.as_str().len();
        if b > nw {
            nw = b;
        }
        let w = chars_of(word(views[i].status.state)).len();
        if w > sw {
            sw = w;
        }
        i += 1;
    }
    assert(views@.take(n as int) =~= views@);
    let mut out: Vec<char> = Vec::new();
    let mut j: usize = 0;
    while j < n
        invariant
            j <= n,
            n == views@.len(),
            nw as nat == name_width(views@),
            sw as nat == state_width(views@),
            out@ == rows_text(views@.take(j as int), nw as nat, sw as nat, paint.is_on(), now, home@),
        decreases n - j,
    {
        assert(views@.take(j + 1).drop_last() =~= views@.take(j as int));
        push_row(&mut out, &views[j], paint, nw, sw, now, home);
        j += 1;
    }
    assert(views@.take(n as int) =~= views@);
    string_of(out.as_slice())
}

/// The table as of the current time.
pub fn table(views: &[ServerView], paint: &Paint, home: &str) -> (out: String)
    ensures
        exists|now: u64| out@ == table_text(views@, paint.is_on(), now, home@),
{
    let now = crate::model::now_ms();
    table_at(views, paint, now, home)
}

} // verus!
