//! The tail of each server's output, kept in memory. Bounded on both axes so a
//! runaway process can't grow the app's footprint.
use vstd::prelude::*;
use std::collections::VecDeque;
use crate::model::{now_ms, LineView, LogLine, Stream};
use crate::text::{chars_of, in_set, push_str, slice, string_of, trim_end_by, trim_end_set};

verus! {

/// How many lines a ring keeps.
pub const MAX_LINES: usize = 2_000;

/// How many characters of one line are kept.
pub const MAX_LINE_CHARS: usize = 4_000;

/// A line as it is stored: trailing carriage returns and newlines dropped, and
/// anything past `MAX_LINE_CHARS` characters cut and marked with ` …`.
pub open spec fn stored_text(text: Seq<char>) -> Seq<char> {
    let t = trim_end_by(text, in_set(seq!['\r', '\n']));
    if t.len() > MAX_LINE_CHARS {
        t.take(MAX_LINE_CHARS as int) + seq![' ', '…']
    } else {
        t
    }
}

pub open spec fn line_views(s: Seq<LogLine>) -> Seq<LineView> {
    s.map_values(|l: LogLine| l@)
}

/// Lines numbered `seq` or higher.
pub open spec fn from_seq(lines: Seq<LineView>, seq: u64) -> Seq<LineView> {
    lines.filter(|l: LineView| l.seq >= seq)
}

/// The last `n` of `lines`, oldest first.
pub open spec fn last_n(lines: Seq<LineView>, n: nat) -> Seq<LineView> {
    if lines.len() <= n {
        lines
    } else {
        lines.skip(lines.len() - n)
    }
}

pub struct Ring {
    buf: VecDeque<LogLine>,
    next_seq: u64,
    /// Highest seq already pushed to subscribers; the flusher uses this to
    /// send only what's new.
    pub emitted_seq: u64,
}

impl Ring {
    /// The lines held, oldest first.
    pub closed spec fn lines(&self) -> Seq<LineView> {
        line_views(self.buf@)
    }

    /// The number the next pushed line will get.
    pub closed spec fn next(&self) -> u64 {
        self.next_seq
    }

    /// The highest number already handed to subscribers.
    pub closed spec fn emitted(&self) -> u64 {
        self.emitted_seq
    }

    /// Bounded, numbered consecutively up to the next number to hand out,
    /// and never marked as having sent more than was numbered.
    pub open spec fn wf(&self) -> bool {
        &&& self.emitted() <= self.next()
        &&& self.lines().len() <= MAX_LINES
        &&& self.lines().len() <= self.next()
        &&& forall|i: int|
            0 <= i < self.lines().len() ==> (#[trigger] self.lines()[i]).seq == self.next()
                - self.lines().len() + i
    }

    pub fn new() -> (r: Ring)
        ensures
            r.wf(),
            r.lines() == Seq::<LineView>::empty(),
            r.next() == 0,
            r.emitted() == 0,
    {
        let r = Ring { buf: VecDeque::with_capacity(256), next_seq: 0, emitted_seq: 0 };
        assert(r.lines() =~= Seq::<LineView>::empty());
        r
    }

    pub fn push(&mut self, stream: Stream, text: &str)
        requires
            old(self).wf(),
            old(self).next() < u64::MAX,
        ensures
            final(self).wf(),
            final(self).next() == old(self).next() + 1,
            final(self).emitted() == old(self).emitted(),
            final(self).lines().len() > 0,
            ({
                let last = final(self).lines().last();
                &&& last.seq == old(self).next()
                &&& last.stream == stream
                &&& last.text == stored_text(text@)
            }),
            final(self).lines().drop_last() == (if old(self).lines().len() == MAX_LINES {
                old(self).lines().drop_first()
            } else {
                old(self).lines()
            }),
    {
        let v = chars_of(text);
        let ends = vec!['\r', '\n'];
        let t = trim_end_set(v.as_slice(), ends.as_slice());
        let kept = if t.len() > MAX_LINE_CHARS {
            let mut k = slice(t.as_slice(), 0, MAX_LINE_CHARS);
            push_str(&mut k, " …");
            proof {
                reveal_strlit(" …");
            }
            k
        } else {
            t
        };
        assert(kept@ == stored_text(text@));
        let line = LogLine { seq: self.next_seq, ts: now_ms(), stream, text: string_of(kept.as_slice()) };
        let ghost before = self.lines();
        self.next_seq += 1;
        if self.buf.len() == MAX_LINES {
            self.buf.pop_front();
        }
        let ghost mid = self.lines();
        assert(mid == (if before.len() == MAX_LINES { before.drop_first() } else { before })) by {
            if before.len() == MAX_LINES {
                assert(mid =~= before.drop_first());
            }
        }
        self.buf.push_back(line);
        assert(self.lines() =~= mid.push(line@));
        assert(self.lines().drop_last() =~= mid);
        assert forall|i: int| 0 <= i < self.lines().len() implies (#[trigger] self.lines()[i]).seq
            == self.next() - self.lines().len() + i by {
            if i < self.lines().len() - 1 {
                if before.len() == MAX_LINES {
                    assert(self.lines()[i] == before[i + 1]);
                } else {
                    assert(self.lines()[i] == before[i]);
                }
            }
        }
    }

    pub fn has_pending(&self) -> (b: bool)
        ensures
            b == (self.next() > self.emitted()),
    {
        self.next_seq > self.emitted_seq
    }

    /// Lines of `buf` numbered `seq` or higher, oldest first.
    fn collect_from(&self, seq: u64) -> (out: Vec<LogLine>)
        ensures
            line_views(out@) == from_seq(self.lines(), seq),
    {
        let mut out: Vec<LogLine> = Vec::new();
        let mut i: usize = 0;
        let ghost all = self.lines();
        while i < self.buf.len()
            invariant
                i <= self.buf@.len(),
                all == self.lines(),
                all.len() == self.buf@.len(),
                line_views(out@) == from_seq(all.take(i as int), seq),
            decreases self.buf@.len() - i,
        {
            let ghost before = line_views(out@);
            let l = &self.buf[i];
            assert(all[i as int] == l@);
            assert(all.take(i + 1).drop_last() == all.take(i as int));
            assert(all.take(i + 1).last() == l@);
            reveal(Seq::filter);
            if l.seq >= seq {
                out.push(l.clone());
                assert(line_views(out@) =~= before.push(l@));
            }
            i += 1;
        }
        assert(all.take(i as int) == all);
        out
    }

    /// Drain everything newer than `emitted_seq` and mark it sent.
    pub fn take_pending(&mut self) -> (out: Vec<LogLine>)
        requires
            old(self).wf(),
        ensures
            final(self).wf(),
            line_views(out@) == from_seq(old(self).lines(), old(self).emitted()),
            final(self).lines() == old(self).lines(),
            final(self).next() == old(self).next(),
            final(self).emitted() == old(self).next(),
    {
        let out = self.collect_from(self.emitted_seq);
        self.emitted_seq = self.next_seq;
        out
    }

    /// The last `n` lines, oldest first — used when the UI opens a server.
    pub fn tail(&self, n: usize) -> (out: Vec<LogLine>)
        ensures
            line_views(out@) == last_n(self.lines(), n as nat),
    {
        let len = self.buf.len();
        let skip = if len > n { len - n } else { 0 };
        let mut out: Vec<LogLine> = Vec::new();
        let mut i = skip;
        let ghost all = self.lines();
        while i < len
            invariant
                skip <= i <= len,
                len == self.buf@.len(),
                all == self.lines(),
                all.len() == len,
                line_views(out@) == all.subrange(skip as int, i as int),
            decreases len - i,
        {
            let ghost before = line_views(out@);
            let l = &self.buf[i];
            assert(all[i as int] == l@);
            out.push(l.clone());
            assert(line_views(out@) =~= before.push(l@));
            assert(all.subrange(skip as int, i + 1) =~= all.subrange(skip as int, i as int).push(
                l@,
            ));
            i += 1;
        }
        assert(line_views(out@) =~= last_n(all, n as nat));
        out
    }

    pub fn next_seq(&self) -> (n: u64)
        ensures
            n == self.next(),
    {
        self.next_seq
    }

    /// The last `n` lines numbered `seq` or higher. A task run's output shares
    /// the server's stream, so this is how a run's own slice is picked back
    /// out of it.
    pub fn since(&self, seq: u64, n: usize) -> (out: Vec<LogLine>)
        ensures
            line_views(out@) == last_n(from_seq(self.lines(), seq), n as nat),
    {
        let all = self.collect_from(seq);
        if all.len() > n {
            let mut out: Vec<LogLine> = Vec::new();
            let start = all.len() - n;
            let mut i = start;
            while i < all.len()
                invariant
                    start <= i <= all@.len(),
                    start == all@.len() - n,
                    line_views(out@) == line_views(all@).subrange(start as int, i as int),
                decreases all@.len() - i,
            {
                let ghost before = line_views(out@);
                out.push(all[i].clone());
                assert(line_views(out@) =~= before.push(all@[i as int]@));
                assert(line_views(all@).subrange(start as int, i + 1) =~= line_views(
                    all@,
                ).subrange(start as int, i as int).push(all@[i as int]@));
                i += 1;
            }
            assert(line_views(out@) =~= line_views(all@).skip(start as int));
            out
        } else {
            all
        }
    }

    pub fn clear(&mut self)
        ensures
            final(self).wf(),
            final(self).lines() == Seq::<LineView>::empty(),
            final(self).next() == old(self).next(),
            final(self).emitted() == old(self).next(),
    {
        self.buf.clear();
        self.emitted_seq = self.next_seq;
        assert(self.lines() =~= Seq::<LineView>::empty());
    }
}

impl Default for Ring {
    fn default() -> (r: Ring)
        ensures
            r.wf(),
            r.lines() == Seq::<LineView>::empty(),
            r.next() == 0,
            r.emitted() == 0,
    {
        Ring::new()
    }
}

} // verus!
