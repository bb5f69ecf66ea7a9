//! Finding the port a dev server listens on from what it prints.
use vstd::prelude::*;
use vstd::string::StringSliceAdditionalSpecFns;
use crate::text::{
    after_last_of, chars_of, decimal, last_piece, lines, lossy_of, parse_i32, parse_i32_of, parse_u16,
    parse_u16_of, parse_u32, parse_u32_of, push_decimal, split_lines, split_words, string_of, strip_prefix,
    strip_prefix_of, utf8_lossy, views, words,
};

verus! {

/// Ports we'd never want to surface as "the server's port".
pub open spec fn plausible_port(port: int) -> bool {
    1024 < port < 60_000
}

pub fn plausible(port: u16) -> (b: bool)
    ensures
        b == plausible_port(port as int),
{
    port > 1024 && port < 60_000
}

pub open spec fn is_digit_byte(b: u8) -> bool {
    48 <= b <= 57
}

pub open spec fn is_alnum_byte(b: u8) -> bool {
    is_digit_byte(b) || (65 <= b <= 90) || (97 <= b <= 122)
}

/// Where the run of ASCII digits starting at `start` ends.
pub open spec fn digit_run_end(b: Seq<u8>, start: int) -> int
    decreases b.len() - start,
{
    if 0 <= start < b.len() && is_digit_byte(b[start]) {
        digit_run_end(b, start + 1)
    } else {
        start
    }
}

/// The value of a run of ASCII digit bytes.
pub open spec fn bytes_value(s: Seq<u8>) -> nat
    decreases s.len(),
{
    if s.len() == 0 {
        0
    } else {
        bytes_value(s.drop_last()) * 10 + (s.last() - 48) as nat
    }
}

/// The port announced by the colon at `i`, if it announces one: one to five
/// digits right after it, followed by the end of the text or by something
/// that is not a letter or digit, reading as a plausible port.
pub open spec fn port_at(b: Seq<u8>, i: int) -> Option<u16> {
    if 0 <= i < b.len() && b[i] == 58 {
        let start = i + 1;
        let end = digit_run_end(b, start);
        let terminated = end == b.len() || !is_alnum_byte(b[end]);
        let value = bytes_value(b.subrange(start, end));
        if end > start && end - start <= 5 && terminated && plausible_port(value as int) {
            Some(value as u16)
        } else {
            None
        }
    } else {
        None
    }
}

/// The first port the line announces.
pub open spec fn first_port(b: Seq<u8>, r: Option<u16>) -> bool {
    match r {
        Some(p) => exists|i: int|
            0 <= i < b.len() && port_at(b, i) == Some(p) && forall|j: int|
                0 <= j < i ==> #[trigger] port_at(b, j) is None,
        None => forall|j: int| 0 <= j < b.len() ==> #[trigger] port_at(b, j) is None,
    }
}

proof fn lemma_digit_run(b: Seq<u8>, start: int, end: int)
    requires
        0 <= start <= end <= b.len(),
        forall|k: int| start <= k < end ==> is_digit_byte(#[trigger] b[k]),
        end == b.len() || !is_digit_byte(b[end]),
    ensures
        digit_run_end(b, start) == end,
    decreases end - start,
{
    if start < end {
        lemma_digit_run(b, start + 1, end);
    }
}

/// Fast path: most dev servers announce themselves on stdout. Catching the
/// port here means we usually never have to ask the kernel at all.
pub fn scan_line(text: &str) -> (r: Option<u16>)
    ensures
        first_port(text.spec_bytes(), r),
{
    let bytes = text.as_bytes();
    let ghost b = text.spec_bytes();
    assert(bytes@ == b);
    let mut i: usize = 0;
    while i < bytes.len()
        invariant
            bytes@ == b,
            b == text.spec_bytes(),
            i <= b.len(),
            forall|j: int| 0 <= j < i ==> #[trigger] port_at(b, j) is None,
        decreases b.len() - i,
    {
        if bytes[i] == 58 {
            let start = i + 1;
            let mut end = start;
            let mut value: u64 = 0;
            while end < bytes.len() && bytes[end] >= 48 && bytes[end] <= 57
                invariant
                    bytes@ == b,
                    start <= end <= b.len(),
                    start == i + 1,
                    forall|k: int| start <= k < end ==> is_digit_byte(#[trigger] b[k]),
                    end - start <= 5 ==> value == bytes_value(b.subrange(start as int, end as int)),
                    value <= 99_999,
                    end - start <= 4 ==> value <= 9_999,
                    end - start <= 3 ==> value <= 999,
                    end - start <= 2 ==> value <= 99,
                    end - start <= 1 ==> value <= 9,
                    end - start == 0 ==> value == 0,
                decreases b.len() - end,
            {
                if end - start < 5 {
                    let d: u8 = bytes[end] - 48;
                    let ghost s1 = b.subrange(start as int, end + 1);
                    assert(s1.drop_last() == b.subrange(start as int, end as int));
                    assert(s1.last() == b[end as int]);
                    value = value * 10 + d as u64;
                }
                end += 1;
            }
            proof {
                lemma_digit_run(b, start as int, end as int);
            }
            let terminated = end == bytes.len() || !(
                (bytes[end] >= 48 && bytes[end] <= 57)
                || (bytes[end] >= 65 && bytes[end] <= 90)
                || (bytes[end] >= 97 && bytes[end] <= 122));
            if end > start && end - start <= 5 && terminated && value > 1024 && value < 60_000 {
                let port: u16 = value as u16;
                assert(port_at(b, i as int) == Some(port));
                assert(first_port(b, Some(port)));
                return Some(port);
            }
            assert(port_at(b, i as int) is None);
            assert forall|j: int| 0 <= j < end implies #[trigger] port_at(b, j) is None by {
                if i < j < end {
                    assert(is_digit_byte(b[j]));
                }
            }
            i = end;
        } else {
            i += 1;
        }
    }
    None
}

} // verus!

verus! {

// ---- asking the kernel -------------------------------------------------------------

/// The pid a `ps -Ao pid=,pgid=` line names, if it is in group `pgid`.
pub open spec fn member_pid(line: Seq<char>, pgid: i32) -> Option<u32> {
    let w = words(line);
    if w.len() >= 2 {
        match (parse_u32(w[0]), parse_i32(w[1])) {
            (Some(pid), Some(gid)) => if gid == pgid {
                Some(pid)
            } else {
                None
            },
            _ => None,
        }
    } else {
        None
    }
}

/// The pids of group `pgid`, in the order `ps` lists them.
pub open spec fn group_members(ls: Seq<Seq<char>>, pgid: i32) -> Seq<u32>
    decreases ls.len(),
{
    if ls.len() == 0 {
        Seq::empty()
    } else {
        let prev = group_members(ls.drop_last(), pgid);
        match member_pid(ls.last(), pgid) {
            Some(p) => prev.push(p),
            None => prev,
        }
    }
}

fn member_of(line: &[char], pgid: i32) -> (r: Option<u32>)
    ensures
        r == member_pid(line@, pgid),
{
    let w = split_words(line);
    assert(views(w@) == words(line@));
    if w.len() >= 2 {
        assert(w@[0]@ == words(line@)[0] && w@[1]@ == words(line@)[1]);
        match (parse_u32_of(w[0].as_slice()), parse_i32_of(w[1].as_slice())) {
            (Some(pid), Some(gid)) => if gid == pgid {
                Some(pid)
            } else {
                None
            },
            _ => None,
        }
    } else {
        None
    }
}

/// Every pid in process group `pgid`, read from what `ps -Ao pid=,pgid=`
/// printed, so a port opened by a child of the shell that was spawned
/// (`npm run dev` -> `vite`) is caught too.
pub fn group_pids(ps_output: &[u8], pgid: i32) -> (pids: Vec<u32>)
    ensures
        pids@ == group_members(lines(utf8_lossy(ps_output@)), pgid),
{
    let text = lossy_of(ps_output);
    let v = chars_of(text.as_str());
    let ls = split_lines(v.as_slice());
    let ghost all = views(ls@);
    let n = ls.len();
    let mut pids: Vec<u32> = Vec::new();
    let mut i: usize = 0;
    while i < n
        invariant
            i <= n,
            n == ls@.len(),
            all == views(ls@),
            all == lines(utf8_lossy(ps_output@)),
            pids@ == group_members(all.take(i as int), pgid),
        decreases n - i,
    {
        assert(all.take(i + 1).drop_last() =~= all.take(i as int));
        assert(all.take(i + 1).last() == ls@[i as int]@);
        if let Some(p) = member_of(ls[i].as_slice(), pgid) {
            pids.push(p);
        }
        i += 1;
    }
    assert(all.take(n as int) =~= all);
    pids
}

/// The pids as `lsof -p` takes them: decimal, separated by commas.
pub open spec fn pid_list_text(pids: Seq<u32>) -> Seq<char>
    decreases pids.len(),
{
    if pids.len() == 0 {
        Seq::empty()
    } else if pids.len() == 1 {
        decimal(pids[0] as nat)
    } else {
        pid_list_text(pids.drop_last()) + seq![','] + decimal(pids.last() as nat)
    }
}

pub fn pid_list(pids: &[u32]) -> (s: String)
    ensures
        s@ == pid_list_text(pids@),
{
    let n = pids.len();
    let mut v: Vec<char> = Vec::new();
    let mut i: usize = 0;
    while i < n
        invariant
            i <= n,
            n == pids@.len(),
            v@ == pid_list_text(pids@.take(i as int)),
        decreases n - i,
    {
        assert(pids@.take(i + 1).drop_last() =~= pids@.take(i as int));
        if i > 0 {
            v.push(',');
        } else {
            assert(pids@.take(1)[0] == pids@[0]);
        }
        push_decimal(&mut v, pids[i] as u64);
        i += 1;
    }
    assert(pids@.take(n as int) =~= pids@);
    string_of(v.as_slice())
}

/// The port an `lsof -F n` name line gives: the number after its last
/// colon, where that is a plausible port.
pub open spec fn listed_port(line: Seq<char>) -> Option<u16> {
    match strip_prefix(line, seq!['n']) {
        Some(addr) => match parse_u16(after_last_of(addr, ':')) {
            Some(p) => if plausible_port(p as int) {
                Some(p)
            } else {
                None
            },
            None => None,
        },
        None => None,
    }
}

fn port_of_line(line: &[char]) -> (r: Option<u16>)
    ensures
        r == listed_port(line@),
{
    proof {
        reveal_strlit("n");
    }
    assert("n"@ =~= seq!['n']);
    match strip_prefix_of(line, "n") {
        Some(addr) => {
            let tail = last_piece(addr.as_slice(), ':');
            match parse_u16_of(tail.as_slice()) {
                Some(p) => if plausible(p) {
                    Some(p)
                } else {
                    None
                },
                None => None,
            }
        },
        None => None,
    }
}

/// The lowest plausible port in what `lsof -nP -iTCP -sTCP:LISTEN -F n`
/// printed for a process group: which TCP port it listens on.
pub fn lowest_listening_port(lsof_output: &[u8]) -> (r: Option<u16>)
    ensures
        match r {
            None => forall|i: int|
                0 <= i < lines(utf8_lossy(lsof_output@)).len() ==> #[trigger] listed_port(
                    lines(utf8_lossy(lsof_output@))[i],
                ) is None,
            Some(p) => {
                &&& exists|i: int|
                    0 <= i < lines(utf8_lossy(lsof_output@)).len() && #[trigger] listed_port(
                        lines(utf8_lossy(lsof_output@))[i],
                    ) == Some(p)
                &&& forall|i: int|
                    0 <= i < lines(utf8_lossy(lsof_output@)).len() ==> (#[trigger] listed_port(
                        lines(utf8_lossy(lsof_output@))[i],
                    ) matches Some(q) ==> p <= q)
            },
        },
{
    let text = lossy_of(lsof_output);
    let v = chars_of(text.as_str());
    let ls = split_lines(v.as_slice());
    let ghost all = views(ls@);
    let n = ls.len();
    let mut best: Option<u16> = None;
    let mut i: usize = 0;
    while i < n
        invariant
            i <= n,
            n == ls@.len(),
            all == views(ls@),
            all == lines(utf8_lossy(lsof_output@)),
            match best {
                None => forall|j: int| 0 <= j < i ==> #[trigger] listed_port(all[j]) is None,
                Some(p) => {
                    &&& exists|j: int| 0 <= j < i && #[trigger] listed_port(all[j]) == Some(p)
                    &&& forall|j: int| 0 <= j < i ==> (#[trigger] listed_port(all[j]) matches Some(q) ==> p <= q)
                },
            },
        decreases n - i,
    {
        assert(all[i as int] == ls@[i as int]@);
        let found = port_of_line(ls[i].as_slice());
        match found {
            Some(q) => {
                match best {
                    Some(p) => {
                        if q < p {
                            best = Some(q);
                        }
                    },
                    None => {
                        best = Some(q);
                    },
                }
            },
            None => {},
        }
        i += 1;
    }
    best
}

} // verus!
