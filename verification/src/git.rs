//! Just enough git to know where else a server could run from.
//!
//! `git worktree list` reports every worktree of a repository regardless of
//! which one you ask from, so a server pointed at any worktree already knows
//! about all its siblings — including the main one.
use vstd::prelude::*;
use vstd::string::StringSliceAdditionalSpecFns;
use std::cmp::Ordering;
use crate::ports::{bytes_value, digit_run_end, is_digit_byte};
use crate::model::prefix;
use crate::text::{chars_of, views, slice, split_lines, strip_prefix, strip_prefix_of, string_of, lines};

verus! {

/// `u8::to_ascii_lowercase`.
pub open spec fn lower_byte(b: u8) -> u8 {
    if 65 <= b <= 90 {
        (b + 32) as u8
    } else {
        b
    }
}

/// `<[u8]>::cmp`: lexicographic, a proper prefix first. Less is -1, equal 0,
/// greater 1.
pub open spec fn lex_order(x: Seq<u8>, y: Seq<u8>) -> int
    decreases x.len(),
{
    if x.len() == 0 && y.len() == 0 {
        0
    } else if x.len() == 0 {
        -1
    } else if y.len() == 0 {
        1
    } else if x[0] < y[0] {
        -1
    } else if x[0] > y[0] {
        1
    } else {
        lex_order(x.drop_first(), y.drop_first())
    }
}

/// The largest value `u128` holds.
pub open spec fn u128_max() -> nat {
    0xffff_ffff_ffff_ffff_ffff_ffff_ffff_ffff
}

/// The order a person reads in, from positions `i` and `j` on: runs of digits
/// compare by value (falling back to their text when a run is too long to
/// fit in a `u128`), everything else byte by byte ignoring ASCII case, and a
/// string that runs out first comes first.
pub open spec fn natural_from(a: Seq<u8>, b: Seq<u8>, i: int, j: int) -> int
    decreases a.len() - i + b.len() - j,
{
    if 0 <= i < a.len() && 0 <= j < b.len() {
        if is_digit_byte(a[i]) && is_digit_byte(b[j]) {
            let ei = digit_run_end(a, i);
            let ej = digit_run_end(b, j);
            proof {
                lemma_digit_run_end(a, i);
                lemma_digit_run_end(b, j);
            }
            let va = bytes_value(a.subrange(i, ei));
            let vb = bytes_value(b.subrange(j, ej));
            if va <= u128_max() && vb <= u128_max() {
                if va < vb {
                    -1
                } else if va > vb {
                    1
                } else {
                    natural_from(a, b, ei, ej)
                }
            } else {
                lex_order(a.subrange(i, ei), b.subrange(j, ej))
            }
        } else if lower_byte(a[i]) < lower_byte(b[j]) {
            -1
        } else if lower_byte(a[i]) > lower_byte(b[j]) {
            1
        } else {
            natural_from(a, b, i + 1, j + 1)
        }
    } else if i >= a.len() && j >= b.len() {
        0
    } else if i >= a.len() {
        -1
    } else {
        1
    }
}

/// The natural order of two byte strings: -1, 0 or 1.
pub open spec fn natural_order(a: Seq<u8>, b: Seq<u8>) -> int {
    natural_from(a, b, 0, 0)
}

pub proof fn lemma_lex_range(x: Seq<u8>, y: Seq<u8>)
    ensures
        -1 <= lex_order(x, y) <= 1,
    decreases x.len(),
{
    if x.len() > 0 && y.len() > 0 && x[0] == y[0] {
        lemma_lex_range(x.drop_first(), y.drop_first());
    }
}

pub proof fn lemma_natural_range(a: Seq<u8>, b: Seq<u8>, i: int, j: int)
    ensures
        -1 <= natural_from(a, b, i, j) <= 1,
    decreases a.len() - i + b.len() - j,
{
    if 0 <= i < a.len() && 0 <= j < b.len() {
        if is_digit_byte(a[i]) && is_digit_byte(b[j]) {
            let ei = digit_run_end(a, i);
            let ej = digit_run_end(b, j);
            lemma_digit_run_end(a, i);
            lemma_digit_run_end(b, j);
            lemma_lex_range(a.subrange(i, ei), b.subrange(j, ej));
            lemma_natural_range(a, b, ei, ej);
        } else {
            lemma_natural_range(a, b, i + 1, j + 1);
        }
    }
}

pub open spec fn order_value(o: Ordering) -> int {
    match o {
        Ordering::Less => -1,
        Ordering::Equal => 0,
        Ordering::Greater => 1,
    }
}

pub proof fn lemma_digit_run_end(b: Seq<u8>, start: int)
    requires
        0 <= start <= b.len(),
    ensures
        start <= digit_run_end(b, start) <= b.len(),
        forall|k: int| start <= k < digit_run_end(b, start) ==> is_digit_byte(#[trigger] b[k]),
        digit_run_end(b, start) < b.len() ==> !is_digit_byte(b[digit_run_end(b, start)]),
    decreases b.len() - start,
{
    if start < b.len() && is_digit_byte(b[start]) {
        lemma_digit_run_end(b, start + 1);
    }
}

proof fn lemma_bytes_value_mono(s: Seq<u8>, i: int)
    requires
        0 <= i <= s.len(),
    ensures
        bytes_value(s.take(i)) <= bytes_value(s),
    decreases s.len() - i,
{
    if i < s.len() {
        lemma_bytes_value_mono(s, i + 1);
        let t = s.take(i + 1);
        assert(t.drop_last() == s.take(i));
    } else {
        assert(s.take(i) == s);
    }
}

/// The end of the digit run at `start`, and its value when that fits a `u128`.
fn digit_run(v: &[u8], start: usize) -> (r: (usize, Option<u128>))
    requires
        start <= v@.len(),
    ensures
        r.0 == digit_run_end(v@, start as int),
        match r.1 {
            Some(n) => n == bytes_value(v@.subrange(start as int, r.0 as int)),
            None => bytes_value(v@.subrange(start as int, r.0 as int)) > u128_max(),
        },
{
    let mut end = start;
    let mut acc: Option<u128> = Some(0);
    proof {
        lemma_digit_run_end(v@, start as int);
    }
    let ghost stop = digit_run_end(v@, start as int);
    while end < v.len() && v[end] >= 48 && v[end] <= 57
        invariant
            start <= end <= stop,
            stop == digit_run_end(v@, start as int),
            stop <= v@.len(),
            forall|k: int| start <= k < stop ==> is_digit_byte(#[trigger] v@[k]),
            stop < v@.len() ==> !is_digit_byte(v@[stop]),
            match acc {
                Some(n) => n == bytes_value(v@.subrange(start as int, end as int)),
                None => bytes_value(v@.subrange(start as int, end as int)) > u128_max(),
            },
        decreases v@.len() - end,
    {
        let d: u8 = v[end] - 48;
        let ghost s1 = v@.subrange(start as int, end + 1);
        assert(s1.drop_last() == v@.subrange(start as int, end as int));
        assert(s1.last() == v@[end as int]);
        acc = match acc {
            Some(n) => match n.checked_mul(10) {
                Some(m) => m.checked_add(d as u128),
                None => None,
            },
            None => None,
        };
        proof {
            if acc is None {
                lemma_bytes_value_mono(s1, s1.len() - 1);
                assert(s1.take(s1.len() - 1) == s1.drop_last());
            }
        }
        end += 1;
    }
    proof {
        if end < stop {
            assert(is_digit_byte(v@[end as int]));
        }
    }
    (end, acc)
}

/// `<[u8]>::cmp` on two ranges.
fn lex_compare(a: &[u8], i0: usize, i1: usize, b: &[u8], j0: usize, j1: usize) -> (r: i8)
    requires
        i0 <= i1 <= a@.len(),
        j0 <= j1 <= b@.len(),
    ensures
        r == lex_order(a@.subrange(i0 as int, i1 as int), b@.subrange(j0 as int, j1 as int)),
    decreases i1 - i0,
{
    let ghost x = a@.subrange(i0 as int, i1 as int);
    let ghost y = b@.subrange(j0 as int, j1 as int);
    if i0 == i1 && j0 == j1 {
        0
    } else if i0 == i1 {
        -1
    } else if j0 == j1 {
        1
    } else if a[i0] < b[j0] {
        -1
    } else if a[i0] > b[j0] {
        1
    } else {
        assert(x.drop_first() == a@.subrange(i0 + 1, i1 as int));
        assert(y.drop_first() == b@.subrange(j0 + 1, j1 as int));
        lex_compare(a, i0 + 1, i1, b, j0 + 1, j1)
    }
}

fn lower(b: u8) -> (r: u8)
    ensures
        r == lower_byte(b),
{
    if b >= 65 && b <= 90 {
        b + 32
    } else {
        b
    }
}

/// The natural order of two byte strings, as -1, 0 or 1.
fn natural_order_of(x: &[u8], y: &[u8]) -> (r: i8)
    ensures
        r == natural_order(x@, y@),
{
    let ghost xs = x@;
    let ghost ys = y@;
    let mut i: usize = 0;
    let mut j: usize = 0;
    while i < x.len() && j < y.len()
        invariant
            x@ == xs,
            y@ == ys,
            i <= xs.len(),
            j <= ys.len(),
            natural_from(xs, ys, i as int, j as int) == natural_order(xs, ys),
        decreases xs.len() - i + ys.len() - j,
    {
        if x[i] >= 48 && x[i] <= 57 && y[j] >= 48 && y[j] <= 57 {
            let (ei, na) = digit_run(x, i);
            let (ej, nb) = digit_run(y, j);
            proof {
                lemma_digit_run_end(xs, i as int);
                lemma_digit_run_end(ys, j as int);
            }
            match (na, nb) {
                (Some(p), Some(q)) => {
                    if p < q {
                        return -1;
                    } else if p > q {
                        return 1;
                    }
                },
                _ => {
                    return lex_compare(x, i, ei, y, j, ej);
                },
            }
            i = ei;
            j = ej;
        } else {
            let p = lower(x[i]);
            let q = lower(y[j]);
            if p < q {
                return -1;
            } else if p > q {
                return 1;
            }
            i += 1;
            j += 1;
        }
    }
    if i == x.len() && j == y.len() {
        0
    } else if i == x.len() {
        -1
    } else {
        1
    }
}

/// Compare the way a person reads: runs of digits compare numerically, so
/// feat-64 sorts before feat-522 rather than after it.
pub fn natural_cmp(a: &str, b: &str) -> (r: Ordering)
    ensures
        order_value(r) == natural_order(a.spec_bytes(), b.spec_bytes()),
{
    let n = natural_order_of(a.as_bytes(), b.as_bytes());
    proof {
        lemma_natural_range(a.spec_bytes(), b.spec_bytes(), 0, 0);
    }
    if n < 0 {
        Ordering::Less
    } else if n > 0 {
        Ordering::Greater
    } else {
        Ordering::Equal
    }
}

pub proof fn lemma_lex_antisymmetric(x: Seq<u8>, y: Seq<u8>)
    ensures
        lex_order(x, y) == -lex_order(y, x),
    decreases x.len(),
{
    if x.len() > 0 && y.len() > 0 && x[0] == y[0] {
        lemma_lex_antisymmetric(x.drop_first(), y.drop_first());
    }
}

pub proof fn lemma_natural_antisymmetric(a: Seq<u8>, b: Seq<u8>, i: int, j: int)
    requires
        0 <= i,
        0 <= j,
    ensures
        natural_from(a, b, i, j) == -natural_from(b, a, j, i),
    decreases a.len() - i + b.len() - j,
{
    if 0 <= i < a.len() && 0 <= j < b.len() {
        if is_digit_byte(a[i]) && is_digit_byte(b[j]) {
            let ei = digit_run_end(a, i);
            let ej = digit_run_end(b, j);
            lemma_digit_run_end(a, i);
            lemma_digit_run_end(b, j);
            lemma_lex_antisymmetric(a.subrange(i, ei), b.subrange(j, ej));
            lemma_natural_antisymmetric(a, b, ei, ej);
        } else {
            lemma_natural_antisymmetric(a, b, i + 1, j + 1);
        }
    }
}

/// Natural order is antisymmetric: comparing the other way round gives the
/// opposite answer.
pub proof fn lemma_natural_order_antisymmetric(a: Seq<u8>, b: Seq<u8>)
    ensures
        natural_order(a, b) == -natural_order(b, a),
{
    lemma_natural_antisymmetric(a, b, 0, 0);
}

// ---- worktrees ---------------------------------------------------------------

/// Whether two paths name the same place, component by component (`Path`'s
/// `==`).
pub uninterp spec fn path_eq(a: Seq<char>, b: Seq<char>) -> bool;

/// `Path::new(a) == Path::new(b)`: paths compare by their components, so
/// the answer is named by `path_eq`; a path equals itself, and the order of
/// the two does not matter. Which spellings share their components (a
/// trailing `/`, a doubled `/`, a `.` segment) is left to the name.
#[verifier::external_body]
pub(crate) fn same_path(a: &str, b: &str) -> (r: bool)
    ensures
        r == path_eq(a@, b@),
        r == path_eq(b@, a@),
        a@ == b@ ==> r,
{
    std::path::Path::new(a) == std::path::Path::new(b)
}

#[derive(Debug)]
pub struct Worktree {
    pub path: String,
    /// Branch name, or a short commit for a detached HEAD.
    pub branch: String,
    /// The repository's main worktree — "back to base".
    pub is_main: bool,
    /// Where the server currently points.
    pub is_current: bool,
}

pub struct WorktreeView {
    pub path: Seq<char>,
    pub branch: Seq<char>,
    pub is_main: bool,
    pub is_current: bool,
}

impl View for Worktree {
    type V = WorktreeView;

    open spec fn view(&self) -> WorktreeView {
        WorktreeView {
            path: self.path@,
            branch: self.branch@,
            is_main: self.is_main,
            is_current: self.is_current,
        }
    }
}

impl Clone for Worktree {
    fn clone(&self) -> (r: Self)
        ensures
            r == *self,
    {
        Worktree {
            path: self.path.clone(),
            branch: self.branch.clone(),
            is_main: self.is_main,
            is_current: self.is_current,
        }
    }
}

/// Where reading `git worktree list --porcelain` has got to: the record being
/// read, and the finished ones as (path, branch).
pub struct Scan {
    pub path: Option<Seq<char>>,
    pub branch: Seq<char>,
    pub found: Seq<(Seq<char>, Seq<char>)>,
}

/// One porcelain line. `worktree <path>` starts a record, `branch
/// refs/heads/<name>` names it, `HEAD <commit>` names it by a short commit
/// unless a branch already did, and a blank line ends it.
pub open spec fn scan_step(st: Scan, line: Seq<char>) -> Scan {
    if let Some(rest) = strip_prefix(line, "worktree "@) {
        Scan { path: Some(rest), branch: Seq::empty(), found: st.found }
    } else if let Some(rest) = strip_prefix(line, "branch refs/heads/"@) {
        Scan { path: st.path, branch: rest, found: st.found }
    } else if let Some(rest) = strip_prefix(line, "HEAD "@) {
        if st.branch.len() == 0 {
            Scan { path: st.path, branch: prefix(rest, 7), found: st.found }
        } else {
            st
        }
    } else if line.len() == 0 {
        match st.path {
            Some(p) => Scan { path: None, branch: Seq::empty(), found: st.found.push((p, st.branch)) },
            None => st,
        }
    } else {
        st
    }
}

pub open spec fn scan_lines(ls: Seq<Seq<char>>) -> Scan
    decreases ls.len(),
{
    if ls.len() == 0 {
        Scan { path: None, branch: Seq::empty(), found: Seq::empty() }
    } else {
        scan_step(scan_lines(ls.drop_last()), ls.last())
    }
}

/// Every record of the porcelain output, in git's order; a trailing empty
/// line flushes the last one.
pub open spec fn records(stdout: Seq<char>) -> Seq<(Seq<char>, Seq<char>)> {
    scan_lines(lines(stdout).push(Seq::empty())).found
}

/// The path record `k` is compared by: its canonical form when one was
/// supplied, else the path as git printed it.
pub open spec fn resolved_path(
    recs: Seq<(Seq<char>, Seq<char>)>,
    canonical: Seq<Option<String>>,
    k: int,
) -> Seq<char> {
    if k < canonical.len() && canonical[k] is Some {
        canonical[k]->0@
    } else {
        recs[k].0
    }
}

/// Record `k` as a worktree: git lists the main one first.
pub open spec fn worktree_at(
    recs: Seq<(Seq<char>, Seq<char>)>,
    here: Option<String>,
    canonical: Seq<Option<String>>,
    k: int,
) -> WorktreeView {
    WorktreeView {
        path: recs[k].0,
        branch: recs[k].1,
        is_main: k == 0,
        is_current: here is Some && path_eq(here->0@, resolved_path(recs, canonical, k)),
    }
}

pub open spec fn worktree_views(s: Seq<Worktree>) -> Seq<WorktreeView> {
    s.map_values(|w: Worktree| w@)
}

pub open spec fn branch_order(x: WorktreeView, y: WorktreeView) -> int {
    natural_order(vstd::utf8::encode_utf8(x.branch), vstd::utf8::encode_utf8(y.branch))
}

/// The records read from `stdout`, main worktree first and the rest in
/// natural order of branch name.
pub open spec fn parsed_worktrees(
    stdout: Seq<char>,
    here: Option<String>,
    canonical: Seq<Option<String>>,
    out: Seq<WorktreeView>,
) -> bool {
    let recs = records(stdout);
    let all = Seq::new(recs.len(), |k: int| worktree_at(recs, here, canonical, k));
    &&& out.len() == recs.len()
    &&& recs.len() > 0 ==> {
        &&& out[0] == all[0]
        &&& out.skip(1) == sorted_by_branch(all.skip(1))
        &&& out.skip(1).to_multiset() == all.skip(1).to_multiset()
        &&& adjacent_sorted(out.skip(1))
    }
}

/// `x` placed after every element that does not sort after it.
pub open spec fn insert_in_order(s: Seq<WorktreeView>, x: WorktreeView) -> Seq<WorktreeView>
    decreases s.len(),
{
    if s.len() == 0 {
        seq![x]
    } else if branch_order(s.last(), x) <= 0 {
        s.push(x)
    } else {
        insert_in_order(s.drop_last(), x).push(s.last())
    }
}

/// `s` in natural order of branch name; worktrees whose branches compare
/// equal keep the order they came in.
pub open spec fn sorted_by_branch(s: Seq<WorktreeView>) -> Seq<WorktreeView>
    decreases s.len(),
{
    if s.len() == 0 {
        Seq::empty()
    } else {
        insert_in_order(sorted_by_branch(s.drop_last()), s.last())
    }
}

proof fn lemma_insert_in_order(olds: Seq<WorktreeView>, j: int, x: WorktreeView)
    requires
        0 <= j <= olds.len(),
        forall|k: int| j <= k < olds.len() ==> branch_order(#[trigger] olds[k], x) > 0,
        j > 0 ==> branch_order(olds[j - 1], x) <= 0,
    ensures
        insert_in_order(olds, x) == olds.insert(j, x),
    decreases olds.len(),
{
    if olds.len() == 0 {
        assert(olds.insert(j, x) =~= seq![x]);
    } else if branch_order(olds.last(), x) <= 0 {
        assert(j == olds.len());
        assert(olds.insert(j, x) =~= olds.push(x));
    } else {
        let t = olds.drop_last();
        assert forall|k: int| j <= k < t.len() implies branch_order(#[trigger] t[k], x) > 0 by {
            assert(t[k] == olds[k]);
        }
        if j > 0 {
            assert(t[j - 1] == olds[j - 1]);
        }
        lemma_insert_in_order(t, j, x);
        assert(t.insert(j, x).push(olds.last()) =~= olds.insert(j, x));
    }
}

pub open spec fn adjacent_sorted(s: Seq<WorktreeView>) -> bool {
    forall|i: int| 0 <= i < s.len() - 1 ==> branch_order(#[trigger] s[i], s[i + 1]) <= 0
}

proof fn lemma_insert_sorted(olds: Seq<WorktreeView>, j: int, xv: WorktreeView)
    requires
        0 <= j <= olds.len(),
        adjacent_sorted(olds),
        j > 0 ==> branch_order(olds[j - 1], xv) <= 0,
        j < olds.len() ==> branch_order(olds[j], xv) > 0,
    ensures
        adjacent_sorted(olds.insert(j, xv)),
        olds.insert(j, xv).to_multiset() == olds.to_multiset().insert(xv),
{
    let ns = olds.insert(j, xv);
    if j < olds.len() {
        lemma_natural_order_antisymmetric(
            vstd::utf8::encode_utf8(olds[j].branch),
            vstd::utf8::encode_utf8(xv.branch),
        );
    }
    assert forall|i: int| 0 <= i < ns.len() - 1 implies branch_order(#[trigger] ns[i], ns[i + 1])
        <= 0 by {
        if i < j - 1 {
            assert(ns[i] == olds[i]);
            assert(ns[i + 1] == olds[i + 1]);
        } else if i == j - 1 {
            assert(ns[i] == olds[i]);
        } else if i == j {
            assert(ns[i + 1] == olds[i]);
        } else {
            assert(ns[i] == olds[i - 1]);
            assert(ns[i + 1] == olds[i]);
        }
    }
    broadcast use vstd::seq_lib::group_to_multiset_ensures;

    assert(ns.remove(j) =~= olds);
    assert(ns.to_multiset().remove(xv) == olds.to_multiset());
    assert(ns.to_multiset().count(xv) > 0);
    assert(ns.to_multiset() =~= olds.to_multiset().insert(xv));
}

/// Inserts `x` into `sorted`, keeping branch names in natural order.
fn insert_sorted(sorted: &mut Vec<Worktree>, x: Worktree)
    requires
        adjacent_sorted(worktree_views(old(sorted)@)),
    ensures
        worktree_views(final(sorted)@) == insert_in_order(worktree_views(old(sorted)@), x@),
        worktree_views(final(sorted)@).to_multiset() == worktree_views(old(sorted)@).to_multiset().insert(x@),
        adjacent_sorted(worktree_views(final(sorted)@)),
{
    let ghost olds = worktree_views(sorted@);
    let mut j = sorted.len();
    loop
        invariant
            j <= sorted@.len(),
            worktree_views(sorted@) == olds,
            forall|k: int| j <= k < sorted@.len() ==> branch_order(#[trigger] olds[k], x@) > 0,
        ensures
            j <= sorted@.len(),
            worktree_views(sorted@) == olds,
            forall|k: int| j <= k < sorted@.len() ==> branch_order(#[trigger] olds[k], x@) > 0,
            j > 0 ==> branch_order(olds[j - 1], x@) <= 0,
        decreases j,
    {
        if j == 0 {
            break;
        }
        let n = natural_order_of(sorted[j - 1].branch.as_str().as_bytes(), x.branch.as_str().as_bytes());
        assert(olds[j - 1] == sorted@[j - 1]@);
        if n <= 0 {
            break;
        }
        j -= 1;
    }
    let ghost xv = x@;
    proof {
        lemma_insert_sorted(olds, j as int, xv);
        lemma_insert_in_order(olds, j as int, xv);
    }
    sorted.insert(j, x);
    assert(worktree_views(sorted@) =~= olds.insert(j as int, xv));
}

pub open spec fn opt_view(o: Option<Vec<char>>) -> Option<Seq<char>> {
    match o {
        Some(v) => Some(v@),
        None => None,
    }
}

pub open spec fn views_of_found(
    recs: Seq<(Seq<char>, Seq<char>)>,
    here: Option<String>,
    canonical: Seq<Option<String>>,
) -> Seq<WorktreeView> {
    Seq::new(recs.len(), |m: int| worktree_at(recs, here, canonical, m))
}

/// Reads one porcelain line into the record being built.
fn scan_line_into(
    path: &mut Option<Vec<char>>,
    branch: &mut Vec<char>,
    found: &mut Vec<Worktree>,
    line: &[char],
    here: &Option<String>,
    canonical: &[Option<String>],
    Ghost(st): Ghost<Scan>,
)
    requires
        opt_view(*old(path)) == st.path,
        old(branch)@ == st.branch,
        worktree_views(old(found)@) == views_of_found(st.found, *here, canonical@),
    ensures
        opt_view(*final(path)) == scan_step(st, line@).path,
        final(branch)@ == scan_step(st, line@).branch,
        worktree_views(final(found)@) == views_of_found(scan_step(st, line@).found, *here, canonical@),
{
    if let Some(rest) = strip_prefix_of(line, "worktree ") {
        *path = Some(rest);
        *branch = Vec::new();
    } else if let Some(rest) = strip_prefix_of(line, "branch refs/heads/") {
        *branch = rest;
    } else if let Some(rest) = strip_prefix_of(line, "HEAD ") {
        if branch.len() == 0 {
            *branch = crate::model::take_chars(rest.as_slice(), 7);
        }
    } else if line.len() == 0 {
        if path.is_some() {
            let p = path.take().unwrap();
            let k = found.len();
            let is_current = match here {
                Some(h) => {
                    let resolved = if k < canonical.len() && canonical[k].is_some() {
                        canonical[k].clone().unwrap()
                    } else {
                        string_of(p.as_slice())
                    };
                    same_path(h.as_str(), resolved.as_str())
                },
                None => false,
            };
            let b = string_of(branch.as_slice());
            *branch = Vec::new();
            let ghost before = worktree_views(found@);
            assert(before.len() == found@.len());
            assert(views_of_found(st.found, *here, canonical@).len() == st.found.len());
            assert(k == st.found.len());
            found.push(Worktree { path: string_of(p.as_slice()), branch: b, is_main: k == 0, is_current });
            let ghost nf = scan_step(st, line@).found;
            assert(nf == st.found.push((p@, st.branch)));
            assert(worktree_views(found@) =~= views_of_found(nf, *here, canonical@)) by {
                assert forall|m: int| 0 <= m < nf.len() implies worktree_views(found@)[m]
                    == views_of_found(nf, *here, canonical@)[m] by {
                    if m < k {
                        assert(worktree_views(found@)[m] == before[m]);
                        assert(nf[m] == st.found[m]);
                    }
                }
            }
        }
    }
}

/// Read `git worktree list --porcelain`. Records are separated by a blank
/// line; a trailing empty line flushes the last one. The main worktree stays
/// first and the rest are sorted the way a person reads them.
///
/// `canonical` holds, record by record in git's order, the canonical form of
/// each worktree's path where it could be resolved; `here` is the canonical
/// directory asked from. A record is current when its resolved path equals
/// `here`.
pub fn parse_worktrees(stdout: &str, here: Option<String>, canonical: &[Option<String>]) -> (out: Vec<Worktree>)
    ensures
        parsed_worktrees(stdout@, here, canonical@, worktree_views(out@)),
{
    let v = chars_of(stdout);
    let ls = split_lines(v.as_slice());
    let ghost all = lines(stdout@).push(Seq::empty());
    let mut path: Option<Vec<char>> = None;
    let mut branch: Vec<char> = Vec::new();
    let mut found: Vec<Worktree> = Vec::new();
    let mut k: usize = 0;
    assert(worktree_views(found@) =~= views_of_found(Seq::empty(), here, canonical@));
    while k < ls.len()
        invariant
            k <= ls@.len(),
            views(ls@) == lines(stdout@),
            all == lines(stdout@).push(Seq::empty()),
            opt_view(path) == scan_lines(all.take(k as int)).path,
            branch@ == scan_lines(all.take(k as int)).branch,
            worktree_views(found@) == views_of_found(scan_lines(all.take(k as int)).found, here, canonical@),
        decreases ls@.len() - k,
    {
        let ghost st = scan_lines(all.take(k as int));
        assert(all.take(k + 1).drop_last() == all.take(k as int));
        assert(all.take(k + 1).last() == ls@[k as int]@);
        scan_line_into(&mut path, &mut branch, &mut found, ls[k].as_slice(), &here, canonical, Ghost(st));
        k += 1;
    }
    let ghost st = scan_lines(all.take(k as int));
    let empty: Vec<char> = Vec::new();
    assert(all.take(k + 1).drop_last() == all.take(k as int));
    assert(all.take(k + 1) == all);
    scan_line_into(&mut path, &mut branch, &mut found, empty.as_slice(), &here, canonical, Ghost(st));
    let ghost recs = records(stdout@);
    let ghost allv = views_of_found(recs, here, canonical@);
    assert(worktree_views(found@) == allv);
    if found.len() == 0 {
        return found;
    }
    let mut sorted: Vec<Worktree> = Vec::new();
    let mut i: usize = 1;
    assert(worktree_views(sorted@) =~= allv.subrange(1, 1));
    while i < found.len()
        invariant
            1 <= i <= found@.len(),
            worktree_views(found@) == allv,
            worktree_views(sorted@).to_multiset() == allv.subrange(1, i as int).to_multiset(),
            worktree_views(sorted@) == sorted_by_branch(allv.subrange(1, i as int)),
            adjacent_sorted(worktree_views(sorted@)),
        decreases found@.len() - i,
    {
        let w = found[i].clone();
        assert(w@ == allv[i as int]);
        insert_sorted(&mut sorted, w);
        proof {
            broadcast use vstd::seq_lib::group_to_multiset_ensures;
            assert(allv.subrange(1, i + 1) =~= allv.subrange(1, i as int).push(allv[i as int]));
            assert(allv.subrange(1, i + 1).drop_last() == allv.subrange(1, i as int));
        }
        i += 1;
    }
    let mut out: Vec<Worktree> = Vec::new();
    out.push(found[0].clone());
    let ghost sv = worktree_views(sorted@);
    out.append(&mut sorted);
    assert(worktree_views(out@).skip(1) =~= sv);
    assert(allv.subrange(1, i as int) =~= allv.skip(1));
    proof {
        broadcast use vstd::seq_lib::group_to_multiset_ensures;
        assert(sv.len() == sv.to_multiset().len());
        assert(allv.skip(1).len() == allv.skip(1).to_multiset().len());
        assert(worktree_views(out@)[0] == allv[0]);
    }
    out
}

/// The paths of the records in the porcelain output, in git's order — what
/// to resolve before calling `parse_worktrees`.
pub fn worktree_paths(stdout: &str) -> (out: Vec<String>)
    ensures
        out@.map_values(|s: String| s@) == records(stdout@).map_values(|r: (Seq<char>, Seq<char>)| r.0),
{
    let none: Vec<Option<String>> = Vec::new();
    let found = parse_in_order(stdout, none.as_slice());
    let mut out: Vec<String> = Vec::new();
    let mut i: usize = 0;
    let ghost recs = records(stdout@);
    assert(worktree_views(found@).len() == found@.len());
    assert(views_of_found(recs, None, none@).len() == recs.len());
    while i < found.len()
        invariant
            i <= found@.len(),
            worktree_views(found@) == views_of_found(recs, None, none@),
            found@.len() == recs.len(),
            out@.map_values(|s: String| s@) == recs.map_values(|r: (Seq<char>, Seq<char>)| r.0).take(i as int),
        decreases found@.len() - i,
    {
        let p = found[i].path.clone();
        assert(worktree_views(found@)[i as int].path == recs[i as int].0);
        let ghost before = out@.map_values(|s: String| s@);
        out.push(p);
        assert(out@.map_values(|s: String| s@) =~= before.push(recs[i as int].0));
        assert(recs.map_values(|r: (Seq<char>, Seq<char>)| r.0).take(i + 1) =~= recs.map_values(
            |r: (Seq<char>, Seq<char>)| r.0,
        ).take(i as int).push(recs[i as int].0));
        i += 1;
    }
    assert(recs.map_values(|r: (Seq<char>, Seq<char>)| r.0).take(i as int) =~= recs.map_values(
        |r: (Seq<char>, Seq<char>)| r.0,
    ));
    out
}

/// The records in git's order, unsorted.
fn parse_in_order(stdout: &str, canonical: &[Option<String>]) -> (found: Vec<Worktree>)
    ensures
        worktree_views(found@) == views_of_found(records(stdout@), None, canonical@),
{
    let here: Option<String> = None;
    let v = chars_of(stdout);
    let ls = split_lines(v.as_slice());
    let ghost all = lines(stdout@).push(Seq::empty());
    let mut path: Option<Vec<char>> = None;
    let mut branch: Vec<char> = Vec::new();
    let mut found: Vec<Worktree> = Vec::new();
    let mut k: usize = 0;
    assert(worktree_views(found@) =~= views_of_found(Seq::empty(), here, canonical@));
    while k < ls.len()
        invariant
            k <= ls@.len(),
            here is None,
            views(ls@) == lines(stdout@),
            all == lines(stdout@).push(Seq::empty()),
            opt_view(path) == scan_lines(all.take(k as int)).path,
            branch@ == scan_lines(all.take(k as int)).branch,
            worktree_views(found@) == views_of_found(scan_lines(all.take(k as int)).found, here, canonical@),
        decreases ls@.len() - k,
    {
        let ghost st = scan_lines(all.take(k as int));
        assert(all.take(k + 1).drop_last() == all.take(k as int));
        assert(all.take(k + 1).last() == ls@[k as int]@);
        scan_line_into(&mut path, &mut branch, &mut found, ls[k].as_slice(), &here, canonical, Ghost(st));
        k += 1;
    }
    let ghost st = scan_lines(all.take(k as int));
    let empty: Vec<char> = Vec::new();
    assert(all.take(k + 1).drop_last() == all.take(k as int));
    assert(all.take(k + 1) == all);
    scan_line_into(&mut path, &mut branch, &mut found, empty.as_slice(), &here, canonical, Ghost(st));
    found
}

} // verus!
