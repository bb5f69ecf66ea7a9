//! Character-level text handling shared by every parser in the crate.
//!
//! Text is held as `Vec<char>` while it is worked on and specified as
//! `Seq<char>`; the standard-library operations the parsers lean on
//! (trimming, splitting into lines and words, decimal numbers) are stated
//! here once as spec functions and implemented by verified loops.
use vstd::prelude::*;

verus! {

// ---- characters ------------------------------------------------------------

pub open spec fn is_ascii_digit(c: char) -> bool {
    '0' <= c && c <= '9'
}

pub open spec fn is_ascii_alpha(c: char) -> bool {
    ('a' <= c && c <= 'z') || ('A' <= c && c <= 'Z')
}

pub open spec fn is_ascii_alnum(c: char) -> bool {
    is_ascii_digit(c) || is_ascii_alpha(c)
}

/// `char::to_ascii_lowercase`.
pub open spec fn ascii_lower(c: char) -> char {
    if 'A' <= c && c <= 'Z' {
        ((c as u32) + 32) as char
    } else {
        c
    }
}

/// `char::is_whitespace`: the Unicode `White_Space` property.
pub open spec fn is_ws(c: char) -> bool {
    ||| ('\t' <= c && c <= '\r')
    ||| c == ' '
    ||| c == '\u{85}'
    ||| c == '\u{a0}'
    ||| c == '\u{1680}'
    ||| ('\u{2000}' <= c && c <= '\u{200a}')
    ||| c == '\u{2028}'
    ||| c == '\u{2029}'
    ||| c == '\u{202f}'
    ||| c == '\u{205f}'
    ||| c == '\u{3000}'
}

pub fn ascii_digit(c: char) -> (b: bool)
    ensures
        b == is_ascii_digit(c),
{
    '0' <= c && c <= '9'
}

pub fn ascii_alpha(c: char) -> (b: bool)
    ensures
        b == is_ascii_alpha(c),
{
    ('a' <= c && c <= 'z') || ('A' <= c && c <= 'Z')
}

pub fn ascii_alnum(c: char) -> (b: bool)
    ensures
        b == is_ascii_alnum(c),
{
    ascii_digit(c) || ascii_alpha(c)
}

pub fn to_ascii_lower(c: char) -> (r: char)
    ensures
        r == ascii_lower(c),
{
    if 'A' <= c && c <= 'Z' {
        let b: u8 = c as u8;
        (b + 32) as char
    } else {
        c
    }
}

pub fn whitespace(c: char) -> (b: bool)
    ensures
        b == is_ws(c),
{
    ('\t' <= c && c <= '\r') || c == ' ' || c == '\u{85}' || c == '\u{a0}' || c == '\u{1680}'
        || ('\u{2000}' <= c && c <= '\u{200a}') || c == '\u{2028}' || c == '\u{2029}' || c
        == '\u{202f}' || c == '\u{205f}' || c == '\u{3000}'
}

// ---- conversions -----------------------------------------------------------

/// `str::chars`, collected: the characters of a string slice, in order.
#[verifier::external_body]
pub(crate) fn chars_of(s: &str) -> (v: Vec<char>)
    ensures
        v@ == s@,
{
    s.chars().collect()
}

/// `String::from_iter` over characters.
#[verifier::external_body]
pub(crate) fn string_of(v: &[char]) -> (s: String)
    ensures
        s@ == v@,
{
    v.iter().collect()
}

/// Appends the characters of `tail` to `v`.
pub fn push_all(v: &mut Vec<char>, tail: &[char])
    ensures
        final(v)@ == old(v)@ + tail@,
{
    let mut i: usize = 0;
    while i < tail.len()
        invariant
            i <= tail@.len(),
            v@ == old(v)@ + tail@.subrange(0, i as int),
        decreases tail@.len() - i,
    {
        v.push(tail[i]);
        i += 1;
        assert(tail@.subrange(0, i as int) == tail@.subrange(0, i - 1).push(tail@[i - 1]));
    }
    assert(tail@.subrange(0, i as int) == tail@);
}

/// Appends the characters of a string slice to `v`.
pub fn push_str(v: &mut Vec<char>, s: &str)
    ensures
        final(v)@ == old(v)@ + s@,
{
    let t = chars_of(s);
    push_all(v, t.as_slice());
}

/// A copy of `v[start..end]`.
pub fn slice(v: &[char], start: usize, end: usize) -> (r: Vec<char>)
    requires
        start <= end <= v@.len(),
    ensures
        r@ == v@.subrange(start as int, end as int),
{
    let mut r: Vec<char> = Vec::new();
    let mut i = start;
    while i < end
        invariant
            start <= i <= end,
            end <= v@.len(),
            r@ == v@.subrange(start as int, i as int),
        decreases end - i,
    {
        r.push(v[i]);
        i += 1;
        assert(v@.subrange(start as int, i as int) == v@.subrange(start as int, i - 1).push(
            v@[i - 1],
        ));
    }
    r
}

/// Whether `c` occurs in `v`.
pub fn has_char(v: &[char], c: char) -> (b: bool)
    ensures
        b == v@.contains(c),
{
    let mut i: usize = 0;
    while i < v.len()
        invariant
            i <= v@.len(),
            forall|j: int| 0 <= j < i ==> v@[j] != c,
        decreases v@.len() - i,
    {
        if v[i] == c {
            assert(v@[i as int] == c);
            return true;
        }
        i += 1;
    }
    false
}

pub fn seq_eq(a: &[char], b: &[char]) -> (r: bool)
    ensures
        r == (a@ == b@),
{
    if a.len() != b.len() {
        return false;
    }
    let mut i: usize = 0;
    while i < a.len()
        invariant
            i <= a@.len(),
            a@.len() == b@.len(),
            forall|j: int| 0 <= j < i ==> a@[j] == b@[j],
        decreases a@.len() - i,
    {
        if a[i] != b[i] {
            return false;
        }
        i += 1;
    }
    assert(a@ =~= b@);
    true
}

pub open spec fn starts_with(s: Seq<char>, p: Seq<char>) -> bool {
    p.len() <= s.len() && s.subrange(0, p.len() as int) == p
}

pub open spec fn ends_with(s: Seq<char>, p: Seq<char>) -> bool {
    p.len() <= s.len() && s.subrange(s.len() - p.len(), s.len() as int) == p
}

pub fn has_prefix(s: &[char], p: &[char]) -> (b: bool)
    ensures
        b == starts_with(s@, p@),
{
    if p.len() > s.len() {
        return false;
    }
    let mut i: usize = 0;
    while i < p.len()
        invariant
            i <= p@.len() <= s@.len(),
            forall|j: int| 0 <= j < i ==> s@[j] == p@[j],
        decreases p@.len() - i,
    {
        if s[i] != p[i] {
            assert(s@.subrange(0, p@.len() as int)[i as int] != p@[i as int]);
            return false;
        }
        i += 1;
    }
    assert(s@.subrange(0, p@.len() as int) =~= p@);
    true
}

pub fn has_suffix(s: &[char], p: &[char]) -> (b: bool)
    ensures
        b == ends_with(s@, p@),
{
    if p.len() > s.len() {
        return false;
    }
    let n = s.len();
    let off = n - p.len();
    let mut i: usize = 0;
    while i < p.len()
        invariant
            i <= p@.len() <= s@.len(),
            off == s@.len() - p@.len(),
            n == s@.len(),
            forall|j: int| 0 <= j < i ==> s@[off + j] == p@[j],
        decreases p@.len() - i,
    {
        if s[off + i] != p[i] {
            assert(s@.subrange(off as int, s@.len() as int)[i as int] != p@[i as int]);
            return false;
        }
        i += 1;
    }
    assert(s@.subrange(off as int, s@.len() as int) =~= p@);
    true
}

// ---- trimming ---------------------------------------------------------------

/// How many leading characters satisfy `p`.
pub open spec fn lead_count(s: Seq<char>, p: spec_fn(char) -> bool) -> nat
    decreases s.len(),
{
    if s.len() > 0 && p(s[0]) {
        1 + lead_count(s.drop_first(), p)
    } else {
        0
    }
}

/// How many trailing characters satisfy `p`.
pub open spec fn trail_count(s: Seq<char>, p: spec_fn(char) -> bool) -> nat
    decreases s.len(),
{
    if s.len() > 0 && p(s.last()) {
        1 + trail_count(s.drop_last(), p)
    } else {
        0
    }
}

pub open spec fn trim_start_by(s: Seq<char>, p: spec_fn(char) -> bool) -> Seq<char> {
    s.skip(lead_count(s, p) as int)
}

pub open spec fn trim_end_by(s: Seq<char>, p: spec_fn(char) -> bool) -> Seq<char> {
    s.take(s.len() - trail_count(s, p))
}

/// `str::trim_matches` with a predicate.
pub open spec fn trim_by(s: Seq<char>, p: spec_fn(char) -> bool) -> Seq<char> {
    trim_end_by(trim_start_by(s, p), p)
}

pub open spec fn ws() -> spec_fn(char) -> bool {
    |c: char| is_ws(c)
}

pub open spec fn in_set(set: Seq<char>) -> spec_fn(char) -> bool {
    |c: char| set.contains(c)
}

/// `str::trim`.
pub open spec fn trim(s: Seq<char>) -> Seq<char> {
    trim_by(s, ws())
}

/// `str::trim_start`.
pub open spec fn trim_start(s: Seq<char>) -> Seq<char> {
    trim_start_by(s, ws())
}

/// `str::trim_end`.
pub open spec fn trim_end(s: Seq<char>) -> Seq<char> {
    trim_end_by(s, ws())
}

pub proof fn lemma_lead_count(s: Seq<char>, p: spec_fn(char) -> bool, i: int)
    requires
        0 <= i <= s.len(),
        forall|j: int| 0 <= j < i ==> p(#[trigger] s[j]),
        i == s.len() || !p(s[i]),
    ensures
        lead_count(s, p) == i,
    decreases i,
{
    if i > 0 {
        let t = s.drop_first();
        assert forall|j: int| 0 <= j < i - 1 implies p(#[trigger] t[j]) by {
            assert(t[j] == s[j + 1]);
        }
        lemma_lead_count(t, p, i - 1);
    }
}

pub proof fn lemma_trail_count(s: Seq<char>, p: spec_fn(char) -> bool, i: int)
    requires
        0 <= i <= s.len(),
        forall|j: int| i <= j < s.len() ==> p(#[trigger] s[j]),
        i == 0 || !p(s[i - 1]),
    ensures
        trail_count(s, p) == s.len() - i,
    decreases s.len() - i,
{
    if i < s.len() {
        let t = s.drop_last();
        assert forall|j: int| i <= j < t.len() implies p(#[trigger] t[j]) by {
            assert(t[j] == s[j]);
        }
        assert(p(s[s.len() - 1]));
        lemma_trail_count(t, p, i);
    }
}

/// Index of the first character that is not whitespace (or the length).
fn lead_ws(v: &[char]) -> (i: usize)
    ensures
        i == lead_count(v@, ws()),
        i <= v@.len(),
{
    let mut i: usize = 0;
    while i < v.len() && whitespace(v[i])
        invariant
            i <= v@.len(),
            forall|j: int| 0 <= j < i ==> (ws())(#[trigger] v@[j]),
        decreases v@.len() - i,
    {
        i += 1;
    }
    proof {
        lemma_lead_count(v@, ws(), i as int);
    }
    i
}

/// Index one past the last character that is not whitespace (or 0).
fn end_ws(v: &[char]) -> (i: usize)
    ensures
        i == v@.len() - trail_count(v@, ws()),
        i <= v@.len(),
{
    let mut i: usize = v.len();
    while i > 0 && whitespace(v[i - 1])
        invariant
            i <= v@.len(),
            forall|j: int| i <= j < v@.len() ==> (ws())(#[trigger] v@[j]),
        decreases i,
    {
        i -= 1;
    }
    proof {
        lemma_trail_count(v@, ws(), i as int);
    }
    i
}

fn lead_set(v: &[char], set: &[char]) -> (i: usize)
    ensures
        i == lead_count(v@, in_set(set@)),
        i <= v@.len(),
{
    let mut i: usize = 0;
    while i < v.len() && has_char(set, v[i])
        invariant
            i <= v@.len(),
            forall|j: int| 0 <= j < i ==> (in_set(set@))(#[trigger] v@[j]),
        decreases v@.len() - i,
    {
        i += 1;
    }
    proof {
        lemma_lead_count(v@, in_set(set@), i as int);
    }
    i
}

fn end_set(v: &[char], set: &[char]) -> (i: usize)
    ensures
        i == v@.len() - trail_count(v@, in_set(set@)),
        i <= v@.len(),
{
    let mut i: usize = v.len();
    while i > 0 && has_char(set, v[i - 1])
        invariant
            i <= v@.len(),
            forall|j: int| i <= j < v@.len() ==> (in_set(set@))(#[trigger] v@[j]),
        decreases i,
    {
        i -= 1;
    }
    proof {
        lemma_trail_count(v@, in_set(set@), i as int);
    }
    i
}

pub fn trim_ws(v: &[char]) -> (r: Vec<char>)
    ensures
        r@ == trim(v@),
{
    let a = lead_ws(v);
    let t = slice(v, a, v.len());
    let b = end_ws(t.as_slice());
    slice(t.as_slice(), 0, b)
}

pub fn trim_start_ws(v: &[char]) -> (r: Vec<char>)
    ensures
        r@ == trim_start(v@),
{
    let a = lead_ws(v);
    slice(v, a, v.len())
}

pub fn trim_end_ws(v: &[char]) -> (r: Vec<char>)
    ensures
        r@ == trim_end(v@),
{
    let b = end_ws(v);
    slice(v, 0, b)
}

/// `str::trim_matches` with a set of characters.
pub fn trim_set(v: &[char], set: &[char]) -> (r: Vec<char>)
    ensures
        r@ == trim_by(v@, in_set(set@)),
{
    let a = lead_set(v, set);
    let t = slice(v, a, v.len());
    let b = end_set(t.as_slice(), set);
    slice(t.as_slice(), 0, b)
}

/// `str::trim_start_matches` with a set of characters.
pub fn trim_start_set(v: &[char], set: &[char]) -> (r: Vec<char>)
    ensures
        r@ == trim_start_by(v@, in_set(set@)),
{
    let a = lead_set(v, set);
    slice(v, a, v.len())
}

/// `str::trim_end_matches` with a set of characters.
pub fn trim_end_set(v: &[char], set: &[char]) -> (r: Vec<char>)
    ensures
        r@ == trim_end_by(v@, in_set(set@)),
{
    let b = end_set(v, set);
    slice(v, 0, b)
}

// ---- splitting ---------------------------------------------------------------

pub open spec fn eq_char(c: char) -> spec_fn(char) -> bool {
    |x: char| x == c
}

pub open spec fn ne_char(c: char) -> spec_fn(char) -> bool {
    |x: char| x != c
}

pub open spec fn not_ws() -> spec_fn(char) -> bool {
    |x: char| !is_ws(x)
}

/// `str::split` with a predicate: the pieces between separator characters,
/// including empty ones.
pub open spec fn split_by(s: Seq<char>, p: spec_fn(char) -> bool) -> Seq<Seq<char>>
    decreases s.len(),
{
    if s.len() == 0 {
        seq![Seq::<char>::empty()]
    } else {
        let prev = split_by(s.drop_last(), p);
        if p(s.last()) {
            prev.push(Seq::<char>::empty())
        } else {
            prev.update(prev.len() - 1, prev.last().push(s.last()))
        }
    }
}

pub proof fn lemma_split_by_len(s: Seq<char>, p: spec_fn(char) -> bool)
    ensures
        split_by(s, p).len() >= 1,
    decreases s.len(),
{
    if s.len() > 0 {
        lemma_split_by_len(s.drop_last(), p);
    }
}

pub open spec fn views(v: Seq<Vec<char>>) -> Seq<Seq<char>> {
    v.map_values(|x: Vec<char>| x@)
}

pub open spec fn sep_pred(sep: Option<char>) -> spec_fn(char) -> bool {
    match sep {
        Some(c) => eq_char(c),
        None => ws(),
    }
}

fn is_sep(x: char, sep: Option<char>) -> (b: bool)
    ensures
        b == (sep_pred(sep))(x),
{
    match sep {
        Some(c) => x == c,
        None => whitespace(x),
    }
}

/// Splits on `sep`, or on whitespace when `sep` is `None`.
pub fn split_pieces(v: &[char], sep: Option<char>) -> (r: Vec<Vec<char>>)
    ensures
        views(r@) == split_by(v@, sep_pred(sep)),
{
    let ghost p = sep_pred(sep);
    let mut pieces: Vec<Vec<char>> = Vec::new();
    let mut cur: Vec<char> = Vec::new();
    let mut i: usize = 0;
    while i < v.len()
        invariant
            i <= v@.len(),
            p == sep_pred(sep),
            views(pieces@).push(cur@) == split_by(v@.take(i as int), p),
        decreases v@.len() - i,
    {
        let ghost before = views(pieces@).push(cur@);
        let x = v[i];
        assert(v@.take(i + 1).drop_last() == v@.take(i as int));
        assert(v@.take(i + 1).last() == x);
        proof {
            lemma_split_by_len(v@.take(i as int), p);
        }
        if is_sep(x, sep) {
            let done = cur;
            pieces.push(done);
            cur = Vec::new();
            assert(views(pieces@).push(cur@) =~= before.push(Seq::<char>::empty()));
        } else {
            cur.push(x);
            assert(views(pieces@).push(cur@) =~= before.update(
                before.len() - 1,
                before.last().push(x),
            ));
        }
        i += 1;
    }
    pieces.push(cur);
    assert(v@.take(v@.len() as int) == v@);
    assert(views(pieces@) =~= split_by(v@, p));
    pieces
}

/// `str::split_whitespace`: the non-empty pieces between whitespace.
pub open spec fn words(s: Seq<char>) -> Seq<Seq<char>> {
    split_by(s, ws()).filter(|w: Seq<char>| w.len() > 0)
}

pub fn split_words(v: &[char]) -> (r: Vec<Vec<char>>)
    ensures
        views(r@) == words(v@),
{
    let pieces = split_pieces(v, None);
    let ghost all = views(pieces@);
    let ghost keep = |w: Seq<char>| w.len() > 0;
    let mut out: Vec<Vec<char>> = Vec::new();
    let mut i: usize = 0;
    while i < pieces.len()
        invariant
            i <= pieces@.len(),
            all == views(pieces@),
            keep == (|w: Seq<char>| w.len() > 0),
            views(out@) == all.take(i as int).filter(keep),
        decreases pieces@.len() - i,
    {
        let ghost before = views(out@);
        assert(all.take(i + 1).drop_last() == all.take(i as int));
        assert(all.take(i + 1).last() == pieces@[i as int]@);
        reveal(Seq::filter);
        if pieces[i].len() > 0 {
            out.push(pieces[i].clone());
            assert(views(out@) =~= before.push(pieces@[i as int]@));
        }
        i += 1;
    }
    assert(all.take(pieces@.len() as int) == all);
    out
}

pub open spec fn strip_cr(l: Seq<char>) -> Seq<char> {
    if l.len() > 0 && l.last() == '\r' {
        l.drop_last()
    } else {
        l
    }
}

/// `str::lines`: split at `\n`, a `\r` before a `\n` dropped with it, and no
/// empty line after a final `\n`.
pub open spec fn lines(s: Seq<char>) -> Seq<Seq<char>> {
    let parts = split_by(s, eq_char('\n'));
    let n = if parts.last().len() == 0 {
        parts.len() - 1
    } else {
        parts.len() as int
    };
    Seq::new(n as nat, |k: int| if k < parts.len() - 1 { strip_cr(parts[k]) } else { parts[k] })
}

pub fn split_lines(v: &[char]) -> (r: Vec<Vec<char>>)
    ensures
        views(r@) == lines(v@),
{
    let parts = split_pieces(v, Some('\n'));
    let ghost ps = split_by(v@, eq_char('\n'));
    proof {
        lemma_split_by_len(v@, eq_char('\n'));
    }
    assert(views(parts@) == ps);
    let n = if parts[parts.len() - 1].len() == 0 {
        parts.len() - 1
    } else {
        parts.len()
    };
    let mut out: Vec<Vec<char>> = Vec::new();
    let mut k: usize = 0;
    while k < n
        invariant
            k <= n <= parts@.len(),
            views(parts@) == ps,
            ps == split_by(v@, eq_char('\n')),
            ps.len() >= 1,
            n == (if ps.last().len() == 0 { ps.len() - 1 } else { ps.len() as int }),
            views(out@) =~= lines(v@).take(k as int),
        decreases n - k,
    {
        let piece = &parts[k];
        let ghost before = views(out@);
        assert(piece@ == ps[k as int]);
        assert(lines(v@)[k as int] == (if k < ps.len() - 1 { strip_cr(ps[k as int]) } else { ps[k as int] }));
        if k + 1 < parts.len() && piece.len() > 0 && piece[piece.len() - 1] == '\r' {
            let cut = slice(piece.as_slice(), 0, piece.len() - 1);
            assert(cut@ == piece@.drop_last());
            out.push(cut);
        } else {
            out.push(piece.clone());
        }
        assert(views(out@) =~= before.push(lines(v@)[k as int]));
        assert(lines(v@).take(k + 1) =~= lines(v@).take(k as int).push(lines(v@)[k as int]));
        k += 1;
    }
    assert(lines(v@).take(n as int) =~= lines(v@));
    out
}

/// `str::split_once` on one character.
pub open spec fn split_once(s: Seq<char>, c: char) -> Option<(Seq<char>, Seq<char>)> {
    let i = lead_count(s, ne_char(c)) as int;
    if i < s.len() {
        Some((s.take(i), s.skip(i + 1)))
    } else {
        None
    }
}

pub proof fn lemma_lead_count_bound(s: Seq<char>, p: spec_fn(char) -> bool)
    ensures
        lead_count(s, p) <= s.len(),
        forall|j: int| 0 <= j < lead_count(s, p) ==> p(#[trigger] s[j]),
        lead_count(s, p) < s.len() ==> !p(s[lead_count(s, p) as int]),
    decreases s.len(),
{
    if s.len() > 0 && p(s[0]) {
        let t = s.drop_first();
        lemma_lead_count_bound(t, p);
        assert forall|j: int| 0 <= j < lead_count(s, p) implies p(#[trigger] s[j]) by {
            if j > 0 {
                assert(s[j] == t[j - 1]);
            }
        }
    }
}

pub proof fn lemma_trail_count_bound(s: Seq<char>, p: spec_fn(char) -> bool)
    ensures
        trail_count(s, p) <= s.len(),
        forall|j: int| s.len() - trail_count(s, p) <= j < s.len() ==> p(#[trigger] s[j]),
        trail_count(s, p) < s.len() ==> !p(s[s.len() - trail_count(s, p) - 1]),
    decreases s.len(),
{
    if s.len() > 0 && p(s.last()) {
        let t = s.drop_last();
        lemma_trail_count_bound(t, p);
        assert forall|j: int| s.len() - trail_count(s, p) <= j < s.len() implies p(
            #[trigger] s[j],
        ) by {
            if j < s.len() - 1 {
                assert(s[j] == t[j]);
            }
        }
    }
}

/// Position of the first `c` in `v`, or its length.
pub fn index_of(v: &[char], c: char) -> (i: usize)
    ensures
        i == lead_count(v@, ne_char(c)),
        i <= v@.len(),
{
    let mut i: usize = 0;
    while i < v.len() && v[i] != c
        invariant
            i <= v@.len(),
            forall|j: int| 0 <= j < i ==> (ne_char(c))(#[trigger] v@[j]),
        decreases v@.len() - i,
    {
        i += 1;
    }
    proof {
        lemma_lead_count(v@, ne_char(c), i as int);
    }
    i
}

/// Position just past the last `c` in `v`, or 0.
pub fn after_last(v: &[char], c: char) -> (i: usize)
    ensures
        i == v@.len() - trail_count(v@, ne_char(c)),
        i <= v@.len(),
{
    let mut i: usize = v.len();
    while i > 0 && v[i - 1] != c
        invariant
            i <= v@.len(),
            forall|j: int| i <= j < v@.len() ==> (ne_char(c))(#[trigger] v@[j]),
        decreases i,
    {
        i -= 1;
    }
    proof {
        lemma_trail_count(v@, ne_char(c), i as int);
    }
    i
}

pub fn split_once_char(v: &[char], c: char) -> (r: Option<(Vec<char>, Vec<char>)>)
    ensures
        match r {
            Some((a, b)) => split_once(v@, c) == Some((a@, b@)),
            None => split_once(v@, c) is None,
        },
{
    let i = index_of(v, c);
    if i < v.len() {
        Some((slice(v, 0, i), slice(v, i + 1, v.len())))
    } else {
        None
    }
}

/// `str::rsplit(c).next()`: everything after the last `c`.
pub open spec fn after_last_of(s: Seq<char>, c: char) -> Seq<char> {
    s.skip(s.len() - trail_count(s, ne_char(c)))
}

pub fn last_piece(v: &[char], c: char) -> (r: Vec<char>)
    ensures
        r@ == after_last_of(v@, c),
{
    let i = after_last(v, c);
    slice(v, i, v.len())
}

/// `str::strip_prefix`.
pub open spec fn strip_prefix(s: Seq<char>, p: Seq<char>) -> Option<Seq<char>> {
    if starts_with(s, p) {
        Some(s.skip(p.len() as int))
    } else {
        None
    }
}

pub fn strip_prefix_of(v: &[char], p: &str) -> (r: Option<Vec<char>>)
    ensures
        match r {
            Some(t) => strip_prefix(v@, p@) == Some(t@),
            None => strip_prefix(v@, p@) is None,
        },
{
    let pv = chars_of(p);
    if has_prefix(v, pv.as_slice()) {
        Some(slice(v, pv.len(), v.len()))
    } else {
        None
    }
}

// ---- numbers -----------------------------------------------------------------

pub open spec fn digit_char(d: nat) -> char {
    ((48 + d) as u32) as char
}

pub open spec fn digit_value(c: char) -> nat {
    ((c as u32) - 48) as nat
}

/// The decimal rendering of `n`, as `Display` prints it.
pub open spec fn decimal(n: nat) -> Seq<char>
    decreases n,
{
    if n < 10 {
        seq![digit_char(n)]
    } else {
        decimal(n / 10).push(digit_char(n % 10))
    }
}

/// The decimal rendering of a signed number.
pub open spec fn signed_decimal(n: int) -> Seq<char> {
    if n < 0 {
        seq!['-'] + decimal((-n) as nat)
    } else {
        decimal(n as nat)
    }
}

/// Appends the decimal rendering of `n`.
pub fn push_decimal(out: &mut Vec<char>, n: u64)
    ensures
        final(out)@ == old(out)@ + decimal(n as nat),
    decreases n,
{
    if n >= 10 {
        push_decimal(out, n / 10);
    }
    let d: u8 = (n % 10) as u8;
    out.push((48u8 + d) as char);
    proof {
        if n >= 10 {
            assert(decimal(n as nat) == decimal((n / 10) as nat).push(digit_char((n % 10) as nat)));
        }
    }
    assert(final(out)@ =~= old(out)@ + decimal(n as nat));
}

/// Appends the decimal rendering of a signed number.
pub fn push_signed(out: &mut Vec<char>, n: i64)
    requires
        n > i64::MIN,
    ensures
        final(out)@ == old(out)@ + signed_decimal(n as int),
{
    if n < 0 {
        out.push('-');
        let m: u64 = (-n) as u64;
        push_decimal(out, m);
    } else {
        push_decimal(out, n as u64);
    }
    assert(final(out)@ =~= old(out)@ + signed_decimal(n as int));
}

/// The value of a run of decimal digits.
pub open spec fn digits_value(s: Seq<char>) -> nat
    decreases s.len(),
{
    if s.len() == 0 {
        0
    } else {
        digits_value(s.drop_last()) * 10 + digit_value(s.last())
    }
}

pub open spec fn all_digits(s: Seq<char>) -> bool {
    forall|i: int| 0 <= i < s.len() ==> is_ascii_digit(#[trigger] s[i])
}

/// What `str::parse` reads as an unsigned integer, before range checking: an
/// optional `+`, then one or more ASCII digits.
pub open spec fn parse_nat(s: Seq<char>) -> Option<nat> {
    let body = if s.len() > 0 && s[0] == '+' {
        s.drop_first()
    } else {
        s
    };
    if body.len() > 0 && all_digits(body) {
        Some(digits_value(body))
    } else {
        None
    }
}

/// What `str::parse` reads as a signed integer, before range checking.
pub open spec fn parse_int(s: Seq<char>) -> Option<int> {
    if s.len() > 0 && s[0] == '-' {
        let body = s.drop_first();
        if body.len() > 0 && all_digits(body) {
            Some(-(digits_value(body) as int))
        } else {
            None
        }
    } else {
        match parse_nat(s) {
            Some(n) => Some(n as int),
            None => None,
        }
    }
}

/// `str::parse::<u64>`.
pub open spec fn parse_u64(s: Seq<char>) -> Option<u64> {
    match parse_nat(s) {
        Some(n) => if n <= u64::MAX {
            Some(n as u64)
        } else {
            None
        },
        None => None,
    }
}

/// `str::parse::<u32>`.
pub open spec fn parse_u32(s: Seq<char>) -> Option<u32> {
    match parse_nat(s) {
        Some(n) => if n <= u32::MAX {
            Some(n as u32)
        } else {
            None
        },
        None => None,
    }
}

/// `str::parse::<u16>`.
pub open spec fn parse_u16(s: Seq<char>) -> Option<u16> {
    match parse_nat(s) {
        Some(n) => if n <= u16::MAX {
            Some(n as u16)
        } else {
            None
        },
        None => None,
    }
}

/// `str::parse::<i32>`.
pub open spec fn parse_i32(s: Seq<char>) -> Option<i32> {
    match parse_int(s) {
        Some(n) => if i32::MIN <= n <= i32::MAX {
            Some(n as i32)
        } else {
            None
        },
        None => None,
    }
}

pub proof fn lemma_digits_value_mono(s: Seq<char>, i: int)
    requires
        0 <= i <= s.len(),
    ensures
        digits_value(s.take(i)) <= digits_value(s),
    decreases s.len() - i,
{
    if i < s.len() {
        lemma_digits_value_mono(s, i + 1);
        let t = s.take(i + 1);
        assert(t.drop_last() == s.take(i));
        assert(digits_value(t) == digits_value(t.drop_last()) * 10 + digit_value(t.last()));
    } else {
        assert(s.take(i) == s);
    }
}

/// Reads a run of ASCII digits, or `None` when its value exceeds `u64::MAX`.
fn digits_u64(v: &[char], start: usize) -> (r: Option<u64>)
    requires
        start <= v@.len(),
        all_digits(v@.skip(start as int)),
    ensures
        match r {
            Some(n) => n == digits_value(v@.skip(start as int)),
            None => digits_value(v@.skip(start as int)) > u64::MAX,
        },
{
    let ghost body = v@.skip(start as int);
    let mut acc: u64 = 0;
    let mut i = start;
    while i < v.len()
        invariant
            start <= i <= v@.len(),
            body == v@.skip(start as int),
            all_digits(body),
            acc == digits_value(body.take(i - start)),
        decreases v@.len() - i,
    {
        let c = v[i];
        assert(body[i - start] == c);
        assert(is_ascii_digit(c));
        let d: u8 = (c as u8) - 48;
        assert(body.take(i - start + 1).drop_last() == body.take(i - start));
        assert(body.take(i - start + 1).last() == c);
        match acc.checked_mul(10) {
            Some(m) => match m.checked_add(d as u64) {
                Some(n) => {
                    acc = n;
                },
                None => {
                    proof {
                        lemma_digits_value_mono(body, i - start + 1);
                    }
                    return None;
                },
            },
            None => {
                proof {
                    lemma_digits_value_mono(body, i - start + 1);
                }
                return None;
            },
        }
        i += 1;
    }
    assert(body.take(i - start) == body);
    Some(acc)
}

fn check_digits(v: &[char], start: usize) -> (b: bool)
    requires
        start <= v@.len(),
    ensures
        b == all_digits(v@.skip(start as int)),
{
    let mut i = start;
    while i < v.len()
        invariant
            start <= i <= v@.len(),
            forall|j: int| start <= j < i ==> is_ascii_digit(#[trigger] v@[j]),
        decreases v@.len() - i,
    {
        if !ascii_digit(v[i]) {
            assert(!is_ascii_digit(v@.skip(start as int)[i - start]));
            return false;
        }
        i += 1;
    }
    assert forall|j: int| 0 <= j < v@.skip(start as int).len() implies is_ascii_digit(
        #[trigger] v@.skip(start as int)[j],
    ) by {
        assert(v@.skip(start as int)[j] == v@[start + j]);
    }
    true
}

/// Where the digits start once an optional `+` is passed.
fn unsigned_body(v: &[char]) -> (start: usize)
    ensures
        start <= v@.len(),
        v@.skip(start as int) == (if v@.len() > 0 && v@[0] == '+' {
            v@.drop_first()
        } else {
            v@
        }),
{
    if v.len() > 0 && v[0] == '+' {
        assert(v@.skip(1) == v@.drop_first());
        1
    } else {
        assert(v@.skip(0) == v@);
        0
    }
}

/// `str::parse::<u64>`.
pub fn parse_u64_of(v: &[char]) -> (r: Option<u64>)
    ensures
        r == parse_u64(v@),
{
    let start = unsigned_body(v);
    if start == v.len() || !check_digits(v, start) {
        return None;
    }
    digits_u64(v, start)
}

/// `str::parse::<u32>`.
pub fn parse_u32_of(v: &[char]) -> (r: Option<u32>)
    ensures
        r == parse_u32(v@),
{
    match parse_u64_of(v) {
        Some(n) => if n <= 0xffff_ffff {
            Some(n as u32)
        } else {
            None
        },
        None => None,
    }
}

/// `str::parse::<u16>`.
pub fn parse_u16_of(v: &[char]) -> (r: Option<u16>)
    ensures
        r == parse_u16(v@),
{
    match parse_u64_of(v) {
        Some(n) => if n <= 0xffff {
            Some(n as u16)
        } else {
            None
        },
        None => None,
    }
}

/// `str::parse::<i32>`.
pub fn parse_i32_of(v: &[char]) -> (r: Option<i32>)
    ensures
        r == parse_i32(v@),
{
    if v.len() > 0 && v[0] == '-' {
        assert(v@.skip(1) == v@.drop_first());
        if v.len() == 1 || !check_digits(v, 1) {
            return None;
        }
        match digits_u64(v, 1) {
            Some(n) => if n <= 0x8000_0000 {
                let m: i64 = n as i64;
                Some((-m) as i32)
            } else {
                None
            },
            None => None,
        }
    } else {
        match parse_u64_of(v) {
            Some(n) => if n <= 0x7fff_ffff {
                Some(n as i32)
            } else {
                None
            },
            None => None,
        }
    }
}

// ---- searching -----------------------------------------------------------------

/// `t` occurs in `s` starting at `i`.
pub open spec fn occurs_at(s: Seq<char>, t: Seq<char>, i: int) -> bool {
    0 <= i && i + t.len() <= s.len() && s.subrange(i, i + t.len()) == t
}

/// `str::contains` with a string pattern.
pub open spec fn contains_seq(s: Seq<char>, t: Seq<char>) -> bool {
    exists|i: int| #[trigger] occurs_at(s, t, i)
}

fn matches_at(s: &[char], t: &[char], i: usize) -> (b: bool)
    requires
        i + t@.len() <= s@.len(),
    ensures
        b == occurs_at(s@, t@, i as int),
{
    let n = s.len();
    let mut k: usize = 0;
    while k < t.len()
        invariant
            k <= t@.len(),
            n == s@.len(),
            i + t@.len() <= s@.len(),
            forall|j: int| 0 <= j < k ==> s@[i + j] == t@[j],
        decreases t@.len() - k,
    {
        if s[i + k] != t[k] {
            assert(s@.subrange(i as int, i + t@.len())[k as int] != t@[k as int]);
            return false;
        }
        k += 1;
    }
    assert(s@.subrange(i as int, i + t@.len()) =~= t@);
    true
}

pub fn contains_str(s: &[char], t: &str) -> (b: bool)
    ensures
        b == contains_seq(s@, t@),
{
    let tv = chars_of(t);
    if tv.len() == 0 {
        assert(s@.subrange(0, 0) =~= t@);
        assert(occurs_at(s@, t@, 0));
        return true;
    }
    if tv.len() > s.len() {
        return false;
    }
    let n = s.len();
    let last = n - tv.len();
    let mut i: usize = 0;
    while i <= last
        invariant
            n == s@.len(),
            tv@.len() > 0,
            last == s@.len() - tv@.len(),
            i <= last + 1,
            tv@ == t@,
            forall|j: int| 0 <= j < i ==> !#[trigger] occurs_at(s@, t@, j),
        decreases last + 1 - i,
    {
        if matches_at(s, tv.as_slice(), i) {
            return true;
        }
        i += 1;
    }
    false
}

// ---- case mapping --------------------------------------------------------------

/// What `str::to_uppercase` gives: full Unicode upper-casing.
pub uninterp spec fn uppercase(s: Seq<char>) -> Seq<char>;

/// What `str::to_lowercase` gives: full Unicode lower-casing.
pub uninterp spec fn lowercase(s: Seq<char>) -> Seq<char>;

/// `str::to_uppercase`.
#[verifier::external_body]
pub(crate) fn upper_of(s: &str) -> (r: String)
    ensures
        r@ == uppercase(s@),
{
    s.to_uppercase()
}

/// `str::to_lowercase`.
#[verifier::external_body]
pub(crate) fn lower_of(s: &str) -> (r: String)
    ensures
        r@ == lowercase(s@),
{
    s.to_lowercase()
}

/// What `String::from_utf8_lossy` makes of some bytes.
pub uninterp spec fn utf8_lossy(b: Seq<u8>) -> Seq<char>;

/// `String::from_utf8_lossy`, owned.
#[verifier::external_body]
pub(crate) fn lossy_of(bytes: &[u8]) -> (r: String)
    ensures
        r@ == utf8_lossy(bytes@),
{
    String::from_utf8_lossy(bytes).into_owned()
}

/// Filtering a sequence that starts with `a`.
pub proof fn lemma_filter_cons<A>(a: A, rest: Seq<A>, p: spec_fn(A) -> bool)
    ensures
        (seq![a] + rest).filter(p) == (if p(a) {
            seq![a] + rest.filter(p)
        } else {
            rest.filter(p)
        }),
{
    reveal(Seq::filter);
    Seq::filter_distributes_over_add(seq![a], rest, p);
    assert(seq![a].drop_last() =~= Seq::<A>::empty());
    assert(Seq::<A>::empty().filter(p) =~= Seq::<A>::empty());
    assert(seq![a].filter(p) =~= (if p(a) { seq![a] } else { Seq::<A>::empty() }));
}

} // verus!
