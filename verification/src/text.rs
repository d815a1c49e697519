//! Text helpers the rest of the crate is stated in: decimal rendering, trimming,
//! prefix and substring tests.

use vstd::prelude::*;
use vstd::seq_lib::{to_multiset_build, to_multiset_insert};

verus! {

/// The character of a decimal digit.
pub open spec fn digit_char(d: nat) -> char {
    if d == 0 { '0' }
    else if d == 1 { '1' }
    else if d == 2 { '2' }
    else if d == 3 { '3' }
    else if d == 4 { '4' }
    else if d == 5 { '5' }
    else if d == 6 { '6' }
    else if d == 7 { '7' }
    else if d == 8 { '8' }
    else { '9' }
}

/// The decimal rendering of a natural number, without sign or leading zeros.
pub open spec fn dec(n: nat) -> Seq<char>
    decreases n,
{
    if n < 10 {
        seq![digit_char(n)]
    } else {
        dec(n / 10) + seq![digit_char(n % 10)]
    }
}

fn digit_str(d: u64) -> (s: &'static str)
    requires
        d < 10,
    ensures
        s@ == seq![digit_char(d as nat)],
{
    proof {
        reveal_strlit("0");
        reveal_strlit("1");
        reveal_strlit("2");
        reveal_strlit("3");
        reveal_strlit("4");
        reveal_strlit("5");
        reveal_strlit("6");
        reveal_strlit("7");
        reveal_strlit("8");
        reveal_strlit("9");
    }
    if d == 0 { "0" }
    else if d == 1 { "1" }
    else if d == 2 { "2" }
    else if d == 3 { "3" }
    else if d == 4 { "4" }
    else if d == 5 { "5" }
    else if d == 6 { "6" }
    else if d == 7 { "7" }
    else if d == 8 { "8" }
    else { "9" }
}

/// Render `n` in decimal.
pub fn decimal(n: u64) -> (s: String)
    ensures
        s@ == dec(n as nat),
    decreases n,
{
    if n < 10 {
        String::from_str(digit_str(n))
    } else {
        let mut s = decimal(n / 10);
        s.append(digit_str(n % 10));
        s
    }
}

/// Whitespace as `char::is_whitespace` has it: the Unicode `White_Space` property.
pub open spec fn is_ws(c: char) -> bool {
    ||| ('\u{9}' <= c && c <= '\u{d}')
    ||| c == ' '
    ||| c == '\u{85}'
    ||| c == '\u{a0}'
    ||| c == '\u{1680}'
    ||| ('\u{2000}' <= c && c <= '\u{200a}')
    ||| c == '\u{2028}'
    ||| c == '\u{2029}'
    ||| c == '\u{202f}'
    ||| c == '\u{205f}'
    ||| c == '\u{3000}'
}

pub fn char_is_ws(c: char) -> (b: bool)
    ensures
        b == is_ws(c),
{
    ('\u{9}' <= c && c <= '\u{d}') || c == ' ' || c == '\u{85}' || c == '\u{a0}' || c == '\u{1680}'
        || ('\u{2000}' <= c && c <= '\u{200a}') || c == '\u{2028}' || c == '\u{2029}'
        || c == '\u{202f}' || c == '\u{205f}' || c == '\u{3000}'
}

/// Number of whitespace characters at the front of `s`.
pub open spec fn lead_ws(s: Seq<char>) -> nat
    decreases s.len(),
{
    if s.len() > 0 && is_ws(s[0]) { 1 + lead_ws(s.drop_first()) } else { 0 }
}

/// Number of whitespace characters at the back of `s`.
pub open spec fn trail_ws(s: Seq<char>) -> nat
    decreases s.len(),
{
    if s.len() > 0 && is_ws(s.last()) { 1 + trail_ws(s.drop_last()) } else { 0 }
}

/// `s` with leading and trailing whitespace removed, as `str::trim` does.
pub open spec fn trimmed(s: Seq<char>) -> Seq<char> {
    let a = lead_ws(s);
    if a == s.len() {
        Seq::empty()
    } else {
        s.subrange(a as int, s.len() - trail_ws(s))
    }
}

proof fn lemma_lead_ws(s: Seq<char>, k: int)
    requires
        0 <= k <= s.len(),
        forall|j: int| 0 <= j < k ==> is_ws(#[trigger] s[j]),
        k == s.len() || !is_ws(s[k]),
    ensures
        lead_ws(s) == k,
    decreases k,
{
    if k > 0 {
        let t = s.drop_first();
        assert forall|j: int| 0 <= j < k - 1 implies is_ws(#[trigger] t[j]) by {
            assert(t[j] == s[j + 1]);
        }
        if k - 1 < t.len() {
            assert(t[k - 1] == s[k]);
        }
        lemma_lead_ws(t, k - 1);
    }
}

proof fn lemma_trail_ws(s: Seq<char>, k: int)
    requires
        0 <= k <= s.len(),
        forall|j: int| s.len() - k <= j < s.len() ==> is_ws(#[trigger] s[j]),
        k == s.len() || !is_ws(s[s.len() - k - 1]),
    ensures
        trail_ws(s) == k,
    decreases k,
{
    if k > 0 {
        let t = s.drop_last();
        assert forall|j: int| t.len() - (k - 1) <= j < t.len() implies is_ws(#[trigger] t[j]) by {
            assert(t[j] == s[j]);
        }
        if k - 1 < t.len() {
            assert(t[t.len() - (k - 1) - 1] == s[s.len() - k - 1]);
        }
        lemma_trail_ws(t, k - 1);
    }
}

/// `s` without leading and trailing whitespace.
pub fn trim(s: &str) -> (r: String)
    ensures
        r@ == trimmed(s@),
{
    let len = s.unicode_len();
    let mut all_ws = true;
    let mut start: usize = 0;
    let mut end: usize = 0;
    let mut i: usize = 0;
    for c in it: s.chars()
        invariant
            i == it.index(),
            it.seq() == s@,
            len == s@.len(),
            it.index() <= len,
            all_ws ==> start == it.index() && end == 0,
            forall|j: int| 0 <= j < start ==> is_ws(#[trigger] s@[j]),
            !all_ws ==> start < end <= it.index() && !is_ws(s@[start as int]) && !is_ws(
                s@[end - 1],
            ),
            forall|j: int| end <= j < it.index() && !all_ws ==> is_ws(#[trigger] s@[j]),
    {
        assert(c == s@[i as int]);
        let w = char_is_ws(c);
        if all_ws {
            if w {
                start = start + 1;
            } else {
                all_ws = false;
                end = start + 1;
            }
        } else if !w {
            end = i + 1;
        }
        i = i + 1;
    }
    if all_ws {
        proof {
            lemma_lead_ws(s@, s@.len() as int);
        }
        String::new()
    } else {
        proof {
            lemma_lead_ws(s@, start as int);
            lemma_trail_ws(s@, (len - end) as int);
        }
        String::from_str(s.substring_char(start, end))
    }
}

pub fn count_chars(s: &str) -> (n: usize)
    ensures
        n == s@.len(),
{
    let len = s.unicode_len();
    let mut n: usize = 0;
    for c in it: s.chars()
        invariant
            n == it.index(),
            it.seq() == s@,
            len == s@.len(),
            n <= len,
    {
        n = n + 1;
    }
    n
}

} // verus!

verus! {

/// Whether two strings hold the same characters.
pub fn str_eq(a: &str, b: &str) -> (r: bool)
    ensures
        r == (a@ == b@),
{
    let x = String::from_str(a);
    let y = String::from_str(b);
    x == y
}

/// The position of the first line feed in `s`, or -1.
pub open spec fn first_newline(s: Seq<char>) -> int
    decreases s.len(),
{
    if s.len() == 0 {
        -1
    } else if s[0] == '\n' {
        0
    } else {
        let r = first_newline(s.drop_first());
        if r < 0 { -1 } else { r + 1 }
    }
}

pub proof fn lemma_first_newline(s: Seq<char>)
    ensures
        -1 <= first_newline(s) < s.len(),
        first_newline(s) >= 0 ==> s[first_newline(s)] == '\n',
        forall|j: int|
            0 <= j < s.len() && (first_newline(s) < 0 || j < first_newline(s)) ==> #[trigger] s[j]
                != '\n',
    decreases s.len(),
{
    if s.len() > 0 {
        lemma_first_newline(s.drop_first());
        assert forall|j: int|
            0 <= j < s.len() && (first_newline(s) < 0 || j < first_newline(s)) implies #[trigger] s[j]
                != '\n' by {
            if j > 0 {
                assert(s[j] == s.drop_first()[j - 1]);
            }
        }
    }
}

/// A line ended by a line feed, without the carriage return before it.
pub open spec fn strip_cr(l: Seq<char>) -> Seq<char> {
    if l.len() > 0 && l.last() == '\r' {
        l.drop_last()
    } else {
        l
    }
}

/// The lines of `s` as `str::lines` gives them: split at each line feed, a carriage return
/// before the line feed dropped, and no empty line after a final line feed.
pub open spec fn lines(s: Seq<char>) -> Seq<Seq<char>>
    decreases s.len(),
{
    let k = first_newline(s);
    if k < 0 {
        if s.len() == 0 {
            Seq::empty()
        } else {
            seq![s]
        }
    } else {
        proof {
            lemma_first_newline(s);
        }
        seq![strip_cr(s.take(k))] + lines(s.skip(k + 1))
    }
}

/// The first `k` lines of `s`, or all of them when there are fewer.
pub open spec fn first_k_lines(s: Seq<char>, k: nat) -> Seq<Seq<char>> {
    if k < lines(s).len() {
        lines(s).take(k as int)
    } else {
        lines(s)
    }
}

proof fn lemma_newline_at(s: Seq<char>, pos: int, j: int)
    requires
        0 <= pos <= j <= s.len(),
        forall|x: int| pos <= x < j ==> #[trigger] s[x] != '\n',
        j < s.len() ==> s[j] == '\n',
    ensures
        j < s.len() ==> first_newline(s.skip(pos)) == j - pos,
        j == s.len() ==> first_newline(s.skip(pos)) < 0,
{
    let t = s.skip(pos);
    lemma_first_newline(t);
    let f = first_newline(t);
    if f >= 0 {
        assert(t[f] == s[pos + f]);
        if j < s.len() {
            assert(t[j - pos] == s[j]);
        }
    } else if j < s.len() {
        assert(t[j - pos] == s[j]);
    }
}

/// The first `k` lines of `s`, as `s.lines().take(k)` gives them.
pub fn first_lines(s: &str, k: usize) -> (r: Vec<String>)
    ensures
        r@.map_values(|x: String| x@) == first_k_lines(s@, k as nat),
{
    let c = chars_of(s);
    let n = c.len();
    let mut out: Vec<String> = Vec::new();
    let mut pos: usize = 0;
    proof {
        assert(s@.skip(0) =~= s@);
    }
    while pos < n && out.len() < k
        invariant
            pos <= n == c@.len(),
            c@ == s@,
            out@.len() <= k,
            out@.map_values(|x: String| x@) + lines(s@.skip(pos as int)) == lines(s@),
        decreases n - pos,
    {
        let mut j = pos;
        while j < n && c[j] != '\n'
            invariant
                pos <= j <= n == c@.len(),
                forall|x: int| pos <= x < j ==> #[trigger] c@[x] != '\n',
            decreases n - j,
        {
            j = j + 1;
        }
        proof {
            lemma_newline_at(s@, pos as int, j as int);
            lemma_first_newline(s@.skip(pos as int));
        }
        let ghost t = s@.skip(pos as int);
        let ghost before = out@;
        if j == n {
            let line = String::from_str(s.substring_char(pos, n));
            assert(line@ =~= t);
            out.push(line);
            assert(out@.map_values(|x: String| x@) =~= before.map_values(|x: String| x@).push(t));
            assert(s@.skip(n as int) =~= Seq::<char>::empty());
            assert(lines(t) == seq![t]);
            assert(out@.map_values(|x: String| x@) + lines(s@.skip(n as int)) =~= before.map_values(
                |x: String| x@,
            ) + lines(t));
            pos = n;
        } else {
            let end = if j > pos && c[j - 1] == '\r' {
                j - 1
            } else {
                j
            };
            let line = String::from_str(s.substring_char(pos, end));
            assert(t.take(j - pos) =~= s@.subrange(pos as int, j as int));
            assert(line@ =~= strip_cr(t.take(j - pos)));
            out.push(line);
            assert(t.skip(j - pos + 1) =~= s@.skip(j + 1));
            assert(lines(t) == seq![strip_cr(t.take(j - pos))] + lines(s@.skip(j + 1)));
            assert(out@.map_values(|x: String| x@) =~= before.map_values(|x: String| x@).push(
                strip_cr(t.take(j - pos)),
            ));
            assert(out@.map_values(|x: String| x@) + lines(s@.skip(j + 1)) =~= before.map_values(
                |x: String| x@,
            ) + lines(t));
            pos = j + 1;
        }
    }
    proof {
        let o = out@.map_values(|x: String| x@);
        if out@.len() == k {
            assert(lines(s@).take(k as int) =~= o);
        } else {
            assert(s@.skip(pos as int) =~= Seq::<char>::empty());
            assert(lines(s@.skip(pos as int)) =~= Seq::<Seq<char>>::empty());
            assert(o =~= lines(s@));
        }
    }
    out
}

/// The characters of `s`.
pub fn chars_of(s: &str) -> (v: Vec<char>)
    ensures
        v@ == s@,
{
    let mut v: Vec<char> = Vec::new();
    for c in it: s.chars()
        invariant
            it.seq() == s@,
            v@ == s@.take(it.index() as int),
    {
        let ghost i = it.index();
        v.push(c);
        assert(v@ =~= s@.take(i + 1));
    }
    assert(v@ =~= s@);
    v
}

/// Whether `s` begins with `p`.
pub open spec fn has_prefix(s: Seq<char>, p: Seq<char>) -> bool {
    p.len() <= s.len() && s.take(p.len() as int) == p
}

/// Whether `s` begins with `p`.
pub fn starts_with(s: &str, p: &str) -> (r: bool)
    ensures
        r == has_prefix(s@, p@),
{
    let n = p.unicode_len();
    if s.unicode_len() < n {
        false
    } else {
        let head = s.substring_char(0, n);
        assert(head@ =~= s@.take(n as int));
        str_eq(head, p)
    }
}

/// The texts of a list of strings.
pub open spec fn texts(v: Seq<String>) -> Seq<Seq<char>> {
    v.map_values(|s: String| s@)
}

/// Whether `a` comes no later than `b` in the order of their characters' code points, which
/// is the order of their UTF-8 bytes.
pub open spec fn lex_le(a: Seq<char>, b: Seq<char>) -> bool
    decreases a.len(),
{
    if a.len() == 0 {
        true
    } else if b.len() == 0 {
        false
    } else if a[0] != b[0] {
        (a[0] as int) < (b[0] as int)
    } else {
        lex_le(a.drop_first(), b.drop_first())
    }
}

pub proof fn lemma_lex_total(a: Seq<char>, b: Seq<char>)
    ensures
        lex_le(a, b) || lex_le(b, a),
    decreases a.len(),
{
    if a.len() > 0 && b.len() > 0 && a[0] == b[0] {
        lemma_lex_total(a.drop_first(), b.drop_first());
    }
}

pub proof fn lemma_lex_trans(a: Seq<char>, b: Seq<char>, c: Seq<char>)
    requires
        lex_le(a, b),
        lex_le(b, c),
    ensures
        lex_le(a, c),
    decreases a.len(),
{
    if a.len() > 0 && b.len() > 0 && c.len() > 0 && a[0] == b[0] && b[0] == c[0] {
        lemma_lex_trans(a.drop_first(), b.drop_first(), c.drop_first());
    }
}

/// Whether `s` is in order.
pub open spec fn sorted(s: Seq<Seq<char>>) -> bool {
    forall|i: int, j: int| 0 <= i < j < s.len() ==> lex_le(#[trigger] s[i], #[trigger] s[j])
}

/// Whether `a` comes no later than `b`.
pub fn text_le(a: &str, b: &str) -> (r: bool)
    ensures
        r == lex_le(a@, b@),
{
    let x = chars_of(a);
    let y = chars_of(b);
    let mut i: usize = 0;
    assert(a@.skip(0) =~= a@);
    assert(b@.skip(0) =~= b@);
    while i < x.len() && i < y.len() && x[i] == y[i]
        invariant
            i <= x.len(),
            i <= y.len(),
            x@ == a@,
            y@ == b@,
            lex_le(a@, b@) == lex_le(a@.skip(i as int), b@.skip(i as int)),
        decreases x.len() - i,
    {
        assert(a@.skip(i as int).drop_first() =~= a@.skip(i + 1));
        assert(b@.skip(i as int).drop_first() =~= b@.skip(i + 1));
        i = i + 1;
    }
    assert(a@.skip(0) =~= a@);
    if i == x.len() {
        assert(a@.skip(i as int).len() == 0);
        true
    } else if i == y.len() {
        assert(b@.skip(i as int).len() == 0);
        false
    } else {
        assert(a@.skip(i as int)[0] == x@[i as int]);
        assert(b@.skip(i as int)[0] == y@[i as int]);
        x[i] < y[i]
    }
}

/// The strings in order, by insertion.
pub fn sort_texts(v: Vec<String>) -> (r: Vec<String>)
    ensures
        sorted(texts(r@)),
        texts(r@).to_multiset() == texts(v@).to_multiset(),
        r@.len() == v@.len(),
{
    let mut out: Vec<String> = Vec::new();
    let mut rest = v;
    let ghost orig = texts(rest@);
    proof {
        assert(orig.take(0) =~= Seq::<Seq<char>>::empty());
        assert(texts(out@) =~= Seq::<Seq<char>>::empty());
    }
    let mut i: usize = 0;
    let n = rest.len();
    while i < n
        invariant
            n == rest.len(),
            i <= n,
            orig == texts(rest@),
            sorted(texts(out@)),
            texts(out@).to_multiset() == orig.take(i as int).to_multiset(),
            out@.len() == i,
        decreases n - i,
    {
        let x = String::from_str(rest[i].as_str());
        let mut p: usize = 0;
        while p < out.len() && text_le(out[p].as_str(), x.as_str())
            invariant
                p <= out.len(),
                forall|k: int| 0 <= k < p ==> lex_le(#[trigger] texts(out@)[k], x@),
            decreases out.len() - p,
        {
            p = p + 1;
        }
        let ghost before = texts(out@);
        out.insert(p, x);
        proof {
            assert(texts(out@) =~= before.insert(p as int, x@));
            let t = texts(out@);
            if p < before.len() {
                lemma_lex_total(before[p as int], x@);
            }
            assert forall|a: int, b: int| 0 <= a < b < t.len() implies lex_le(#[trigger] t[a], #[trigger] t[b]) by {
                if b < p {
                    assert(t[a] == before[a] && t[b] == before[b]);
                } else if b == p {
                    assert(t[a] == before[a]);
                } else if a == p {
                    assert(t[b] == before[b - 1]);
                    if b - 1 > p {
                        lemma_lex_trans(x@, before[p as int], before[b - 1]);
                    }
                } else if a < p {
                    assert(t[a] == before[a] && t[b] == before[b - 1]);
                } else {
                    assert(t[a] == before[a - 1] && t[b] == before[b - 1]);
                }
            }
            to_multiset_insert(before, p as int, x@);
            assert(orig.take((i + 1) as int) =~= orig.take(i as int).push(x@));
            to_multiset_build(orig.take(i as int), x@);
        }
        i = i + 1;
    }
    proof {
        assert(orig.take(n as int) =~= orig);
    }
    out
}

/// Whether `s` ends with `p`.
pub open spec fn has_suffix(s: Seq<char>, p: Seq<char>) -> bool {
    p.len() <= s.len() && s.skip(s.len() - p.len()) == p
}

/// Whether `s` ends with `p`.
pub fn ends_with(s: &str, p: &str) -> (r: bool)
    ensures
        r == has_suffix(s@, p@),
{
    let n = p.unicode_len();
    let m = s.unicode_len();
    if m < n {
        false
    } else {
        let tail = s.substring_char(m - n, m);
        assert(tail@ =~= s@.skip(m - n));
        str_eq(tail, p)
    }
}

} // verus!
