//! Making the shader compiler's generated permutation index reproducible: its `#include` list and
//! its `PermutationInfo` entries are sorted, and its `IndirectionTable` is remapped through the same
//! permutation, so that every permutation key still selects the same blob while the bytes stop
//! depending on the order the compiler happened to emit. Also the recovery of a raw DXBC blob from
//! a generated blob header. The compiler runs and the file I/O live with the caller.
use crate::text::{
    char_is_whitespace, chars_of, is_white_space, lemma_text_lt_irreflexive, lemma_text_lt_total, lemma_text_lt_transitive,
    same_text, string_from_chars, text_less, text_lt, texts,
};
use vstd::prelude::*;
use vstd::set_lib::{lemma_int_range, lemma_len_subset, lemma_map_size, lemma_subset_equality, set_int_range};
use vstd::string::StringExecFns;

verus! {

/// Whether entry `a` of `s` goes before entry `b` in a stable sort: a smaller text, or the same
/// text earlier.
pub open spec fn prec(s: Seq<Seq<char>>, a: int, b: int) -> bool {
    text_lt(s[a], s[b]) || (s[a] == s[b] && a < b)
}

/// How many of the first `m` entries go before entry `k`.
pub open spec fn count_prec(s: Seq<Seq<char>>, k: int, m: int) -> int
    decreases m,
{
    if m <= 0 {
        0
    } else {
        count_prec(s, k, m - 1) + if prec(s, m - 1, k) {
            1int
        } else {
            0int
        }
    }
}

/// Where entry `k` lands in the stable sort of `s`: the number of entries that go before it.
pub open spec fn rank(s: Seq<Seq<char>>, k: int) -> int {
    count_prec(s, k, s.len() as int)
}

/// The texts of `s` in increasing order, equal texts in their original order: position `p` holds
/// the entry whose rank is `p`.
pub open spec fn sorted_texts(s: Seq<Seq<char>>) -> Seq<Seq<char>> {
    Seq::new(s.len(), |p: int| s[choose|k: int| 0 <= k < s.len() && rank(s, k) == p])
}

/// Whether texts are in non-decreasing order.
pub open spec fn sorted_le(s: Seq<Seq<char>>) -> bool {
    forall|i: int, j: int| 0 <= i < j < s.len() ==> !text_lt(#[trigger] s[j], #[trigger] s[i])
}

proof fn lemma_prec_order(s: Seq<Seq<char>>, a: int, b: int, c: int)
    ensures
        !prec(s, a, a),
        a != b ==> (prec(s, a, b) || prec(s, b, a)),
        !(prec(s, a, b) && prec(s, b, a)),
        prec(s, a, b) && prec(s, b, c) ==> prec(s, a, c),
{
    lemma_text_lt_irreflexive(s[a]);
    lemma_text_lt_total(s[a], s[b]);
    lemma_text_lt_total(s[b], s[c]);
    lemma_text_lt_total(s[a], s[c]);
    if text_lt(s[a], s[b]) && text_lt(s[b], s[c]) {
        lemma_text_lt_transitive(s[a], s[b], s[c]);
    }
    if s[a] == s[b] && text_lt(s[b], s[c]) {
    }
    if text_lt(s[a], s[b]) && s[b] == s[c] {
    }
}

proof fn lemma_count_bounds(s: Seq<Seq<char>>, k: int, m: int)
    requires
        0 <= m <= s.len(),
        0 <= k < s.len(),
    ensures
        0 <= count_prec(s, k, m) <= m,
        k < m ==> count_prec(s, k, m) <= m - 1,
    decreases m,
{
    if m > 0 {
        lemma_count_bounds(s, k, m - 1);
        lemma_prec_order(s, k, k, k);
    }
}

proof fn lemma_count_mono(s: Seq<Seq<char>>, a: int, b: int, m: int)
    requires
        0 <= m <= s.len(),
        0 <= a < s.len(),
        0 <= b < s.len(),
        prec(s, a, b),
    ensures
        count_prec(s, a, m) <= count_prec(s, b, m),
        a < m ==> count_prec(s, a, m) + 1 <= count_prec(s, b, m),
    decreases m,
{
    if m > 0 {
        lemma_count_mono(s, a, b, m - 1);
        lemma_prec_order(s, m - 1, a, b);
        lemma_prec_order(s, a, a, a);
    }
}

/// Whether some entry has rank `p`.
pub open spec fn rank_taken(s: Seq<Seq<char>>, p: int) -> bool {
    exists|k: int| 0 <= k < s.len() && #[trigger] rank(s, k) == p
}

/// Ranks are a one-to-one numbering of the entries by the positions 0 to n - 1.
pub(crate) proof fn lemma_rank_bijective(s: Seq<Seq<char>>)
    ensures
        forall|k: int| 0 <= k < s.len() ==> 0 <= #[trigger] rank(s, k) < s.len(),
        forall|a: int, b: int|
            0 <= a < s.len() && 0 <= b < s.len() && a != b ==> #[trigger] rank(s, a) != #[trigger] rank(
                s,
                b,
            ),
        forall|p: int| 0 <= p < s.len() ==> #[trigger] rank_taken(s, p),
{
    let n = s.len() as int;
    assert forall|k: int| 0 <= k < n implies 0 <= #[trigger] rank(s, k) < n by {
        lemma_count_bounds(s, k, n);
    }
    assert forall|a: int, b: int| 0 <= a < n && 0 <= b < n && a != b implies #[trigger] rank(s, a)
        != #[trigger] rank(s, b) by {
        lemma_prec_order(s, a, b, a);
        if prec(s, a, b) {
            lemma_count_mono(s, a, b, n);
        } else {
            lemma_count_mono(s, b, a, n);
        }
    }
    let dom = vstd::set_lib::set_int_range(0, n);
    lemma_int_range(0, n);
    let f = |k: int| rank(s, k);
    let img = dom.map(f);
    assert(vstd::relations::injective_on(f, dom)) by {
        assert forall|a: int, b: int| dom.contains(a) && dom.contains(b) && #[trigger] f(a) == #[trigger] f(
            b,
        ) implies a == b by {
            if a != b {
                assert(rank(s, a) != rank(s, b));
            }
        }
    }
    lemma_map_size(dom, img, f);
    assert(img.subset_of(dom)) by {
        assert forall|p: int| img.contains(p) implies dom.contains(p) by {
            let k = choose|k: int| dom.contains(k) && f(k) == p;
            assert(0 <= rank(s, k) < n);
        }
    }
    lemma_subset_equality(img, dom);
    assert forall|p: int| 0 <= p < n implies #[trigger] rank_taken(s, p) by {
        assert(dom.contains(p));
        assert(img.contains(p));
        let k = choose|k: int| dom.contains(k) && f(k) == p;
        assert(rank(s, k) == p);
    }
}

/// Each entry sits at its rank in the sorted texts, which are in order and hold the same entries.
pub proof fn lemma_sorted_texts(s: Seq<Seq<char>>)
    ensures
        sorted_texts(s).len() == s.len(),
        forall|k: int| 0 <= k < s.len() ==> #[trigger] sorted_texts(s)[rank(s, k)] == s[k],
        sorted_le(sorted_texts(s)),
        forall|k: int| 0 <= k < s.len() ==> 0 <= #[trigger] rank(s, k) < s.len(),
{
    lemma_rank_bijective(s);
    let n = s.len() as int;
    let t = sorted_texts(s);
    assert forall|k: int| 0 <= k < n implies #[trigger] t[rank(s, k)] == s[k] by {
        let p = rank(s, k);
        assert(rank_taken(s, p));
        let k2 = choose|k2: int| 0 <= k2 < n && rank(s, k2) == p;
        assert(rank(s, k2) == p);
        if k2 != k {
            assert(rank(s, k2) != rank(s, k));
        }
    }
    assert forall|i: int, j: int| 0 <= i < j < n implies !text_lt(#[trigger] t[j], #[trigger] t[i]) by {
        assert(rank_taken(s, i));
        assert(rank_taken(s, j));
        let a = choose|k: int| 0 <= k < n && rank(s, k) == i;
        let b = choose|k: int| 0 <= k < n && rank(s, k) == j;
        assert(rank(s, a) == i);
        assert(rank(s, b) == j);
        lemma_prec_order(s, a, b, a);
        if prec(s, b, a) {
            lemma_count_mono(s, b, a, n);
        }
        lemma_text_lt_total(s[a], s[b]);
    }
}

/// The texts of `v` as character vectors.
fn char_vecs(v: &Vec<String>) -> (r: Vec<Vec<char>>)
    ensures
        r@.len() == v@.len(),
        forall|i: int| 0 <= i < v@.len() ==> #[trigger] r@[i]@ == v@[i]@,
{
    let mut r: Vec<Vec<char>> = Vec::new();
    let mut i: usize = 0;
    while i < v.len()
        invariant
            i <= v@.len(),
            r@.len() == i,
            forall|k: int| 0 <= k < i ==> #[trigger] r@[k]@ == v@[k]@,
        decreases v@.len() - i,
    {
        r.push(chars_of(v[i].as_str()));
        i = i + 1;
    }
    r
}

/// The stable sort of some strings and each one's rank (see `sorted_texts` and `rank`).
pub fn sort_by_rank(v: &Vec<String>) -> (r: (Vec<String>, Vec<usize>))
    ensures
        texts(r.0@) == sorted_texts(texts(v@)),
        r.1@.len() == v@.len(),
        forall|k: int| 0 <= k < v@.len() ==> #[trigger] r.1@[k] as int == rank(texts(v@), k),
{
    let ghost s = texts(v@);
    let n = v.len();
    let cs = char_vecs(v);
    proof {
        lemma_sorted_texts(s);
        lemma_rank_bijective(s);
        assert forall|k: int| 0 <= k < n implies #[trigger] cs@[k]@ == s[k] by {}
    }
    let mut ranks: Vec<usize> = Vec::new();
    let mut k: usize = 0;
    while k < n
        invariant
            k <= n == v@.len() == s.len() == cs@.len(),
            s == texts(v@),
            forall|i: int| 0 <= i < n ==> #[trigger] cs@[i]@ == s[i],
            ranks@.len() == k,
            forall|i: int| 0 <= i < k ==> #[trigger] ranks@[i] as int == rank(s, i),
            forall|i: int| 0 <= i < n ==> 0 <= #[trigger] rank(s, i) < n,
        decreases n - k,
    {
        let mut c: usize = 0;
        let mut j: usize = 0;
        while j < n
            invariant
                j <= n == s.len() == cs@.len(),
                k < n,
                forall|i: int| 0 <= i < n ==> #[trigger] cs@[i]@ == s[i],
                c as int == count_prec(s, k as int, j as int),
                c <= j,
            decreases n - j,
        {
            let before = text_less(&cs[j], &cs[k]) || (same_text(&cs[j], &cs[k]) && j < k);
            proof {
                assert(before == prec(s, j as int, k as int));
            }
            if before {
                c = c + 1;
            }
            j = j + 1;
        }
        ranks.push(c);
        k = k + 1;
    }
    let mut out: Vec<String> = Vec::new();
    let mut i: usize = 0;
    while i < n
        invariant
            i <= n,
            out@.len() == i,
        decreases n - i,
    {
        out.push(String::new());
        i = i + 1;
    }
    let mut k: usize = 0;
    while k < n
        invariant
            k <= n == v@.len() == s.len(),
            s == texts(v@),
            out@.len() == n,
            ranks@.len() == n,
            forall|i: int| 0 <= i < n ==> #[trigger] ranks@[i] as int == rank(s, i),
            forall|i: int| 0 <= i < n ==> 0 <= #[trigger] rank(s, i) < n,
            forall|i: int| 0 <= i < k ==> #[trigger] out@[rank(s, i)]@ == s[i],
            forall|a: int, b: int|
                0 <= a < n && 0 <= b < n && a != b ==> #[trigger] rank(s, a) != #[trigger] rank(s, b),
        decreases n - k,
    {
        let p = ranks[k];
        let ghost before = out@;
        out.set(p, v[k].clone());
        proof {
            assert forall|i: int| 0 <= i < k + 1 implies #[trigger] out@[rank(s, i)]@ == s[i] by {
                if i < k {
                    assert(rank(s, i) != rank(s, k as int));
                    assert(out@[rank(s, i)] == before[rank(s, i)]);
                }
            }
        }
        k = k + 1;
    }
    proof {
        lemma_rank_bijective(s);
        let t = sorted_texts(s);
        assert(texts(out@) =~= t) by {
            assert forall|p: int| 0 <= p < n implies #[trigger] texts(out@)[p] == t[p] by {
                assert(rank_taken(s, p));
                let a = choose|a: int| 0 <= a < n && rank(s, a) == p;
                assert(rank(s, a) == p);
                assert(out@[rank(s, a)]@ == s[a]);
                assert(t[rank(s, a)] == s[a]);
            }
        }
    }
    (out, ranks)
}

/// Where the line starting at `i` ends: the first newline at or after `i`, or the end of the text.
pub open spec fn newline_at_or_after(s: Seq<char>, i: int) -> int
    decreases s.len() - i,
{
    if i < 0 || i >= s.len() {
        s.len() as int
    } else if s[i] == '\n' {
        i
    } else {
        newline_at_or_after(s, i + 1)
    }
}

/// A line with the carriage return of a CRLF ending removed.
pub open spec fn strip_cr(line: Seq<char>) -> Seq<char> {
    if line.len() > 0 && line.last() == '\r' {
        line.drop_last()
    } else {
        line
    }
}

/// The lines of a text from position `i` on, as `str::lines` gives them: split at each newline,
/// a carriage return just before a newline dropped, the final line ending optional.
pub open spec fn lines_from(s: Seq<char>, i: int) -> Seq<Seq<char>>
    decreases s.len() - i,
{
    if i < 0 || i >= s.len() {
        Seq::empty()
    } else {
        let e = newline_at_or_after(s, i);
        proof {
            lemma_newline_bounds(s, i);
        }
        if e >= s.len() {
            seq![s.subrange(i, s.len() as int)]
        } else {
            seq![strip_cr(s.subrange(i, e))] + lines_from(s, e + 1)
        }
    }
}

/// The lines of a text.
pub open spec fn lines_of(s: Seq<char>) -> Seq<Seq<char>> {
    lines_from(s, 0)
}

pub proof fn lemma_newline_bounds(s: Seq<char>, i: int)
    requires
        0 <= i <= s.len(),
    ensures
        i <= newline_at_or_after(s, i) <= s.len(),
        newline_at_or_after(s, i) < s.len() ==> s[newline_at_or_after(s, i)] == '\n',
        forall|k: int| i <= k < newline_at_or_after(s, i) ==> s[k] != '\n',
    decreases s.len() - i,
{
    if i < s.len() && s[i] != '\n' {
        lemma_newline_bounds(s, i + 1);
    }
}

/// The characters of `s` from `start` to `end` as a string.
fn substring(s: &Vec<char>, start: usize, end: usize) -> (r: String)
    requires
        start <= end <= s@.len(),
    ensures
        r@ == s@.subrange(start as int, end as int),
{
    let mut v: Vec<char> = Vec::new();
    let mut i = start;
    while i < end
        invariant
            start <= i <= end <= s@.len(),
            v@ == s@.subrange(start as int, i as int),
        decreases end - i,
    {
        v.push(s[i]);
        proof {
            assert(s@.subrange(start as int, i + 1) =~= s@.subrange(start as int, i as int).push(
                s@[i as int],
            ));
        }
        i = i + 1;
    }
    string_from_chars(&v)
}

/// The lines of a text (see `lines_of`).
pub fn split_lines(text: &str) -> (lines: Vec<String>)
    ensures
        texts(lines@) == lines_of(text@),
{
    let s = chars_of(text);
    let mut lines: Vec<String> = Vec::new();
    let mut i: usize = 0;
    while i < s.len()
        invariant
            i <= s@.len(),
            s@ == text@,
            texts(lines@) + lines_from(s@, i as int) == lines_of(s@),
        decreases s@.len() - i,
    {
        let ghost here = lines_from(s@, i as int);
        let mut e = i;
        proof {
            lemma_newline_bounds(s@, i as int);
        }
        while e < s.len() && s[e] != '\n'
            invariant
                i <= e <= s@.len(),
                newline_at_or_after(s@, e as int) == newline_at_or_after(s@, i as int),
            decreases s@.len() - e,
        {
            e = e + 1;
        }
        let ghost before = texts(lines@);
        if e == s.len() {
            let line = substring(&s, i, e);
            lines.push(line);
            proof {
                assert(texts(lines@) =~= before.push(line@));
                assert(here =~= seq![line@]);
                assert(lines_from(s@, e as int) =~= Seq::<Seq<char>>::empty());
                assert(before + here =~= texts(lines@) + lines_from(s@, e as int));
            }
            i = e;
        } else {
            let end = if e > i && s[e - 1] == '\r' {
                e - 1
            } else {
                e
            };
            let line = substring(&s, i, end);
            lines.push(line);
            proof {
                assert(line@ == strip_cr(s@.subrange(i as int, e as int)));
                assert(texts(lines@) =~= before.push(line@));
                assert(before + here =~= texts(lines@) + lines_from(s@, e + 1));
            }
            i = e + 1;
        }
    }
    proof {
        assert(lines_from(s@, i as int) =~= Seq::<Seq<char>>::empty());
        assert(texts(lines@) + Seq::<Seq<char>>::empty() =~= texts(lines@));
    }
    lines
}

/// Whether `s` starts with `p`.
pub open spec fn starts_with(s: Seq<char>, p: Seq<char>) -> bool {
    p.len() <= s.len() && s.subrange(0, p.len() as int) == p
}

/// Whether `m` occurs in `s` at position `i`.
pub open spec fn occurs_at(s: Seq<char>, m: Seq<char>, i: int) -> bool {
    0 <= i && i + m.len() <= s.len() && s.subrange(i, i + m.len()) == m
}

/// Whether `m` occurs in `s`.
pub open spec fn contains_text(s: Seq<char>, m: Seq<char>) -> bool {
    exists|i: int| #[trigger] occurs_at(s, m, i)
}

/// Whether `m` occurs in `s` at position `i`.
fn occurs_at_exec(s: &Vec<char>, m: &Vec<char>, i: usize) -> (r: bool)
    ensures
        r == occurs_at(s@, m@, i as int),
{
    if i > s.len() || m.len() > s.len() - i {
        return false;
    }
    let mut k: usize = 0;
    while k < m.len()
        invariant
            k <= m@.len(),
            i + m@.len() <= s@.len(),
            s@.len() == s.len(),
            forall|t: int| 0 <= t < k ==> s@[i + t] == m@[t],
        decreases m@.len() - k,
    {
        if s[i + k] != m[k] {
            proof {
                assert(s@.subrange(i as int, i + m@.len())[k as int] != m@[k as int]);
            }
            return false;
        }
        k = k + 1;
    }
    proof {
        assert(s@.subrange(i as int, i + m@.len()) =~= m@);
    }
    true
}

/// The first position at or after `from` where `m` occurs in `s`, if any.
pub open spec fn find_from(s: Seq<char>, m: Seq<char>, from: int) -> Option<int>
    decreases s.len() + 1 - from,
{
    if from < 0 || from > s.len() {
        None
    } else if occurs_at(s, m, from) {
        Some(from)
    } else {
        find_from(s, m, from + 1)
    }
}

proof fn lemma_find_from(s: Seq<char>, m: Seq<char>, from: int)
    requires
        0 <= from,
    ensures
        find_from(s, m, from) matches Some(i) ==> from <= i && occurs_at(s, m, i) && forall|k: int|
            from <= k < i ==> !#[trigger] occurs_at(s, m, k),
        find_from(s, m, from) is None ==> forall|k: int| from <= k ==> !#[trigger] occurs_at(s, m, k),
    decreases s.len() + 1 - from,
{
    if from <= s.len() && !occurs_at(s, m, from) {
        lemma_find_from(s, m, from + 1);
    }
}

/// The first position at or after `from` where `m` occurs in `s` (see `find_from`).
fn find_exec(s: &Vec<char>, m: &Vec<char>, from: usize) -> (r: Option<usize>)
    ensures
        match r {
            Some(i) => find_from(s@, m@, from as int) == Some(i as int),
            None => find_from(s@, m@, from as int) is None,
        },
{
    if from > s.len() {
        return None;
    }
    let mut i = from;
    while i < s.len()
        invariant
            from <= i <= s@.len(),
            find_from(s@, m@, from as int) == find_from(s@, m@, i as int),
        decreases s@.len() - i,
    {
        if occurs_at_exec(s, m, i) {
            return Some(i);
        }
        i = i + 1;
    }
    if occurs_at_exec(s, m, i) {
        return Some(i);
    }
    proof {
        assert(find_from(s@, m@, i + 1) is None);
    }
    None
}

/// Whether `m` occurs in `s`.
fn contains_exec(s: &Vec<char>, m: &Vec<char>) -> (r: bool)
    ensures
        r == contains_text(s@, m@),
{
    proof {
        lemma_find_from(s@, m@, 0);
    }
    match find_exec(s, m, 0) {
        Some(i) => {
            proof {
                assert(occurs_at(s@, m@, i as int));
            }
            true
        },
        None => false,
    }
}

/// Whether `s` starts with `p`.
fn starts_with_exec(s: &Vec<char>, p: &Vec<char>) -> (r: bool)
    ensures
        r == starts_with(s@, p@),
{
    let r = occurs_at_exec(s, p, 0);
    proof {
        if r {
            assert(s@.subrange(0, p@.len() as int) == p@);
        }
    }
    r
}

/// The marker of the indirection table's declaration line.
pub open spec fn table_marker() -> Seq<char> {
    "_IndirectionTable[] = {"@
}

/// The marker of the permutation info's declaration line.
pub open spec fn info_marker() -> Seq<char> {
    "_PermutationInfo[] = {"@
}

/// The first line at or after `i` that contains `m`, or the number of lines.
pub open spec fn first_containing(lines: Seq<Seq<char>>, m: Seq<char>, i: int) -> int
    decreases lines.len() - i,
{
    if i < 0 || i >= lines.len() {
        lines.len() as int
    } else if contains_text(lines[i], m) {
        i
    } else {
        first_containing(lines, m, i + 1)
    }
}

/// The first line at or after `i` that starts with `};`, or the number of lines.
pub open spec fn first_closing(lines: Seq<Seq<char>>, i: int) -> int
    decreases lines.len() - i,
{
    if i < 0 || i >= lines.len() {
        lines.len() as int
    } else if starts_with(lines[i], "};"@) {
        i
    } else {
        first_closing(lines, i + 1)
    }
}

/// The body of the array whose declaration line contains `m`: the lines strictly between the
/// first such line and the first `};` line after it. The error names the marker: no declaration,
/// or no closing line.
pub open spec fn block_range_of(lines: Seq<Seq<char>>, m: Seq<char>) -> Result<(int, int), Seq<char>> {
    let d = first_containing(lines, m, 0);
    if d >= lines.len() {
        Err("missing a `"@ + m + "` declaration"@)
    } else {
        let c = first_closing(lines, d + 1);
        if c >= lines.len() {
            Err("unterminated `"@ + m + "` array"@)
        } else {
            Ok((d + 1, c))
        }
    }
}

pub(crate) proof fn lemma_first_containing(lines: Seq<Seq<char>>, m: Seq<char>, i: int)
    requires
        0 <= i <= lines.len(),
    ensures
        i <= first_containing(lines, m, i) <= lines.len(),
    decreases lines.len() - i,
{
    if i < lines.len() && !contains_text(lines[i], m) {
        lemma_first_containing(lines, m, i + 1);
    }
}

pub(crate) proof fn lemma_first_closing(lines: Seq<Seq<char>>, i: int)
    requires
        0 <= i <= lines.len(),
    ensures
        i <= first_closing(lines, i) <= lines.len(),
    decreases lines.len() - i,
{
    if i < lines.len() && !starts_with(lines[i], "};"@) {
        lemma_first_closing(lines, i + 1);
    }
}

/// Find the body of the array whose declaration line contains `marker` (see `block_range_of`).
pub fn block_range(lines: &Vec<String>, marker: &str) -> (r: Result<std::ops::Range<usize>, String>)
    ensures
        match r {
            Ok(range) => block_range_of(texts(lines@), marker@) == Ok::<(int, int), Seq<char>>(
                (range.start as int, range.end as int),
            ),
            Err(e) => block_range_of(texts(lines@), marker@) == Err::<(int, int), Seq<char>>(e@),
        },
{
    let ghost ls = texts(lines@);
    let m = chars_of(marker);
    let mut d: usize = 0;
    proof {
        lemma_first_containing(ls, marker@, 0);
    }
    while d < lines.len() && !contains_exec(&chars_of(lines[d].as_str()), &m)
        invariant
            d <= lines@.len(),
            ls == texts(lines@),
            m@ == marker@,
            first_containing(ls, marker@, d as int) == first_containing(ls, marker@, 0),
        decreases lines@.len() - d,
    {
        d = d + 1;
    }
    if d == lines.len() {
        let mut e = String::from_str("missing a `");
        e.append(marker);
        e.append("` declaration");
        return Err(e);
    }
    let start = d + 1;
    let close = chars_of("};");
    let mut c = start;
    proof {
        lemma_first_closing(ls, start as int);
    }
    while c < lines.len() && !starts_with_exec(&chars_of(lines[c].as_str()), &close)
        invariant
            start <= c <= lines@.len(),
            ls == texts(lines@),
            close@ == "};"@,
            first_closing(ls, c as int) == first_closing(ls, start as int),
        decreases lines@.len() - c,
    {
        c = c + 1;
    }
    if c == lines.len() {
        let mut e = String::from_str("unterminated `");
        e.append(marker);
        e.append("` array");
        return Err(e);
    }
    Ok(start..c)
}

/// How many lines at the start, from line `i` on, begin with `#include`.
pub open spec fn includes_from(lines: Seq<Seq<char>>, i: int) -> int
    decreases lines.len() - i,
{
    if i < 0 || i >= lines.len() || !starts_with(lines[i], "#include"@) {
        0
    } else {
        1 + includes_from(lines, i + 1)
    }
}

/// A text without leading whitespace.
pub open spec fn trim_start(s: Seq<char>) -> Seq<char>
    decreases s.len(),
{
    if s.len() > 0 && is_white_space(s[0]) {
        trim_start(s.drop_first())
    } else {
        s
    }
}

/// A text without trailing characters for which `strip` holds.
pub open spec fn trim_end_by(s: Seq<char>, strip: spec_fn(char) -> bool) -> Seq<char>
    decreases s.len(),
{
    if s.len() > 0 && strip(s.last()) {
        trim_end_by(s.drop_last(), strip)
    } else {
        s
    }
}

/// The number an indirection-table line holds: the line trimmed of whitespace, then of trailing
/// commas.
pub open spec fn entry_text(line: Seq<char>) -> Seq<char> {
    trim_end_by(
        trim_end_by(trim_start(line), |c: char| is_white_space(c)),
        |c: char| c == ',',
    )
}

/// The value of a decimal digit character.
pub open spec fn digit_value(c: char) -> int {
    (c as int) - 48
}

/// Whether a character is an ASCII decimal digit.
pub open spec fn is_digit(c: char) -> bool {
    48 <= (c as int) <= 57
}

/// The value of a string of decimal digits.
pub open spec fn decimal_value(d: Seq<char>) -> int
    decreases d.len(),
{
    if d.len() == 0 {
        0
    } else {
        decimal_value(d.drop_last()) * 10 + digit_value(d.last())
    }
}

/// The digits of an unsigned number: the text after an optional leading `+`.
pub open spec fn unsigned_digits(e: Seq<char>) -> Seq<char> {
    if e.len() > 0 && e[0] == '+' {
        e.drop_first()
    } else {
        e
    }
}

/// A `usize` read as `str::parse` reads it: an optional `+`, then one or more decimal digits whose
/// value fits; `None` otherwise.
pub open spec fn parse_usize(e: Seq<char>) -> Option<usize> {
    let d = unsigned_digits(e);
    if d.len() == 0 || !(forall|i: int| 0 <= i < d.len() ==> is_digit(#[trigger] d[i]))
        || decimal_value(d) > usize::MAX {
        None
    } else {
        Some(decimal_value(d) as usize)
    }
}

/// The decimal digits of a number, without leading zeros.
pub open spec fn decimal(n: nat) -> Seq<char>
    decreases n,
{
    if n < 10 {
        seq![(48 + n) as char]
    } else {
        decimal(n / 10).push((48 + n % 10) as char)
    }
}

/// Lines joined with newlines between them.
pub open spec fn join_lines(lines: Seq<Seq<char>>) -> Seq<char>
    decreases lines.len(),
{
    if lines.len() == 0 {
        Seq::empty()
    } else if lines.len() == 1 {
        lines[0]
    } else {
        join_lines(lines.drop_last()) + "\n"@ + lines.last()
    }
}

/// The text of a trimmed indirection-table line (see `entry_text`).
fn entry_of(line: &String) -> (e: Vec<char>)
    ensures
        e@ == entry_text(line@),
{
    let s = chars_of(line.as_str());
    let mut a: usize = 0;
    proof {
        assert(s@.skip(0) =~= s@);
    }
    while a < s.len() && char_is_whitespace(s[a])
        invariant
            a <= s@.len(),
            s@ == line@,
            trim_start(s@) == trim_start(s@.skip(a as int)),
        decreases s@.len() - a,
    {
        proof {
            assert(s@.skip(a as int).drop_first() =~= s@.skip(a + 1));
        }
        a = a + 1;
    }
    let ghost t = trim_start(s@);
    let mut b: usize = s.len();
    proof {
        assert(t == s@.subrange(a as int, b as int));
    }
    while b > a && char_is_whitespace(s[b - 1])
        invariant
            a <= b <= s@.len(),
            trim_end_by(t, |c: char| is_white_space(c)) == trim_end_by(
                s@.subrange(a as int, b as int),
                |c: char| is_white_space(c),
            ),
        decreases b - a,
    {
        proof {
            assert(s@.subrange(a as int, b as int).drop_last() =~= s@.subrange(a as int, b - 1));
        }
        b = b - 1;
    }
    let ghost u = trim_end_by(t, |c: char| is_white_space(c));
    proof {
        assert(u == s@.subrange(a as int, b as int));
    }
    while b > a && s[b - 1] == ','
        invariant
            a <= b <= s@.len(),
            trim_end_by(u, |c: char| c == ',') == trim_end_by(
                s@.subrange(a as int, b as int),
                |c: char| c == ',',
            ),
        decreases b - a,
    {
        proof {
            assert(s@.subrange(a as int, b as int).drop_last() =~= s@.subrange(a as int, b - 1));
        }
        b = b - 1;
    }
    let mut e: Vec<char> = Vec::new();
    let mut i = a;
    while i < b
        invariant
            a <= i <= b <= s@.len(),
            e@ == s@.subrange(a as int, i as int),
        decreases b - i,
    {
        e.push(s[i]);
        proof {
            assert(s@.subrange(a as int, i + 1) =~= s@.subrange(a as int, i as int).push(
                s@[i as int],
            ));
        }
        i = i + 1;
    }
    e
}

/// Read a `usize` the way `str::parse` does (see `parse_usize`).
pub fn parse_usize_exec(e: &Vec<char>) -> (r: Option<usize>)
    ensures
        r == parse_usize(e@),
{
    let start: usize = if e.len() > 0 && e[0] == '+' {
        1
    } else {
        0
    };
    let ghost d = unsigned_digits(e@);
    proof {
        assert(d =~= e@.skip(start as int));
    }
    if start == e.len() {
        return None;
    }
    let mut value: usize = 0;
    let mut i = start;
    while i < e.len()
        invariant
            start <= i <= e@.len(),
            d == e@.skip(start as int),
            d == unsigned_digits(e@),
            value as int == decimal_value(e@.subrange(start as int, i as int)),
            forall|k: int| start <= k < i ==> is_digit(#[trigger] e@[k]),
        decreases e@.len() - i,
    {
        let c = e[i];
        if !('0' <= c && c <= '9') {
            proof {
                assert(d[i - start] == c);
                assert(!is_digit(d[i - start]));
            }
            return None;
        }
        proof {
            assert(e@.subrange(start as int, i + 1).drop_last() =~= e@.subrange(start as int, i as int));
        }
        let digit = (c as u32 - 48) as usize;
        let next = match value.checked_mul(10) {
            Some(v) => v.checked_add(digit),
            None => None,
        };
        match next {
            Some(v) => {
                value = v;
            },
            None => {
                proof {
                    let full = e@.subrange(start as int, e@.len() as int);
                    assert(full =~= d);
                    let pre = e@.subrange(start as int, i + 1);
                    assert(decimal_value(pre) == value * 10 + digit);
                    if forall|k: int| 0 <= k < d.len() ==> is_digit(#[trigger] d[k]) {
                        assert(full.subrange(0, pre.len() as int) =~= pre);
                        lemma_decimal_grows(pre, full);
                    }
                }
                return None;
            },
        }
        i = i + 1;
    }
    proof {
        assert(e@.subrange(start as int, e@.len() as int) =~= d);
    }
    Some(value)
}

/// A string of digits is worth at least any of its prefixes.
proof fn lemma_decimal_grows(p: Seq<char>, s: Seq<char>)
    requires
        p.len() <= s.len(),
        p == s.subrange(0, p.len() as int),
        forall|i: int| 0 <= i < s.len() ==> is_digit(#[trigger] s[i]),
    ensures
        decimal_value(p) <= decimal_value(s),
    decreases s.len(),
{
    if p.len() < s.len() {
        assert(s.drop_last().subrange(0, p.len() as int) =~= p);
        lemma_decimal_grows(p, s.drop_last());
        lemma_decimal_nonneg(s.drop_last());
    } else {
        assert(p =~= s);
    }
}

proof fn lemma_decimal_nonneg(s: Seq<char>)
    requires
        forall|i: int| 0 <= i < s.len() ==> is_digit(#[trigger] s[i]),
    ensures
        decimal_value(s) >= 0,
    decreases s.len(),
{
    if s.len() > 0 {
        lemma_decimal_nonneg(s.drop_last());
    }
}

/// The decimal digits of a number (see `decimal`).
pub fn decimal_string(n: usize) -> (s: String)
    ensures
        s@ == decimal(n as nat),
{
    let mut x = n;
    let mut digits: Vec<char> = Vec::new();
    loop
        invariant_except_break
            decimal(n as nat) == decimal(x as nat) + digits@,
        ensures
            decimal(n as nat) == digits@,
        decreases x,
    {
        let d = (x % 10) as u8;
        let c = (48u8 + d) as char;
        if x < 10 {
            proof {
                assert(decimal(x as nat) =~= seq![c]);
                assert(decimal(n as nat) =~= seq![c] + digits@);
            }
            digits.insert(0, c);
            proof {
                assert(digits@ =~= decimal(n as nat));
            }
            break;
        }
        proof {
            assert(decimal(x as nat) == decimal((x / 10) as nat).push(c));
            assert(decimal((x / 10) as nat).push(c) + digits@ =~= decimal((x / 10) as nat) + (seq![c]
                + digits@));
        }
        digits.insert(0, c);
        x = x / 10;
    }
    string_from_chars(&digits)
}

/// `m` with the lines from `start` on replaced by `block`.
pub open spec fn splice(m: Seq<Seq<char>>, start: int, block: Seq<Seq<char>>) -> Seq<Seq<char>> {
    m.subrange(0, start) + block + m.subrange(start + block.len(), m.len() as int)
}

/// An indirection-table line holding `v`.
pub open spec fn table_line(v: nat) -> Seq<char> {
    "    "@ + decimal(v) + ","@
}

/// The indirection-table lines rewritten through the stable sort of `info`: each entry `old` becomes
/// the rank of info entry `old`. The first entry that is not a number, or is past the end of
/// `info`, is reported instead.
pub open spec fn remap_table(table: Seq<Seq<char>>, info: Seq<Seq<char>>) -> Result<
    Seq<Seq<char>>,
    Seq<char>,
>
    decreases table.len(),
{
    if table.len() == 0 {
        Ok(Seq::empty())
    } else {
        let e = entry_text(table[0]);
        match parse_usize(e) {
            None => Err("non-numeric IndirectionTable entry `"@ + e + "`"@),
            Some(v) => {
                if v >= info.len() {
                    Err("IndirectionTable entry "@ + decimal(v as nat) + " is out of range"@)
                } else {
                    match remap_table(table.drop_first(), info) {
                        Err(x) => Err(x),
                        Ok(rest) => Ok(seq![table_line(rank(info, v as int) as nat)] + rest),
                    }
                }
            },
        }
    }
}

/// Whether a text ends with a newline.
pub open spec fn ends_with_newline(s: Seq<char>) -> bool {
    s.len() > 0 && s.last() == '\n'
}

/// The canonical form of a permutation index: the leading `#include` lines sorted; the
/// `PermutationInfo` lines sorted (stably); every `IndirectionTable` entry replaced by where the
/// info entry it named now stands (see `remap_table`); the lines joined again, with the text's final
/// newline kept. An error names a missing or unterminated array, or a bad table entry.
pub open spec fn canonical_index(text: Seq<char>) -> Result<Seq<char>, Seq<char>> {
    let l = lines_of(text);
    let k = includes_from(l, 0);
    let m = sorted_texts(l.take(k)) + l.skip(k);
    match block_range_of(m, table_marker()) {
        Err(e) => Err(e),
        Ok((ts, te)) => match block_range_of(m, info_marker()) {
            Err(e) => Err(e),
            Ok((is, ie)) => {
                let info = m.subrange(is, ie);
                let m2 = splice(m, is, sorted_texts(info));
                match remap_table(m2.subrange(ts, te), info) {
                    Err(e) => Err(e),
                    Ok(nt) => Ok(
                        join_lines(splice(m2, ts, nt)) + if ends_with_newline(text) {
                            "\n"@
                        } else {
                            Seq::<char>::empty()
                        },
                    ),
                }
            },
        },
    }
}

pub(crate) proof fn lemma_includes_bound(lines: Seq<Seq<char>>, i: int)
    requires
        0 <= i <= lines.len(),
    ensures
        0 <= includes_from(lines, i) <= lines.len() - i,
    decreases lines.len() - i,
{
    if i < lines.len() && starts_with(lines[i], "#include"@) {
        lemma_includes_bound(lines, i + 1);
    }
}

/// Clones of `v[a..b]`.
fn clone_range(v: &Vec<String>, a: usize, b: usize) -> (r: Vec<String>)
    requires
        a <= b <= v@.len(),
    ensures
        texts(r@) == texts(v@).subrange(a as int, b as int),
{
    let mut r: Vec<String> = Vec::new();
    let mut i = a;
    while i < b
        invariant
            a <= i <= b <= v@.len(),
            texts(r@) == texts(v@).subrange(a as int, i as int),
        decreases b - i,
    {
        let ghost before = texts(r@);
        r.push(v[i].clone());
        proof {
            assert(texts(r@) =~= before.push(v@[i as int]@));
            assert(texts(v@).subrange(a as int, i + 1) =~= texts(v@).subrange(a as int, i as int).push(
                v@[i as int]@,
            ));
        }
        i = i + 1;
    }
    r
}

/// Lines joined with newlines (see `join_lines`).
fn join_exec(lines: &Vec<String>) -> (s: String)
    ensures
        s@ == join_lines(texts(lines@)),
{
    let mut out = String::new();
    let mut i: usize = 0;
    while i < lines.len()
        invariant
            i <= lines@.len(),
            out@ == join_lines(texts(lines@).take(i as int)),
        decreases lines@.len() - i,
    {
        let ghost before = out@;
        if i > 0 {
            out.append("\n");
        }
        out.append(lines[i].as_str());
        proof {
            let t = texts(lines@);
            assert(t.take(i + 1).drop_last() =~= t.take(i as int));
            if i == 0 {
                assert(out@ =~= t.take(1)[0]);
            } else {
                assert(out@ =~= join_lines(t.take(i as int)) + "\n"@ + t.take(i + 1).last());
            }
        }
        i = i + 1;
    }
    proof {
        assert(texts(lines@).take(lines@.len() as int) =~= texts(lines@));
    }
    out
}

/// The lines with their leading `#include` run sorted.
fn sort_includes(lines: &Vec<String>) -> (m: Vec<String>)
    ensures
        texts(m@) == sorted_texts(texts(lines@).take(includes_from(texts(lines@), 0))) + texts(
            lines@,
        ).skip(includes_from(texts(lines@), 0)),
{
    let ghost l = texts(lines@);
    let inc = chars_of("#include");
    let mut k: usize = 0;
    proof {
        lemma_includes_bound(l, 0);
    }
    while k < lines.len() && starts_with_exec(&chars_of(lines[k].as_str()), &inc)
        invariant
            k <= lines@.len(),
            l == texts(lines@),
            inc@ == "#include"@,
            includes_from(l, 0) == k + includes_from(l, k as int),
        decreases lines@.len() - k,
    {
        k = k + 1;
    }
    proof {
        assert(includes_from(l, k as int) == 0);
    }
    let prefix = clone_range(lines, 0, k);
    let (sorted_prefix, _ranks) = sort_by_rank(&prefix);
    let mut rest = clone_range(lines, k, lines.len());
    let mut m = sorted_prefix;
    let ghost sp = texts(m@);
    let ghost rs = texts(rest@);
    m.append(&mut rest);
    proof {
        assert(texts(m@) =~= sp + rs);
        assert(l.take(k as int) =~= l.subrange(0, k as int));
        assert(l.skip(k as int) =~= l.subrange(k as int, l.len() as int));
    }
    m
}

/// Sort the lines `start..end` of `m` stably, returning each original line's rank.
fn sort_block(m: &mut Vec<String>, start: usize, end: usize) -> (ranks: Vec<usize>)
    requires
        start <= end <= old(m)@.len(),
    ensures
        texts(final(m)@) == splice(
            texts(old(m)@),
            start as int,
            sorted_texts(texts(old(m)@).subrange(start as int, end as int)),
        ),
        ranks@.len() == end - start,
        forall|i: int|
            0 <= i < end - start ==> #[trigger] ranks@[i] as int == rank(
                texts(old(m)@).subrange(start as int, end as int),
                i,
            ),
{
    let ghost mm = texts(m@);
    let block = clone_range(m, start, end);
    let ghost il = texts(block@);
    let (sorted, ranks) = sort_by_rank(&block);
    proof {
        lemma_sorted_texts(il);
    }
    let n = end - start;
    let mut p: usize = 0;
    while p < n
        invariant
            p <= n == end - start == sorted@.len() == il.len(),
            end <= m@.len(),
            m@.len() == mm.len(),
            texts(sorted@) == sorted_texts(il),
            forall|t: int| 0 <= t < m@.len() ==> #[trigger] texts(m@)[t] == if start <= t < start
                + p {
                sorted_texts(il)[t - start]
            } else {
                mm[t]
            },
        decreases n - p,
    {
        let ghost before = texts(m@);
        m.set(start + p, sorted[p].clone());
        proof {
            assert(texts(sorted@)[p as int] == sorted@[p as int]@);
            assert forall|t: int| 0 <= t < m@.len() implies #[trigger] texts(m@)[t] == if start <= t
                < start + p + 1 {
                sorted_texts(il)[t - start]
            } else {
                mm[t]
            } by {
                if t != start + p {
                    assert(texts(m@)[t] == before[t]);
                }
            }
        }
        p = p + 1;
    }
    proof {
        assert(texts(m@) =~= splice(mm, start as int, sorted_texts(il)));
    }
    ranks
}

/// Rewrite the indirection-table lines `start..end` of `m` through `ranks`, the ranks of the info
/// lines `info` (see `remap_table`).
fn remap_table_lines(
    m: &mut Vec<String>,
    start: usize,
    end: usize,
    ranks: &Vec<usize>,
    Ghost(info): Ghost<Seq<Seq<char>>>,
) -> (r: Result<(), String>)
    requires
        start <= end <= old(m)@.len(),
        ranks@.len() == info.len(),
        forall|i: int| 0 <= i < info.len() ==> #[trigger] ranks@[i] as int == rank(info, i),
    ensures
        match r {
            Ok(()) => remap_table(texts(old(m)@).subrange(start as int, end as int), info) == Ok::<
                Seq<Seq<char>>,
                Seq<char>,
            >(texts(final(m)@).subrange(start as int, end as int)) && texts(final(m)@) == splice(
                texts(old(m)@),
                start as int,
                texts(final(m)@).subrange(start as int, end as int),
            ),
            Err(e) => remap_table(texts(old(m)@).subrange(start as int, end as int), info) == Err::<
                Seq<Seq<char>>,
                Seq<char>,
            >(e@),
        },
{
    let ghost m2 = texts(m@);
    let ghost tl = m2.subrange(start as int, end as int);
    let n = ranks.len();
    proof {
        assert(tl.skip(0) =~= tl);
        match remap_table(tl, info) {
            Ok(rest) => {
                assert(texts(m@).subrange(start as int, start as int) + rest =~= rest);
            },
            Err(_) => {},
        }
    }
    let mut t = start;
    while t < end
        invariant
            start <= t <= end <= m@.len(),
            m@.len() == m2.len(),
            tl == m2.subrange(start as int, end as int),
            m2 == texts(old(m)@),
            n == ranks@.len() == info.len(),
            forall|i: int| 0 <= i < info.len() ==> #[trigger] ranks@[i] as int == rank(info, i),
            forall|i: int| 0 <= i < m@.len() && !(start <= i < t) ==> #[trigger] texts(m@)[i]
                == m2[i],
            remap_table(tl, info) == match remap_table(tl.skip(t - start), info) {
                Err(x) => Err(x),
                Ok(rest) => Ok(texts(m@).subrange(start as int, t as int) + rest),
            },
        decreases end - t,
    {
        let ghost here = tl.skip(t - start);
        proof {
            assert(here[0] == m2[t as int]);
            assert(here.drop_first() =~= tl.skip(t + 1 - start));
            assert(m@[t as int]@ == texts(m@)[t as int]);
            assert(texts(m@)[t as int] == m2[t as int]);
            assert(here.len() > 0);
        }
        let e = entry_of(&m[t]);
        let v = match parse_usize_exec(&e) {
            Some(v) => v,
            None => {
                let mut msg = String::from_str("non-numeric IndirectionTable entry `");
                msg.append(string_from_chars(&e).as_str());
                msg.append("`");
                return Err(msg);
            },
        };
        if v >= n {
            let mut msg = String::from_str("IndirectionTable entry ");
            msg.append(decimal_string(v).as_str());
            msg.append(" is out of range");
            return Err(msg);
        }
        let mut line = String::from_str("    ");
        line.append(decimal_string(ranks[v]).as_str());
        line.append(",");
        let ghost before = texts(m@);
        m.set(t, line);
        proof {
            assert(line@ == table_line(rank(info, v as int) as nat));
            assert forall|i: int| 0 <= i < m@.len() && !(start <= i < t + 1) implies #[trigger] texts(
                m@,
            )[i] == m2[i] by {
                assert(texts(m@)[i] == before[i]);
            }
            match remap_table(tl.skip(t + 1 - start), info) {
                Err(_) => {},
                Ok(rest) => {
                    assert(texts(m@).subrange(start as int, t + 1) =~= before.subrange(
                        start as int,
                        t as int,
                    ).push(line@));
                    assert(before.subrange(start as int, t as int) + (seq![line@] + rest)
                        =~= texts(m@).subrange(start as int, t + 1) + rest);
                },
            }
        }
        t = t + 1;
    }
    proof {
        assert(tl.skip(t - start) =~= Seq::<Seq<char>>::empty());
        let nt = texts(m@).subrange(start as int, end as int);
        assert(nt + Seq::<Seq<char>>::empty() =~= nt);
        assert(texts(m@) =~= splice(m2, start as int, nt));
    }
    Ok(())
}

/// Rewrite one permutation index into its canonical form (see `canonical_index`).
pub fn canonicalize_index(text: &str) -> (r: Result<String, String>)
    ensures
        match r {
            Ok(s) => canonical_index(text@) == Ok::<Seq<char>, Seq<char>>(s@),
            Err(e) => canonical_index(text@) == Err::<Seq<char>, Seq<char>>(e@),
        },
{
    let lines = split_lines(text);
    let mut m = sort_includes(&lines);
    let ghost mm = texts(m@);
    let table = match block_range(&m, "_IndirectionTable[] = {") {
        Ok(r) => r,
        Err(e) => return Err(e),
    };
    let info = match block_range(&m, "_PermutationInfo[] = {") {
        Ok(r) => r,
        Err(e) => return Err(e),
    };
    proof {
        lemma_first_containing(mm, info_marker(), 0);
        lemma_first_closing(mm, info.start as int);
        lemma_first_containing(mm, table_marker(), 0);
        lemma_first_closing(mm, table.start as int);
    }
    let ghost il = mm.subrange(info.start as int, info.end as int);
    let ranks = sort_block(&mut m, info.start, info.end);
    let ghost m2 = texts(m@);
    match remap_table_lines(&mut m, table.start, table.end, &ranks, Ghost(il)) {
        Ok(()) => {},
        Err(e) => return Err(e),
    }
    let mut out = join_exec(&m);
    let tc = chars_of(text);
    if tc.len() > 0 && tc[tc.len() - 1] == '\n' {
        out.append("\n");
    } else {
        proof {
            assert(out@ + Seq::<char>::empty() =~= out@);
        }
    }
    Ok(out)
}

/// Canonicalizing keeps every permutation key on its blob: when the table remaps, entry `j` named
/// info line `v`, and afterwards it names the position of the sorted info block that holds that
/// same line.
pub proof fn law_remap_keeps_key_to_blob(
    table: Seq<Seq<char>>,
    info: Seq<Seq<char>>,
    nt: Seq<Seq<char>>,
    j: int,
)
    requires
        remap_table(table, info) == Ok::<Seq<Seq<char>>, Seq<char>>(nt),
        0 <= j < table.len(),
    ensures
        nt.len() == table.len(),
        parse_usize(entry_text(table[j])) matches Some(v) && v < info.len() && nt[j] == table_line(
            rank(info, v as int) as nat,
        ) && sorted_texts(info)[rank(info, v as int)] == info[v as int],
    decreases table.len(),
{
    lemma_sorted_texts(info);
    let rest = remap_table(table.drop_first(), info);
    let tail = match rest {
        Ok(x) => x,
        Err(_) => Seq::empty(),
    };
    lemma_remap_len(table.drop_first(), info);
    if j > 0 {
        law_remap_keeps_key_to_blob(table.drop_first(), info, tail, j - 1);
        assert(table.drop_first()[j - 1] == table[j]);
        assert(nt[j] == tail[j - 1]);
    }
}

/// The entries of `s` whose text sorts before `x`.
pub open spec fn entries_before(s: Seq<Seq<char>>, x: Seq<char>) -> Set<int> {
    Set::new(|i: int| 0 <= i < s.len() && text_lt(s[i], x))
}

/// Whether two lists hold the same texts, each text once, in whatever order.
pub open spec fn same_entries(s1: Seq<Seq<char>>, s2: Seq<Seq<char>>) -> bool {
    &&& s1.len() == s2.len()
    &&& s1.no_duplicates()
    &&& s2.no_duplicates()
    &&& forall|i: int| 0 <= i < s2.len() ==> s1.contains(#[trigger] s2[i])
    &&& forall|i: int| 0 <= i < s1.len() ==> s2.contains(#[trigger] s1[i])
}

/// Whether table line `l1` over `info1` and table line `l2` over `info2` are both entries in range
/// that name the same info text.
pub open spec fn names_same_entry(
    l1: Seq<char>,
    info1: Seq<Seq<char>>,
    l2: Seq<char>,
    info2: Seq<Seq<char>>,
) -> bool {
    match (parse_usize(entry_text(l1)), parse_usize(entry_text(l2))) {
        (Some(a), Some(b)) => a < info1.len() && b < info2.len() && info1[a as int] == info2[b as int],
        _ => false,
    }
}

/// The first `m` entries that go before entry `k`.
spec fn prec_set(s: Seq<Seq<char>>, k: int, m: int) -> Set<int> {
    Set::new(|i: int| 0 <= i < m && prec(s, i, k))
}

proof fn lemma_count_is_card(s: Seq<Seq<char>>, k: int, m: int)
    requires
        0 <= m <= s.len(),
        0 <= k < s.len(),
    ensures
        prec_set(s, k, m).finite(),
        count_prec(s, k, m) == prec_set(s, k, m).len(),
    decreases m,
{
    if m == 0 {
        assert(prec_set(s, k, 0) =~= Set::<int>::empty());
    } else {
        lemma_count_is_card(s, k, m - 1);
        let prev = prec_set(s, k, m - 1);
        if prec(s, m - 1, k) {
            assert(prec_set(s, k, m) =~= prev.insert(m - 1));
            assert(!prev.contains(m - 1));
        } else {
            assert(prec_set(s, k, m) =~= prev);
        }
    }
}

/// With no text twice, an entry's rank is the number of entries whose text sorts before it.
proof fn lemma_rank_counts_smaller(s: Seq<Seq<char>>, k: int)
    requires
        s.no_duplicates(),
        0 <= k < s.len(),
    ensures
        entries_before(s, s[k]).finite(),
        rank(s, k) == entries_before(s, s[k]).len(),
{
    let n = s.len() as int;
    lemma_count_is_card(s, k, n);
    lemma_text_lt_irreflexive(s[k]);
    assert forall|i: int| #[trigger] prec_set(s, k, n).contains(i) <==> entries_before(s, s[k]).contains(
        i,
    ) by {
        if 0 <= i < n && i != k {
            assert(s[i] != s[k]);
        }
    }
    assert(prec_set(s, k, n) =~= entries_before(s, s[k]));
}

/// Lists of the same texts have as many entries before any text.
proof fn lemma_before_same_size(s1: Seq<Seq<char>>, s2: Seq<Seq<char>>, x: Seq<char>)
    requires
        same_entries(s1, s2),
    ensures
        entries_before(s1, x).finite(),
        entries_before(s1, x).len() == entries_before(s2, x).len(),
{
    let n = s1.len() as int;
    let b1 = entries_before(s1, x);
    let b2 = entries_before(s2, x);
    lemma_int_range(0, n);
    assert(b1.subset_of(set_int_range(0, n)));
    assert(b2.subset_of(set_int_range(0, n)));
    lemma_len_subset(b1, set_int_range(0, n));
    lemma_len_subset(b2, set_int_range(0, n));
    let f = |i: int| choose|j: int| 0 <= j < n && s1[j] == s2[i];
    assert forall|i: int| 0 <= i < n implies 0 <= #[trigger] f(i) < n && s1[f(i)] == s2[i] by {
        assert(s1.contains(s2[i]));
    }
    assert(vstd::relations::injective_on(f, b2)) by {
        assert forall|a: int, b: int| b2.contains(a) && b2.contains(b) && #[trigger] f(a) == #[trigger] f(
            b,
        ) implies a == b by {
            assert(s1[f(a)] == s2[a]);
            assert(s1[f(b)] == s2[b]);
        }
    }
    assert forall|j: int| #[trigger] b2.map(f).contains(j) <==> b1.contains(j) by {
        if b2.map(f).contains(j) {
            let i = choose|i: int| b2.contains(i) && f(i) == j;
            assert(s1[f(i)] == s2[i]);
        }
        if b1.contains(j) {
            assert(s2.contains(s1[j]));
            let i = choose|i: int| 0 <= i < n && s2[i] == s1[j];
            assert(s1[f(i)] == s2[i]);
            assert(f(i) == j);
            assert(b2.contains(i));
        }
    }
    assert(b2.map(f) =~= b1);
    lemma_map_size(b2, b1, f);
}

/// Sorting does not depend on the order the entries came in: two lists of the same texts, each
/// text once, sort to the same list.
pub proof fn law_sorted_texts_ignore_order(s1: Seq<Seq<char>>, s2: Seq<Seq<char>>)
    requires
        same_entries(s1, s2),
    ensures
        sorted_texts(s1) == sorted_texts(s2),
{
    let n = s1.len() as int;
    lemma_sorted_texts(s1);
    lemma_sorted_texts(s2);
    lemma_rank_bijective(s2);
    assert forall|p: int| 0 <= p < n implies sorted_texts(s1)[p] == sorted_texts(s2)[p] by {
        assert(rank_taken(s2, p));
        let k2 = choose|k: int| 0 <= k < n && rank(s2, k) == p;
        assert(s1.contains(s2[k2]));
        let k1 = choose|j: int| 0 <= j < n && s1[j] == s2[k2];
        lemma_rank_counts_smaller(s1, k1);
        lemma_rank_counts_smaller(s2, k2);
        lemma_before_same_size(s1, s2, s2[k2]);
        assert(rank(s1, k1) == p);
    }
    assert(sorted_texts(s1) =~= sorted_texts(s2));
}

/// The remapped table does not depend on how the compiler numbered the blobs: two info blocks of
/// the same entries in any order, with tables that name the same entries key for key, remap to
/// the same table.
pub proof fn law_remap_ignores_numbering(
    table1: Seq<Seq<char>>,
    info1: Seq<Seq<char>>,
    table2: Seq<Seq<char>>,
    info2: Seq<Seq<char>>,
)
    requires
        same_entries(info1, info2),
        table1.len() == table2.len(),
        forall|j: int| 0 <= j < table1.len() ==> names_same_entry(#[trigger] table1[j], info1, table2[j], info2),
    ensures
        remap_table(table1, info1) == remap_table(table2, info2),
    decreases table1.len(),
{
    if table1.len() > 0 {
        let t1 = table1.drop_first();
        let t2 = table2.drop_first();
        assert forall|j: int| 0 <= j < t1.len() implies names_same_entry(#[trigger] t1[j], info1, t2[j], info2) by {
            assert(t1[j] == table1[j + 1]);
            assert(t2[j] == table2[j + 1]);
        }
        law_remap_ignores_numbering(t1, info1, t2, info2);
        assert(names_same_entry(table1[0], info1, table2[0], info2));
        let a = parse_usize(entry_text(table1[0])).unwrap();
        let b = parse_usize(entry_text(table2[0])).unwrap();
        lemma_rank_counts_smaller(info1, a as int);
        lemma_rank_counts_smaller(info2, b as int);
        lemma_before_same_size(info1, info2, info1[a as int]);
    }
}

pub(crate) proof fn lemma_remap_len(table: Seq<Seq<char>>, info: Seq<Seq<char>>)
    ensures
        remap_table(table, info) matches Ok(nt) ==> nt.len() == table.len(),
    decreases table.len(),
{
    if table.len() > 0 {
        lemma_remap_len(table.drop_first(), info);
    }
}

/// The first comma at or after `i`, or the end of the text.
pub open spec fn comma_at_or_after(s: Seq<char>, i: int) -> int
    decreases s.len() - i,
{
    if i < 0 || i >= s.len() {
        s.len() as int
    } else if s[i] == ',' {
        i
    } else {
        comma_at_or_after(s, i + 1)
    }
}

pub proof fn lemma_comma_bounds(s: Seq<char>, i: int)
    requires
        0 <= i <= s.len(),
    ensures
        i <= comma_at_or_after(s, i) <= s.len(),
        comma_at_or_after(s, i) < s.len() ==> s[comma_at_or_after(s, i)] == ',',
    decreases s.len() - i,
{
    if i < s.len() && s[i] != ',' {
        lemma_comma_bounds(s, i + 1);
    }
}

/// The comma-separated pieces of a text from position `i` on, as `str::split(',')` gives them (a
/// trailing comma leaves an empty last piece).
pub open spec fn comma_pieces(s: Seq<char>, i: int) -> Seq<Seq<char>>
    decreases s.len() - i,
{
    if i < 0 || i > s.len() {
        Seq::empty()
    } else {
        let e = comma_at_or_after(s, i);
        proof {
            lemma_comma_bounds(s, i);
        }
        if e >= s.len() {
            seq![s.subrange(i, s.len() as int)]
        } else {
            seq![s.subrange(i, e)] + comma_pieces(s, e + 1)
        }
    }
}

/// The value of a hexadecimal digit character, if it is one.
pub open spec fn hex_value(c: char) -> Option<int> {
    if '0' <= c && c <= '9' {
        Some((c as int) - 48)
    } else if 'a' <= c && c <= 'f' {
        Some((c as int) - 87)
    } else if 'A' <= c && c <= 'F' {
        Some((c as int) - 55)
    } else {
        None
    }
}

/// The value of a string of hexadecimal digits, if every character is one.
pub open spec fn hex_digits_value(d: Seq<char>) -> Option<int>
    decreases d.len(),
{
    if d.len() == 0 {
        Some(0)
    } else {
        match (hex_digits_value(d.drop_last()), hex_value(d.last())) {
            (Some(a), Some(b)) => Some(a * 16 + b),
            _ => None,
        }
    }
}

/// A byte read as `u8::from_str_radix(_, 16)` reads it: an optional `+`, then one or more
/// hexadecimal digits whose value fits in a byte.
pub open spec fn parse_hex_u8(h: Seq<char>) -> Option<u8> {
    let d = unsigned_digits(h);
    if d.len() == 0 {
        None
    } else {
        match hex_digits_value(d) {
            Some(v) => if v <= 255 {
                Some(v as u8)
            } else {
                None
            },
            None => None,
        }
    }
}

/// The byte a piece of the data array holds: the piece trimmed of whitespace, then `0x` and
/// hexadecimal digits; `None` for a piece that is not such a byte.
pub open spec fn hex_byte_of(piece: Seq<char>) -> Option<u8> {
    let t = trim_end_by(trim_start(piece), |c: char| is_white_space(c));
    if starts_with(t, "0x"@) {
        parse_hex_u8(t.skip(2))
    } else {
        None
    }
}

/// The bytes of the pieces that hold one, in order.
pub open spec fn hex_bytes(pieces: Seq<Seq<char>>) -> Seq<u8>
    decreases pieces.len(),
{
    if pieces.len() == 0 {
        Seq::empty()
    } else {
        match hex_byte_of(pieces.last()) {
            Some(b) => hex_bytes(pieces.drop_last()).push(b),
            None => hex_bytes(pieces.drop_last()),
        }
    }
}

/// The bytes of a DXBC blob header's data array: the `0x..` items between the `{` that follows
/// the first `_data[]` and the next `}`. Errors when there is no such array, when it is not closed,
/// and when the bytes do not start with the `DXBC` signature.
pub open spec fn lifted_dxbc(text: Seq<char>, name: Seq<char>) -> Result<Seq<u8>, Seq<char>> {
    match find_from(text, "_data[]"@, 0) {
        None => Err("could not find the data array in the blob header"@),
        Some(i) => match find_from(text, "{"@, i) {
            None => Err("could not find the data array in the blob header"@),
            Some(b) => match find_from(text, "}"@, b + 1) {
                None => Err("unterminated data array in the blob header"@),
                Some(e) => {
                    let bytes = hex_bytes(comma_pieces(text.subrange(b + 1, e), 0));
                    if bytes.len() < 4 || bytes.subrange(0, 4) != seq![0x44u8, 0x58u8, 0x42u8, 0x43u8] {
                        Err(name + ": lifted bytes are not a DXBC blob"@)
                    } else {
                        Ok(bytes)
                    }
                },
            },
        },
    }
}

/// Read a byte the way `u8::from_str_radix(_, 16)` does (see `parse_hex_u8`).
fn parse_hex_u8_exec(h: &Vec<char>, from: usize) -> (r: Option<u8>)
    requires
        from <= h@.len(),
    ensures
        r == parse_hex_u8(h@.skip(from as int)),
{
    let ghost hs = h@.skip(from as int);
    let start: usize = if from < h.len() && h[from] == '+' {
        from + 1
    } else {
        from
    };
    let ghost d = unsigned_digits(hs);
    proof {
        assert(d =~= h@.skip(start as int));
    }
    if start == h.len() {
        return None;
    }
    let mut value: u32 = 0;
    let mut i = start;
    while i < h.len()
        invariant
            start <= i <= h@.len(),
            start < h@.len(),
            d == h@.skip(start as int),
            d == unsigned_digits(hs),
            hs == h@.skip(from as int),
            hex_digits_value(h@.subrange(start as int, i as int)) == Some(value as int),
            value <= 255,
        decreases h@.len() - i,
    {
        let c = h[i];
        let dv: u32 = if '0' <= c && c <= '9' {
            c as u32 - 48
        } else if 'a' <= c && c <= 'f' {
            c as u32 - 87
        } else if 'A' <= c && c <= 'F' {
            c as u32 - 55
        } else {
            proof {
                assert(d.subrange(0, i + 1 - start) =~= h@.subrange(start as int, i + 1));
                assert(h@.subrange(start as int, i + 1).drop_last() =~= h@.subrange(start as int, i as int));
                lemma_hex_prefix_none(h@.subrange(start as int, i + 1), d);
            }
            return None;
        };
        proof {
            assert(h@.subrange(start as int, i + 1).drop_last() =~= h@.subrange(start as int, i as int));
        }
        value = value * 16 + dv;
        if value > 255 {
            proof {
                assert(d.subrange(0, i + 1 - start) =~= h@.subrange(start as int, i + 1));
                lemma_hex_grows(h@.subrange(start as int, i + 1), d);
            }
            return None;
        }
        i = i + 1;
    }
    proof {
        assert(h@.subrange(start as int, h@.len() as int) =~= d);
    }
    Some(value as u8)
}

/// A prefix with a non-digit spoils the whole.
proof fn lemma_hex_prefix_none(p: Seq<char>, s: Seq<char>)
    requires
        p.len() <= s.len(),
        hex_digits_value(p) is None,
        s.subrange(0, p.len() as int) == p,
    ensures
        hex_digits_value(s) is None,
    decreases s.len(),
{
    if p.len() < s.len() {
        assert(s.drop_last().subrange(0, p.len() as int) =~= p);
        lemma_hex_prefix_none(p, s.drop_last());
    } else {
        assert(p =~= s);
    }
}

/// A string of hex digits is worth at least any of its prefixes.
proof fn lemma_hex_grows(p: Seq<char>, s: Seq<char>)
    requires
        p.len() <= s.len(),
        s.subrange(0, p.len() as int) == p,
        hex_digits_value(p) is Some,
    ensures
        hex_digits_value(s) matches Some(v) ==> v >= hex_digits_value(p).unwrap(),
    decreases s.len(),
{
    if p.len() < s.len() {
        assert(s.drop_last().subrange(0, p.len() as int) =~= p);
        lemma_hex_grows(p, s.drop_last());
        lemma_hex_nonneg(s.drop_last());
    } else {
        assert(p =~= s);
    }
}

proof fn lemma_hex_nonneg(s: Seq<char>)
    ensures
        hex_digits_value(s) matches Some(v) ==> v >= 0,
    decreases s.len(),
{
    if s.len() > 0 {
        lemma_hex_nonneg(s.drop_last());
    }
}

/// The byte a piece of the data array holds (see `hex_byte_of`).
fn hex_byte_exec(piece: &Vec<char>) -> (r: Option<u8>)
    ensures
        r == hex_byte_of(piece@),
{
    let line = string_from_chars(piece);
    let mut t = chars_of(line.as_str());
    // Trim like `entry_of` does, but keep trailing commas: there are none in a comma-split piece.
    let mut a: usize = 0;
    proof {
        assert(t@.skip(0) =~= t@);
    }
    while a < t.len() && char_is_whitespace(t[a])
        invariant
            a <= t@.len(),
            t@ == piece@,
            trim_start(t@) == trim_start(t@.skip(a as int)),
        decreases t@.len() - a,
    {
        proof {
            assert(t@.skip(a as int).drop_first() =~= t@.skip(a + 1));
        }
        a = a + 1;
    }
    let mut b: usize = t.len();
    proof {
        assert(trim_start(t@) == t@.subrange(a as int, b as int));
    }
    while b > a && char_is_whitespace(t[b - 1])
        invariant
            a <= b <= t@.len(),
            t@ == piece@,
            trim_end_by(trim_start(t@), |c: char| is_white_space(c)) == trim_end_by(
                t@.subrange(a as int, b as int),
                |c: char| is_white_space(c),
            ),
        decreases b - a,
    {
        proof {
            assert(t@.subrange(a as int, b as int).drop_last() =~= t@.subrange(a as int, b - 1));
        }
        b = b - 1;
    }
    let ghost tt = t@.subrange(a as int, b as int);
    if b - a < 2 || t[a] != '0' || t[a + 1] != 'x' {
        proof {
            reveal_strlit("0x");
            if tt.len() >= 2 {
                assert(tt.subrange(0, 2)[0] == t@[a as int]);
                assert(tt.subrange(0, 2)[1] == t@[a + 1]);
            }
            assert(!starts_with(tt, "0x"@));
        }
        return None;
    }
    proof {
        reveal_strlit("0x");
        assert(tt.subrange(0, 2) =~= "0x"@);
    }
    let mut h: Vec<char> = Vec::new();
    let mut i = a + 2;
    while i < b
        invariant
            a + 2 <= i <= b <= t@.len(),
            h@ == t@.subrange(a + 2, i as int),
        decreases b - i,
    {
        h.push(t[i]);
        proof {
            assert(t@.subrange(a + 2, i + 1) =~= t@.subrange(a + 2, i as int).push(t@[i as int]));
        }
        i = i + 1;
    }
    proof {
        assert(h@.skip(0) =~= h@);
        assert(tt.skip(2) =~= h@);
    }
    t.clear();
    parse_hex_u8_exec(&h, 0)
}

/// The comma-separated pieces of `s` (see `comma_pieces`).
fn split_commas(s: &Vec<char>) -> (pieces: Vec<Vec<char>>)
    ensures
        pieces@.len() == comma_pieces(s@, 0).len(),
        forall|i: int| 0 <= i < pieces@.len() ==> #[trigger] pieces@[i]@ == comma_pieces(s@, 0)[i],
{
    let mut pieces: Vec<Vec<char>> = Vec::new();
    let mut cur: Vec<char> = Vec::new();
    let mut i: usize = 0;
    let mut start: usize = 0;
    let ghost whole = comma_pieces(s@, 0);
    loop
        invariant_except_break
            start <= i <= s@.len(),
            cur@ == s@.subrange(start as int, i as int),
            forall|k: int| start <= k < i ==> s@[k] != ',',
            comma_at_or_after(s@, start as int) == comma_at_or_after(s@, i as int),
            whole.len() == pieces@.len() + comma_pieces(s@, start as int).len(),
            forall|k: int| 0 <= k < pieces@.len() ==> #[trigger] pieces@[k]@ == whole[k],
            forall|k: int|
                0 <= k < comma_pieces(s@, start as int).len() ==> #[trigger] comma_pieces(
                    s@,
                    start as int,
                )[k] == whole[pieces@.len() + k],
        ensures
            pieces@.len() == whole.len(),
            forall|k: int| 0 <= k < pieces@.len() ==> #[trigger] pieces@[k]@ == whole[k],
        decreases s@.len() - i,
    {
        proof {
            lemma_comma_bounds(s@, start as int);
        }
        if i == s.len() {
            proof {
                assert(comma_pieces(s@, start as int) =~= seq![s@.subrange(start as int, i as int)]);
                assert(comma_pieces(s@, start as int)[0] == whole[pieces@.len() as int]);
            }
            let ghost old_len = pieces@.len();
            pieces.push(cur);
            proof {
                assert(pieces@[old_len as int]@ == whole[old_len as int]);
                assert forall|k: int| 0 <= k < pieces@.len() implies #[trigger] pieces@[k]@ == whole[k] by {
                    if k < old_len {
                    }
                }
            }
            break;
        }
        if s[i] == ',' {
            proof {
                assert(comma_at_or_after(s@, i as int) == i);
                assert(comma_pieces(s@, start as int) =~= seq![s@.subrange(start as int, i as int)]
                    + comma_pieces(s@, i + 1));
                lemma_comma_bounds(s@, i + 1);
            }
            let ghost old_len = pieces@.len();
            let ghost old_start = start as int;
            proof {
                assert(comma_pieces(s@, old_start)[0] == whole[old_len as int]);
                assert(cur@ == comma_pieces(s@, old_start)[0]);
            }
            let done = cur;
            pieces.push(done);
            cur = Vec::new();
            i = i + 1;
            start = i;
            proof {
                assert(pieces@[old_len as int]@ == whole[old_len as int]);
                assert forall|k: int| 0 <= k < pieces@.len() implies #[trigger] pieces@[k]@ == whole[k] by {
                    if k < old_len {
                    }
                }
                assert forall|k: int| 0 <= k < comma_pieces(s@, start as int).len() implies #[trigger] comma_pieces(
                    s@,
                    start as int,
                )[k] == whole[pieces@.len() + k] by {
                    assert(comma_pieces(s@, old_start)[k + 1] == comma_pieces(s@, start as int)[k]);
                }
                assert(cur@ =~= s@.subrange(start as int, i as int));
            }
        } else {
            cur.push(s[i]);
            proof {
                assert(s@.subrange(start as int, i + 1) =~= s@.subrange(start as int, i as int).push(
                    s@[i as int],
                ));
            }
            i = i + 1;
        }
    }
    pieces
}

/// Recover the raw DXBC bytes from a compiler blob header's text (see `lifted_dxbc`); `name`
/// labels the error when the bytes are not a DXBC blob.
pub fn lift_dxbc_text(text: &str, name: &str) -> (r: Result<Vec<u8>, String>)
    ensures
        match r {
            Ok(v) => lifted_dxbc(text@, name@) == Ok::<Seq<u8>, Seq<char>>(v@),
            Err(e) => lifted_dxbc(text@, name@) == Err::<Seq<u8>, Seq<char>>(e@),
        },
{
    let t = chars_of(text);
    let i = match find_exec(&t, &chars_of("_data[]"), 0) {
        Some(i) => i,
        None => return Err(String::from_str("could not find the data array in the blob header")),
    };
    proof {
        lemma_find_from(t@, "_data[]"@, 0);
    }
    let b = match find_exec(&t, &chars_of("{"), i) {
        Some(b) => b,
        None => return Err(String::from_str("could not find the data array in the blob header")),
    };
    proof {
        lemma_find_from(t@, "{"@, i as int);
        reveal_strlit("{");
        assert(occurs_at(t@, "{"@, b as int));
        assert(b + 1 <= t@.len());
        assert(t@.len() == t.len());
    }
    let e = match find_exec(&t, &chars_of("}"), b + 1) {
        Some(e) => e,
        None => return Err(String::from_str("unterminated data array in the blob header")),
    };
    proof {
        lemma_find_from(t@, "}"@, b + 1);
        reveal_strlit("}");
    }
    let mut inner: Vec<char> = Vec::new();
    let mut k = b + 1;
    while k < e
        invariant
            b + 1 <= k <= e <= t@.len(),
            inner@ == t@.subrange(b + 1, k as int),
        decreases e - k,
    {
        inner.push(t[k]);
        proof {
            assert(t@.subrange(b + 1, k + 1) =~= t@.subrange(b + 1, k as int).push(t@[k as int]));
        }
        k = k + 1;
    }
    let pieces = split_commas(&inner);
    let ghost ps = comma_pieces(inner@, 0);
    let mut bytes: Vec<u8> = Vec::new();
    let mut p: usize = 0;
    while p < pieces.len()
        invariant
            p <= pieces@.len() == ps.len(),
            forall|q: int| 0 <= q < pieces@.len() ==> #[trigger] pieces@[q]@ == ps[q],
            bytes@ == hex_bytes(ps.take(p as int)),
        decreases pieces@.len() - p,
    {
        proof {
            assert(ps.take(p + 1).drop_last() =~= ps.take(p as int));
            assert(ps.take(p + 1).last() == pieces@[p as int]@);
        }
        match hex_byte_exec(&pieces[p]) {
            Some(x) => {
                bytes.push(x);
            },
            None => {},
        }
        p = p + 1;
    }
    proof {
        assert(ps.take(ps.len() as int) =~= ps);
    }
    if bytes.len() < 4 || bytes[0] != 0x44 || bytes[1] != 0x58 || bytes[2] != 0x42 || bytes[3]
        != 0x43 {
        proof {
            if bytes@.len() >= 4 {
                assert(bytes@.subrange(0, 4)[0] == bytes@[0]);
                assert(bytes@.subrange(0, 4)[1] == bytes@[1]);
                assert(bytes@.subrange(0, 4)[2] == bytes@[2]);
                assert(bytes@.subrange(0, 4)[3] == bytes@[3]);
            }
        }
        let mut msg = String::from_str(name);
        msg.append(": lifted bytes are not a DXBC blob");
        return Err(msg);
    }
    proof {
        assert(bytes@.subrange(0, 4) =~= seq![0x44u8, 0x58u8, 0x42u8, 0x43u8]);
    }
    Ok(bytes)
}

/// Whether a file the compiler emitted for `name` is the blob header (`<name>...h`), not the
/// permutation index (`<name>_permutations.h`).
pub open spec fn is_blob_header_name(file: Seq<char>, name: Seq<char>) -> bool {
    starts_with(file, name) && file.len() >= 2 && file.subrange(file.len() - 2, file.len() as int)
        == ".h"@ && file != name + "_permutations.h"@
}

/// Whether `file` is the blob header emitted for `name` (see `is_blob_header_name`).
pub fn is_blob_header(file: &str, name: &str) -> (r: bool)
    ensures
        r == is_blob_header_name(file@, name@),
{
    let f = chars_of(file);
    let n = chars_of(name);
    if !starts_with_exec(&f, &n) {
        return false;
    }
    let ext = chars_of(".h");
    proof {
        reveal_strlit(".h");
    }
    if f.len() < 2 || !occurs_at_exec(&f, &ext, f.len() - 2) {
        return false;
    }
    let mut perm = String::from_str(name);
    perm.append("_permutations.h");
    let pc = chars_of(perm.as_str());
    !same_text(&f, &pc)
}

/// The arguments every FSR2 pass is compiled with: the SDK base arguments, the DX11 backend
/// arguments and the permutation arguments.
pub open spec fn fixed_pass_args() -> Seq<Seq<char>> {
    seq![
        "-reflection"@,
        "-deps=gcc"@,
        "-DFFX_GPU=1"@,
        "-DFFX_FSR2_OPTION_UPSAMPLE_SAMPLERS_USE_DATA_HALF=0"@,
        "-DFFX_FSR2_OPTION_ACCUMULATE_SAMPLERS_USE_DATA_HALF=0"@,
        "-DFFX_FSR2_OPTION_REPROJECT_SAMPLERS_USE_DATA_HALF=1"@,
        "-DFFX_FSR2_OPTION_POSTPROCESSLOCKSTATUS_SAMPLERS_USE_DATA_HALF=0"@,
        "-DFFX_FSR2_OPTION_UPSAMPLE_USE_LANCZOS_TYPE=2"@,
        "-E"@,
        "CS"@,
        "-DFFX_HLSL=1"@,
        "-DFFX_HLSL_5_0=1"@,
        "-compiler=fxc"@,
        "-DSPD_NO_WAVE_OPERATIONS"@,
        "-DFFX_FSR2_OPTION_REPROJECT_USE_LANCZOS_TYPE={0,1}"@,
        "-DFFX_FSR2_OPTION_HDR_COLOR_INPUT={0,1}"@,
        "-DFFX_FSR2_OPTION_LOW_RESOLUTION_MOTION_VECTORS={0,1}"@,
        "-DFFX_FSR2_OPTION_JITTERED_MOTION_VECTORS={0,1}"@,
        "-DFFX_FSR2_OPTION_INVERTED_DEPTH={0,1}"@,
        "-DFFX_FSR2_OPTION_APPLY_SHARPENING={0,1}"@,
    ]
}

/// The compiler arguments for one FSR2 pass permutation, in order: the fixed arguments, the
/// permutation's name (`<pass>_16bit` for the 16-bit one), the `FFX_HALF` switch, the shader model,
/// `-Od` for the RCAS pass (which is built without optimization), the include directory, the output
/// directory and the source file.
pub open spec fn compile_pass_args_of(
    pass: Seq<char>,
    half: bool,
    shader_src: Seq<char>,
    out_dir: Seq<char>,
    source: Seq<char>,
) -> Seq<Seq<char>> {
    let name = if half {
        pass + "_16bit"@
    } else {
        pass
    };
    let half_def = if half {
        "-DFFX_HALF=1"@
    } else {
        "-DFFX_HALF=0"@
    };
    let opt = if pass == "ffx_fsr2_rcas_pass"@ {
        seq!["-Od"@]
    } else {
        Seq::empty()
    };
    fixed_pass_args() + seq!["-name="@ + name, half_def, "-T"@, "cs_5_0"@] + opt + seq![
        "-I"@,
        shader_src,
        "-output="@ + out_dir,
        source,
    ]
}

/// Push a string holding `s`.
fn push_str(v: &mut Vec<String>, s: &str)
    ensures
        texts(final(v)@) == texts(old(v)@).push(s@),
{
    let ghost before = texts(v@);
    v.push(String::from_str(s));
    proof {
        assert(texts(v@) =~= before.push(s@));
    }
}

/// Push a string.
fn push_string(v: &mut Vec<String>, s: String)
    ensures
        texts(final(v)@) == texts(old(v)@).push(s@),
{
    let ghost before = texts(v@);
    let ghost sv = s@;
    v.push(s);
    proof {
        assert(texts(v@) =~= before.push(sv));
    }
}

/// The fixed arguments (see `fixed_pass_args`).
fn fixed_args() -> (args: Vec<String>)
    ensures
        texts(args@) == fixed_pass_args(),
{
    let mut args: Vec<String> = Vec::new();
    push_str(&mut args, "-reflection");
    push_str(&mut args, "-deps=gcc");
    push_str(&mut args, "-DFFX_GPU=1");
    push_str(&mut args, "-DFFX_FSR2_OPTION_UPSAMPLE_SAMPLERS_USE_DATA_HALF=0");
    push_str(&mut args, "-DFFX_FSR2_OPTION_ACCUMULATE_SAMPLERS_USE_DATA_HALF=0");
    push_str(&mut args, "-DFFX_FSR2_OPTION_REPROJECT_SAMPLERS_USE_DATA_HALF=1");
    push_str(&mut args, "-DFFX_FSR2_OPTION_POSTPROCESSLOCKSTATUS_SAMPLERS_USE_DATA_HALF=0");
    push_str(&mut args, "-DFFX_FSR2_OPTION_UPSAMPLE_USE_LANCZOS_TYPE=2");
    push_str(&mut args, "-E");
    push_str(&mut args, "CS");
    push_str(&mut args, "-DFFX_HLSL=1");
    push_str(&mut args, "-DFFX_HLSL_5_0=1");
    push_str(&mut args, "-compiler=fxc");
    push_str(&mut args, "-DSPD_NO_WAVE_OPERATIONS");
    push_str(&mut args, "-DFFX_FSR2_OPTION_REPROJECT_USE_LANCZOS_TYPE={0,1}");
    push_str(&mut args, "-DFFX_FSR2_OPTION_HDR_COLOR_INPUT={0,1}");
    push_str(&mut args, "-DFFX_FSR2_OPTION_LOW_RESOLUTION_MOTION_VECTORS={0,1}");
    push_str(&mut args, "-DFFX_FSR2_OPTION_JITTERED_MOTION_VECTORS={0,1}");
    push_str(&mut args, "-DFFX_FSR2_OPTION_INVERTED_DEPTH={0,1}");
    push_str(&mut args, "-DFFX_FSR2_OPTION_APPLY_SHARPENING={0,1}");
    proof {
        assert(texts(args@) =~= fixed_pass_args());
    }
    args
}

/// The compiler arguments for one pass permutation (see `compile_pass_args_of`); the directories and
/// the source file's path come as text.
pub fn compile_pass_args(pass: &str, half: bool, shader_src: &str, out_dir: &str, source: &str) -> (args:
    Vec<String>)
    ensures
        texts(args@) == compile_pass_args_of(pass@, half, shader_src@, out_dir@, source@),
{
    let mut args = fixed_args();
    let ghost a0 = texts(args@);
    let mut name_arg = String::from_str("-name=");
    name_arg.append(pass);
    if half {
        name_arg.append("_16bit");
    }
    let ghost name_v = name_arg@;
    push_string(&mut args, name_arg);
    if half {
        push_str(&mut args, "-DFFX_HALF=1");
    } else {
        push_str(&mut args, "-DFFX_HALF=0");
    }
    push_str(&mut args, "-T");
    push_str(&mut args, "cs_5_0");
    let ghost a1 = texts(args@);
    let is_rcas = same_text(&chars_of(pass), &chars_of("ffx_fsr2_rcas_pass"));
    if is_rcas {
        push_str(&mut args, "-Od");
    }
    let ghost a2 = texts(args@);
    push_str(&mut args, "-I");
    push_str(&mut args, shader_src);
    let mut out_arg = String::from_str("-output=");
    out_arg.append(out_dir);
    push_string(&mut args, out_arg);
    push_str(&mut args, source);
    proof {
        let name = if half {
            pass@ + "_16bit"@
        } else {
            pass@
        };
        assert(name_v =~= "-name="@ + name);
        let half_def = if half {
            "-DFFX_HALF=1"@
        } else {
            "-DFFX_HALF=0"@
        };
        assert(a1 =~= fixed_pass_args() + seq!["-name="@ + name, half_def, "-T"@, "cs_5_0"@]);
        let opt = if pass@ == "ffx_fsr2_rcas_pass"@ {
            seq!["-Od"@]
        } else {
            Seq::<Seq<char>>::empty()
        };
        assert(a2 =~= a1 + opt);
        assert(texts(args@) =~= a2 + seq!["-I"@, shader_src@, "-output="@ + out_dir@, source@]);
    }
    args
}

/// The hexadecimal digit character for `d` (below 16): `0`-`9`, then `a`-`f`, or `A`-`F` when
/// `upper`.
pub open spec fn hex_digit_char(d: int, upper: bool) -> char {
    if d < 10 {
        ('0' as int + d) as char
    } else if upper {
        ('A' as int + (d - 10)) as char
    } else {
        ('a' as int + (d - 10)) as char
    }
}

/// A data-array item for byte `b`: `0x` and its two hexadecimal digits.
pub open spec fn hex_item(b: u8, upper: bool) -> Seq<char> {
    seq!['0', 'x', hex_digit_char(b as int / 16, upper), hex_digit_char(b as int % 16, upper)]
}

proof fn lemma_hex_digit_char(d: int, upper: bool)
    requires
        0 <= d < 16,
    ensures
        hex_value(hex_digit_char(d, upper)) == Some(d),
        !is_white_space(hex_digit_char(d, upper)),
        hex_digit_char(d, upper) != '+',
{
    let c = hex_digit_char(d, upper);
    if d < 10 {
        assert(c as int == 48 + d);
    } else if upper {
        assert(c as int == 55 + d);
    } else {
        assert(c as int == 87 + d);
    }
    assert((c as u32) as int == c as int);
}

/// Every byte's item lifts back to that byte, in either case of its digits.
pub proof fn law_hex_item_lifts_to_its_byte(b: u8, upper: bool)
    ensures
        hex_byte_of(hex_item(b, upper)) == Some(b),
{
    reveal_strlit("0x");
    let hi = hex_digit_char(b as int / 16, upper);
    let lo = hex_digit_char(b as int % 16, upper);
    lemma_hex_digit_char(b as int / 16, upper);
    lemma_hex_digit_char(b as int % 16, upper);
    let item = hex_item(b, upper);
    assert(('0' as u32) as int == 48);
    assert(!is_white_space('0'));
    assert(trim_start(item) == item);
    assert(item.last() == lo);
    assert(trim_end_by(item, |c: char| is_white_space(c)) == item);
    assert(item.subrange(0, 2) =~= "0x"@);
    let d = item.skip(2);
    assert(d =~= seq![hi, lo]);
    assert(unsigned_digits(d) == d);
    assert(d.drop_last() =~= seq![hi]);
    assert(seq![hi].drop_last() =~= Seq::<char>::empty());
    assert(hex_digits_value(Seq::<char>::empty()) == Some(0int));
    assert(hex_digits_value(seq![hi]) == Some(b as int / 16));
    assert(hex_digits_value(d) == Some((b as int / 16) * 16 + b as int % 16));
}

/// Lifting round-trips bytes: the items of any bytes, in either case, lift to exactly those bytes.
pub proof fn law_hex_items_lift_to_their_bytes(bytes: Seq<u8>, upper: bool)
    ensures
        hex_bytes(Seq::new(bytes.len(), |i: int| hex_item(bytes[i], upper))) == bytes,
    decreases bytes.len(),
{
    let items = Seq::new(bytes.len(), |i: int| hex_item(bytes[i], upper));
    if bytes.len() > 0 {
        let front = bytes.drop_last();
        law_hex_items_lift_to_their_bytes(front, upper);
        law_hex_item_lifts_to_its_byte(bytes.last(), upper);
        assert(items.drop_last() =~= Seq::new(front.len(), |i: int| hex_item(front[i], upper)));
        assert(items.last() == hex_item(bytes.last(), upper));
        assert(front.push(bytes.last()) =~= bytes);
    } else {
        assert(items =~= Seq::<Seq<char>>::empty());
        assert(bytes =~= Seq::<u8>::empty());
    }
}

} // verus!
