//! What canonicalizing a permutation index does to an index that is already canonical: nothing.
use crate::shadergen::{
    block_range_of, canonical_index, contains_text, count_prec, decimal, decimal_value, digit_value,
    ends_with_newline, entry_text, first_closing, first_containing, includes_from, info_marker,
    is_digit, join_lines, law_remap_keeps_key_to_blob,
    lemma_newline_bounds, lemma_rank_bijective, rank_taken, lemma_remap_len, lemma_sorted_texts, lines_from,
    lines_of, newline_at_or_after, occurs_at, parse_usize, prec, rank, remap_table, sorted_le,
    sorted_texts, splice, starts_with, strip_cr, table_line, table_marker, trim_end_by, trim_start,
    unsigned_digits,
};
use crate::text::{is_white_space, lemma_text_lt_irreflexive, lemma_text_lt_total, text_lt};
use vstd::prelude::*;

verus! {

proof fn lemma_first_containing_facts(lines: Seq<Seq<char>>, mk: Seq<char>, i: int)
    requires
        0 <= i <= lines.len(),
    ensures
        i <= first_containing(lines, mk, i) <= lines.len(),
        first_containing(lines, mk, i) < lines.len() ==> contains_text(
            lines[first_containing(lines, mk, i)],
            mk,
        ),
        forall|x: int| i <= x < first_containing(lines, mk, i) ==> !contains_text(#[trigger] lines[x], mk),
    decreases lines.len() - i,
{
    if i < lines.len() && !contains_text(lines[i], mk) {
        lemma_first_containing_facts(lines, mk, i + 1);
    }
}

proof fn lemma_first_containing_is(lines: Seq<Seq<char>>, mk: Seq<char>, i: int, p: int)
    requires
        0 <= i <= p < lines.len(),
        contains_text(lines[p], mk),
        forall|x: int| i <= x < p ==> !contains_text(#[trigger] lines[x], mk),
    ensures
        first_containing(lines, mk, i) == p,
    decreases p - i,
{
    if i < p {
        lemma_first_containing_is(lines, mk, i + 1, p);
    }
}

proof fn lemma_first_closing_facts(lines: Seq<Seq<char>>, i: int)
    requires
        0 <= i <= lines.len(),
    ensures
        i <= first_closing(lines, i) <= lines.len(),
        first_closing(lines, i) < lines.len() ==> starts_with(lines[first_closing(lines, i)], "};"@),
        forall|x: int| i <= x < first_closing(lines, i) ==> !starts_with(#[trigger] lines[x], "};"@),
    decreases lines.len() - i,
{
    if i < lines.len() && !starts_with(lines[i], "};"@) {
        lemma_first_closing_facts(lines, i + 1);
    }
}

proof fn lemma_first_closing_is(lines: Seq<Seq<char>>, i: int, p: int)
    requires
        0 <= i <= p < lines.len(),
        starts_with(lines[p], "};"@),
        forall|x: int| i <= x < p ==> !starts_with(#[trigger] lines[x], "};"@),
    ensures
        first_closing(lines, i) == p,
    decreases p - i,
{
    if i < p {
        lemma_first_closing_is(lines, i + 1, p);
    }
}

proof fn lemma_includes_facts(lines: Seq<Seq<char>>, i: int)
    requires
        0 <= i <= lines.len(),
    ensures
        0 <= includes_from(lines, i) <= lines.len() - i,
        forall|x: int| i <= x < i + includes_from(lines, i) ==> starts_with(#[trigger] lines[x], "#include"@),
        i + includes_from(lines, i) < lines.len() ==> !starts_with(
            lines[i + includes_from(lines, i)],
            "#include"@,
        ),
    decreases lines.len() - i,
{
    if i < lines.len() && starts_with(lines[i], "#include"@) {
        lemma_includes_facts(lines, i + 1);
    }
}

proof fn lemma_includes_is(lines: Seq<Seq<char>>, i: int, k: int)
    requires
        0 <= i <= k <= lines.len(),
        forall|x: int| i <= x < k ==> starts_with(#[trigger] lines[x], "#include"@),
        k == lines.len() || !starts_with(lines[k], "#include"@),
    ensures
        includes_from(lines, i) == k - i,
    decreases k - i,
{
    if i < k {
        lemma_includes_is(lines, i + 1, k);
    }
}

proof fn lemma_count_prec_sorted(s: Seq<Seq<char>>, k: int, m: int)
    requires
        sorted_le(s),
        0 <= k < s.len(),
        0 <= m <= s.len(),
    ensures
        count_prec(s, k, m) == (if m <= k {
            m
        } else {
            k
        }),
    decreases m,
{
    if m > 0 {
        lemma_count_prec_sorted(s, k, m - 1);
        let i = m - 1;
        lemma_text_lt_total(s[i], s[k]);
        lemma_text_lt_irreflexive(s[k]);
        if i < k {
            assert(!text_lt(s[k], s[i]));
            assert(prec(s, i, k));
        } else if i > k {
            assert(!text_lt(s[i], s[k]));
            assert(!prec(s, i, k));
        } else {
            assert(!prec(s, i, k));
        }
    }
}

/// Sorting texts that are already in order leaves them where they are.
proof fn lemma_sorted_identity(s: Seq<Seq<char>>)
    requires
        sorted_le(s),
    ensures
        sorted_texts(s) == s,
        forall|k: int| 0 <= k < s.len() ==> #[trigger] rank(s, k) == k,
{
    assert forall|k: int| 0 <= k < s.len() implies #[trigger] rank(s, k) == k by {
        lemma_count_prec_sorted(s, k, s.len() as int);
    }
    assert forall|p: int| 0 <= p < s.len() implies sorted_texts(s)[p] == s[p] by {
        assert(rank(s, p) == p);
        let k = choose|k: int| 0 <= k < s.len() && rank(s, k) == p;
        assert(rank(s, k) == k);
    }
    assert(sorted_texts(s) =~= s);
}

/// Whether a line holds no newline.
pub open spec fn no_newline(line: Seq<char>) -> bool {
    forall|c: int| 0 <= c < line.len() ==> line[c] != '\n'
}

/// Whether a line ends with a carriage return.
pub open spec fn ends_with_cr(line: Seq<char>) -> bool {
    line.len() > 0 && line.last() == '\r'
}

proof fn lemma_newline_is(s: Seq<char>, i: int, p: int)
    requires
        0 <= i <= p <= s.len(),
        p == s.len() || s[p] == '\n',
        forall|x: int| i <= x < p ==> s[x] != '\n',
    ensures
        newline_at_or_after(s, i) == p,
    decreases p - i,
{
    if i < p {
        lemma_newline_is(s, i + 1, p);
    }
}

/// The lines of a text hold no newline, there are no more of them than characters, and when the
/// text does not end with a newline its last line is not empty.
proof fn lemma_lines_shape(s: Seq<char>, i: int)
    requires
        0 <= i <= s.len(),
    ensures
        lines_from(s, i).len() <= s.len() - i,
        forall|j: int| 0 <= j < lines_from(s, i).len() ==> no_newline(#[trigger] lines_from(s, i)[j]),
        i < s.len() && s.last() != '\n' ==> lines_from(s, i).len() > 0 && lines_from(
            s,
            i,
        ).last().len() > 0,
    decreases s.len() - i,
{
    if i < s.len() {
        lemma_newline_bounds(s, i);
        let e = newline_at_or_after(s, i);
        let r = lines_from(s, i);
        if e >= s.len() {
            let line = s.subrange(i, s.len() as int);
            assert(r == seq![line]);
            assert(no_newline(line));
        } else {
            lemma_lines_shape(s, e + 1);
            let first = strip_cr(s.subrange(i, e));
            let rest = lines_from(s, e + 1);
            assert(r == seq![first] + rest);
            assert(no_newline(first));
            assert forall|j: int| 0 <= j < r.len() implies no_newline(#[trigger] r[j]) by {
                if j > 0 {
                    assert(r[j] == rest[j - 1]);
                }
            }
            if s.last() != '\n' {
                assert(e != s.len() - 1);
                assert(r.last() == rest.last());
            }
        }
    }
}

/// The lines of a text after a prefix are the lines of the rest.
proof fn lemma_lines_shift(p: Seq<char>, s: Seq<char>, j: int)
    requires
        0 <= j <= s.len(),
    ensures
        lines_from(p + s, p.len() + j) == lines_from(s, j),
    decreases s.len() - j,
{
    let t = p + s;
    if j < s.len() {
        lemma_newline_bounds(s, j);
        let e = newline_at_or_after(s, j);
        assert forall|x: int| p.len() + j <= x < p.len() + e implies t[x] != '\n' by {
            assert(t[x] == s[x - p.len()]);
        }
        if e < s.len() {
            assert(t[p.len() + e] == s[e]);
        }
        lemma_newline_is(t, p.len() + j, p.len() + e);
        if e >= s.len() {
            assert(t.subrange(p.len() + j, t.len() as int) =~= s.subrange(j, s.len() as int));
        } else {
            lemma_lines_shift(p, s, e + 1);
            assert(t.subrange(p.len() + j, p.len() + e) =~= s.subrange(j, e));
        }
    } else {
        assert(lines_from(t, p.len() + j) == Seq::<Seq<char>>::empty());
    }
}

proof fn lemma_join_front(l: Seq<Seq<char>>)
    requires
        l.len() >= 2,
    ensures
        join_lines(l) == l[0] + "\n"@ + join_lines(l.drop_first()),
    decreases l.len(),
{
    if l.len() == 2 {
        assert(l.drop_last() =~= seq![l[0]]);
        assert(l.drop_first() =~= seq![l[1]]);
        assert(join_lines(l.drop_last()) == l[0]);
        assert(join_lines(l.drop_first()) == l[1]);
        assert(l.last() == l[1]);
    } else {
        let d = l.drop_last();
        lemma_join_front(d);
        assert(d.drop_first() =~= l.drop_first().drop_last());
        assert(l.drop_first().last() == l.last());
        assert(join_lines(l) =~= l[0] + "\n"@ + join_lines(l.drop_first()));
    }
}

/// The last character of joined lines is the last line's last character.
proof fn lemma_join_last(l: Seq<Seq<char>>)
    requires
        l.len() >= 1,
        l.last().len() > 0,
    ensures
        join_lines(l).len() > 0,
        join_lines(l).last() == l.last().last(),
{
    if l.len() > 1 {
        let j = join_lines(l);
        assert(j == join_lines(l.drop_last()) + "\n"@ + l.last());
    }
}

/// The newline that optionally ends a text.
pub open spec fn final_newline(nl: bool) -> Seq<char> {
    if nl {
        "\n"@
    } else {
        Seq::empty()
    }
}

/// Joined lines read back as the same lines, when none holds a newline, none but the last ends
/// with a carriage return (nor that one when a final newline follows), and the last is not empty
/// unless a final newline follows.
proof fn lemma_join_round_trip(l: Seq<Seq<char>>, nl: bool)
    requires
        l.len() >= 1,
        forall|j: int| 0 <= j < l.len() ==> no_newline(#[trigger] l[j]),
        forall|j: int| 0 <= j < l.len() - 1 ==> !ends_with_cr(#[trigger] l[j]),
        nl ==> !ends_with_cr(l.last()),
        !nl ==> l.last().len() > 0,
    ensures
        lines_of(join_lines(l) + final_newline(nl)) == l,
    decreases l.len(),
{
    reveal_strlit("\n");
    let suf = final_newline(nl);
    let t = join_lines(l) + suf;
    let a = l[0];
    assert(no_newline(a));
    if l.len() == 1 {
        assert(join_lines(l) == a);
        if nl {
            assert(t =~= a.push('\n'));
            lemma_newline_is(t, 0, a.len() as int);
            assert(t.subrange(0, a.len() as int) =~= a);
            assert(lines_from(t, a.len() as int + 1) == Seq::<Seq<char>>::empty());
            assert(lines_of(t) =~= l);
        } else {
            assert(t =~= a);
            lemma_newline_is(t, 0, a.len() as int);
            assert(t.subrange(0, t.len() as int) =~= a);
            assert(lines_of(t) =~= l);
        }
    } else {
        lemma_join_front(l);
        let rest = l.drop_first();
        let u = join_lines(rest) + suf;
        let p = a + "\n"@;
        assert(t =~= p + u);
        assert(!ends_with_cr(a));
        assert forall|x: int| 0 <= x < a.len() implies t[x] != '\n' by {
            assert(t[x] == a[x]);
        }
        assert(t[a.len() as int] == '\n');
        lemma_newline_is(t, 0, a.len() as int);
        assert(t.subrange(0, a.len() as int) =~= a);
        assert forall|j: int| 0 <= j < rest.len() implies no_newline(#[trigger] rest[j]) by {
            assert(rest[j] == l[j + 1]);
        }
        assert forall|j: int| 0 <= j < rest.len() - 1 implies !ends_with_cr(#[trigger] rest[j]) by {
            assert(rest[j] == l[j + 1]);
        }
        lemma_join_round_trip(rest, nl);
        lemma_lines_shift(p, u, 0);
        assert(lines_from(t, a.len() as int + 1) == lines_of(u));
        assert(lines_of(t) =~= seq![a] + rest);
        assert(seq![a] + rest =~= l);
    }
}

/// Whether a character may stand in a rewritten indirection-table line: a space, a digit or a
/// comma.
pub open spec fn table_char(c: char) -> bool {
    c == ' ' || is_digit(c) || c == ','
}

proof fn lemma_decimal(n: nat)
    ensures
        decimal(n).len() > 0,
        forall|c: int| 0 <= c < decimal(n).len() ==> is_digit(#[trigger] decimal(n)[c]),
        decimal_value(decimal(n)) == n,
    decreases n,
{
    if n < 10 {
        let c = (48 + n) as char;
        assert(c as int == 48 + n);
        assert(decimal(n) == seq![c]);
        assert(seq![c].drop_last() =~= Seq::<char>::empty());
        assert(decimal_value(Seq::<char>::empty()) == 0);
        assert(decimal_value(seq![c]) == digit_value(c));
    } else {
        lemma_decimal(n / 10);
        let c = (48 + n % 10) as char;
        assert(c as int == 48 + n % 10);
        let d = decimal(n);
        assert(d == decimal(n / 10).push(c));
        assert(d.drop_last() =~= decimal(n / 10));
        assert(forall|x: int| 0 <= x < decimal(n / 10).len() ==> d[x] == decimal(n / 10)[x]);
    }
}

proof fn lemma_parse_decimal(r: nat)
    requires
        r <= usize::MAX,
    ensures
        parse_usize(decimal(r)) == Some(r as usize),
{
    lemma_decimal(r);
    let d = decimal(r);
    assert(is_digit(d[0]));
    assert(unsigned_digits(d) == d);
}

proof fn lemma_table_line_chars(v: nat)
    ensures
        table_line(v).len() > 0,
        forall|c: int| 0 <= c < table_line(v).len() ==> table_char(#[trigger] table_line(v)[c]),
        table_line(v)[0] == ' ',
        table_line(v).last() == ',',
{
    reveal_strlit("    ");
    reveal_strlit(",");
    lemma_decimal(v);
    let d = decimal(v);
    let t = table_line(v);
    assert(t == "    "@ + d + ","@);
    assert forall|c: int| 0 <= c < t.len() implies table_char(#[trigger] t[c]) by {
        if c < 4 {
            assert(t[c] == ' ');
        } else if c < 4 + d.len() {
            assert(t[c] == d[c - 4]);
        } else {
            assert(t[c] == ',');
        }
    }
}

proof fn lemma_trim_start_white(w: Seq<char>, t: Seq<char>)
    requires
        forall|c: int| 0 <= c < w.len() ==> is_white_space(#[trigger] w[c]),
        t.len() > 0 ==> !is_white_space(t[0]),
    ensures
        trim_start(w + t) == t,
    decreases w.len(),
{
    if w.len() > 0 {
        assert((w + t)[0] == w[0]);
        assert((w + t).drop_first() =~= w.drop_first() + t);
        lemma_trim_start_white(w.drop_first(), t);
    } else {
        assert(w + t =~= t);
    }
}

/// A rewritten table line reads back as the number it holds.
proof fn lemma_table_line_entry(v: nat)
    requires
        v <= usize::MAX,
    ensures
        parse_usize(entry_text(table_line(v))) == Some(v as usize),
{
    reveal_strlit("    ");
    reveal_strlit(",");
    lemma_decimal(v);
    let d = decimal(v);
    let dc = d + ","@;
    assert(table_line(v) =~= "    "@ + dc);
    assert((' ' as u32) == 0x20u32);
    assert forall|c: int| 0 <= c < "    "@.len() implies is_white_space(#[trigger] "    "@[c]) by {
        assert("    "@[c] == ' ');
    }
    assert(is_digit(d[0]));
    assert(dc[0] == d[0]);
    assert((d[0] as u32) as int == d[0] as int);
    lemma_trim_start_white("    "@, dc);
    assert(dc.last() == ',');
    assert((',' as u32) == 0x2Cu32);
    assert(trim_end_by(dc, |c: char| is_white_space(c)) == dc);
    assert(dc.drop_last() =~= d);
    assert(d.last() == d[d.len() - 1]);
    assert(is_digit(d.last()));
    assert(trim_end_by(d, |c: char| c == ',') == d);
    assert(trim_end_by(dc, |c: char| c == ',') == d);
    assert(entry_text(table_line(v)) == d);
    lemma_parse_decimal(v);
}

/// A line of table characters that starts with a space holds no newline, does not end with a
/// carriage return, holds neither marker, and opens neither an include nor a closing line.
proof fn lemma_table_char_line(l: Seq<char>)
    requires
        l.len() > 0,
        l[0] == ' ',
        forall|c: int| 0 <= c < l.len() ==> table_char(#[trigger] l[c]),
    ensures
        no_newline(l),
        !ends_with_cr(l),
        !contains_text(l, table_marker()),
        !contains_text(l, info_marker()),
        !starts_with(l, "};"@),
        !starts_with(l, "#include"@),
{
    reveal_strlit("_IndirectionTable[] = {");
    reveal_strlit("_PermutationInfo[] = {");
    reveal_strlit("};");
    reveal_strlit("#include");
    assert(table_char(l.last()));
    assert forall|i: int| !occurs_at(l, table_marker(), i) by {
        if occurs_at(l, table_marker(), i) {
            assert(l.subrange(i, i + table_marker().len())[0] == l[i]);
            assert(table_char(l[i]));
        }
    }
    assert forall|i: int| !occurs_at(l, info_marker(), i) by {
        if occurs_at(l, info_marker(), i) {
            assert(l.subrange(i, i + info_marker().len())[0] == l[i]);
            assert(table_char(l[i]));
        }
    }
    if starts_with(l, "};"@) {
        assert(l.subrange(0, 2)[0] == l[0]);
    }
    if starts_with(l, "#include"@) {
        assert(l.subrange(0, 8)[0] == l[0]);
    }
}

proof fn lemma_splice_index(mm: Seq<Seq<char>>, start: int, block: Seq<Seq<char>>)
    requires
        0 <= start,
        start + block.len() <= mm.len(),
    ensures
        splice(mm, start, block).len() == mm.len(),
        forall|x: int|
            0 <= x < mm.len() ==> #[trigger] splice(mm, start, block)[x] == if start <= x < start
                + block.len() {
                block[x - start]
            } else {
                mm[x]
            },
{
    let r = splice(mm, start, block);
    assert forall|x: int| 0 <= x < mm.len() implies #[trigger] r[x] == if start <= x < start
        + block.len() {
        block[x - start]
    } else {
        mm[x]
    } by {
        if x < start {
            assert(r[x] == mm.subrange(0, start)[x]);
        } else if x < start + block.len() {
            assert(r[x] == (mm.subrange(0, start) + block)[x]);
        } else {
            assert(r[x] == mm.subrange(start + block.len(), mm.len() as int)[x - start - block.len()]);
        }
    }
}

/// Every sorted text is one of the texts sorted.
proof fn lemma_sorted_member(s: Seq<Seq<char>>, p: int)
    requires
        0 <= p < s.len(),
    ensures
        exists|y: int| 0 <= y < s.len() && #[trigger] s[y] == sorted_texts(s)[p],
{
    lemma_rank_bijective(s);
    assert(rank_taken(s, p));
    let y = choose|y: int| 0 <= y < s.len() && rank(s, y) == p;
    assert(sorted_texts(s)[p] == s[choose|k: int| 0 <= k < s.len() && rank(s, k) == p]);
    assert(s[y] == sorted_texts(s)[p]);
}

proof fn lemma_first_containing_agree(a: Seq<Seq<char>>, b: Seq<Seq<char>>, mk: Seq<char>, i: int)
    requires
        a.len() == b.len(),
        0 <= i <= a.len(),
        forall|x: int| i <= x < a.len() ==> contains_text(#[trigger] a[x], mk) == contains_text(b[x], mk),
    ensures
        first_containing(a, mk, i) == first_containing(b, mk, i),
    decreases a.len() - i,
{
    if i < a.len() {
        lemma_first_containing_agree(a, b, mk, i + 1);
    }
}

proof fn lemma_first_closing_agree(a: Seq<Seq<char>>, b: Seq<Seq<char>>, i: int)
    requires
        a.len() == b.len(),
        0 <= i <= a.len(),
        forall|x: int| i <= x < a.len() ==> #[trigger] a[x] == b[x],
    ensures
        first_closing(a, i) == first_closing(b, i),
    decreases a.len() - i,
{
    if i < a.len() {
        lemma_first_closing_agree(a, b, i + 1);
    }
}

/// The lines with the leading includes sorted: the same lines from the includes on, and each
/// earlier line one of the includes.
proof fn lemma_sorted_includes(l: Seq<Seq<char>>)
    ensures
        ({
            let k = includes_from(l, 0);
            let m = sorted_texts(l.take(k)) + l.skip(k);
            &&& 0 <= k <= l.len()
            &&& m.len() == l.len()
            &&& forall|x: int| k <= x < l.len() ==> #[trigger] m[x] == l[x]
            &&& forall|x: int|
                #![trigger m[x]]
                0 <= x < k ==> exists|y: int| #![trigger l[y]] 0 <= y < k && l[y] == m[x]
            &&& forall|x: int| 0 <= x < k ==> starts_with(#[trigger] m[x], "#include"@)
            &&& m.take(k) == sorted_texts(l.take(k))
            &&& sorted_le(sorted_texts(l.take(k)))
        }),
{
    let k = includes_from(l, 0);
    lemma_includes_facts(l, 0);
    let inc = l.take(k);
    let m = sorted_texts(inc) + l.skip(k);
    lemma_sorted_texts(inc);
    assert forall|x: int| k <= x < l.len() implies #[trigger] m[x] == l[x] by {
        assert(m[x] == l.skip(k)[x - k]);
    }
    assert forall|x: int| #![trigger m[x]] 0 <= x < k implies exists|y: int|
        #![trigger l[y]]
        0 <= y < k && l[y] == m[x] by {
        assert(m[x] == sorted_texts(inc)[x]);
        lemma_sorted_member(inc, x);
        let y = choose|y: int| 0 <= y < inc.len() && #[trigger] inc[y] == sorted_texts(inc)[x];
        assert(l[y] == inc[y]);
    }
    assert forall|x: int| 0 <= x < k implies starts_with(#[trigger] m[x], "#include"@) by {
        assert(m[x] == m[x]);
        let y = choose|y: int| #![trigger l[y]] 0 <= y < k && l[y] == m[x];
        assert(starts_with(l[y], "#include"@));
    }
    assert(m.take(k) =~= sorted_texts(inc));
}

/// Whether a line is a rewritten table line naming a position below `n`.
pub open spec fn rewritten_line(line: Seq<char>, n: nat) -> bool {
    exists|v: nat| v < n && line == #[trigger] table_line(v)
}

/// Rewritten table lines over info lines already in order remap to themselves.
proof fn lemma_remap_identity(nt: Seq<Seq<char>>, info: Seq<Seq<char>>)
    requires
        sorted_le(info),
        info.len() <= usize::MAX,
        forall|j: int| 0 <= j < nt.len() ==> rewritten_line(#[trigger] nt[j], info.len()),
    ensures
        remap_table(nt, info) == Ok::<Seq<Seq<char>>, Seq<char>>(nt),
    decreases nt.len(),
{
    if nt.len() > 0 {
        assert(rewritten_line(nt[0], info.len()));
        let v = choose|v: nat| v < info.len() && nt[0] == #[trigger] table_line(v);
        lemma_table_line_entry(v);
        lemma_sorted_identity(info);
        assert(rank(info, v as int) == v);
        let rest = nt.drop_first();
        assert forall|j: int| 0 <= j < rest.len() implies rewritten_line(#[trigger] rest[j], info.len()) by {
            assert(rest[j] == nt[j + 1]);
        }
        lemma_remap_identity(rest, info);
        assert(seq![table_line(v)] + rest =~= nt);
    } else {
        assert(nt =~= Seq::<Seq<char>>::empty());
    }
}

/// Whether a permutation index has the layout the compiler writes: no line ends with a carriage
/// return (but a last line that no newline follows), no leading `#include` line holds an array
/// marker, and the indirection table and the permutation info are separate arrays, one wholly
/// before the other.
pub open spec fn index_layout(text: Seq<char>) -> bool {
    let l = lines_of(text);
    let k = includes_from(l, 0);
    &&& forall|i: int|
        0 <= i < l.len() && ends_with_cr(#[trigger] l[i]) ==> i == l.len() - 1 && !ends_with_newline(
            text,
        )
    &&& forall|i: int|
        0 <= i < k ==> !contains_text(#[trigger] l[i], table_marker()) && !contains_text(
            l[i],
            info_marker(),
        )
    &&& match (block_range_of(l, table_marker()), block_range_of(l, info_marker())) {
        (Ok((ts, te)), Ok((is, ie))) => te < is || ie < ts,
        _ => true,
    }
}

/// Canonicalizing an index that is already canonical changes nothing, so regenerating over
/// unchanged headers rewrites nothing: for an index with the compiler's layout (see
/// `index_layout`), the canonical text canonicalizes to itself.
#[verifier::rlimit(100)]
pub proof fn law_canonical_index_idempotent(text: Seq<char>, out: Seq<char>)
    requires
        canonical_index(text) == Ok::<Seq<char>, Seq<char>>(out),
        index_layout(text),
        text.len() <= usize::MAX,
    ensures
        canonical_index(out) == Ok::<Seq<char>, Seq<char>>(out),
{
    let tm = table_marker();
    let im = info_marker();
    let l = lines_of(text);
    let n = l.len() as int;
    let k = includes_from(l, 0);
    let m = sorted_texts(l.take(k)) + l.skip(k);
    lemma_sorted_includes(l);
    lemma_includes_facts(l, 0);
    lemma_lines_shape(text, 0);
    // Sorting the includes moves no marker: each array is found where it was.
    assert forall|x: int| 0 <= x < n implies contains_text(#[trigger] m[x], tm) == contains_text(l[x], tm)
        && contains_text(m[x], im) == contains_text(l[x], im) && (x < k ==> !contains_text(m[x], tm)
        && !contains_text(m[x], im)) by {
        if x < k {
            let y = choose|y: int| #![trigger l[y]] 0 <= y < k && l[y] == m[x];
        }
    }
    lemma_first_containing_agree(m, l, tm, 0);
    lemma_first_containing_agree(m, l, im, 0);
    lemma_first_containing_facts(m, tm, 0);
    lemma_first_containing_facts(m, im, 0);
    let dt = first_containing(m, tm, 0);
    let di = first_containing(m, im, 0);
    assert(block_range_of(m, tm) is Ok);
    assert(block_range_of(m, im) is Ok);
    assert(dt < n && di < n);
    assert(dt >= k) by {
        if dt < k {
            assert(!contains_text(m[dt], tm));
        }
    }
    assert(di >= k) by {
        if di < k {
            assert(!contains_text(m[di], im));
        }
    }
    let ts = dt + 1;
    let is = di + 1;
    let te = first_closing(m, ts);
    let ie = first_closing(m, is);
    lemma_first_closing_facts(m, ts);
    lemma_first_closing_facts(m, is);
    lemma_first_closing_agree(m, l, ts);
    lemma_first_closing_agree(m, l, is);
    assert(block_range_of(m, tm) == Ok::<(int, int), Seq<char>>((ts, te)));
    assert(block_range_of(m, im) == Ok::<(int, int), Seq<char>>((is, ie)));
    assert(block_range_of(l, tm) == Ok::<(int, int), Seq<char>>((ts, te)));
    assert(block_range_of(l, im) == Ok::<(int, int), Seq<char>>((is, ie)));
    assert(te < is || ie < ts);
    assert(te < n && ie < n);
    let info = m.subrange(is, ie);
    let sinfo = sorted_texts(info);
    lemma_sorted_texts(info);
    let m2 = splice(m, is, sinfo);
    lemma_splice_index(m, is, sinfo);
    let table = m2.subrange(ts, te);
    lemma_remap_len(table, info);
    assert(remap_table(table, info) is Ok);
    let nt = remap_table(table, info)->Ok_0;
    let lp = splice(m2, ts, nt);
    lemma_splice_index(m2, ts, nt);
    let nl = ends_with_newline(text);
    assert(out == join_lines(lp) + final_newline(nl));
    // Where each output line comes from.
    assert forall|x: int| 0 <= x < n implies #[trigger] lp[x] == if ts <= x < te {
        nt[x - ts]
    } else if is <= x < ie {
        sinfo[x - is]
    } else {
        m[x]
    } by {}
    // The rewritten table lines.
    assert forall|j: int| 0 <= j < nt.len() implies rewritten_line(#[trigger] nt[j], info.len()) by {
        law_remap_keeps_key_to_blob(table, info, nt, j);
        let v = parse_usize(entry_text(table[j]))->Some_0;
        let r = rank(info, v as int);
        assert(0 <= r < info.len());
        assert(nt[j] == table_line(r as nat));
    }
    // The sorted info lines are info lines.
    assert forall|j: int| #![trigger sinfo[j]] 0 <= j < sinfo.len() implies exists|y: int|
        #![trigger m[y]]
        is <= y < ie && m[y] == sinfo[j] by {
        lemma_sorted_member(info, j);
        let y = choose|y: int| 0 <= y < info.len() && #[trigger] info[y] == sinfo[j];
        assert(m[is + y] == info[y]);
    }
    // The lines before the includes' end and after them keep their shape.
    assert forall|z: int| 0 <= z < n implies no_newline(#[trigger] m[z]) && (z < n - 1 ==> !ends_with_cr(
        m[z],
    )) by {
        if z < k {
            let y = choose|y: int| #![trigger l[y]] 0 <= y < k && l[y] == m[z];
            assert(no_newline(l[y]));
        } else {
            assert(m[z] == l[z]);
            assert(no_newline(l[z]));
        }
    }
    assert(lp.len() == n);
    assert forall|x: int| 0 <= x < n implies no_newline(#[trigger] lp[x]) && (x < n - 1
        ==> !ends_with_cr(lp[x])) by {
        if ts <= x < te {
            let v = choose|v: nat| v < info.len() && nt[x - ts] == #[trigger] table_line(v);
            lemma_table_line_chars(v);
            lemma_table_char_line(table_line(v));
        } else if is <= x < ie {
            let y = choose|y: int| #![trigger m[y]] is <= y < ie && m[y] == sinfo[x - is];
            assert(y < n - 1);
        }
    }
    assert(lp[n - 1] == m[n - 1]);
    assert(m[n - 1] == l[n - 1]);
    assert(lp.last() == l.last());
    if nl {
        assert(!ends_with_cr(l[n - 1]));
    } else {
        assert(text.last() != '\n');
    }
    lemma_join_round_trip(lp, nl);
    assert(lines_of(out) == lp);
    // The second pass sees the same includes, already in order.
    assert forall|x: int| 0 <= x < k implies starts_with(#[trigger] lp[x], "#include"@) by {
        assert(lp[x] == m[x]);
    }
    assert(lp[k] == l[k]);
    lemma_includes_is(lp, 0, k);
    assert(lp.take(k) =~= m.take(k));
    lemma_sorted_identity(sorted_texts(l.take(k)));
    assert(sorted_texts(lp.take(k)) + lp.skip(k) =~= lp);
    // The same arrays.
    assert forall|x: int| 0 <= x < dt implies !contains_text(#[trigger] lp[x], tm) by {
        if ts <= x < te {
        } else if is <= x < ie {
            let y = choose|y: int| #![trigger m[y]] is <= y < ie && m[y] == sinfo[x - is];
            assert(y < dt);
        }
    }
    lemma_first_containing_is(lp, tm, 0, dt);
    assert forall|x: int| ts <= x < te implies !starts_with(#[trigger] lp[x], "};"@) by {
        let v = choose|v: nat| v < info.len() && nt[x - ts] == #[trigger] table_line(v);
        lemma_table_line_chars(v);
        lemma_table_char_line(table_line(v));
    }
    lemma_first_closing_is(lp, ts, te);
    assert forall|x: int| 0 <= x < di implies !contains_text(#[trigger] lp[x], im) by {
        if ts <= x < te {
            let v = choose|v: nat| v < info.len() && nt[x - ts] == #[trigger] table_line(v);
            lemma_table_line_chars(v);
            lemma_table_char_line(table_line(v));
        }
    }
    lemma_first_containing_is(lp, im, 0, di);
    assert forall|x: int| is <= x < ie implies !starts_with(#[trigger] lp[x], "};"@) by {
        let y = choose|y: int| #![trigger m[y]] is <= y < ie && m[y] == sinfo[x - is];
    }
    lemma_first_closing_is(lp, is, ie);
    assert(block_range_of(lp, tm) == Ok::<(int, int), Seq<char>>((ts, te)));
    assert(block_range_of(lp, im) == Ok::<(int, int), Seq<char>>((is, ie)));
    // The info block is in order, and the table already names its positions.
    let info2 = lp.subrange(is, ie);
    assert(info2 =~= sinfo);
    lemma_sorted_identity(sinfo);
    assert(splice(lp, is, sorted_texts(info2)) =~= lp);
    assert(lp.subrange(ts, te) =~= nt);
    assert(info.len() <= usize::MAX);
    lemma_remap_identity(nt, sinfo);
    assert(splice(lp, ts, nt) =~= lp);
    // The final newline is kept.
    if nl {
        reveal_strlit("\n");
        assert(final_newline(nl) == "\n"@);
        assert(out.last() == final_newline(nl)[0]);
    } else {
        lemma_join_last(lp);
        assert(no_newline(lp.last()));
        assert(out.last() != '\n');
    }
    assert(ends_with_newline(out) == nl);
}

} // verus!
