//! Character-level text helpers shared by the parsers: moving between strings and char vectors.
use vstd::prelude::*;

verus! {

/// The characters of `s`, in order.
pub fn chars_of(s: &str) -> (v: Vec<char>)
    ensures
        v@ == s@,
{
    let mut v: Vec<char> = Vec::new();
    for c in it: s.chars()
        invariant
            v@ == it.seq().take(it.index() as int),
    {
        v.push(c);
    }
    v
}

/// Whether `a` sorts strictly before `b`: character by character by code point, a proper prefix
/// first. This is the order of `String`'s `Ord`, since UTF-8 keeps code-point order bytewise.
pub open spec fn text_lt(a: Seq<char>, b: Seq<char>) -> bool
    decreases a.len(),
{
    if a.len() == 0 {
        b.len() > 0
    } else if b.len() == 0 {
        false
    } else if a[0] != b[0] {
        (a[0] as int) < (b[0] as int)
    } else {
        text_lt(a.drop_first(), b.drop_first())
    }
}

/// No text sorts before itself.
pub proof fn lemma_text_lt_irreflexive(a: Seq<char>)
    ensures
        !text_lt(a, a),
    decreases a.len(),
{
    if a.len() > 0 {
        lemma_text_lt_irreflexive(a.drop_first());
    }
}

/// Of two different texts, one sorts before the other, and never both.
pub proof fn lemma_text_lt_total(a: Seq<char>, b: Seq<char>)
    ensures
        a != b ==> (text_lt(a, b) || text_lt(b, a)),
        !(text_lt(a, b) && text_lt(b, a)),
    decreases a.len(),
{
    if a.len() > 0 && b.len() > 0 && a[0] == b[0] {
        lemma_text_lt_total(a.drop_first(), b.drop_first());
        if a.drop_first() == b.drop_first() {
            assert(a =~= seq![a[0]] + a.drop_first());
            assert(b =~= seq![b[0]] + b.drop_first());
        }
    } else if a.len() > 0 && b.len() > 0 {
        assert((a[0] as int) != (b[0] as int));
    } else if a.len() == 0 && b.len() == 0 {
        assert(a =~= b);
    }
}

/// The order is transitive.
pub proof fn lemma_text_lt_transitive(a: Seq<char>, b: Seq<char>, c: Seq<char>)
    requires
        text_lt(a, b),
        text_lt(b, c),
    ensures
        text_lt(a, c),
    decreases a.len(),
{
    if a.len() > 0 && b.len() > 0 && c.len() > 0 && a[0] == b[0] && b[0] == c[0] {
        lemma_text_lt_transitive(a.drop_first(), b.drop_first(), c.drop_first());
    }
}

/// `String::push`. Claimed: the character is appended.
#[verifier::external_body]
pub(crate) fn push_char(s: &mut String, c: char)
    ensures
        final(s)@ == old(s)@.push(c),
{
    s.push(c);
}

/// The string holding exactly the characters of `v`.
pub fn string_from_chars(v: &Vec<char>) -> (s: String)
    ensures
        s@ == v@,
{
    let mut s = String::new();
    let mut i: usize = 0;
    while i < v.len()
        invariant
            i <= v@.len(),
            s@ == v@.take(i as int),
        decreases v@.len() - i,
    {
        push_char(&mut s, v[i]);
        proof {
            assert(v@.take(i + 1) =~= v@.take(i as int).push(v@[i as int]));
        }
        i = i + 1;
    }
    proof {
        assert(v@.take(v@.len() as int) =~= v@);
    }
    s
}

/// Whether two character vectors hold the same text.
pub fn same_text(a: &Vec<char>, b: &Vec<char>) -> (r: bool)
    ensures
        r == (a@ == b@),
{
    if a.len() != b.len() {
        return false;
    }
    let mut i: usize = 0;
    while i < a.len()
        invariant
            i <= a@.len(),
            a@.len() == b@.len(),
            forall|k: int| 0 <= k < i ==> a@[k] == b@[k],
        decreases a@.len() - i,
    {
        if a[i] != b[i] {
            return false;
        }
        i = i + 1;
    }
    proof {
        assert(a@ =~= b@);
    }
    true
}

/// Whether a code point has the Unicode `White_Space` property: tab to carriage return, space,
/// next line, no-break space, ogham space mark, the spaces from en quad to hair space, the line and
/// paragraph separators, narrow no-break space, medium mathematical space and ideographic space.
pub open spec fn white_space_code(u: u32) -> bool {
    (0x09 <= u && u <= 0x0D) || u == 0x20 || u == 0x85 || u == 0xA0 || u == 0x1680 || (0x2000 <= u
        && u <= 0x200A) || u == 0x2028 || u == 0x2029 || u == 0x202F || u == 0x205F || u == 0x3000
}

/// Whether a character is whitespace, as `char::is_whitespace` decides it (see
/// `white_space_code`).
pub open spec fn is_white_space(c: char) -> bool {
    white_space_code(c as u32)
}

/// Whether a character is whitespace (see `is_white_space`).
pub fn char_is_whitespace(c: char) -> (r: bool)
    ensures
        r == is_white_space(c),
{
    let u = c as u32;
    (0x09 <= u && u <= 0x0D) || u == 0x20 || u == 0x85 || u == 0xA0 || u == 0x1680 || (0x2000 <= u
        && u <= 0x200A) || u == 0x2028 || u == 0x2029 || u == 0x202F || u == 0x205F || u == 0x3000
}

/// What a sequence holds after a push: what it held, and the pushed value.
pub proof fn lemma_push_contains<T>(s: Seq<T>, v: T, x: T)
    ensures
        s.push(v).contains(x) <==> (s.contains(x) || x == v),
{
    if s.push(v).contains(x) {
        let w = choose|w: int| 0 <= w < s.push(v).len() && s.push(v)[w] == x;
        if w < s.len() {
            assert(s[w] == x);
        }
    }
    if s.contains(x) {
        let w = choose|w: int| 0 <= w < s.len() && s[w] == x;
        assert(s.push(v)[w] == x);
    }
    if x == v {
        assert(s.push(v)[s.len() as int] == x);
    }
}

/// Compare two texts in `text_lt` order.
pub fn text_less(a: &Vec<char>, b: &Vec<char>) -> (r: bool)
    ensures
        r == text_lt(a@, b@),
{
    let mut i: usize = 0;
    proof {
        assert(a@.skip(0) =~= a@);
        assert(b@.skip(0) =~= b@);
    }
    while i < a.len() && i < b.len() && a[i] == b[i]
        invariant
            i <= a@.len(),
            i <= b@.len(),
            text_lt(a@, b@) == text_lt(a@.skip(i as int), b@.skip(i as int)),
        decreases a@.len() - i,
    {
        proof {
            assert(a@.skip(i as int).drop_first() =~= a@.skip(i + 1));
            assert(b@.skip(i as int).drop_first() =~= b@.skip(i + 1));
        }
        i = i + 1;
    }
    if i == a.len() {
        i < b.len()
    } else if i == b.len() {
        false
    } else {
        a[i] < b[i]
    }
}

/// Whether the texts are in strictly increasing `text_lt` order (so none occurs twice).
pub open spec fn strictly_sorted(s: Seq<Seq<char>>) -> bool {
    forall|i: int, j: int| 0 <= i < j < s.len() ==> text_lt(#[trigger] s[i], #[trigger] s[j])
}

/// The texts of some strings.
pub open spec fn texts(v: Seq<String>) -> Seq<Seq<char>> {
    v.map_values(|s: String| s@)
}

/// The non-empty texts among `names`, each once, in increasing `text_lt` order: the strictly sorted
/// sequence of exactly those texts.
pub fn sorted_unique_nonempty(names: &Vec<String>) -> (out: Vec<String>)
    ensures
        strictly_sorted(texts(out@)),
        forall|x: Seq<char>|
            texts(out@).contains(x) <==> (x.len() > 0 && texts(names@).contains(x)),
{
    let mut out: Vec<String> = Vec::new();
    let mut k: usize = 0;
    while k < names.len()
        invariant
            k <= names@.len(),
            strictly_sorted(texts(out@)),
            forall|x: Seq<char>|
                texts(out@).contains(x) <==> (x.len() > 0 && texts(names@).take(k as int).contains(
                    x,
                )),
        decreases names@.len() - k,
    {
        let cand = &names[k];
        let cv = chars_of(cand.as_str());
        proof {
            assert(texts(names@).take(k + 1) =~= texts(names@).take(k as int).push(cand@));
        }
        if cv.len() > 0 {
            let mut i: usize = 0;
            while i < out.len() && text_less(&chars_of(out[i].as_str()), &cv)
                invariant
                    i <= out@.len(),
                    cv@ == cand@,
                    forall|m: int| 0 <= m < i ==> text_lt(#[trigger] texts(out@)[m], cand@),
                decreases out@.len() - i,
            {
                i = i + 1;
            }
            let ghost before = texts(out@);
            if i < out.len() && out[i] == *cand {
                proof {
                    assert(texts(out@)[i as int] == cand@);
                }
            } else {
                proof {
                    if i < out@.len() {
                        lemma_text_lt_total(before[i as int], cand@);
                    }
                }
                out.insert(i, cand.clone());
                proof {
                    let now = texts(out@);
                    assert(now =~= before.subrange(0, i as int).push(cand@) + before.subrange(
                        i as int,
                        before.len() as int,
                    ));
                    assert forall|a: int, b: int| 0 <= a < b < now.len() implies text_lt(
                        #[trigger] now[a],
                        #[trigger] now[b],
                    ) by {
                        if a < i && b == i {
                        } else if a == i && b > i {
                            assert(now[b] == before[b - 1]);
                            if b - 1 > i {
                                lemma_text_lt_transitive(cand@, before[i as int], before[b - 1]);
                            }
                        } else if a < i && b > i {
                            assert(now[b] == before[b - 1]);
                        } else if a > i {
                            assert(now[a] == before[a - 1]);
                            assert(now[b] == before[b - 1]);
                        }
                    }
                    assert forall|x: Seq<char>| now.contains(x) <==> (before.contains(x) || x
                        == cand@) by {
                        if now.contains(x) {
                            let w = choose|w: int| 0 <= w < now.len() && now[w] == x;
                            if w < i {
                                assert(before[w] == x);
                            } else if w > i {
                                assert(before[w - 1] == x);
                            }
                        }
                        if before.contains(x) {
                            let w = choose|w: int| 0 <= w < before.len() && before[w] == x;
                            if w < i {
                                assert(now[w] == x);
                            } else {
                                assert(now[w + 1] == x);
                            }
                        }
                        if x == cand@ {
                            assert(now[i as int] == x);
                        }
                    }
                }
            }
        }
        proof {
            assert forall|x: Seq<char>| texts(names@).take(k + 1).contains(x) <==> (texts(
                names@,
            ).take(k as int).contains(x) || x == cand@) by {
                lemma_push_contains(texts(names@).take(k as int), cand@, x);
            }
        }
        k = k + 1;
    }
    proof {
        assert(texts(names@).take(names@.len() as int) =~= texts(names@));
    }
    out
}

} // verus!
