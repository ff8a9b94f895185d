//! What the examiner's readers promise of the SWF and ABC layouts they walk: how far a MATRIX and
//! a CXFORM record reach, and how many entries the ABC constant pools hold.
use crate::gfx::{lemma_u30_bounds, u30_end, u30_from, u30_value, utf8_lossy};
use crate::tags::{
    abc_namespaces_from, abc_pools, abc_strings_from, cxform_bytes, doubles_end, matrix_bytes,
    pool_entries, pool_lookup, skip_u30s, ubits, ubits_from,
};
use vstd::prelude::*;

verus! {

/// A MATRIX record is a scale part (a flag, then a five-bit width and two fields of it when set),
/// a rotate part of the same shape, then a five-bit width and two translate fields of it, padded
/// to whole bytes.
pub proof fn law_matrix_spans_its_fields(data: Seq<u8>, pos: int)
    requires
        0 <= pos < data.len(),
    ensures
        ({
            let sb = if ubits(data, pos, 0, 1) == 1 {
                5 + 2 * ubits(data, pos, 1, 5)
            } else {
                0
            };
            let rb = if ubits(data, pos, 1 + sb, 1) == 1 {
                5 + 2 * ubits(data, pos, 2 + sb, 5)
            } else {
                0
            };
            let bits = 1 + sb + 1 + rb + 5 + 2 * ubits(data, pos, 2 + sb + rb, 5);
            matrix_bytes(data, pos) == (bits + 7) / 8
        }),
{
    let byte = data[pos];
    assert(ubits_from(data, pos, 0, 1, 1, ((0int * 2 + ((byte >> 7u8) & 1u8) as int) % 0x1_0000_0000) as u32)
        == ((0int * 2 + ((byte >> 7u8) & 1u8) as int) % 0x1_0000_0000) as u32);
    assert(((byte >> 7u8) & 1u8) as int <= 1) by (bit_vector);
    assert(ubits(data, pos, 0, 1) == ((byte >> 7u8) & 1u8) as u32);
}

/// A MATRIX with neither scale nor rotate spans its flags, its five-bit translate width `n` and
/// two translate fields: ceil((7 + 2n) / 8) bytes.
pub proof fn law_plain_matrix_spans_two_translate_fields(data: Seq<u8>, pos: int)
    requires
        0 <= pos < data.len(),
        data[pos] < 64,
    ensures
        matrix_bytes(data, pos) == (7 + 2 * (((data[pos] >> 1u8) & 31u8) as int) + 7) / 8,
{
    let byte = data[pos];
    assert((byte >> 7u8) & 1u8 == 0) by (bit_vector)
        requires
            byte < 64,
    ;
    assert((byte >> 6u8) & 1u8 == 0) by (bit_vector)
        requires
            byte < 64,
    ;
    let r1 = ubits_from(data, pos, 1, 1, 1, 0);
    assert(ubits_from(data, pos, 1, 1, 0, 0) == r1);
    assert(ubits(data, pos, 1, 1) == 0);
    let c5 = ((byte >> 5u8) & 1u8) as int;
    let c4 = ((byte >> 4u8) & 1u8) as int;
    let c3 = ((byte >> 3u8) & 1u8) as int;
    let c2 = ((byte >> 2u8) & 1u8) as int;
    let c1 = ((byte >> 1u8) & 1u8) as int;
    assert(c5 <= 1 && c4 <= 1 && c3 <= 1 && c2 <= 1 && c1 <= 1) by {
        assert((byte >> 5u8) & 1u8 <= 1) by (bit_vector);
        assert((byte >> 4u8) & 1u8 <= 1) by (bit_vector);
        assert((byte >> 3u8) & 1u8 <= 1) by (bit_vector);
        assert((byte >> 2u8) & 1u8 <= 1) by (bit_vector);
        assert((byte >> 1u8) & 1u8 <= 1) by (bit_vector);
    }
    let a1 = c5 as u32;
    let a2 = (a1 as int * 2 + c4) as u32;
    let a3 = (a2 as int * 2 + c3) as u32;
    let a4 = (a3 as int * 2 + c2) as u32;
    let a5 = (a4 as int * 2 + c1) as u32;
    assert(ubits_from(data, pos, 2, 5, 5, a5) == a5);
    assert(ubits_from(data, pos, 2, 5, 4, a4) == a5);
    assert(ubits_from(data, pos, 2, 5, 3, a3) == a5);
    assert(ubits_from(data, pos, 2, 5, 2, a2) == a5);
    assert(ubits_from(data, pos, 2, 5, 1, a1) == a5);
    assert(ubits_from(data, pos, 2, 5, 0, 0) == a5);
    assert(((((((byte >> 5u8) & 1u8) as u32 * 2 + ((byte >> 4u8) & 1u8) as u32) * 2 + ((byte >> 3u8)
        & 1u8) as u32) * 2 + ((byte >> 2u8) & 1u8) as u32) * 2 + ((byte >> 1u8) & 1u8) as u32)
        == ((byte >> 1u8) & 31u8) as u32) by (bit_vector);
    assert(ubits(data, pos, 2, 5) == ((byte >> 1u8) & 31u8) as u32);
}

/// A variable-length integer reads the same wherever the same bytes stand before the data's end.
proof fn lemma_u30_shift(p: Seq<u8>, q: Seq<u8>, t: Seq<u8>, j: int, i: int)
    requires
        0 <= j,
        0 <= i <= 5,
    ensures
        u30_from(p + t, p.len() + j, i).0 == u30_from(q + t, q.len() + j, i).0,
        u30_from(p + t, p.len() + j, i).1 - p.len() == u30_from(q + t, q.len() + j, i).1 - q.len(),
    decreases 5 - i,
{
    let a = p + t;
    let b = q + t;
    if i < 5 && j < t.len() {
        assert(a[p.len() + j] == t[j]);
        assert(b[q.len() + j] == t[j]);
        lemma_u30_shift(p, q, t, j + 1, i + 1);
    }
}

/// Reading the string pool is the same wherever the same bytes stand before the data's end.
proof fn lemma_abc_strings_shift(p: Seq<u8>, q: Seq<u8>, t: Seq<u8>, j: int, n: nat)
    requires
        0 <= j,
    ensures
        abc_strings_from(p + t, p.len() + j, n).0 == abc_strings_from(q + t, q.len() + j, n).0,
        abc_strings_from(p + t, p.len() + j, n).1 - p.len() == abc_strings_from(q + t, q.len() + j, n).1
            - q.len(),
    decreases n,
{
    let a = p + t;
    let b = q + t;
    if n > 0 {
        lemma_u30_shift(p, q, t, j, 0);
        lemma_u30_bounds(a, p.len() + j, 0);
        lemma_u30_bounds(b, q.len() + j, 0);
        let l = u30_value(a, p.len() + j);
        let pa = u30_end(a, p.len() + j);
        let pb = u30_end(b, q.len() + j);
        let j1 = pa - p.len();
        if pa + l <= a.len() {
            assert(a.subrange(pa, pa + l) =~= b.subrange(pb, pb + l));
            lemma_abc_strings_shift(p, q, t, j1 + l, (n - 1) as nat);
        }
    }
}

/// A one-byte variable-length integer.
proof fn lemma_u30_one_byte(data: Seq<u8>, pos: int)
    requires
        0 <= pos < data.len(),
        data[pos] < 128,
    ensures
        u30_value(data, pos) == data[pos] as u32,
        u30_end(data, pos) == pos + 1,
{
}

/// Skipping one-byte variable-length integers moves one byte each.
proof fn lemma_skip_one_byte_u30s(data: Seq<u8>, pos: int, n: nat)
    requires
        0 <= pos,
        pos + n <= data.len(),
        forall|x: int| pos <= x < pos + n ==> data[x] < 128,
    ensures
        skip_u30s(data, pos, n) == pos + n,
    decreases n,
{
    if n > 0 {
        lemma_u30_one_byte(data, pos);
        lemma_skip_one_byte_u30s(data, pos + 1, (n - 1) as nat);
    }
}

/// The integer, unsigned-integer and double pools of an ABC block hold one entry fewer than the
/// counts they declare (entry 0 is implicit): a block whose pools declare counts `c1`, `c2`, `c3`
/// followed by that many entries less one has the string pool of the same block with all three
/// pools empty.
#[verifier::rlimit(30)]
pub proof fn law_number_pools_hold_count_minus_one(
    head: Seq<u8>,
    c1: u8,
    ints: Seq<u8>,
    c2: u8,
    uints: Seq<u8>,
    c3: u8,
    doubles: Seq<u8>,
    tail: Seq<u8>,
)
    requires
        head.len() == 4,
        1 <= c1 < 128,
        1 <= c2 < 128,
        1 <= c3 < 128,
        ints.len() + 1 == c1,
        uints.len() + 1 == c2,
        doubles.len() == 8 * (c3 - 1),
        forall|i: int| 0 <= i < ints.len() ==> ints[i] < 128,
        forall|i: int| 0 <= i < uints.len() ==> uints[i] < 128,
    ensures
        abc_pools(head + seq![c1] + ints + seq![c2] + uints + seq![c3] + doubles + tail).0
            == abc_pools(head + seq![0u8, 0u8, 0u8] + tail).0,
{
    let p = head + seq![c1] + ints + seq![c2] + uints + seq![c3] + doubles;
    let q = head + seq![0u8, 0u8, 0u8];
    let a = p + tail;
    let b = q + tail;
    assert(head + seq![c1] + ints + seq![c2] + uints + seq![c3] + doubles + tail == a);
    assert(head + seq![0u8, 0u8, 0u8] + tail == b);
    // The block with the pools.
    let i1: int = 5 + ints.len() as int;
    assert(a[4] == c1);
    lemma_u30_one_byte(a, 4);
    assert forall|x: int| 5 <= x < i1 implies a[x] < 128 by {
        assert(a[x] == ints[x - 5]);
    }
    lemma_skip_one_byte_u30s(a, 5, ints.len());
    assert(pool_entries(c1 as u32) == ints.len());
    assert(a[i1] == c2);
    lemma_u30_one_byte(a, i1);
    let i2: int = i1 + 1 + uints.len();
    assert forall|x: int| i1 + 1 <= x < i2 implies a[x] < 128 by {
        assert(a[x] == uints[x - i1 - 1]);
    }
    lemma_skip_one_byte_u30s(a, i1 + 1, uints.len());
    assert(pool_entries(c2 as u32) == uints.len());
    assert(a[i2] == c3);
    lemma_u30_one_byte(a, i2);
    assert(pool_entries(c3 as u32) == c3 - 1);
    let i3: int = i2 + 1 + doubles.len();
    assert(i3 == p.len());
    assert(doubles_end(a, i2 + 1, (c3 - 1) as nat) == i3);
    // The block without.
    assert(b[4] == 0u8 && b[5] == 0u8 && b[6] == 0u8);
    lemma_u30_one_byte(b, 4);
    lemma_u30_one_byte(b, 5);
    lemma_u30_one_byte(b, 6);
    assert(pool_entries(0u32) == 0);
    assert(doubles_end(b, 7, 0) == 7);
    // The string pools read the same tail.
    lemma_u30_shift(p, q, tail, 0, 0);
    lemma_u30_bounds(a, p.len() as int, 0);
    let ea = u30_end(a, p.len() as int);
    let eb = u30_end(b, q.len() as int);
    assert(eb - q.len() == ea - p.len());
    assert(ea == p.len() + (ea - p.len()) && eb == q.len() + (ea - p.len()));
    let n = pool_entries(u30_value(a, p.len() as int));
    lemma_abc_strings_shift(p, q, tail, ea - p.len(), n);
}

/// The bytes of a string pool's entries: each one's length (below 128) and then its bytes.
pub open spec fn string_pool_bytes(ss: Seq<Seq<u8>>) -> Seq<u8>
    decreases ss.len(),
{
    if ss.len() == 0 {
        Seq::empty()
    } else {
        seq![ss[0].len() as u8] + ss[0] + string_pool_bytes(ss.drop_first())
    }
}

proof fn lemma_string_pool_read(data: Seq<u8>, pos: int, ss: Seq<Seq<u8>>)
    requires
        0 <= pos,
        pos + string_pool_bytes(ss).len() <= data.len(),
        data.subrange(pos, pos + string_pool_bytes(ss).len()) == string_pool_bytes(ss),
        forall|i: int| 0 <= i < ss.len() ==> #[trigger] ss[i].len() < 128,
    ensures
        abc_strings_from(data, pos, ss.len()).0 == Seq::new(ss.len(), |i: int| utf8_lossy(ss[i])),
        abc_strings_from(data, pos, ss.len()).1 == pos + string_pool_bytes(ss).len(),
    decreases ss.len(),
{
    if ss.len() > 0 {
        let s0 = ss[0];
        let rest = ss.drop_first();
        let enc = string_pool_bytes(ss);
        assert(enc == seq![s0.len() as u8] + s0 + string_pool_bytes(rest));
        assert(s0.len() < 128);
        assert(data[pos] == enc[0]);
        assert(enc[0] == s0.len() as u8);
        lemma_u30_one_byte(data, pos);
        assert(data.subrange(pos + 1, pos + 1 + s0.len()) =~= s0) by {
            assert forall|x: int| 0 <= x < s0.len() implies data[pos + 1 + x] == s0[x] by {
                assert(data[pos + 1 + x] == enc[1 + x]);
            }
        }
        let np = pos + 1 + s0.len();
        assert(data.subrange(np, np + string_pool_bytes(rest).len()) =~= string_pool_bytes(rest)) by {
            assert forall|x: int| 0 <= x < string_pool_bytes(rest).len() implies data[np + x]
                == string_pool_bytes(rest)[x] by {
                assert(data[np + x] == enc[1 + s0.len() + x]);
            }
        }
        assert forall|i: int| 0 <= i < rest.len() implies #[trigger] rest[i].len() < 128 by {
            assert(rest[i] == ss[i + 1]);
        }
        lemma_string_pool_read(data, np, rest);
        assert(Seq::new(ss.len(), |i: int| utf8_lossy(ss[i])) =~= seq![utf8_lossy(s0)] + Seq::new(
            rest.len(),
            |i: int| utf8_lossy(rest[i]),
        ));
    } else {
        assert(Seq::new(ss.len(), |i: int| utf8_lossy(ss[i])) =~= Seq::<Seq<char>>::empty());
    }
}

/// The string pool holds one entry fewer than the count it declares: after the implicit empty
/// string 0 come exactly the `c - 1` length-prefixed strings that follow the count, decoded.
pub proof fn law_string_pool_holds_count_minus_one(head: Seq<u8>, ss: Seq<Seq<u8>>, tail: Seq<u8>)
    requires
        head.len() == 4,
        ss.len() < 127,
        forall|i: int| 0 <= i < ss.len() ==> #[trigger] ss[i].len() < 128,
    ensures
        abc_pools(head + seq![0u8, 0u8, 0u8, (ss.len() + 1) as u8] + string_pool_bytes(ss) + tail).0
            == seq![Seq::<char>::empty()] + Seq::new(ss.len(), |i: int| utf8_lossy(ss[i])),
{
    let d = head + seq![0u8, 0u8, 0u8, (ss.len() + 1) as u8] + string_pool_bytes(ss) + tail;
    assert(d[4] == 0u8 && d[5] == 0u8 && d[6] == 0u8 && d[7] == (ss.len() + 1) as u8);
    lemma_u30_one_byte(d, 4);
    lemma_u30_one_byte(d, 5);
    lemma_u30_one_byte(d, 6);
    lemma_u30_one_byte(d, 7);
    assert(pool_entries(0u32) == 0);
    assert(doubles_end(d, 7, 0) == 7);
    assert(pool_entries((ss.len() + 1) as u32) == ss.len());
    let enc = string_pool_bytes(ss);
    assert(d.subrange(8, 8 + enc.len() as int) =~= enc) by {
        assert forall|x: int| 0 <= x < enc.len() implies d[8 + x] == enc[x] by {
            assert(d[8 + x] == (head + seq![0u8, 0u8, 0u8, (ss.len() + 1) as u8] + enc)[8 + x]);
        }
    }
    lemma_string_pool_read(d, 8, ss);
}

/// A CXFORM record is its two term flags and a four-bit width, then three fields (red, green,
/// blue) of that width for each term present, padded to whole bytes.
pub proof fn law_cxform_spans_three_fields_per_term(data: Seq<u8>, pos: int)
    requires
        0 <= pos < data.len(),
    ensures
        ({
            let b = data[pos] as int;
            let terms = b / 128 + (b / 64) % 2;
            let width = (b / 4) % 16;
            cxform_bytes(data, pos) == (6 + 3 * terms * width + 7) / 8
        }),
{
    let b = data[pos];
    assert((b >> 7u8) & 1u8 == b / 128) by (bit_vector);
    assert((b >> 6u8) & 1u8 == (b / 64) % 2) by (bit_vector);
    assert((b >> 2u8) & 0x0Fu8 == (b / 4) % 16) by (bit_vector);
    let add = (b / 128) as int;
    let mult = ((b / 64) % 2) as int;
    let width = ((b / 4) % 16) as int;
    assert(width * ((add + mult) * 3) == 3 * (add + mult) * width) by (nonlinear_arith);
}

/// The bytes of a namespace pool's entries: each one's kind byte and its name index (below 128).
pub open spec fn namespace_pool_bytes(entries: Seq<(u8, u8)>) -> Seq<u8>
    decreases entries.len(),
{
    if entries.len() == 0 {
        Seq::empty()
    } else {
        seq![entries[0].0, entries[0].1] + namespace_pool_bytes(entries.drop_first())
    }
}

proof fn lemma_namespace_pool_read(
    data: Seq<u8>,
    strings: Seq<Seq<char>>,
    pos: int,
    entries: Seq<(u8, u8)>,
)
    requires
        0 <= pos,
        pos + namespace_pool_bytes(entries).len() <= data.len(),
        data.subrange(pos, pos + namespace_pool_bytes(entries).len()) == namespace_pool_bytes(entries),
        forall|i: int| 0 <= i < entries.len() ==> #[trigger] entries[i].1 < 128,
    ensures
        abc_namespaces_from(data, strings, pos, entries.len()).0 == Seq::new(
            entries.len(),
            |i: int| pool_lookup(strings, entries[i].1 as int),
        ),
    decreases entries.len(),
{
    if entries.len() > 0 {
        let e0 = entries[0];
        let rest = entries.drop_first();
        let enc = namespace_pool_bytes(entries);
        assert(enc == seq![e0.0, e0.1] + namespace_pool_bytes(rest));
        assert(data[pos + 1] == enc[1]);
        assert(e0.1 < 128);
        lemma_u30_one_byte(data, pos + 1);
        let np = pos + 2;
        assert(data.subrange(np, np + namespace_pool_bytes(rest).len()) =~= namespace_pool_bytes(rest))
            by {
            assert forall|x: int| 0 <= x < namespace_pool_bytes(rest).len() implies data[np + x]
                == namespace_pool_bytes(rest)[x] by {
                assert(data[np + x] == enc[2 + x]);
            }
        }
        assert forall|i: int| 0 <= i < rest.len() implies #[trigger] rest[i].1 < 128 by {
            assert(rest[i] == entries[i + 1]);
        }
        lemma_namespace_pool_read(data, strings, np, rest);
        assert(Seq::new(entries.len(), |i: int| pool_lookup(strings, entries[i].1 as int)) =~= seq![
            pool_lookup(strings, e0.1 as int),
        ] + Seq::new(rest.len(), |i: int| pool_lookup(strings, rest[i].1 as int)));
    } else {
        assert(Seq::new(entries.len(), |i: int| pool_lookup(strings, entries[i].1 as int))
            =~= Seq::<Seq<char>>::empty());
    }
}

/// The namespace pool holds one entry fewer than the count it declares, each a kind byte and the
/// index of its name in the string pool: after the implicit empty entry 0 come the names of the
/// `c - 1` entries that follow the count, looked up in the string pool (an index past its end
/// names the empty string).
pub proof fn law_namespace_pool_holds_count_minus_one(
    head: Seq<u8>,
    ss: Seq<Seq<u8>>,
    entries: Seq<(u8, u8)>,
    tail: Seq<u8>,
)
    requires
        head.len() == 4,
        ss.len() < 127,
        entries.len() < 127,
        forall|i: int| 0 <= i < ss.len() ==> #[trigger] ss[i].len() < 128,
        forall|i: int| 0 <= i < entries.len() ==> #[trigger] entries[i].1 < 128,
    ensures
        ({
            let data = head + seq![0u8, 0u8, 0u8, (ss.len() + 1) as u8] + string_pool_bytes(ss) + seq![
                (entries.len() + 1) as u8,
            ] + namespace_pool_bytes(entries) + tail;
            let strings = seq![Seq::<char>::empty()] + Seq::new(ss.len(), |i: int| utf8_lossy(ss[i]));
            abc_pools(data).1 == seq![Seq::<char>::empty()] + Seq::new(
                entries.len(),
                |i: int| pool_lookup(strings, entries[i].1 as int),
            )
        }),
{
    let enc = string_pool_bytes(ss);
    let nenc = namespace_pool_bytes(entries);
    let data = head + seq![0u8, 0u8, 0u8, (ss.len() + 1) as u8] + enc + seq![(entries.len() + 1) as u8]
        + nenc + tail;
    let strings = seq![Seq::<char>::empty()] + Seq::new(ss.len(), |i: int| utf8_lossy(ss[i]));
    assert(data[4] == 0u8 && data[5] == 0u8 && data[6] == 0u8 && data[7] == (ss.len() + 1) as u8);
    lemma_u30_one_byte(data, 4);
    lemma_u30_one_byte(data, 5);
    lemma_u30_one_byte(data, 6);
    lemma_u30_one_byte(data, 7);
    assert(pool_entries(0u32) == 0);
    assert(doubles_end(data, 7, 0) == 7);
    assert(pool_entries((ss.len() + 1) as u32) == ss.len());
    assert(data.subrange(8, 8 + enc.len() as int) =~= enc) by {
        assert forall|x: int| 0 <= x < enc.len() implies data[8 + x] == enc[x] by {
            assert(data[8 + x] == (head + seq![0u8, 0u8, 0u8, (ss.len() + 1) as u8] + enc)[8 + x]);
        }
    }
    lemma_string_pool_read(data, 8, ss);
    let p4: int = 8 + enc.len() as int;
    assert(data[p4] == (entries.len() + 1) as u8);
    lemma_u30_one_byte(data, p4);
    assert(pool_entries((entries.len() + 1) as u32) == entries.len());
    assert(data.subrange(p4 + 1, p4 + 1 + nenc.len() as int) =~= nenc) by {
        assert forall|x: int| 0 <= x < nenc.len() implies data[p4 + 1 + x] == nenc[x] by {
            assert(data[p4 + 1 + x] == (head + seq![0u8, 0u8, 0u8, (ss.len() + 1) as u8] + enc
                + seq![(entries.len() + 1) as u8] + nenc)[p4 + 1 + x]);
        }
    }
    lemma_namespace_pool_read(data, strings, p4 + 1, entries);
}

} // verus!
