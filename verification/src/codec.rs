//! Symbol-table codec: a lossless binary serialization of the table and the
//! compressed transport form of it.
//!
//! The serialization is this library's own format — a little-endian record
//! count, then per record the address, the never-returns flag byte, the name
//! length and the name's code points, four bytes each — proved to round-trip
//! exactly. Only this library's decoder reads a blob produced here.

use vstd::prelude::*;

use crate::symbols::{DebugSymbolInfo, SymRec};
use crate::text::push_char;

verus! {

/// Little-endian bytes of a 32-bit value.
pub open spec fn le32(n: u32) -> Seq<u8> {
    seq![
        (n & 0xFF) as u8,
        ((n >> 8) & 0xFF) as u8,
        ((n >> 16) & 0xFF) as u8,
        ((n >> 24) & 0xFF) as u8,
    ]
}

/// Little-endian bytes of a 64-bit value.
pub open spec fn le64(n: u64) -> Seq<u8> {
    seq![
        (n & 0xFF) as u8,
        ((n >> 8) & 0xFF) as u8,
        ((n >> 16) & 0xFF) as u8,
        ((n >> 24) & 0xFF) as u8,
        ((n >> 32) & 0xFF) as u8,
        ((n >> 40) & 0xFF) as u8,
        ((n >> 48) & 0xFF) as u8,
        ((n >> 56) & 0xFF) as u8,
    ]
}

/// The 32-bit value held little-endian at position `pos`.
pub open spec fn u32_at(b: Seq<u8>, pos: int) -> u32
    recommends
        0 <= pos,
        pos + 4 <= b.len(),
{
    (b[pos] as u32) | ((b[pos + 1] as u32) << 8) | ((b[pos + 2] as u32) << 16) | ((b[pos + 3]
        as u32) << 24)
}

/// The 64-bit value held little-endian at position `pos`.
pub open spec fn u64_at(b: Seq<u8>, pos: int) -> u64
    recommends
        0 <= pos,
        pos + 8 <= b.len(),
{
    (b[pos] as u64) | ((b[pos + 1] as u64) << 8) | ((b[pos + 2] as u64) << 16) | ((b[pos + 3]
        as u64) << 24) | ((b[pos + 4] as u64) << 32) | ((b[pos + 5] as u64) << 40) | ((b[pos + 6]
        as u64) << 48) | ((b[pos + 7] as u64) << 56)
}

/// Reading four little-endian bytes gives back the written value.
pub proof fn lemma_le32_inverse(b: Seq<u8>, pos: int, n: u32)
    requires
        0 <= pos,
        pos + 4 <= b.len(),
        b.subrange(pos, pos + 4) == le32(n),
    ensures
        u32_at(b, pos) == n,
{
    let b0 = b[pos];
    let b1 = b[pos + 1];
    let b2 = b[pos + 2];
    let b3 = b[pos + 3];
    assert(b0 == le32(n)[0] && b1 == le32(n)[1] && b2 == le32(n)[2] && b3 == le32(n)[3]) by {
        assert(b.subrange(pos, pos + 4)[0] == b0);
        assert(b.subrange(pos, pos + 4)[1] == b1);
        assert(b.subrange(pos, pos + 4)[2] == b2);
        assert(b.subrange(pos, pos + 4)[3] == b3);
    }
    assert(((b0 as u32) | ((b1 as u32) << 8) | ((b2 as u32) << 16) | ((b3 as u32) << 24)) == n)
        by (bit_vector)
        requires
            b0 == (n & 0xFF) as u8,
            b1 == ((n >> 8) & 0xFF) as u8,
            b2 == ((n >> 16) & 0xFF) as u8,
            b3 == ((n >> 24) & 0xFF) as u8,
    ;
}

/// Reading eight little-endian bytes gives back the written value.
pub proof fn lemma_le64_inverse(b: Seq<u8>, pos: int, n: u64)
    requires
        0 <= pos,
        pos + 8 <= b.len(),
        b.subrange(pos, pos + 8) == le64(n),
    ensures
        u64_at(b, pos) == n,
{
    let b0 = b[pos];
    let b1 = b[pos + 1];
    let b2 = b[pos + 2];
    let b3 = b[pos + 3];
    let b4 = b[pos + 4];
    let b5 = b[pos + 5];
    let b6 = b[pos + 6];
    let b7 = b[pos + 7];
    assert(b0 == le64(n)[0] && b1 == le64(n)[1] && b2 == le64(n)[2] && b3 == le64(n)[3] && b4
        == le64(n)[4] && b5 == le64(n)[5] && b6 == le64(n)[6] && b7 == le64(n)[7]) by {
        assert(b.subrange(pos, pos + 8)[0] == b0);
        assert(b.subrange(pos, pos + 8)[1] == b1);
        assert(b.subrange(pos, pos + 8)[2] == b2);
        assert(b.subrange(pos, pos + 8)[3] == b3);
        assert(b.subrange(pos, pos + 8)[4] == b4);
        assert(b.subrange(pos, pos + 8)[5] == b5);
        assert(b.subrange(pos, pos + 8)[6] == b6);
        assert(b.subrange(pos, pos + 8)[7] == b7);
    }
    assert(((b0 as u64) | ((b1 as u64) << 8) | ((b2 as u64) << 16) | ((b3 as u64) << 24) | ((b4
        as u64) << 32) | ((b5 as u64) << 40) | ((b6 as u64) << 48) | ((b7 as u64) << 56)) == n)
        by (bit_vector)
        requires
            b0 == (n & 0xFF) as u8,
            b1 == ((n >> 8) & 0xFF) as u8,
            b2 == ((n >> 16) & 0xFF) as u8,
            b3 == ((n >> 24) & 0xFF) as u8,
            b4 == ((n >> 32) & 0xFF) as u8,
            b5 == ((n >> 40) & 0xFF) as u8,
            b6 == ((n >> 48) & 0xFF) as u8,
            b7 == ((n >> 56) & 0xFF) as u8,
    ;
}

/// The bytes of a name: each character's code point, four bytes each.
pub open spec fn name_bytes(s: Seq<char>) -> Seq<u8>
    decreases s.len(),
{
    if s.len() == 0 {
        Seq::empty()
    } else {
        le32(s[0] as u32) + name_bytes(s.drop_first())
    }
}

proof fn lemma_name_bytes_snoc(s: Seq<char>, c: char)
    ensures
        name_bytes(s.push(c)) == name_bytes(s) + le32(c as u32),
    decreases s.len(),
{
    reveal_with_fuel(name_bytes, 2);
    if s.len() == 0 {
        assert(s.push(c)[0] == c);
        assert(s.push(c).drop_first() =~= Seq::<char>::empty());
        assert(name_bytes(s.push(c)) =~= name_bytes(s) + le32(c as u32));
    } else {
        assert(s.push(c)[0] == s[0]);
        assert(s.push(c).drop_first() =~= s.drop_first().push(c));
        lemma_name_bytes_snoc(s.drop_first(), c);
        assert(name_bytes(s.push(c)) =~= name_bytes(s) + le32(c as u32));
    }
}

/// Every name byte sequence is four bytes per character.
pub proof fn lemma_name_bytes_len(s: Seq<char>)
    ensures
        name_bytes(s).len() == 4 * s.len(),
    decreases s.len(),
{
    if s.len() > 0 {
        lemma_name_bytes_len(s.drop_first());
    }
}

/// The bytes of one record: address, never-returns flag byte, name length,
/// then the name's characters.
pub open spec fn record_bytes(r: SymRec) -> Seq<u8> {
    le32(r.address) + seq![if r.noreturn { 1u8 } else { 0u8 }] + le64(r.name.len() as u64)
        + name_bytes(r.name)
}

/// The bytes of a sequence of records, in order.
pub open spec fn records_bytes(t: Seq<SymRec>) -> Seq<u8>
    decreases t.len(),
{
    if t.len() == 0 {
        Seq::empty()
    } else {
        record_bytes(t[0]) + records_bytes(t.drop_first())
    }
}

proof fn lemma_records_bytes_snoc(t: Seq<SymRec>, r: SymRec)
    ensures
        records_bytes(t.push(r)) == records_bytes(t) + record_bytes(r),
    decreases t.len(),
{
    reveal_with_fuel(records_bytes, 2);
    if t.len() == 0 {
        assert(t.push(r)[0] == r);
        assert(t.push(r).drop_first() =~= Seq::<SymRec>::empty());
        assert(records_bytes(t.push(r)) =~= records_bytes(t) + record_bytes(r));
    } else {
        assert(t.push(r)[0] == t[0]);
        assert(t.push(r).drop_first() =~= t.drop_first().push(r));
        lemma_records_bytes_snoc(t.drop_first(), r);
        assert(records_bytes(t.push(r)) =~= records_bytes(t) + record_bytes(r));
    }
}

/// The serialized table: the record count, then each record in order.
pub open spec fn serialized(t: Seq<SymRec>) -> Seq<u8> {
    le64(t.len() as u64) + records_bytes(t)
}

/// Appends the little-endian bytes of a 32-bit value.
fn push_le32(out: &mut Vec<u8>, n: u32)
    ensures
        final(out)@ == old(out)@ + le32(n),
{
    proof {
        assert(n & 0xFF < 256 && (n >> 8) & 0xFF < 256 && (n >> 16) & 0xFF < 256 && (n >> 24)
            & 0xFF < 256) by (bit_vector);
    }
    out.push((n & 0xFF) as u8);
    out.push(((n >> 8) & 0xFF) as u8);
    out.push(((n >> 16) & 0xFF) as u8);
    out.push(((n >> 24) & 0xFF) as u8);
    proof {
        assert(out@ =~= old(out)@ + le32(n));
    }
}

/// Appends the little-endian bytes of a 64-bit value.
fn push_le64(out: &mut Vec<u8>, n: u64)
    ensures
        final(out)@ == old(out)@ + le64(n),
{
    proof {
        assert(n & 0xFF < 256 && (n >> 8) & 0xFF < 256 && (n >> 16) & 0xFF < 256 && (n >> 24)
            & 0xFF < 256 && (n >> 32) & 0xFF < 256 && (n >> 40) & 0xFF < 256 && (n >> 48) & 0xFF
            < 256 && (n >> 56) & 0xFF < 256) by (bit_vector);
    }
    out.push((n & 0xFF) as u8);
    out.push(((n >> 8) & 0xFF) as u8);
    out.push(((n >> 16) & 0xFF) as u8);
    out.push(((n >> 24) & 0xFF) as u8);
    out.push(((n >> 32) & 0xFF) as u8);
    out.push(((n >> 40) & 0xFF) as u8);
    out.push(((n >> 48) & 0xFF) as u8);
    out.push(((n >> 56) & 0xFF) as u8);
    proof {
        assert(out@ =~= old(out)@ + le64(n));
    }
}

/// Appends the four-bytes-per-character encoding of a name.
fn push_name(out: &mut Vec<u8>, s: &str)
    ensures
        final(out)@ == old(out)@ + name_bytes(s@),
{
    let n: usize = s.unicode_len();
    let mut k: usize = 0;
    proof {
        assert(s@.take(0) =~= Seq::<char>::empty());
        assert(out@ =~= old(out)@ + name_bytes(s@.take(0)));
    }
    while k < n
        invariant
            k <= n,
            n == s@.len(),
            out@ == old(out)@ + name_bytes(s@.take(k as int)),
        decreases n - k,
    {
        let c = s.get_char(k);
        push_le32(out, c as u32);
        proof {
            assert(s@.take(k as int + 1) =~= s@.take(k as int).push(s@[k as int]));
            lemma_name_bytes_snoc(s@.take(k as int), s@[k as int]);
            assert(out@ =~= old(out)@ + name_bytes(s@.take(k as int + 1)));
        }
        k = k + 1;
    }
    proof {
        assert(s@.take(n as int) =~= s@);
    }
}

/// Serializes a symbol sequence into its exact binary form.
pub fn serialize_symbols(syms: &Vec<DebugSymbolInfo>) -> (r: Vec<u8>)
    ensures
        r@ == serialized(syms@.map_values(|d: DebugSymbolInfo| d@)),
{
    let ghost t = syms@.map_values(|d: DebugSymbolInfo| d@);
    let mut out: Vec<u8> = Vec::new();
    push_le64(&mut out, syms.len() as u64);
    let ghost head = out@;
    let mut i: usize = 0;
    proof {
        assert(head =~= Seq::<u8>::empty() + le64(t.len() as u64));
        assert(t.take(0) =~= Seq::<SymRec>::empty());
        assert(out@ =~= head + records_bytes(t.take(0)));
    }
    while i < syms.len()
        invariant
            i <= syms.len(),
            t == syms@.map_values(|d: DebugSymbolInfo| d@),
            head == le64(t.len() as u64),
            out@ == head + records_bytes(t.take(i as int)),
        decreases syms.len() - i,
    {
        let d = &syms[i];
        let ghost out0 = out@;
        proof {
            assert(syms@.map_values(|x: DebugSymbolInfo| x@)[i as int] == syms@[i as int]@);
            assert(t[i as int] == d@);
        }
        push_le32(&mut out, d.address);
        out.push(if d.noreturn {
            1u8
        } else {
            0u8
        });
        let nlen: usize = d.name.as_str().unicode_len();
        push_le64(&mut out, nlen as u64);
        push_name(&mut out, d.name.as_str());
        proof {
            assert(out@ =~= out0 + record_bytes(t[i as int]));
            assert(t.take(i as int + 1) =~= t.take(i as int).push(t[i as int]));
            lemma_records_bytes_snoc(t.take(i as int), t[i as int]);
            assert(out@ =~= head + records_bytes(t.take(i as int + 1)));
        }
        i = i + 1;
    }
    proof {
        assert(t.take(syms@.len() as int) =~= t);
        assert(out@ =~= serialized(t));
    }
    out
}

/// Relies on `char::from_u32`: every `u32` converts to a `char` unless it is
/// a surrogate or above the largest code point, and the conversion keeps the
/// numeric value.
pub assume_specification[ char::from_u32 ](u: u32) -> (r: Option<char>)
    ensures
        r matches Some(c) ==> c as u32 == u,
        r is Some <==> vstd::utf8::is_scalar(u),
;

/// Spec-level parse of `n` characters held four bytes each at `pos`.
pub open spec fn parse_chars_at(b: Seq<u8>, pos: int, n: nat) -> Option<(Seq<char>, int)>
    decreases n,
{
    if n == 0 {
        Some((Seq::empty(), pos))
    } else if 0 <= pos && pos + 4 <= b.len() {
        let u = u32_at(b, pos);
        if vstd::utf8::is_scalar(u) {
            match parse_chars_at(b, pos + 4, (n - 1) as nat) {
                Some(sp) => Some((seq![u as char] + sp.0, sp.1)),
                None => None,
            }
        } else {
            None
        }
    } else {
        None
    }
}

/// Spec-level parse of one record at `pos`.
pub open spec fn parse_record_at(b: Seq<u8>, pos: int) -> Option<(SymRec, int)> {
    if 0 <= pos && pos + 13 <= b.len() {
        let address = u32_at(b, pos);
        let flag = b[pos + 4];
        let nlen = u64_at(b, pos + 5);
        if flag == 0 || flag == 1 {
            match parse_chars_at(b, pos + 13, nlen as nat) {
                Some(np) => Some((SymRec { address, name: np.0, noreturn: flag == 1 }, np.1)),
                None => None,
            }
        } else {
            None
        }
    } else {
        None
    }
}

/// Spec-level parse of `n` records at `pos`.
pub open spec fn parse_records_at(b: Seq<u8>, pos: int, n: nat) -> Option<(Seq<SymRec>, int)>
    decreases n,
{
    if n == 0 {
        Some((Seq::empty(), pos))
    } else {
        match parse_record_at(b, pos) {
            Some(rp) => match parse_records_at(b, rp.1, (n - 1) as nat) {
                Some(tp) => Some((seq![rp.0] + tp.0, tp.1)),
                None => None,
            },
            None => None,
        }
    }
}

/// Spec-level decoder: the exact inverse of `serialized`. A blob that is not
/// the serialization of a record sequence, or that carries trailing bytes,
/// is refused.
pub open spec fn parse_table(b: Seq<u8>) -> Option<Seq<SymRec>> {
    if b.len() >= 8 {
        match parse_records_at(b, 8, u64_at(b, 0) as nat) {
            Some(tp) => if tp.1 == b.len() {
                Some(tp.0)
            } else {
                None
            },
            None => None,
        }
    } else {
        None
    }
}

proof fn lemma_parse_chars_of_name(b: Seq<u8>, pos: int, s: Seq<char>)
    requires
        0 <= pos,
        pos + 4 * s.len() <= b.len(),
        b.subrange(pos, pos + 4 * s.len()) == name_bytes(s),
    ensures
        parse_chars_at(b, pos, s.len()) == Some((s, pos + 4 * s.len())),
    decreases s.len(),
{
    lemma_name_bytes_len(s);
    if s.len() > 0 {
        lemma_name_bytes_len(s.drop_first());
        let u = s[0] as u32;
        assert(b.subrange(pos, pos + 4) =~= le32(u)) by {
            assert forall|k: int| 0 <= k < 4 implies b.subrange(pos, pos + 4)[k] == le32(u)[k] by {
                assert(b.subrange(pos, pos + 4 * s.len())[k] == b[pos + k]);
                assert(name_bytes(s)[k] == le32(u)[k]);
            }
        }
        lemma_le32_inverse(b, pos, u);
        vstd::utf8::char_is_scalar(s[0]);
        vstd::utf8::char_u32_cast(s[0], u);
        assert(b.subrange(pos + 4, pos + 4 + 4 * s.drop_first().len()) =~= name_bytes(
            s.drop_first(),
        )) by {
            assert forall|k: int| 0 <= k < 4 * s.drop_first().len() implies b.subrange(
                pos + 4,
                pos + 4 + 4 * s.drop_first().len(),
            )[k] == name_bytes(s.drop_first())[k] by {
                assert(b.subrange(pos, pos + 4 * s.len())[k + 4] == b[pos + 4 + k]);
                assert(name_bytes(s)[k + 4] == name_bytes(s.drop_first())[k]);
            }
        }
        lemma_parse_chars_of_name(b, pos + 4, s.drop_first());
        assert(seq![s[0]] + s.drop_first() =~= s);
    }
}

proof fn lemma_parse_record_of(b: Seq<u8>, pos: int, r: SymRec)
    requires
        r.name.len() <= u64::MAX,
        0 <= pos,
        pos + record_bytes(r).len() <= b.len(),
        b.subrange(pos, pos + record_bytes(r).len()) == record_bytes(r),
    ensures
        parse_record_at(b, pos) == Some((r, pos + record_bytes(r).len())),
{
    let rb = record_bytes(r);
    lemma_name_bytes_len(r.name);
    assert(rb.len() == 13 + 4 * r.name.len());
    assert forall|k: int| 0 <= k < rb.len() implies b[pos + k] == rb[k] by {
        assert(b.subrange(pos, pos + rb.len())[k] == b[pos + k]);
    }
    assert(b.subrange(pos, pos + 4) =~= le32(r.address)) by {
        assert forall|k: int| 0 <= k < 4 implies b.subrange(pos, pos + 4)[k] == le32(
            r.address,
        )[k] by {
            assert(b[pos + k] == rb[k]);
        }
    }
    lemma_le32_inverse(b, pos, r.address);
    let flag: u8 = if r.noreturn {
        1u8
    } else {
        0u8
    };
    assert(rb[4] == flag) by {
        assert((le32(r.address) + seq![flag])[4] == flag);
        assert(((le32(r.address) + seq![flag]) + le64(r.name.len() as u64))[4] == flag);
    }
    assert(b[pos + 4] == flag);
    assert(b.subrange(pos + 5, pos + 13) =~= le64(r.name.len() as u64)) by {
        assert forall|k: int| 0 <= k < 8 implies #[trigger] b.subrange(pos + 5, pos + 13)[k]
            == le64(r.name.len() as u64)[k] by {
            assert(b[pos + 5 + k] == rb[5 + k]);
        }
    }
    lemma_le64_inverse(b, pos + 5, r.name.len() as u64);
    assert((r.name.len() as u64) as nat == r.name.len());
    assert(b.subrange(pos + 13, pos + 13 + 4 * r.name.len()) =~= name_bytes(r.name)) by {
        assert forall|k: int| 0 <= k < 4 * r.name.len() implies b.subrange(
            pos + 13,
            pos + 13 + 4 * r.name.len(),
        )[k] == name_bytes(r.name)[k] by {
            assert(b[pos + 13 + k] == rb[13 + k]);
            assert(rb[13 + k] == name_bytes(r.name)[k]);
        }
    }
    lemma_parse_chars_of_name(b, pos + 13, r.name);
    assert(SymRec { address: r.address, name: r.name, noreturn: flag == 1 } == r);
}

proof fn lemma_parse_records_of(b: Seq<u8>, pos: int, t: Seq<SymRec>)
    requires
        forall|i: int| 0 <= i < t.len() ==> (#[trigger] t[i]).name.len() <= u64::MAX,
        0 <= pos,
        pos + records_bytes(t).len() <= b.len(),
        b.subrange(pos, pos + records_bytes(t).len()) == records_bytes(t),
    ensures
        parse_records_at(b, pos, t.len()) == Some((t, pos + records_bytes(t).len())),
    decreases t.len(),
{
    if t.len() > 0 {
        let rb = record_bytes(t[0]);
        let rest = records_bytes(t.drop_first());
        assert(records_bytes(t) == rb + rest);
        assert forall|k: int| 0 <= k < records_bytes(t).len() implies b[pos + k] == records_bytes(
            t,
        )[k] by {
            assert(b.subrange(pos, pos + records_bytes(t).len())[k] == b[pos + k]);
        }
        assert(b.subrange(pos, pos + rb.len()) =~= rb) by {
            assert forall|k: int| 0 <= k < rb.len() implies b.subrange(pos, pos + rb.len())[k]
                == rb[k] by {
                assert(b[pos + k] == records_bytes(t)[k]);
            }
        }
        lemma_parse_record_of(b, pos, t[0]);
        assert(b.subrange(pos + rb.len(), pos + rb.len() + rest.len()) =~= rest) by {
            assert forall|k: int| 0 <= k < rest.len() implies b.subrange(
                pos + rb.len(),
                pos + rb.len() + rest.len(),
            )[k] == rest[k] by {
                assert(b[pos + rb.len() + k] == records_bytes(t)[rb.len() + k]);
            }
        }
        assert(forall|i: int|
            0 <= i < t.drop_first().len() ==> (#[trigger] t.drop_first()[i]).name.len()
                <= u64::MAX) by {
            assert(forall|i: int| 0 <= i < t.drop_first().len() ==> t.drop_first()[i] == t[i + 1]);
        }
        lemma_parse_records_of(b, pos + rb.len(), t.drop_first());
        assert(seq![t[0]] + t.drop_first() =~= t);
    }
}

/// Law: decoding the serialization of any record sequence gives back exactly
/// that sequence (the byte-level encode-then-decode round trip).
pub proof fn lemma_serialized_round_trip(t: Seq<SymRec>)
    requires
        t.len() <= u64::MAX,
        forall|i: int| 0 <= i < t.len() ==> (#[trigger] t[i]).name.len() <= u64::MAX,
    ensures
        parse_table(serialized(t)) == Some(t),
{
    let b = serialized(t);
    assert(b.subrange(0, 8) =~= le64(t.len() as u64));
    lemma_le64_inverse(b, 0, t.len() as u64);
    assert((t.len() as u64) as nat == t.len());
    assert(b.subrange(8, 8 + records_bytes(t).len() as int) =~= records_bytes(t));
    lemma_parse_records_of(b, 8, t);
    assert(8 + records_bytes(t).len() == b.len());
}

/// Reads the 32-bit little-endian value at `pos`.
fn read_u32(b: &Vec<u8>, pos: usize) -> (n: u32)
    requires
        pos + 4 <= b@.len(),
    ensures
        n == u32_at(b@, pos as int),
{
    let blen: usize = b.len();
    (b[pos] as u32) | ((b[pos + 1] as u32) << 8) | ((b[pos + 2] as u32) << 16) | ((b[pos + 3]
        as u32) << 24)
}

/// Reads the 64-bit little-endian value at `pos`.
fn read_u64(b: &Vec<u8>, pos: usize) -> (n: u64)
    requires
        pos + 8 <= b@.len(),
    ensures
        n == u64_at(b@, pos as int),
{
    let blen: usize = b.len();
    (b[pos] as u64) | ((b[pos + 1] as u64) << 8) | ((b[pos + 2] as u64) << 16) | ((b[pos + 3]
        as u64) << 24) | ((b[pos + 4] as u64) << 32) | ((b[pos + 5] as u64) << 40) | ((b[pos + 6]
        as u64) << 48) | ((b[pos + 7] as u64) << 56)
}

/// Parses `n` characters at `pos`, exactly as the spec-level parser does.
fn parse_name_exec(b: &Vec<u8>, pos: usize, n: u64) -> (r: Option<(String, usize)>)
    requires
        pos <= b@.len(),
    ensures
        match r {
            Some(sp) => parse_chars_at(b@, pos as int, n as nat) == Some((sp.0@, sp.1 as int))
                && pos <= sp.1 <= b@.len(),
            None => parse_chars_at(b@, pos as int, n as nat) is None,
        },
{
    let mut acc = String::new();
    let mut p: usize = pos;
    let mut rem: u64 = n;
    loop
        invariant
            pos <= p <= b@.len(),
            rem <= n,
            parse_chars_at(b@, pos as int, n as nat) == match parse_chars_at(
                b@,
                p as int,
                rem as nat,
            ) {
                Some(sq) => Some::<(Seq<char>, int)>((acc@ + sq.0, sq.1)),
                None => None::<(Seq<char>, int)>,
            },
        decreases rem,
    {
        if rem == 0 {
            proof {
                assert(acc@ + Seq::<char>::empty() =~= acc@);
            }
            return Some((acc, p));
        }
        if b.len() - p < 4 {
            return None;
        }
        let u = read_u32(b, p);
        match char::from_u32(u) {
            Some(c) => {
                let ghost acc0 = acc@;
                push_char(&mut acc, c);
                proof {
                    vstd::utf8::char_u32_cast(c, u);
                    let tail = parse_chars_at(b@, p as int + 4, (rem - 1) as nat);
                    match tail {
                        Some(sq) => {
                            assert(parse_chars_at(b@, p as int, rem as nat) == Some::<
                                (Seq<char>, int),
                            >((seq![u as char] + sq.0, sq.1)));
                            assert(acc0 + (seq![c] + sq.0) =~= acc0.push(c) + sq.0);
                        },
                        None => {
                            assert(parse_chars_at(b@, p as int, rem as nat) is None);
                        },
                    }
                }
                p = p + 4;
                rem = rem - 1;
            },
            None => {
                proof {
                    assert(parse_chars_at(b@, p as int, rem as nat) is None);
                }
                return None;
            },
        }
    }
}

/// Parses one record at `pos`, exactly as the spec-level parser does.
fn parse_record_exec(b: &Vec<u8>, pos: usize) -> (r: Option<(DebugSymbolInfo, usize)>)
    requires
        pos <= b@.len(),
    ensures
        match r {
            Some(dp) => parse_record_at(b@, pos as int) == Some((dp.0@, dp.1 as int)) && pos
                <= dp.1 <= b@.len(),
            None => parse_record_at(b@, pos as int) is None,
        },
{
    if b.len() - pos < 13 {
        return None;
    }
    let address = read_u32(b, pos);
    let flag = b[pos + 4];
    let nlen = read_u64(b, pos + 5);
    if flag > 1 {
        return None;
    }
    match parse_name_exec(b, pos + 13, nlen) {
        Some(sp) => {
            let (name, p) = sp;
            Some((DebugSymbolInfo { address, name, noreturn: flag == 1 }, p))
        },
        None => None,
    }
}

/// Deserializes a binary table; a blob that is not the exact serialization
/// of a record sequence is refused.
pub fn deserialize_symbols(b: &Vec<u8>) -> (r: Option<Vec<DebugSymbolInfo>>)
    ensures
        match r {
            Some(v) => parse_table(b@) == Some(v@.map_values(|d: DebugSymbolInfo| d@)),
            None => parse_table(b@) is None,
        },
{
    if b.len() < 8 {
        return None;
    }
    let n = read_u64(b, 0);
    let mut out: Vec<DebugSymbolInfo> = Vec::new();
    let mut pos: usize = 8;
    let mut i: u64 = 0;
    proof {
        assert(out@.map_values(|d: DebugSymbolInfo| d@) =~= Seq::<SymRec>::empty());
    }
    while i < n
        invariant
            i <= n,
            8 <= pos <= b@.len(),
            n == u64_at(b@, 0),
            parse_records_at(b@, 8, n as nat) == match parse_records_at(
                b@,
                pos as int,
                (n - i) as nat,
            ) {
                Some(tp) => Some::<(Seq<SymRec>, int)>((
                    out@.map_values(|d: DebugSymbolInfo| d@) + tp.0,
                    tp.1,
                )),
                None => None::<(Seq<SymRec>, int)>,
            },
        decreases n - i,
    {
        let ghost out0 = out@;
        match parse_record_exec(b, pos) {
            Some(dp) => {
                let (d, p2) = dp;
                let ghost dv = d@;
                out.push(d);
                proof {
                    let tail = parse_records_at(b@, p2 as int, (n - i - 1) as nat);
                    match tail {
                        Some(tp) => {
                            assert(out0.map_values(|x: DebugSymbolInfo| x@) + (seq![dv] + tp.0)
                                =~= out0.map_values(|x: DebugSymbolInfo| x@).push(dv) + tp.0);
                            assert(out@.map_values(|x: DebugSymbolInfo| x@) =~= out0.map_values(
                                |x: DebugSymbolInfo| x@,
                            ).push(dv));
                        },
                        None => {},
                    }
                }
                pos = p2;
                i = i + 1;
            },
            None => {
                proof {
                    assert((n - i) as nat != 0);
                    assert(parse_records_at(b@, pos as int, (n - i) as nat) is None);
                    assert(parse_records_at(b@, 8, n as nat) is None);
                    assert(n as nat == u64_at(b@, 0) as nat);
                    assert(parse_table(b@) is None);
                }
                return None;
            },
        }
    }
    proof {
        assert(parse_records_at(b@, pos as int, 0) == Some::<(Seq<SymRec>, int)>((
            Seq::empty(),
            pos as int,
        )));
        assert(out@.map_values(|d: DebugSymbolInfo| d@) + Seq::<SymRec>::empty()
            =~= out@.map_values(|d: DebugSymbolInfo| d@));
        assert(parse_records_at(b@, 8, n as nat) == Some::<(Seq<SymRec>, int)>((
            out@.map_values(|d: DebugSymbolInfo| d@),
            pos as int,
        )));
    }
    if pos == b.len() {
        Some(out)
    } else {
        None
    }
}

/// What the byte-oriented decompressor gives back for a byte sequence:
/// the decompressed bytes of a well-formed frame, or nothing for a corrupt
/// one. Decompression depends on the input bytes alone.
pub uninterp spec fn decompress_of(b: Seq<u8>) -> Option<Seq<u8>>;

/// What the byte-oriented compressor produces for a byte sequence at the
/// fixed balanced effort level, or nothing where compression fails. The
/// result depends on the input bytes alone.
pub uninterp spec fn compress_of(b: Seq<u8>) -> Option<Seq<u8>>;

/// Relies on `zstd::stream::encode_all` at the fixed balanced level: what it
/// produces is a function of the input bytes alone, and a frame it produces
/// decodes back to exactly the input bytes (the compression is lossless).
#[verifier::external_body]
fn zstd_compress(b: &Vec<u8>) -> (r: Option<Vec<u8>>)
    ensures
        r is Some <==> compress_of(b@) is Some,
        r matches Some(c) ==> Some(c@) == compress_of(b@),
        r matches Some(c) ==> decompress_of(c@) == Some(b@),
{
    match zstd::encode_all(b.as_slice(), 3) {
        Ok(c) => Some(c),
        Err(_) => None,
    }
}

/// Relies on `zstd::stream::decode_all`: what it returns is a function of the
/// input bytes alone, and a corrupt frame is refused.
#[verifier::external_body]
fn zstd_decompress(b: &Vec<u8>) -> (r: Option<Vec<u8>>)
    ensures
        r matches Some(v) ==> decompress_of(b@) == Some(v@),
        r is None ==> decompress_of(b@) is None,
{
    match zstd::decode_all(b.as_slice()) {
        Ok(v) => Some(v),
        Err(_) => None,
    }
}

/// Serializes a symbol sequence and compresses it for transport: the blob is
/// exactly the compressed serialization, absent if and only if compression
/// fails, with no distinguishing diagnostic.
pub fn encode_symbols(syms: &Vec<DebugSymbolInfo>) -> (r: Option<Vec<u8>>)
    ensures
        r is Some <==> compress_of(serialized(syms@.map_values(|d: DebugSymbolInfo| d@))) is Some,
        r matches Some(blob) ==> Some(blob@) == compress_of(
            serialized(syms@.map_values(|d: DebugSymbolInfo| d@)),
        ),
        r matches Some(blob) ==> decompress_of(blob@) == Some(
            serialized(syms@.map_values(|d: DebugSymbolInfo| d@)),
        ),
{
    let ser = serialize_symbols(syms);
    zstd_compress(&ser)
}

/// Decompresses a transport blob and deserializes the table held in it: the
/// exact inverse of `encode_symbols`. Any corruption is a hard failure.
pub fn decode_symbols(blob: &Vec<u8>) -> (r: Option<Vec<DebugSymbolInfo>>)
    ensures
        decompress_of(blob@) is None ==> r is None,
        decompress_of(blob@) matches Some(p) ==> match parse_table(p) {
            Some(t) => r matches Some(v) && v@.map_values(|d: DebugSymbolInfo| d@) == t,
            None => r is None,
        },
{
    match zstd_decompress(blob) {
        Some(ser) => deserialize_symbols(&ser),
        None => None,
    }
}

} // verus!
