//! Character-sequence utilities: lexicographic order, string equality, and
//! building strings character by character.

use vstd::prelude::*;

verus! {

/// Lexicographic (code-point) strict order on character sequences.
pub open spec fn lex_lt(a: Seq<char>, b: Seq<char>) -> bool
    decreases a.len(),
{
    if b.len() == 0 {
        false
    } else if a.len() == 0 {
        true
    } else if a[0] != b[0] {
        (a[0] as u32) < (b[0] as u32)
    } else {
        lex_lt(a.drop_first(), b.drop_first())
    }
}

/// Lexicographic (code-point) reflexive order on character sequences.
pub open spec fn lex_le(a: Seq<char>, b: Seq<char>) -> bool {
    lex_lt(a, b) || a == b
}

/// The order is total: two sequences are equal or one is strictly smaller.
pub proof fn lemma_lex_total(a: Seq<char>, b: Seq<char>)
    ensures
        lex_lt(a, b) || lex_lt(b, a) || a == b,
    decreases a.len(),
{
    if b.len() == 0 {
        if a.len() == 0 {
            assert(a =~= b);
        }
    } else if a.len() == 0 {
    } else if a[0] != b[0] {
        vstd::utf8::char_u32_cast(a[0], a[0] as u32);
        vstd::utf8::char_u32_cast(b[0], b[0] as u32);
        assert((a[0] as u32) != (b[0] as u32));
    } else {
        lemma_lex_total(a.drop_first(), b.drop_first());
        if a.drop_first() == b.drop_first() {
            assert(a.drop_first().len() == a.len() - 1);
            assert(b.drop_first().len() == b.len() - 1);
            assert(a.len() == b.len());
            assert forall|j: int| 0 <= j < a.len() implies a[j] == b[j] by {
                if j > 0 {
                    assert(a[j] == a.drop_first()[j - 1]);
                    assert(b[j] == b.drop_first()[j - 1]);
                }
            }
            assert(a =~= b);
        }
    }
}

/// Cutting an equal prefix off both sequences does not change their order.
proof fn lemma_lex_lt_skip(a: Seq<char>, b: Seq<char>, i: int)
    requires
        0 <= i <= a.len(),
        i <= b.len(),
        forall|j: int| 0 <= j < i ==> a[j] == b[j],
    ensures
        lex_lt(a, b) == lex_lt(a.skip(i), b.skip(i)),
    decreases i,
{
    if i == 0 {
        assert(a.skip(0) =~= a);
        assert(b.skip(0) =~= b);
    } else {
        assert(a.len() > 0 && b.len() > 0 && a[0] == b[0]);
        lemma_lex_lt_skip(a.drop_first(), b.drop_first(), i - 1);
        assert(a.drop_first().skip(i - 1) =~= a.skip(i));
        assert(b.drop_first().skip(i - 1) =~= b.skip(i));
    }
}

/// Decides the strict lexicographic code-point order on two strings.
pub fn str_lex_lt(a: &str, b: &str) -> (r: bool)
    ensures
        r == lex_lt(a@, b@),
{
    let alen: usize = a.unicode_len();
    let blen: usize = b.unicode_len();
    let mut i: usize = 0;
    while i < alen && i < blen
        invariant
            i <= alen,
            i <= blen,
            alen == a@.len(),
            blen == b@.len(),
            forall|j: int| 0 <= j < i ==> a@[j] == b@[j],
        decreases alen - i,
    {
        let ca = a.get_char(i);
        let cb = b.get_char(i);
        if (ca as u32) < (cb as u32) {
            proof {
                lemma_lex_lt_skip(a@, b@, i as int);
                assert(lex_lt(a@.skip(i as int), b@.skip(i as int)));
            }
            return true;
        }
        if (cb as u32) < (ca as u32) {
            proof {
                vstd::utf8::char_u32_cast(ca, ca as u32);
                vstd::utf8::char_u32_cast(cb, cb as u32);
                lemma_lex_lt_skip(a@, b@, i as int);
                assert(!lex_lt(a@.skip(i as int), b@.skip(i as int)));
            }
            return false;
        }
        proof {
            vstd::utf8::char_u32_cast(ca, ca as u32);
            vstd::utf8::char_u32_cast(cb, cb as u32);
            assert(ca == cb);
        }
        i = i + 1;
    }
    proof {
        lemma_lex_lt_skip(a@, b@, i as int);
        if i == alen && alen < blen {
            assert(a@.skip(i as int).len() == 0);
            assert(b@.skip(i as int).len() > 0);
        }
        if alen == blen {
            assert(a@.skip(i as int).len() == 0 && b@.skip(i as int).len() == 0);
        }
        if i == blen && blen < alen {
            assert(b@.skip(i as int).len() == 0);
        }
    }
    alen < blen
}

/// Decides equality of two strings, as equality of their character sequences.
pub fn str_eq(a: &str, b: &str) -> (r: bool)
    ensures
        r == (a@ == b@),
{
    let alen: usize = a.unicode_len();
    let blen: usize = b.unicode_len();
    if alen != blen {
        return false;
    }
    let mut i: usize = 0;
    while i < alen
        invariant
            i <= alen,
            alen == a@.len(),
            alen == b@.len(),
            forall|j: int| 0 <= j < i ==> a@[j] == b@[j],
        decreases alen - i,
    {
        let ca = a.get_char(i);
        let cb = b.get_char(i);
        if (ca as u32) != (cb as u32) {
            proof {
                assert(a@[i as int] != b@[i as int] || ca == cb);
            }
            return false;
        }
        proof {
            vstd::utf8::char_u32_cast(ca, ca as u32);
            vstd::utf8::char_u32_cast(cb, cb as u32);
        }
        i = i + 1;
    }
    proof {
        assert(a@ =~= b@);
    }
    true
}


/// Relies on `String::push`: appends exactly the given character to the end.
#[verifier::external_body]
pub fn push_char(s: &mut String, c: char)
    ensures
        final(s)@ == old(s)@.push(c),
{
    s.push(c);
}

/// The sixteen lowercase hexadecimal digit characters, smallest first.
pub open spec fn hex_digit(d: nat) -> char
    recommends
        d < 16,
{
    seq!['0', '1', '2', '3', '4', '5', '6', '7', '8', '9', 'a', 'b', 'c', 'd', 'e', 'f'][d as int]
}

/// Unpadded lowercase hexadecimal rendering of a number, most significant
/// digit first.
pub open spec fn hex_seq(n: nat) -> Seq<char>
    decreases n,
{
    if n < 16 {
        seq![hex_digit(n)]
    } else {
        hex_seq(n / 16).push(hex_digit(n % 16))
    }
}

/// One lowercase hexadecimal digit character for a value below sixteen.
fn hex_digit_char(d: usize) -> (c: char)
    requires
        d < 16,
    ensures
        c == hex_digit(d as nat),
{
    let digits: [char; 16] = ['0', '1', '2', '3', '4', '5', '6', '7', '8', '9', 'a', 'b', 'c',
        'd', 'e', 'f'];
    digits[d]
}

/// Appends the unpadded lowercase hexadecimal rendering of `n` to `s`.
pub fn append_hex(s: &mut String, n: usize)
    ensures
        final(s)@ == old(s)@ + hex_seq(n as nat),
{
    append_hex_u64(s, n as u64);
}

/// Appends the unpadded lowercase hexadecimal rendering of `n` to `s`.
pub fn append_hex_u64(s: &mut String, n: u64)
    ensures
        final(s)@ == old(s)@ + hex_seq(n as nat),
{
    // Digits come out least significant first, so collect them and append
    // them in reverse afterwards.
    let mut digits: Vec<char> = Vec::new();
    let mut m: u64 = n;
    while m >= 16
        invariant
            hex_seq(n as nat) == hex_seq(m as nat) + digits@.reverse(),
        decreases m,
    {
        let ghost digits0 = digits@;
        digits.push(hex_digit_char((m % 16) as usize));
        proof {
            let d = hex_digit((m % 16) as nat);
            assert(digits@ =~= digits0.push(d));
            assert(digits@.reverse() =~= seq![d] + digits0.reverse());
            assert(hex_seq(m as nat) =~= hex_seq((m / 16) as nat).push(d));
            assert(hex_seq(m as nat) + digits0.reverse() =~= hex_seq((m / 16) as nat)
                + digits@.reverse());
            assert(hex_seq(n as nat) =~= hex_seq((m / 16) as nat) + digits@.reverse());
        }
        m = m / 16;
    }
    let ghost s0 = s@;
    push_char(s, hex_digit_char(m as usize));
    proof {
        assert(s@ =~= s0 + seq![hex_digit(m as nat)]);
    }
    let ghost digits1 = digits@;
    let mut k: usize = digits.len();
    proof {
        assert(digits1.subrange(k as int, digits1.len() as int).reverse() =~= Seq::<
            char,
        >::empty());
    }
    while k > 0
        invariant
            k <= digits1.len(),
            digits@ == digits1,
            s@ == s0 + seq![hex_digit(m as nat)] + digits1.subrange(
                k as int,
                digits1.len() as int,
            ).reverse(),
        decreases k,
    {
        let ghost sk = s@;
        k = k - 1;
        push_char(s, digits[k]);
        proof {
            assert(digits1.subrange(k as int, digits1.len() as int).reverse() =~= digits1.subrange(
                k + 1,
                digits1.len() as int,
            ).reverse().push(digits1[k as int]));
            assert(s@ =~= s0 + seq![hex_digit(m as nat)] + digits1.subrange(
                k as int,
                digits1.len() as int,
            ).reverse());
        }
    }
    proof {
        assert(digits1.subrange(0, digits1.len() as int) =~= digits1);
        assert(hex_seq(m as nat) =~= seq![hex_digit(m as nat)]);
        assert(s@ =~= s0 + hex_seq(m as nat) + digits1.reverse());
        assert(s@ =~= s0 + hex_seq(n as nat));
    }
}

/// The sixteen digit characters are pairwise distinct.
proof fn lemma_hex_digit_injective(a: nat, b: nat)
    requires
        a < 16,
        b < 16,
        hex_digit(a) == hex_digit(b),
    ensures
        a == b,
{
    assert(hex_digit(0) == '0' && hex_digit(1) == '1' && hex_digit(2) == '2' && hex_digit(3)
        == '3' && hex_digit(4) == '4' && hex_digit(5) == '5' && hex_digit(6) == '6' && hex_digit(7)
        == '7' && hex_digit(8) == '8' && hex_digit(9) == '9' && hex_digit(10) == 'a' && hex_digit(
        11,
    ) == 'b' && hex_digit(12) == 'c' && hex_digit(13) == 'd' && hex_digit(14) == 'e' && hex_digit(
        15,
    ) == 'f');
}

/// A rendering of a value of two or more digits is at least two characters.
pub proof fn lemma_hex_seq_len(n: nat)
    ensures
        hex_seq(n).len() >= 1,
        n >= 16 ==> hex_seq(n).len() >= 2,
    decreases n,
{
    if n >= 16 {
        lemma_hex_seq_len(n / 16);
    }
}

/// Law: the hexadecimal rendering is injective — different numbers never
/// render to the same text.
pub proof fn lemma_hex_seq_injective(a: nat, b: nat)
    requires
        hex_seq(a) == hex_seq(b),
    ensures
        a == b,
    decreases a,
{
    lemma_hex_seq_len(a);
    lemma_hex_seq_len(b);
    if a < 16 && b < 16 {
        assert(hex_seq(a)[0] == hex_digit(a) && hex_seq(b)[0] == hex_digit(b));
        lemma_hex_digit_injective(a, b);
    } else if a < 16 {
        assert(hex_seq(a).len() == 1 && hex_seq(b).len() >= 2);
    } else if b < 16 {
        assert(hex_seq(a).len() >= 2 && hex_seq(b).len() == 1);
    } else {
        let pa = hex_seq(a / 16);
        let pb = hex_seq(b / 16);
        assert(hex_seq(a) == pa.push(hex_digit(a % 16)));
        assert(hex_seq(b) == pb.push(hex_digit(b % 16)));
        assert(hex_seq(a).last() == hex_digit(a % 16));
        assert(hex_seq(b).last() == hex_digit(b % 16));
        lemma_hex_digit_injective(a % 16, b % 16);
        assert(pa =~= hex_seq(a).drop_last());
        assert(pb =~= hex_seq(b).drop_last());
        lemma_hex_seq_injective(a / 16, b / 16);
        assert(a == 16 * (a / 16) + a % 16);
        assert(b == 16 * (b / 16) + b % 16);
    }
}

} // verus!
