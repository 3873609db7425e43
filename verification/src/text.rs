//! ASCII renderings used throughout the indexer: lowercase hex of byte
//! strings, decimal numerals of 64-bit and 256-bit unsigned values, and
//! ASCII case folding for address comparison.

use vstd::arithmetic::div_mod::{lemma_fundamental_div_mod, lemma_fundamental_div_mod_converse};
use vstd::prelude::*;

verus! {

/// ASCII code of the lowercase hex digit for a nibble value.
pub open spec fn hex_digit(n: int) -> u8 {
    if n < 10 {
        (48 + n) as u8
    } else {
        (87 + n) as u8
    }
}

/// Lowercase hex rendering of a byte string, two digits per byte.
pub open spec fn hex_bytes(s: Seq<u8>) -> Seq<u8>
    decreases s.len(),
{
    if s.len() == 0 {
        Seq::empty()
    } else {
        seq![hex_digit(s[0] as int / 16), hex_digit(s[0] as int % 16)] + hex_bytes(s.drop_first())
    }
}

proof fn lemma_hex_bytes_push(s: Seq<u8>, b: u8)
    ensures
        hex_bytes(s.push(b)) == hex_bytes(s) + seq![
            hex_digit(b as int / 16),
            hex_digit(b as int % 16),
        ],
    decreases s.len(),
{
    if s.len() == 0 {
        assert(s.push(b) =~= seq![b]);
        assert(seq![b].drop_first() =~= Seq::<u8>::empty());
        assert(hex_bytes(Seq::<u8>::empty()) =~= Seq::<u8>::empty());
        assert(hex_bytes(seq![b]) =~= seq![hex_digit(b as int / 16), hex_digit(b as int % 16)]);
        assert(hex_bytes(s) =~= Seq::<u8>::empty());
        assert(hex_bytes(s.push(b)) =~= hex_bytes(s) + seq![
            hex_digit(b as int / 16),
            hex_digit(b as int % 16),
        ]);
    } else {
        lemma_hex_bytes_push(s.drop_first(), b);
        assert(s.push(b).drop_first() =~= s.drop_first().push(b));
        assert(hex_bytes(s.push(b)) =~= hex_bytes(s) + seq![
            hex_digit(b as int / 16),
            hex_digit(b as int % 16),
        ]);
    }
}

fn hex_digit_byte(n: u8) -> (r: u8)
    requires
        n < 16,
    ensures
        r == hex_digit(n as int),
{
    if n < 10 {
        48 + n
    } else {
        87 + n
    }
}

/// Lowercase hex of a byte string, without any prefix.
pub fn hex_of_bytes(v: &Vec<u8>) -> (r: Vec<u8>)
    ensures
        r@ == hex_bytes(v@),
{
    let mut out: Vec<u8> = Vec::new();
    let mut i: usize = 0;
    while i < v.len()
        invariant
            i <= v.len(),
            out@ == hex_bytes(v@.subrange(0, i as int)),
        decreases v.len() - i,
    {
        let b = v[i];
        out.push(hex_digit_byte(b / 16));
        out.push(hex_digit_byte(b % 16));
        proof {
            lemma_hex_bytes_push(v@.subrange(0, i as int), v@[i as int]);
            assert(v@.subrange(0, i as int).push(v@[i as int]) =~= v@.subrange(0, i + 1 as int));
            assert(out@ =~= hex_bytes(v@.subrange(0, i + 1 as int)));
        }
        i = i + 1;
    }
    proof {
        assert(v@.subrange(0, v@.len() as int) =~= v@);
    }
    out
}

/// Decimal numeral of a natural number, most significant digit first,
/// with no leading zeros except for the numeral of zero itself.
pub open spec fn dec_bytes(n: nat) -> Seq<u8>
    decreases n,
{
    if n < 10 {
        seq![(48 + n) as u8]
    } else {
        dec_bytes(n / 10) + seq![(48 + (n % 10)) as u8]
    }
}

/// Decimal numeral of a 64-bit value.
pub fn dec_of_u64(n: u64) -> (r: Vec<u8>)
    ensures
        r@ == dec_bytes(n as nat),
{
    let mut digits: Vec<u8> = Vec::new();
    let mut v: u64 = n;
    if v == 0 {
        digits.push(48);
        assert(digits@ =~= dec_bytes(0));
        return digits;
    }
    assert(digits@.reverse() =~= Seq::<u8>::empty());
    while v > 0
        invariant
            v > 0 ==> dec_bytes(n as nat) == dec_bytes(v as nat) + digits@.reverse(),
            v == 0 ==> dec_bytes(n as nat) == digits@.reverse(),
        decreases v,
    {
        let d: u8 = (v % 10) as u8 + 48;
        let ghost pre = digits@;
        digits.push(d);
        proof {
            assert(digits@.reverse() =~= seq![d] + pre.reverse());
            if v >= 10 {
                assert(dec_bytes(v as nat) == dec_bytes((v as nat) / 10) + seq![d]);
                assert(dec_bytes((v as nat) / 10) + seq![d] + pre.reverse() =~= dec_bytes(
                    (v as nat) / 10,
                ) + digits@.reverse());
            } else {
                assert(dec_bytes(v as nat) =~= seq![d]);
                assert(seq![d] + pre.reverse() =~= digits@.reverse());
            }
        }
        v = v / 10;
    }
    let mut out: Vec<u8> = Vec::new();
    let mut i: usize = 0;
    while i < digits.len()
        invariant
            i <= digits.len(),
            out@ == digits@.reverse().subrange(0, i as int),
        decreases digits.len() - i,
    {
        out.push(digits[digits.len() - 1 - i]);
        proof {
            assert(out@ =~= digits@.reverse().subrange(0, i + 1 as int));
        }
        i = i + 1;
    }
    proof {
        assert(digits@.reverse().subrange(0, digits@.len() as int) =~= digits@.reverse());
    }
    out
}

/// Decimal numeral of a 128-bit value.
pub fn dec_of_u128(n: u128) -> (r: Vec<u8>)
    ensures
        r@ == dec_bytes(n as nat),
{
    let mut digits: Vec<u8> = Vec::new();
    let mut v: u128 = n;
    if v == 0 {
        digits.push(48);
        assert(digits@ =~= dec_bytes(0));
        return digits;
    }
    assert(digits@.reverse() =~= Seq::<u8>::empty());
    while v > 0
        invariant
            v > 0 ==> dec_bytes(n as nat) == dec_bytes(v as nat) + digits@.reverse(),
            v == 0 ==> dec_bytes(n as nat) == digits@.reverse(),
        decreases v,
    {
        let d: u8 = (v % 10) as u8 + 48;
        let ghost pre = digits@;
        digits.push(d);
        proof {
            assert(digits@.reverse() =~= seq![d] + pre.reverse());
            if v >= 10 {
                assert(dec_bytes(v as nat) == dec_bytes((v as nat) / 10) + seq![d]);
                assert(dec_bytes((v as nat) / 10) + seq![d] + pre.reverse() =~= dec_bytes(
                    (v as nat) / 10,
                ) + digits@.reverse());
            } else {
                assert(dec_bytes(v as nat) =~= seq![d]);
                assert(seq![d] + pre.reverse() =~= digits@.reverse());
            }
        }
        v = v / 10;
    }
    let mut out: Vec<u8> = Vec::new();
    let mut i: usize = 0;
    while i < digits.len()
        invariant
            i <= digits.len(),
            out@ == digits@.reverse().subrange(0, i as int),
        decreases digits.len() - i,
    {
        out.push(digits[digits.len() - 1 - i]);
        proof {
            assert(out@ =~= digits@.reverse().subrange(0, i + 1 as int));
        }
        i = i + 1;
    }
    proof {
        assert(digits@.reverse().subrange(0, digits@.len() as int) =~= digits@.reverse());
    }
    out
}

/// Decimal numeral of a signed value: a minus sign before the numeral
/// of the magnitude when negative.
pub open spec fn sdec_bytes(s: int) -> Seq<u8> {
    if s < 0 {
        seq![45u8] + dec_bytes((-s) as nat)
    } else {
        dec_bytes(s as nat)
    }
}

/// Decimal numeral of a signed 128-bit value.
pub fn dec_of_i128(s: i128) -> (r: Vec<u8>)
    ensures
        r@ == sdec_bytes(s as int),
{
    if s >= 0 {
        let r = dec_of_u128(s as u128);
        return r;
    }
    let mag: u128 = ((-(s + 1)) as u128) + 1;
    assert(mag as int == -(s as int));
    let mut out: Vec<u8> = Vec::new();
    out.push(45);
    let mut d = dec_of_u128(mag);
    out.append(&mut d);
    proof {
        assert(out@ =~= sdec_bytes(s as int));
    }
    out
}

/// Signed numerals are ASCII.
pub proof fn lemma_sdec_bytes_ascii(s: int)
    ensures
        forall|i: int| 0 <= i < sdec_bytes(s).len() ==> #[trigger] sdec_bytes(s)[i] < 128,
{
    if s < 0 {
        lemma_dec_bytes_ascii((-s) as nat);
        assert forall|i: int| 0 <= i < sdec_bytes(s).len() implies #[trigger] sdec_bytes(s)[i]
            < 128 by {
            if i >= 1 {
                assert(sdec_bytes(s)[i] == dec_bytes((-s) as nat)[i - 1]);
            }
        }
    } else {
        lemma_dec_bytes_ascii(s as nat);
        assert forall|i: int| 0 <= i < sdec_bytes(s).len() implies #[trigger] sdec_bytes(s)[i]
            < 128 by {
            assert(sdec_bytes(s)[i] == dec_bytes(s as nat)[i]);
        }
    }
}

/// Hex renderings are ASCII.
pub proof fn lemma_hex_bytes_ascii(s: Seq<u8>)
    ensures
        forall|i: int| 0 <= i < hex_bytes(s).len() ==> hex_bytes(s)[i] < 128,
    decreases s.len(),
{
    if s.len() == 0 {
    } else {
        lemma_hex_bytes_ascii(s.drop_first());
        assert forall|i: int| 0 <= i < hex_bytes(s).len() implies hex_bytes(s)[i] < 128 by {
            if i >= 2 {
                assert(hex_bytes(s)[i] == hex_bytes(s.drop_first())[i - 2]);
            }
        }
    }
}

/// Decimal numerals hold digit characters only.
pub proof fn lemma_dec_bytes_ascii(n: nat)
    ensures
        forall|i: int| 0 <= i < dec_bytes(n).len() ==> 48 <= #[trigger] dec_bytes(n)[i] <= 57,
    decreases n,
{
    if n < 10 {
    } else {
        lemma_dec_bytes_ascii(n / 10);
        assert forall|i: int| 0 <= i < dec_bytes(n).len() implies 48 <= #[trigger] dec_bytes(n)[i] <= 57 by {
            if i < dec_bytes(n / 10).len() {
                assert(dec_bytes(n)[i] == dec_bytes(n / 10)[i]);
            }
        }
    }
}

/// A decimal numeral has at least one digit.
pub proof fn lemma_dec_bytes_nonempty(n: nat)
    ensures
        dec_bytes(n).len() >= 1,
    decreases n,
{
    if n >= 10 {
        lemma_dec_bytes_nonempty(n / 10);
    }
}

/// Decimal numerals are canonical: equal numerals denote equal values.
pub proof fn lemma_dec_bytes_injective(a: nat, b: nat)
    requires
        dec_bytes(a) == dec_bytes(b),
    ensures
        a == b,
    decreases a,
{
    if a < 10 && b < 10 {
        assert(dec_bytes(a)[0] == (48 + a) as u8);
        assert(dec_bytes(b)[0] == (48 + b) as u8);
    } else if a >= 10 && b >= 10 {
        lemma_dec_bytes_nonempty(a / 10);
        lemma_dec_bytes_nonempty(b / 10);
        assert(dec_bytes(a).last() == (48 + (a % 10)) as u8);
        assert(dec_bytes(b).last() == (48 + (b % 10)) as u8);
        assert(dec_bytes(a).drop_last() =~= dec_bytes(a / 10));
        assert(dec_bytes(b).drop_last() =~= dec_bytes(b / 10));
        lemma_dec_bytes_injective(a / 10, b / 10);
        lemma_fundamental_div_mod(a as int, 10);
        lemma_fundamental_div_mod(b as int, 10);
    } else if a < 10 {
        lemma_dec_bytes_nonempty(b / 10);
        assert(dec_bytes(a).len() == 1);
        assert(dec_bytes(b).len() == dec_bytes(b / 10).len() + 1);
        assert(false);
    } else {
        lemma_dec_bytes_nonempty(a / 10);
        assert(dec_bytes(b).len() == 1);
        assert(dec_bytes(a).len() == dec_bytes(a / 10).len() + 1);
        assert(false);
    }
}

/// A hex rendering is two digits per input byte.
pub proof fn lemma_hex_bytes_len(s: Seq<u8>)
    ensures
        hex_bytes(s).len() == 2 * s.len(),
    decreases s.len(),
{
    if s.len() > 0 {
        lemma_hex_bytes_len(s.drop_first());
    }
}

/// Hex renderings are canonical: equal renderings of equally long byte
/// strings denote equal bytes.
pub proof fn lemma_hex_bytes_injective(s1: Seq<u8>, s2: Seq<u8>)
    requires
        s1.len() == s2.len(),
        hex_bytes(s1) == hex_bytes(s2),
    ensures
        s1 == s2,
    decreases s1.len(),
{
    if s1.len() == 0 {
        assert(s1 =~= s2);
    } else {
        assert(hex_bytes(s1)[0] == hex_digit(s1[0] as int / 16));
        assert(hex_bytes(s1)[1] == hex_digit(s1[0] as int % 16));
        assert(hex_bytes(s2)[0] == hex_digit(s2[0] as int / 16));
        assert(hex_bytes(s2)[1] == hex_digit(s2[0] as int % 16));
        assert(s1[0] as int / 16 == s2[0] as int / 16);
        assert(s1[0] as int % 16 == s2[0] as int % 16);
        assert(s1[0] == s2[0]) by {
            lemma_fundamental_div_mod(s1[0] as int, 16);
            lemma_fundamental_div_mod(s2[0] as int, 16);
        }
        lemma_hex_bytes_len(s1.drop_first());
        lemma_hex_bytes_len(s2.drop_first());
        assert(hex_bytes(s1.drop_first()) =~= hex_bytes(s2.drop_first())) by {
            assert forall|i: int|
                0 <= i < hex_bytes(s1.drop_first()).len() implies hex_bytes(s1.drop_first())[i]
                == hex_bytes(s2.drop_first())[i] by {
                assert(hex_bytes(s1)[i + 2] == hex_bytes(s1.drop_first())[i]);
                assert(hex_bytes(s2)[i + 2] == hex_bytes(s2.drop_first())[i]);
            }
        }
        lemma_hex_bytes_injective(s1.drop_first(), s2.drop_first());
        assert forall|i: int| 0 <= i < s1.len() implies s1[i] == s2[i] by {
            if i >= 1 {
                assert(s1[i] == s1.drop_first()[i - 1]);
                assert(s2[i] == s2.drop_first()[i - 1]);
            }
        }
        assert(s1 =~= s2);
    }
}

/// The natural number a big-endian byte string denotes.
pub open spec fn be_nat(s: Seq<u8>) -> nat
    decreases s.len(),
{
    if s.len() == 0 {
        0
    } else {
        (be_nat(s.drop_last()) * 256 + s.last()) as nat
    }
}

/// True exactly when every byte is zero, i.e. the denoted value is zero.
pub fn be_bytes_are_zero(v: &Vec<u8>) -> (r: bool)
    ensures
        r == (be_nat(v@) == 0),
{
    let mut i: usize = 0;
    while i < v.len()
        invariant
            i <= v.len(),
            be_nat(v@.subrange(0, i as int)) == 0,
        decreases v.len() - i,
    {
        if v[i] != 0 {
            proof {
                assert(v@.subrange(0, i + 1 as int).drop_last() =~= v@.subrange(0, i as int));
                assert(be_nat(v@.subrange(0, i + 1 as int)) == v@[i as int]);
                lemma_be_nat_positive_prefix(v@, i + 1 as int);
            }
            return false;
        }
        proof {
            assert(v@.subrange(0, i + 1 as int).drop_last() =~= v@.subrange(0, i as int));
        }
        i = i + 1;
    }
    proof {
        assert(v@.subrange(0, v@.len() as int) =~= v@);
    }
    true
}

/// A prefix with a nonzero value forces the whole string's value up.
proof fn lemma_be_nat_positive_prefix(s: Seq<u8>, k: int)
    requires
        0 <= k <= s.len(),
        be_nat(s.subrange(0, k)) != 0,
    ensures
        be_nat(s) != 0,
    decreases s.len() - k,
{
    if k == s.len() {
        assert(s.subrange(0, k) =~= s);
    } else {
        let p = s.subrange(0, k);
        let q = s.subrange(0, k + 1);
        assert(q.drop_last() =~= p);
        assert(be_nat(q) == be_nat(p) * 256 + s[k]);
        assert(be_nat(p) * 256 >= 256) by (nonlinear_arith)
            requires
                be_nat(p) >= 1,
        ;
        lemma_be_nat_positive_prefix(s, k + 1);
    }
}

/// Quotient and remainder of a big-endian byte string divided by ten.
/// The quotient keeps the input's width.
fn be_div10(v: &Vec<u8>) -> (r: (Vec<u8>, u8))
    ensures
        r.0@.len() == v@.len(),
        be_nat(v@) == be_nat(r.0@) * 10 + r.1,
        r.1 < 10,
{
    let mut q: Vec<u8> = Vec::new();
    let mut rem: u16 = 0;
    let mut i: usize = 0;
    while i < v.len()
        invariant
            i <= v.len(),
            q@.len() == i,
            rem < 10,
            be_nat(v@.subrange(0, i as int)) == be_nat(q@) * 10 + rem,
        decreases v.len() - i,
    {
        let cur: u16 = rem * 256 + (v[i] as u16);
        let qb: u16 = cur / 10;
        let r2: u16 = cur % 10;
        let ghost old_q = q@;
        let ghost old_rem = rem;
        q.push(qb as u8);
        proof {
            lemma_fundamental_div_mod(cur as int, 10);
            assert(cur as int == qb as int * 10 + r2 as int);
            assert(v@.subrange(0, i + 1 as int).drop_last() =~= v@.subrange(0, i as int));
            assert(q@.drop_last() =~= old_q);
            assert(be_nat(q@) == be_nat(old_q) * 256 + qb);
            assert(be_nat(v@.subrange(0, i + 1 as int)) == be_nat(v@.subrange(0, i as int)) * 256
                + v@[i as int]);
            assert((be_nat(old_q) * 10 + old_rem) * 256 + v@[i as int] == (be_nat(old_q) * 256 + qb)
                * 10 + r2) by (nonlinear_arith)
                requires
                    old_rem as int * 256 + v@[i as int] == qb as int * 10 + r2 as int,
            ;
        }
        rem = r2;
        i = i + 1;
    }
    proof {
        assert(v@.subrange(0, v@.len() as int) =~= v@);
    }
    (q, rem as u8)
}

/// Decimal numeral of the value a big-endian byte string denotes; this is
/// how 256-bit amounts are rendered for storage.
pub fn dec_of_be_bytes(v: &Vec<u8>) -> (r: Vec<u8>)
    ensures
        r@ == dec_bytes(be_nat(v@)),
{
    let mut digits: Vec<u8> = Vec::new();
    if be_bytes_are_zero(v) {
        digits.push(48);
        assert(digits@ =~= dec_bytes(0));
        return digits;
    }
    let mut cur: Vec<u8> = Vec::new();
    let mut i: usize = 0;
    while i < v.len()
        invariant
            i <= v.len(),
            cur@ == v@.subrange(0, i as int),
        decreases v.len() - i,
    {
        cur.push(v[i]);
        proof {
            assert(cur@ =~= v@.subrange(0, i + 1 as int));
        }
        i = i + 1;
    }
    proof {
        assert(cur@ =~= v@);
        assert(digits@.reverse() =~= Seq::<u8>::empty());
    }
    let ghost n: nat = be_nat(v@);
    let mut running: bool = true;
    while running
        invariant
            running ==> be_nat(cur@) > 0 || digits@.len() == 0,
            running && be_nat(cur@) > 0 ==> dec_bytes(n) == dec_bytes(be_nat(cur@))
                + digits@.reverse(),
            running && be_nat(cur@) == 0 ==> n == 0 && digits@.len() == 0,
            !running ==> dec_bytes(n) == digits@.reverse(),
            n == be_nat(v@),
        decreases be_nat(cur@) + (if running {
            1nat
        } else {
            0nat
        }),
    {
        let (nq, d) = be_div10(&cur);
        let ghost cn = be_nat(cur@);
        let ghost qn = be_nat(nq@);
        proof {
            if cn == 0 {
                assert(n == 0);
            }
        }
        let ghost pre = digits@;
        digits.push(d + 48);
        proof {
            lemma_fundamental_div_mod_converse(cn as int, 10, qn as int, d as int);
            assert(qn == cn / 10 && d == cn % 10);
            assert(digits@.reverse() =~= seq![(48 + (cn % 10)) as u8] + pre.reverse());
            if cn >= 10 {
                assert(dec_bytes(cn) == dec_bytes(cn / 10) + seq![(48 + (cn % 10)) as u8]);
                assert(dec_bytes(cn / 10) + seq![(48 + (cn % 10)) as u8] + pre.reverse()
                    =~= dec_bytes(cn / 10) + digits@.reverse());
            } else {
                assert(dec_bytes(cn) =~= seq![(48 + (cn % 10)) as u8]);
                assert(seq![(48 + (cn % 10)) as u8] + pre.reverse() =~= digits@.reverse());
            }
            assert(qn < cn || cn == 0);
        }
        cur = nq;
        if be_bytes_are_zero(&cur) {
            running = false;
        }
    }
    let mut out: Vec<u8> = Vec::new();
    let mut j: usize = 0;
    while j < digits.len()
        invariant
            j <= digits.len(),
            out@ == digits@.reverse().subrange(0, j as int),
        decreases digits.len() - j,
    {
        out.push(digits[digits.len() - 1 - j]);
        proof {
            assert(out@ =~= digits@.reverse().subrange(0, j + 1 as int));
        }
        j = j + 1;
    }
    proof {
        assert(digits@.reverse().subrange(0, digits@.len() as int) =~= digits@.reverse());
    }
    out
}

/// A fresh copy of a byte string.
pub fn clone_bytes(v: &Vec<u8>) -> (r: Vec<u8>)
    ensures
        r@ == v@,
{
    let mut out: Vec<u8> = Vec::new();
    let mut i: usize = 0;
    while i < v.len()
        invariant
            i <= v@.len(),
            out@ == v@.subrange(0, i as int),
        decreases v@.len() - i,
    {
        out.push(v[i]);
        proof {
            assert(out@ =~= v@.subrange(0, i + 1 as int));
        }
        i = i + 1;
    }
    proof {
        assert(out@ =~= v@);
    }
    out
}

/// Exact equality of two byte strings.
pub fn bytes_eq(a: &Vec<u8>, b: &Vec<u8>) -> (r: bool)
    ensures
        r == (a@ == b@),
{
    if a.len() != b.len() {
        return false;
    }
    let mut i: usize = 0;
    while i < a.len()
        invariant
            i <= a.len(),
            a@.len() == b@.len(),
            forall|j: int| 0 <= j < i ==> a@[j] == b@[j],
        decreases a.len() - i,
    {
        if a[i] != b[i] {
            return false;
        }
        i = i + 1;
    }
    proof {
        assert(a@ =~= b@);
    }
    true
}

/// Powers of 256: the weight of a byte position.
pub open spec fn pow256(n: nat) -> nat
    decreases n,
{
    if n == 0 {
        1
    } else {
        256 * pow256((n - 1) as nat)
    }
}

/// Splitting a byte string splits its value by place value.
pub proof fn lemma_be_nat_split(a: Seq<u8>, b: Seq<u8>)
    ensures
        be_nat(a + b) == be_nat(a) * pow256(b.len()) + be_nat(b),
    decreases b.len(),
{
    if b.len() == 0 {
        assert(a + b =~= a);
        assert(pow256(0) == 1);
    } else {
        lemma_be_nat_split(a, b.drop_last());
        assert((a + b).drop_last() =~= a + b.drop_last());
        assert(be_nat(a + b) == be_nat(a + b.drop_last()) * 256 + b.last());
        assert((be_nat(a) * pow256(b.drop_last().len()) + be_nat(b.drop_last())) * 256 == be_nat(a)
            * (pow256(b.drop_last().len()) * 256) + be_nat(b.drop_last()) * 256)
            by (nonlinear_arith);
        assert(pow256(b.len()) == 256 * pow256((b.len() - 1) as nat));
        assert(pow256(b.drop_last().len()) * 256 == pow256(b.len())) by (nonlinear_arith)
            requires
                pow256(b.len()) == 256 * pow256(b.drop_last().len()),
        ;
    }
}

/// The value of a 32-byte amount as a `u128`, when it fits: `None`
/// exactly when the amount needs more than 128 bits.
pub fn be_bytes_to_u128(v: &Vec<u8>) -> (r: Option<u128>)
    requires
        v@.len() == 32,
    ensures
        match r {
            Some(x) => x as nat == be_nat(v@),
            None => be_nat(v@) >= 0x100000000000000000000000000000000,
        },
{
    let mut hi: Vec<u8> = Vec::new();
    let mut i: usize = 0;
    while i < 16
        invariant
            i <= 16,
            v@.len() == 32,
            hi@ == v@.subrange(0, i as int),
        decreases 16 - i,
    {
        hi.push(v[i]);
        proof {
            assert(hi@ =~= v@.subrange(0, i + 1 as int));
        }
        i = i + 1;
    }
    proof {
        assert(v@.subrange(0, 16) + v@.subrange(16, 32) =~= v@);
        lemma_be_nat_split(v@.subrange(0, 16), v@.subrange(16, 32));
        assert(pow256(16) == 0x100000000000000000000000000000000) by {
            reveal_with_fuel(pow256, 17);
        }
    }
    if !be_bytes_are_zero(&hi) {
        proof {
            assert(be_nat(v@.subrange(0, 16)) * 0x100000000000000000000000000000000
                >= 0x100000000000000000000000000000000) by (nonlinear_arith)
                requires
                    be_nat(v@.subrange(0, 16)) >= 1,
            ;
        }
        return None;
    }
    let mut acc: u128 = 0;
    let mut t: usize = 16;
    while t < 32
        invariant
            16 <= t <= 32,
            v@.len() == 32,
            acc as nat == be_nat(v@.subrange(16, t as int)),
            (acc as nat) < pow256((t - 16) as nat),
        decreases 32 - t,
    {
        proof {
            assert(pow256((t - 16) as nat) <= pow256(16)) by {
                lemma_pow256_increases((t - 16) as nat, 16);
            }
            assert(pow256(16) == 0x100000000000000000000000000000000) by {
                reveal_with_fuel(pow256, 17);
            }
            assert(acc as nat * 256 + 255 < pow256((t - 16) as nat) * 256) by (nonlinear_arith)
                requires
                    (acc as nat) < pow256((t - 16) as nat),
            ;
            assert(pow256((t - 16) as nat) * 256 == pow256((t - 16 + 1) as nat))
                by (nonlinear_arith)
                requires
                    pow256((t - 16 + 1) as nat) == 256 * pow256((t - 16) as nat),
            ;
            assert(pow256((t - 16 + 1) as nat) <= pow256(16)) by {
                lemma_pow256_increases((t - 16 + 1) as nat, 16);
            }
        }
        acc = acc * 256 + (v[t] as u128);
        proof {
            assert(v@.subrange(16, t + 1 as int).drop_last() =~= v@.subrange(16, t as int));
        }
        t = t + 1;
    }
    proof {
        assert(v@.subrange(16, 32) =~= v@.subrange(16, 32 as int));
        assert(be_nat(v@) == be_nat(v@.subrange(0, 16)) * 0x100000000000000000000000000000000
            + be_nat(v@.subrange(16, 32)));
    }
    Some(acc)
}

/// `pow256` grows with its exponent.
pub proof fn lemma_pow256_increases(a: nat, b: nat)
    requires
        a <= b,
    ensures
        pow256(a) <= pow256(b),
    decreases b,
{
    if a < b {
        lemma_pow256_increases(a, (b - 1) as nat);
        assert(pow256(b) == 256 * pow256((b - 1) as nat));
        assert(pow256((b - 1) as nat) <= 256 * pow256((b - 1) as nat)) by (nonlinear_arith)
            requires
                pow256((b - 1) as nat) >= 0,
        ;
    }
}

/// A 32-bit value widened to a 32-byte big-endian amount, as a legacy
/// claim index is widened into a 256-bit global index.
pub fn be32_of_u32(n: u32) -> (r: Vec<u8>)
    ensures
        r@.len() == 32,
        be_nat(r@) == n as nat,
{
    let mut out: Vec<u8> = Vec::new();
    let mut i: usize = 0;
    while i < 28
        invariant
            i <= 28,
            out@.len() == i,
            be_nat(out@) == 0,
        decreases 28 - i,
    {
        let ghost pre = out@;
        out.push(0);
        proof {
            assert(out@.drop_last() =~= pre);
        }
        i = i + 1;
    }
    let b0: u8 = (n / 16777216) as u8;
    let b1: u8 = ((n / 65536) % 256) as u8;
    let b2: u8 = ((n / 256) % 256) as u8;
    let b3: u8 = (n % 256) as u8;
    let ghost s0 = out@;
    out.push(b0);
    proof {
        assert(out@.drop_last() =~= s0);
    }
    let ghost s1 = out@;
    out.push(b1);
    proof {
        assert(out@.drop_last() =~= s1);
    }
    let ghost s2 = out@;
    out.push(b2);
    proof {
        assert(out@.drop_last() =~= s2);
    }
    let ghost s3 = out@;
    out.push(b3);
    proof {
        assert(out@.drop_last() =~= s3);
        assert(be_nat(s1) == be_nat(s0) * 256 + b0 as int);
        assert(be_nat(s2) == be_nat(s1) * 256 + b1 as int);
        assert(be_nat(s3) == be_nat(s2) * 256 + b2 as int);
        assert(be_nat(out@) == be_nat(s3) * 256 + b3 as int);
        assert(be_nat(out@) == ((b0 as int * 256 + b1 as int) * 256 + b2 as int) * 256
            + b3 as int);
        lemma_fundamental_div_mod(n as int, 256);
        lemma_fundamental_div_mod(n as int / 256, 256);
        lemma_fundamental_div_mod(n as int / 65536, 256);
        vstd::arithmetic::div_mod::lemma_div_denominator(n as int, 256, 256);
        vstd::arithmetic::div_mod::lemma_div_denominator(n as int, 65536, 256);
        assert(n as int / 256 / 256 == n as int / 65536);
        assert(n as int / 65536 / 256 == n as int / 16777216);
        assert(n as int / 16777216 < 256);
        assert(b0 as int == n as int / 16777216);
        assert(b1 as int == (n as int / 65536) % 256);
        assert(b2 as int == (n as int / 256) % 256);
        assert(b3 as int == n as int % 256);
        assert(n as int / 65536 == (n as int / 65536 / 256) * 256 + (n as int / 65536) % 256);
        assert(n as int / 256 == (n as int / 256 / 256) * 256 + (n as int / 256) % 256);
        assert(n as int == (n as int / 256) * 256 + n as int % 256);
        assert(be_nat(out@) == n as nat);
    }
    out
}

/// ASCII lowercase of one byte; everything outside `A`..`Z` is unchanged.
pub open spec fn lower_byte(b: u8) -> u8 {
    if 65 <= b && b <= 90 {
        (b + 32) as u8
    } else {
        b
    }
}

/// ASCII lowercase of a byte string.
pub open spec fn lower_bytes(s: Seq<u8>) -> Seq<u8> {
    s.map_values(|b: u8| lower_byte(b))
}

pub fn ascii_lower(v: &Vec<u8>) -> (r: Vec<u8>)
    ensures
        r@ == lower_bytes(v@),
{
    let mut out: Vec<u8> = Vec::new();
    let mut i: usize = 0;
    while i < v.len()
        invariant
            i <= v.len(),
            out@ == lower_bytes(v@.subrange(0, i as int)),
        decreases v.len() - i,
    {
        let b = v[i];
        if 65 <= b && b <= 90 {
            out.push(b + 32);
        } else {
            out.push(b);
        }
        proof {
            assert(out@ =~= lower_bytes(v@.subrange(0, i + 1 as int)));
        }
        i = i + 1;
    }
    proof {
        assert(v@.subrange(0, v@.len() as int) =~= v@);
    }
    out
}

} // verus!
