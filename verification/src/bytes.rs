//! Small helpers on byte vectors, and decimal formatting of the fixed-point
//! numbers the telemetry pipeline works in.
//!
//! Wire numbers are held in thousandths (milli units), so that fractional
//! telemetry values need no floating point anywhere in the crate.

use vstd::prelude::*;
use vstd::string::StringSliceAdditionalSpecFns;

verus! {

/// Canonical decimal digits of `n`, most significant first.
pub open spec fn dec_of(n: nat) -> Seq<u8>
    decreases n,
{
    if n < 10 {
        seq![(0x30 + n) as u8]
    } else {
        dec_of((n / 10) as nat).push((0x30 + n % 10) as u8)
    }
}

/// Decimal text of a (possibly negative) whole number.
pub open spec fn int_text(v: int) -> Seq<u8> {
    if v < 0 {
        seq![0x2du8] + dec_of((-v) as nat)
    } else {
        dec_of(v as nat)
    }
}

/// Canonical decimal digits of a `u64`.
pub fn dec_u64(n: u64) -> (r: Vec<u8>)
    ensures
        r@ == dec_of(n as nat),
    decreases n,
{
    if n < 10 {
        let mut v: Vec<u8> = Vec::new();
        v.push(0x30 + (n as u8));
        proof {
            assert(v@ =~= dec_of(n as nat));
        }
        v
    } else {
        let mut v = dec_u64(n / 10);
        v.push(0x30 + ((n % 10) as u8));
        proof {
            assert(v@ =~= dec_of(n as nat));
        }
        v
    }
}

/// Copies a byte vector.
pub fn clone_bytes(v: &Vec<u8>) -> (r: Vec<u8>)
    ensures
        r@ == v@,
{
    let mut r: Vec<u8> = Vec::new();
    let mut i: usize = 0;
    while i < v.len()
        invariant
            i <= v.len(),
            r@ =~= v@.subrange(0, i as int),
        decreases v.len() - i,
    {
        r.push(v[i]);
        i += 1;
    }
    proof {
        assert(r@ =~= v@);
    }
    r
}

/// Appends `src` to `dst`.
pub fn append_bytes(dst: &mut Vec<u8>, src: &Vec<u8>)
    ensures
        final(dst)@ == old(dst)@ + src@,
{
    let mut i: usize = 0;
    while i < src.len()
        invariant
            i <= src.len(),
            dst@ =~= old(dst)@ + src@.subrange(0, i as int),
        decreases src.len() - i,
    {
        dst.push(src[i]);
        i += 1;
    }
    proof {
        assert(dst@ =~= old(dst)@ + src@);
    }
}

/// Byte-for-byte equality of two vectors.
pub fn bytes_eq(a: &Vec<u8>, b: &Vec<u8>) -> (r: bool)
    ensures
        r <==> a@ == b@,
{
    if a.len() != b.len() {
        return false;
    }
    let mut i: usize = 0;
    while i < a.len()
        invariant
            i <= a.len(),
            a@.len() == b@.len(),
            forall|j: int| 0 <= j < i ==> a@[j] == b@[j],
        decreases a.len() - i,
    {
        if a[i] != b[i] {
            return false;
        }
        i += 1;
    }
    proof {
        assert(a@ =~= b@);
    }
    true
}

/// The UTF-8 bytes of a string slice, as an owned vector.
pub fn str_bytes(s: &str) -> (r: Vec<u8>)
    ensures
        r@ == s.spec_bytes(),
{
    let b: &[u8] = s.as_bytes();
    let mut r: Vec<u8> = Vec::new();
    let mut i: usize = 0;
    while i < b.len()
        invariant
            i <= b@.len(),
            b@ == s.spec_bytes(),
            r@ =~= b@.subrange(0, i as int),
        decreases b@.len() - i,
    {
        r.push(b[i]);
        i += 1;
    }
    proof {
        assert(r@ =~= s.spec_bytes());
    }
    r
}

/// Fixed-point thousandths rendered as minimal decimal text: the whole part,
/// then a dot and one to three fractional digits only where the fraction is
/// not zero, with trailing fractional zeros dropped.
pub open spec fn milli_mag_text(m: int) -> Seq<u8> {
    let whole = m / 1000;
    let f = m % 1000;
    let d1 = (0x30 + f / 100) as u8;
    let d2 = (0x30 + (f / 10) % 10) as u8;
    let d3 = (0x30 + f % 10) as u8;
    if f == 0 {
        dec_of(whole as nat)
    } else if f % 10 != 0 {
        dec_of(whole as nat) + seq![0x2eu8, d1, d2, d3]
    } else if (f / 10) % 10 != 0 {
        dec_of(whole as nat) + seq![0x2eu8, d1, d2]
    } else {
        dec_of(whole as nat) + seq![0x2eu8, d1]
    }
}

/// Signed fixed-point thousandths as decimal text.
pub open spec fn milli_text(m: int) -> Seq<u8> {
    if m < 0 {
        seq![0x2du8] + milli_mag_text(-m)
    } else {
        milli_mag_text(m)
    }
}

/// Thousandths rounded to a whole number, halves away from zero.
pub open spec fn milli_round(m: int) -> int {
    if m >= 0 {
        (m + 500) / 1000
    } else {
        -((-m + 500) / 1000)
    }
}

/// The rounded whole number as decimal text.
pub open spec fn milli_round_text(m: int) -> Seq<u8> {
    int_text(milli_round(m))
}

/// The magnitude of an `i64`, total on the whole type.
fn abs_u64(m: i64) -> (r: u64)
    ensures
        m >= 0 ==> r == m,
        m < 0 ==> r == -(m as int),
{
    if m >= 0 {
        m as u64
    } else {
        ((-1 - m) as u64) + 1
    }
}

/// Renders thousandths as minimal decimal text.
pub fn milli_to_text(m: i64) -> (r: Vec<u8>)
    ensures
        r@ == milli_text(m as int),
{
    let mut out: Vec<u8> = Vec::new();
    if m < 0 {
        out.push(0x2d);
    }
    let mag = abs_u64(m);
    let whole = mag / 1000;
    let f = mag % 1000;
    let ghost mi: int = if m < 0 { -(m as int) } else { m as int };
    proof {
        assert(whole == mi / 1000);
        assert(f == mi % 1000);
    }
    let mut w = dec_u64(whole);
    append_bytes(&mut out, &w);
    if f != 0 {
        let d1 = 0x30 + (f / 100) as u8;
        let d2 = 0x30 + ((f / 10) % 10) as u8;
        let d3 = 0x30 + (f % 10) as u8;
        out.push(0x2e);
        out.push(d1);
        if f % 10 != 0 {
            out.push(d2);
            out.push(d3);
        } else if (f / 10) % 10 != 0 {
            out.push(d2);
        }
    }
    proof {
        assert(out@ =~= milli_text(m as int));
    }
    out
}

/// Renders thousandths rounded to a whole number.
pub fn milli_to_round_text(m: i64) -> (r: Vec<u8>)
    ensures
        r@ == milli_round_text(m as int),
{
    let mag = abs_u64(m);
    let rd = (mag / 1000) + (if mag % 1000 >= 500 { 1 } else { 0 });
    let ghost mi: int = if m < 0 { -(m as int) } else { m as int };
    proof {
        vstd::arithmetic::div_mod::lemma_fundamental_div_mod(mi, 1000);
        if mi % 1000 < 500 {
            vstd::arithmetic::div_mod::lemma_div_multiples_vanish_fancy(
                mi / 1000,
                mi % 1000 + 500,
                1000,
            );
        } else {
            vstd::arithmetic::div_mod::lemma_div_multiples_vanish_fancy(
                mi / 1000 + 1,
                mi % 1000 - 500,
                1000,
            );
            assert(1000 * (mi / 1000 + 1) == 1000 * (mi / 1000) + 1000) by (nonlinear_arith);
        }
        assert(rd == (mi + 500) / 1000);
    }
    let mut out: Vec<u8> = Vec::new();
    if m < 0 && rd > 0 {
        out.push(0x2d);
    }
    let mut w = dec_u64(rd);
    append_bytes(&mut out, &w);
    proof {
        assert(out@ =~= milli_round_text(m as int));
    }
    out
}

/// Rounds thousandths to a whole `i64`, halves away from zero.
pub fn milli_round_i64(m: i64) -> (r: i64)
    ensures
        r == milli_round(m as int),
{
    let mag = abs_u64(m);
    let rd = (mag / 1000) + (if mag % 1000 >= 500 { 1 } else { 0 });
    let ghost mi: int = if m < 0 { -(m as int) } else { m as int };
    proof {
        vstd::arithmetic::div_mod::lemma_fundamental_div_mod(mi, 1000);
        if mi % 1000 < 500 {
            vstd::arithmetic::div_mod::lemma_div_multiples_vanish_fancy(
                mi / 1000,
                mi % 1000 + 500,
                1000,
            );
        } else {
            vstd::arithmetic::div_mod::lemma_div_multiples_vanish_fancy(
                mi / 1000 + 1,
                mi % 1000 - 500,
                1000,
            );
            assert(1000 * (mi / 1000 + 1) == 1000 * (mi / 1000) + 1000) by (nonlinear_arith);
        }
        assert(rd == (mi + 500) / 1000);
    }
    if m < 0 {
        -(rd as i64)
    } else {
        rd as i64
    }
}

} // verus!
