//! Lexical scanning of a wire record: whitespace, numbers and quoted strings.
//!
//! Numbers are read into fixed-point thousandths (milli units): the whole
//! part, times one thousand, plus the first three fractional digits. A whole
//! part of more than nine digits fails the record's content sanity check. A
//! quoted string accepts the plain backslash escapes and refuses raw control
//! bytes, so a record can never contain the record separator.

use vstd::prelude::*;

verus! {

/// Insignificant bytes between tokens: space, tab, carriage return.
pub open spec fn is_ws(b: u8) -> bool {
    b == 0x20 || b == 0x09 || b == 0x0d
}

/// An ASCII decimal digit.
pub open spec fn is_digit(b: u8) -> bool {
    0x30 <= b <= 0x39
}

/// The first position at or after `i` holding no whitespace.
pub open spec fn sp_skip_ws(s: Seq<u8>, i: int) -> int
    decreases s.len() - i when 0 <= i <= s.len()
{
    if i < s.len() && is_ws(s[i]) {
        sp_skip_ws(s, i + 1)
    } else {
        i
    }
}

pub proof fn lemma_skip_ws_range(s: Seq<u8>, i: int)
    requires
        0 <= i <= s.len(),
    ensures
        i <= sp_skip_ws(s, i) <= s.len(),
        !(sp_skip_ws(s, i) < s.len() && is_ws(s[sp_skip_ws(s, i)])),
    decreases s.len() - i,
{
    if i < s.len() && is_ws(s[i]) {
        lemma_skip_ws_range(s, i + 1);
    }
}

/// The first position at or after `i` holding no digit.
pub open spec fn sp_scan_digits(s: Seq<u8>, i: int) -> int
    decreases s.len() - i when 0 <= i <= s.len()
{
    if i < s.len() && is_digit(s[i]) {
        sp_scan_digits(s, i + 1)
    } else {
        i
    }
}

pub proof fn lemma_scan_digits_range(s: Seq<u8>, i: int)
    requires
        0 <= i <= s.len(),
    ensures
        i <= sp_scan_digits(s, i) <= s.len(),
        forall|j: int| i <= j < sp_scan_digits(s, i) ==> is_digit(s[j]),
        !(sp_scan_digits(s, i) < s.len() && is_digit(s[sp_scan_digits(s, i)])),
    decreases s.len() - i,
{
    if i < s.len() && is_digit(s[i]) {
        lemma_scan_digits_range(s, i + 1);
    }
}

/// The value of a run of decimal digit bytes.
pub open spec fn dec_val(s: Seq<u8>) -> int
    decreases s.len(),
{
    if s.len() == 0 {
        0
    } else {
        dec_val(s.drop_last()) * 10 + (s.last() - 0x30)
    }
}

/// Ten to the `n`.
pub open spec fn pow10(n: nat) -> int
    decreases n,
{
    if n == 0 {
        1
    } else {
        10 * pow10((n - 1) as nat)
    }
}

pub proof fn lemma_pow10_mono(m: nat, n: nat)
    requires
        m <= n,
    ensures
        pow10(m) <= pow10(n),
        1 <= pow10(m),
    decreases n,
{
    if n > 0 {
        if m == n {
            lemma_pow10_mono((n - 1) as nat, (n - 1) as nat);
        } else {
            lemma_pow10_mono(m, (n - 1) as nat);
        }
    }
}

pub proof fn lemma_dec_val_bound(s: Seq<u8>)
    requires
        forall|j: int| 0 <= j < s.len() ==> is_digit(#[trigger] s[j]),
    ensures
        0 <= dec_val(s) < pow10(s.len() as nat),
    decreases s.len(),
{
    if s.len() > 0 {
        assert(forall|j: int| 0 <= j < s.drop_last().len() ==> is_digit(#[trigger] s.drop_last()[j]));
        lemma_dec_val_bound(s.drop_last());
    }
}

/// The first three fractional digits, as thousandths.
pub open spec fn frac_milli(d: Seq<u8>) -> int {
    if d.len() >= 3 {
        (d[0] - 0x30) * 100 + (d[1] - 0x30) * 10 + (d[2] - 0x30)
    } else if d.len() == 2 {
        (d[0] - 0x30) * 100 + (d[1] - 0x30) * 10
    } else if d.len() == 1 {
        (d[0] - 0x30) * 100
    } else {
        0
    }
}

/// The largest whole part a wire number may carry: nine digits.
pub const MAX_WHOLE_DIGITS: usize = 9;

/// A decimal number starting at `i`, in thousandths, with the position after
/// it. An optional leading minus, at most nine whole digits, an optional
/// fraction; anything else is no number.
pub open spec fn sp_parse_number(s: Seq<u8>, i: int) -> Option<(int, int)> {
    let neg = i < s.len() && s[i] == 0x2d;
    let j0 = if neg {
        i + 1
    } else {
        i
    };
    let j1 = sp_scan_digits(s, j0);
    if j1 == j0 || j1 - j0 > MAX_WHOLE_DIGITS {
        None
    } else {
        let whole = dec_val(s.subrange(j0, j1));
        if j1 < s.len() && s[j1] == 0x2e {
            let j2 = sp_scan_digits(s, j1 + 1);
            if j2 == j1 + 1 {
                None
            } else {
                let m = whole * 1000 + frac_milli(s.subrange(j1 + 1, j2));
                Some(
                    (
                        if neg {
                            -m
                        } else {
                            m
                        },
                        j2,
                    ),
                )
            }
        } else {
            let m = whole * 1000;
            Some(
                (
                    if neg {
                        -m
                    } else {
                        m
                    },
                    j1,
                ),
            )
        }
    }
}

/// Every parsed number lands strictly past where it started and within the
/// record, and its magnitude stays under a million millions.
pub proof fn lemma_number_range(s: Seq<u8>, i: int)
    requires
        0 <= i <= s.len(),
        sp_parse_number(s, i) is Some,
    ensures
        i < sp_parse_number(s, i)->Some_0.1 <= s.len(),
        -1_000_000_000_000 < sp_parse_number(s, i)->Some_0.0 < 1_000_000_000_000,
{
    let neg = i < s.len() && s[i] == 0x2d;
    let j0 = if neg {
        i + 1
    } else {
        i
    };
    lemma_scan_digits_range(s, j0);
    let j1 = sp_scan_digits(s, j0);
    let whole = dec_val(s.subrange(j0, j1));
    assert(forall|j: int|
        0 <= j < s.subrange(j0, j1).len() ==> is_digit(#[trigger] s.subrange(j0, j1)[j]));
    lemma_dec_val_bound(s.subrange(j0, j1));
    lemma_pow10_mono(s.subrange(j0, j1).len() as nat, 9);
    assert(pow10(9) == 1_000_000_000) by {
            reveal_with_fuel(pow10, 10);
        }
    if j1 < s.len() && s[j1] == 0x2e {
        lemma_scan_digits_range(s, j1 + 1);
        let j2 = sp_scan_digits(s, j1 + 1);
        let f = s.subrange(j1 + 1, j2);
        if f.len() >= 1 {
            assert(is_digit(f[0]));
        }
        if f.len() >= 2 {
            assert(is_digit(f[1]));
        }
        if f.len() >= 3 {
            assert(is_digit(f[2]));
        }
    }
}

/// Whitespace skipping, as the scanner runs it.
pub fn skip_ws(s: &Vec<u8>, i: usize) -> (r: usize)
    requires
        i <= s@.len(),
    ensures
        r == sp_skip_ws(s@, i as int),
        i <= r <= s@.len(),
{
    let mut j = i;
    while j < s.len() && (s[j] == 0x20 || s[j] == 0x09 || s[j] == 0x0d)
        invariant
            i <= j <= s@.len(),
            sp_skip_ws(s@, i as int) == sp_skip_ws(s@, j as int),
        decreases s@.len() - j,
    {
        j += 1;
    }
    j
}

fn scan_digits(s: &Vec<u8>, i: usize) -> (r: usize)
    requires
        i <= s@.len(),
    ensures
        r == sp_scan_digits(s@, i as int),
        i <= r <= s@.len(),
{
    let mut j = i;
    while j < s.len() && 0x30 <= s[j] && s[j] <= 0x39
        invariant
            i <= j <= s@.len(),
            sp_scan_digits(s@, i as int) == sp_scan_digits(s@, j as int),
        decreases s@.len() - j,
    {
        j += 1;
    }
    j
}

/// Reads the number at `i`, as the grammar defines it.
pub fn parse_number(s: &Vec<u8>, i: usize) -> (r: Option<(i64, usize)>)
    requires
        i <= s@.len(),
    ensures
        match r {
            Some(v) => sp_parse_number(s@, i as int) == Some((v.0 as int, v.1 as int)) && i < v.1
                <= s@.len(),
            None => sp_parse_number(s@, i as int) is None,
        },
{
    let neg = i < s.len() && s[i] == 0x2d;
    let j0 = if neg {
        i + 1
    } else {
        i
    };
    let j1 = scan_digits(s, j0);
    if j1 == j0 || j1 - j0 > MAX_WHOLE_DIGITS {
        return None;
    }
    proof {
        lemma_scan_digits_range(s@, j0 as int);
        assert(forall|j: int|
            0 <= j < s@.subrange(j0 as int, j1 as int).len() ==> is_digit(
                #[trigger] s@.subrange(j0 as int, j1 as int)[j],
            ));
        lemma_dec_val_bound(s@.subrange(j0 as int, j1 as int));
        lemma_pow10_mono(s@.subrange(j0 as int, j1 as int).len() as nat, 9);
        assert(pow10(9) == 1_000_000_000) by {
            reveal_with_fuel(pow10, 10);
        }
    }
    let mut whole: u64 = 0;
    let mut k = j0;
    while k < j1
        invariant
            j0 <= k <= j1 <= s@.len(),
            j1 == sp_scan_digits(s@, j0 as int),
            forall|j: int| j0 <= j < j1 ==> is_digit(#[trigger] s@[j]),
            whole == dec_val(s@.subrange(j0 as int, k as int)),
            0 <= whole < pow10((k - j0) as nat),
            j1 - j0 <= 9,
        decreases j1 - k,
    {
        proof {
            lemma_pow10_mono((k - j0) as nat, 8);
            assert(pow10(8) == 100_000_000) by {
                reveal_with_fuel(pow10, 10);
            }
            assert(s@.subrange(j0 as int, k + 1).drop_last() =~= s@.subrange(
                j0 as int,
                k as int,
            ));
        }
        proof {
            assert(is_digit(s@[k as int]));
            assert(s@.subrange(j0 as int, k + 1).last() == s@[k as int]);
        }
        let d = s[k];
        whole = whole * 10 + ((d - 0x30) as u64);
        k += 1;
    }
    proof {
        assert(s@.subrange(j0 as int, j1 as int) =~= s@.subrange(j0 as int, k as int));
        lemma_pow10_mono((j1 - j0) as nat, 9);
    }
    let mut milli: i64 = (whole as i64) * 1000;
    let mut end = j1;
    if j1 < s.len() && s[j1] == 0x2e {
        let j2 = scan_digits(s, j1 + 1);
        if j2 == j1 + 1 {
            return None;
        }
        proof {
            lemma_scan_digits_range(s@, j1 + 1);
        }
        let flen = j2 - (j1 + 1);
        let ghost fr = s@.subrange(j1 + 1, j2 as int);
        let d0 = s[j1 + 1];
        let mut f: i64 = ((d0 - 0x30) as i64) * 100;
        if flen >= 2 {
            let d1 = s[j1 + 2];
            f = f + ((d1 - 0x30) as i64) * 10;
        }
        if flen >= 3 {
            let d2 = s[j1 + 3];
            f = f + ((d2 - 0x30) as i64);
        }
        proof {
            assert(fr[0] == s@[j1 + 1]);
            if fr.len() >= 2 {
                assert(fr[1] == s@[j1 + 2]);
            }
            if fr.len() >= 3 {
                assert(fr[2] == s@[j1 + 3]);
            }
            assert(fr.len() == flen);
            assert(f == frac_milli(fr));
        }
        milli = milli + f;
        end = j2;
    }
    let v = if neg {
        -milli
    } else {
        milli
    };
    Some((v, end))
}

/// What a backslash escape stands for, if it is one the grammar accepts.
pub open spec fn sp_unescape(b: u8) -> Option<u8> {
    if b == 0x22 {
        Some(0x22u8)
    } else if b == 0x5c {
        Some(0x5cu8)
    } else if b == 0x2f {
        Some(0x2fu8)
    } else if b == 0x6e {
        Some(0x0au8)
    } else if b == 0x74 {
        Some(0x09u8)
    } else if b == 0x72 {
        Some(0x0du8)
    } else {
        None
    }
}

/// The unescaped contents of a quoted string whose opening quote stands just
/// before `i`, with the position after the closing quote. Raw control bytes
/// and unknown escapes are refused.
pub open spec fn sp_parse_string_body(s: Seq<u8>, i: int) -> Option<(Seq<u8>, int)>
    decreases s.len() - i when 0 <= i <= s.len()
{
    if i >= s.len() {
        None
    } else if s[i] == 0x22 {
        Some((Seq::empty(), i + 1))
    } else if s[i] == 0x5c {
        if i + 1 < s.len() {
            match sp_unescape(s[i + 1]) {
                Some(c) => match sp_parse_string_body(s, i + 2) {
                    Some(t) => Some((seq![c] + t.0, t.1)),
                    None => None,
                },
                None => None,
            }
        } else {
            None
        }
    } else if s[i] < 0x20 {
        None
    } else {
        match sp_parse_string_body(s, i + 1) {
            Some(t) => Some((seq![s[i]] + t.0, t.1)),
            None => None,
        }
    }
}

pub proof fn lemma_string_body_range(s: Seq<u8>, i: int)
    requires
        0 <= i <= s.len(),
        sp_parse_string_body(s, i) is Some,
    ensures
        i < sp_parse_string_body(s, i)->Some_0.1 <= s.len(),
    decreases s.len() - i,
{
    if i >= s.len() {
    } else if s[i] == 0x22 {
    } else if s[i] == 0x5c {
        lemma_string_body_range(s, i + 2);
    } else if s[i] < 0x20 {
    } else {
        lemma_string_body_range(s, i + 1);
    }
}

fn unescape(b: u8) -> (r: Option<u8>)
    ensures
        r == sp_unescape(b),
{
    if b == 0x22 {
        Some(0x22)
    } else if b == 0x5c {
        Some(0x5c)
    } else if b == 0x2f {
        Some(0x2f)
    } else if b == 0x6e {
        Some(0x0a)
    } else if b == 0x74 {
        Some(0x09)
    } else if b == 0x72 {
        Some(0x0d)
    } else {
        None
    }
}

/// Reads a quoted string's body, the opening quote already consumed.
pub fn parse_string_body(s: &Vec<u8>, i: usize) -> (r: Option<(Vec<u8>, usize)>)
    requires
        i <= s@.len(),
    ensures
        match r {
            Some(t) => sp_parse_string_body(s@, i as int) == Some((t.0@, t.1 as int)) && i < t.1
                <= s@.len(),
            None => sp_parse_string_body(s@, i as int) is None,
        },
{
    let mut out: Vec<u8> = Vec::new();
    let mut j = i;
    proof {
        assert(out@ =~= Seq::<u8>::empty());
    }
    loop
        invariant
            i <= j <= s@.len(),
            match sp_parse_string_body(s@, j as int) {
                Some(t) => sp_parse_string_body(s@, i as int) == Some((out@ + t.0, t.1)),
                None => sp_parse_string_body(s@, i as int) is None,
            },
        decreases s@.len() - j,
    {
        if j >= s.len() {
            return None;
        }
        let b = s[j];
        if b == 0x22 {
            proof {
                assert(out@ + Seq::<u8>::empty() =~= out@);
                lemma_string_body_range(s@, i as int);
            }
            return Some((out, j + 1));
        } else if b == 0x5c {
            if j + 1 >= s.len() {
                return None;
            }
            let e = s[j + 1];
            match unescape(e) {
                Some(c) => {
                    let ghost prev = out@;
                    out.push(c);
                    proof {
                        if sp_parse_string_body(s@, j + 2) is Some {
                            let t2 = sp_parse_string_body(s@, j + 2)->Some_0;
                            assert(out@ + t2.0 =~= prev + (seq![c] + t2.0));
                        }
                    }
                    j = j + 2;
                },
                None => {
                    return None;
                },
            }
        } else if b < 0x20 {
            return None;
        } else {
            let ghost prev = out@;
            out.push(b);
            proof {
                if sp_parse_string_body(s@, j + 1) is Some {
                    let t2 = sp_parse_string_body(s@, j + 1)->Some_0;
                    assert(out@ + t2.0 =~= prev + (seq![b] + t2.0));
                }
            }
            j = j + 1;
        }
    }
}

} // verus!
