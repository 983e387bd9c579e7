//! The Severity Colorizer: maps a normalized severity score to a color.
//!
//! Severity travels through the pipeline as a fixed-point value in
//! thousandths, from `0` (nominal) to [`SEVERITY_SCALE`] (critical). The
//! colorizer interpolates componentwise between a fixed nominal color and a
//! fixed critical color, monotonically, so identical severities always render
//! identically. Also here: parsing of `#rrggbb` hex color text, which the
//! legacy snapshot channel carries.

use vstd::arithmetic::div_mod::{lemma_div_is_ordered, lemma_div_plus_one};
use vstd::prelude::*;
use vstd::string::StringSliceAdditionalSpecFns;

verus! {

/// Severity is expressed in thousandths: this value stands for severity 1.
pub const SEVERITY_SCALE: u32 = 1000;

/// An RGB color.
#[derive(Clone, Copy, PartialEq, Eq, Structural, Debug)]
pub struct Rgb {
    pub r: u8,
    pub g: u8,
    pub b: u8,
}

/// The color of a fully nominal resource (severity 0): green.
pub open spec fn nominal_color() -> Rgb {
    Rgb { r: 0, g: 255, b: 0 }
}

/// The color rendered at severity 1: red.
pub open spec fn critical_color() -> Rgb {
    Rgb { r: 255, g: 0, b: 0 }
}

/// The red channel of the gradient at severity `s` thousandths.
pub open spec fn spec_severity_channel(s: int) -> int {
    s * 255 / 1000
}

/// Componentwise linear interpolation from the nominal to the critical color.
pub open spec fn spec_severity_color(s: int) -> Rgb {
    Rgb {
        r: spec_severity_channel(s) as u8,
        g: (255 - spec_severity_channel(s)) as u8,
        b: 0,
    }
}

proof fn lemma_channel_bounds(s: int)
    requires
        0 <= s <= 1000,
    ensures
        0 <= spec_severity_channel(s) <= 255,
{
    lemma_div_is_ordered(0, s * 255, 1000);
    lemma_div_is_ordered(s * 255, 255000, 1000);
}

/// The color a resource at this severity renders in.
pub fn severity_color(severity: u32) -> (c: Rgb)
    requires
        severity <= SEVERITY_SCALE,
    ensures
        c == spec_severity_color(severity as int),
{
    proof {
        lemma_channel_bounds(severity as int);
    }
    let scaled: u32 = severity * 255 / 1000;
    Rgb { r: scaled as u8, g: (255 - scaled) as u8, b: 0 }
}

/// The gradient's ends are exactly the nominal and critical colors.
pub proof fn lemma_severity_color_ends()
    ensures
        spec_severity_color(0) == nominal_color(),
        spec_severity_color(SEVERITY_SCALE as int) == critical_color(),
{
}

/// The colorizer is monotonic on the severity range: each channel moves only
/// toward its critical value as severity grows.
pub proof fn lemma_severity_color_monotone(s1: int, s2: int)
    requires
        0 <= s1 <= s2 <= 1000,
    ensures
        spec_severity_color(s1).r <= spec_severity_color(s2).r,
        spec_severity_color(s1).g >= spec_severity_color(s2).g,
        spec_severity_color(s1).b == spec_severity_color(s2).b,
{
    lemma_channel_bounds(s1);
    lemma_channel_bounds(s2);
    lemma_div_is_ordered(s1 * 255, s2 * 255, 1000);
}

/// The colorizer is continuous: one severity step moves each channel by at
/// most one.
pub proof fn lemma_severity_color_step(s: int)
    requires
        0 <= s < 1000,
    ensures
        spec_severity_color(s + 1).r - spec_severity_color(s).r <= 1,
        spec_severity_color(s).g - spec_severity_color(s + 1).g <= 1,
        spec_severity_color(s).r <= spec_severity_color(s + 1).r,
        spec_severity_color(s + 1).g <= spec_severity_color(s).g,
{
    lemma_channel_bounds(s);
    lemma_channel_bounds(s + 1);
    lemma_severity_color_monotone(s, s + 1);
    lemma_div_is_ordered((s + 1) * 255, s * 255 + 1000, 1000);
    lemma_div_plus_one(s * 255, 1000);
}

/// The value of one hexadecimal digit byte, if it is one.
pub open spec fn spec_hex_val(b: u8) -> Option<int> {
    if 0x30 <= b <= 0x39 {
        Some((b - 0x30) as int)
    } else if 0x61 <= b <= 0x66 {
        Some(b - 0x61 + 10)
    } else if 0x41 <= b <= 0x46 {
        Some(b - 0x41 + 10)
    } else {
        None
    }
}

/// The byte encoded by two hex digits, if both are digits.
pub open spec fn spec_hex_byte(hi: u8, lo: u8) -> Option<u8> {
    match (spec_hex_val(hi), spec_hex_val(lo)) {
        (Some(h), Some(l)) => Some((h * 16 + l) as u8),
        _ => None,
    }
}

/// Leading `#` bytes stripped.
pub open spec fn strip_hash(s: Seq<u8>) -> Seq<u8>
    decreases s.len(),
{
    if s.len() > 0 && s[0] == 0x23 {
        strip_hash(s.drop_first())
    } else {
        s
    }
}

/// The color written as `rrggbb` hex text, after any leading `#`, or nothing.
pub open spec fn spec_hex_color(s: Seq<u8>) -> Option<Rgb> {
    let h = strip_hash(s);
    if h.len() != 6 {
        None
    } else {
        match (spec_hex_byte(h[0], h[1]), spec_hex_byte(h[2], h[3]), spec_hex_byte(h[4], h[5])) {
            (Some(r), Some(g), Some(b)) => Some(Rgb { r, g, b }),
            _ => None,
        }
    }
}

fn hex_val(b: u8) -> (r: Option<u8>)
    ensures
        match r {
            Some(v) => spec_hex_val(b) == Some(v as int),
            None => spec_hex_val(b) is None,
        },
{
    if 0x30 <= b && b <= 0x39 {
        Some(b - 0x30)
    } else if 0x61 <= b && b <= 0x66 {
        Some(b - 0x61 + 10)
    } else if 0x41 <= b && b <= 0x46 {
        Some(b - 0x41 + 10)
    } else {
        None
    }
}

fn hex_byte(hi: u8, lo: u8) -> (r: Option<u8>)
    ensures
        r == spec_hex_byte(hi, lo),
{
    match (hex_val(hi), hex_val(lo)) {
        (Some(h), Some(l)) => Some(h * 16 + l),
        _ => None,
    }
}

/// Parses `#rrggbb` (or bare `rrggbb`) color text, as the legacy snapshot
/// records carry it.
pub fn hex_to_color(hex: &str) -> (r: Option<Rgb>)
    ensures
        r == spec_hex_color(hex.spec_bytes()),
{
    let b: &[u8] = hex.as_bytes();
    let n: usize = b.len();
    let mut i: usize = 0;
    proof {
        assert(b@.skip(0) =~= b@);
    }
    while i < n && b[i] == 0x23
        invariant
            i <= n,
            n == b@.len(),
            b@ == hex.spec_bytes(),
            strip_hash(b@) == strip_hash(b@.skip(i as int)),
        decreases n - i,
    {
        proof {
            assert(b@.skip(i as int).drop_first() =~= b@.skip(i + 1));
        }
        i += 1;
    }
    proof {
        assert(strip_hash(b@.skip(i as int)) == b@.skip(i as int));
    }
    if n - i != 6 {
        return None;
    }
    proof {
        assert(b@.skip(i as int).len() == 6);
        assert forall|j: int| 0 <= j < 6 implies b@.skip(i as int)[j] == b@[i + j] by {}
    }
    let h0 = hex_byte(b[i], b[i + 1]);
    let h1 = hex_byte(b[i + 2], b[i + 3]);
    let h2 = hex_byte(b[i + 4], b[i + 5]);
    match (h0, h1, h2) {
        (Some(r), Some(g), Some(b)) => Some(Rgb { r, g, b }),
        _ => None,
    }
}

} // verus!
