//! Deterministic segment colouring: a small running hash of the label bytes,
//! seeded with the ring depth, picks hue, saturation and value bands, and an
//! integer HSV-to-RGB conversion turns them into channel intensities.

use vstd::prelude::*;

verus! {

use vstd::utf8::encode_utf8;

/// Number of scaled units that stand for the intensity 1.0 of a colour channel.
pub const CHANNEL_ONE: u32 = 1000000;

/// Modulus of the 32-bit running hash.
pub const HASH_MODULUS: u64 = 4294967296;

/// An RGB colour; each channel holds `0 ..= CHANNEL_ONE` scaled units.
#[derive(Clone, Copy, Debug, PartialEq, Eq, Structural)]
pub struct Color {
    pub red: u32,
    pub green: u32,
    pub blue: u32,
}

/// One step of the running hash: multiply by 31 and add the next byte,
/// with unsigned wraparound at 2^32.
pub open spec fn hash_step(h: u32, b: u8) -> u32 {
    (((h as int) * 31 + (b as int)) % (HASH_MODULUS as int)) as u32
}

/// The running hash of `bytes[i..]` continued from the accumulator `h`.
pub open spec fn hash_from(h: u32, bytes: Seq<u8>, i: int) -> u32
    decreases bytes.len() - i,
{
    if i < 0 || i >= bytes.len() {
        h
    } else {
        hash_from(hash_step(h, bytes[i]), bytes, i + 1)
    }
}

/// The hash of a label at a ring depth: seeded with `depth * 100` (wrapped
/// to 32 bits) and folded over the label's UTF-8 bytes.
pub open spec fn label_hash(label: Seq<char>, depth: usize) -> u32 {
    hash_from((((depth as int) * 100) % (HASH_MODULUS as int)) as u32, encode_utf8(label), 0)
}

/// Hue in degrees, saturation and value in scaled units, as carved out of the
/// hash: hue from the low bits, saturation in [0.60, 0.80), value in [0.70, 0.90).
pub open spec fn hue_of(hash: u32) -> u32 {
    (hash % 360) as u32
}

pub open spec fn saturation_of(hash: u32) -> u32 {
    (600000 + ((hash / 360) % 20) * 10000) as u32
}

pub open spec fn value_of(hash: u32) -> u32 {
    (700000 + ((hash / 7200) % 20) * 10000) as u32
}

/// Standard HSV-to-RGB conversion carried out in scaled integer units.
pub open spec fn hsv_to_rgb(hue_deg: u32, s: u32, v: u32) -> Color {
    let sector = hue_deg / 60;
    let f = ((hue_deg % 60) as int * (CHANNEL_ONE as int)) / 60;
    let p = ((v as int) * ((CHANNEL_ONE as int) - (s as int))) / (CHANNEL_ONE as int);
    let q = ((v as int) * ((CHANNEL_ONE as int) - ((s as int) * f) / (CHANNEL_ONE as int))) / (
    CHANNEL_ONE as int);
    let t = ((v as int) * ((CHANNEL_ONE as int) - ((s as int) * ((CHANNEL_ONE as int) - f)) / (
    CHANNEL_ONE as int))) / (CHANNEL_ONE as int);
    if sector == 0 {
        Color { red: v, green: t as u32, blue: p as u32 }
    } else if sector == 1 {
        Color { red: q as u32, green: v, blue: p as u32 }
    } else if sector == 2 {
        Color { red: p as u32, green: v, blue: t as u32 }
    } else if sector == 3 {
        Color { red: p as u32, green: q as u32, blue: v }
    } else if sector == 4 {
        Color { red: t as u32, green: p as u32, blue: v }
    } else {
        Color { red: v, green: p as u32, blue: q as u32 }
    }
}

/// The colour of a label at a ring depth: a pure function of the two, so the
/// same label and depth always give the same colour.
pub open spec fn color_model(label: Seq<char>, depth: usize) -> Color {
    let hash = label_hash(label, depth);
    hsv_to_rgb(hue_of(hash), saturation_of(hash), value_of(hash))
}

/// The colour is a pure function of label and depth alone: two calls of
/// `SunburstChart::get_color` on equal inputs return identical colours, since
/// each returns exactly `color_model` of its inputs.
pub proof fn lemma_color_deterministic(label1: Seq<char>, label2: Seq<char>, depth: usize)
    requires
        label1 == label2,
    ensures
        color_model(label1, depth) == color_model(label2, depth),
{
}

proof fn lemma_hsv_channels_bounded(hue_deg: u32, s: u32, v: u32)
    requires
        hue_deg < 360,
        600000 <= s < 800000,
        700000 <= v < 900000,
    ensures
        0 <= ((hue_deg % 60) as int * (CHANNEL_ONE as int)) / 60 <= CHANNEL_ONE as int,
        0 <= ((v as int) * ((CHANNEL_ONE as int) - (s as int))) / (CHANNEL_ONE as int) <= v,
        0 <= ((v as int) * ((CHANNEL_ONE as int) - ((s as int) * (((hue_deg % 60) as int * (
        CHANNEL_ONE as int)) / 60)) / (CHANNEL_ONE as int))) / (CHANNEL_ONE as int) <= v,
        0 <= ((v as int) * ((CHANNEL_ONE as int) - ((s as int) * ((CHANNEL_ONE as int) - (((
        hue_deg % 60) as int * (CHANNEL_ONE as int)) / 60))) / (CHANNEL_ONE as int))) / (
        CHANNEL_ONE as int) <= v,
{
    let one = CHANNEL_ONE as int;
    let f = ((hue_deg % 60) as int * one) / 60;
    assert(0 <= f <= one) by (nonlinear_arith)
        requires
            f == (((hue_deg % 60) as int) * one) / 60,
            0 <= ((hue_deg % 60) as int) < 60,
            one == 1000000;
    let sf = ((s as int) * f) / one;
    assert(0 <= sf <= s as int) by (nonlinear_arith)
        requires
            sf == ((s as int) * f) / one,
            0 <= f <= one,
            0 < one,
            0 <= s as int;
    let sg = ((s as int) * (one - f)) / one;
    assert(0 <= sg <= s as int) by (nonlinear_arith)
        requires
            sg == ((s as int) * (one - f)) / one,
            0 <= f <= one,
            0 < one,
            0 <= s as int;
    assert(0 <= ((v as int) * (one - (s as int))) / one <= v as int) by (nonlinear_arith)
        requires
            (s as int) < one,
            0 <= s as int,
            0 <= v as int,
            0 < one;
    assert(0 <= ((v as int) * (one - sf)) / one <= v as int) by (nonlinear_arith)
        requires
            0 <= sf <= s as int,
            (s as int) < one,
            0 <= v as int,
            0 < one;
    assert(0 <= ((v as int) * (one - sg)) / one <= v as int) by (nonlinear_arith)
        requires
            0 <= sg <= s as int,
            (s as int) < one,
            0 <= v as int,
            0 < one;
}

/// The running hash of a label's UTF-8 bytes, seeded with `depth * 100`.
pub fn hash_label(name: &str, depth: usize) -> (h: u32)
    ensures
        h == label_hash(name@, depth),
{
    let seed: u32 = (((depth as u128) * 100) % (HASH_MODULUS as u128)) as u32;
    let bytes: &[u8] = name.as_bytes();
    let ghost all: Seq<u8> = bytes@;
    let mut h: u32 = seed;
    let mut i: usize = 0;
    let n: usize = bytes.len();
    while i < n
        invariant
            n == all.len(),
            bytes@ == all,
            i <= n,
            hash_from(seed, all, 0) == hash_from(h, all, i as int),
        decreases n - i,
    {
        let b: u8 = bytes[i];
        let ghost h0: u32 = h;
        proof {
            assert(hash_from(h0, all, i as int) == hash_from(hash_step(h0, b), all, i + 1));
        }
        h = h.wrapping_mul(31).wrapping_add(b as u32);
        proof {
            let r: int = HASH_MODULUS as int;
            let m: int = ((h0 as int) * 31) % r;
            vstd::arithmetic::div_mod::lemma_mod_bound((h0 as int) * 31, r);
            vstd::arithmetic::div_mod::lemma_add_mod_noop((h0 as int) * 31, b as int, r);
            vstd::arithmetic::div_mod::lemma_small_mod(b as nat, HASH_MODULUS as nat);
            if m + b > u32::MAX {
                vstd::arithmetic::div_mod::lemma_mod_sub_multiples_vanish(m + b, r);
                vstd::arithmetic::div_mod::lemma_small_mod((m + b - r) as nat, HASH_MODULUS as nat);
            } else {
                vstd::arithmetic::div_mod::lemma_small_mod((m + b) as nat, HASH_MODULUS as nat);
            }
            assert(h == hash_step(h0, b));
        }
        i = i + 1;
    }
    assert(hash_from(h, all, n as int) == h);
    h
}

impl Color {
    /// Converts hue (degrees), saturation and value (scaled units) to RGB.
    pub fn from_hsv(hue_deg: u32, s: u32, v: u32) -> (c: Color)
        requires
            hue_deg < 360,
            600000 <= s < 800000,
            700000 <= v < 900000,
        ensures
            c == hsv_to_rgb(hue_deg, s, v),
    {
        proof {
            lemma_hsv_channels_bounded(hue_deg, s, v);
        }
        let one: u64 = CHANNEL_ONE as u64;
        let sector: u32 = hue_deg / 60;
        let f: u64 = ((hue_deg % 60) as u64 * one) / 60;
        assert(f <= one) by (nonlinear_arith)
            requires
                f == ((hue_deg % 60) as u64 as int * (one as int)) / 60,
                ((hue_deg % 60) as u64) < 60,
                one == 1000000;
        assert(((s as u64) as int * (f as int)) / (one as int) <= one as int) by (nonlinear_arith)
            requires
                (s as u64) < 800000,
                f <= one,
                one == 1000000;
        assert(((s as u64) as int * ((one - f) as int)) / (one as int) <= one as int)
            by (nonlinear_arith)
            requires
                (s as u64) < 800000,
                f <= one,
                one == 1000000;
        let p: u32 = (((v as u64) * (one - (s as u64))) / one) as u32;
        let q: u32 = (((v as u64) * (one - ((s as u64) * f) / one)) / one) as u32;
        let t: u32 = (((v as u64) * (one - ((s as u64) * (one - f)) / one)) / one) as u32;
        if sector == 0 {
            Color { red: v, green: t, blue: p }
        } else if sector == 1 {
            Color { red: q, green: v, blue: p }
        } else if sector == 2 {
            Color { red: p, green: v, blue: t }
        } else if sector == 3 {
            Color { red: p, green: q, blue: v }
        } else if sector == 4 {
            Color { red: t, green: p, blue: v }
        } else {
            Color { red: v, green: p, blue: q }
        }
    }
}

} // verus!
