use crate::hex::{all_hex_digits, digit_value, hex_value, is_hex_digit, lower_hex_digit, lower_hex_digits, parse_hex};
use vstd::prelude::*;

verus! {

/// Relies on `String::push`: appends one character at the end.
#[verifier::external_body]
fn push_char(s: &mut String, c: char)
    ensures
        final(s)@ == old(s)@.push(c),
{
    s.push(c)
}

/// Relies on `u32::to_ne_bytes`: the four bytes of the value in the machine's own order,
/// which is either little-endian or big-endian.
#[verifier::external_body]
fn native_bytes(v: u32) -> (b: [u8; 4])
    ensures
        b@ == le_bytes(v) || b@ == be_bytes(v),
{
    v.to_ne_bytes()
}

/// The bytes of `v`, least significant first.
pub open spec fn le_bytes(v: u32) -> Seq<u8> {
    seq![
        (v % 0x100) as u8,
        ((v / 0x100) % 0x100) as u8,
        ((v / 0x1_0000) % 0x100) as u8,
        (v / 0x100_0000) as u8,
    ]
}

/// The bytes of `v`, most significant first.
pub open spec fn be_bytes(v: u32) -> Seq<u8> {
    le_bytes(v).reverse()
}

/// The packed RGBA8888 value with the given channels: red in the top byte, alpha in the
/// bottom one.
pub open spec fn pack(r: u8, g: u8, b: u8, a: u8) -> u32 {
    (r as int * 0x100_0000 + g as int * 0x1_0000 + b as int * 0x100 + a as int) as u32
}

/// The red channel of a packed value.
pub open spec fn red(v: u32) -> u8 {
    (v / 0x100_0000) as u8
}

/// The green channel of a packed value.
pub open spec fn green(v: u32) -> u8 {
    ((v / 0x1_0000) % 0x100) as u8
}

/// The blue channel of a packed value.
pub open spec fn blue(v: u32) -> u8 {
    ((v / 0x100) % 0x100) as u8
}

/// The alpha channel of a packed value.
pub open spec fn alpha(v: u32) -> u8 {
    (v % 0x100) as u8
}

/// The rounded mean of two channel values, halves rounded up.
pub open spec fn mid_channel(a: u8, b: u8) -> u8 {
    ((a as int + b as int + 1) / 2) as u8
}

/// The square of the difference of two channel values.
pub open spec fn channel_dist_sq(a: u8, b: u8) -> int {
    (a as int - b as int) * (a as int - b as int)
}

/// Packing four channels and reading them back gives the same four channels, and every
/// packed value is the packing of its own channels.
pub proof fn lemma_pack_channels(r: u8, g: u8, b: u8, a: u8, v: u32)
    ensures
        red(pack(r, g, b, a)) == r,
        green(pack(r, g, b, a)) == g,
        blue(pack(r, g, b, a)) == b,
        alpha(pack(r, g, b, a)) == a,
        pack(red(v), green(v), blue(v), alpha(v)) == v,
{
}

/// `s` without the `#` characters it starts with.
pub open spec fn trim_hashes(s: Seq<char>) -> Seq<char>
    decreases s.len(),
{
    if s.len() > 0 && s[0] == '#' {
        trim_hashes(s.drop_first())
    } else {
        s
    }
}

/// The 24-bit RGB value that hexadecimal colour text spells, once its leading `#` characters
/// are gone: three digits stand for six with each one doubled (`f80` is `ff8800`), and six
/// digits are read as they are. As in std's integer parsing, a `+` may come before five
/// digits.
pub open spec fn hex_rgb_value(h: Seq<char>) -> Option<nat> {
    if h.len() == 3 && all_hex_digits(h) {
        Some(hex_value(seq![h[0], h[0], h[1], h[1], h[2], h[2]]))
    } else if h.len() == 6 && all_hex_digits(h) {
        Some(hex_value(h))
    } else if h.len() == 6 && h[0] == '+' && all_hex_digits(h.drop_first()) {
        Some(hex_value(h.drop_first()))
    } else {
        None
    }
}

/// The value of the three hexadecimal digits of `s` from `at` on with each digit doubled,
/// or `None` unless all three are digits.
fn parse_short_hex(s: &str, at: usize) -> (r: Option<u32>)
    requires
        at + 3 == s@.len() <= usize::MAX,
    ensures
        ({
            let h = s@.subrange(at as int, at + 3);
            &&& all_hex_digits(h) ==> hex_value(seq![h[0], h[0], h[1], h[1], h[2], h[2]]) < 0x100_0000
            &&& r == (if all_hex_digits(h) {
                Some(hex_value(seq![h[0], h[0], h[1], h[1], h[2], h[2]]) as u32)
            } else {
                None
            })
        }),
{
    let ghost h = s@.subrange(at as int, at + 3);
    let c0 = s.get_char(at);
    let c1 = s.get_char(at + 1);
    let c2 = s.get_char(at + 2);
    assert(h[0] == c0 && h[1] == c1 && h[2] == c2);
    match (digit_value(c0), digit_value(c1), digit_value(c2)) {
        (Some(d0), Some(d1), Some(d2)) => {
            assert(all_hex_digits(h)) by {
                assert forall|j: int| 0 <= j < 3 implies is_hex_digit(#[trigger] h[j]) by {}
            }
            let ghost doubled = seq![c0, c0, c1, c1, c2, c2];
            assert(hex_value(doubled) == d0 * 0x11_0000 + d1 * 0x1100 + d2 * 0x11) by {
                reveal_with_fuel(hex_value, 7);
                assert(doubled.drop_last() =~= seq![c0, c0, c1, c1, c2]);
                assert(doubled.drop_last().drop_last() =~= seq![c0, c0, c1, c1]);
                assert(doubled.drop_last().drop_last().drop_last() =~= seq![c0, c0, c1]);
                assert(doubled.drop_last().drop_last().drop_last().drop_last() =~= seq![c0, c0]);
                assert(seq![c0, c0].drop_last() =~= seq![c0]);
                assert(seq![c0].drop_last() =~= Seq::<char>::empty());
            }
            Some(d0 * 0x11_0000 + d1 * 0x1100 + d2 * 0x11)
        },
        _ => None,
    }
}

/// A colour stored as one RGBA8888 word.
#[derive(Clone, Copy, Debug)]
pub struct UniColor(u32);

impl View for UniColor {
    type V = u32;

    closed spec fn view(&self) -> u32 {
        self.0
    }
}

impl UniColor {
    /// An opaque colour from its red, green and blue channels.
    pub fn from_rgb(r: u8, g: u8, b: u8) -> (c: Self)
        ensures
            c@ == pack(r, g, b, 0xff),
    {
        let v: u32 = ((r as u32) << 24) | ((g as u32) << 16) | ((b as u32) << 8) | 0xff;
        assert(v == pack(r, g, b, 0xff)) by (bit_vector)
            requires
                v == ((r as u32) << 24) | ((g as u32) << 16) | ((b as u32) << 8) | 0xff,
        ;
        UniColor(v)
    }

    /// A colour from its red, green, blue and alpha channels.
    pub fn from_rgba(r: u8, g: u8, b: u8, a: u8) -> (c: Self)
        ensures
            c@ == pack(r, g, b, a),
    {
        let v: u32 = ((r as u32) << 24) | ((g as u32) << 16) | ((b as u32) << 8) | (a as u32);
        assert(v == pack(r, g, b, a)) by (bit_vector)
            requires
                v == ((r as u32) << 24) | ((g as u32) << 16) | ((b as u32) << 8) | (a as u32),
        ;
        UniColor(v)
    }

    /// The red, green and blue channels.
    pub fn to_rgb(&self) -> (t: (u8, u8, u8))
        ensures
            t == (red(self@), green(self@), blue(self@)),
    {
        let (r, g, b, _a) = self.to_rgba();
        (r, g, b)
    }

    /// The red, green, blue and alpha channels.
    pub fn to_rgba(&self) -> (t: (u8, u8, u8, u8))
        ensures
            t == (red(self@), green(self@), blue(self@), alpha(self@)),
    {
        let v = self.0;
        let r = (v >> 24) as u8;
        let g = (v >> 16) as u8;
        let b = (v >> 8) as u8;
        let a = (v & 0xff) as u8;
        assert(r == red(v) && g == green(v) && b == blue(v) && a == alpha(v)) by (bit_vector)
            requires
                r == (v >> 24) as u8,
                g == (v >> 16) as u8,
                b == (v >> 8) as u8,
                a == (v & 0xff) as u8,
        ;
        (r, g, b, a)
    }

    /// An opaque colour from hexadecimal text such as `#ff8800` or `f80`; `None` where the
    /// text spells no colour.
    pub fn from_hex(hex: &str) -> (r: Option<Self>)
        ensures
            match hex_rgb_value(trim_hashes(hex@)) {
                Some(v) => r is Some && r.unwrap()@ == v * 0x100 + 0xff,
                None => r is None,
            },
    {
        let n = hex.unicode_len();
        let mut k: usize = 0;
        assert(hex@.subrange(0, n as int) =~= hex@);
        while k < n && hex.get_char(k) == '#'
            invariant
                k <= n == hex@.len(),
                trim_hashes(hex@) == trim_hashes(hex@.subrange(k as int, n as int)),
            decreases n - k,
        {
            assert(hex@.subrange(k as int, n as int).drop_first() =~= hex@.subrange(k + 1, n as int));
            k = k + 1;
        }
        let ghost h = hex@.subrange(k as int, n as int);
        assert(trim_hashes(hex@) == h);
        let rgb = if n - k == 3 {
            parse_short_hex(hex, k)
        } else if n - k == 6 {
            if hex.get_char(k) == '+' {
                assert(hex@.subrange(k + 1, n as int) =~= h.drop_first());
                parse_hex(hex, k + 1, n)
            } else {
                parse_hex(hex, k, n)
            }
        } else {
            None
        };
        match rgb {
            Some(v) => {
                let c: u32 = (v << 8) | 0xff;
                assert(c == v * 0x100 + 0xff) by (bit_vector)
                    requires
                        v < 0x100_0000,
                        c == (v << 8) | 0xff,
                ;
                Some(UniColor(c))
            },
            None => None,
        }
    }

    /// The red, green and blue channels as `0x` followed by six lower-case hexadecimal
    /// digits.
    pub fn to_hex(&self) -> (s: String)
        ensures
            s@ == seq!['0', 'x'] + lower_hex_digits((self@ / 0x100) as nat, 6),
    {
        let v: u32 = self.0;
        let w: u32 = v >> 8;
        assert(w == v / 0x100) by (bit_vector)
            requires
                w == v >> 8,
        ;
        let mut s = String::new();
        push_char(&mut s, '0');
        push_char(&mut s, 'x');
        let mut i: u32 = 6;
        while i > 0
            invariant
                i <= 6,
                w == self@ / 0x100,
                s@ == seq!['0', 'x'] + lower_hex_digits((w >> (4 * i)) as nat, (6 - i) as nat),
            decreases i,
        {
            let shift: u32 = 4 * (i - 1);
            let part: u32 = w >> shift;
            let d: u32 = part & 0xf;
            assert(d == part % 16 && part / 16 == w >> (4 * i) && d < 16) by (bit_vector)
                requires
                    1 <= i <= 6,
                    shift == 4 * (i - 1),
                    part == w >> shift,
                    d == part & 0xf,
            ;
            push_char(&mut s, lower_hex_digit(d));
            i = i - 1;
            assert(s@ == seq!['0', 'x'] + lower_hex_digits(part as nat, (6 - i) as nat));
        }
        assert(w >> 0u32 == w) by (bit_vector);
        s
    }

    /// The packed value's four bytes in the machine's own byte order.
    pub fn as_bytes(&self) -> (b: [u8; 4])
        ensures
            b@ == le_bytes(self@) || b@ == be_bytes(self@),
    {
        native_bytes(self.0)
    }

    /// The colour halfway between this one and `other`, channel by channel, halves rounded
    /// up.
    pub fn midpoint(&self, other: &Self) -> (c: Self)
        ensures
            c@ == pack(
                mid_channel(red(self@), red(other@)),
                mid_channel(green(self@), green(other@)),
                mid_channel(blue(self@), blue(other@)),
                mid_channel(alpha(self@), alpha(other@)),
            ),
    {
        let (r1, g1, b1, a1) = self.to_rgba();
        let (r2, g2, b2, a2) = other.to_rgba();
        let r = ((r1 as u16 + r2 as u16 + 1) / 2) as u8;
        let g = ((g1 as u16 + g2 as u16 + 1) / 2) as u8;
        let b = ((b1 as u16 + b2 as u16 + 1) / 2) as u8;
        let a = ((a1 as u16 + a2 as u16 + 1) / 2) as u8;
        UniColor::from_rgba(r, g, b, a)
    }

    /// The squared Euclidean distance between the two colours in RGBA space.
    pub fn distance_squared(&self, other: &Self) -> (d: u32)
        ensures
            d == channel_dist_sq(red(self@), red(other@)) + channel_dist_sq(green(self@), green(other@))
                + channel_dist_sq(blue(self@), blue(other@)) + channel_dist_sq(alpha(self@), alpha(other@)),
    {
        let (r1, g1, b1, a1) = self.to_rgba();
        let (r2, g2, b2, a2) = other.to_rgba();
        let dr: i32 = r1 as i32 - r2 as i32;
        let dg: i32 = g1 as i32 - g2 as i32;
        let db: i32 = b1 as i32 - b2 as i32;
        let da: i32 = a1 as i32 - a2 as i32;
        assert(0 <= dr * dr <= 255 * 255) by (nonlinear_arith)
            requires
                -255 <= dr <= 255,
        ;
        assert(0 <= dg * dg <= 255 * 255) by (nonlinear_arith)
            requires
                -255 <= dg <= 255,
        ;
        assert(0 <= db * db <= 255 * 255) by (nonlinear_arith)
            requires
                -255 <= db <= 255,
        ;
        assert(0 <= da * da <= 255 * 255) by (nonlinear_arith)
            requires
                -255 <= da <= 255,
        ;
        (dr * dr + dg * dg + db * db + da * da) as u32
    }
}

} // verus!
