use vstd::prelude::*;

verus! {

/// A colour with 8-bit channels; a channel `c` stands for the
/// normalized intensity `c / 255`.
#[derive(Clone, Copy, Debug, PartialEq, Eq, Structural)]
pub struct Color {
    pub red: u8,
    pub green: u8,
    pub blue: u8,
    pub opacity: u8,
}

/// Why a hex colour string was refused.
#[derive(Debug)]
pub enum ParseColorError {
    /// The digits after the optional `#` were neither 6 nor 8 long.
    InvalidLength { len: usize },
    /// The text (all of it) held a character that is not a hex digit.
    InvalidHex(String),
}

/// Value of a hex digit, or none for any other character.
pub open spec fn hex_digit_value(c: char) -> Option<nat> {
    if '0' <= c && c <= '9' {
        Some((c as nat - '0' as nat) as nat)
    } else if 'a' <= c && c <= 'f' {
        Some((c as nat - 'a' as nat + 10) as nat)
    } else if 'A' <= c && c <= 'F' {
        Some((c as nat - 'A' as nat + 10) as nat)
    } else {
        None
    }
}

pub open spec fn all_hex_digits(t: Seq<char>) -> bool {
    forall|i: int| 0 <= i < t.len() ==> (#[trigger] hex_digit_value(t[i])).is_some()
}

/// The text after one optional leading `#`.
pub open spec fn hex_body(s: Seq<char>) -> Seq<char> {
    if s.len() > 0 && s[0] == '#' {
        s.drop_first()
    } else {
        s
    }
}

/// The number that the hex digits of `t` spell, most significant first.
pub open spec fn hex_value(t: Seq<char>) -> nat
    decreases t.len(),
{
    if t.len() == 0 {
        0
    } else {
        hex_value(t.drop_last()) * 16 + hex_digit_value(t.last()).unwrap_or(0)
    }
}

/// The byte spelled by the two digits of `t` at `2 * k` and `2 * k + 1`.
pub open spec fn hex_byte(t: Seq<char>, k: int) -> u8 {
    (hex_digit_value(t[2 * k]).unwrap_or(0) * 16 + hex_digit_value(t[2 * k + 1]).unwrap_or(0)) as u8
}

/// The colour that a well-formed body of 6 (`RRGGBB`) or 8 (`AARRGGBB`) digits names.
pub open spec fn color_of_hex(t: Seq<char>) -> Color {
    if t.len() == 6 {
        Color { red: hex_byte(t, 0), green: hex_byte(t, 1), blue: hex_byte(t, 2), opacity: 255 }
    } else {
        Color { red: hex_byte(t, 1), green: hex_byte(t, 2), blue: hex_byte(t, 3), opacity: hex_byte(t, 0) }
    }
}

/// The text is a well-formed hex colour.
pub open spec fn hex_ok(s: Seq<char>) -> bool {
    (hex_body(s).len() == 6 || hex_body(s).len() == 8) && all_hex_digits(hex_body(s))
}

/// `res` is what `Color::from_hex` gives on the text `s`.
pub open spec fn hex_result(s: Seq<char>, res: Result<Color, ParseColorError>) -> bool {
    let t = hex_body(s);
    match res {
        Ok(c) => hex_ok(s) && c == color_of_hex(t),
        Err(ParseColorError::InvalidLength { len }) => t.len() != 6 && t.len() != 8 && len == t.len(),
        Err(ParseColorError::InvalidHex(text)) => (t.len() == 6 || t.len() == 8) && !all_hex_digits(t)
            && text@ == s,
    }
}

/// The 32-bit word `0xAARRGGBB` of a colour.
pub open spec fn packed(c: Color) -> nat {
    c.opacity as nat * 0x1000000 + c.red as nat * 0x10000 + c.green as nat * 0x100 + c.blue as nat
}

pub open spec fn clamp_ratio(num: int, den: int) -> int {
    if num < 0 {
        0
    } else if num > den {
        den
    } else {
        num
    }
}

/// `a + (b - a) * r / d`, rounded to the nearest level (halves away from `a`).
pub open spec fn blend_channel(a: u8, b: u8, r: nat, d: nat) -> int {
    if a <= b {
        a + (((b - a) * r * 2 + d) as nat / (2 * d))
    } else {
        a - (((a - b) * r * 2 + d) as nat / (2 * d))
    }
}

/// The blend of `a` towards `b` by the ratio `r / d` (with `0 <= r <= d`).
pub open spec fn blend_spec(a: Color, b: Color, r: nat, d: nat) -> Color {
    Color {
        red: blend_channel(a.red, b.red, r, d) as u8,
        green: blend_channel(a.green, b.green, r, d) as u8,
        blue: blend_channel(a.blue, b.blue, r, d) as u8,
        opacity: blend_channel(a.opacity, b.opacity, r, d) as u8,
    }
}

/// A fully opaque colour.
pub fn rgb(red: u8, green: u8, blue: u8) -> (c: Color)
    ensures
        c == (Color { red, green, blue, opacity: 255 }),
{
    Color { red, green, blue, opacity: 255 }
}

fn hex_digit(c: char) -> (r: Option<u8>)
    ensures
        r.is_some() == hex_digit_value(c).is_some(),
        r.is_some() ==> r.unwrap() as nat == hex_digit_value(c).unwrap(),
{
    if '0' <= c && c <= '9' {
        Some((c as u32 - '0' as u32) as u8)
    } else if 'a' <= c && c <= 'f' {
        Some((c as u32 - 'a' as u32 + 10) as u8)
    } else if 'A' <= c && c <= 'F' {
        Some((c as u32 - 'A' as u32 + 10) as u8)
    } else {
        None
    }
}

impl Color {
    pub fn from_rgba_u8(r: u8, g: u8, b: u8, a: u8) -> (c: Color)
        ensures
            c == (Color { red: r, green: g, blue: b, opacity: a }),
    {
        Color { red: r, green: g, blue: b, opacity: a }
    }

    /// Parses "#RRGGBB", "RRGGBB", "#AARRGGBB" or "AARRGGBB".
    pub fn from_hex(s: &str) -> (res: Result<Color, ParseColorError>)
        ensures
            hex_result(s@, res),
    {
        let n = s.unicode_len();
        let start: usize = if n > 0 && s.get_char(0) == '#' { 1 } else { 0 };
        let len: usize = n - start;
        let ghost t = hex_body(s@);
        assert(t =~= s@.subrange(start as int, n as int));
        if len != 6 && len != 8 {
            return Err(ParseColorError::InvalidLength { len });
        }
        let mut bytes: Vec<u8> = Vec::new();
        let mut k: usize = 0;
        while k < len / 2
            invariant
                len == 6 || len == 8,
                t == hex_body(s@),
                t.len() == len,
                t =~= s@.subrange(start as int, n as int),
                n == s@.len(),
                start + len == n,
                k <= len / 2,
                bytes@.len() == k,
                forall|i: int| 0 <= i < 2 * k ==> (#[trigger] hex_digit_value(t[i])).is_some(),
                forall|j: int| 0 <= j < k ==> bytes@[j] == #[trigger] hex_byte(t, j),
            decreases len / 2 - k,
        {
            let hi = hex_digit(s.get_char(start + 2 * k));
            let lo = hex_digit(s.get_char(start + 2 * k + 1));
            match (hi, lo) {
                (Some(h), Some(l)) => {
                    bytes.push(h * 16 + l);
                    k = k + 1;
                },
                _ => {
                    assert(!all_hex_digits(t)) by {
                        if hi.is_none() {
                            assert(hex_digit_value(t[2 * k as int]).is_none());
                        } else {
                            assert(hex_digit_value(t[2 * k + 1]).is_none());
                        }
                    }
                    return Err(ParseColorError::InvalidHex(String::from_str(s)));
                },
            }
        }
        assert(all_hex_digits(t));
        if len == 6 {
            Ok(Color::from_rgba_u8(bytes[0], bytes[1], bytes[2], 255))
        } else {
            Ok(Color::from_rgba_u8(bytes[1], bytes[2], bytes[3], bytes[0]))
        }
    }

    /// Moves each channel towards `other` by the ratio `ratio_num / ratio_den`,
    /// which is first clamped to `[0, 1]`.
    pub fn blend(&self, other: &Color, ratio_num: i64, ratio_den: u32) -> (c: Color)
        requires
            ratio_den > 0,
        ensures
            c == blend_spec(*self, *other, clamp_ratio(ratio_num as int, ratio_den as int) as nat, ratio_den as nat),
    {
        let r: u64 = if ratio_num < 0 {
            0
        } else if ratio_num > ratio_den as i64 {
            ratio_den as u64
        } else {
            ratio_num as u64
        };
        let d = ratio_den as u64;
        Color {
            red: blend_u8(self.red, other.red, r, d),
            green: blend_u8(self.green, other.green, r, d),
            blue: blend_u8(self.blue, other.blue, r, d),
            opacity: blend_u8(self.opacity, other.opacity, r, d),
        }
    }

    /// The packed pixel word `0xAARRGGBB`; in memory on a little-endian
    /// machine its bytes read blue, green, red, opacity.
    pub fn as_argb8888(&self) -> (p: u32)
        ensures
            p as nat == packed(*self),
    {
        (self.opacity as u32) * 0x1000000 + (self.red as u32) * 0x10000 + (self.green as u32) * 0x100
            + (self.blue as u32)
    }
}

proof fn lemma_blend_channel_ends(a: u8, b: u8, d: nat)
    requires
        d > 0,
    ensures
        blend_channel(a, b, 0, d) == a,
        blend_channel(a, b, d, d) == b,
{
    assert(d / (2 * d) == 0) by (nonlinear_arith)
        requires
            d > 0,
    ;
    let x: nat = if a <= b { (b - a) as nat } else { (a - b) as nat };
    assert(x * 0 * 2 + d == d) by (nonlinear_arith);
    assert((x * d * 2 + d) / (2 * d) == x) by (nonlinear_arith)
        requires
            d > 0,
    ;
}

/// Blending clamps its ratio: a ratio below zero blends as zero does and
/// leaves the first colour, a ratio above one blends as one does and gives
/// the second colour.
pub proof fn lemma_blend_clamps(a: Color, b: Color, num: int, den: nat)
    requires
        den > 0,
    ensures
        num < 0 ==> blend_spec(a, b, clamp_ratio(num, den as int) as nat, den) == blend_spec(a, b, 0, den),
        num > den ==> blend_spec(a, b, clamp_ratio(num, den as int) as nat, den) == blend_spec(a, b, den, den),
        blend_spec(a, b, 0, den) == a,
        blend_spec(a, b, den, den) == b,
{
    lemma_blend_channel_ends(a.red, b.red, den);
    lemma_blend_channel_ends(a.green, b.green, den);
    lemma_blend_channel_ends(a.blue, b.blue, den);
    lemma_blend_channel_ends(a.opacity, b.opacity, den);
}

/// A well-formed hex colour packs to the number that its digits spell: all
/// eight digits as written, or six digits under a fully opaque top byte.
pub proof fn lemma_hex_packs_to_digits(s: Seq<char>)
    requires
        hex_body(s).len() == 6 || hex_body(s).len() == 8,
        all_hex_digits(hex_body(s)),
    ensures
        hex_body(s).len() == 8 ==> packed(color_of_hex(hex_body(s))) == hex_value(hex_body(s)),
        hex_body(s).len() == 6 ==> packed(color_of_hex(hex_body(s))) == 0xFF000000 + hex_value(
            hex_body(s),
        ),
{
    let t = hex_body(s);
    let n = t.len() as int;
    let v = |i: int| hex_digit_value(t[i]).unwrap_or(0);
    assert forall|i: int| 0 <= i < n implies #[trigger] v(i) < 16 by {
        assert(hex_digit_value(t[i]).is_some());
    }
    assert forall|j: int| 0 < j <= n implies hex_value(#[trigger] t.subrange(0, j)) == hex_value(
        t.subrange(0, j - 1),
    ) * 16 + v(j - 1) by {
        assert(t.subrange(0, j).drop_last() =~= t.subrange(0, j - 1));
    }
    assert(t.subrange(0, 0).len() == 0);
    assert(t.subrange(0, n) =~= t);
    let h1 = hex_value(t.subrange(0, 1));
    let h2 = hex_value(t.subrange(0, 2));
    let h3 = hex_value(t.subrange(0, 3));
    let h4 = hex_value(t.subrange(0, 4));
    let h5 = hex_value(t.subrange(0, 5));
    let h6 = hex_value(t.subrange(0, 6));
    assert(h6 == v(0) * 0x100000 + v(1) * 0x10000 + v(2) * 0x1000 + v(3) * 0x100 + v(4) * 0x10 + v(5));
    if n == 8 {
        let h7 = hex_value(t.subrange(0, 7));
        let h8 = hex_value(t.subrange(0, 8));
        assert(h8 == v(0) * 0x10000000 + v(1) * 0x1000000 + v(2) * 0x100000 + v(3) * 0x10000 + v(4)
            * 0x1000 + v(5) * 0x100 + v(6) * 0x10 + v(7));
    }
}

proof fn lemma_blend_step_bounded(x: nat, r: nat, d: nat)
    requires
        d > 0,
        r <= d,
    ensures
        (x * r * 2 + d) / (2 * d) <= x,
{
    assert(x * r * 2 + d < (x + 1) * (2 * d)) by (nonlinear_arith)
        requires
            d > 0,
            r <= d,
    ;
    assert((x * r * 2 + d) / (2 * d) < x + 1) by (nonlinear_arith)
        requires
            x * r * 2 + d < (x + 1) * (2 * d),
            d > 0,
    ;
}

fn blend_u8(a: u8, b: u8, r: u64, d: u64) -> (c: u8)
    requires
        d > 0,
        d <= u32::MAX,
        r <= d,
    ensures
        c as int == blend_channel(a, b, r as nat, d as nat),
{
    if a <= b {
        let x = (b - a) as u64;
        proof {
            lemma_blend_step_bounded(x as nat, r as nat, d as nat);
            assert(x * r * 2 + d <= 255 * 0xffff_ffff * 2 + 0xffff_ffff) by (nonlinear_arith)
                requires
                    x <= 255,
                    r <= d,
                    d <= 0xffff_ffff,
            ;
        }
        a + ((x * r * 2 + d) / (2 * d)) as u8
    } else {
        let x = (a - b) as u64;
        proof {
            lemma_blend_step_bounded(x as nat, r as nat, d as nat);
            assert(x * r * 2 + d <= 255 * 0xffff_ffff * 2 + 0xffff_ffff) by (nonlinear_arith)
                requires
                    x <= 255,
                    r <= d,
                    d <= 0xffff_ffff,
            ;
        }
        a - ((x * r * 2 + d) / (2 * d)) as u8
    }
}

} // verus!
