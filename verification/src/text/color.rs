//! Text colors: the sixteen named colors of legacy chat codes, or any RGB
//! value, written in JSON as a lowercase name or as `#RRGGBB`.
use vstd::prelude::*;

verus! {

/// A Minecraft text color.
#[derive(Debug, Clone, Copy, PartialEq, Eq, Hash, Structural)]
pub enum TextColor {
    Named(NamedTextColor),
    Custom(u32),
}

/// The vanilla named colors, in the order of the legacy chat codes.
#[derive(Debug, Clone, Copy, PartialEq, Eq, Hash, Structural)]
pub enum NamedTextColor {
    Black,
    DarkBlue,
    DarkGreen,
    DarkAqua,
    DarkRed,
    DarkPurple,
    Gold,
    Gray,
    DarkGray,
    Blue,
    Green,
    Aqua,
    Red,
    LightPurple,
    Yellow,
    White,
}

/// The RGB value of a named color.
pub open spec fn named_rgb(c: NamedTextColor) -> u32 {
    match c {
        NamedTextColor::Black => 0x000000,
        NamedTextColor::DarkBlue => 0x0000AA,
        NamedTextColor::DarkGreen => 0x00AA00,
        NamedTextColor::DarkAqua => 0x00AAAA,
        NamedTextColor::DarkRed => 0xAA0000,
        NamedTextColor::DarkPurple => 0xAA00AA,
        NamedTextColor::Gold => 0xFFAA00,
        NamedTextColor::Gray => 0xAAAAAA,
        NamedTextColor::DarkGray => 0x555555,
        NamedTextColor::Blue => 0x5555FF,
        NamedTextColor::Green => 0x55FF55,
        NamedTextColor::Aqua => 0x55FFFF,
        NamedTextColor::Red => 0xFF5555,
        NamedTextColor::LightPurple => 0xFF55FF,
        NamedTextColor::Yellow => 0xFFFF55,
        NamedTextColor::White => 0xFFFFFF,
    }
}

/// The position of a named color among the sixteen legacy chat codes
/// (`0` to `f`).
pub open spec fn legacy_code(c: NamedTextColor) -> nat {
    match c {
        NamedTextColor::Black => 0,
        NamedTextColor::DarkBlue => 1,
        NamedTextColor::DarkGreen => 2,
        NamedTextColor::DarkAqua => 3,
        NamedTextColor::DarkRed => 4,
        NamedTextColor::DarkPurple => 5,
        NamedTextColor::Gold => 6,
        NamedTextColor::Gray => 7,
        NamedTextColor::DarkGray => 8,
        NamedTextColor::Blue => 9,
        NamedTextColor::Green => 10,
        NamedTextColor::Aqua => 11,
        NamedTextColor::Red => 12,
        NamedTextColor::LightPurple => 13,
        NamedTextColor::Yellow => 14,
        NamedTextColor::White => 15,
    }
}

/// One channel of legacy code `i`: `0xAA` when its `bit` is set, plus
/// `0x55` for the bright codes (`8` to `f`).
pub open spec fn legacy_channel(i: nat, bit: nat) -> nat {
    (if (i / bit) % 2 == 1 { 0xAAnat } else { 0nat }) + (if i >= 8 { 0x55nat } else { 0nat })
}

/// The classic palette of legacy code `i`: red from bit 4, green from
/// bit 2, blue from bit 1, all brightened by `0x55` from code 8 on.
pub open spec fn legacy_palette(i: nat) -> nat {
    legacy_channel(i, 4) * 0x10000 + legacy_channel(i, 2) * 0x100 + legacy_channel(i, 1)
}

/// The named colors have the vanilla palette: each the classic value of
/// its legacy code, except gold, which is `0xFFAA00` rather than
/// `0xAAAA00`; no two named colors share a value.
pub proof fn lemma_named_rgb_palette(c: NamedTextColor, d: NamedTextColor)
    ensures
        legacy_code(c) < 16,
        c != NamedTextColor::Gold ==> named_rgb(c) == legacy_palette(legacy_code(c)),
        named_rgb(NamedTextColor::Gold) == 0xFFAA00,
        legacy_palette(legacy_code(NamedTextColor::Gold)) == 0xAAAA00,
        named_rgb(c) == named_rgb(d) ==> c == d,
        legacy_code(c) == legacy_code(d) ==> c == d,
{
}

/// The RGB value of a color.
pub open spec fn color_rgb(c: TextColor) -> u32 {
    match c {
        TextColor::Named(n) => named_rgb(n),
        TextColor::Custom(v) => v,
    }
}

/// The uppercase hex digit of `d` (below 16).
pub open spec fn hex_digit(d: u32) -> char {
    if d < 10 {
        (('0' as u32) + d) as char
    } else {
        (('A' as u32) + d - 10) as char
    }
}

/// The `n` lowest hex digits of `v`, most significant first.
pub open spec fn hex_digits(v: u32, n: nat) -> Seq<char>
    decreases n,
{
    if n == 0 {
        Seq::empty()
    } else {
        hex_digits(v / 16, (n - 1) as nat).push(hex_digit(v % 16))
    }
}

/// How many hex digits `#{:06X}` writes for `v`: six, or as many as `v` needs.
pub open spec fn hex_width(v: u32) -> nat {
    if v < 0x100_0000 {
        6
    } else if v < 0x1000_0000 {
        7
    } else {
        8
    }
}

/// `v` as `#` and its uppercase hex digits, zero-padded to six.
pub open spec fn hex_text(v: u32) -> Seq<char> {
    seq!['#'] + hex_digits(v, hex_width(v))
}

impl NamedTextColor {
    /// The color's RGB value.
    pub fn rgb(self) -> (v: u32)
        ensures
            v == named_rgb(self),
    {
        match self {
            NamedTextColor::Black => 0x000000,
            NamedTextColor::DarkBlue => 0x0000AA,
            NamedTextColor::DarkGreen => 0x00AA00,
            NamedTextColor::DarkAqua => 0x00AAAA,
            NamedTextColor::DarkRed => 0xAA0000,
            NamedTextColor::DarkPurple => 0xAA00AA,
            NamedTextColor::Gold => 0xFFAA00,
            NamedTextColor::Gray => 0xAAAAAA,
            NamedTextColor::DarkGray => 0x555555,
            NamedTextColor::Blue => 0x5555FF,
            NamedTextColor::Green => 0x55FF55,
            NamedTextColor::Aqua => 0x55FFFF,
            NamedTextColor::Red => 0xFF5555,
            NamedTextColor::LightPurple => 0xFF55FF,
            NamedTextColor::Yellow => 0xFFFF55,
            NamedTextColor::White => 0xFFFFFF,
        }
    }
}

/// The one-character text of hex digit `d`.
fn hex_digit_str(d: u32) -> (s: &'static str)
    requires
        d < 16,
    ensures
        s@ == seq![hex_digit(d)],
{
    let s = if d == 0 {
        "0"
    } else if d == 1 {
        "1"
    } else if d == 2 {
        "2"
    } else if d == 3 {
        "3"
    } else if d == 4 {
        "4"
    } else if d == 5 {
        "5"
    } else if d == 6 {
        "6"
    } else if d == 7 {
        "7"
    } else if d == 8 {
        "8"
    } else if d == 9 {
        "9"
    } else if d == 10 {
        "A"
    } else if d == 11 {
        "B"
    } else if d == 12 {
        "C"
    } else if d == 13 {
        "D"
    } else if d == 14 {
        "E"
    } else {
        "F"
    };
    proof {
        reveal_strlit("0");
        reveal_strlit("1");
        reveal_strlit("2");
        reveal_strlit("3");
        reveal_strlit("4");
        reveal_strlit("5");
        reveal_strlit("6");
        reveal_strlit("7");
        reveal_strlit("8");
        reveal_strlit("9");
        reveal_strlit("A");
        reveal_strlit("B");
        reveal_strlit("C");
        reveal_strlit("D");
        reveal_strlit("E");
        reveal_strlit("F");
    }
    s
}

proof fn lemma_hex_digits_shift(v: u32, n: nat, k: nat)
    requires
        k < n,
    ensures
        hex_digits(v, n)[k as int] == hex_digit(((v as nat / pow16((n - 1 - k) as nat)) % 16) as u32),
        hex_digits(v, n).len() == n,
    decreases n,
{
    lemma_hex_digits_len(v, n);
    lemma_hex_digits_len(v / 16, (n - 1) as nat);
    let h = hex_digits(v / 16, (n - 1) as nat);
    assert(hex_digits(v, n) == h.push(hex_digit(v % 16)));
    if k < n - 1 {
        lemma_hex_digits_shift(v / 16, (n - 1) as nat, k);
        lemma_div_div(v, (n - 2 - k) as nat);
        assert(((n - 1) - 1 - k) as nat == (n - 2 - k) as nat);
        assert((n - 2 - k) as nat + 1 == (n - 1 - k) as nat);
        assert(hex_digits(v, n)[k as int] == h[k as int]);
    } else {
        assert(pow16(0) == 1);
        assert(v as nat / 1 == v as nat);
        assert(hex_digits(v, n)[k as int] == hex_digit(v % 16));
    }
}

proof fn lemma_hex_digits_len(v: u32, n: nat)
    ensures
        hex_digits(v, n).len() == n,
    decreases n,
{
    if n > 0 {
        lemma_hex_digits_len(v / 16, (n - 1) as nat);
    }
}

/// `16^k`, as far as a `u32` needs.
pub open spec fn pow16(k: nat) -> nat
    decreases k,
{
    if k == 0 {
        1
    } else {
        16 * pow16((k - 1) as nat)
    }
}

proof fn lemma_div_div(v: u32, k: nat)
    ensures
        (v / 16) as nat / pow16(k) == v as nat / pow16(k + 1),
    decreases k,
{
    lemma_pow16_pos(k);
    vstd::arithmetic::div_mod::lemma_div_denominator(v as int, 16, pow16(k) as int);
    assert(pow16(k + 1) == 16 * pow16(k));
}

proof fn lemma_pow16_pos(k: nat)
    ensures
        pow16(k) > 0,
    decreases k,
{
    if k > 0 {
        lemma_pow16_pos((k - 1) as nat);
    }
}

/// The value of the uppercase hex digit `c`, if it is one.
pub open spec fn upper_hex_digit_value(c: char) -> Option<nat> {
    if '0' <= c && c <= '9' {
        Some((c as u32 - '0' as u32) as nat)
    } else if 'A' <= c && c <= 'F' {
        Some((c as u32 - 'A' as u32 + 10) as nat)
    } else {
        None
    }
}

/// The number that the uppercase hex digits `s` spell, most significant first,
/// if every character of `s` is one.
pub open spec fn upper_hex_value(s: Seq<char>) -> Option<nat>
    decreases s.len(),
{
    if s.len() == 0 {
        Some(0)
    } else {
        match (upper_hex_value(s.drop_last()), upper_hex_digit_value(s.last())) {
            (Some(h), Some(d)) => Some(h * 16 + d),
            _ => None,
        }
    }
}

proof fn lemma_hex_digit_value(d: u32)
    requires
        d < 16,
    ensures
        upper_hex_digit_value(hex_digit(d)) == Some(d as nat),
{
    if d < 10 {
        assert((('0' as u32) + d) as char as u32 == ('0' as u32) + d);
    } else {
        assert((('A' as u32) + d - 10) as char as u32 == ('A' as u32) + d - 10);
    }
}

proof fn lemma_hex_digits_value(v: u32, n: nat)
    ensures
        upper_hex_value(hex_digits(v, n)) == Some(v as nat % pow16(n)),
    decreases n,
{
    if n == 0 {
        assert(v as nat % 1 == 0);
    } else {
        let h = hex_digits(v / 16, (n - 1) as nat);
        lemma_hex_digits_value(v / 16, (n - 1) as nat);
        lemma_hex_digit_value(v % 16);
        assert(hex_digits(v, n).drop_last() == h);
        lemma_pow16_pos((n - 1) as nat);
        vstd::arithmetic::div_mod::lemma_breakdown(v as int, 16, pow16((n - 1) as nat) as int);
        assert(pow16(n) == 16 * pow16((n - 1) as nat));
        vstd::arithmetic::mul::lemma_mul_is_commutative(16, ((v as nat / 16) % pow16((n - 1) as nat)) as int);
    }
}

/// `to_hex` reads back: after the `#` come six to eight uppercase hex digits
/// (six for any value up to `0xFFFFFF`), and the number they spell is the
/// value written.
pub proof fn lemma_hex_text_reads_back(v: u32)
    ensures
        hex_text(v)[0] == '#',
        hex_text(v).len() == 1 + hex_width(v),
        v <= 0xFF_FFFF ==> hex_text(v).len() == 7,
        upper_hex_value(hex_text(v).skip(1)) == Some(v as nat),
{
    let w = hex_width(v);
    lemma_hex_digits_len(v, w);
    lemma_hex_digits_value(v, w);
    assert(hex_text(v).skip(1) == hex_digits(v, w));
    assert(pow16(6) == 0x100_0000 && pow16(7) == 0x1000_0000 && pow16(8) == 0x1_0000_0000) by {
        reveal_with_fuel(pow16, 9);
    }
    vstd::arithmetic::div_mod::lemma_small_mod(v as nat, pow16(w));
}

impl TextColor {

    /// The color's RGB value.
    pub fn rgb(self) -> (v: u32)
        ensures
            v == color_rgb(self),
    {
        match self {
            TextColor::Named(c) => c.rgb(),
            TextColor::Custom(c) => c,
        }
    }

    /// The color as `#` and its uppercase hex digits, zero-padded to six.
    pub fn to_hex(self) -> (s: String)
        ensures
            s@ == hex_text(color_rgb(self)),
    {
        let v = self.rgb();
        let width: u32 = if v < 0x100_0000 {
            6
        } else if v < 0x1000_0000 {
            7
        } else {
            8
        };
        let mut s = String::from_str("#");
        proof {
            reveal_strlit("#");
        }
        let mut i: u32 = 0;
        let mut shift: u32 = 4 * (width - 1);
        while i < width
            invariant
                width == hex_width(v),
                i <= width,
                i < width ==> shift == 4 * (width - 1 - i),
                s@ == seq!['#'] + hex_digits(v, hex_width(v)).take(i as int),
            decreases width - i,
        {
            let d = (v >> shift) & 0xF;
            proof {
                lemma_hex_digits_shift(v, hex_width(v), i as nat);
                lemma_shift_pow16(v, shift, (width - 1 - i) as nat);
                lemma_shifts(v >> shift);
                assert(hex_digits(v, hex_width(v)).take(i + 1) =~= hex_digits(v, hex_width(v)).take(
                    i as int,
                ).push(hex_digit(d)));
            }
            s.append(hex_digit_str(d));
            i = i + 1;
            if i < width {
                shift = shift - 4;
            }
        }
        proof {
            lemma_hex_digits_len(v, hex_width(v));
            assert(hex_digits(v, hex_width(v)).take(width as int) =~= hex_digits(v, hex_width(v)));
        }
        s
    }
}

proof fn lemma_shifts(v: u32)
    by (bit_vector)
    ensures
        v >> 0u32 == v,
        v >> 4u32 == v / 16,
        v >> 8u32 == v / 256,
        v >> 12u32 == v / 4096,
        v >> 16u32 == v / 65536,
        v >> 20u32 == v / 1048576,
        v >> 24u32 == v / 16777216,
        v >> 28u32 == v / 268435456,
        (v & 0xF) == v % 16,
{
}

proof fn lemma_shift_pow16(v: u32, shift: u32, k: nat)
    requires
        k <= 7,
        shift == 4 * k,
    ensures
        (v >> shift) as nat == v as nat / pow16(k),
{
    reveal_with_fuel(pow16, 8);
    assert(pow16(0) == 1);
    assert(pow16(1) == 16);
    assert(pow16(2) == 256);
    assert(pow16(3) == 4096);
    assert(pow16(4) == 65536);
    assert(pow16(5) == 1048576);
    assert(pow16(6) == 16777216);
    assert(pow16(7) == 268435456);
    lemma_shifts(v);
    if k == 0 {
        assert(shift == 0);
    } else if k == 1 {
        assert(shift == 4);
    } else if k == 2 {
        assert(shift == 8);
    } else if k == 3 {
        assert(shift == 12);
    } else if k == 4 {
        assert(shift == 16);
    } else if k == 5 {
        assert(shift == 20);
    } else if k == 6 {
        assert(shift == 24);
    } else {
        assert(shift == 28);
    }
}

} // verus!
