//! Colours and pixel rows: what drawing needs besides the drawing itself.
use vstd::prelude::*;

use crate::text;

verus! {

/// Red, green and blue, each from 0 to 255.
#[derive(Debug, Clone, Copy, PartialEq, Eq, Structural)]
pub struct Rgb {
    pub r: u8,
    pub g: u8,
    pub b: u8,
}

/// The colours of a framed panel.
#[derive(Debug, Clone, Copy, PartialEq, Eq, Structural)]
pub struct PanelColors {
    pub bg: Rgb,
    pub fg: Rgb,
    pub accent: Rgb,
    pub border: Rgb,
}

/// A row of two columns: the label on the left, the value flush right.
#[derive(Debug, Clone, Copy)]
pub struct PanelRow<'a> {
    pub label: &'a str,
    pub value: &'a str,
}

/// The labels and values of rows.
pub open spec fn rows_view(rows: Seq<PanelRow>) -> Seq<(Seq<char>, Seq<char>)> {
    rows.map_values(|r: PanelRow| (r.label@, r.value@))
}

/// The text after its leading `#`s.
pub open spec fn after_hashes(s: Seq<char>) -> Seq<char>
    decreases s.len(),
{
    if s.len() > 0 && s[0] == '#' {
        after_hashes(s.skip(1))
    } else {
        s
    }
}

fn skip_hashes(s: &[char]) -> (r: &[char])
    ensures
        r@ == after_hashes(s@),
{
    let mut i: usize = 0;
    assert(s@.skip(0) =~= s@);
    while i < s.len() && s[i] == '#'
        invariant
            i <= s.len(),
            after_hashes(s@) == after_hashes(s@.skip(i as int)),
        decreases s.len() - i,
    {
        assert(s@.skip(i as int).skip(1) =~= s@.skip(i + 1));
        i += 1;
    }
    let r = &s[i..s.len()];
    assert(r@ =~= s@.skip(i as int));
    r
}

/// The number that the two bytes at `at` write in base 16, if they write one.
pub open spec fn hex_pair(b: Seq<u8>, at: int) -> Option<int> {
    text::unsigned_value(seq![b[at] as u32, b[at + 1] as u32], 16, 255)
}

/// The bytes of a colour's text, without its `#`s.
pub open spec fn color_bytes(color: Seq<char>) -> Seq<u8> {
    vstd::utf8::encode_utf8(after_hashes(color))
}

pub open spec fn black() -> Rgb {
    Rgb { r: 0, g: 0, b: 0 }
}

/// The colour that `#RRGGBB` writes. A text of fewer than six bytes, or one of whose three pairs
/// is no number, is black.
pub open spec fn color_of(color: Seq<char>) -> Rgb {
    let b = color_bytes(color);
    if b.len() < 6 {
        black()
    } else {
        match (hex_pair(b, 0), hex_pair(b, 2), hex_pair(b, 4)) {
            (Some(red), Some(green), Some(blue)) => Rgb {
                r: red as u8,
                g: green as u8,
                b: blue as u8,
            },
            _ => black(),
        }
    }
}

fn pair_at(b: &[u8], at: usize) -> (r: Option<u8>)
    requires
        at + 2 <= b@.len(),
    ensures
        match r {
            Some(n) => hex_pair(b@, at as int) == Some(n as int),
            None => hex_pair(b@, at as int) is None,
        },
{
    let mut pair: Vec<u32> = Vec::new();
    pair.push(b[at] as u32);
    pair.push(b[at + 1] as u32);
    assert(pair@ =~= seq![b@[at as int] as u32, b@[at + 1] as u32]);
    match text::parse_unsigned(pair.as_slice(), 16, 255) {
        Some(n) => Some(n as u8),
        None => None,
    }
}

/// Reads `#RRGGBB`; the `#` may be missing. What cannot be read is black.
pub fn parse_hex(color: &str) -> (r: Rgb)
    ensures
        r == color_of(color@),
{
    let chars = text::chars_of(color);
    let rest = text::string_of(skip_hashes(chars.as_slice()));
    let b = rest.as_str().as_bytes();
    if b.len() < 6 {
        return Rgb { r: 0, g: 0, b: 0 };
    }
    match (pair_at(b, 0), pair_at(b, 2), pair_at(b, 4)) {
        (Some(red), Some(green), Some(blue)) => Rgb { r: red, g: green, b: blue },
        _ => Rgb { r: 0, g: 0, b: 0 },
    }
}

/// The number that the text writes in base 16 after its `#`s; 0 where it writes none of 32 bits.
pub open spec fn pixel_of(color: Seq<char>) -> int {
    match text::unsigned_value(text::codes(after_hashes(color)), 16, 0xffff_ffff) {
        Some(n) => n,
        None => 0,
    }
}

pub fn hex_to_pixel(color: &str) -> (r: u32)
    ensures
        r == pixel_of(color@),
{
    let chars = text::chars_of(color);
    let rest = skip_hashes(chars.as_slice());
    let codes = text::codes_of(rest);
    match text::parse_unsigned(codes.as_slice(), 16, 0xffff_ffff) {
        Some(n) => n as u32,
        None => 0,
    }
}

proof fn lemma_code(c: char)
    ensures
        c as u32 == c as int,
{
}

proof fn lemma_digits_are_bytes(digits: Seq<char>)
    requires
        text::all_digits(text::codes(digits), 16),
    ensures
        vstd::utf8::encode_utf8(digits).len() == digits.len(),
        forall|i: int|
            0 <= i < digits.len() ==> #[trigger] vstd::utf8::encode_utf8(digits)[i]
                == digits[i] as u32,
{
    let c = text::codes(digits);
    assert forall|i: int| 0 <= i < digits.len() implies '\0' <= #[trigger] digits[i]
        <= '\u{7f}' by {
        lemma_code(digits[i]);
        assert(c[i] == digits[i] as u32);
        assert(text::digit(c[i] as int, 16) >= 0);
    }
    vstd::utf8::is_ascii_chars_encode_utf8(digits);
    assert forall|i: int| 0 <= i < digits.len() implies #[trigger] vstd::utf8::encode_utf8(
        digits,
    )[i] == digits[i] as u32 by {
        assert('\0' <= digits[i] <= '\u{7f}');
        assert(digits[i] as u8 == vstd::utf8::encode_utf8(digits)[i]);
    }
}

proof fn lemma_pair(digits: Seq<char>, at: int)
    requires
        0 <= at,
        at + 2 <= digits.len(),
        text::all_digits(text::codes(digits), 16),
    ensures
        hex_pair(vstd::utf8::encode_utf8(digits), at) == Some(
            text::digit(digits[at] as int, 16) * 16 + text::digit(digits[at + 1] as int, 16),
        ),
        0 <= text::digit(digits[at] as int, 16) < 16,
        0 <= text::digit(digits[at + 1] as int, 16) < 16,
{
    let c = text::codes(digits);
    lemma_digits_are_bytes(digits);
    let b = vstd::utf8::encode_utf8(digits);
    let pair = seq![b[at] as u32, b[at + 1] as u32];
    lemma_code(digits[at]);
    lemma_code(digits[at + 1]);
    assert(b[at] == digits[at] as u32 && b[at + 1] == digits[at + 1] as u32);
    assert(text::digit(c[at] as int, 16) >= 0);
    assert(text::digit(c[at + 1] as int, 16) >= 0);
    assert(pair[0] == c[at] && pair[1] == c[at + 1]);
    reveal_with_fuel(text::digits_value, 3);
    assert(pair.drop_last() =~= seq![pair[0]]);
    assert(pair.drop_last().drop_last() =~= Seq::<u32>::empty());
    assert(text::all_digits(pair, 16));
}

/// A colour of six digits in base 16 and its pixel are the same three numbers: the pixel has red
/// in its third byte, green in its second and blue in its first.
pub proof fn law_pixel_has_the_channels(color: Seq<char>)
    requires
        after_hashes(color).len() == 6,
        text::all_digits(text::codes(after_hashes(color)), 16),
    ensures
        ({
            let c = color_of(color);
            let p = pixel_of(color) as u32;
            &&& p == pixel_of(color)
            &&& pixel_of(color) == c.r * 0x1_0000 + c.g * 0x100 + c.b
            &&& c.r == (p >> 16) & 0xff
            &&& c.g == (p >> 8) & 0xff
            &&& c.b == p & 0xff
        }),
{
    let d = after_hashes(color);
    let s = text::codes(d);
    lemma_pair(d, 0);
    lemma_pair(d, 2);
    lemma_pair(d, 4);
    lemma_digits_are_bytes(d);
    reveal_with_fuel(text::digits_value, 7);
    let s5 = s.drop_last();
    let s4 = s5.drop_last();
    let s3 = s4.drop_last();
    let s2 = s3.drop_last();
    let s1 = s2.drop_last();
    assert(s1.drop_last().len() == 0);
    assert(s.last() == d[5] as u32 && s5.last() == d[4] as u32 && s4.last() == d[3] as u32);
    assert(s3.last() == d[2] as u32 && s2.last() == d[1] as u32 && s1.last() == d[0] as u32);
    assert(text::digit(s[0] as int, 16) >= 0);
    assert(s[0] != 0x2b);
    let c = color_of(color);
    let p = pixel_of(color) as u32;
    let (r, g, b) = (c.r, c.g, c.b);
    assert(p == r * 0x1_0000 + g * 0x100 + b);
    assert(r == (p >> 16) & 0xff && g == (p >> 8) & 0xff && b == p & 0xff) by (bit_vector)
        requires
            p == r * 0x1_0000 + g * 0x100 + b,
    ;
}

/// Too few bytes came back for an image.
#[derive(Debug, Clone, Copy, PartialEq, Eq, Structural)]
pub struct ShortImage {
    pub got: usize,
    pub expected: usize,
}

/// The first `n` rows of an image of `row` bytes a row, each followed by zeros up to `stride`.
pub open spec fn padded_rows(src: Seq<u8>, row: int, stride: int, n: int) -> Seq<u8>
    decreases n,
{
    if n <= 0 {
        Seq::empty()
    } else {
        padded_rows(src, row, stride, n - 1) + src.subrange((n - 1) * row, n * row) + Seq::new(
            (stride - row) as nat,
            |i: int| 0u8,
        )
    }
}

/// Spreads the rows of an image of `w` by `h` pixels of 4 bytes to rows of `stride` bytes.
pub fn capture_rows(src: &[u8], w: u32, h: u32, stride: usize) -> (r: Result<Vec<u8>, ShortImage>)
    requires
        w * 4 <= u32::MAX,
        (w * 4) * h <= usize::MAX,
        w * 4 <= stride,
    ensures
        match r {
            Ok(data) => src@.len() >= (w * 4) * h && data@ == padded_rows(
                src@,
                w * 4,
                stride as int,
                h as int,
            ),
            Err(e) => src@.len() < (w * 4) * h && e.got == src@.len() && e.expected == (w * 4) * h,
        },
{
    let row = (w * 4) as usize;
    let expected = row * h as usize;
    if src.len() < expected {
        return Err(ShortImage { got: src.len(), expected });
    }
    let total = src.len();
    let mut data: Vec<u8> = Vec::new();
    let mut y: usize = 0;
    while y < h as usize
        invariant
            y <= h,
            row == w * 4,
            row <= stride,
            total == src@.len(),
            row * h <= total,
            data@ == padded_rows(src@, row as int, stride as int, y as int),
        decreases h - y,
    {
        assert(y * row + row == (y + 1) * row && (y + 1) * row <= row * h && 0 <= y * row)
            by (nonlinear_arith)
            requires
                0 <= y,
                y + 1 <= h,
                0 <= row,
        ;
        let from = y * row;
        let ghost so_far = data@;
        let line = &src[from..from + row];
        data.extend_from_slice(line);
        let ghost with_line = data@;
        assert(with_line =~= so_far + src@.subrange(y * row, (y + 1) * row));
        let mut pad: usize = row;
        while pad < stride
            invariant
                row <= pad <= stride,
                data@ == with_line + Seq::new((pad - row) as nat, |i: int| 0u8),
            decreases stride - pad,
        {
            data.push(0);
            pad += 1;
            assert(data@ =~= with_line + Seq::new((pad - row) as nat, |i: int| 0u8));
        }
        y += 1;
    }
    Ok(data)
}

/// A colour is what its digits say: each channel has two of them, the first counting sixteen times,
/// red before green before blue, however many hashes stand before them and whatever behind.
pub proof fn law_color_is_its_digits(color: Seq<char>)
    requires
        after_hashes(color).len() >= 6,
        text::all_digits(text::codes(after_hashes(color)), 16),
    ensures
        ({
            let d = after_hashes(color);
            let c = color_of(color);
            &&& c.r == 16 * text::digit(d[0] as int, 16) + text::digit(d[1] as int, 16)
            &&& c.g == 16 * text::digit(d[2] as int, 16) + text::digit(d[3] as int, 16)
            &&& c.b == 16 * text::digit(d[4] as int, 16) + text::digit(d[5] as int, 16)
        }),
{
    let d = after_hashes(color);
    lemma_pair(d, 0);
    lemma_pair(d, 2);
    lemma_pair(d, 4);
    lemma_digits_are_bytes(d);
}

/// Hashes before a colour do not count, and nothing else is left out.
pub proof fn law_hashes_do_not_count(color: Seq<char>)
    ensures
        after_hashes(seq!['#'] + color) == after_hashes(color),
        color.len() > 0 && color[0] != '#' ==> after_hashes(color) == color,
        color_of(seq!['#'] + color) == color_of(color),
        pixel_of(seq!['#'] + color) == pixel_of(color),
{
    let s = seq!['#'] + color;
    assert(s.skip(1) =~= color);
}

/// A text that is too short to be a colour is black, and so is one that holds something else than
/// digits of base 16 in a channel.
pub proof fn law_no_color_is_black(color: Seq<char>)
    requires
        ({
            let b = color_bytes(color);
            b.len() < 6 || hex_pair(b, 0) is None || hex_pair(b, 2) is None || hex_pair(b, 4) is None
        }),
    ensures
        color_of(color) == (Rgb { r: 0, g: 0, b: 0 }),
{
}

proof fn lemma_padded_rows(src: Seq<u8>, row: int, stride: int, n: int, r: int, c: int)
    requires
        0 <= row <= stride,
        0 <= r < n,
        0 <= c < stride,
        n * row <= src.len(),
    ensures
        padded_rows(src, row, stride, n).len() == n * stride,
        padded_rows(src, row, stride, n)[r * stride + c] == if c < row {
            src[r * row + c]
        } else {
            0
        },
    decreases n,
{
    let before = padded_rows(src, row, stride, n - 1);
    assert(n * row == (n - 1) * row + row && 0 <= (n - 1) * row) by (nonlinear_arith)
        requires
            n >= 1,
            row >= 0,
    ;
    assert(n * stride == (n - 1) * stride + stride) by (nonlinear_arith);
    if n > 1 {
        lemma_padded_rows(
            src,
            row,
            stride,
            n - 1,
            if r < n - 1 {
                r
            } else {
                0
            },
            c,
        );
    } else {
        assert((n - 1) * stride == 0) by (nonlinear_arith)
            requires
                n == 1,
        ;
    }
    assert(before.len() == (n - 1) * stride);
    if r < n - 1 {
        assert(0 <= r * stride && r * stride + c < (n - 1) * stride) by (nonlinear_arith)
            requires
                0 <= r < n - 1,
                0 <= c < stride,
        ;
    } else {
        assert(r == n - 1);
    }
}

/// A captured image keeps its pixels: what stood at a row and a column stands there afterwards, and
/// the rest of each row is empty.
pub proof fn law_captured_rows_keep_their_pixels(
    src: Seq<u8>,
    row: int,
    stride: int,
    n: int,
    r: int,
    c: int,
)
    requires
        0 <= row <= stride,
        0 <= r < n,
        0 <= c < stride,
        n * row <= src.len(),
    ensures
        padded_rows(src, row, stride, n).len() == n * stride,
        padded_rows(src, row, stride, n)[r * stride + c] == if c < row {
            src[r * row + c]
        } else {
            0
        },
{
    lemma_padded_rows(src, row, stride, n, r, c);
}

} // verus!
