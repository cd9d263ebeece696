use vstd::prelude::*;

verus! {

/// The character of a decimal digit.
pub open spec fn digit_char(d: nat) -> char {
    if d == 0 { '0' }
    else if d == 1 { '1' }
    else if d == 2 { '2' }
    else if d == 3 { '3' }
    else if d == 4 { '4' }
    else if d == 5 { '5' }
    else if d == 6 { '6' }
    else if d == 7 { '7' }
    else if d == 8 { '8' }
    else { '9' }
}

/// Decimal digits of a natural number, most significant first, no leading zeros.
pub open spec fn unsigned_decimal(n: nat) -> Seq<char>
    decreases n,
{
    if n < 10 {
        seq![digit_char(n)]
    } else {
        unsigned_decimal(n / 10).push(digit_char(n % 10))
    }
}

/// Decimal text of an integer, with a leading `-` when negative.
pub open spec fn decimal(n: int) -> Seq<char> {
    if n < 0 {
        seq!['-'] + unsigned_decimal((-n) as nat)
    } else {
        unsigned_decimal(n as nat)
    }
}

fn append_digit(out: &mut String, d: u64)
    requires
        d < 10,
    ensures
        final(out)@ == old(out)@.push(digit_char(d as nat)),
{
    let s: &str = if d == 0 { "0" }
        else if d == 1 { "1" }
        else if d == 2 { "2" }
        else if d == 3 { "3" }
        else if d == 4 { "4" }
        else if d == 5 { "5" }
        else if d == 6 { "6" }
        else if d == 7 { "7" }
        else if d == 8 { "8" }
        else { "9" };
    proof {
        reveal_strlit("0");
        reveal_strlit("1");
        reveal_strlit("2");
        reveal_strlit("3");
        reveal_strlit("4");
        reveal_strlit("5");
        reveal_strlit("6");
        reveal_strlit("7");
        reveal_strlit("8");
        reveal_strlit("9");
    }
    out.append(s);
    assert(final(out)@ =~= old(out)@.push(digit_char(d as nat)));
}

fn append_unsigned(out: &mut String, n: u64)
    ensures
        final(out)@ == old(out)@ + unsigned_decimal(n as nat),
    decreases n,
{
    if n >= 10 {
        append_unsigned(out, n / 10);
    }
    append_digit(out, n % 10);
    assert(final(out)@ =~= old(out)@ + unsigned_decimal(n as nat));
}

/// Appends the decimal text of `n` to `out`.
pub fn append_decimal(out: &mut String, n: i32)
    ensures
        final(out)@ == old(out)@ + decimal(n as int),
{
    if n < 0 {
        let s: &str = "-";
        proof {
            reveal_strlit("-");
        }
        out.append(s);
        let m: i64 = n as i64;
        append_unsigned(out, (-m) as u64);
    } else {
        append_unsigned(out, n as u64);
    }
    assert(final(out)@ =~= old(out)@ + decimal(n as int));
}

/// The decimal text of `n`.
pub fn decimal_string(n: i32) -> (r: String)
    ensures
        r@ == decimal(n as int),
{
    let mut r = String::new();
    append_decimal(&mut r, n);
    assert(r@ =~= decimal(n as int));
    r
}

/// An 8-bit colour triple as written to the image, one integer per channel.
#[derive(Clone, Copy, Debug, PartialEq, Eq, Structural)]
pub struct Rgb {
    pub r: i32,
    pub g: i32,
    pub b: i32,
}

/// Header of a plain-text PPM image: magic, dimensions, maximum channel value.
pub open spec fn header_text(width: int, height: int) -> Seq<char> {
    seq!['P', '3', '\n'] + decimal(width) + seq![' '] + decimal(height) + seq!['\n', '2', '5', '5', '\n']
}

/// One pixel of the image: three space-separated channels and a newline.
pub open spec fn pixel_text(c: Rgb) -> Seq<char> {
    decimal(c.r as int) + seq![' '] + decimal(c.g as int) + seq![' '] + decimal(c.b as int) + seq!['\n']
}

/// The pixel lines of `pixels`, in order.
pub open spec fn pixels_text(pixels: Seq<Rgb>) -> Seq<char>
    decreases pixels.len(),
{
    if pixels.len() == 0 {
        Seq::empty()
    } else {
        pixels_text(pixels.drop_last()) + pixel_text(pixels.last())
    }
}

/// The whole image: header, then one line per pixel.
pub open spec fn image_text(width: int, height: int, pixels: Seq<Rgb>) -> Seq<char> {
    header_text(width, height) + pixels_text(pixels)
}

fn append_literal_space(out: &mut String)
    ensures
        final(out)@ == old(out)@.push(' '),
{
    let s: &str = " ";
    proof {
        reveal_strlit(" ");
    }
    out.append(s);
    assert(final(out)@ =~= old(out)@.push(' '));
}

fn append_newline(out: &mut String)
    ensures
        final(out)@ == old(out)@.push('\n'),
{
    let s: &str = "\n";
    proof {
        reveal_strlit("\n");
    }
    out.append(s);
    assert(final(out)@ =~= old(out)@.push('\n'));
}

/// Appends the header of a `width` by `height` image to `out`.
pub fn append_header(out: &mut String, width: i32, height: i32)
    ensures
        final(out)@ == old(out)@ + header_text(width as int, height as int),
{
    let magic: &str = "P3\n";
    let max_value: &str = "\n255\n";
    proof {
        reveal_strlit("P3\n");
        reveal_strlit("\n255\n");
    }
    out.append(magic);
    append_decimal(out, width);
    append_literal_space(out);
    append_decimal(out, height);
    out.append(max_value);
    assert(final(out)@ =~= old(out)@ + header_text(width as int, height as int));
}

/// The header of a `width` by `height` image.
pub fn header_string(width: i32, height: i32) -> (r: String)
    ensures
        r@ == header_text(width as int, height as int),
{
    let mut r = String::new();
    append_header(&mut r, width, height);
    assert(r@ =~= header_text(width as int, height as int));
    r
}

/// Appends the line of one pixel to `out`.
pub fn append_pixel(out: &mut String, c: Rgb)
    ensures
        final(out)@ == old(out)@ + pixel_text(c),
{
    append_decimal(out, c.r);
    append_literal_space(out);
    append_decimal(out, c.g);
    append_literal_space(out);
    append_decimal(out, c.b);
    append_newline(out);
    assert(final(out)@ =~= old(out)@ + pixel_text(c));
}

/// The line of one pixel.
pub fn pixel_string(c: Rgb) -> (r: String)
    ensures
        r@ == pixel_text(c),
{
    let mut r = String::new();
    append_pixel(&mut r, c);
    assert(r@ =~= pixel_text(c));
    r
}

/// The text of a `width` by `height` image whose pixels, in the order they
/// are written, are `pixels`.
pub fn image_string(width: i32, height: i32, pixels: &Vec<Rgb>) -> (r: String)
    ensures
        r@ == image_text(width as int, height as int, pixels@),
{
    let mut r = String::new();
    append_header(&mut r, width, height);
    let mut k: usize = 0;
    while k < pixels.len()
        invariant
            k <= pixels@.len(),
            r@ == header_text(width as int, height as int) + pixels_text(pixels@.subrange(0, k as int)),
        decreases pixels@.len() - k,
    {
        let ghost before = r@;
        append_pixel(&mut r, pixels[k]);
        proof {
            let next = pixels@.subrange(0, k + 1);
            assert(next.drop_last() =~= pixels@.subrange(0, k as int));
            assert(next.last() == pixels@[k as int]);
            assert(r@ =~= header_text(width as int, height as int) + pixels_text(next));
        }
        k = k + 1;
    }
    assert(pixels@.subrange(0, pixels@.len() as int) =~= pixels@);
    r
}

} // verus!
