//! The image as text: the plain PPM format.
//!
//! A file starts with a header of three lines, `P3`, the width and height,
//! and the largest channel value, 255. One line per pixel follows, rows from
//! the top down and each row from left to right, with the three channels of
//! the pixel in decimal.

use vstd::prelude::*;
use vstd::arithmetic::div_mod::lemma_fundamental_div_mod_converse;
use vstd::string::*;
use crate::scalar::Scalar;

verus! {

/// The character of a decimal digit.
pub open spec fn digit_char(d: int) -> char
    recommends
        0 <= d < 10,
{
    if d == 0 {
        '0'
    } else if d == 1 {
        '1'
    } else if d == 2 {
        '2'
    } else if d == 3 {
        '3'
    } else if d == 4 {
        '4'
    } else if d == 5 {
        '5'
    } else if d == 6 {
        '6'
    } else if d == 7 {
        '7'
    } else if d == 8 {
        '8'
    } else {
        '9'
    }
}

/// The decimal digits of a natural number, most significant first, without
/// leading zeros.
pub open spec fn digits(n: nat) -> Seq<char>
    decreases n,
{
    if n < 10 {
        seq![digit_char(n as int)]
    } else {
        digits(n / 10).push(digit_char((n % 10) as int))
    }
}

/// An integer in decimal, with a minus sign if it is negative.
pub open spec fn decimal(n: int) -> Seq<char> {
    if n < 0 {
        seq!['-'] + digits((-n) as nat)
    } else {
        digits(n as nat)
    }
}

/// The header of an image of the given size.
pub open spec fn header_text(width: int, height: int) -> Seq<char> {
    seq!['P', '3', '\n'] + decimal(width) + seq![' '] + decimal(height) + seq!['\n', '2', '5', '5', '\n']
}

/// The line of a pixel with the given channels.
pub open spec fn pixel_text(red: int, green: int, blue: int) -> Seq<char> {
    decimal(red) + seq![' '] + decimal(green) + seq![' '] + decimal(blue) + seq!['\n']
}

/// The number of pixels of an image, none if a side is not positive.
pub open spec fn pixel_count(width: int, height: int) -> int {
    if width > 0 && height > 0 {
        width * height
    } else {
        0
    }
}

/// The pixel that the `k`-th pixel line of a file describes, as column and
/// row, columns counted from the left and rows from the bottom: the lines run
/// through the top row first, and through each row from the left.
pub open spec fn pixel_at(width: int, height: int, k: int) -> (int, int)
    recommends
        0 <= k < pixel_count(width, height),
{
    (k % width, height - 1 - k / width)
}

/// Whether `pixel` is the `k`-th pixel of the file, and a pixel of the image.
pub open spec fn is_pixel(width: int, height: int, k: int, pixel: (i32, i32)) -> bool {
    &&& pixel.0 == pixel_at(width, height, k).0
    &&& pixel.1 == pixel_at(width, height, k).1
    &&& 0 <= pixel.0 < width
    &&& 0 <= pixel.1 < height
}

/// Whether `order` lists pixels of an image in the order of the file, from
/// the first pixel on.
pub open spec fn in_file_order(width: int, height: int, order: Seq<(i32, i32)>) -> bool {
    forall|k: int| 0 <= k < order.len() ==> is_pixel(width, height, k, #[trigger] order[k])
}

/// The pixel lines of an image whose pixels, in the order of the file, have
/// the given channels, each already scaled to the range of a byte.
pub open spec fn body_text(colors: Seq<(Scalar, Scalar, Scalar)>) -> Seq<char>
    decreases colors.len(),
{
    if colors.len() == 0 {
        Seq::empty()
    } else {
        let last = colors.last();
        body_text(colors.drop_last()) + pixel_text(last.0@.to_i32(), last.1@.to_i32(), last.2@.to_i32())
    }
}

/// Whether `colors` are the colors that `shade` gave to the pixels of an
/// image, one for each pixel, in the order of the file.
pub open spec fn shaded_in_order<F: Fn(i32, i32) -> (Scalar, Scalar, Scalar)>(
    shade: F,
    width: int,
    height: int,
    colors: Seq<(Scalar, Scalar, Scalar)>,
) -> bool {
    &&& colors.len() == pixel_count(width, height)
    &&& forall|k: int|
        0 <= k < colors.len() ==> call_ensures(
            shade,
            (pixel_at(width, height, k).0 as i32, pixel_at(width, height, k).1 as i32),
            #[trigger] colors[k],
        )
}

fn digit_str(d: u32) -> (s: &'static str)
    requires
        d < 10,
    ensures
        s@ == seq![digit_char(d as int)],
{
    proof {
        reveal_strlit("0");
        reveal_strlit("1");
        reveal_strlit("2");
        reveal_strlit("3");
        reveal_strlit("4");
        reveal_strlit("5");
        reveal_strlit("6");
        reveal_strlit("7");
        reveal_strlit("8");
        reveal_strlit("9");
    }
    let s = if d == 0 {
        "0"
    } else if d == 1 {
        "1"
    } else if d == 2 {
        "2"
    } else if d == 3 {
        "3"
    } else if d == 4 {
        "4"
    } else if d == 5 {
        "5"
    } else if d == 6 {
        "6"
    } else if d == 7 {
        "7"
    } else if d == 8 {
        "8"
    } else {
        "9"
    };
    assert(s@ =~= seq![digit_char(d as int)]);
    s
}

fn push_digits(text: &mut String, n: u32)
    ensures
        final(text)@ == old(text)@ + digits(n as nat),
    decreases n,
{
    if n >= 10 {
        push_digits(text, n / 10);
    }
    text.append(digit_str(n % 10));
    assert(text@ =~= old(text)@ + digits(n as nat));
}

fn push_decimal(text: &mut String, n: i32)
    ensures
        final(text)@ == old(text)@ + decimal(n as int),
{
    if n < 0 {
        proof {
            reveal_strlit("-");
        }
        text.append("-");
        let magnitude: i64 = -(n as i64);
        push_digits(text, magnitude as u32);
        assert(text@ =~= old(text)@ + decimal(n as int));
    } else {
        push_digits(text, n as u32);
    }
}

/// The header of an image `width` pixels wide and `height` pixels high.
pub fn header(width: i32, height: i32) -> (text: String)
    ensures
        text@ == header_text(width as int, height as int),
{
    proof {
        reveal_strlit("P3\n");
        reveal_strlit(" ");
        reveal_strlit("\n255\n");
    }
    let mut text = String::from_str("P3\n");
    push_decimal(&mut text, width);
    text.append(" ");
    push_decimal(&mut text, height);
    text.append("\n255\n");
    assert(text@ =~= header_text(width as int, height as int));
    text
}

/// The line of a pixel whose channels are the given integers.
pub fn pixel(red: i32, green: i32, blue: i32) -> (text: String)
    ensures
        text@ == pixel_text(red as int, green as int, blue as int),
{
    proof {
        reveal_strlit(" ");
        reveal_strlit("\n");
    }
    let mut text = String::new();
    push_decimal(&mut text, red);
    text.append(" ");
    push_decimal(&mut text, green);
    text.append(" ");
    push_decimal(&mut text, blue);
    text.append("\n");
    assert(text@ =~= pixel_text(red as int, green as int, blue as int));
    text
}

/// The line of a pixel whose channels, already scaled to the range of a
/// byte, are the given scalars: each is cut to an integer toward zero.
pub fn pixel_line(red: Scalar, green: Scalar, blue: Scalar) -> (text: String)
    ensures
        text@ == pixel_text(red@.to_i32(), green@.to_i32(), blue@.to_i32()),
{
    pixel(red.to_i32(), green.to_i32(), blue.to_i32())
}

/// The pixels of an image in the order of their lines in the file, each as
/// column and row, rows counted from the bottom.
pub fn scan_order(width: i32, height: i32) -> (order: Vec<(i32, i32)>)
    ensures
        order@.len() == pixel_count(width as int, height as int),
        in_file_order(width as int, height as int, order@),
{
    let mut order: Vec<(i32, i32)> = Vec::new();
    if width <= 0 || height <= 0 {
        return order;
    }
    let mut y: i32 = height;
    while y > 0
        invariant
            0 < width,
            0 <= y <= height,
            order@.len() == (height - y) * width,
            in_file_order(width as int, height as int, order@),
        decreases y,
    {
        y = y - 1;
        let mut x: i32 = 0;
        while x < width
            invariant
                0 < width,
                0 <= y < height,
                0 <= x <= width,
                order@.len() == (height - 1 - y) * width + x,
                in_file_order(width as int, height as int, order@),
            decreases width - x,
        {
            proof {
                let k = order@.len() as int;
                lemma_fundamental_div_mod_converse(k, width as int, height - 1 - y, x as int);
            }
            order.push((x, y));
            x = x + 1;
        }
        assert((height - 1 - y) * width + width == (height - y) * width) by (nonlinear_arith);
    }
    assert(height * width == width * height) by (nonlinear_arith);
    order
}

/// The text of a whole image.
///
/// `shade(x, y)` gives the color of the pixel in column `x` and row `y`,
/// rows counted from the bottom, as three channels scaled to the range of a
/// byte. Each pixel is shaded once, in the order of the file; the text is the
/// header followed by the lines of the pixels.
pub fn image<F: Fn(i32, i32) -> (Scalar, Scalar, Scalar)>(width: i32, height: i32, shade: F) -> (text: String)
    requires
        forall|x: i32, y: i32| 0 <= x < width && 0 <= y < height ==> call_requires(shade, (x, y)),
    ensures
        exists|colors: Seq<(Scalar, Scalar, Scalar)>|
            {
                &&& #[trigger] shaded_in_order(shade, width as int, height as int, colors)
                &&& text@ == header_text(width as int, height as int) + body_text(colors)
            },
{
    let order = scan_order(width, height);
    let mut text = header(width, height);
    let ghost mut colors: Seq<(Scalar, Scalar, Scalar)> = Seq::empty();
    let mut k: usize = 0;
    while k < order.len()
        invariant
            k <= order.len(),
            order@.len() == pixel_count(width as int, height as int),
            in_file_order(width as int, height as int, order@),
            forall|x: i32, y: i32| 0 <= x < width && 0 <= y < height ==> call_requires(shade, (x, y)),
            colors.len() == k,
            forall|j: int|
                0 <= j < k ==> call_ensures(
                    shade,
                    (pixel_at(width as int, height as int, j).0 as i32, pixel_at(
                        width as int,
                        height as int,
                        j,
                    ).1 as i32),
                    #[trigger] colors[j],
                ),
            text@ == header_text(width as int, height as int) + body_text(colors),
        decreases order.len() - k,
    {
        let (x, y) = order[k];
        let color = shade(x, y);
        let line = pixel_line(color.0, color.1, color.2);
        text.append(line.as_str());
        proof {
            let longer = colors.push(color);
            assert(longer.drop_last() == colors);
            assert(text@ == header_text(width as int, height as int) + body_text(longer)) by {
                assert(body_text(longer) == body_text(colors) + line@);
                assert(text@ =~= header_text(width as int, height as int) + (body_text(colors) + line@));
            }
            colors = longer;
        }
        k = k + 1;
    }
    assert(shaded_in_order(shade, width as int, height as int, colors));
    text
}

} // verus!
