//! The plain pixmap that a frame is written as: a header, then one line to a
//! pixel, the rows from the top down and each row from left to right.
use crate::util::decimal;
use vstd::prelude::*;

verus! {

/// The decimal digits of a number, in ASCII, the most significant first and
/// without leading zeros.
pub open spec fn digits(n: nat) -> Seq<u8>
    decreases n,
{
    if n < 10 {
        seq![(48 + n) as u8]
    } else {
        digits(n / 10).push((48 + n % 10) as u8)
    }
}

/// A whole number in decimal, with a minus sign before it where it is negative.
pub open spec fn decimal_of(v: int) -> Seq<u8> {
    if v < 0 {
        seq![45u8] + digits((-v) as nat)
    } else {
        digits(v as nat)
    }
}

/// The header of a plain pixmap of the given width and height, with 255 as
/// the largest channel value: `P3`, the sizes, and `255`, each on a line.
pub open spec fn header(width: int, height: int) -> Seq<u8> {
    seq![80u8, 51u8, 10u8] + decimal_of(width) + seq![32u8] + decimal_of(height) + seq![
        10u8,
        50u8,
        53u8,
        53u8,
        10u8,
    ]
}

/// A place in the frame: the column `i` from the left and the row `j` from the bottom.
#[derive(Clone, Copy, Debug, PartialEq, Eq, Structural)]
pub struct Pixel {
    pub i: i32,
    pub j: i32,
}

/// For numbers up to 255 the digits are what the pixel writer writes.
pub proof fn lemma_decimal_is_digits(n: int)
    requires
        0 <= n <= 255,
    ensures
        decimal(n) == digits(n as nat),
{
    if n >= 10 {
        assert(digits(n as nat) == digits((n / 10) as nat).push((48 + n % 10) as u8));
        if n >= 100 {
            assert(digits((n / 10) as nat) == digits((n / 100) as nat).push(
                (48 + (n / 10) % 10) as u8,
            ));
            assert(n / 10 / 10 == n / 100);
        }
        assert(decimal(n) =~= digits(n as nat));
    }
}

/// Appends a number in decimal.
pub fn write_decimal(stream: &mut Vec<u8>, v: i32)
    ensures
        final(stream)@ == old(stream)@ + decimal_of(v as int),
{
    let magnitude: u32 = if v < 0 {
        stream.push(45);
        if v == i32::MIN {
            2147483648u32
        } else {
            (-v) as u32
        }
    } else {
        v as u32
    };
    let ghost signed = stream@;
    // the digits, the least significant first
    let mut rev: Vec<u8> = Vec::new();
    rev.push(48 + (magnitude % 10) as u8);
    let mut n: u32 = magnitude / 10;
    while n > 0
        invariant
            rev@.len() >= 1,
            digits(magnitude as nat) == if n > 0 {
                digits(n as nat) + rev@.reverse()
            } else {
                rev@.reverse()
            },
        decreases n,
    {
        let ghost before = rev@;
        rev.push(48 + (n % 10) as u8);
        proof {
            let d = (48 + n % 10) as u8;
            assert(rev@.reverse() =~= seq![d] + before.reverse());
            assert(digits(n as nat) == if n < 10 {
                seq![d]
            } else {
                digits((n / 10) as nat).push(d)
            });
            if n >= 10 {
                assert(digits((n / 10) as nat).push(d) + before.reverse() =~= digits(
                    (n / 10) as nat,
                ) + rev@.reverse());
            }
        }
        n = n / 10;
    }
    let mut k: usize = rev.len();
    while k > 0
        invariant
            k <= rev@.len(),
            stream@ == signed + rev@.reverse().take(rev@.len() - k),
        decreases k,
    {
        k -= 1;
        let ghost before = stream@;
        stream.push(rev[k]);
        proof {
            let r = rev@.reverse();
            assert(r[rev@.len() - k - 1] == rev@[k as int]);
            assert(r.take(rev@.len() - k) =~= r.take(rev@.len() - k - 1).push(rev@[k as int]));
            assert(stream@ =~= signed + r.take(rev@.len() - k));
        }
    }
    proof {
        let r = rev@.reverse();
        assert(r.take(rev@.len() as int) =~= r);
        assert(old(stream)@ + decimal_of(v as int) =~= signed + r);
    }
}

/// Appends the header of a plain pixmap of the given sizes.
pub fn write_header(stream: &mut Vec<u8>, width: i32, height: i32)
    ensures
        final(stream)@ == old(stream)@ + header(width as int, height as int),
{
    stream.push(80);
    stream.push(51);
    stream.push(10);
    write_decimal(stream, width);
    stream.push(32);
    write_decimal(stream, height);
    stream.push(10);
    stream.push(50);
    stream.push(53);
    stream.push(53);
    stream.push(10);
    proof {
        assert(stream@ =~= old(stream)@ + header(width as int, height as int));
    }
}

/// The place of the pixel that is written as number `index`, counted from
/// zero: the rows are written from the top down, each from left to right.
pub fn pixel_at(index: i32, width: i32, height: i32) -> (p: Pixel)
    requires
        width > 0,
        0 <= index < width * height,
    ensures
        0 <= p.i < width,
        0 <= p.j < height,
        index == (height - 1 - p.j) * width + p.i,
{
    let row: i32 = index / width;
    let i: i32 = index % width;
    proof {
        assert(index == row * width + i) by (nonlinear_arith)
            requires
                width > 0,
                index >= 0,
                row == index / width,
                i == index % width,
        ;
        assert(0 <= i < width);
        assert(row < height) by (nonlinear_arith)
            requires
                width > 0,
                0 <= i,
                index == row * width + i,
                index < width * height,
        ;
        assert(0 <= row) by (nonlinear_arith)
            requires
                width > 0,
                index >= 0,
                row == index / width,
        ;
    }
    Pixel { i, j: height - 1 - row }
}

/// The number under which the pixel in column `i` of row `j`, counted from
/// the bottom, is written.
pub fn index_of(p: Pixel, width: i32, height: i32) -> (index: i32)
    requires
        0 <= p.i < width,
        0 <= p.j < height,
        width * height <= i32::MAX,
    ensures
        index == (height - 1 - p.j) * width + p.i,
        0 <= index < width * height,
{
    let row: i32 = height - 1 - p.j;
    proof {
        assert(0 <= row * width && row * width + p.i < width * height) by (nonlinear_arith)
            requires
                0 <= row < height,
                0 <= p.i < width,
        ;
    }
    row * width + p.i
}

/// The pixels are written in one order, and every number names one place:
/// two places with one number are one place.
pub proof fn lemma_pixel_order_is_one_to_one(p: Pixel, q: Pixel, width: int, height: int)
    requires
        0 <= p.i < width,
        0 <= q.i < width,
        (height - 1 - p.j) * width + p.i == (height - 1 - q.j) * width + q.i,
    ensures
        p == q,
{
    assert(p.j == q.j) by (nonlinear_arith)
        requires
            0 <= p.i < width,
            0 <= q.i < width,
            (height - 1 - p.j) * width + p.i == (height - 1 - q.j) * width + q.i,
    ;
}

} // verus!
