//! The raster and the file that holds it.
//!
//! The file is plain text: the line `P3`, a line with the width and the
//! height, the line `255`, and then one line for each pixel with its red,
//! green and blue between 0 and 255. The pixels stand row by row from the top
//! of the picture, each row from left to right, while the rows are counted
//! from the bottom, as the camera counts them.
use vstd::prelude::*;
use crate::math::vec::{level, Vec3};

verus! {

/// A picture: `width` times `height` colours, kept in the order of the file.
pub struct Image {
    width: usize,
    height: usize,
    pixels: Vec<Vec3>,
}

/// The place in the file of the pixel in column `column` of row `row`: the
/// top row, which has the highest number, comes first.
pub open spec fn place(width: nat, height: nat, column: nat, row: nat) -> nat {
    ((height - 1 - row) * width + column) as nat
}

/// The column of the pixel at place `index` of the file.
pub open spec fn column_at(width: nat, index: nat) -> nat {
    index % width
}

/// The row of the pixel at place `index` of the file.
pub open spec fn row_at(width: nat, height: nat, index: nat) -> nat {
    (height - 1 - index / width) as nat
}

/// The lines of the pixels, one after the other.
pub open spec fn body(pixels: Seq<Vec3>) -> Seq<u8>
    decreases pixels.len(),
{
    if pixels.len() == 0 {
        Seq::<u8>::empty()
    } else {
        body(pixels.drop_last()) + pixels.last().line()
    }
}

/// The decimal digits of `n` in ASCII, most significant first, with no
/// leading zero but for zero itself.
pub open spec fn digits(n: nat) -> Seq<u8>
    decreases n,
{
    if n < 10 {
        seq![(48 + n) as u8]
    } else {
        digits(n / 10).push((48 + n % 10) as u8)
    }
}

/// The number that a text of decimal digits stands for.
pub open spec fn number(text: Seq<u8>) -> nat
    decreases text.len(),
{
    if text.len() == 0 {
        0
    } else {
        number(text.drop_last()) * 10 + (text.last() - 48) as nat
    }
}

/// What a byte adds to the number of lines: one if it is a line feed.
pub open spec fn feed(byte: u8) -> nat {
    if byte == 10u8 {
        1
    } else {
        0
    }
}

/// How many lines a text holds: the number of its line feeds.
pub open spec fn line_feeds(text: Seq<u8>) -> nat
    decreases text.len(),
{
    if text.len() == 0 {
        0
    } else {
        line_feeds(text.drop_last()) + feed(text.last())
    }
}

/// The first three lines of the file.
pub open spec fn header(width: nat, height: nat) -> Seq<u8> {
    seq![80u8, 51u8, 10u8] + digits(width) + seq![32u8] + digits(height) + seq![
        10u8,
        50u8,
        53u8,
        53u8,
        10u8,
    ]
}

/// What is written is read back: the digits of a number are at least one,
/// each of them a decimal digit, the first no zero unless the number is zero,
/// and they stand for that number. So two numbers with the same digits are
/// one number.
pub proof fn lemma_digits_read_back(n: nat)
    ensures
        digits(n).len() >= 1,
        forall|i: int| 0 <= i < digits(n).len() ==> 48 <= #[trigger] digits(n)[i] <= 57,
        n > 0 ==> digits(n)[0] != 48,
        number(digits(n)) == n,
    decreases n,
{
    if n < 10 {
        assert(digits(n).drop_last() =~= Seq::<u8>::empty());
        assert(number(digits(n).drop_last()) == 0);
    } else {
        lemma_digits_read_back(n / 10);
        assert(digits(n).drop_last() =~= digits(n / 10));
        assert(digits(n)[0] == digits(n / 10)[0]);
    }
}

/// The digits of `n`.
pub fn decimal(n: u64) -> (text: Vec<u8>)
    ensures
        text@ == digits(n as nat),
{
    let mut text: Vec<u8> = Vec::new();
    let mut rest: u64 = n;
    while rest >= 10
        invariant
            digits(n as nat) == digits(rest as nat) + text@,
        decreases rest,
    {
        let digit: u8 = (48 + rest % 10) as u8;
        proof {
            assert(digits(rest as nat) == digits((rest / 10) as nat).push(digit));
            assert(digits((rest / 10) as nat).push(digit) + text@ =~= digits((rest / 10) as nat)
                + text@.insert(0, digit));
        }
        text.insert(0, digit);
        rest = rest / 10;
    }
    let digit: u8 = (48 + rest) as u8;
    proof {
        assert(digits(rest as nat) + text@ =~= text@.insert(0, digit));
    }
    text.insert(0, digit);
    text
}

/// The first three lines of the file of a picture `width` pixels wide and
/// `height` pixels high.
pub fn write_header(width: usize, height: usize) -> (text: Vec<u8>)
    ensures
        text@ == header(width as nat, height as nat),
{
    let mut text: Vec<u8> = vec![80u8, 51u8, 10u8];
    let mut w = decimal(width as u64);
    let mut h = decimal(height as u64);
    let mut tail: Vec<u8> = vec![10u8, 50u8, 53u8, 53u8, 10u8];
    text.append(&mut w);
    text.push(32u8);
    text.append(&mut h);
    text.append(&mut tail);
    proof {
        assert(text@ =~= header(width as nat, height as nat));
    }
    text
}

impl View for Image {
    type V = Seq<Vec3>;

    /// The colours in the order of the file.
    closed spec fn view(&self) -> Seq<Vec3> {
        self.pixels@
    }
}

impl Image {
    #[verifier::type_invariant]
    closed spec fn sized(&self) -> bool {
        self.pixels@.len() == self.width * self.height
    }

    pub closed spec fn spec_width(&self) -> nat {
        self.width as nat
    }

    pub closed spec fn spec_height(&self) -> nat {
        self.height as nat
    }

    /// The colour in column `column` of row `row`.
    pub open spec fn at(&self, column: nat, row: nat) -> Vec3 {
        self@[place(self.spec_width(), self.spec_height(), column, row) as int]
    }

    /// A picture of the given size, all of it black.
    pub fn new(width: usize, height: usize) -> (image: Image)
        requires
            width * height <= usize::MAX,
        ensures
            image.spec_width() == width,
            image.spec_height() == height,
            image@.len() == width * height,
            forall|i: int| 0 <= i < image@.len() ==> #[trigger] image@[i] == Vec3::origin(),
    {
        let count: usize = width * height;
        let mut pixels: Vec<Vec3> = Vec::new();
        while pixels.len() < count
            invariant
                pixels.len() <= count,
                forall|i: int| 0 <= i < pixels.len() ==> #[trigger] pixels@[i] == Vec3::origin(),
            decreases count - pixels.len(),
        {
            pixels.push(Vec3::zero());
        }
        Image { width, height, pixels }
    }

    pub fn width(&self) -> (width: usize)
        ensures
            width == self.spec_width(),
    {
        self.width
    }

    pub fn height(&self) -> (height: usize)
        ensures
            height == self.spec_height(),
    {
        self.height
    }

    /// The number of pixels.
    pub fn len(&self) -> (count: usize)
        ensures
            count == self@.len(),
            count == self.spec_width() * self.spec_height(),
    {
        proof {
            use_type_invariant(self);
        }
        self.pixels.len()
    }

    /// The column and the row of the pixel at place `index` of the file.
    pub fn pixel_at(&self, index: usize) -> (pixel: (usize, usize))
        requires
            index < self@.len(),
        ensures
            pixel.0 == column_at(self.spec_width(), index as nat),
            pixel.1 == row_at(self.spec_width(), self.spec_height(), index as nat),
            pixel.0 < self.spec_width(),
            pixel.1 < self.spec_height(),
    {
        proof {
            use_type_invariant(self);
            lemma_pixel_round_trip(self.width as nat, self.height as nat, index as nat);
        }
        (index % self.width, self.height - 1 - index / self.width)
    }

    /// The place in the file of the pixel in column `column` of row `row`.
    pub fn place_of(&self, column: usize, row: usize) -> (index: usize)
        requires
            column < self.spec_width(),
            row < self.spec_height(),
        ensures
            index == place(self.spec_width(), self.spec_height(), column as nat, row as nat),
            index < self@.len(),
    {
        proof {
            use_type_invariant(self);
            lemma_place_round_trip(
                self.width as nat,
                self.height as nat,
                column as nat,
                row as nat,
            );
            let above = self.height - 1 - row;
            assert(self.pixels.len() <= usize::MAX);
            assert(0 <= above * self.width && above * self.width + column < self.width
                * self.height) by (nonlinear_arith)
                requires
                    0 <= above <= self.height - 1,
                    0 <= column < self.width,
            ;
        }
        (self.height - 1 - row) * self.width + column
    }

    /// Sets the colour in column `column` of row `row`, and no other.
    pub fn put(&mut self, column: usize, row: usize, color: Vec3)
        requires
            column < old(self).spec_width(),
            row < old(self).spec_height(),
        ensures
            final(self).spec_width() == old(self).spec_width(),
            final(self).spec_height() == old(self).spec_height(),
            final(self)@ == old(self)@.update(
                place(
                    old(self).spec_width(),
                    old(self).spec_height(),
                    column as nat,
                    row as nat,
                ) as int,
                color,
            ),
    {
        let index = self.place_of(column, row);
        proof {
            use_type_invariant(&*self);
        }
        self.pixels[index] = color;
    }

    /// The colour in column `column` of row `row`.
    pub fn get(&self, column: usize, row: usize) -> (color: Vec3)
        requires
            column < self.spec_width(),
            row < self.spec_height(),
        ensures
            color == self.at(column as nat, row as nat),
    {
        let index = self.place_of(column, row);
        proof {
            use_type_invariant(self);
        }
        self.pixels[index]
    }

    /// The whole file: the header, then the line of each pixel, row by row
    /// from the top and from left to right in each row.
    pub fn encode(&self) -> (text: Vec<u8>)
        ensures
            text@ == header(self.spec_width(), self.spec_height()) + body(self@),
    {
        let mut text = write_header(self.width, self.height);
        let ghost head = text@;
        let mut i: usize = 0;
        while i < self.pixels.len()
            invariant
                i <= self.pixels.len(),
                text@ == head + body(self.pixels@.take(i as int)),
            decreases self.pixels.len() - i,
        {
            let mut line = self.pixels[i].write_color();
            proof {
                let next = self.pixels@.take(i + 1);
                assert(next.drop_last() =~= self.pixels@.take(i as int));
                assert(next.last() == self.pixels@[i as int]);
                assert(head + body(next) =~= head + body(self.pixels@.take(i as int))
                    + self.pixels@[i as int].line());
            }
            text.append(&mut line);
            i += 1;
        }
        proof {
            assert(self.pixels@.take(i as int) =~= self.pixels@);
        }
        text
    }
}

/// Column and row give the place, and the place gives them back.
pub proof fn lemma_place_round_trip(width: nat, height: nat, column: nat, row: nat)
    requires
        column < width,
        row < height,
    ensures
        place(width, height, column, row) < width * height,
        column_at(width, place(width, height, column, row)) == column,
        row_at(width, height, place(width, height, column, row)) == row,
{
    let above = (height - 1 - row) as int;
    let w = width as int;
    assert(above * w + column < width * height) by (nonlinear_arith)
        requires
            0 <= above <= height - 1,
            0 <= column < w,
            w == width,
    ;
    assert((above * w + column) / w == above && (above * w + column) % w == column) by {
        vstd::arithmetic::div_mod::lemma_fundamental_div_mod_converse(
            above * w + column,
            w,
            above,
            column as int,
        );
    }
}

/// The place gives column and row, and they give the place back.
pub proof fn lemma_pixel_round_trip(width: nat, height: nat, index: nat)
    requires
        index < width * height,
    ensures
        width > 0,
        index / width < height,
        column_at(width, index) < width,
        row_at(width, height, index) < height,
        place(width, height, column_at(width, index), row_at(width, height, index)) == index,
{
    let w = width as int;
    assert(w > 0) by (nonlinear_arith)
        requires
            index < w * height,
            w >= 0,
    ;
    vstd::arithmetic::div_mod::lemma_fundamental_div_mod(index as int, w);
    assert(0 <= index as int / w < height) by (nonlinear_arith)
        requires
            0 <= index < w * height,
            w > 0,
            index == w * (index as int / w) + index as int % w,
            0 <= index as int % w < w,
    ;
    assert((index as int / w) * w == w * (index as int / w)) by (nonlinear_arith);
}

/// The file runs through the picture from the top row to the bottom one and
/// through each row from left to right: of two pixels the one in the higher
/// row comes first, and in one row the one further left.
pub proof fn lemma_raster_order(
    width: nat,
    height: nat,
    column: nat,
    row: nat,
    other_column: nat,
    other_row: nat,
)
    requires
        column < width,
        row < height,
        other_column < width,
        other_row < height,
    ensures
        place(width, height, column, row) < place(width, height, other_column, other_row) <==> (
        row > other_row || (row == other_row && column < other_column)),
{
    let a = (height - 1 - row) as int;
    let b = (height - 1 - other_row) as int;
    let w = width as int;
    if a < b {
        assert(a * w + column < b * w + other_column) by (nonlinear_arith)
            requires
                a + 1 <= b,
                0 <= column < w,
                0 <= other_column,
        ;
    } else if b < a {
        assert(b * w + other_column < a * w + column) by (nonlinear_arith)
            requires
                b + 1 <= a,
                0 <= other_column < w,
                0 <= column,
        ;
    }
}

/// The picture does not depend on the order in which its pixels are set: two
/// different pixels have different places, so that setting the one and then
/// the other gives what setting them the other way round gives.
pub proof fn lemma_order_of_work(
    width: nat,
    height: nat,
    pixels: Seq<Vec3>,
    column: nat,
    row: nat,
    color: Vec3,
    other_column: nat,
    other_row: nat,
    other_color: Vec3,
)
    requires
        pixels.len() == width * height,
        column < width,
        row < height,
        other_column < width,
        other_row < height,
        column != other_column || row != other_row,
    ensures
        place(width, height, column, row) != place(width, height, other_column, other_row),
        pixels.update(place(width, height, column, row) as int, color).update(
            place(width, height, other_column, other_row) as int,
            other_color,
        ) == pixels.update(place(width, height, other_column, other_row) as int, other_color).update(
            place(width, height, column, row) as int,
            color,
        ),
{
    lemma_place_round_trip(width, height, column, row);
    lemma_place_round_trip(width, height, other_column, other_row);
    let one = place(width, height, column, row) as int;
    let other = place(width, height, other_column, other_row) as int;
    assert(pixels.update(one, color).update(other, other_color) =~= pixels.update(
        other,
        other_color,
    ).update(one, color));
}

/// The lines of two texts put together are the lines of both.
pub proof fn lemma_line_feeds_add(one: Seq<u8>, other: Seq<u8>)
    ensures
        line_feeds(one + other) == line_feeds(one) + line_feeds(other),
    decreases other.len(),
{
    if other.len() == 0 {
        assert(one + other =~= one);
    } else {
        lemma_line_feeds_add(one, other.drop_last());
        assert((one + other).drop_last() =~= one + other.drop_last());
    }
}

/// A text with one more byte has one more line where that byte is a line
/// feed, and as many lines as before where it is not.
pub proof fn lemma_line_feeds_push(text: Seq<u8>, byte: u8)
    ensures
        line_feeds(text.push(byte)) == line_feeds(text) + feed(byte),
{
    assert(text.push(byte).drop_last() =~= text);
}

/// A number is written on one line: its digits hold no line feed.
pub proof fn lemma_digits_one_line(n: nat)
    ensures
        line_feeds(digits(n)) == 0,
    decreases n,
{
    if n < 10 {
        lemma_line_feeds_push(Seq::<u8>::empty(), (48 + n) as u8);
        assert(digits(n) =~= Seq::<u8>::empty().push((48 + n) as u8));
    } else {
        lemma_digits_one_line(n / 10);
        lemma_line_feeds_push(digits(n / 10), (48 + n % 10) as u8);
    }
}

/// A colour takes one line of the file.
pub proof fn lemma_one_line(color: Vec3)
    ensures
        line_feeds(color.line()) == 1,
{
    let red = digits(level(color.0) as nat);
    let green = digits(level(color.1) as nat);
    let blue = digits(level(color.2) as nat);
    lemma_digits_one_line(level(color.0) as nat);
    lemma_digits_one_line(level(color.1) as nat);
    lemma_digits_one_line(level(color.2) as nat);
    lemma_line_feeds_push(red, 32u8);
    lemma_line_feeds_add(red.push(32u8), green);
    lemma_line_feeds_push(red.push(32u8) + green, 32u8);
    lemma_line_feeds_add((red.push(32u8) + green).push(32u8), blue);
    lemma_line_feeds_push((red.push(32u8) + green).push(32u8) + blue, 10u8);
    assert(color.line() =~= ((red.push(32u8) + green).push(32u8) + blue).push(10u8));
}

/// The file of a picture holds three lines of header and then exactly one
/// line for each pixel.
pub proof fn lemma_line_count(width: nat, height: nat, pixels: Seq<Vec3>)
    ensures
        line_feeds(header(width, height)) == 3,
        line_feeds(body(pixels)) == pixels.len(),
        line_feeds(header(width, height) + body(pixels)) == 3 + pixels.len(),
    decreases pixels.len(),
{
    let none = Seq::<u8>::empty();
    let magic = none.push(80u8).push(51u8).push(10u8);
    lemma_line_feeds_push(none, 80u8);
    lemma_line_feeds_push(none.push(80u8), 51u8);
    lemma_line_feeds_push(none.push(80u8).push(51u8), 10u8);
    lemma_digits_one_line(width);
    lemma_digits_one_line(height);
    lemma_line_feeds_add(magic, digits(width));
    let first = (magic + digits(width)).push(32u8);
    lemma_line_feeds_push(magic + digits(width), 32u8);
    lemma_line_feeds_add(first, digits(height));
    let second = first + digits(height);
    lemma_line_feeds_push(second, 10u8);
    lemma_line_feeds_push(second.push(10u8), 50u8);
    lemma_line_feeds_push(second.push(10u8).push(50u8), 53u8);
    lemma_line_feeds_push(second.push(10u8).push(50u8).push(53u8), 53u8);
    lemma_line_feeds_push(second.push(10u8).push(50u8).push(53u8).push(53u8), 10u8);
    assert(header(width, height) =~= second.push(10u8).push(50u8).push(53u8).push(53u8).push(
        10u8,
    ));
    if pixels.len() > 0 {
        lemma_line_count(width, height, pixels.drop_last());
        lemma_one_line(pixels.last());
        lemma_line_feeds_add(body(pixels.drop_last()), pixels.last().line());
    }
    lemma_line_feeds_add(header(width, height), body(pixels));
}

} // verus!
