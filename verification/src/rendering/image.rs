use crate::color::append_decimal;
use crate::color::lemma_decimal_digits;
use crate::color::spec_decimal;
use crate::color::spec_digit_value;
use crate::color::Pixel;
use vstd::prelude::*;
use vstd::string::*;

verus! {

/// The text of `pixels`, one line for each, in their order.
pub open spec fn spec_lines(pixels: Seq<Pixel>) -> Seq<char>
    decreases pixels.len(),
{
    if pixels.len() == 0 {
        Seq::empty()
    } else {
        spec_lines(pixels.drop_last()) + pixels.last().spec_write() + seq!['\n']
    }
}

/// The head of a plain pixmap of the given size: the magic line, the line of the
/// size and the line of the highest channel value.
pub open spec fn spec_header(width: nat, height: nat) -> Seq<char> {
    seq!['P', '3', '\n'] + spec_decimal(width) + seq![' '] + spec_decimal(height) + seq!['\n']
        + seq!['2', '5', '5', '\n']
}

/// The plain pixmap of the given size with the given pixels.
pub open spec fn spec_ppm(width: nat, height: nat, pixels: Seq<Pixel>) -> Seq<char> {
    spec_header(width, height) + spec_lines(pixels)
}

/// How many ends of line stand in `text`.
pub open spec fn spec_line_count(text: Seq<char>) -> nat {
    text.to_multiset().count('\n')
}

/// The picture that a render builds: `width` by `height` pixels, kept row by row
/// from the top, each row from the left.
pub struct Image {
    width: u32,
    height: u32,
    pixels: Vec<Pixel>,
}

impl Image {
    /// The number of pixels in a row.
    pub closed spec fn spec_width(&self) -> nat {
        self.width as nat
    }

    /// The number of rows.
    pub closed spec fn spec_height(&self) -> nat {
        self.height as nat
    }

    /// The pixels that the image holds so far.
    pub closed spec fn spec_pixels(&self) -> Seq<Pixel> {
        self.pixels@
    }

    /// An image never holds more pixels than its size has room for.
    #[verifier::type_invariant]
    pub closed spec fn wf(&self) -> bool {
        self.pixels@.len() <= self.width * self.height
    }

    /// Every pixel of the image is there.
    pub open spec fn spec_complete(&self) -> bool {
        self.spec_pixels().len() == self.spec_width() * self.spec_height()
    }

    /// The pixel in column `i` of row `j`, rows counted from the top and columns
    /// from the left.
    pub open spec fn spec_at(&self, i: int, j: int) -> Pixel {
        self.spec_pixels()[j * self.spec_width() + i]
    }

    /// An image holds no more pixels than its size has room for.
    pub proof fn lemma_bounded(self)
        requires
            self.wf(),
        ensures
            self.spec_pixels().len() <= self.spec_width() * self.spec_height(),
            self.spec_width() <= u32::MAX,
            self.spec_height() <= u32::MAX,
    {
    }

    /// An image of the given size that holds no pixel yet.
    pub fn new(width: u32, height: u32) -> (image: Self)
        ensures
            image.wf(),
            image.spec_width() == width,
            image.spec_height() == height,
            image.spec_pixels().len() == 0,
    {
        assert(0 <= width * height) by (nonlinear_arith);
        Image { width, height, pixels: Vec::new() }
    }

    /// The number of pixels in a row.
    pub fn width(&self) -> (w: u32)
        ensures
            w == self.spec_width(),
    {
        self.width
    }

    /// The number of rows.
    pub fn height(&self) -> (h: u32)
        ensures
            h == self.spec_height(),
    {
        self.height
    }

    /// The pixels that the image holds so far, row by row.
    pub fn pixels(&self) -> (p: &Vec<Pixel>)
        ensures
            p@ == self.spec_pixels(),
            self.wf(),
    {
        proof {
            use_type_invariant(self);
        }
        &self.pixels
    }

    /// Says which pixel the image is waiting for.
    ///
    /// Returns column and row of the next pixel to be added, or `None` where the
    /// image is complete. Pixels are due row by row from the top, and in a row
    /// from the left.
    pub fn next_pixel(&self) -> (next: Option<(u32, u32)>)
        ensures
            next is None <==> self.spec_complete(),
            next matches Some((i, j)) ==> {
                &&& i < self.spec_width()
                &&& j < self.spec_height()
                &&& j * self.spec_width() + i == self.spec_pixels().len()
            },
    {
        proof {
            use_type_invariant(self);
        }
        let count = self.pixels.len() as u64;
        let width = self.width as u64;
        let height = self.height as u64;
        assert(width * height <= 0xFFFF_FFFE_0000_0001) by (nonlinear_arith)
            requires
                width <= 0xFFFF_FFFF,
                height <= 0xFFFF_FFFF,
        ;
        if count >= width * height {
            None
        } else {
            assert(width > 0) by (nonlinear_arith)
                requires
                    count < width * height,
                    0 <= count,
            ;
            let i = count % width;
            let j = count / width;
            assert(j * width + i == count && j < height) by (nonlinear_arith)
                requires
                    i == count % width,
                    j == count / width,
                    width > 0,
                    count < width * height,
            ;
            Some((i as u32, j as u32))
        }
    }

    /// Adds the next pixel to the image: the one that `next_pixel` names.
    pub fn add_pixel(&mut self, color: Pixel)
        requires
            !old(self).spec_complete(),
        ensures
            final(self).wf(),
            final(self).spec_width() == old(self).spec_width(),
            final(self).spec_height() == old(self).spec_height(),
            final(self).spec_pixels() == old(self).spec_pixels().push(color),
    {
        proof {
            use_type_invariant(&*self);
        }
        // The vector leaves the image for the push: a push may unwind, and the
        // invariant of the image is not to be open while it does.
        let mut pixels: Vec<Pixel> = Vec::new();
        assert(0 <= self.width * self.height) by (nonlinear_arith);
        std::mem::swap(&mut self.pixels, &mut pixels);
        pixels.push(color);
        self.pixels = pixels;
    }

    /// The image as a plain pixmap: the lines `P3`, width and height, and `255`,
    /// then one line for each pixel that the image holds, with its red, green and
    /// blue.
    pub fn write_ppm(&self) -> (text: String)
        ensures
            text@ == spec_ppm(self.spec_width(), self.spec_height(), self.spec_pixels()),
    {
        proof {
            reveal_strlit("P3\n");
            reveal_strlit(" ");
            reveal_strlit("\n");
            reveal_strlit("255\n");
        }
        let mut text = String::new();
        text.append("P3\n");
        append_decimal(&mut text, self.width);
        text.append(" ");
        append_decimal(&mut text, self.height);
        text.append("\n");
        text.append("255\n");
        assert(text@ =~= spec_header(self.spec_width(), self.spec_height()));
        let mut k: usize = 0;
        while k < self.pixels.len()
            invariant
                k <= self.pixels@.len(),
                text@ == spec_header(self.spec_width(), self.spec_height()) + spec_lines(
                    self.pixels@.take(k as int),
                ),
            decreases self.pixels@.len() - k,
        {
            self.pixels[k].append_to(&mut text);
            text.append("\n");
            proof {
                reveal_strlit("\n");
                let done = self.pixels@.take(k as int);
                let more = self.pixels@.take(k + 1);
                assert(more.drop_last() =~= done);
                assert(more.last() == self.pixels@[k as int]);
                assert(text@ =~= spec_header(self.spec_width(), self.spec_height()) + spec_lines(
                    more,
                ));
            }
            k += 1;
        }
        assert(self.pixels@.take(k as int) =~= self.pixels@);
        text
    }
}

/// No end of line stands in a numeral.
pub proof fn lemma_decimal_one_line(n: nat)
    ensures
        spec_line_count(spec_decimal(n)) == 0,
    decreases n,
{
    lemma_decimal_digits(n);
    let s = spec_decimal(n);
    if s.to_multiset().count('\n') > 0 {
        s.to_multiset_ensures();
        assert(s.contains('\n'));
        let i = choose|i: int| 0 <= i < s.len() && s[i] == '\n';
        assert(spec_digit_value(s[i]) < 10);
    }
}

/// The ends of line of two texts add up where the texts are joined.
pub proof fn lemma_line_count_add(a: Seq<char>, b: Seq<char>)
    ensures
        spec_line_count(a + b) == spec_line_count(a) + spec_line_count(b),
{
    vstd::seq_lib::lemma_multiset_commutative(a, b);
}

/// The text of a pixel is one line: no end of line stands in it.
pub proof fn lemma_pixel_one_line(p: Pixel)
    ensures
        spec_line_count(p.spec_write()) == 0,
{
    let r = spec_decimal(p.r as nat);
    let g = spec_decimal(p.g as nat);
    let b = spec_decimal(p.b as nat);
    let sp = seq![' '];
    lemma_decimal_one_line(p.r as nat);
    lemma_decimal_one_line(p.g as nat);
    lemma_decimal_one_line(p.b as nat);
    lemma_single_count(' ');
    lemma_line_count_add(r, sp);
    lemma_line_count_add(r + sp, g);
    lemma_line_count_add(r + sp + g, sp);
    lemma_line_count_add(r + sp + g + sp, b);
}

/// A text of one character has one end of line if the character is one, else none.
proof fn lemma_single_count(c: char)
    ensures
        spec_line_count(seq![c]) == if c == '\n' {
            1nat
        } else {
            0nat
        },
{
    let s = seq![c];
    assert(s =~= Seq::<char>::empty().push(c));
    Seq::<char>::empty().to_multiset_ensures();
    assert(Seq::<char>::empty().to_multiset().count('\n') == 0) by {
        vstd::seq_lib::lemma_multiset_commutative(Seq::<char>::empty(), Seq::<char>::empty());
        assert(Seq::<char>::empty() + Seq::<char>::empty() =~= Seq::<char>::empty());
    }
}

/// The lines of `n` pixels have `n` ends of line.
pub proof fn lemma_lines_count(pixels: Seq<Pixel>)
    ensures
        spec_line_count(spec_lines(pixels)) == pixels.len(),
    decreases pixels.len(),
{
    if pixels.len() == 0 {
        lemma_line_count_add(Seq::<char>::empty(), Seq::<char>::empty());
        assert(Seq::<char>::empty() + Seq::<char>::empty() =~= Seq::<char>::empty());
    } else {
        let rest = spec_lines(pixels.drop_last());
        let line = pixels.last().spec_write();
        lemma_lines_count(pixels.drop_last());
        lemma_pixel_one_line(pixels.last());
        lemma_single_count('\n');
        lemma_line_count_add(rest, line);
        lemma_line_count_add(rest + line, seq!['\n']);
    }
}

/// A pixmap has three lines of head and then one line for each pixel: the pixmap
/// of a complete image of `width` by `height` pixels has three lines and `width`
/// times `height` more.
pub proof fn lemma_ppm_line_count(width: nat, height: nat, pixels: Seq<Pixel>)
    ensures
        spec_line_count(spec_ppm(width, height, pixels)) == 3 + pixels.len(),
{
    let magic = seq!['P', '3', '\n'];
    let w = spec_decimal(width);
    let h = spec_decimal(height);
    let sp = seq![' '];
    let nl = seq!['\n'];
    let top = seq!['2', '5', '5', '\n'];
    lemma_decimal_one_line(width);
    lemma_decimal_one_line(height);
    lemma_single_count(' ');
    lemma_single_count('\n');
    lemma_single_count('P');
    lemma_single_count('3');
    lemma_single_count('2');
    lemma_single_count('5');
    assert(magic =~= seq!['P'] + seq!['3'] + nl);
    lemma_line_count_add(seq!['P'], seq!['3']);
    lemma_line_count_add(seq!['P'] + seq!['3'], nl);
    assert(top =~= seq!['2'] + seq!['5'] + seq!['5'] + nl);
    lemma_line_count_add(seq!['2'], seq!['5']);
    lemma_line_count_add(seq!['2'] + seq!['5'], seq!['5']);
    lemma_line_count_add(seq!['2'] + seq!['5'] + seq!['5'], nl);
    lemma_line_count_add(magic, w);
    lemma_line_count_add(magic + w, sp);
    lemma_line_count_add(magic + w + sp, h);
    lemma_line_count_add(magic + w + sp + h, nl);
    lemma_line_count_add(magic + w + sp + h + nl, top);
    lemma_lines_count(pixels);
    lemma_line_count_add(spec_header(width, height), spec_lines(pixels));
}

/// The pixmap of a complete image has three lines of head and one line for each
/// pixel of its size: `width` times `height` of them.
pub proof fn lemma_complete_line_count(image: Image)
    requires
        image.wf(),
        image.spec_complete(),
    ensures
        spec_line_count(
            spec_ppm(image.spec_width(), image.spec_height(), image.spec_pixels()),
        ) == 3 + image.spec_width() * image.spec_height(),
{
    lemma_ppm_line_count(image.spec_width(), image.spec_height(), image.spec_pixels());
}

} // verus!
