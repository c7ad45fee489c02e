//! Pixel frames built from successive generations of an automaton.
//!
//! A frame is a row-major buffer of palette indices, `width` pixels per row
//! and one row per generation. The first frame is primed from `height`
//! generations; every later frame drops the oldest row and appends the next
//! generation.

pub mod bitmap;
pub mod builder;
pub mod rule;

use crate::image_manip::bitmap::BitMap;
use crate::image_manip::rule::{generation, lemma_generation_len, step};
use gif::Frame;
use vstd::prelude::*;

verus! {

/// A frame of the `gif` crate, ready for an encoder. What it holds is
/// reached through [`frame_content`] only.
#[verifier::external_type_specification]
#[verifier::external_body]
pub struct ExFrame<'a>(gif::Frame<'a>);

/// The width, the height, the pixel buffer and the transparent palette index
/// of a frame.
pub uninterp spec fn frame_content(frame: Frame<'static>) -> (u16, u16, Seq<u8>, Option<u8>);

/// `Frame::from_indexed_pixels`: a frame of the given dimensions whose
/// buffer is a copy of `img`, with the given transparent index. The outside
/// function panics unless `img` holds `width * height` pixels.
#[verifier::external_body]
pub(crate) fn build_frame(width: u16, height: u16, img: &[u8], transparent: Option<u8>) -> (frame:
    Frame<'static>)
    requires
        img@.len() == width * height,
    ensures
        frame_content(frame) == (width, height, img@, transparent),
{
    Frame::from_indexed_pixels(width, height, img, transparent)
}

/// `Vec::drain` with the drained elements dropped: the elements from `start`
/// up to `end` leave and the others keep their order. The outside function
/// panics when `start` is past `end` or `end` is past the length.
#[verifier::external_body]
fn drain_range(v: &mut Vec<u8>, start: usize, end: usize)
    requires
        start <= end <= old(v)@.len(),
    ensures
        final(v)@ == old(v)@.take(start as int) + old(v)@.skip(end as int),
{
    v.drain(start..end);
}

/// The two colours of a frame.
#[derive(Debug, Clone, Copy, PartialEq, Eq)]
pub enum Colour {
    White,
    Black,
}

/// The palette index of a colour.
pub open spec fn palette_index(colour: Colour) -> u8 {
    match colour {
        Colour::White => 0,
        Colour::Black => 1,
    }
}

/// The colour that shows a cell: black when it is on, white when it is off.
pub open spec fn cell_colour(on: bool) -> Colour {
    if on {
        Colour::Black
    } else {
        Colour::White
    }
}

/// The first `width` cells of the row `s` as palette indices.
pub open spec fn row_pixels(s: Seq<bool>, width: nat) -> Seq<u8> {
    Seq::new(width, |x: int| palette_index(cell_colour(s[x])))
}

/// The pixels of `count` consecutive generations after the seed `s`, one row
/// each, oldest first; the first row shows generation `first`.
pub open spec fn window(s: Seq<bool>, rule: u8, width: nat, first: nat, count: nat) -> Seq<u8>
    decreases count,
{
    if count == 0 {
        Seq::empty()
    } else {
        window(s, rule, width, first, (count - 1) as nat) + row_pixels(
            generation(s, rule, (first + count - 1) as nat),
            width,
        )
    }
}

/// Why a frame could not be built.
#[derive(Debug, Clone, Copy, PartialEq, Eq)]
pub enum FrameError {
    /// A row of `width` pixels needs at least as many cells.
    RowTooWide { width: u16, cells: usize },
    /// The buffer does not hold `width * height` pixels.
    BufferLength { expected: usize, found: usize },
    /// A frame without rows has no oldest row to drop.
    NoRows,
}

/// The error, if any, that keeps a first frame of the given dimensions from
/// being primed from a row of `cells` cells.
pub open spec fn prime_error(width: u16, height: u16, cells: nat) -> Option<FrameError> {
    if height > 0 && width > cells {
        Some(FrameError::RowTooWide { width, cells: cells as usize })
    } else {
        None
    }
}

/// The error, if any, that keeps a buffer of `len` pixels from sliding on by
/// one generation of a row of `cells` cells.
pub open spec fn slide_error(len: nat, width: u16, height: u16, cells: nat) -> Option<
    FrameError,
> {
    if len != width * height {
        Some(FrameError::BufferLength { expected: (width * height) as usize, found: len as usize })
    } else if width > cells {
        Some(FrameError::RowTooWide { width, cells: cells as usize })
    } else if height == 0 && width > 0 {
        Some(FrameError::NoRows)
    } else {
        None
    }
}

/// Appends the palette index of `colour` to `vec`.
pub fn push_pixel(vec: &mut Vec<u8>, colour: Colour)
    ensures
        final(vec)@ == old(vec)@.push(palette_index(colour)),
{
    vec.push(
        match colour {
            Colour::White => 0,
            Colour::Black => 1,
        },
    );
}

/// Appends the first `width` cells of `line` to `image`, one pixel each.
fn push_row(image: &mut Vec<u8>, width: u16, line: &BitMap)
    requires
        width <= line@.len(),
    ensures
        final(image)@ == old(image)@ + row_pixels(line@, width as nat),
{
    let mut x: u16 = 0;
    while x < width
        invariant
            x <= width,
            width <= line@.len(),
            image@ == old(image)@ + row_pixels(line@, x as nat),
        decreases width - x,
    {
        match line.get(x as usize) {
            Ok(1) => push_pixel(image, Colour::Black),
            _ => push_pixel(image, Colour::White),
        }
        assert(image@ =~= old(image)@ + row_pixels(line@, (x + 1) as nat));
        x += 1;
    }
}

/// The rows of the `height` generations that follow `line`, oldest first;
/// `line` moves on to the last of them.
pub(crate) fn prime(width: u16, height: u16, line: &mut BitMap, rule: u8) -> (image: Vec<u8>)
    requires
        prime_error(width, height, old(line)@.len()) is None,
    ensures
        image@ == window(old(line)@, rule, width as nat, 1, height as nat),
        image@.len() == width * height,
        forall|i: int| 0 <= i < image@.len() ==> image@[i] <= 1,
        final(line)@ == generation(old(line)@, rule, height as nat),
        final(line)@.len() == old(line)@.len(),
{
    assert(width * height <= usize::MAX) by (nonlinear_arith)
        requires
            width <= 0xffff,
            height <= 0xffff,
            usize::MAX >= 0xffff_ffff,
    ;
    let num_pixels: usize = (width as usize) * (height as usize);
    let mut image: Vec<u8> = Vec::with_capacity(num_pixels);
    let ghost seed = line@;
    let mut y: u16 = 0;
    while y < height
        invariant
            y <= height,
            height > 0 ==> width <= seed.len(),
            line@ == generation(seed, rule, y as nat),
            image@ == window(seed, rule, width as nat, 1, y as nat),
        decreases height - y,
    {
        proof {
            lemma_generation_len(seed, rule, y as nat);
        }
        line.rule_step(rule);
        push_row(&mut image, width, line);
        y += 1;
    }
    proof {
        lemma_window_len(seed, rule, width as nat, 1, height as nat);
        lemma_window_palette(seed, rule, width as nat, 1, height as nat);
        lemma_generation_len(seed, rule, height as nat);
    }
    image
}

/// Primes the first frame: advances `init_line` by `height` generations and
/// returns their rows, oldest first.
pub fn init_image(width: u16, height: u16, init_line: &mut BitMap, rule: u8) -> (r: Result<
    Vec<u8>,
    FrameError,
>)
    ensures
        match r {
            Ok(image) => {
                &&& prime_error(width, height, old(init_line)@.len()) is None
                &&& image@ == window(old(init_line)@, rule, width as nat, 1, height as nat)
                &&& image@.len() == width * height
                &&& forall|i: int| 0 <= i < image@.len() ==> image@[i] <= 1
                &&& final(init_line)@ == generation(old(init_line)@, rule, height as nat)
                &&& final(init_line)@.len() == old(init_line)@.len()
            },
            Err(e) => {
                &&& prime_error(width, height, old(init_line)@.len()) == Some(e)
                &&& final(init_line)@ == old(init_line)@
            },
        },
{
    let cells: usize = init_line.size();
    if height > 0 && width as usize > cells {
        return Err(FrameError::RowTooWide { width, cells });
    }
    Ok(prime(width, height, init_line, rule))
}

/// Advances `line` by one generation, drops the oldest row of `image` and
/// appends the row of the new generation.
pub(crate) fn slide(image: &mut Vec<u8>, width: u16, height: u16, line: &mut BitMap, rule: u8)
    requires
        slide_error(old(image)@.len(), width, height, old(line)@.len()) is None,
    ensures
        final(image)@ == old(image)@.skip(width as int) + row_pixels(
            step(old(line)@, rule),
            width as nat,
        ),
        final(image)@.len() == old(image)@.len(),
        final(line)@ == step(old(line)@, rule),
{
    assert(width <= width * height) by (nonlinear_arith)
        requires
            height > 0 || width == 0,
    ;
    let first_row_len: usize = width as usize;
    // delete first row
    drain_range(image, 0, first_row_len);
    assert(image@ =~= old(image)@.skip(width as int));
    line.rule_step(rule);
    push_row(image, width, line);
}

/// Slides the frame on by one generation: advances `line` by one generation,
/// drops the oldest row of `image` and appends the new row.
pub fn gen_next_image(
    image: &mut Vec<u8>,
    width: u16,
    height: u16,
    line: &mut BitMap,
    rule: u8,
) -> (r: Result<(), FrameError>)
    ensures
        match r {
            Ok(()) => {
                &&& slide_error(old(image)@.len(), width, height, old(line)@.len()) is None
                &&& final(image)@ == old(image)@.skip(width as int) + row_pixels(
                    step(old(line)@, rule),
                    width as nat,
                )
                &&& final(image)@.len() == old(image)@.len()
                &&& final(line)@ == step(old(line)@, rule)
            },
            Err(e) => {
                &&& slide_error(old(image)@.len(), width, height, old(line)@.len()) == Some(e)
                &&& final(image)@ == old(image)@
                &&& final(line)@ == old(line)@
            },
        },
{
    assert(width * height <= usize::MAX) by (nonlinear_arith)
        requires
            width <= 0xffff,
            height <= 0xffff,
            usize::MAX >= 0xffff_ffff,
    ;
    let expected: usize = (width as usize) * (height as usize);
    let found: usize = image.len();
    if found != expected {
        return Err(FrameError::BufferLength { expected, found });
    }
    let cells: usize = line.size();
    if width as usize > cells {
        return Err(FrameError::RowTooWide { width, cells });
    }
    if height == 0 && width > 0 {
        return Err(FrameError::NoRows);
    }
    slide(image, width, height, line, rule);
    Ok(())
}

/// A window of `count` rows holds `width * count` pixels.
pub proof fn lemma_window_len(s: Seq<bool>, rule: u8, width: nat, first: nat, count: nat)
    ensures
        window(s, rule, width, first, count).len() == width * count,
    decreases count,
{
    if count > 0 {
        lemma_window_len(s, rule, width, first, (count - 1) as nat);
        assert(width * (count - 1) + width == width * count) by (nonlinear_arith);
    } else {
        assert(width * count == 0) by (nonlinear_arith)
            requires
                count == 0,
        ;
    }
}

/// Every pixel of a window is one of the two palette indices.
pub proof fn lemma_window_palette(s: Seq<bool>, rule: u8, width: nat, first: nat, count: nat)
    ensures
        forall|i: int|
            0 <= i < window(s, rule, width, first, count).len() ==> #[trigger] window(
                s,
                rule,
                width,
                first,
                count,
            )[i] <= 1,
    decreases count,
{
    if count > 0 {
        lemma_window_palette(s, rule, width, first, (count - 1) as nat);
        let shorter = window(s, rule, width, first, (count - 1) as nat);
        let last = row_pixels(generation(s, rule, (first + count - 1) as nat), width);
        assert forall|i: int| 0 <= i < (shorter + last).len() implies (shorter + last)[i] <= 1 by {
            if i >= shorter.len() {
                assert((shorter + last)[i] == last[i - shorter.len()]);
            }
        }
    }
}

/// Row `k` of a window shows generation `first + k`.
pub proof fn lemma_window_row(
    s: Seq<bool>,
    rule: u8,
    width: nat,
    first: nat,
    count: nat,
    k: nat,
)
    requires
        k < count,
    ensures
        (k + 1) * width <= window(s, rule, width, first, count).len(),
        window(s, rule, width, first, count).subrange(
            (k * width) as int,
            ((k + 1) * width) as int,
        ) == row_pixels(generation(s, rule, first + k), width),
    decreases count,
{
    let shorter = window(s, rule, width, first, (count - 1) as nat);
    let last = row_pixels(generation(s, rule, (first + count - 1) as nat), width);
    lemma_window_len(s, rule, width, first, (count - 1) as nat);
    lemma_window_len(s, rule, width, first, count);
    assert((k + 1) * width == k * width + width) by (nonlinear_arith);
    if k + 1 == count {
        assert((shorter + last).subrange((k * width) as int, ((k + 1) * width) as int) =~= last);
    } else {
        lemma_window_row(s, rule, width, first, (count - 1) as nat, k);
        assert((k + 1) * width <= count * width) by (nonlinear_arith)
            requires
                k + 1 <= count,
        ;
        assert((shorter + last).subrange((k * width) as int, ((k + 1) * width) as int)
            =~= shorter.subrange((k * width) as int, ((k + 1) * width) as int));
    }
}

/// Dropping the oldest row of a window and appending the generation that
/// follows its newest row gives the window that starts one generation later.
pub proof fn lemma_window_slide(s: Seq<bool>, rule: u8, width: nat, first: nat, count: nat)
    requires
        count > 0,
    ensures
        window(s, rule, width, first, count).skip(width as int) + row_pixels(
            generation(s, rule, first + count),
            width,
        ) == window(s, rule, width, first + 1, count),
    decreases count,
{
    let newest = row_pixels(generation(s, rule, first + count), width);
    let last = row_pixels(generation(s, rule, (first + count - 1) as nat), width);
    let shorter = window(s, rule, width, first, (count - 1) as nat);
    if count == 1 {
        assert(window(s, rule, width, first, 1) =~= last);
        assert(last.skip(width as int) =~= Seq::<u8>::empty());
        assert(window(s, rule, width, first + 1, 1) =~= newest);
    } else {
        lemma_window_slide(s, rule, width, first, (count - 1) as nat);
        lemma_window_len(s, rule, width, first, (count - 1) as nat);
        assert(width <= width * (count - 1)) by (nonlinear_arith)
            requires
                count >= 2,
        ;
        assert((shorter + last).skip(width as int) =~= shorter.skip(width as int) + last);
        assert(window(s, rule, width, first + 1, (count - 1) as nat) + newest == window(
            s,
            rule,
            width,
            first + 1,
            count,
        ));
    }
}

} // verus!
