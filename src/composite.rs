//! Composition of card images into one spread image, encoded as PNG.
use vstd::prelude::*;

use crate::error::SpreadError;
use crate::layout::{canvas_height, canvas_width, compute_layout, layout_of, SpreadLayout, MAX_CARDS};

verus! {

#[verifier::external_type_specification]
#[verifier::external_body]
pub struct ExDynamicImage(image::DynamicImage);

/// Width and height of the image that `image::load_from_memory` decodes from
/// `bytes`, or `None` when it cannot decode them.
pub uninterp spec fn decoded_size(bytes: Seq<u8>) -> Option<(u32, u32)>;

/// Background of the canvas: an opaque dark blue-grey.
pub const BACKGROUND: [u8; 4] = [20, 20, 30, 255];

/// Relies on `image::load_from_memory`, which guesses the format from the
/// bytes and decodes them: the image with its width and height, or why it
/// could not be decoded. Bytes that open with the PNG signature go to the PNG
/// decoder, which takes the size from the IHDR chunk that must come first.
#[verifier::external_body]
fn decode_image(bytes: &[u8]) -> (r: Result<(image::DynamicImage, u32, u32), String>)
    ensures
        r is Ok <==> decoded_size(bytes@) is Some,
        r matches Ok((_, w, h)) ==> decoded_size(bytes@) == Some((w, h)),
        r matches Ok((_, w, h)) ==> (png_size(bytes@) matches Some((pw, ph)) ==> pw == w && ph
            == h),
{
    match image::load_from_memory(bytes) {
        Ok(img) => {
            let (w, h) = (img.width(), img.height());
            Ok((img, w, h))
        },
        Err(e) => Err(e.to_string()),
    }
}

/// Relies on `ImageBuffer::from_pixel`: an RGBA image of the given size filled
/// with one colour. It panics only when the pixel buffer's length overflows
/// `usize` or exceeds what `Vec` can allocate.
#[verifier::external_body]
fn blank_image(width: u32, height: u32, color: [u8; 4]) -> (r: image::DynamicImage)
    requires
        fits_in_memory(width as int, height as int),
{
    image::DynamicImage::ImageRgba8(image::ImageBuffer::from_pixel(width, height, image::Rgba(color)))
}

/// Relies on `imageops::overlay`: alpha-blends `card` onto `target` with its
/// top-left corner at `(x, y)`, clipping what falls outside; the size of
/// `target` does not change.
#[verifier::external_body]
#[allow(deprecated)]
fn overlay_card(target: &mut image::DynamicImage, card: &image::DynamicImage, x: i64, y: i64) {
    image::imageops::overlay(target, card, x, y)
}

/// Relies on `DynamicImage::write_to` with `ImageFormat::Png`, which writes
/// through the `png` crate's encoder: the PNG signature, then the IHDR chunk
/// holding the image's width and height, then the compressed rows in chunks
/// it splits below the chunk-size limit. For an RGBA image of positive size
/// written to memory, the encoder's only refusals (a zero width or height, a
/// colour type it lacks, a buffer of the wrong length) cannot occur, and
/// writing to a `Vec` does not fail. The canvas's image has the size recorded
/// beside it (see `Canvas`).
#[verifier::external_body]
fn encode_png(canvas: &Canvas) -> (r: Result<Vec<u8>, String>)
    requires
        canvas.width > 0,
        canvas.height > 0,
        fits_in_memory(canvas.width as int, canvas.height as int),
    ensures
        r is Ok,
        r matches Ok(b) ==> png_size(b@) == Some((canvas.width as int, canvas.height as int)),
{
    let mut bytes: Vec<u8> = Vec::new();
    canvas.image.write_to(&mut std::io::Cursor::new(&mut bytes), image::ImageFormat::Png).map_err(
        |e| e.to_string(),
    )?;
    Ok(bytes)
}

/// A big-endian 32-bit number at `i`.
pub open spec fn be_u32(b: Seq<u8>, i: int) -> int {
    b[i] as int * 16777216 + b[i + 1] as int * 65536 + b[i + 2] as int * 256 + b[i + 3] as int
}

/// The eight bytes that open every PNG stream.
pub open spec fn png_signature() -> Seq<u8> {
    seq![137u8, 80u8, 78u8, 71u8, 13u8, 10u8, 26u8, 10u8]
}

/// The width and height that a PNG stream declares: its 8-byte signature is
/// followed by the IHDR chunk (length, type, then width and height).
pub open spec fn png_size(b: Seq<u8>) -> Option<(int, int)> {
    if b.len() >= 24 && b.take(8) == png_signature() {
        Some((be_u32(b, 16), be_u32(b, 20)))
    } else {
        None
    }
}

fn read_be_u32(b: &Vec<u8>, i: usize) -> (r: u32)
    requires
        i <= 20,
        i + 4 <= b@.len(),
    ensures
        r == be_u32(b@, i as int),
{
    (b[i] as u32) * 16777216 + (b[i + 1] as u32) * 65536 + (b[i + 2] as u32) * 256 + (b[i + 3] as u32)
}

/// The width and height that a PNG stream declares in its header.
pub fn png_dimensions(png: &Vec<u8>) -> (r: Option<(u32, u32)>)
    ensures
        match png_size(png@) {
            Some((w, h)) => r matches Some((a, b)) && a == w && b == h,
            None => r is None,
        },
{
    if png.len() < 24 {
        return None;
    }
    let sig: [u8; 8] = [137, 80, 78, 71, 13, 10, 26, 10];
    let mut i: usize = 0;
    while i < 8
        invariant
            png@.len() >= 24,
            i <= 8,
            sig@ == png_signature(),
            forall|k: int| 0 <= k < i ==> png@[k] == png_signature()[k],
        decreases 8 - i,
    {
        if png[i] != sig[i] {
            assert(png@.take(8)[i as int] != png_signature()[i as int]);
            return None;
        }
        i = i + 1;
    }
    assert(png@.take(8) =~= png_signature());
    Some((read_be_u32(png, 16), read_be_u32(png, 20)))
}

/// The size of the image that `bytes` decode to, or `None` when they do not
/// decode. For a PNG stream that decodes, it is the size that the stream's
/// header declares, so a composite decodes to its layout's size.
pub fn decoded_dimensions(bytes: &Vec<u8>) -> (r: Option<(u32, u32)>)
    ensures
        r == decoded_size(bytes@),
        r matches Some((w, h)) ==> (png_size(bytes@) matches Some((pw, ph)) ==> pw == w && ph
            == h),
{
    match decode_image(bytes.as_slice()) {
        Ok((_, w, h)) => Some((w, h)),
        Err(_) => None,
    }
}

/// The canvas being composed: an RGBA image, filled at creation with
/// `background` and of size `width` by `height`, and the top-left corners at
/// which cards were laid on it, in order. Only this module builds one, from
/// `blank_image` with the recorded size and colour, and overlaying keeps the
/// size.
pub struct Canvas {
    image: image::DynamicImage,
    width: u32,
    height: u32,
    background: [u8; 4],
    placed: Vec<(u32, u32)>,
}

fn new_canvas(width: u32, height: u32, background: [u8; 4]) -> (r: Canvas)
    requires
        fits_in_memory(width as int, height as int),
    ensures
        r.width == width,
        r.height == height,
        r.background == background,
        r.placed@.len() == 0,
{
    Canvas { image: blank_image(width, height, background), width, height, background, placed: Vec::new() }
}

fn place_card(canvas: &mut Canvas, card: &image::DynamicImage, x: u32, y: u32)
    ensures
        final(canvas).width == old(canvas).width,
        final(canvas).height == old(canvas).height,
        final(canvas).background == old(canvas).background,
        final(canvas).placed@ == old(canvas).placed@.push((x, y)),
{
    overlay_card(&mut canvas.image, card, x as i64, y as i64);
    canvas.placed.push((x, y));
}

/// The canvas for `count` cards of `w` by `h` pixels does not fit in 32-bit
/// dimensions, or its buffers do not fit in memory.
pub open spec fn canvas_too_large(count: int, w: int, h: int) -> bool {
    canvas_width(count, w) > u32::MAX || canvas_height(count, h) > u32::MAX || !fits_in_memory(
        canvas_width(count, w),
        canvas_height(count, h),
    )
}

/// An RGBA canvas of `w` by `h` pixels, and the buffers that PNG encoding
/// builds from its rows (one filter byte and four bytes a pixel per row, at
/// most doubled by compression overhead), stay within the largest allocation
/// that `Vec` allows.
pub open spec fn fits_in_memory(w: int, h: int) -> bool {
    (4 * w + 1) * h * 2 + 1024 <= isize::MAX
}

/// One card image to compose: where it comes from, and its encoded bytes or
/// why they could not be read.
pub struct CardSource {
    pub path: String,
    pub bytes: Result<Vec<u8>, String>,
}

/// A composed spread: its layout, its PNG encoding, the background colour of
/// its canvas, and where the cards were laid, in input order.
pub struct SpreadImage {
    pub layout: SpreadLayout,
    pub png: Vec<u8>,
    pub background: [u8; 4],
    pub placed: Vec<(u32, u32)>,
}

/// The decoded size of a source, or `None` when its bytes are missing or do
/// not decode.
pub open spec fn source_size(c: CardSource) -> Option<(u32, u32)> {
    match c.bytes {
        Ok(b) => decoded_size(b@),
        Err(_) => None,
    }
}

/// Source `j` is the first that cannot be read or decoded.
pub open spec fn first_unusable(cards: Seq<CardSource>, j: int) -> bool {
    &&& 0 <= j < cards.len()
    &&& source_size(cards[j]) is None
    &&& forall|i: int| 0 <= i < j ==> (#[trigger] source_size(cards[i])) is Some
}

/// Every source can be read and decoded.
pub open spec fn all_usable(cards: Seq<CardSource>) -> bool {
    forall|i: int| 0 <= i < cards.len() ==> (#[trigger] source_size(cards[i])) is Some
}

/// The decoded size of the first source, which sets the card size.
pub open spec fn card_size(cards: Seq<CardSource>) -> (u32, u32) {
    source_size(cards[0])->0
}

/// Composes the card images in rows of five on a dark background and encodes
/// the result as PNG. The first image gives the card size; the others are
/// expected to share it. Sources are decoded in order and the first that
/// cannot be read or decoded stops the work.
pub fn create_composite_spread(cards: &Vec<CardSource>) -> (r: Result<SpreadImage, SpreadError>)
    ensures
        cards@.len() == 0 <==> r matches Err(SpreadError::NoCards),
        cards@.len() > MAX_CARDS <==> r matches Err(SpreadError::TooManyCards),
        r matches Err(SpreadError::ImageLoad { .. }) <==> (1 <= cards@.len() <= MAX_CARDS
            && !all_usable(cards@)),
        r matches Err(SpreadError::ImageLoad { path, .. }) ==> exists|j: int|
            first_unusable(cards@, j) && path@ == cards@[j].path@,
        (1 <= cards@.len() <= MAX_CARDS && all_usable(cards@)) ==> ((r matches Err(
            SpreadError::CanvasTooLarge,
        )) <==> canvas_too_large(
            cards@.len() as int,
            card_size(cards@).0 as int,
            card_size(cards@).1 as int,
        )),
        (1 <= cards@.len() <= MAX_CARDS && all_usable(cards@) && !canvas_too_large(
            cards@.len() as int,
            card_size(cards@).0 as int,
            card_size(cards@).1 as int,
        )) ==> r is Ok,
        r matches Ok(img) ==> {
            &&& 1 <= cards@.len() <= MAX_CARDS
            &&& all_usable(cards@)
            &&& layout_of(
                img.layout,
                cards@.len() as int,
                card_size(cards@).0 as int,
                card_size(cards@).1 as int,
            )
            &&& png_size(img.png@) == Some((img.layout.width as int, img.layout.height as int))
            &&& img.background == BACKGROUND
            &&& img.placed@ == img.layout.positions@
        },
        r is Ok || r matches Err(SpreadError::NoCards) || r matches Err(SpreadError::TooManyCards)
            || r matches Err(SpreadError::ImageLoad { .. }) || r matches Err(
            SpreadError::CanvasTooLarge,
        ),
{
    let n = cards.len();
    if n == 0 {
        return Err(SpreadError::NoCards);
    }
    if n > MAX_CARDS {
        return Err(SpreadError::TooManyCards);
    }
    let mut images: Vec<image::DynamicImage> = Vec::new();
    let mut sizes: Vec<(u32, u32)> = Vec::new();
    let mut i: usize = 0;
    while i < n
        invariant
            n == cards@.len(),
            1 <= n <= MAX_CARDS,
            i <= n,
            images@.len() == i,
            sizes@.len() == i,
            forall|j: int| 0 <= j < i ==> source_size(#[trigger] cards@[j]) == Some(sizes@[j]),
        decreases n - i,
    {
        match &cards[i].bytes {
            Err(reason) => {
                assert(first_unusable(cards@, i as int));
                return Err(
                    SpreadError::ImageLoad { path: cards[i].path.clone(), reason: reason.clone() },
                );
            },
            Ok(bytes) => match decode_image(bytes.as_slice()) {
                Err(reason) => {
                    assert(first_unusable(cards@, i as int));
                    return Err(SpreadError::ImageLoad { path: cards[i].path.clone(), reason });
                },
                Ok((img, w, h)) => {
                    images.push(img);
                    sizes.push((w, h));
                },
            },
        }
        i = i + 1;
    }
    assert(all_usable(cards@));
    let card_width = sizes[0].0;
    let card_height = sizes[0].1;
    let layout = match compute_layout(n, card_width, card_height) {
        Some(l) => l,
        None => {
            return Err(SpreadError::CanvasTooLarge);
        },
    };
    let cw = layout.width as u128;
    let ch = layout.height as u128;
    assert((4 * cw + 1) * ch * 2 + 1024 <= (4 * u32::MAX + 1) * u32::MAX * 2 + 1024) by (
    nonlinear_arith)
        requires
            cw <= u32::MAX,
            ch <= u32::MAX,
    ;
    let needed = (4 * cw + 1) * ch * 2 + 1024;
    if needed > isize::MAX as u128 {
        return Err(SpreadError::CanvasTooLarge);
    }
    assert(layout.width >= 40 && layout.height >= 40);
    let mut canvas = new_canvas(layout.width, layout.height, BACKGROUND);
    let mut k: usize = 0;
    while k < n
        invariant
            n == images@.len(),
            n == layout.positions@.len(),
            k <= n,
            canvas.width == layout.width,
            canvas.height == layout.height,
            canvas.background == BACKGROUND,
            canvas.placed@ == layout.positions@.take(k as int),
        decreases n - k,
    {
        let (x, y) = layout.positions[k];
        place_card(&mut canvas, &images[k], x, y);
        assert(layout.positions@.take(k + 1) =~= layout.positions@.take(k as int).push((x, y)));
        k = k + 1;
    }
    assert(layout.positions@.take(n as int) =~= layout.positions@);
    match encode_png(&canvas) {
        Ok(png) => Ok(
            SpreadImage { layout, png, background: canvas.background, placed: canvas.placed },
        ),
        Err(reason) => Err(SpreadError::Encode(reason)),
    }
}

} // verus!
