//! Geometry of a spread: cards in rows of five, each row centred, with fixed
//! spacing between cards and padding around the canvas.
use vstd::prelude::*;

verus! {

/// Cards in a full row.
pub const CARDS_PER_ROW: usize = 5;

/// Pixels between neighbouring cards and between rows.
pub const SPACING: u32 = 10;

/// Pixels of background around the cards.
pub const PADDING: u32 = 20;

/// Largest number of cards in one spread.
pub const MAX_CARDS: usize = 10;

/// Rows needed for `count` cards.
pub open spec fn rows_for(count: int) -> int {
    (count + CARDS_PER_ROW - 1) / CARDS_PER_ROW as int
}

/// Cards in row `row` of a spread of `count` cards (the second row takes what
/// the first leaves).
pub open spec fn cards_in_row(count: int, row: int) -> int {
    if row == 0 {
        if count < CARDS_PER_ROW {
            count
        } else {
            CARDS_PER_ROW as int
        }
    } else if count > CARDS_PER_ROW {
        count - CARDS_PER_ROW
    } else {
        0
    }
}

/// Width of a row of `cards` cards, each `w` pixels wide.
pub open spec fn row_width(cards: int, w: int) -> int {
    if cards <= 0 {
        0
    } else {
        cards * w + (cards - 1) * SPACING
    }
}

/// Canvas width: the wider row plus padding on both sides.
pub open spec fn canvas_width(count: int, w: int) -> int {
    let a = row_width(cards_in_row(count, 0), w);
    let b = row_width(cards_in_row(count, 1), w);
    (if a >= b {
        a
    } else {
        b
    }) + 2 * PADDING
}

/// Canvas height: the rows, the spacing between them, and padding above and
/// below.
pub open spec fn canvas_height(count: int, h: int) -> int {
    rows_for(count) * h + (rows_for(count) - 1) * SPACING + 2 * PADDING
}

/// Left edge of card `k`: its row is centred, and cards follow each other at
/// `w + SPACING`.
pub open spec fn card_x(count: int, w: int, k: int) -> int {
    let row = k / CARDS_PER_ROW as int;
    let col = k % CARDS_PER_ROW as int;
    (canvas_width(count, w) - row_width(cards_in_row(count, row), w)) / 2 + col * (w + SPACING)
}

/// Top edge of card `k`.
pub open spec fn card_y(h: int, k: int) -> int {
    PADDING + (k / CARDS_PER_ROW as int) * (h + SPACING)
}

/// Where the cards of a spread go on the canvas.
pub struct SpreadLayout {
    pub card_width: u32,
    pub card_height: u32,
    pub num_rows: u32,
    pub width: u32,
    pub height: u32,
    /// Top-left corner of each card, in input order.
    pub positions: Vec<(u32, u32)>,
}

/// `l` is the layout of `count` cards of `w` by `h` pixels.
pub open spec fn layout_of(l: SpreadLayout, count: int, w: int, h: int) -> bool {
    &&& l.card_width == w
    &&& l.card_height == h
    &&& l.num_rows == rows_for(count)
    &&& l.width == canvas_width(count, w)
    &&& l.height == canvas_height(count, h)
    &&& l.positions@.len() == count
    &&& forall|k: int|
        0 <= k < count ==> (#[trigger] l.positions@[k]).0 == card_x(count, w, k) && l.positions@[k].1
            == card_y(h, k)
}

fn row_pixels(cards: u64, w: u64) -> (r: u64)
    requires
        cards <= 5,
        w <= u32::MAX,
    ensures
        r == row_width(cards as int, w as int),
        r <= 5 * u32::MAX + 40,
{
    if cards == 0 {
        0
    } else {
        assert(cards * w <= 5 * u32::MAX) by (nonlinear_arith)
            requires
                cards <= 5,
                w <= u32::MAX,
        ;
        let gaps: u64 = (cards - 1) * 10;
        cards * w + gaps
    }
}

/// Rows needed for `count` cards: the count divided by five, rounded up.
pub fn num_rows(count: usize) -> (r: usize)
    requires
        count <= MAX_CARDS,
    ensures
        r == rows_for(count as int),
{
    (count + CARDS_PER_ROW - 1) / CARDS_PER_ROW
}

/// Lays out `count` cards of `card_width` by `card_height` pixels; `None` when
/// the canvas would not fit in 32-bit dimensions.
pub fn compute_layout(count: usize, card_width: u32, card_height: u32) -> (r: Option<SpreadLayout>)
    requires
        1 <= count <= MAX_CARDS,
    ensures
        r is None <==> (canvas_width(count as int, card_width as int) > u32::MAX || canvas_height(
            count as int,
            card_height as int,
        ) > u32::MAX),
        r matches Some(l) ==> layout_of(l, count as int, card_width as int, card_height as int),
{
    let w = card_width as u64;
    let h = card_height as u64;
    let rows = num_rows(count) as u64;
    assert(1 <= rows <= 2);
    let first: u64 = if count < CARDS_PER_ROW {
        count as u64
    } else {
        CARDS_PER_ROW as u64
    };
    let second: u64 = if count > CARDS_PER_ROW {
        (count - CARDS_PER_ROW) as u64
    } else {
        0
    };
    assert(first * w <= 5 * u32::MAX) by (nonlinear_arith)
        requires
            first <= 5,
            w <= u32::MAX,
    ;
    assert(second * w <= 5 * u32::MAX) by (nonlinear_arith)
        requires
            second <= 5,
            w <= u32::MAX,
    ;
    assert(rows * h <= 2 * u32::MAX) by (nonlinear_arith)
        requires
            rows <= 2,
            h <= u32::MAX,
    ;
    assert(1 <= first <= 5);
    assert(second <= 5);
    let first_width = row_pixels(first, w);
    let second_width = row_pixels(second, w);
    let width: u64 = (if first_width >= second_width {
        first_width
    } else {
        second_width
    }) + 2 * PADDING as u64;
    let height: u64 = rows * h + (rows - 1) * SPACING as u64 + 2 * PADDING as u64;
    assert(width == canvas_width(count as int, w as int));
    assert(height == canvas_height(count as int, h as int));
    if width > u32::MAX as u64 || height > u32::MAX as u64 {
        return None;
    }
    let mut positions: Vec<(u32, u32)> = Vec::new();
    let mut k: usize = 0;
    while k < count
        invariant
            1 <= count <= MAX_CARDS,
            k <= count,
            w == card_width,
            h == card_height,
            width == canvas_width(count as int, w as int),
            height == canvas_height(count as int, h as int),
            first_width == row_width(cards_in_row(count as int, 0), w as int),
            second_width == row_width(cards_in_row(count as int, 1), w as int),
            rows == rows_for(count as int),
            width <= u32::MAX,
            height <= u32::MAX,
            positions@.len() == k,
            forall|j: int|
                0 <= j < k ==> (#[trigger] positions@[j]).0 == card_x(count as int, w as int, j)
                    && positions@[j].1 == card_y(h as int, j),
        decreases count - k,
    {
        let row = k / CARDS_PER_ROW;
        let col = k % CARDS_PER_ROW;
        let this_width = if row == 0 {
            first_width
        } else {
            second_width
        };
        assert(this_width == row_width(cards_in_row(count as int, row as int), w as int));
        assert(this_width <= width);
        let start = (width - this_width) / 2;
        let ghost c = cards_in_row(count as int, row as int);
        assert(1 <= c && col < c);
        assert(col * (w + SPACING) <= (c - 1) * (w + SPACING)) by (nonlinear_arith)
            requires
                0 <= col < c,
                w >= 0,
        ;
        assert((c - 1) * (w + SPACING) == c * w + (c - 1) * SPACING - w) by (nonlinear_arith);
        assert(row * (h + SPACING) <= (rows - 1) * (h + SPACING)) by (nonlinear_arith)
            requires
                0 <= row < rows,
                h >= 0,
        ;
        assert((rows - 1) * (h + SPACING) == rows * h + (rows - 1) * SPACING - h) by (nonlinear_arith);
        let x = start + col as u64 * (w + SPACING as u64);
        let y = PADDING as u64 + row as u64 * (h + SPACING as u64);
        positions.push((x as u32, y as u32));
        k = k + 1;
    }
    Some(
        SpreadLayout {
            card_width,
            card_height,
            num_rows: rows as u32,
            width: width as u32,
            height: height as u32,
            positions,
        },
    )
}

} // verus!
