//! The anchor grid of a multi-scale single-shot detector.
//!
//! Anchors are listed level by level in the declared order, within a level row
//! by row from the top, within a row cell by cell from the left, and each cell
//! contributes `anchors_per_cell` equal anchors. An anchor's place in that list
//! is the row of the regression tensor that belongs to it.

use vstd::prelude::*;
use crate::fixed::{floor_div, saturate, saturate_to_i32, Fixed, ONE_RAW};

verus! {

/// A reference box, normalised to the model input.
#[derive(Clone, Copy, Debug, PartialEq, Eq)]
pub struct Anchor {
    pub x_center: Fixed,
    pub y_center: Fixed,
    pub w: Fixed,
    pub h: Fixed,
}

/// One feature map of the detector: `map_size` rows of `map_size` cells, each
/// cell `stride` input pixels wide, each with `anchors_per_cell` anchors.
#[derive(Clone, Copy, Debug, PartialEq, Eq)]
pub struct ScaleLevel {
    pub stride: u32,
    pub map_size: u32,
    pub anchors_per_cell: u32,
}

/// Raw centre coordinate of cell number `cell` along one axis:
/// `(cell + 0.5) * stride / input_size`, rounded down and saturated.
pub open spec fn center_raw(cell: int, stride: int, input_size: int) -> int {
    saturate(((2 * cell + 1) * stride * 65536) / (2 * input_size))
}

/// The anchor of the cell in row `row` and column `col` of `level`; its width
/// and height are `1.0`.
pub open spec fn anchor_at(level: ScaleLevel, row: int, col: int, input_size: int) -> Anchor {
    Anchor {
        x_center: Fixed { raw: center_raw(col, level.stride as int, input_size) as i32 },
        y_center: Fixed { raw: center_raw(row, level.stride as int, input_size) as i32 },
        w: Fixed { raw: 65536 },
        h: Fixed { raw: 65536 },
    }
}

/// `n` copies of one anchor.
pub open spec fn cell_anchors(a: Anchor, n: nat) -> Seq<Anchor> {
    Seq::new(n, |k: int| a)
}

/// The anchors of the first `cols` cells of row `row`.
pub open spec fn row_anchors(level: ScaleLevel, row: int, cols: nat, input_size: int) -> Seq<
    Anchor,
>
    decreases cols,
{
    if cols == 0 {
        Seq::empty()
    } else {
        row_anchors(level, row, (cols - 1) as nat, input_size) + cell_anchors(
            anchor_at(level, row, cols - 1, input_size),
            level.anchors_per_cell as nat,
        )
    }
}

/// The anchors of the first `rows` rows of `level`.
pub open spec fn level_anchors(level: ScaleLevel, rows: nat, input_size: int) -> Seq<Anchor>
    decreases rows,
{
    if rows == 0 {
        Seq::empty()
    } else {
        level_anchors(level, (rows - 1) as nat, input_size) + row_anchors(
            level,
            rows - 1,
            level.map_size as nat,
            input_size,
        )
    }
}

/// The anchors of a whole layout.
pub open spec fn grid_anchors(layout: Seq<ScaleLevel>, input_size: int) -> Seq<Anchor>
    decreases layout.len(),
{
    if layout.len() == 0 {
        Seq::empty()
    } else {
        grid_anchors(layout.drop_last(), input_size) + level_anchors(
            layout.last(),
            layout.last().map_size as nat,
            input_size,
        )
    }
}

/// Number of anchors of one level: `map_size² × anchors_per_cell`.
pub open spec fn level_count(level: ScaleLevel) -> nat {
    (level.map_size as nat) * (level.map_size as nat) * (level.anchors_per_cell as nat)
}

/// Number of anchors of a layout: the sum of its levels' counts.
pub open spec fn layout_count(layout: Seq<ScaleLevel>) -> nat
    decreases layout.len(),
{
    if layout.len() == 0 {
        0
    } else {
        layout_count(layout.drop_last()) + level_count(layout.last())
    }
}

/// The first `cols` cells of a row hold `cols × anchors_per_cell` anchors.
pub proof fn lemma_row_len(level: ScaleLevel, row: int, cols: nat, input_size: int)
    ensures
        row_anchors(level, row, cols, input_size).len() == cols * (level.anchors_per_cell as nat),
    decreases cols,
{
    let apc = level.anchors_per_cell as nat;
    if cols > 0 {
        lemma_row_len(level, row, (cols - 1) as nat, input_size);
        assert((cols - 1) as nat * apc + apc == cols * apc) by (nonlinear_arith)
            requires
                cols > 0,
        ;
    } else {
        assert(0 * apc == 0) by (nonlinear_arith);
    }
}

/// The first `rows` rows of a level hold
/// `rows × map_size × anchors_per_cell` anchors.
pub proof fn lemma_level_len(level: ScaleLevel, rows: nat, input_size: int)
    ensures
        level_anchors(level, rows, input_size).len() == rows * (level.map_size as nat) * (
        level.anchors_per_cell as nat),
    decreases rows,
{
    let apc = level.anchors_per_cell as nat;
    let m = level.map_size as nat;
    if rows > 0 {
        lemma_level_len(level, (rows - 1) as nat, input_size);
        lemma_row_len(level, rows - 1, m, input_size);
        assert((rows - 1) as nat * m * apc + m * apc == rows * m * apc) by (nonlinear_arith)
            requires
                rows > 0,
        ;
    } else {
        assert(0 * m * apc == 0) by (nonlinear_arith);
    }
}

/// The grid holds exactly as many anchors as the layout's levels add up to:
/// the sum of `map_size² × anchors_per_cell`.
pub proof fn lemma_anchor_count(layout: Seq<ScaleLevel>, input_size: int)
    ensures
        grid_anchors(layout, input_size).len() == layout_count(layout),
    decreases layout.len(),
{
    if layout.len() > 0 {
        lemma_anchor_count(layout.drop_last(), input_size);
        lemma_level_len(layout.last(), layout.last().map_size as nat, input_size);
    }
}

/// Where the cells of a level do not reach beyond the input, every centre
/// lies between `0` and `1.0`.
pub proof fn lemma_center_in_unit(cell: int, level: ScaleLevel, input_size: int)
    requires
        0 <= cell < level.map_size,
        0 < input_size,
        level.stride * level.map_size <= input_size,
    ensures
        0 <= center_raw(cell, level.stride as int, input_size) <= 65536,
{
    let stride = level.stride as int;
    let cells = level.map_size as int;
    let num = (2 * cell + 1) * stride * 65536;
    let den = 2 * input_size;
    assert(0 <= (2 * cell + 1) * stride <= 2 * (stride * cells)) by (nonlinear_arith)
        requires
            0 <= cell < cells,
            0 <= stride,
    ;
    assert(0 <= num <= den * 65536) by (nonlinear_arith)
        requires
            num == (2 * cell + 1) * stride * 65536,
            0 <= (2 * cell + 1) * stride <= den,
    ;
    vstd::arithmetic::div_mod::lemma_fundamental_div_mod(num, den);
    vstd::arithmetic::div_mod::lemma_mod_bound(num, den);
    let q = num / den;
    let r = num % den;
    assert(0 <= q <= 65536) by (nonlinear_arith)
        requires
            num == den * q + r,
            0 <= r < den,
            0 <= num <= den * 65536,
    ;
}

/// Place of an anchor within its level: the anchors of the rows above it, of
/// the cells left of it, and of its own cell before it.
pub open spec fn place_in_level(level: ScaleLevel, row: int, col: int, k: int) -> int {
    (row * (level.map_size as int) + col) * (level.anchors_per_cell as int) + k
}

proof fn lemma_row_index(level: ScaleLevel, row: int, cols: nat, input_size: int, col: int, k: int)
    requires
        0 <= col < cols,
        0 <= k < level.anchors_per_cell,
    ensures
        0 <= col * (level.anchors_per_cell as int) + k < row_anchors(
            level,
            row,
            cols,
            input_size,
        ).len(),
        row_anchors(level, row, cols, input_size)[col * (level.anchors_per_cell as int) + k]
            == anchor_at(level, row, col, input_size),
    decreases cols,
{
    let apc = level.anchors_per_cell as int;
    let before = row_anchors(level, row, (cols - 1) as nat, input_size);
    lemma_row_len(level, row, cols, input_size);
    lemma_row_len(level, row, (cols - 1) as nat, input_size);
    assert(0 <= col * apc && (col + 1) * apc <= cols * apc && (col + 1) * apc == col * apc + apc
        && (cols - 1) * apc + apc == cols * apc) by (nonlinear_arith)
        requires
            0 <= col < cols,
            0 < apc,
    ;
    if col < cols - 1 {
        lemma_row_index(level, row, (cols - 1) as nat, input_size, col, k);
    } else {
        assert(before.len() == col * apc);
    }
}

proof fn lemma_level_index(
    level: ScaleLevel,
    rows: nat,
    input_size: int,
    row: int,
    col: int,
    k: int,
)
    requires
        0 <= row < rows,
        0 <= col < level.map_size,
        0 <= k < level.anchors_per_cell,
    ensures
        0 <= place_in_level(level, row, col, k) < level_anchors(level, rows, input_size).len(),
        level_anchors(level, rows, input_size)[place_in_level(level, row, col, k)] == anchor_at(
            level,
            row,
            col,
            input_size,
        ),
    decreases rows,
{
    let apc = level.anchors_per_cell as int;
    let m = level.map_size as int;
    let before = level_anchors(level, (rows - 1) as nat, input_size);
    let last = row_anchors(level, rows - 1, level.map_size as nat, input_size);
    lemma_level_len(level, rows, input_size);
    lemma_level_len(level, (rows - 1) as nat, input_size);
    lemma_row_len(level, rows - 1, level.map_size as nat, input_size);
    assert((row * m + col) * apc == row * m * apc + col * apc) by (nonlinear_arith);
    if row < rows - 1 {
        lemma_level_index(level, (rows - 1) as nat, input_size, row, col, k);
    } else {
        lemma_row_index(level, row, level.map_size as nat, input_size, col, k);
        assert(before.len() == row * m * apc);
        assert((before + last)[before.len() + (col * apc + k)] == last[col * apc + k]);
    }
}

/// Which anchor stands where: the anchor number `k` of the cell in row `row`
/// and column `col` of level number `l` comes after all anchors of the levels
/// before `l`, at its place within the level.
pub proof fn lemma_anchor_index(
    layout: Seq<ScaleLevel>,
    input_size: int,
    l: int,
    row: int,
    col: int,
    k: int,
)
    requires
        0 <= l < layout.len(),
        0 <= row < layout[l].map_size,
        0 <= col < layout[l].map_size,
        0 <= k < layout[l].anchors_per_cell,
    ensures
        0 <= layout_count(layout.take(l)) + place_in_level(layout[l], row, col, k) < grid_anchors(
            layout,
            input_size,
        ).len(),
        grid_anchors(layout, input_size)[layout_count(layout.take(l)) + place_in_level(
            layout[l],
            row,
            col,
            k,
        )] == anchor_at(layout[l], row, col, input_size),
    decreases layout.len(),
{
    let front = layout.drop_last();
    let before = grid_anchors(front, input_size);
    let last = level_anchors(layout.last(), layout.last().map_size as nat, input_size);
    lemma_anchor_count(layout, input_size);
    lemma_anchor_count(front, input_size);
    if l < layout.len() - 1 {
        assert(front.take(l) =~= layout.take(l));
        lemma_anchor_index(front, input_size, l, row, col, k);
    } else {
        assert(layout.take(l) =~= front);
        lemma_level_index(
            layout.last(),
            layout.last().map_size as nat,
            input_size,
            row,
            col,
            k,
        );
        let at = place_in_level(layout[l], row, col, k);
        assert((before + last)[before.len() + at] == last[at]);
    }
}

/// Every anchor of `s` has width and height `1.0`.
pub open spec fn unit_extent(s: Seq<Anchor>) -> bool {
    forall|i: int| 0 <= i < s.len() ==> (#[trigger] s[i]).w@ == 65536 && s[i].h@ == 65536
}

proof fn lemma_unit_extent_concat(a: Seq<Anchor>, b: Seq<Anchor>)
    requires
        unit_extent(a),
        unit_extent(b),
    ensures
        unit_extent(a + b),
{
    assert forall|i: int| 0 <= i < (a + b).len() implies (#[trigger] (a + b)[i]).w@ == 65536 && (a
        + b)[i].h@ == 65536 by {
        if i < a.len() {
            assert((a + b)[i] == a[i]);
        } else {
            assert((a + b)[i] == b[i - a.len()]);
        }
    }
}

proof fn lemma_row_unit_extent(level: ScaleLevel, row: int, cols: nat, input_size: int)
    ensures
        unit_extent(row_anchors(level, row, cols, input_size)),
    decreases cols,
{
    if cols > 0 {
        lemma_row_unit_extent(level, row, (cols - 1) as nat, input_size);
        lemma_unit_extent_concat(
            row_anchors(level, row, (cols - 1) as nat, input_size),
            cell_anchors(
                anchor_at(level, row, cols - 1, input_size),
                level.anchors_per_cell as nat,
            ),
        );
    }
}

proof fn lemma_level_unit_extent(level: ScaleLevel, rows: nat, input_size: int)
    ensures
        unit_extent(level_anchors(level, rows, input_size)),
    decreases rows,
{
    if rows > 0 {
        lemma_level_unit_extent(level, (rows - 1) as nat, input_size);
        lemma_row_unit_extent(level, rows - 1, level.map_size as nat, input_size);
        lemma_unit_extent_concat(
            level_anchors(level, (rows - 1) as nat, input_size),
            row_anchors(level, rows - 1, level.map_size as nat, input_size),
        );
    }
}

/// Every anchor of the grid has width and height `1.0`.
pub proof fn lemma_unit_extent(layout: Seq<ScaleLevel>, input_size: int)
    ensures
        unit_extent(grid_anchors(layout, input_size)),
    decreases layout.len(),
{
    if layout.len() > 0 {
        lemma_unit_extent(layout.drop_last(), input_size);
        lemma_level_unit_extent(layout.last(), layout.last().map_size as nat, input_size);
        lemma_unit_extent_concat(
            grid_anchors(layout.drop_last(), input_size),
            level_anchors(layout.last(), layout.last().map_size as nat, input_size),
        );
    }
}

/// Number of anchors of `layout`, where it fits a `usize`.
pub fn anchor_count(layout: &Vec<ScaleLevel>) -> (r: Option<usize>)
    ensures
        match r {
            Some(n) => n == layout_count(layout@),
            None => layout_count(layout@) > usize::MAX,
        },
{
    let mut total: u128 = 0;
    let mut i: usize = 0;
    while i < layout.len()
        invariant
            i <= layout.len(),
            total == layout_count(layout@.take(i as int)),
            total <= usize::MAX,
        decreases layout.len() - i,
    {
        let level: ScaleLevel = layout[i];
        let m: u128 = level.map_size as u128;
        let a: u128 = level.anchors_per_cell as u128;
        assert(m * m <= 0xffff_ffff_ffff_ffff && m * m * a <= 0xffff_ffff_ffff_ffff_ffff_ffff)
            by (nonlinear_arith)
            requires
                0 <= m <= 0xffff_ffff,
                0 <= a <= 0xffff_ffff,
        ;
        let count: u128 = m * m * a;
        proof {
            assert(layout@.take(i + 1).drop_last() =~= layout@.take(i as int));
            assert(count == level_count(level));
            lemma_count_grows(layout@, i + 1);
        }
        if total + count > usize::MAX as u128 {
            return None;
        }
        total = total + count;
        i += 1;
    }
    proof {
        assert(layout@.take(layout.len() as int) =~= layout@);
    }
    Some(total as usize)
}

/// A layout holds at least as many anchors as any of its beginnings.
pub proof fn lemma_count_grows(layout: Seq<ScaleLevel>, n: int)
    requires
        0 <= n <= layout.len(),
    ensures
        layout_count(layout.take(n)) <= layout_count(layout),
    decreases layout.len(),
{
    if n == layout.len() {
        assert(layout.take(n) =~= layout);
    } else {
        assert(layout.drop_last().take(n) =~= layout.take(n));
        lemma_count_grows(layout.drop_last(), n);
    }
}

/// Centre of cell number `cell` along one axis.
fn cell_center(cell: u32, stride: u32, input_size: u32) -> (r: Fixed)
    requires
        input_size > 0,
    ensures
        r@ == center_raw(cell as int, stride as int, input_size as int),
{
    let c: i128 = 2 * (cell as i128) + 1;
    let s: i128 = stride as i128;
    assert(0 <= c * s <= 0x2_0000_0000_0000_0000) by (nonlinear_arith)
        requires
            0 <= c <= 0x1_ffff_ffff,
            0 <= s <= 0xffff_ffff,
    ;
    let q: i128 = floor_div(c * s * 65536, 2 * (input_size as i128));
    Fixed { raw: saturate_to_i32(q) }
}

/// Appends `n` copies of `a`.
fn push_cell(anchors: &mut Vec<Anchor>, a: Anchor, n: u32)
    ensures
        final(anchors)@ == old(anchors)@ + cell_anchors(a, n as nat),
{
    let mut k: u32 = 0;
    while k < n
        invariant
            k <= n,
            anchors@ == old(anchors)@ + cell_anchors(a, k as nat),
        decreases n - k,
    {
        anchors.push(a);
        k += 1;
        assert(anchors@ =~= old(anchors)@ + cell_anchors(a, k as nat));
    }
}

/// Appends the anchors of one row.
fn push_row(anchors: &mut Vec<Anchor>, level: ScaleLevel, row: u32, input_size: u32)
    requires
        input_size > 0,
    ensures
        final(anchors)@ == old(anchors)@ + row_anchors(
            level,
            row as int,
            level.map_size as nat,
            input_size as int,
        ),
{
    let y_center: Fixed = cell_center(row, level.stride, input_size);
    let mut col: u32 = 0;
    while col < level.map_size
        invariant
            input_size > 0,
            col <= level.map_size,
            y_center@ == center_raw(row as int, level.stride as int, input_size as int),
            anchors@ == old(anchors)@ + row_anchors(
                level,
                row as int,
                col as nat,
                input_size as int,
            ),
        decreases level.map_size - col,
    {
        let a = Anchor {
            x_center: cell_center(col, level.stride, input_size),
            y_center,
            w: Fixed { raw: ONE_RAW },
            h: Fixed { raw: ONE_RAW },
        };
        assert(a == anchor_at(level, row as int, col as int, input_size as int));
        push_cell(anchors, a, level.anchors_per_cell);
        col += 1;
        assert(anchors@ =~= old(anchors)@ + row_anchors(
            level,
            row as int,
            col as nat,
            input_size as int,
        ));
    }
}

/// Appends the anchors of one level.
fn push_level(anchors: &mut Vec<Anchor>, level: ScaleLevel, input_size: u32)
    requires
        input_size > 0,
    ensures
        final(anchors)@ == old(anchors)@ + level_anchors(
            level,
            level.map_size as nat,
            input_size as int,
        ),
{
    let mut row: u32 = 0;
    while row < level.map_size
        invariant
            input_size > 0,
            row <= level.map_size,
            anchors@ == old(anchors)@ + level_anchors(level, row as nat, input_size as int),
        decreases level.map_size - row,
    {
        push_row(anchors, level, row, input_size);
        row += 1;
        assert(anchors@ =~= old(anchors)@ + level_anchors(level, row as nat, input_size as int));
    }
}

/// The anchors of `layout` for a model input of side `input_size`, in grid
/// order.
pub fn generate_anchors(input_size: u32, layout: &Vec<ScaleLevel>) -> (anchors: Vec<Anchor>)
    requires
        input_size > 0,
        layout_count(layout@) <= usize::MAX,
    ensures
        anchors@ == grid_anchors(layout@, input_size as int),
        anchors@.len() == layout_count(layout@),
{
    let mut anchors: Vec<Anchor> = Vec::new();
    let mut i: usize = 0;
    while i < layout.len()
        invariant
            input_size > 0,
            i <= layout.len(),
            anchors@ == grid_anchors(layout@.take(i as int), input_size as int),
        decreases layout.len() - i,
    {
        push_level(&mut anchors, layout[i], input_size);
        proof {
            assert(layout@.take(i + 1).drop_last() =~= layout@.take(i as int));
        }
        i += 1;
    }
    proof {
        assert(layout@.take(layout.len() as int) =~= layout@);
        lemma_anchor_count(layout@, input_size as int);
    }
    anchors
}

} // verus!
