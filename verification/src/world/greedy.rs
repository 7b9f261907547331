//! Greedy merging of a face mask into maximal rectangles.
use vstd::prelude::*;

verus! {

/// A rectangle of equal mask cells: origin (`a`, `b`), extent `width` × `height`.
#[derive(Clone, Copy, Debug, PartialEq, Eq, Structural)]
pub struct MaskRect {
    pub a: i32,
    pub b: i32,
    pub width: i32,
    pub height: i32,
    pub material: u32,
}

/// Row-major position of cell (`a`, `b`) in a grid `a_count` cells wide.
pub open spec fn cell(a_count: int, a: int, b: int) -> int {
    b * a_count + a
}

pub open spec fn in_grid(a_count: int, b_count: int, a: int, b: int) -> bool {
    0 <= a < a_count && 0 <= b < b_count
}

pub open spec fn covers(r: MaskRect, a: int, b: int) -> bool {
    r.a <= a < r.a + r.width && r.b <= b < r.b + r.height
}

/// Some rectangle among the first `k` covers cell (`a`, `b`).
pub open spec fn covered_before(rs: Seq<MaskRect>, k: int, a: int, b: int) -> bool {
    exists|j: int| 0 <= j < k && #[trigger] covers(rs[j], a, b)
}

/// Cell (`a`, `b`) holds `m` and no rectangle before the `k`-th has taken it.
pub open spec fn available(
    mask: Seq<Option<u32>>,
    a_count: int,
    rs: Seq<MaskRect>,
    k: int,
    a: int,
    b: int,
    m: u32,
) -> bool {
    mask[cell(a_count, a, b)] == Some(m) && !covered_before(rs, k, a, b)
}

/// `r` lies inside the grid and every cell it covers holds its material.
pub open spec fn rect_fits(mask: Seq<Option<u32>>, a_count: int, b_count: int, r: MaskRect) -> bool {
    &&& 1 <= r.width
    &&& 1 <= r.height
    &&& 0 <= r.a
    &&& r.a + r.width <= a_count
    &&& 0 <= r.b
    &&& r.b + r.height <= b_count
    &&& forall|a: int, b: int|
        #[trigger] covers(r, a, b) ==> mask[cell(a_count, a, b)] == Some(r.material)
}

/// The origin of `r1` comes before that of `r2` in row-major order.
pub open spec fn origin_before(r1: MaskRect, r2: MaskRect) -> bool {
    r1.b < r2.b || (r1.b == r2.b && r1.a < r2.a)
}

/// The `k`-th rectangle cannot grow one cell wider.
pub open spec fn width_maximal(mask: Seq<Option<u32>>, a_count: int, rs: Seq<MaskRect>, k: int) -> bool {
    let r = rs[k];
    r.a + r.width == a_count || !available(mask, a_count, rs, k, r.a + r.width, r.b as int, r.material)
}

/// The `k`-th rectangle cannot grow one row taller.
pub open spec fn height_maximal(
    mask: Seq<Option<u32>>,
    a_count: int,
    b_count: int,
    rs: Seq<MaskRect>,
    k: int,
) -> bool {
    let r = rs[k];
    r.b + r.height == b_count || exists|da: int|
        0 <= da < r.width && !#[trigger] available(
            mask,
            a_count,
            rs,
            k,
            r.a + da,
            r.b + r.height,
            r.material,
        )
}

/// The rectangles are what greedy merging emits, in order, for the cells they cover.
pub open spec fn greedy_prefix(mask: Seq<Option<u32>>, a_count: int, b_count: int, rs: Seq<MaskRect>) -> bool {
    &&& forall|k: int| 0 <= k < rs.len() ==> #[trigger] rect_fits(mask, a_count, b_count, rs[k])
    &&& forall|k: int| 0 <= k < rs.len() ==> #[trigger] width_maximal(mask, a_count, rs, k)
    &&& forall|k: int| 0 <= k < rs.len() ==> #[trigger] height_maximal(mask, a_count, b_count, rs, k)
    &&& forall|j: int, k: int|
        0 <= j < k < rs.len() ==> #[trigger] origin_before(rs[j], rs[k])
    &&& forall|j: int, k: int, a: int, b: int|
        0 <= j < k < rs.len() ==> !(#[trigger] covers(rs[j], a, b) && #[trigger] covers(rs[k], a, b))
}

/// Greedy merging of `mask`: rectangles in row-major order of their origins, pairwise disjoint,
/// each of one material, each as wide and then as tall as the cells not yet taken allow, and
/// together covering exactly the cells that hold a material.
pub open spec fn greedy_tiling(mask: Seq<Option<u32>>, a_count: int, b_count: int, rs: Seq<MaskRect>) -> bool {
    &&& greedy_prefix(mask, a_count, b_count, rs)
    &&& forall|a: int, b: int|
        in_grid(a_count, b_count, a, b) && (#[trigger] mask[cell(a_count, a, b)]) is Some
            ==> covered_before(rs, rs.len() as int, a, b)
}

proof fn lemma_cell_bounds(a_count: int, b_count: int, a: int, b: int)
    requires
        in_grid(a_count, b_count, a, b),
    ensures
        0 <= cell(a_count, a, b) < a_count * b_count,
{
    assert(0 <= b * a_count) by (nonlinear_arith)
        requires
            0 <= b,
            0 <= a_count,
    ;
    assert(b * a_count + a < a_count * b_count) by (nonlinear_arith)
        requires
            0 <= a < a_count,
            0 <= b < b_count,
    ;
}

proof fn lemma_cell_injective(a_count: int, a1: int, b1: int, a2: int, b2: int)
    requires
        0 <= a1 < a_count,
        0 <= a2 < a_count,
        cell(a_count, a1, b1) == cell(a_count, a2, b2),
    ensures
        a1 == a2,
        b1 == b2,
{
    assert(b1 == b2) by (nonlinear_arith)
        requires
            0 <= a1 < a_count,
            0 <= a2 < a_count,
            b1 * a_count + a1 == b2 * a_count + a2,
    ;
}


/// Grid dimensions that fit `len` mask cells and the `i32` arithmetic of cell positions.
pub open spec fn grid_ok(a_count: int, b_count: int, len: int) -> bool {
    0 < a_count && 0 < b_count && a_count * b_count <= len && len <= i32::MAX
}

proof fn lemma_index_fits(a_count: int, b_count: int, len: int, a: int, b: int)
    requires
        grid_ok(a_count, b_count, len),
        in_grid(a_count, b_count, a, b),
    ensures
        0 <= cell(a_count, a, b) < a_count * b_count,
        cell(a_count, a, b) < len,
        b * a_count + a <= i32::MAX,
{
    lemma_cell_bounds(a_count, b_count, a, b);
}

/// Length of the run of `m` that starts at (`a`, `b`) and goes along the row.
fn run_width(mask: &Vec<Option<u32>>, a_count: i32, b_count: i32, a: i32, b: i32, m: u32) -> (w: i32)
    requires
        grid_ok(a_count as int, b_count as int, mask.len() as int),
        in_grid(a_count as int, b_count as int, a as int, b as int),
        mask@[cell(a_count as int, a as int, b as int)] == Some(m),
    ensures
        1 <= w,
        a + w <= a_count,
        forall|x: int| a <= x < a + w ==> mask@[cell(a_count as int, x, b as int)] == Some(m),
        a + w == a_count || mask@[cell(a_count as int, a + w, b as int)] != Some(m),
{
    let mut w: i32 = 1;
    while a + w < a_count
        invariant
            grid_ok(a_count as int, b_count as int, mask.len() as int),
            in_grid(a_count as int, b_count as int, a as int, b as int),
            1 <= w,
            a + w <= a_count,
            forall|x: int| a <= x < a + w ==> mask@[cell(a_count as int, x, b as int)] == Some(m),
        decreases a_count - a - w,
    {
        proof {
            lemma_index_fits(a_count as int, b_count as int, mask.len() as int, (a + w) as int, b as int);
        }
        let idx = mask_index(a_count, a + w, b);
        match mask[idx] {
            Some(v) => {
                if v != m {
                    return w;
                }
            },
            None => {
                return w;
            },
        }
        w = w + 1;
    }
    w
}

/// Whether the `w` cells of row `row` starting at column `a` all hold `m`.
fn row_matches(mask: &Vec<Option<u32>>, a_count: i32, b_count: i32, a: i32, w: i32, row: i32, m: u32) -> (ok: bool)
    requires
        grid_ok(a_count as int, b_count as int, mask.len() as int),
        0 <= a,
        1 <= w,
        a + w <= a_count,
        0 <= row < b_count,
    ensures
        ok == forall|x: int| a <= x < a + w ==> mask@[cell(a_count as int, x, row as int)] == Some(m),
{
    let mut da: i32 = 0;
    while da < w
        invariant
            grid_ok(a_count as int, b_count as int, mask.len() as int),
            0 <= a,
            1 <= w,
            a + w <= a_count,
            0 <= row < b_count,
            0 <= da <= w,
            forall|x: int| a <= x < a + da ==> mask@[cell(a_count as int, x, row as int)] == Some(m),
        decreases w - da,
    {
        proof {
            lemma_index_fits(a_count as int, b_count as int, mask.len() as int, (a + da) as int, row as int);
        }
        let idx = mask_index(a_count, a + da, row);
        match mask[idx] {
            Some(v) => {
                if v != m {
                    return false;
                }
            },
            None => {
                return false;
            },
        }
        da = da + 1;
    }
    true
}

/// Number of rows, starting at row `b`, whose cells `a .. a + w` all hold `m`.
fn run_height(mask: &Vec<Option<u32>>, a_count: i32, b_count: i32, a: i32, b: i32, w: i32, m: u32) -> (h: i32)
    requires
        grid_ok(a_count as int, b_count as int, mask.len() as int),
        0 <= a,
        1 <= w,
        a + w <= a_count,
        0 <= b < b_count,
        forall|x: int| a <= x < a + w ==> mask@[cell(a_count as int, x, b as int)] == Some(m),
    ensures
        1 <= h,
        b + h <= b_count,
        forall|x: int, y: int|
            a <= x < a + w && b <= y < b + h ==> mask@[cell(a_count as int, x, y)] == Some(m),
        b + h == b_count || exists|x: int|
            a <= x < a + w && #[trigger] mask@[cell(a_count as int, x, b + h)] != Some(m),
{
    let mut h: i32 = 1;
    while b + h < b_count
        invariant
            grid_ok(a_count as int, b_count as int, mask.len() as int),
            0 <= a,
            1 <= w,
            a + w <= a_count,
            0 <= b < b_count,
            1 <= h,
            b + h <= b_count,
            forall|x: int, y: int|
                a <= x < a + w && b <= y < b + h ==> mask@[cell(a_count as int, x, y)] == Some(m),
        decreases b_count - b - h,
    {
        if !row_matches(mask, a_count, b_count, a, w, b + h, m) {
            return h;
        }
        h = h + 1;
    }
    h
}


/// Clears every cell that `r` covers.
fn clear_rect(mask: &mut Vec<Option<u32>>, a_count: i32, b_count: i32, r: MaskRect)
    requires
        grid_ok(a_count as int, b_count as int, old(mask).len() as int),
        0 <= r.a,
        1 <= r.width,
        r.a + r.width <= a_count,
        0 <= r.b,
        1 <= r.height,
        r.b + r.height <= b_count,
    ensures
        final(mask).len() == old(mask).len(),
        forall|x: int, y: int|
            in_grid(a_count as int, b_count as int, x, y) ==> #[trigger] final(mask)@[cell(a_count as int, x, y)]
                == if covers(r, x, y) {
                None
            } else {
                old(mask)@[cell(a_count as int, x, y)]
            },
        forall|i: int| a_count * b_count <= i < old(mask).len() ==> final(mask)@[i] == old(mask)@[i],
{
    let ghost before = mask@;
    let mut db: i32 = 0;
    while db < r.height
        invariant
            grid_ok(a_count as int, b_count as int, mask.len() as int),
            mask.len() == before.len(),
            0 <= r.a,
            1 <= r.width,
            r.a + r.width <= a_count,
            0 <= r.b,
            1 <= r.height,
            r.b + r.height <= b_count,
            0 <= db <= r.height,
            forall|x: int, y: int|
                in_grid(a_count as int, b_count as int, x, y) ==> #[trigger] mask@[cell(a_count as int, x, y)]
                    == if covers(r, x, y) && y < r.b + db {
                    None
                } else {
                    before[cell(a_count as int, x, y)]
                },
            forall|i: int| a_count * b_count <= i < before.len() ==> mask@[i] == before[i],
        decreases r.height - db,
    {
        let mut da: i32 = 0;
        while da < r.width
            invariant
                grid_ok(a_count as int, b_count as int, mask.len() as int),
                mask.len() == before.len(),
                0 <= r.a,
                1 <= r.width,
                r.a + r.width <= a_count,
                0 <= r.b,
                1 <= r.height,
                r.b + r.height <= b_count,
                0 <= db < r.height,
                0 <= da <= r.width,
                forall|x: int, y: int|
                    in_grid(a_count as int, b_count as int, x, y) ==> #[trigger] mask@[cell(a_count as int, x, y)]
                        == if covers(r, x, y) && (y < r.b + db || (y == r.b + db && x < r.a + da)) {
                        None
                    } else {
                        before[cell(a_count as int, x, y)]
                    },
                forall|i: int| a_count * b_count <= i < before.len() ==> mask@[i] == before[i],
            decreases r.width - da,
        {
            let x0 = r.a + da;
            let y0 = r.b + db;
            proof {
                lemma_index_fits(a_count as int, b_count as int, mask.len() as int, x0 as int, y0 as int);
            }
            let idx = mask_index(a_count, x0, y0);
            let ghost prev = mask@;
            mask.set(idx, None);
            proof {
                assert forall|x: int, y: int| in_grid(a_count as int, b_count as int, x, y) implies
                    #[trigger] mask@[cell(a_count as int, x, y)]
                        == if covers(r, x, y) && (y < r.b + db || (y == r.b + db && x < r.a + da + 1)) {
                        None
                    } else {
                        before[cell(a_count as int, x, y)]
                    } by {
                    lemma_index_fits(a_count as int, b_count as int, mask.len() as int, x, y);
                    if cell(a_count as int, x, y) == cell(a_count as int, x0 as int, y0 as int) {
                        lemma_cell_injective(a_count as int, x, y, x0 as int, y0 as int);
                    } else {
                        assert(mask@[cell(a_count as int, x, y)] == prev[cell(a_count as int, x, y)]);
                    }
                }
                assert forall|i: int| a_count * b_count <= i < before.len() implies mask@[i] == before[i] by {
                    assert(i != idx);
                }
            }
            da = da + 1;
        }
        db = db + 1;
    }
}


/// The state of greedy merging when the scan stands at cell (`a`, `b`): `orig` is the mask it
/// started from, `mask` the current one, `rs` the rectangles emitted so far.
pub open spec fn merge_state(
    orig: Seq<Option<u32>>,
    mask: Seq<Option<u32>>,
    a_count: int,
    b_count: int,
    rs: Seq<MaskRect>,
    a: int,
    b: int,
) -> bool {
    &&& mask.len() == orig.len()
    &&& grid_ok(a_count, b_count, orig.len() as int)
    &&& forall|x: int, y: int|
        in_grid(a_count, b_count, x, y) && (#[trigger] mask[cell(a_count, x, y)]) is Some
            ==> mask[cell(a_count, x, y)] == orig[cell(a_count, x, y)]
    &&& forall|x: int, y: int|
        in_grid(a_count, b_count, x, y) ==> (covered_before(rs, rs.len() as int, x, y) <==> (
        orig[cell(a_count, x, y)] is Some && (#[trigger] mask[cell(a_count, x, y)]) is None))
    &&& forall|x: int, y: int|
        in_grid(a_count, b_count, x, y) && (y < b || (y == b && x < a))
            ==> (#[trigger] mask[cell(a_count, x, y)]) is None
    &&& forall|k: int| 0 <= k < rs.len() ==> (#[trigger] rs[k]).b < b || (rs[k].b == b && rs[k].a < a)
    &&& forall|i: int| a_count * b_count <= i < orig.len() ==> mask[i] == orig[i]
    &&& greedy_prefix(orig, a_count, b_count, rs)
}

proof fn lemma_available_now(
    orig: Seq<Option<u32>>,
    mask: Seq<Option<u32>>,
    a_count: int,
    b_count: int,
    rs: Seq<MaskRect>,
    a: int,
    b: int,
    x: int,
    y: int,
    m: u32,
)
    requires
        merge_state(orig, mask, a_count, b_count, rs, a, b),
        in_grid(a_count, b_count, x, y),
    ensures
        available(orig, a_count, rs, rs.len() as int, x, y, m) <==> mask[cell(a_count, x, y)] == Some(m),
{
    let _ = mask[cell(a_count, x, y)];
}

proof fn lemma_prefix_push(orig: Seq<Option<u32>>, a_count: int, rs: Seq<MaskRect>, r: MaskRect, k: int, x: int, y: int)
    requires
        0 <= k <= rs.len(),
    ensures
        covered_before(rs.push(r), k, x, y) == covered_before(rs, k, x, y),
{
    if covered_before(rs, k, x, y) {
        let j = choose|j: int| 0 <= j < k && #[trigger] covers(rs[j], x, y);
        assert(rs.push(r)[j] == rs[j]);
    }
    if covered_before(rs.push(r), k, x, y) {
        let j = choose|j: int| 0 <= j < k && #[trigger] covers(rs.push(r)[j], x, y);
        assert(rs.push(r)[j] == rs[j]);
    }
}

proof fn lemma_emit(
    orig: Seq<Option<u32>>,
    before: Seq<Option<u32>>,
    after: Seq<Option<u32>>,
    a_count: int,
    b_count: int,
    rs: Seq<MaskRect>,
    r: MaskRect,
)
    requires
        merge_state(orig, before, a_count, b_count, rs, r.a as int, r.b as int),
        in_grid(a_count, b_count, r.a as int, r.b as int),
        1 <= r.width,
        r.a + r.width <= a_count,
        1 <= r.height,
        r.b + r.height <= b_count,
        forall|x: int, y: int|
            r.a <= x < r.a + r.width && r.b <= y < r.b + r.height ==> before[cell(a_count, x, y)] == Some(r.material),
        r.a + r.width == a_count || before[cell(a_count, r.a + r.width, r.b as int)] != Some(r.material),
        r.b + r.height == b_count || exists|x: int|
            r.a <= x < r.a + r.width && #[trigger] before[cell(a_count, x, r.b + r.height)] != Some(r.material),
        after.len() == before.len(),
        forall|x: int, y: int|
            in_grid(a_count, b_count, x, y) ==> #[trigger] after[cell(a_count, x, y)] == if covers(r, x, y) {
                None
            } else {
                before[cell(a_count, x, y)]
            },
        forall|i: int| a_count * b_count <= i < before.len() ==> after[i] == before[i],
    ensures
        merge_state(orig, after, a_count, b_count, rs.push(r), r.a + r.width, r.b as int),
{
    let k = rs.len() as int;
    let rs2 = rs.push(r);
    let m = r.material;
    assert(rs2[k] == r);
    // The new rectangle fits the original mask.
    assert forall|x: int, y: int| #[trigger] covers(r, x, y) implies orig[cell(a_count, x, y)] == Some(m) by {
        let _ = before[cell(a_count, x, y)];
    }
    assert(rect_fits(orig, a_count, b_count, r));
    // Width and height cannot grow.
    if r.a + r.width < a_count {
        lemma_available_now(orig, before, a_count, b_count, rs, r.a as int, r.b as int, r.a + r.width, r.b as int, m);
        lemma_prefix_push(orig, a_count, rs, r, k, r.a + r.width, r.b as int);
    }
    assert(width_maximal(orig, a_count, rs2, k));
    if r.b + r.height < b_count {
        let x = choose|x: int|
            r.a <= x < r.a + r.width && #[trigger] before[cell(a_count, x, r.b + r.height)] != Some(m);
        lemma_available_now(orig, before, a_count, b_count, rs, r.a as int, r.b as int, x, r.b + r.height, m);
        lemma_prefix_push(orig, a_count, rs, r, k, x, r.b + r.height);
        assert(!available(orig, a_count, rs2, k, r.a + (x - r.a), r.b + r.height, m));
    }
    assert(height_maximal(orig, a_count, b_count, rs2, k));
    // Earlier rectangles keep their properties.
    assert forall|j: int| 0 <= j < rs2.len() implies #[trigger] width_maximal(orig, a_count, rs2, j) by {
        if j < k {
            assert(rs2[j] == rs[j]);
            assert(width_maximal(orig, a_count, rs, j));
            lemma_prefix_push(orig, a_count, rs, r, j, rs[j].a + rs[j].width, rs[j].b as int);
        }
    }
    assert forall|j: int| 0 <= j < rs2.len() implies #[trigger] height_maximal(orig, a_count, b_count, rs2, j) by {
        if j < k {
            assert(rs2[j] == rs[j]);
            assert(height_maximal(orig, a_count, b_count, rs, j));
            if rs[j].b + rs[j].height != b_count {
                let da = choose|da: int|
                    0 <= da < rs[j].width && !#[trigger] available(
                        orig,
                        a_count,
                        rs,
                        j,
                        rs[j].a + da,
                        rs[j].b + rs[j].height,
                        rs[j].material,
                    );
                lemma_prefix_push(orig, a_count, rs, r, j, rs[j].a + da, rs[j].b + rs[j].height);
                assert(!available(orig, a_count, rs2, j, rs2[j].a + da, rs2[j].b + rs2[j].height, rs2[j].material));
            }
        }
    }
    assert forall|j: int| 0 <= j < rs2.len() implies #[trigger] rect_fits(orig, a_count, b_count, rs2[j]) by {
        if j < k {
            assert(rs2[j] == rs[j]);
        }
    }
    assert forall|j: int, l: int| 0 <= j < l < rs2.len() implies #[trigger] origin_before(rs2[j], rs2[l]) by {
        assert(rs2[j] == rs[j]);
        if l < k {
            assert(rs2[l] == rs[l]);
        }
    }
    assert forall|j: int, l: int, x: int, y: int|
        0 <= j < l < rs2.len() implies !(#[trigger] covers(rs2[j], x, y) && #[trigger] covers(rs2[l], x, y)) by {
        assert(rs2[j] == rs[j]);
        if l < k {
            assert(rs2[l] == rs[l]);
        } else if covers(rs2[j], x, y) && covers(rs2[l], x, y) {
            assert(covered_before(rs, k, x, y));
            let _ = before[cell(a_count, x, y)];
        }
    }
    assert(greedy_prefix(orig, a_count, b_count, rs2));
    // Coverage bookkeeping.
    assert forall|x: int, y: int| in_grid(a_count, b_count, x, y) implies (covered_before(rs2, rs2.len() as int, x, y)
        <==> (orig[cell(a_count, x, y)] is Some && (#[trigger] after[cell(a_count, x, y)]) is None)) by {
        lemma_prefix_push(orig, a_count, rs, r, k, x, y);
        let _ = before[cell(a_count, x, y)];
        if covers(r, x, y) {
            assert(covers(rs2[k], x, y));
        } else if covered_before(rs2, rs2.len() as int, x, y) {
            let j = choose|j: int| 0 <= j < rs2.len() && #[trigger] covers(rs2[j], x, y);
            assert(j < k);
            assert(rs2[j] == rs[j]);
            assert(covered_before(rs, k, x, y));
        }
    }
    assert forall|x: int, y: int|
        in_grid(a_count, b_count, x, y) && (#[trigger] after[cell(a_count, x, y)]) is Some implies after[cell(
            a_count,
            x,
            y,
        )] == orig[cell(a_count, x, y)] by {
        let _ = before[cell(a_count, x, y)];
    }
    assert forall|x: int, y: int|
        in_grid(a_count, b_count, x, y) && (y < r.b || (y == r.b && x < r.a + r.width)) implies (
        #[trigger] after[cell(a_count, x, y)]) is None by {
        let _ = before[cell(a_count, x, y)];
    }
    assert forall|j: int| 0 <= j < rs2.len() implies (#[trigger] rs2[j]).b < r.b || (rs2[j].b == r.b && rs2[j].a
        < r.a + r.width) by {
        if j < k {
            assert(rs2[j] == rs[j]);
        }
    }
}

/// Merges the cells of `mask` (`a_count` × `b_count`, row-major) into rectangles, greedily:
/// scanning in row-major order, each cell that still holds a material starts a rectangle that
/// is first made as wide, then as tall, as the cells of that material allow; its cells are then
/// cleared. Returns the rectangles in the order they were found and leaves the grid cleared.
pub fn greedy_merge_mask(mask: &mut Vec<Option<u32>>, a_count: i32, b_count: i32) -> (rects: Vec<MaskRect>)
    requires
        a_count <= 0 || b_count <= 0 || a_count * b_count <= old(mask).len(),
        old(mask).len() <= i32::MAX,
    ensures
        greedy_tiling(old(mask)@, a_count as int, b_count as int, rects@),
        final(mask).len() == old(mask).len(),
        forall|x: int, y: int|
            in_grid(a_count as int, b_count as int, x, y) ==> (#[trigger] final(mask)@[cell(a_count as int, x, y)]) is None,
        a_count <= 0 || b_count <= 0 ==> final(mask)@ == old(mask)@,
        forall|i: int|
            0 < a_count && 0 < b_count && a_count * b_count <= i < old(mask).len() ==> final(mask)@[i] == old(mask)@[i],
        0 < a_count && 0 < b_count ==> rects@.len() <= a_count * b_count,
{
    let mut rects: Vec<MaskRect> = Vec::new();
    if a_count <= 0 || b_count <= 0 {
        return rects;
    }
    let ghost orig = mask@;
    let mut b: i32 = 0;
    while b < b_count
        invariant
            0 <= b <= b_count,
            merge_state(orig, mask@, a_count as int, b_count as int, rects@, 0, b as int),
            rects@.len() <= b * a_count,
        decreases b_count - b,
    {
        let mut a: i32 = 0;
        while a < a_count
            invariant
                0 <= b < b_count,
                0 <= a <= a_count,
                merge_state(orig, mask@, a_count as int, b_count as int, rects@, a as int, b as int),
                rects@.len() <= b * a_count + a,
            decreases a_count - a,
        {
            proof {
                lemma_index_fits(a_count as int, b_count as int, mask.len() as int, a as int, b as int);
            }
            let idx = mask_index(a_count, a, b);
            match mask[idx] {
                None => {
                    a = a + 1;
                },
                Some(m) => {
                    let width = run_width(mask, a_count, b_count, a, b, m);
                    let height = run_height(mask, a_count, b_count, a, b, width, m);
                    let r = MaskRect { a, b, width, height, material: m };
                    let ghost before = mask@;
                    clear_rect(mask, a_count, b_count, r);
                    proof {
                        lemma_emit(orig, before, mask@, a_count as int, b_count as int, rects@, r);
                    }
                    rects.push(r);
                    a = a + width;
                },
            }
        }
        assert((b + 1) * a_count == b * a_count + a_count) by (nonlinear_arith);
        b = b + 1;
    }
    assert(b_count * a_count == a_count * b_count) by (nonlinear_arith);
    proof {
        assert forall|x: int, y: int|
            in_grid(a_count as int, b_count as int, x, y) && (#[trigger] orig[cell(a_count as int, x, y)]) is Some implies
            covered_before(rects@, rects@.len() as int, x, y) by {
            let _ = mask@[cell(a_count as int, x, y)];
        }
    }
    rects
}

/// Position of cell (`a`, `b`) in the mask.
pub fn mask_index(a_count: i32, a: i32, b: i32) -> (i: usize)
    requires
        0 <= a < a_count,
        0 <= b,
        b * a_count + a <= i32::MAX,
    ensures
        i == cell(a_count as int, a as int, b as int),
{
    assert(0 <= b * a_count) by (nonlinear_arith)
        requires
            0 <= b,
            0 <= a_count,
    ;
    (b * a_count + a) as usize
}

} // verus!
