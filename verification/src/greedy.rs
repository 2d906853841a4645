//! Greedy decomposition of a 2D mask of color ids into maximal same-id rectangles.
use vstd::prelude::*;

verus! {

/// A rectangle of cells `[u0, u1) x [v0, v1)` of a mask, all holding color `id`.
#[derive(Copy, Clone, PartialEq, Eq, Structural, Debug)]
pub struct MaskRect {
    pub u0: usize,
    pub v0: usize,
    pub u1: usize,
    pub v1: usize,
    pub id: u8,
}

/// The cell at column `u`, row `v` of a row-major mask with `du` columns.
pub open spec fn mask_at(m: Seq<Option<u8>>, du: int, u: int, v: int) -> Option<u8> {
    m[v * du + u]
}

/// Whether cell `(u, v)` lies inside `r`.
pub open spec fn in_rect(r: MaskRect, u: int, v: int) -> bool {
    r.u0 <= u < r.u1 && r.v0 <= v < r.v1
}

/// Whether one of `rects` covers cell `(u, v)`.
pub open spec fn covered(rects: Seq<MaskRect>, u: int, v: int) -> bool {
    exists|k: int| 0 <= k < rects.len() && #[trigger] in_rect(rects[k], u, v)
}

/// What is left of cell `(u, v)` of `orig` once `rects` have been taken out.
pub open spec fn left_after(orig: Seq<Option<u8>>, du: int, rects: Seq<MaskRect>, u: int, v: int) -> Option<u8> {
    if covered(rects, u, v) {
        None
    } else {
        mask_at(orig, du, u, v)
    }
}

/// Cell `(u2, v2)` comes before cell `(u, v)` in row-major order.
pub open spec fn before(u2: int, v2: int, u: int, v: int) -> bool {
    v2 < v || (v2 == v && u2 < u)
}

/// `r` is the rectangle that the greedy sweep takes next out of `orig`, after `prev`: its corner
/// is the first cell (in row-major order) still holding an id, it grows right as long as cells
/// hold the same id, then down as long as whole rows of its width do.
pub open spec fn greedy_next(orig: Seq<Option<u8>>, du: int, dv: int, prev: Seq<MaskRect>, r: MaskRect) -> bool {
    &&& r.u0 < r.u1 <= du
    &&& r.v0 < r.v1 <= dv
    &&& forall|u: int, v: int|
        0 <= u < du && 0 <= v < dv && before(u, v, r.u0 as int, r.v0 as int) ==> (#[trigger] left_after(
            orig,
            du,
            prev,
            u,
            v,
        )) is None
    &&& forall|u: int, v: int| #[trigger]
        in_rect(r, u, v) ==> left_after(orig, du, prev, u, v) == Some(r.id)
    &&& r.u1 == du || left_after(orig, du, prev, r.u1 as int, r.v0 as int) != Some(r.id)
    &&& r.v1 == dv || exists|u: int|
        r.u0 <= u < r.u1 && #[trigger] left_after(orig, du, prev, u, r.v1 as int) != Some(r.id)
}

/// `rects` is what the greedy sweep takes out of `orig`, in order, until no cell holds an id.
pub open spec fn greedy_decomposition(orig: Seq<Option<u8>>, du: int, dv: int, rects: Seq<MaskRect>) -> bool {
    &&& forall|k: int| 0 <= k < rects.len() ==> greedy_next(orig, du, dv, rects.take(k), #[trigger] rects[k])
    &&& forall|u: int, v: int| 0 <= u < du && 0 <= v < dv ==> (#[trigger] left_after(orig, du, rects, u, v)) is None
}

proof fn lemma_index_bounds(du: int, dv: int, u: int, v: int)
    requires
        0 <= u < du,
        0 <= v < dv,
    ensures
        0 <= v * du + u < du * dv,
        v * du + u + (du - u) <= du * dv,
{
    assert(0 <= v * du) by (nonlinear_arith)
        requires
            0 <= v,
            0 <= du,
    ;
    assert(v * du + du <= du * dv) by (nonlinear_arith)
        requires
            v + 1 <= dv,
            0 <= du,
    ;
}

proof fn lemma_index_injective(du: int, u: int, v: int, u2: int, v2: int)
    requires
        0 <= u < du,
        0 <= u2 < du,
        0 <= v,
        0 <= v2,
        v * du + u == v2 * du + u2,
    ensures
        u == u2,
        v == v2,
{
    if v < v2 {
        assert(v * du + du <= v2 * du) by (nonlinear_arith)
            requires
                v + 1 <= v2,
                0 <= du,
        ;
    } else if v2 < v {
        assert(v2 * du + du <= v * du) by (nonlinear_arith)
            requires
                v2 + 1 <= v,
                0 <= du,
        ;
    }
}

/// Sets every cell of `r` to `None`, leaving the others as they were.
fn clear_rect(mask: &mut Vec<Option<u8>>, du: usize, dv: usize, r: MaskRect)
    requires
        old(mask)@.len() == du * dv,
        r.u0 < r.u1 <= du,
        r.v0 < r.v1 <= dv,
    ensures
        final(mask)@.len() == du * dv,
        forall|u: int, v: int|
            0 <= u < du && 0 <= v < dv ==> #[trigger] mask_at(final(mask)@, du as int, u, v) == if in_rect(
                r,
                u,
                v,
            ) {
                None
            } else {
                mask_at(old(mask)@, du as int, u, v)
            },
{
    let ghost orig = mask@;
    let total = mask.len();
    let mut v = r.v0;
    while v < r.v1
        invariant
            r.v0 <= v <= r.v1,
            r.u0 < r.u1 <= du,
            r.v1 <= dv,
            mask@.len() == du * dv,
            total == mask@.len(),
            forall|u2: int, v2: int|
                0 <= u2 < du && 0 <= v2 < dv ==> #[trigger] mask_at(mask@, du as int, u2, v2) == if in_rect(
                    r,
                    u2,
                    v2,
                ) && v2 < v {
                    None
                } else {
                    mask_at(orig, du as int, u2, v2)
                },
        decreases r.v1 - v,
    {
        let mut u = r.u0;
        while u < r.u1
            invariant
                r.v0 <= v < r.v1,
                r.u0 <= u <= r.u1,
                r.u1 <= du,
                r.v1 <= dv,
                mask@.len() == du * dv,
                total == mask@.len(),
                forall|u2: int, v2: int|
                    0 <= u2 < du && 0 <= v2 < dv ==> #[trigger] mask_at(mask@, du as int, u2, v2) == if in_rect(
                        r,
                        u2,
                        v2,
                    ) && (v2 < v || (v2 == v && u2 < u)) {
                        None
                    } else {
                        mask_at(orig, du as int, u2, v2)
                    },
            decreases r.u1 - u,
        {
            proof {
                lemma_index_bounds(du as int, dv as int, u as int, v as int);
            }
            let ghost before_set = mask@;
            mask.set(v * du + u, None);
            proof {
                assert forall|u2: int, v2: int| 0 <= u2 < du && 0 <= v2 < dv implies #[trigger] mask_at(
                    mask@,
                    du as int,
                    u2,
                    v2,
                ) == if in_rect(r, u2, v2) && (v2 < v || (v2 == v && u2 < u + 1)) {
                    None
                } else {
                    mask_at(orig, du as int, u2, v2)
                } by {
                    lemma_index_bounds(du as int, dv as int, u2, v2);
                    if v2 * du + u2 == v * du + u {
                        lemma_index_injective(du as int, u2, v2, u as int, v as int);
                    } else {
                        assert(mask_at(mask@, du as int, u2, v2) == mask_at(before_set, du as int, u2, v2));
                    }
                }
            }
            u = u + 1;
        }
        v = v + 1;
    }
}

/// Whether row `v` holds `id` in every column of `[u0, u0 + w)`.
fn row_holds(mask: &Vec<Option<u8>>, du: usize, dv: usize, v: usize, u0: usize, w: usize, id: u8) -> (res: bool)
    requires
        mask@.len() == du * dv,
        v < dv,
        u0 + w <= du,
    ensures
        res == forall|u: int| u0 <= u < u0 + w ==> #[trigger] mask_at(mask@, du as int, u, v as int) == Some(id),
{
    let total = mask.len();
    let mut k: usize = 0;
    while k < w
        invariant
            k <= w,
            mask@.len() == du * dv,
            total == mask@.len(),
            v < dv,
            u0 + w <= du,
            forall|u: int| u0 <= u < u0 + k ==> #[trigger] mask_at(mask@, du as int, u, v as int) == Some(id),
        decreases w - k,
    {
        proof {
            lemma_index_bounds(du as int, dv as int, (u0 + k) as int, v as int);
        }
        if mask[v * du + u0 + k] != Some(id) {
            assert(mask_at(mask@, du as int, (u0 + k) as int, v as int) != Some(id));
            return false;
        }
        k = k + 1;
    }
    true
}

proof fn lemma_covered_push(rects: Seq<MaskRect>, r: MaskRect, u: int, v: int)
    ensures
        covered(rects.push(r), u, v) == (covered(rects, u, v) || in_rect(r, u, v)),
{
    let pushed = rects.push(r);
    if covered(rects, u, v) {
        let k = choose|k: int| 0 <= k < rects.len() && #[trigger] in_rect(rects[k], u, v);
        assert(pushed[k] == rects[k]);
        assert(in_rect(pushed[k], u, v));
    }
    if in_rect(r, u, v) {
        assert(pushed[rects.len() as int] == r);
        assert(in_rect(pushed[rects.len() as int], u, v));
    }
    if covered(pushed, u, v) {
        let k = choose|k: int| 0 <= k < pushed.len() && #[trigger] in_rect(pushed[k], u, v);
        if k < rects.len() {
            assert(pushed[k] == rects[k]);
            assert(in_rect(rects[k], u, v));
        }
    }
}

/// Takes `mask` apart into rectangles of equal ids by the greedy sweep: scanning rows top to
/// bottom and each row left to right, every cell still holding an id starts a rectangle that
/// grows right as far as the same id continues, then down as far as whole rows of that width do;
/// its cells are then cleared. Returns the rectangles in the order they were found and leaves
/// every cell of `mask` empty.
pub fn greedy_rects(mask: &mut Vec<Option<u8>>, dim_u: usize, dim_v: usize) -> (rects: Vec<MaskRect>)
    requires
        old(mask)@.len() == dim_u * dim_v,
    ensures
        final(mask)@.len() == dim_u * dim_v,
        forall|i: int| 0 <= i < final(mask)@.len() ==> (#[trigger] final(mask)@[i]) is None,
        greedy_decomposition(old(mask)@, dim_u as int, dim_v as int, rects@),
        rects@.len() <= dim_u * dim_v,
{
    let ghost orig = mask@;
    let ghost du = dim_u as int;
    let ghost dv = dim_v as int;
    let total = mask.len();
    let mut rects: Vec<MaskRect> = Vec::new();
    let mut v: usize = 0;
    while v < dim_v
        invariant
            v <= dim_v,
            du == dim_u,
            dv == dim_v,
            orig == old(mask)@,
            mask@.len() == dim_u * dim_v,
            total == mask@.len(),
            forall|u2: int, v2: int|
                0 <= u2 < du && 0 <= v2 < dv ==> #[trigger] mask_at(mask@, du, u2, v2) == left_after(
                    orig,
                    du,
                    rects@,
                    u2,
                    v2,
                ),
            forall|k: int| 0 <= k < rects@.len() ==> greedy_next(orig, du, dv, rects@.take(k), #[trigger] rects@[k]),
            forall|u2: int, v2: int|
                0 <= u2 < du && 0 <= v2 < dv && v2 < v ==> (#[trigger] mask_at(mask@, du, u2, v2)) is None,
            rects@.len() <= v * dim_u,
        decreases dim_v - v,
    {
        let mut u: usize = 0;
        while u < dim_u
            invariant
                v < dim_v,
                u <= dim_u,
                du == dim_u,
                dv == dim_v,
                orig == old(mask)@,
                mask@.len() == dim_u * dim_v,
                total == mask@.len(),
                forall|u2: int, v2: int|
                    0 <= u2 < du && 0 <= v2 < dv ==> #[trigger] mask_at(mask@, du, u2, v2) == left_after(
                        orig,
                        du,
                        rects@,
                        u2,
                        v2,
                    ),
                forall|k: int|
                    0 <= k < rects@.len() ==> greedy_next(orig, du, dv, rects@.take(k), #[trigger] rects@[k]),
                forall|u2: int, v2: int|
                    0 <= u2 < du && 0 <= v2 < dv && before(u2, v2, u as int, v as int) ==> (#[trigger] mask_at(
                        mask@,
                        du,
                        u2,
                        v2,
                    )) is None,
                rects@.len() <= v * dim_u + u,
            decreases dim_u - u,
        {
            proof {
                lemma_index_bounds(du, dv, u as int, v as int);
            }
            let row_start = v * dim_u;
            match mask[row_start + u] {
                None => {
                    assert(mask_at(mask@, du, u as int, v as int) is None);
                    u = u + 1;
                },
                Some(id) => {
                    assert(mask_at(mask@, du, u as int, v as int) == Some(id));
                    let mut w: usize = 1;
                    while u + w < dim_u && mask[row_start + u + w] == Some(id)
                        invariant
                            v < dim_v,
                            u < dim_u,
                            du == dim_u,
                            dv == dim_v,
                            1 <= w <= dim_u - u,
                            row_start == v * dim_u,
                            row_start + dim_u <= total,
                            mask@.len() == dim_u * dim_v,
                            total == mask@.len(),
                            forall|k: int|
                                u <= k < u + w ==> #[trigger] mask_at(mask@, du, k, v as int) == Some(id),
                        decreases dim_u - u - w,
                    {
                        assert(mask_at(mask@, du, (u + w) as int, v as int) == Some(id));
                        w = w + 1;
                    }
                    let mut h: usize = 1;
                    loop
                        invariant
                            v < dim_v,
                            u < dim_u,
                            du == dim_u,
                            dv == dim_v,
                            1 <= w <= dim_u - u,
                            1 <= h <= dim_v - v,
                            mask@.len() == dim_u * dim_v,
                            forall|k: int, j: int|
                                u <= k < u + w && v <= j < v + h ==> #[trigger] mask_at(mask@, du, k, j) == Some(
                                    id,
                                ),
                        ensures
                            1 <= h <= dim_v - v,
                            forall|k: int, j: int|
                                u <= k < u + w && v <= j < v + h ==> #[trigger] mask_at(mask@, du, k, j) == Some(
                                    id,
                                ),
                            v + h == dim_v || exists|k: int|
                                u <= k < u + w && #[trigger] mask_at(mask@, du, k, (v + h) as int) != Some(id),
                        decreases dim_v - v - h,
                    {
                        if v + h >= dim_v {
                            break;
                        }
                        if !row_holds(mask, dim_u, dim_v, v + h, u, w, id) {
                            break;
                        }
                        h = h + 1;
                    }
                    let r = MaskRect { u0: u, v0: v, u1: u + w, v1: v + h, id };
                    proof {
                        assert forall|u2: int, v2: int|
                            0 <= u2 < du && 0 <= v2 < dv && before(
                                u2,
                                v2,
                                r.u0 as int,
                                r.v0 as int,
                            ) implies (#[trigger] left_after(orig, du, rects@, u2, v2)) is None by {
                            assert(mask_at(mask@, du, u2, v2) is None);
                        }
                        assert forall|u2: int, v2: int| #[trigger] in_rect(r, u2, v2) implies left_after(
                            orig,
                            du,
                            rects@,
                            u2,
                            v2,
                        ) == Some(r.id) by {
                            assert(mask_at(mask@, du, u2, v2) == Some(id));
                        }
                        if r.u1 < du {
                            assert(mask_at(mask@, du, r.u1 as int, v as int) != Some(id));
                        }
                        if r.v1 < dv {
                            let k = choose|k: int|
                                u <= k < u + w && #[trigger] mask_at(mask@, du, k, (v + h) as int) != Some(id);
                            assert(left_after(orig, du, rects@, k, r.v1 as int) != Some(r.id));
                        }
                        assert(greedy_next(orig, du, dv, rects@, r));
                    }
                    let ghost old_rects = rects@;
                    let ghost old_mask = mask@;
                    clear_rect(mask, dim_u, dim_v, r);
                    rects.push(r);
                    proof {
                        assert(rects@.take(old_rects.len() as int) =~= old_rects);
                        assert forall|k: int| 0 <= k < rects@.len() implies greedy_next(
                            orig,
                            du,
                            dv,
                            rects@.take(k),
                            #[trigger] rects@[k],
                        ) by {
                            if k < old_rects.len() {
                                assert(rects@.take(k) =~= old_rects.take(k));
                            }
                        }
                        assert forall|u2: int, v2: int| 0 <= u2 < du && 0 <= v2 < dv implies #[trigger] mask_at(
                            mask@,
                            du,
                            u2,
                            v2,
                        ) == left_after(orig, du, rects@, u2, v2) by {
                            lemma_covered_push(old_rects, r, u2, v2);
                            assert(mask_at(old_mask, du, u2, v2) == left_after(orig, du, old_rects, u2, v2));
                        }
                        assert forall|u2: int, v2: int|
                            0 <= u2 < du && 0 <= v2 < dv && before(
                                u2,
                                v2,
                                (u + w) as int,
                                v as int,
                            ) implies (#[trigger] mask_at(mask@, du, u2, v2)) is None by {
                            if !in_rect(r, u2, v2) {
                                assert(mask_at(old_mask, du, u2, v2) is None);
                            }
                        }
                    }
                    u = u + w;
                },
            }
        }
        proof {
            assert(v * dim_u + dim_u == (v + 1) * dim_u) by (nonlinear_arith);
        }
        v = v + 1;
    }
    proof {
        assert forall|u2: int, v2: int| 0 <= u2 < du && 0 <= v2 < dv implies (#[trigger] left_after(
            orig,
            du,
            rects@,
            u2,
            v2,
        )) is None by {
            assert(mask_at(mask@, du, u2, v2) is None);
        }
        assert forall|i: int| 0 <= i < mask@.len() implies (#[trigger] mask@[i]) is None by {
            let v2 = i / du;
            let u2 = i % du;
            assert(du > 0) by (nonlinear_arith)
                requires
                    0 <= i < du * dv,
                    du >= 0,
                    dv >= 0,
            ;
            assert(v2 * du + u2 == i) by (nonlinear_arith)
                requires
                    du > 0,
                    v2 == i / du,
                    u2 == i % du,
            ;
            assert(0 <= v2 < dv) by (nonlinear_arith)
                requires
                    du > 0,
                    0 <= i < du * dv,
                    v2 == i / du,
            ;
            assert(mask_at(mask@, du, u2, v2) is None);
        }
        assert(dim_v * dim_u == dim_u * dim_v) by (nonlinear_arith);
    }
    rects
}

/// The greedy rectangles partition the cells that hold an id: each rectangle lies inside the mask
/// and covers only cells holding its own id, no two rectangles share a cell, and every cell that
/// holds an id lies in some rectangle.
pub proof fn lemma_greedy_partition(orig: Seq<Option<u8>>, du: int, dv: int, rects: Seq<MaskRect>)
    requires
        greedy_decomposition(orig, du, dv, rects),
    ensures
        forall|k: int, u: int, v: int|
            0 <= k < rects.len() && #[trigger] in_rect(rects[k], u, v) ==> 0 <= u < du && 0 <= v < dv
                && mask_at(orig, du, u, v) == Some(rects[k].id),
        forall|k1: int, k2: int, u: int, v: int|
            0 <= k1 < k2 < rects.len() ==> !(#[trigger] in_rect(rects[k1], u, v) && #[trigger] in_rect(
                rects[k2],
                u,
                v,
            )),
        forall|u: int, v: int|
            0 <= u < du && 0 <= v < dv && (#[trigger] mask_at(orig, du, u, v)) is Some ==> covered(rects, u, v),
{
    assert forall|k: int, u: int, v: int|
        0 <= k < rects.len() && #[trigger] in_rect(rects[k], u, v) implies 0 <= u < du && 0 <= v < dv
        && mask_at(orig, du, u, v) == Some(rects[k].id) by {
        assert(greedy_next(orig, du, dv, rects.take(k), rects[k]));
        assert(left_after(orig, du, rects.take(k), u, v) == Some(rects[k].id));
    }
    assert forall|k1: int, k2: int, u: int, v: int|
        0 <= k1 < k2 < rects.len() implies !(#[trigger] in_rect(rects[k1], u, v) && #[trigger] in_rect(
            rects[k2],
            u,
            v,
        )) by {
        if in_rect(rects[k1], u, v) && in_rect(rects[k2], u, v) {
            assert(greedy_next(orig, du, dv, rects.take(k2), rects[k2]));
            assert(left_after(orig, du, rects.take(k2), u, v) == Some(rects[k2].id));
            assert(rects.take(k2)[k1] == rects[k1]);
            assert(in_rect(rects.take(k2)[k1], u, v));
            assert(covered(rects.take(k2), u, v));
        }
    }
    assert forall|u: int, v: int|
        0 <= u < du && 0 <= v < dv && (#[trigger] mask_at(orig, du, u, v)) is Some implies covered(rects, u, v) by {
        assert(left_after(orig, du, rects, u, v) is None);
    }
}

} // verus!
