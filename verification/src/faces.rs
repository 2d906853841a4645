//! Which faces of a voxel grid are visible, swept slice by slice along each axis and taken apart
//! into maximal same-color rectangles.
use vstd::prelude::*;

use crate::greedy::{greedy_decomposition, greedy_rects, mask_at, MaskRect};
use crate::math::Int3;

verus! {

/// Index of voxel `(x, y, z)` in a grid stored x-fastest, then y, then z.
pub open spec fn voxel_index(dims: Int3, x: int, y: int, z: int) -> int {
    x + y * dims.x + z * (dims.x * dims.y)
}

/// The color id at `(x, y, z)`: stored bytes are 0 for an empty voxel, `id + 1` otherwise.
pub open spec fn voxel_at(dims: Int3, data: Seq<u8>, x: int, y: int, z: int) -> Option<u8> {
    let b = data[voxel_index(dims, x, y, z)];
    if b == 0 {
        None
    } else {
        Some((b - 1) as u8)
    }
}

/// The grid point at coordinate `along` on axis `d` and at `(u, v)` on the two other axes, taken
/// in the right-handed order `(d + 1) % 3`, `(d + 2) % 3`.
pub open spec fn place(d: int, along: int, u: int, v: int) -> (int, int, int) {
    if d == 0 {
        (along, u, v)
    } else if d == 1 {
        (v, along, u)
    } else {
        (u, v, along)
    }
}

/// The voxel at `place(d, along, u, v)`.
pub open spec fn voxel_on_axis(dims: Int3, data: Seq<u8>, d: int, along: int, u: int, v: int) -> Option<u8> {
    let p = place(d, along, u, v);
    voxel_at(dims, data, p.0, p.1, p.2)
}

/// Width of the slices perpendicular to axis `d`.
pub open spec fn slice_width(dims: Int3, d: int) -> int {
    dims.axis((d + 1) % 3)
}

/// Height of the slices perpendicular to axis `d`.
pub open spec fn slice_height(dims: Int3, d: int) -> int {
    dims.axis((d + 2) % 3)
}

/// A face of a voxel of color `a` is drawn unless its neighbor exists and is either opaque or of
/// the same color.
pub open spec fn face_shows(a: u8, neighbor: Option<u8>, opaque: Seq<bool>) -> bool {
    match neighbor {
        None => true,
        Some(b) => !(opaque[b as int] || b == a),
    }
}

/// A face on the outside of the model (no neighbor) is always drawn; a face against a voxel of
/// the same color never is; a face against a voxel of another color is drawn exactly when that
/// voxel is not opaque; and a face against an opaque voxel never is, whatever the colors.
pub proof fn lemma_face_rule(a: u8, b: u8, opaque: Seq<bool>)
    ensures
        face_shows(a, None, opaque),
        !face_shows(a, Some(a), opaque),
        a != b ==> (face_shows(a, Some(b), opaque) <==> !opaque[b as int]),
        opaque[b as int] ==> !face_shows(a, Some(b), opaque),
{
}

/// The color of the face lying on plane `i` of axis `d` at `(u, v)`: with `positive`, the face of
/// the voxel just below the plane that looks up the axis; otherwise the face of the voxel just
/// above it that looks down. `None` when there is no such voxel or the face is hidden.
pub open spec fn face_cell(
    dims: Int3,
    data: Seq<u8>,
    opaque: Seq<bool>,
    d: int,
    i: int,
    u: int,
    v: int,
    positive: bool,
) -> Option<u8> {
    let below = if i > 0 {
        voxel_on_axis(dims, data, d, i - 1, u, v)
    } else {
        None
    };
    let above = if i < dims.axis(d) {
        voxel_on_axis(dims, data, d, i, u, v)
    } else {
        None
    };
    let (own, other) = if positive {
        (below, above)
    } else {
        (above, below)
    };
    match own {
        Some(id) => if face_shows(id, other, opaque) {
            Some(id)
        } else {
            None
        },
        None => None,
    }
}

/// The row-major mask of plane `i` of axis `d`.
pub open spec fn face_mask(dims: Int3, data: Seq<u8>, opaque: Seq<bool>, d: int, i: int, positive: bool) -> Seq<
    Option<u8>,
> {
    let du = slice_width(dims, d);
    let dv = slice_height(dims, d);
    Seq::new(
        (du * dv) as nat,
        |k: int| face_cell(dims, data, opaque, d, i, k % du, k / du, positive),
    )
}

/// The layers in sweep order: for each axis, each plane from 0 to the axis length, the faces
/// looking up the axis, then those looking down.
pub open spec fn layer_key(dims: Int3, k: int) -> (int, int, bool) {
    let n0 = 2 * (dims.x + 1);
    let n1 = 2 * (dims.y + 1);
    if k < n0 {
        (0, k / 2, k % 2 == 0)
    } else if k < n0 + n1 {
        (1, (k - n0) / 2, (k - n0) % 2 == 0)
    } else {
        (2, (k - n0 - n1) / 2, (k - n0 - n1) % 2 == 0)
    }
}

/// The number of layers of a grid of `dims`.
pub open spec fn layer_count(dims: Int3) -> int {
    2 * (dims.x + 1) + 2 * (dims.y + 1) + 2 * (dims.z + 1)
}

/// A grid of at most 256 voxels on each side, with one byte per voxel, and an opacity flag for
/// every color id that occurs.
pub open spec fn grid_ok(dims: Int3, data: Seq<u8>, opaque: Seq<bool>) -> bool {
    &&& 1 <= dims.x <= 256
    &&& 1 <= dims.y <= 256
    &&& 1 <= dims.z <= 256
    &&& data.len() == dims.x * dims.y * dims.z
    &&& forall|k: int| 0 <= k < data.len() ==> (#[trigger] data[k]) == 0 || data[k] - 1 < opaque.len()
}

/// The visible faces of one plane, taken apart into rectangles.
pub struct FaceLayer {
    /// The axis the faces are perpendicular to.
    pub axis: usize,
    /// The plane's coordinate on that axis.
    pub layer: usize,
    /// Whether the faces look up the axis.
    pub positive: bool,
    /// The greedy decomposition of the plane's face mask.
    pub rects: Vec<MaskRect>,
}

proof fn lemma_voxel_index_bounds(dims: Int3, x: int, y: int, z: int)
    requires
        0 <= x < dims.x,
        0 <= y < dims.y,
        0 <= z < dims.z,
    ensures
        0 <= voxel_index(dims, x, y, z) < dims.x * dims.y * dims.z,
{
    let (dx, dy, dz) = (dims.x as int, dims.y as int, dims.z as int);
    assert(0 <= y * dx + dx <= dx * dy) by (nonlinear_arith)
        requires
            0 <= y < dy,
            0 <= dx,
    ;
    assert(0 <= z * (dx * dy) + dx * dy <= dx * dy * dz) by (nonlinear_arith)
        requires
            0 <= z < dz,
            0 <= dx,
            0 <= dy,
    ;
}

/// The color id at `place(d, along, u, v)`.
fn voxel_on(dims: Int3, data: &Vec<u8>, d: usize, along: usize, u: usize, v: usize) -> (r: Option<u8>)
    requires
        data@.len() == dims.x * dims.y * dims.z,
        dims.x <= 256,
        dims.y <= 256,
        d < 3,
        along < dims.axis(d as int),
        u < slice_width(dims, d as int),
        v < slice_height(dims, d as int),
    ensures
        r == voxel_on_axis(dims, data@, d as int, along as int, u as int, v as int),
{
    let (x, y, z) = if d == 0 {
        (along, u, v)
    } else if d == 1 {
        (v, along, u)
    } else {
        (u, v, along)
    };
    let total = data.len();
    proof {
        lemma_voxel_index_bounds(dims, x as int, y as int, z as int);
        assert(dims.x * dims.y <= 65536) by (nonlinear_arith)
            requires
                dims.x <= 256,
                dims.y <= 256,
        ;
        assert(0 <= y * dims.x && 0 <= z * (dims.x * dims.y)) by (nonlinear_arith)
            requires
                0 <= y,
                0 <= z,
        ;
    }
    let b = data[x + y * dims.x + z * (dims.x * dims.y)];
    if b == 0 {
        None
    } else {
        Some(b - 1)
    }
}

/// Whether a face of color `a` shows against `neighbor`.
pub fn face_visible(a_id: u8, neighbor: Option<u8>, opaque: &Vec<bool>) -> (r: bool)
    requires
        neighbor matches Some(b) ==> b < opaque@.len(),
    ensures
        r == face_shows(a_id, neighbor, opaque@),
{
    match neighbor {
        None => true,
        Some(b_id) => !(opaque[b_id as usize] || b_id == a_id),
    }
}

/// The two face masks of plane `i` of axis `d`: faces looking up the axis, then down.
fn face_masks(dims: Int3, data: &Vec<u8>, opaque: &Vec<bool>, d: usize, i: usize) -> (r: (Vec<Option<u8>>, Vec<Option<u8>>))
    requires
        grid_ok(dims, data@, opaque@),
        d < 3,
        i <= dims.axis(d as int),
    ensures
        r.0@ == face_mask(dims, data@, opaque@, d as int, i as int, true),
        r.1@ == face_mask(dims, data@, opaque@, d as int, i as int, false),
{
    let ua = (d + 1) % 3;
    let va = (d + 2) % 3;
    let dim_u = dims.get(ua);
    let dim_v = dims.get(va);
    let dim_d = dims.get(d);
    let ghost du = dim_u as int;
    let ghost dv = dim_v as int;
    assert(du * dv <= 65536) by (nonlinear_arith)
        requires
            0 <= du <= 256,
            0 <= dv <= 256,
    ;
    let mut mask_pos: Vec<Option<u8>> = Vec::new();
    let mut mask_neg: Vec<Option<u8>> = Vec::new();
    let mut v: usize = 0;
    while v < dim_v
        invariant
            grid_ok(dims, data@, opaque@),
            d < 3,
            i <= dim_d,
            dim_d == dims.axis(d as int),
            du == dim_u,
            dv == dim_v,
            du == slice_width(dims, d as int),
            dv == slice_height(dims, d as int),
            du <= 256,
            dv <= 256,
            v <= dv,
            mask_pos@.len() == v * du,
            mask_neg@.len() == v * du,
            forall|k: int|
                0 <= k < mask_pos@.len() ==> #[trigger] mask_pos@[k] == face_cell(
                    dims,
                    data@,
                    opaque@,
                    d as int,
                    i as int,
                    k % du,
                    k / du,
                    true,
                ),
            forall|k: int|
                0 <= k < mask_neg@.len() ==> #[trigger] mask_neg@[k] == face_cell(
                    dims,
                    data@,
                    opaque@,
                    d as int,
                    i as int,
                    k % du,
                    k / du,
                    false,
                ),
        decreases dim_v - v,
    {
        let mut u: usize = 0;
        while u < dim_u
            invariant
                grid_ok(dims, data@, opaque@),
                d < 3,
                i <= dim_d,
                dim_d == dims.axis(d as int),
                du == dim_u,
                dv == dim_v,
                du == slice_width(dims, d as int),
                dv == slice_height(dims, d as int),
                du <= 256,
                dv <= 256,
                v < dv,
                u <= du,
                mask_pos@.len() == v * du + u,
                mask_neg@.len() == v * du + u,
                forall|k: int|
                    0 <= k < mask_pos@.len() ==> #[trigger] mask_pos@[k] == face_cell(
                        dims,
                        data@,
                        opaque@,
                        d as int,
                        i as int,
                        k % du,
                        k / du,
                        true,
                    ),
                forall|k: int|
                    0 <= k < mask_neg@.len() ==> #[trigger] mask_neg@[k] == face_cell(
                        dims,
                        data@,
                        opaque@,
                        d as int,
                        i as int,
                        k % du,
                        k / du,
                        false,
                    ),
            decreases dim_u - u,
        {
            let below = if i > 0 {
                voxel_on(dims, data, d, i - 1, u, v)
            } else {
                None
            };
            let above = if i < dim_d {
                voxel_on(dims, data, d, i, u, v)
            } else {
                None
            };
            proof {
                let p = place(d as int, i - 1, u as int, v as int);
                let q = place(d as int, i as int, u as int, v as int);
                if i > 0 {
                    lemma_voxel_index_bounds(dims, p.0, p.1, p.2);
                }
                if i < dim_d {
                    lemma_voxel_index_bounds(dims, q.0, q.1, q.2);
                }
            }
            let cell_pos = match below {
                Some(id) => if face_visible(id, above, opaque) {
                    Some(id)
                } else {
                    None
                },
                None => None,
            };
            let cell_neg = match above {
                Some(id) => if face_visible(id, below, opaque) {
                    Some(id)
                } else {
                    None
                },
                None => None,
            };
            proof {
                let k = v * du + u;
                assert(k % du == u && k / du == v) by (nonlinear_arith)
                    requires
                        k == v * du + u,
                        0 <= u < du,
                        0 <= v,
                ;
            }
            mask_pos.push(cell_pos);
            mask_neg.push(cell_neg);
            u = u + 1;
        }
        assert(v * du + du == (v + 1) * du) by (nonlinear_arith);
        v = v + 1;
    }
    assert(dv * du == du * dv) by (nonlinear_arith);
    assert(mask_pos@ =~= face_mask(dims, data@, opaque@, d as int, i as int, true));
    assert(mask_neg@ =~= face_mask(dims, data@, opaque@, d as int, i as int, false));
    (mask_pos, mask_neg)
}

/// Index of the first layer of axis `d`.
pub open spec fn layer_offset(dims: Int3, d: int) -> int {
    if d == 0 {
        0
    } else if d == 1 {
        2 * (dims.x + 1)
    } else {
        2 * (dims.x + 1) + 2 * (dims.y + 1)
    }
}

/// `layers[k]` is the `k`-th layer of the sweep, decomposed greedily.
pub open spec fn layer_ok(dims: Int3, data: Seq<u8>, opaque: Seq<bool>, k: int, l: FaceLayer) -> bool {
    let key = layer_key(dims, k);
    &&& l.axis == key.0
    &&& l.layer == key.1
    &&& l.positive == key.2
    &&& greedy_decomposition(
        face_mask(dims, data, opaque, key.0, key.1, key.2),
        slice_width(dims, key.0),
        slice_height(dims, key.0),
        l.rects@,
    )
    &&& l.rects@.len() <= slice_width(dims, key.0) * slice_height(dims, key.0)
}

proof fn lemma_layer_key(dims: Int3, d: int, i: int, down: int)
    requires
        0 <= d < 3,
        0 <= i <= dims.axis(d),
        0 <= down <= 1,
    ensures
        layer_key(dims, layer_offset(dims, d) + 2 * i + down) == (d, i, down == 0),
{
    let k = layer_offset(dims, d) + 2 * i + down;
    let r = 2 * i + down;
    assert(r / 2 == i && r % 2 == down) by (nonlinear_arith)
        requires
            r == 2 * i + down,
            0 <= down <= 1,
            0 <= i,
    ;
}

/// Sweeps the grid along each axis, plane by plane, and takes each plane's visible faces apart
/// into maximal same-color rectangles: for each axis, each plane from 0 to the axis length, the
/// faces looking up the axis, then those looking down.
pub fn face_layers(dims: Int3, data: &Vec<u8>, opaque: &Vec<bool>) -> (layers: Vec<FaceLayer>)
    requires
        grid_ok(dims, data@, opaque@),
    ensures
        layers@.len() == layer_count(dims),
        forall|k: int| 0 <= k < layers@.len() ==> layer_ok(dims, data@, opaque@, k, #[trigger] layers@[k]),
{
    let mut layers: Vec<FaceLayer> = Vec::new();
    let mut d: usize = 0;
    while d < 3
        invariant
            grid_ok(dims, data@, opaque@),
            d <= 3,
            (d < 3 && layers@.len() == layer_offset(dims, d as int)) || (d == 3 && layers@.len() == layer_count(dims)),
            forall|k: int| 0 <= k < layers@.len() ==> layer_ok(dims, data@, opaque@, k, #[trigger] layers@[k]),
        decreases 3 - d,
    {
        let dim_d = dims.get(d);
        let ua = (d + 1) % 3;
        let va = (d + 2) % 3;
        let dim_u = dims.get(ua);
        let dim_v = dims.get(va);
        let mut i: usize = 0;
        while i <= dim_d
            invariant
                grid_ok(dims, data@, opaque@),
                d < 3,
                dim_d == dims.axis(d as int),
                dim_u == slice_width(dims, d as int),
                dim_v == slice_height(dims, d as int),
                i <= dim_d + 1,
                layers@.len() == layer_offset(dims, d as int) + 2 * i,
                forall|k: int| 0 <= k < layers@.len() ==> layer_ok(dims, data@, opaque@, k, #[trigger] layers@[k]),
            decreases dim_d + 1 - i,
        {
            let (mut mask_pos, mut mask_neg) = face_masks(dims, data, opaque, d, i);
            let ghost mp = mask_pos@;
            let ghost mn = mask_neg@;
            let rects_pos = greedy_rects(&mut mask_pos, dim_u, dim_v);
            let rects_neg = greedy_rects(&mut mask_neg, dim_u, dim_v);
            proof {
                lemma_layer_key(dims, d as int, i as int, 0);
                lemma_layer_key(dims, d as int, i as int, 1);
            }
            let ghost before = layers@;
            layers.push(FaceLayer { axis: d, layer: i, positive: true, rects: rects_pos });
            layers.push(FaceLayer { axis: d, layer: i, positive: false, rects: rects_neg });
            proof {
                assert forall|k: int| 0 <= k < layers@.len() implies layer_ok(
                    dims,
                    data@,
                    opaque@,
                    k,
                    #[trigger] layers@[k],
                ) by {
                    if k < before.len() {
                        assert(layers@[k] == before[k]);
                    }
                }
            }
            i = i + 1;
        }
        d = d + 1;
    }
    layers
}

/// Every rectangle of a layer lies inside the plane, the plane inside the grid, and its color is
/// one the opacity table covers.
pub(crate) proof fn lemma_layer_rect_bounds(dims: Int3, data: Seq<u8>, opaque: Seq<bool>, k: int, l: FaceLayer, j: int)
    requires
        grid_ok(dims, data, opaque),
        0 <= k < layer_count(dims),
        layer_ok(dims, data, opaque, k, l),
        0 <= j < l.rects@.len(),
    ensures
        l.axis < 3,
        l.layer <= dims.axis(l.axis as int),
        l.rects@[j].u1 <= slice_width(dims, l.axis as int),
        l.rects@[j].v1 <= slice_height(dims, l.axis as int),
        (l.rects@[j].id as int) < opaque.len(),
        l.rects@.len() <= 65536,
{
    let key = layer_key(dims, k);
    let n0 = 2 * (dims.x + 1);
    let n1 = 2 * (dims.y + 1);
    if k < n0 {
        assert(k / 2 <= dims.x) by (nonlinear_arith)
            requires
                0 <= k < n0,
                n0 == 2 * (dims.x + 1),
        ;
    } else if k < n0 + n1 {
        assert((k - n0) / 2 <= dims.y) by (nonlinear_arith)
            requires
                0 <= k - n0 < n1,
                n1 == 2 * (dims.y + 1),
        ;
    } else {
        assert((k - n0 - n1) / 2 <= dims.z) by (nonlinear_arith)
            requires
                0 <= k - n0 - n1 < 2 * (dims.z + 1),
        ;
    }
    let du = slice_width(dims, l.axis as int);
    let dv = slice_height(dims, l.axis as int);
    assert(du * dv <= 65536) by (nonlinear_arith)
        requires
            0 <= du <= 256,
            0 <= dv <= 256,
    ;
    let m = face_mask(dims, data, opaque, l.axis as int, l.layer as int, l.positive);
    let r = l.rects@[j];
    assert(crate::greedy::greedy_next(m, du, dv, l.rects@.take(j), r));
    assert(crate::greedy::in_rect(r, r.u0 as int, r.v0 as int));
    let (u, v) = (r.u0 as int, r.v0 as int);
    assert(crate::greedy::left_after(m, du, l.rects@.take(j), u, v) == Some(r.id));
    let idx = v * du + u;
    assert(0 <= idx < du * dv && idx % du == u && idx / du == v) by (nonlinear_arith)
        requires
            idx == v * du + u,
            0 <= u < du,
            0 <= v < dv,
    ;
    assert(face_cell(dims, data, opaque, l.axis as int, l.layer as int, u, v, l.positive) == Some(r.id));
    let d = l.axis as int;
    let i = l.layer as int;
    if l.positive {
        let p = place(d, i - 1, u, v);
        lemma_voxel_index_bounds(dims, p.0, p.1, p.2);
        assert(data[voxel_index(dims, p.0, p.1, p.2)] != 0);
    } else {
        let p = place(d, i, u, v);
        lemma_voxel_index_bounds(dims, p.0, p.1, p.2);
        assert(data[voxel_index(dims, p.0, p.1, p.2)] != 0);
    }
}

/// Every layer of the sweep draws exactly the visible faces of its plane: each visible face lies
/// in exactly one of the layer's rectangles, and each rectangle covers only visible faces of its
/// own color.
pub proof fn lemma_layer_draws_visible_faces(dims: Int3, data: Seq<u8>, opaque: Seq<bool>, k: int, l: FaceLayer)
    requires
        grid_ok(dims, data, opaque),
        0 <= k < layer_count(dims),
        layer_ok(dims, data, opaque, k, l),
    ensures
        forall|u: int, v: int|
            0 <= u < slice_width(dims, l.axis as int) && 0 <= v < slice_height(dims, l.axis as int) && (
            #[trigger] face_cell(dims, data, opaque, l.axis as int, l.layer as int, u, v, l.positive)) is Some
                ==> crate::greedy::covered(l.rects@, u, v),
        forall|j: int, u: int, v: int|
            0 <= j < l.rects@.len() && #[trigger] crate::greedy::in_rect(l.rects@[j], u, v) ==> 0 <= u
                < slice_width(dims, l.axis as int) && 0 <= v < slice_height(dims, l.axis as int) && face_cell(
                dims,
                data,
                opaque,
                l.axis as int,
                l.layer as int,
                u,
                v,
                l.positive,
            ) == Some(l.rects@[j].id),
        forall|j1: int, j2: int, u: int, v: int|
            0 <= j1 < j2 < l.rects@.len() ==> !(#[trigger] crate::greedy::in_rect(l.rects@[j1], u, v)
                && #[trigger] crate::greedy::in_rect(l.rects@[j2], u, v)),
{
    let du = slice_width(dims, l.axis as int);
    let dv = slice_height(dims, l.axis as int);
    let m = face_mask(dims, data, opaque, l.axis as int, l.layer as int, l.positive);
    crate::greedy::lemma_greedy_partition(m, du, dv, l.rects@);
    assert forall|u: int, v: int| 0 <= u < du && 0 <= v < dv implies #[trigger] mask_at(m, du, u, v)
        == face_cell(dims, data, opaque, l.axis as int, l.layer as int, u, v, l.positive) by {
        let idx = v * du + u;
        assert(0 <= idx < du * dv && idx % du == u && idx / du == v) by (nonlinear_arith)
            requires
                idx == v * du + u,
                0 <= u < du,
                0 <= v < dv,
        ;
    }
    assert forall|u: int, v: int|
        0 <= u < du && 0 <= v < dv && (#[trigger] face_cell(
            dims,
            data,
            opaque,
            l.axis as int,
            l.layer as int,
            u,
            v,
            l.positive,
        )) is Some implies crate::greedy::covered(l.rects@, u, v) by {
        assert(mask_at(m, du, u, v) is Some);
    }
    assert forall|j: int, u: int, v: int|
        0 <= j < l.rects@.len() && #[trigger] crate::greedy::in_rect(l.rects@[j], u, v) implies 0 <= u < du && 0
        <= v < dv && face_cell(dims, data, opaque, l.axis as int, l.layer as int, u, v, l.positive) == Some(
        l.rects@[j].id,
    ) by {
        assert(mask_at(m, du, u, v) == Some(l.rects@[j].id));
    }
}

} // verus!
