//! Turns the greedy face rectangles of a voxel grid into indexed quad primitives, one primitive
//! per material bucket that has any face.
use vstd::prelude::*;

use crate::faces::{face_layers, grid_ok, layer_count, layer_ok, lemma_layer_rect_bounds, place, FaceLayer};
use crate::greedy::MaskRect;
use crate::layout::PaletteLayout;
use crate::math::Int3;

verus! {

/// One rectangle of faces: the plane it lies on and the color it shows.
#[derive(Copy, Clone, PartialEq, Eq, Structural, Debug)]
pub struct Quad {
    pub axis: usize,
    pub layer: usize,
    pub positive: bool,
    pub u0: usize,
    pub v0: usize,
    pub u1: usize,
    pub v1: usize,
    pub id: u8,
}

/// The outward normal of a quad: the axis it is perpendicular to and its direction.
#[derive(Copy, Clone, PartialEq, Eq, Structural, Debug)]
pub struct FaceNormal {
    pub axis: usize,
    pub positive: bool,
}

/// The quad that rectangle `r` of layer `l` stands for.
pub open spec fn quad_of(l: FaceLayer, r: MaskRect) -> Quad {
    Quad {
        axis: l.axis,
        layer: l.layer,
        positive: l.positive,
        u0: r.u0,
        v0: r.v0,
        u1: r.u1,
        v1: r.v1,
        id: r.id,
    }
}

/// The quads of layer `l`, in the order of its rectangles.
pub open spec fn layer_quads(l: FaceLayer) -> Seq<Quad> {
    l.rects@.map_values(|r: MaskRect| quad_of(l, r))
}

/// The quads of all `layers`, layer after layer.
pub open spec fn all_quads(layers: Seq<FaceLayer>) -> Seq<Quad>
    decreases layers.len(),
{
    if layers.len() == 0 {
        Seq::empty()
    } else {
        all_quads(layers.drop_last()) + layer_quads(layers.last())
    }
}

/// The quads of `qs` whose color belongs to bucket `b`, in order.
pub open spec fn bucket_quads(qs: Seq<Quad>, refs: Seq<(usize, u32)>, b: int) -> Seq<Quad>
    decreases qs.len(),
{
    if qs.len() == 0 {
        Seq::empty()
    } else {
        bucket_quads(qs.drop_last(), refs, b) + if refs[qs.last().id as int].0 == b {
            seq![qs.last()]
        } else {
            Seq::empty()
        }
    }
}

/// The grid point at `(u, v)` on plane `layer` of `axis`.
pub open spec fn corner(axis: int, layer: int, u: int, v: int) -> (u32, u32, u32) {
    let p = place(axis, layer, u, v);
    (p.0 as u32, p.1 as u32, p.2 as u32)
}

/// The four corners of `q`, wound counter-clockwise when seen from the side its normal points to.
pub open spec fn quad_corners(q: Quad) -> Seq<(u32, u32, u32)> {
    let p0 = corner(q.axis as int, q.layer as int, q.u0 as int, q.v0 as int);
    let p1 = corner(q.axis as int, q.layer as int, q.u1 as int, q.v0 as int);
    let p2 = corner(q.axis as int, q.layer as int, q.u1 as int, q.v1 as int);
    let p3 = corner(q.axis as int, q.layer as int, q.u0 as int, q.v1 as int);
    if q.positive {
        seq![p0, p1, p2, p3]
    } else {
        seq![p0, p3, p2, p1]
    }
}

/// The vertex positions of `qs`: four fresh corners per quad.
pub open spec fn quads_positions(qs: Seq<Quad>) -> Seq<(u32, u32, u32)>
    decreases qs.len(),
{
    if qs.len() == 0 {
        Seq::empty()
    } else {
        quads_positions(qs.drop_last()) + quad_corners(qs.last())
    }
}

/// The vertex normals of `qs`: the quad's normal at each of its four corners.
pub open spec fn quads_normals(qs: Seq<Quad>) -> Seq<FaceNormal>
    decreases qs.len(),
{
    if qs.len() == 0 {
        Seq::empty()
    } else {
        let n = FaceNormal { axis: qs.last().axis, positive: qs.last().positive };
        quads_normals(qs.drop_last()) + seq![n, n, n, n]
    }
}

/// The vertex texels of `qs`: the atlas texel of the quad's color at each of its four corners.
pub open spec fn quads_texels(qs: Seq<Quad>, refs: Seq<(usize, u32)>) -> Seq<u32>
    decreases qs.len(),
{
    if qs.len() == 0 {
        Seq::empty()
    } else {
        let t = refs[qs.last().id as int].1;
        quads_texels(qs.drop_last(), refs) + seq![t, t, t, t]
    }
}

/// The triangle indices of `qs`: two triangles per quad over its own four vertices.
pub open spec fn quads_indices(qs: Seq<Quad>) -> Seq<u32>
    decreases qs.len(),
{
    if qs.len() == 0 {
        Seq::empty()
    } else {
        let b = (4 * (qs.len() - 1)) as u32;
        quads_indices(qs.drop_last()) + seq![
            b,
            (b + 1) as u32,
            (b + 2) as u32,
            b,
            (b + 2) as u32,
            (b + 3) as u32,
        ]
    }
}

/// Vertex and index buffers of one primitive under construction.
pub struct PrimitiveBuilder {
    pub positions: Vec<(u32, u32, u32)>,
    pub normals: Vec<FaceNormal>,
    pub texels: Vec<u32>,
    pub indices: Vec<u32>,
}

/// The buffers of `p` are exactly those of the quads `qs`.
pub open spec fn holds_quads(p: PrimitiveBuilder, qs: Seq<Quad>, refs: Seq<(usize, u32)>) -> bool {
    &&& p.positions@ == quads_positions(qs)
    &&& p.normals@ == quads_normals(qs)
    &&& p.texels@ == quads_texels(qs, refs)
    &&& p.indices@ == quads_indices(qs)
}

proof fn lemma_quads_positions_len(qs: Seq<Quad>)
    ensures
        quads_positions(qs).len() == 4 * qs.len(),
    decreases qs.len(),
{
    if qs.len() > 0 {
        lemma_quads_positions_len(qs.drop_last());
    }
}

proof fn lemma_bucket_quads_len(qs: Seq<Quad>, refs: Seq<(usize, u32)>, b: int)
    ensures
        bucket_quads(qs, refs, b).len() <= qs.len(),
    decreases qs.len(),
{
    if qs.len() > 0 {
        lemma_bucket_quads_len(qs.drop_last(), refs, b);
    }
}

impl PrimitiveBuilder {
    /// An empty builder.
    pub fn new() -> (p: PrimitiveBuilder)
        ensures
            holds_quads(p, Seq::empty(), Seq::empty()),
            forall|refs: Seq<(usize, u32)>| holds_quads(p, Seq::empty(), refs),
    {
        PrimitiveBuilder { positions: Vec::new(), normals: Vec::new(), texels: Vec::new(), indices: Vec::new() }
    }

    /// Appends quad `q`, showing atlas texel `texel`: four fresh corners with the quad's normal,
    /// and two triangles over them.
    pub fn push_quad(&mut self, q: Quad, texel: u32)
        requires
            old(self).positions@.len() + 4 <= u32::MAX,
            q.u0 <= u32::MAX,
            q.u1 <= u32::MAX,
            q.v0 <= u32::MAX,
            q.v1 <= u32::MAX,
            q.layer <= u32::MAX,
            q.axis < 3,
        ensures
            final(self).positions@ == old(self).positions@ + quad_corners(q),
            final(self).normals@ == old(self).normals@ + seq![
                FaceNormal { axis: q.axis, positive: q.positive },
                FaceNormal { axis: q.axis, positive: q.positive },
                FaceNormal { axis: q.axis, positive: q.positive },
                FaceNormal { axis: q.axis, positive: q.positive },
            ],
            final(self).texels@ == old(self).texels@ + seq![texel, texel, texel, texel],
            final(self).indices@ == old(self).indices@ + seq![
                old(self).positions@.len() as u32,
                (old(self).positions@.len() + 1) as u32,
                (old(self).positions@.len() + 2) as u32,
                old(self).positions@.len() as u32,
                (old(self).positions@.len() + 2) as u32,
                (old(self).positions@.len() + 3) as u32,
            ],
    {
        let base = self.positions.len() as u32;
        let c = |u: usize, v: usize| -> (p: (u32, u32, u32))
            requires
                u <= u32::MAX,
                v <= u32::MAX,
                q.layer <= u32::MAX,
            ensures
                p == corner(q.axis as int, q.layer as int, u as int, v as int),
            {
                let l = q.layer as u32;
                let (uu, vv) = (u as u32, v as u32);
                if q.axis == 0 {
                    (l, uu, vv)
                } else if q.axis == 1 {
                    (vv, l, uu)
                } else {
                    (uu, vv, l)
                }
            };
        let p0 = c(q.u0, q.v0);
        let p1 = c(q.u1, q.v0);
        let p2 = c(q.u1, q.v1);
        let p3 = c(q.u0, q.v1);
        if q.positive {
            self.positions.push(p0);
            self.positions.push(p1);
            self.positions.push(p2);
            self.positions.push(p3);
        } else {
            self.positions.push(p0);
            self.positions.push(p3);
            self.positions.push(p2);
            self.positions.push(p1);
        }
        let n = FaceNormal { axis: q.axis, positive: q.positive };
        self.normals.push(n);
        self.normals.push(n);
        self.normals.push(n);
        self.normals.push(n);
        self.texels.push(texel);
        self.texels.push(texel);
        self.texels.push(texel);
        self.texels.push(texel);
        self.indices.push(base);
        self.indices.push(base + 1);
        self.indices.push(base + 2);
        self.indices.push(base);
        self.indices.push(base + 2);
        self.indices.push(base + 3);
        assert(self.positions@ =~= old(self).positions@ + quad_corners(q));
    }
}

/// One primitive of a mesh: the quads of one material bucket.
pub struct Primitive {
    pub positions: Vec<(u32, u32, u32)>,
    pub normals: Vec<FaceNormal>,
    pub texels: Vec<u32>,
    pub indices: Vec<u32>,
    pub material_index: usize,
    /// The number of texels of the bucket's atlas row.
    pub atlas_width: usize,
}

/// The mesh of a voxel model.
pub struct MeshData {
    pub primitives: Vec<Primitive>,
}

/// The buffers of `p` are exactly those of the quads `qs`.
pub open spec fn primitive_holds(p: Primitive, qs: Seq<Quad>, refs: Seq<(usize, u32)>) -> bool {
    &&& p.positions@ == quads_positions(qs)
    &&& p.normals@ == quads_normals(qs)
    &&& p.texels@ == quads_texels(qs, refs)
    &&& p.indices@ == quads_indices(qs)
}

/// The buckets `b < nb` that have at least one quad, in increasing order.
pub open spec fn nonempty_buckets(qs: Seq<Quad>, refs: Seq<(usize, u32)>, nb: int) -> Seq<usize>
    decreases nb,
{
    if nb <= 0 {
        Seq::empty()
    } else {
        nonempty_buckets(qs, refs, nb - 1) + if bucket_quads(qs, refs, nb - 1).len() > 0 {
            seq![(nb - 1) as usize]
        } else {
            Seq::empty()
        }
    }
}

/// `mesh` holds, for each bucket with faces and in bucket order, one primitive made of that
/// bucket's quads of `layers`, in sweep order.
pub open spec fn mesh_of(layers: Seq<FaceLayer>, layout: PaletteLayout, mesh: MeshData) -> bool {
    let all = all_quads(layers);
    let refs = layout.color_refs@;
    let ne = nonempty_buckets(all, refs, layout.buckets@.len() as int);
    &&& mesh.primitives@.len() == ne.len()
    &&& forall|k: int|
        0 <= k < ne.len() ==> (#[trigger] mesh.primitives@[k]).material_index == ne[k] && primitive_holds(
            mesh.primitives@[k],
            bucket_quads(all, refs, ne[k] as int),
            refs,
        ) && mesh.primitives@[k].atlas_width == layout.buckets@[ne[k] as int].colors@.len()
}

/// The color refs of `layout` cover every color id of the grid and point into its buckets.
pub open spec fn layout_fits(layout: PaletteLayout, opaque: Seq<bool>) -> bool {
    &&& layout.color_refs@.len() == opaque.len()
    &&& forall|c: int| 0 <= c < opaque.len() ==> (#[trigger] layout.color_refs@[c]).0 < layout.buckets@.len()
}

proof fn lemma_all_quads_step(layers: Seq<FaceLayer>, k: int)
    requires
        0 <= k < layers.len(),
    ensures
        all_quads(layers.take(k + 1)) == all_quads(layers.take(k)) + layer_quads(layers[k]),
{
    assert(layers.take(k + 1).drop_last() =~= layers.take(k));
}

proof fn lemma_bucket_step(qs: Seq<Quad>, q: Quad, refs: Seq<(usize, u32)>, b: int)
    ensures
        bucket_quads(qs.push(q), refs, b) == bucket_quads(qs, refs, b) + if refs[q.id as int].0 == b {
            seq![q]
        } else {
            Seq::empty()
        },
{
    assert(qs.push(q).drop_last() =~= qs);
}

proof fn lemma_quads_step(qs: Seq<Quad>, q: Quad, refs: Seq<(usize, u32)>)
    requires
        4 * qs.len() + 3 <= u32::MAX,
    ensures
        quads_positions(qs.push(q)) == quads_positions(qs) + quad_corners(q),
        quads_normals(qs.push(q)) == quads_normals(qs) + seq![
            FaceNormal { axis: q.axis, positive: q.positive },
            FaceNormal { axis: q.axis, positive: q.positive },
            FaceNormal { axis: q.axis, positive: q.positive },
            FaceNormal { axis: q.axis, positive: q.positive },
        ],
        quads_texels(qs.push(q), refs) == quads_texels(qs, refs) + seq![
            refs[q.id as int].1,
            refs[q.id as int].1,
            refs[q.id as int].1,
            refs[q.id as int].1,
        ],
        quads_indices(qs.push(q)) == quads_indices(qs) + seq![
            (4 * qs.len()) as u32,
            (4 * qs.len() + 1) as u32,
            (4 * qs.len() + 2) as u32,
            (4 * qs.len()) as u32,
            (4 * qs.len() + 2) as u32,
            (4 * qs.len() + 3) as u32,
        ],
{
    assert(qs.push(q).drop_last() =~= qs);
}

proof fn lemma_quads_indices_len(qs: Seq<Quad>)
    ensures
        quads_indices(qs).len() == 6 * qs.len(),
    decreases qs.len(),
{
    if qs.len() > 0 {
        lemma_quads_indices_len(qs.drop_last());
    }
}

/// Every triangle index of a run of quads refers to one of its vertices: a primitive's index
/// buffer never points past its vertex buffers.
pub proof fn lemma_indices_within_vertices(qs: Seq<Quad>)
    requires
        4 * qs.len() <= u32::MAX,
    ensures
        forall|k: int| 0 <= k < quads_indices(qs).len() ==> #[trigger] quads_indices(qs)[k] < quads_positions(qs).len(),
    decreases qs.len(),
{
    lemma_quads_positions_len(qs);
    lemma_quads_indices_len(qs);
    if qs.len() > 0 {
        lemma_indices_within_vertices(qs.drop_last());
        lemma_quads_positions_len(qs.drop_last());
        lemma_quads_indices_len(qs.drop_last());
        let prev = quads_indices(qs.drop_last());
        assert forall|k: int| 0 <= k < quads_indices(qs).len() implies #[trigger] quads_indices(qs)[k]
            < quads_positions(qs).len() by {
            if k < prev.len() {
                assert(quads_indices(qs)[k] == prev[k]);
            }
        }
    }
}

/// Meshes a voxel grid: sweeps it into greedy face rectangles (see `face_layers`), turns every
/// rectangle into a quad of four fresh corners and two triangles, and gathers the quads of each
/// material bucket into one primitive; buckets without faces get no primitive.
pub fn build_mesh(dims: Int3, data: &Vec<u8>, opaque: &Vec<bool>, layout: &PaletteLayout) -> (mesh: MeshData)
    requires
        grid_ok(dims, data@, opaque@),
        layout_fits(*layout, opaque@),
    ensures
        exists|layers: Seq<FaceLayer>|
            {
                &&& layers.len() == layer_count(dims)
                &&& forall|k: int| 0 <= k < layers.len() ==> layer_ok(dims, data@, opaque@, k, #[trigger] layers[k])
                &&& mesh_of(layers, *layout, mesh)
            },
{
    let layers = face_layers(dims, data, opaque);
    let ghost refs = layout.color_refs@;
    let nb = layout.buckets.len();
    let mut builders: Vec<PrimitiveBuilder> = Vec::new();
    let mut b: usize = 0;
    while b < nb
        invariant
            b <= nb,
            builders@.len() == b,
            forall|j: int| 0 <= j < b ==> holds_quads(#[trigger] builders@[j], Seq::empty(), refs),
        decreases nb - b,
    {
        builders.push(PrimitiveBuilder::new());
        b = b + 1;
    }
    let ghost mut done: Seq<Quad> = Seq::empty();
    let mut k: usize = 0;
    while k < layers.len()
        invariant
            grid_ok(dims, data@, opaque@),
            layout_fits(*layout, opaque@),
            refs == layout.color_refs@,
            nb == layout.buckets@.len(),
            layers@.len() == layer_count(dims),
            forall|k2: int| 0 <= k2 < layers@.len() ==> layer_ok(dims, data@, opaque@, k2, #[trigger] layers@[k2]),
            k <= layers@.len(),
            done == all_quads(layers@.take(k as int)),
            done.len() <= 65536 * k,
            builders@.len() == nb,
            forall|j: int| 0 <= j < nb ==> holds_quads(#[trigger] builders@[j], bucket_quads(done, refs, j), refs),
        decreases layers@.len() - k,
    {
        let layer = &layers[k];
        let ghost l = layers@[k as int];
        let ghost start = done;
        proof {
            assert(layer_ok(dims, data@, opaque@, k as int, l));
        }
        let mut j: usize = 0;
        while j < layer.rects.len()
            invariant
                grid_ok(dims, data@, opaque@),
                layout_fits(*layout, opaque@),
                refs == layout.color_refs@,
                nb == layout.buckets@.len(),
                layers@.len() == layer_count(dims),
                k < layers@.len(),
                *layer == l,
                l == layers@[k as int],
                layer_ok(dims, data@, opaque@, k as int, l),
                j <= l.rects@.len(),
                start.len() <= 65536 * k,
                done == start + layer_quads(l).take(j as int),
                builders@.len() == nb,
                forall|j2: int| 0 <= j2 < nb ==> holds_quads(#[trigger] builders@[j2], bucket_quads(done, refs, j2), refs),
            decreases l.rects@.len() - j,
        {
            let r = layer.rects[j];
            let q = Quad {
                axis: layer.axis,
                layer: layer.layer,
                positive: layer.positive,
                u0: r.u0,
                v0: r.v0,
                u1: r.u1,
                v1: r.v1,
                id: r.id,
            };
            proof {
                lemma_layer_rect_bounds(dims, data@, opaque@, k as int, l, j as int);
                assert(q == quad_of(l, l.rects@[j as int]));
            }
            let bucket = layout.color_refs[r.id as usize].0;
            let texel = layout.color_refs[r.id as usize].1;
            let ghost before = builders@;
            proof {
                lemma_bucket_quads_len(done, refs, bucket as int);
                lemma_quads_positions_len(bucket_quads(done, refs, bucket as int));
                assert(layer_quads(l).take(j as int).len() == j);
                assert(j < 65536);
                assert(4 * (65536 * k + 65536) <= 4 * 65536 * 1542) by (nonlinear_arith)
                    requires
                        k < 1542,
                ;
            }
            builders[bucket].push_quad(q, texel);
            proof {
                let nd = done.push(q);
                assert(layer_quads(l).take(j + 1) =~= layer_quads(l).take(j as int).push(q));
                assert forall|j2: int| 0 <= j2 < nb implies holds_quads(
                    #[trigger] builders@[j2],
                    bucket_quads(nd, refs, j2),
                    refs,
                ) by {
                    lemma_bucket_step(done, q, refs, j2);
                    if j2 == bucket {
                        let bq = bucket_quads(done, refs, j2);
                        lemma_bucket_quads_len(done, refs, j2);
                        assert(4 * bq.len() + 3 <= u32::MAX);
                        lemma_quads_step(bq, q, refs);
                        lemma_quads_positions_len(bq);
                        assert(refs[q.id as int].0 == j2);
                        assert(bucket_quads(nd, refs, j2) == bq.push(q));
                        assert(builders@[j2].positions@ == quads_positions(bq.push(q)));
                        assert(builders@[j2].normals@ == quads_normals(bq.push(q)));
                        assert(builders@[j2].texels@ == quads_texels(bq.push(q), refs));
                        assert(builders@[j2].indices@ == quads_indices(bq.push(q)));
                    } else {
                        assert(builders@[j2] == before[j2]);
                    }
                }
                done = nd;
            }
            j = j + 1;
        }
        proof {
            if l.rects@.len() > 0 {
                lemma_layer_rect_bounds(dims, data@, opaque@, k as int, l, 0);
            }
            lemma_all_quads_step(layers@, k as int);
            assert(layer_quads(l).take(l.rects@.len() as int) =~= layer_quads(l));
        }
        k = k + 1;
    }
    proof {
        assert(layers@.take(layers@.len() as int) =~= layers@);
    }
    let ghost all = done;
    let mut primitives: Vec<Primitive> = Vec::new();
    let mut b: usize = 0;
    while builders.len() > 0
        invariant
            nb == layout.buckets@.len(),
            b + builders@.len() == nb,
            forall|j: int| 0 <= j < builders@.len() ==> holds_quads(#[trigger] builders@[j], bucket_quads(all, refs, b + j), refs),
            primitives@.len() == nonempty_buckets(all, refs, b as int).len(),
            forall|k2: int|
                0 <= k2 < primitives@.len() ==> (#[trigger] primitives@[k2]).material_index == nonempty_buckets(
                    all,
                    refs,
                    b as int,
                )[k2] && primitive_holds(
                    primitives@[k2],
                    bucket_quads(all, refs, nonempty_buckets(all, refs, b as int)[k2] as int),
                    refs,
                ) && primitives@[k2].atlas_width == layout.buckets@[nonempty_buckets(all, refs, b as int)[k2] as int].colors@.len(),
        decreases builders@.len(),
    {
        let ghost before = builders@;
        let pb = builders.remove(0);
        proof {
            assert(holds_quads(pb, bucket_quads(all, refs, b as int), refs));
            lemma_quads_indices_len(bucket_quads(all, refs, b as int));
            assert forall|j: int| 0 <= j < builders@.len() implies holds_quads(
                #[trigger] builders@[j],
                bucket_quads(all, refs, (b + 1) + j),
                refs,
            ) by {
                assert(builders@[j] == before[j + 1]);
            }
        }
        let ghost old_prims = primitives@;
        if pb.indices.len() > 0 {
            primitives.push(
                Primitive {
                    positions: pb.positions,
                    normals: pb.normals,
                    texels: pb.texels,
                    indices: pb.indices,
                    material_index: b,
                    atlas_width: layout.buckets[b].colors.len(),
                },
            );
        }
        proof {
            assert forall|k2: int| 0 <= k2 < primitives@.len() implies (#[trigger] primitives@[k2]).material_index
                == nonempty_buckets(all, refs, b + 1)[k2] && primitive_holds(
                primitives@[k2],
                bucket_quads(all, refs, nonempty_buckets(all, refs, b + 1)[k2] as int),
                refs,
            ) && primitives@[k2].atlas_width == layout.buckets@[nonempty_buckets(all, refs, b + 1)[k2] as int].colors@.len() by {
                if k2 < old_prims.len() {
                    assert(primitives@[k2] == old_prims[k2]);
                }
            }
        }
        b = b + 1;
    }
    let mesh = MeshData { primitives };
    assert(mesh_of(layers@, *layout, mesh));
    mesh
}

} // verus!
