use voxels::export::{bucket_key, build_palette_data, export_model, export_palette, palette_layout, QuantizedProps};
use voxels::faces::face_visible;
use voxels::greedy::greedy_rects;
use voxels::math::Int3;
use voxels::mesh::MeshData;
use voxels::model::{Dimensions, Model, Pivot, PivotChoice};
use voxels::palette::{Color, Material, MaterialRef, Palette, PaletteId};

fn material(rgb: (u8, u8, u8), transmission: f64) -> Material {
    Material {
        color: Color::new(rgb.0, rgb.1, rgb.2),
        roughness: 1.0f64.to_bits(),
        metallic: 0.0f64.to_bits(),
        ior: 1.5f64.to_bits(),
        transmission: transmission.to_bits(),
        emissive: 0.0f64.to_bits(),
        volume: None,
    }
}

fn palette_of(materials: &[Material]) -> (Palette, Vec<MaterialRef>) {
    let mut palette = Palette::new(PaletteId { id: 1 });
    let refs = materials.iter().map(|m| palette.add_material(*m).unwrap()).collect();
    (palette, refs)
}

fn model_row(palette: &Palette, codes: &[MaterialRef]) -> Model {
    let dims = Dimensions::new(codes.len(), 1, 1).unwrap();
    let mut model = Model::new(dims, palette.id, PivotChoice::Preset(Pivot::Corner));
    for (x, m) in codes.iter().enumerate() {
        model.put(Some(*m), Int3::new(x, 0, 0)).unwrap();
    }
    model
}

fn quad_count(mesh: &MeshData) -> usize {
    mesh.primitives.iter().map(|p| p.indices.len() / 6).sum()
}

#[test]
fn single_opaque_voxel_has_six_faces() {
    let (palette, refs) = palette_of(&[material((255, 0, 0), 0.0)]);
    let model = model_row(&palette, &refs[..1]);
    let mesh = export_model(&model, &palette);

    assert_eq!(mesh.primitives.len(), 1);
    let prim = &mesh.primitives[0];
    assert_eq!(prim.positions.len(), 24);
    assert_eq!(prim.indices.len(), 36);
}

#[test]
fn adjacent_same_color_merges_sides_and_culls_shared_face() {
    let (palette, refs) = palette_of(&[material((0, 255, 0), 0.0)]);
    let model = model_row(&palette, &[refs[0], refs[0]]);
    let mesh = export_model(&model, &palette);

    assert_eq!(quad_count(&mesh), 6);
    let prim = &mesh.primitives[0];
    assert!(prim.positions.iter().all(|p| p.0 != 1));
}

#[test]
fn different_opaque_colors_cull_shared_face_but_dont_merge_sides() {
    let (palette, refs) = palette_of(&[material((255, 0, 0), 0.0), material((0, 0, 255), 0.0)]);
    let model = model_row(&palette, &[refs[0], refs[1]]);
    let mesh = export_model(&model, &palette);

    assert_eq!(quad_count(&mesh), 10);
}

#[test]
fn transparent_same_color_still_merges_and_culls() {
    let (palette, refs) = palette_of(&[material((0, 255, 0), 0.5)]);
    let model = model_row(&palette, &[refs[0], refs[0]]);
    let mesh = export_model(&model, &palette);

    assert_eq!(quad_count(&mesh), 6);
}

#[test]
fn transparent_different_colors_do_not_cull() {
    let (palette, refs) = palette_of(&[material((255, 0, 0), 0.5), material((0, 0, 255), 0.5)]);
    let model = model_row(&palette, &[refs[0], refs[1]]);
    let mesh = export_model(&model, &palette);

    assert_eq!(quad_count(&mesh), 12);
}

#[test]
fn distinct_ior_creates_separate_buckets() {
    let mut first = material((255, 0, 0), 0.0);
    first.ior = 1.0f64.to_bits();
    let second = material((0, 255, 0), 0.0);
    let (palette, _) = palette_of(&[first, second]);
    let layout = palette_layout(&palette);

    assert_eq!(layout.buckets.len(), 2);
    assert_eq!(layout.buckets[0].colors.len(), 1);
    assert_eq!(layout.buckets[1].colors.len(), 1);
}

#[test]
fn shared_bucket_atlas_orders_colors_by_index() {
    let (palette, _) = palette_of(&[material((10, 20, 30), 0.0), material((40, 50, 60), 0.0)]);
    let layout = palette_layout(&palette);

    assert_eq!(layout.buckets.len(), 1);
    assert_eq!(layout.buckets[0].colors.len(), 2);
    let (b0, t0) = layout.color_refs[0];
    let (b1, t1) = layout.color_refs[1];
    assert_eq!(b0, b1);
    assert_eq!((t0, t1), (0, 1));

    let quantized: Vec<QuantizedProps> = palette
        .materials
        .iter()
        .map(|_| QuantizedProps { roughness: 255, metallic: 0, transmission: 0 })
        .collect();
    let data = build_palette_data(&palette.materials, &quantized, &layout);
    let colors: Vec<(u8, u8, u8)> = data[0].base_color.iter().map(|c| (c.r, c.g, c.b)).collect();
    assert_eq!(colors, vec![(10, 20, 30), (40, 50, 60)]);
    assert_eq!(data[0].atlas_width, 2);
    assert_eq!(data[0].metallic_roughness, vec![(255, 0), (255, 0)]);
}

#[test]
fn bucket_key_normalizes_negative_zero() {
    assert_eq!(
        bucket_key(0.0f64.to_bits(), 0.0f64.to_bits()),
        bucket_key((-0.0f64).to_bits(), (-0.0f64).to_bits())
    );
}

#[test]
fn an_empty_model_has_no_primitives() {
    let (palette, _) = palette_of(&[material((1, 2, 3), 0.0)]);
    let dims = Dimensions::new(3, 3, 3).unwrap();
    let model = Model::new(dims, palette.id, PivotChoice::Preset(Pivot::Center));
    let mesh = export_model(&model, &palette);
    assert!(mesh.primitives.is_empty());
}

#[test]
fn a_full_cube_meshes_to_six_quads() {
    let (palette, refs) = palette_of(&[material((9, 9, 9), 0.0)]);
    let dims = Dimensions::new(3, 3, 3).unwrap();
    let mut model = Model::new(dims, palette.id, PivotChoice::Preset(Pivot::Corner));
    model.aabb(Some(refs[0]), Int3::new(0, 0, 0), Int3::new(2, 2, 2)).unwrap();
    let mesh = export_model(&model, &palette);
    assert_eq!(mesh.primitives.len(), 1);
    assert_eq!(quad_count(&mesh), 6);
    assert_eq!(mesh.primitives[0].positions.len(), 24);
}

#[test]
fn face_visibility_follows_opacity_and_color() {
    let opaque = vec![true, false, false];
    assert!(face_visible(1, None, &opaque));
    assert!(!face_visible(1, Some(1), &opaque));
    assert!(!face_visible(1, Some(0), &opaque));
    assert!(face_visible(1, Some(2), &opaque));
    assert!(!face_visible(2, Some(2), &opaque));
    assert!(face_visible(0, Some(1), &opaque));
}

#[test]
fn greedy_rects_merges_a_uniform_block_into_one_rectangle() {
    let mut mask = vec![Some(4u8); 6];
    let rects = greedy_rects(&mut mask, 3, 2);
    assert_eq!(rects.len(), 1);
    assert_eq!((rects[0].u0, rects[0].v0, rects[0].u1, rects[0].v1, rects[0].id), (0, 0, 3, 2, 4));
    assert!(mask.iter().all(|c| c.is_none()));
}

#[test]
fn greedy_rects_splits_by_id_in_row_major_order() {
    let mut mask = vec![Some(1u8), Some(2), None, Some(1), Some(2), Some(2)];
    let rects = greedy_rects(&mut mask, 3, 2);
    let found: Vec<(usize, usize, usize, usize, u8)> =
        rects.iter().map(|r| (r.u0, r.v0, r.u1, r.v1, r.id)).collect();
    assert_eq!(found, vec![(0, 0, 1, 2, 1), (1, 0, 2, 2, 2), (2, 1, 3, 2, 2)]);
}

#[test]
fn every_index_points_at_a_vertex_of_its_primitive() {
    let (palette, refs) = palette_of(&[material((1, 1, 1), 0.0), material((2, 2, 2), 0.5)]);
    let dims = Dimensions::new(3, 2, 2).unwrap();
    let mut model = Model::new(dims, palette.id, PivotChoice::Preset(Pivot::Corner));
    model.put(Some(refs[0]), Int3::new(0, 0, 0)).unwrap();
    model.put(Some(refs[1]), Int3::new(1, 0, 0)).unwrap();
    model.put(Some(refs[0]), Int3::new(2, 1, 1)).unwrap();
    let mesh = export_model(&model, &palette);
    assert_eq!(mesh.primitives.len(), 1);
    for p in &mesh.primitives {
        assert_eq!(p.positions.len(), p.normals.len());
        assert_eq!(p.positions.len(), p.texels.len());
        assert!(p.indices.iter().all(|&i| (i as usize) < p.positions.len()));
    }
}

#[test]
fn colors_share_a_bucket_exactly_when_their_keys_match() {
    let mut emissive = material((5, 5, 5), 0.0);
    emissive.emissive = 2.0f64.to_bits();
    let (palette, _) = palette_of(&[material((1, 1, 1), 0.0), emissive, material((3, 3, 3), 0.2)]);
    let layout = palette_layout(&palette);
    assert_eq!(layout.buckets.len(), 2);
    assert_eq!(layout.color_refs, vec![(0, 0), (1, 0), (0, 1)]);
}

#[test]
fn export_palette_gives_one_material_per_bucket_in_order_of_first_use() {
    let mut glassy = material((1, 2, 3), 0.0);
    glassy.ior = 1.33f64.to_bits();
    let (palette, _) = palette_of(&[
        material((10, 0, 0), 0.0),
        glassy,
        material((20, 0, 0), 1.0),
        glassy,
    ]);
    let quantized: Vec<QuantizedProps> = (0..4u8)
        .map(|i| QuantizedProps { roughness: i, metallic: 10 + i, transmission: 20 + i })
        .collect();
    let data = export_palette(&palette, &quantized);
    assert_eq!(data.len(), 2);
    let colors: Vec<(u8, u8, u8)> = data[0].base_color.iter().map(|c| (c.r, c.g, c.b)).collect();
    assert_eq!(colors, vec![(10, 0, 0), (20, 0, 0)]);
    assert_eq!(data[0].atlas_width, 2);
    assert_eq!(data[0].atlas_height, 1);
    assert_eq!(data[0].metallic_roughness, vec![(0, 10), (2, 12)]);
    assert_eq!(data[0].transmission, vec![20, 22]);
    assert_eq!(data[0].ior, 1.5f64.to_bits());
    assert_eq!(data[1].atlas_width, 2);
    assert_eq!(data[1].ior, 1.33f64.to_bits());
    assert_eq!(data[1].transmission, vec![21, 23]);
}
