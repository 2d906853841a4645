use voxels::math::Int3;
use voxels::model::{box_positions, DimensionError, Dimensions, Model, ModelError, Pivot, PivotChoice};
use voxels::palette::{Color, Material, MaterialCode, MaterialRef, Palette, PaletteError, PaletteId, Volume};

fn plain(rgb: (u8, u8, u8)) -> Material {
    Material {
        color: Color::new(rgb.0, rgb.1, rgb.2),
        roughness: 0.5f64.to_bits(),
        metallic: 0.0f64.to_bits(),
        ior: 1.5f64.to_bits(),
        transmission: 0.0f64.to_bits(),
        emissive: 0.0f64.to_bits(),
        volume: None,
    }
}

fn setup(id: u64) -> (Palette, MaterialRef, MaterialRef) {
    let mut palette = Palette::new(PaletteId { id });
    let a = palette.add_material(plain((200, 10, 10))).unwrap();
    let b = palette.add_material(plain((10, 200, 10))).unwrap();
    (palette, a, b)
}

fn model(palette: &Palette, x: usize, y: usize, z: usize) -> Model {
    Model::new(Dimensions::new(x, y, z).unwrap(), palette.id, PivotChoice::Preset(Pivot::BottomCenter))
}

#[test]
fn dimensions_accept_one_to_256_per_axis() {
    assert!(Dimensions::new(1, 256, 16).is_ok());
    assert_eq!(Dimensions::new(0, 4, 4), Err(DimensionError::X));
    assert_eq!(Dimensions::new(4, 257, 4), Err(DimensionError::Y));
    assert_eq!(Dimensions::new(4, 4, 0), Err(DimensionError::Z));
    let d = Dimensions::new(3, 4, 5).unwrap();
    assert_eq!(d.last_index(), Int3::new(2, 3, 4));
    assert!(d.contains(Int3::new(2, 3, 4)));
    assert!(!d.contains(Int3::new(3, 0, 0)));
}

#[test]
fn put_then_get_reads_back_the_material() {
    let (palette, a, b) = setup(7);
    let mut m = model(&palette, 4, 4, 4);
    m.put(Some(a), Int3::new(1, 2, 3)).unwrap();
    m.put(Some(b), Int3::new(0, 0, 0)).unwrap();
    assert_eq!(m.get(Int3::new(1, 2, 3)), Some(a.code));
    assert_eq!(m.get(Int3::new(0, 0, 0)), Some(b.code));
    assert_eq!(m.get(Int3::new(3, 3, 3)), None);
    m.put(None, Int3::new(1, 2, 3)).unwrap();
    assert_eq!(m.get(Int3::new(1, 2, 3)), None);
}

#[test]
fn put_refuses_positions_outside_and_foreign_materials() {
    let (palette, a, _) = setup(7);
    let (_, foreign, _) = setup(8);
    let mut m = model(&palette, 2, 2, 2);
    assert_eq!(m.put(Some(a), Int3::new(2, 0, 0)), Err(ModelError::OutOfBounds { pos: Int3::new(2, 0, 0) }));
    assert_eq!(m.put(Some(foreign), Int3::new(0, 0, 0)), Err(ModelError::ForeignMaterial));
    assert_eq!(m.get(Int3::new(0, 0, 0)), None);
}

#[test]
fn aabb_fills_the_box_between_two_corners_in_any_order() {
    let (palette, a, _) = setup(1);
    let mut m = model(&palette, 4, 4, 4);
    m.aabb(Some(a), Int3::new(2, 2, 1), Int3::new(1, 1, 2)).unwrap();
    let mut filled = 0;
    for p in box_positions(Int3::new(0, 0, 0), Int3::new(3, 3, 3)) {
        if m.get(p).is_some() {
            filled += 1;
            assert!((1..=2).contains(&p.x) && (1..=2).contains(&p.y) && (1..=2).contains(&p.z));
        }
    }
    assert_eq!(filled, 8);
    assert_eq!(
        m.aabb(Some(a), Int3::new(0, 0, 0), Int3::new(4, 0, 0)),
        Err(ModelError::OutOfBounds { pos: Int3::new(4, 0, 0) })
    );
}

#[test]
fn flipping_twice_restores_the_model() {
    let (palette, a, b) = setup(1);
    let mut m = model(&palette, 3, 2, 2);
    m.put(Some(a), Int3::new(0, 0, 0)).unwrap();
    m.put(Some(b), Int3::new(1, 1, 1)).unwrap();
    let before = m.copy();
    m.flip_x();
    assert_eq!(m.get(Int3::new(2, 0, 0)), Some(a.code));
    assert_eq!(m.get(Int3::new(0, 0, 0)), None);
    assert_eq!(m.get(Int3::new(1, 1, 1)), Some(b.code));
    m.flip_x();
    assert_eq!(m.data, before.data);
    m.flip_y();
    assert_eq!(m.get(Int3::new(0, 1, 0)), Some(a.code));
    m.flip_y();
    m.flip_z();
    assert_eq!(m.get(Int3::new(0, 0, 1)), Some(a.code));
    m.flip_z();
    assert_eq!(m.data, before.data);
}

#[test]
fn clip_copies_the_box_into_a_new_model() {
    let (palette, a, b) = setup(1);
    let mut m = model(&palette, 4, 4, 4);
    m.put(Some(a), Int3::new(1, 1, 1)).unwrap();
    m.put(Some(b), Int3::new(2, 3, 1)).unwrap();
    let c = m.clip(Int3::new(2, 3, 2), Int3::new(1, 1, 1)).unwrap();
    assert_eq!((c.dims.x, c.dims.y, c.dims.z), (2, 3, 2));
    assert_eq!(c.get(Int3::new(0, 0, 0)), Some(a.code));
    assert_eq!(c.get(Int3::new(1, 2, 0)), Some(b.code));
    assert_eq!(c.get(Int3::new(1, 2, 1)), None);
    assert!(m.clip(Int3::new(0, 0, 0), Int3::new(0, 4, 0)).is_err());
}

#[test]
fn embed_copies_filled_voxels_only() {
    let (palette, a, b) = setup(1);
    let mut m = model(&palette, 4, 4, 4);
    m.put(Some(b), Int3::new(1, 1, 1)).unwrap();
    m.put(Some(b), Int3::new(2, 1, 1)).unwrap();
    let mut piece = model(&palette, 2, 1, 1);
    piece.put(Some(a), Int3::new(1, 0, 0)).unwrap();
    m.embed(&piece, Int3::new(1, 1, 1)).unwrap();
    assert_eq!(m.get(Int3::new(1, 1, 1)), Some(b.code));
    assert_eq!(m.get(Int3::new(2, 1, 1)), Some(a.code));
    assert!(m.embed(&piece, Int3::new(3, 0, 0)).is_err());
    let (other_palette, _, _) = setup(2);
    let foreign = model(&other_palette, 1, 1, 1);
    assert_eq!(m.embed(&foreign, Int3::new(0, 0, 0)), Err(ModelError::DifferentPalettes));
}

#[test]
fn fill_ellipsoid_sets_the_voxels_the_test_accepts() {
    let (palette, a, _) = setup(1);
    let mut m = model(&palette, 5, 5, 5);
    let center = Int3::new(2, 2, 2);
    let radii = Int3::new(1, 1, 1);
    m.fill_ellipsoid(Some(a), center, radii, |p: Int3| p.x == 2 && p.y == 2).unwrap();
    assert_eq!(m.get(Int3::new(2, 2, 1)), Some(a.code));
    assert_eq!(m.get(Int3::new(2, 2, 3)), Some(a.code));
    assert_eq!(m.get(Int3::new(2, 2, 4)), None);
    assert_eq!(m.get(Int3::new(1, 2, 2)), None);
    assert_eq!(
        m.fill_ellipsoid(Some(a), center, Int3::new(0, 1, 1), |_| true),
        Err(ModelError::ZeroRadius)
    );
}

#[test]
fn box_positions_lists_points_by_z_then_y_then_x() {
    let ps = box_positions(Int3::new(1, 1, 0), Int3::new(0, 0, 1));
    let found: Vec<(usize, usize, usize)> = ps.iter().map(|p| (p.x, p.y, p.z)).collect();
    assert_eq!(
        found,
        vec![(0, 0, 0), (1, 0, 0), (0, 1, 0), (1, 1, 0), (0, 0, 1), (1, 0, 1), (0, 1, 1), (1, 1, 1)]
    );
}

#[test]
fn palette_checks_material_properties_in_order() {
    let mut palette = Palette::new(PaletteId { id: 3 });
    let mut bad = plain((1, 1, 1));
    bad.roughness = 1.5f64.to_bits();
    assert_eq!(palette.add_material(bad), Err(PaletteError::Roughness));
    let mut bad = plain((1, 1, 1));
    bad.metallic = (-0.1f64).to_bits();
    assert_eq!(palette.add_material(bad), Err(PaletteError::Metallic));
    let mut bad = plain((1, 1, 1));
    bad.transmission = f64::NAN.to_bits();
    assert_eq!(palette.add_material(bad), Err(PaletteError::Transmission));
    let mut bad = plain((1, 1, 1));
    bad.ior = 0.5f64.to_bits();
    assert_eq!(palette.add_material(bad), Err(PaletteError::Ior));
    let mut ok = plain((1, 1, 1));
    ok.ior = 0.0f64.to_bits();
    assert!(palette.add_material(ok).is_ok());
    let mut bad = plain((1, 1, 1));
    bad.emissive = f64::INFINITY.to_bits();
    assert_eq!(palette.add_material(bad), Err(PaletteError::Emissive));
    assert_eq!(palette.len(), 1);
}

#[test]
fn palette_holds_at_most_255_materials() {
    let mut palette = Palette::new(PaletteId { id: 3 });
    for i in 0..255 {
        let r = palette.add_material(plain((i as u8, 0, 0))).unwrap();
        assert_eq!(r.code.index(), i);
        assert_eq!(r.code.code() as usize, i + 1);
    }
    assert_eq!(palette.add_material(plain((0, 0, 0))), Err(PaletteError::Full));
}

#[test]
fn material_codes_are_equal_exactly_when_indices_are() {
    assert_eq!(MaterialCode::new(7), MaterialCode::new(7));
    assert_ne!(MaterialCode::new(7), MaterialCode::new(8));
    assert_eq!(MaterialCode::new(254).code(), 255);
}

#[test]
fn codes_follow_the_accepted_calls_in_order() {
    let mut palette = Palette::new(PaletteId { id: 5 });
    let mut bad = plain((9, 9, 9));
    bad.metallic = 1.5f64.to_bits();
    let a = palette.add_material(plain((1, 0, 0))).unwrap();
    assert_eq!(palette.add_material(bad), Err(PaletteError::Metallic));
    let b = palette.add_material(plain((2, 0, 0))).unwrap();
    assert_eq!((a.code.index(), b.code.index()), (0, 1));
    assert_eq!(palette.materials[b.code.index()].color, Color::new(2, 0, 0));
    for i in 2..255 {
        palette.add_material(plain((i as u8, 1, 1))).unwrap();
    }
    let before = palette.materials.clone();
    assert_eq!(palette.add_material(plain((0, 0, 0))), Err(PaletteError::Full));
    assert_eq!(palette.add_material(bad), Err(PaletteError::Metallic));
    assert_eq!(palette.materials, before);
}

#[test]
fn an_overfull_palette_refuses_more_materials() {
    let mut palette = Palette::new(PaletteId { id: 4 });
    for i in 0..300 {
        palette.materials.push(plain((i as u8, 0, 0)));
    }
    assert_eq!(palette.add_material(plain((0, 0, 0))), Err(PaletteError::Full));
    assert_eq!(palette.len(), 300);
    let mut bad = plain((0, 0, 0));
    bad.roughness = 2.0f64.to_bits();
    assert_eq!(palette.add_material(bad), Err(PaletteError::Roughness));
}

#[test]
fn volume_needs_finite_positive_distance_and_thickness() {
    let c = Color::new(1, 2, 3);
    assert!(Volume::new(c, 2.5f64.to_bits(), 1.0f64.to_bits()).is_ok());
    assert_eq!(Volume::new(c, 0.0f64.to_bits(), 1.0f64.to_bits()), Err(PaletteError::VolumeDistance));
    assert_eq!(Volume::new(c, 1.0f64.to_bits(), f64::INFINITY.to_bits()), Err(PaletteError::VolumeThickness));
}

#[test]
fn int3_component_wise_operations() {
    let a = Int3::new(1, 5, 3);
    let b = Int3::new(4, 2, 3);
    assert_eq!(a.min(b), Int3::new(1, 2, 3));
    assert_eq!(a.max(b), Int3::new(4, 5, 3));
    assert_eq!(a.saturating_sub(b), Int3::new(0, 3, 0));
    assert!(Int3::new(0, 1, 1).contains_zero());
    assert!(a.any(|v| v == 5));
    assert!(!a.any(|v| v == 9));
}
