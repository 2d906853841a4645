use voxels::animation::{parse_channel_path, TrsPath};
use voxels::reader::{accessor_kind_name, accessor_words, parse_accessor_kind, AccessorError};
use voxels::gltf::{COMPONENT_TYPE_FLOAT, COMPONENT_TYPE_UNSIGNED_INT};
use voxels::angles::{split_fields, CameraAngle, CameraAngleError};
use voxels::anim::{interpolation_name, parse_interpolation, Channel, ChannelError, Interpolation};
use voxels::animation::{build_animation, NodeTracks, TrackData};
use voxels::gltf::{Asset, BufferView, Image, Texture as TextureRef, FILTER_NEAREST, TARGET_ELEMENT_ARRAY_BUFFER};
use voxels::materials::{build_material, extension_names, push_texture, ExtensionsUsed, MaterialData, MaterialRecord, TextureTables};
use voxels::palette::Color;
use voxels::png_io::{encode_png, DecodedPng, PngColorType, PngFailure};
use voxels::text::{output_filename, RenderOutput};
use voxels::texture::{
    decode_material_textures, decode_texture, texture_from_decoded, MaterialError, MaterialTextures, TextureError,
};
use voxels::writer::{flatten_le, AccessorKind, BinWriter};

fn empty_tables() -> TextureTables {
    TextureTables { samplers: Vec::new(), images: Vec::new(), textures: Vec::new() }
}

fn one_image_document(png: &[u8]) -> (Vec<TextureRef>, Vec<Image>, Vec<BufferView>) {
    let views = vec![BufferView { buffer: 0, byte_offset: 0, byte_length: png.len() as u32, target: None }];
    let images = vec![Image { mime_type: "image/png".to_string(), buffer_view: 0 }];
    let textures = vec![TextureRef { sampler: 0, source: 0 }];
    (textures, images, views)
}

#[test]
fn decode_then_sample_round_trips_through_encode_png() {
    let pixels = [255, 0, 0, 0, 0, 255];
    let png_bytes = encode_png(2, 1, &pixels, PngColorType::Rgb);
    let (textures, images, views) = one_image_document(&png_bytes);

    let texture = decode_texture(&textures, &images, &views, &png_bytes, 0).unwrap();
    assert_eq!((texture.width, texture.height, texture.components), (2, 1, 3));
    assert!(texture.is_well_formed());
    let sample = |u: f32, v: f32| {
        let x = (u * texture.width as f32) as i64;
        let y = (v * texture.height as f32) as i64;
        texture.texel_clamped(x, y).to_vec()
    };
    assert_eq!(sample(0.1, 0.5), vec![255, 0, 0]);
    assert_eq!(sample(0.9, 0.5), vec![0, 0, 255]);
    assert_eq!(texture.texel_clamped(-4, 9), &[255, 0, 0]);
    assert_eq!(texture.texel_clamped(7, 0), &[0, 0, 255]);
}

#[test]
fn rejects_invalid_png_data_without_panicking() {
    let bin = b"nope";
    let (textures, images, views) = one_image_document(bin);
    let err = decode_texture(&textures, &images, &views, bin, 0).unwrap_err();
    assert!(err.message().contains("invalid PNG"));
}

#[test]
fn decode_texture_reports_bad_references() {
    let bin = b"nope";
    let (textures, images, views) = one_image_document(bin);
    let err = decode_texture(&textures, &images, &views, bin, 3).unwrap_err();
    assert_eq!(err, TextureError::TextureOutOfRange { index: 3 });
    assert_eq!(err.message(), "texture index 3 is out of range");
    let long_view = vec![BufferView { buffer: 0, byte_offset: 2, byte_length: 4, target: None }];
    let err = decode_texture(&textures, &images, &long_view, bin, 0).unwrap_err();
    assert_eq!(err, TextureError::ViewOutOfBounds);
}

#[test]
fn png_encoding_round_trips_grayscale() {
    let pixels = [0u8, 50, 100, 150, 200, 250];
    let png = encode_png(3, 2, &pixels, PngColorType::Grayscale);
    assert_ne!(png, pixels.to_vec());
    let (textures, images, views) = one_image_document(&png);
    let texture = decode_texture(&textures, &images, &views, &png, 0).unwrap();
    assert_eq!((texture.width, texture.height, texture.components), (3, 2, 1));
    assert_eq!(texture.pixels, pixels.to_vec());
    assert_eq!(texture.texel_clamped(2, 1), &[250]);
}

#[test]
fn material_textures_decode_in_order_and_report_missing_ones() {
    let red = encode_png(1, 1, &[255, 0, 0], PngColorType::Rgb);
    let mut bin = red.clone();
    while bin.len() % 4 != 0 {
        bin.push(0);
    }
    let gray_offset = bin.len();
    let gray = encode_png(1, 1, &[7], PngColorType::Grayscale);
    bin.extend_from_slice(&gray);
    let views = vec![
        BufferView { buffer: 0, byte_offset: 0, byte_length: red.len() as u32, target: None },
        BufferView { buffer: 0, byte_offset: gray_offset as u32, byte_length: gray.len() as u32, target: None },
    ];
    let images = vec![
        Image { mime_type: "image/png".to_string(), buffer_view: 0 },
        Image { mime_type: "image/png".to_string(), buffer_view: 1 },
    ];
    let textures = vec![TextureRef { sampler: 0, source: 0 }, TextureRef { sampler: 0, source: 1 }];
    let materials = vec![
        MaterialTextures { base_color: Some(0), metallic_roughness: Some(0), transmission: Some(1) },
        MaterialTextures { base_color: None, metallic_roughness: Some(0), transmission: None },
        MaterialTextures { base_color: Some(0), metallic_roughness: None, transmission: None },
    ];
    let d = decode_material_textures(&materials, &textures, &images, &views, &bin, 0).unwrap();
    assert_eq!(d.base_color.texel_clamped(0, 0), &[255, 0, 0]);
    assert_eq!(d.transmission.as_ref().unwrap().components, 1);
    assert_eq!(d.transmission.as_ref().unwrap().texel_clamped(0, 0), &[7]);
    assert_eq!(
        decode_material_textures(&materials, &textures, &images, &views, &bin, 1).unwrap_err(),
        MaterialError::NoBaseColor
    );
    let err = decode_material_textures(&materials, &textures, &images, &views, &bin, 2).unwrap_err();
    assert_eq!(err, MaterialError::NoMetallicRoughness);
    assert_eq!(err.message(), "material has no metallic-roughness texture");
    let err = decode_material_textures(&materials, &textures, &images, &views, &bin, 9).unwrap_err();
    assert_eq!(err.message(), "material index 9 is out of range");
}

#[test]
fn flatten_le_produces_little_endian_bytes() {
    let words = vec![1.0f32.to_bits(), 2.0f32.to_bits()];
    let bytes = flatten_le(&words);
    assert_eq!(bytes, [1.0f32.to_le_bytes(), 2.0f32.to_le_bytes()].concat());
}

#[test]
fn write_indices_records_an_element_array_accessor() {
    let mut writer = BinWriter::new();
    writer.push_view(&[9], None);
    let a = writer.write_indices(&vec![0, 1, 2]);
    assert_eq!(a, 0);
    assert_eq!(writer.bytes.len(), 4 + 12);
    assert_eq!(&writer.bytes[4..8], &[0, 0, 0, 0]);
    assert_eq!(&writer.bytes[8..12], &[1, 0, 0, 0]);
    let view = writer.buffer_views[1];
    assert_eq!((view.byte_offset, view.byte_length, view.target), (4, 12, Some(TARGET_ELEMENT_ARRAY_BUFFER)));
    let acc = &writer.accessors[0];
    assert_eq!((acc.buffer_view, acc.count, acc.kind), (1, 3, AccessorKind::Scalar));
}

#[test]
fn push_texture_adds_the_sampler_once() {
    let mut tables = empty_tables();
    let mut writer = BinWriter::new();
    let t0 = push_texture(&mut tables, &mut writer, vec![1, 2, 3]);
    let t1 = push_texture(&mut tables, &mut writer, vec![4, 5]);
    assert_eq!((t0, t1), (0, 1));
    assert_eq!(tables.samplers.len(), 1);
    assert_eq!(tables.samplers[0].mag_filter, FILTER_NEAREST);
    assert_eq!(tables.images.len(), 2);
    assert_eq!(tables.images[1].buffer_view, 1);
    assert_eq!(tables.images[1].mime_type, "image/png");
    assert_eq!(tables.textures[1].source, 1);
    assert_eq!(writer.buffer_views[1].byte_offset, 4);
}

fn material_data(ior: f64, emissive: f64, transmission: u8) -> MaterialData {
    MaterialData {
        ior: ior.to_bits(),
        emissive: emissive.to_bits(),
        volume: None,
        atlas_width: 2,
        atlas_height: 1,
        base_color: vec![Color::new(10, 20, 30), Color::new(40, 50, 60)],
        metallic_roughness: vec![(255, 0), (128, 255)],
        transmission: vec![0, transmission],
    }
}

#[test]
fn build_material_writes_textures_and_the_extensions_it_needs() {
    let mut tables = empty_tables();
    let mut materials: Vec<MaterialRecord> = Vec::new();
    let mut writer = BinWriter::new();
    let mut used = ExtensionsUsed { emissive_strength: false, ior: false, transmission: false, volume: false };

    let plain = build_material(&material_data(1.5, 0.0, 0), &mut tables, &mut materials, &mut writer, &mut used);
    assert_eq!(plain, 0);
    assert_eq!(tables.textures.len(), 2);
    let r = &materials[0];
    assert_eq!((r.base_color_texture, r.metallic_roughness_texture), (0, 1));
    assert_eq!((r.ior, r.transmission_texture, r.emissive_strength, r.emissive_texture), (None, None, None, None));
    assert_eq!(used, ExtensionsUsed { emissive_strength: false, ior: false, transmission: false, volume: false });

    let glass = build_material(&material_data(1.33, 2.0, 128), &mut tables, &mut materials, &mut writer, &mut used);
    assert_eq!(glass, 1);
    assert_eq!(tables.textures.len(), 5);
    let r = &materials[1];
    assert_eq!(r.ior, Some(1.33f64.to_bits()));
    assert_eq!(r.transmission_texture, Some(4));
    assert_eq!(r.emissive_strength, Some(2.0f64.to_bits()));
    assert_eq!(r.emissive_texture, Some(2));
    assert_eq!(used, ExtensionsUsed { emissive_strength: true, ior: true, transmission: true, volume: false });
    assert_eq!(tables.samplers.len(), 1);
}

fn track(times: &[f32], values: &[f32], interpolation: Option<Interpolation>) -> TrackData {
    let time_min = times.iter().copied().fold(f32::INFINITY, f32::min);
    let time_max = times.iter().copied().fold(f32::NEG_INFINITY, f32::max);
    TrackData {
        times: times.iter().map(|t| t.to_bits()).collect(),
        time_min: time_min.to_bits(),
        time_max: time_max.to_bits(),
        values: values.iter().map(|v| v.to_bits()).collect(),
        count: (values.len() / 3) as u32,
        interpolation,
    }
}

#[test]
fn build_animation_orders_channels_by_node_and_skips_empty_tracks() {
    let tracks = vec![
        NodeTracks {
            node: 5,
            translation: Some(track(&[0.0, 1.0], &[0.0, 0.0, 0.0, 1.0, 2.0, 3.0], None)),
            rotation: None,
            scale: Some(track(&[], &[], None)),
        },
        NodeTracks {
            node: 2,
            translation: None,
            rotation: Some(track(&[0.0, 4.0], &[0.0; 8], Some(Interpolation::Step))),
            scale: Some(track(&[2.0], &[1.0, 1.0, 1.0], Some(Interpolation::CubicSpline))),
        },
    ];
    let mut writer = BinWriter::new();
    let anim = build_animation("spin".to_string(), None, &tracks, &mut writer);
    assert_eq!(anim.name.as_deref(), Some("spin"));
    let targets: Vec<(u32, String, u32)> =
        anim.channels.iter().map(|c| (c.target.node, c.target.path.clone(), c.sampler)).collect();
    assert_eq!(
        targets,
        vec![(2, "rotation".to_string(), 0), (2, "scale".to_string(), 1), (5, "translation".to_string(), 2)]
    );
    let samplers: Vec<(u32, u32, Option<String>)> =
        anim.samplers.iter().map(|s| (s.input, s.output, s.interpolation.clone())).collect();
    assert_eq!(
        samplers,
        vec![
            (0, 1, Some("STEP".to_string())),
            (2, 3, Some("CUBICSPLINE".to_string())),
            (4, 5, None),
        ]
    );
    assert_eq!(writer.accessors.len(), 6);
    assert_eq!(writer.accessors[0].kind, AccessorKind::Scalar);
    assert_eq!(writer.accessors[0].min.as_ref().unwrap(), &vec![0.0f32.to_bits()]);
    assert_eq!(writer.accessors[0].max.as_ref().unwrap(), &vec![4.0f32.to_bits()]);
    assert_eq!(writer.accessors[1].kind, AccessorKind::Vec4);
    assert_eq!(writer.accessors[3].kind, AccessorKind::Vec3);
    assert_eq!(writer.accessors[5].count, 2);
}

#[test]
fn channels_check_times_and_output_lengths() {
    let ok = Channel::new(vec![0.0f64.to_bits(), 1.0f64.to_bits()], vec![1, 2], None).unwrap();
    assert_eq!(ok.output, vec![1, 2]);
    assert_eq!(
        Channel::new(vec![f64::NAN.to_bits()], vec![1], None).err(),
        Some(ChannelError::NonFiniteTime)
    );
    assert_eq!(Channel::new(vec![0.0f64.to_bits()], vec![1, 2], None).err(), Some(ChannelError::Length));
    assert_eq!(
        Channel::new(vec![0.0f64.to_bits()], vec![1], Some(Interpolation::CubicSpline)).err(),
        Some(ChannelError::CubicSplineLength)
    );
    assert!(Channel::new(vec![0.0f64.to_bits()], vec![1, 2, 3], Some(Interpolation::CubicSpline)).is_ok());
}

#[test]
fn interpolation_names_round_trip() {
    for i in [Interpolation::Linear, Interpolation::Step, Interpolation::CubicSpline] {
        let name = interpolation_name(Some(i));
        assert_eq!(parse_interpolation(name.as_deref()), i);
    }
    assert_eq!(interpolation_name(None), None);
    assert_eq!(parse_interpolation(Some("weird")), Interpolation::Linear);
    assert_eq!(parse_interpolation(Some("STEP")), Interpolation::Step);
}

#[test]
fn output_filenames_are_row_major_times_outer_angles_inner() {
    assert_eq!(output_filename(0, 0), "t0_a0.png");
    assert_eq!(output_filename(0, 1), "t0_a1.png");
    assert_eq!(output_filename(1, 0), "t1_a0.png");
    assert_eq!(output_filename(12, 305), "t12_a305.png");
    assert_eq!(output_filename(1234567890, 7), "t1234567890_a7.png");
}

#[test]
fn render_output_prints_one_path_per_line() {
    let out = RenderOutput { files: vec!["a.png".to_string(), "b/c.png".to_string()] };
    assert_eq!(out.__str__(), "a.png\nb/c.png");
    assert_eq!(RenderOutput { files: Vec::new() }.__str__(), "");
}

#[test]
fn camera_angles_must_be_finite() {
    let a = CameraAngle::new(45.0f64.to_bits(), 25.0f64.to_bits(), None).unwrap();
    assert_eq!(a.yaw, 45.0f64.to_bits());
    assert_eq!(CameraAngle::new(f64::NAN.to_bits(), 0, None), Err(CameraAngleError::Yaw));
    assert_eq!(CameraAngle::new(0, f64::INFINITY.to_bits(), None), Err(CameraAngleError::Pitch));
    assert_eq!(CameraAngle::new(0, 0, Some(f64::NEG_INFINITY.to_bits())), Err(CameraAngleError::Zoom));
    assert_eq!(CameraAngleError::Zoom.message(), "zoom must be finite");
}

#[test]
fn angle_fields_split_at_commas() {
    assert_eq!(split_fields("45,25,1.5"), vec!["45", "25", "1.5"]);
    assert_eq!(split_fields("45"), vec!["45"]);
    assert_eq!(split_fields(""), vec![""]);
    assert_eq!(split_fields(",x,"), vec!["", "x", ""]);
}

#[test]
fn the_asset_names_the_generator() {
    let a = Asset::new();
    assert_eq!(a.version, "2.0");
    assert_eq!(a.generator.as_deref(), Some("voxels"));
}

#[test]
fn extension_names_are_listed_alphabetically() {
    let all = ExtensionsUsed { emissive_strength: true, ior: true, transmission: true, volume: true };
    assert_eq!(
        extension_names(all),
        vec![
            "KHR_materials_emissive_strength",
            "KHR_materials_ior",
            "KHR_materials_transmission",
            "KHR_materials_volume"
        ]
    );
    let some = ExtensionsUsed { emissive_strength: false, ior: true, transmission: false, volume: true };
    assert_eq!(extension_names(some), vec!["KHR_materials_ior", "KHR_materials_volume"]);
}

#[test]
fn channel_paths_read_back_as_written() {
    assert_eq!(parse_channel_path("translation"), Some(TrsPath::Translation));
    assert_eq!(parse_channel_path("rotation"), Some(TrsPath::Rotation));
    assert_eq!(parse_channel_path("scale"), Some(TrsPath::Scale));
    assert_eq!(parse_channel_path("weights"), None);
}

#[test]
fn accessor_words_read_what_the_writer_wrote() {
    let mut writer = BinWriter::new();
    writer.push_view(&[7, 7], None);
    let values: Vec<u32> = [1.5f32, -2.0, 3.25, 0.0, 8.0, 9.5].iter().map(|v| v.to_bits()).collect();
    let a = writer.write_float_words(&values, 2, AccessorKind::Vec3, None, None);
    let i = writer.write_indices(&vec![5, 6, 7]);
    let read = accessor_words(&writer.accessors, &writer.buffer_views, &writer.bytes, a, AccessorKind::Vec3, COMPONENT_TYPE_FLOAT)
        .unwrap();
    assert_eq!(read, values);
    let idx = accessor_words(&writer.accessors, &writer.buffer_views, &writer.bytes, i, AccessorKind::Scalar, COMPONENT_TYPE_UNSIGNED_INT)
        .unwrap();
    assert_eq!(idx, vec![5, 6, 7]);
    assert_eq!(
        accessor_words(&writer.accessors, &writer.buffer_views, &writer.bytes, a, AccessorKind::Vec2, COMPONENT_TYPE_FLOAT),
        Err(AccessorError::WrongKind { expected: AccessorKind::Vec2, found: AccessorKind::Vec3 })
    );
    assert_eq!(
        accessor_words(&writer.accessors, &writer.buffer_views, &writer.bytes, 9, AccessorKind::Vec3, COMPONENT_TYPE_FLOAT),
        Err(AccessorError::AccessorOutOfRange { index: 9 })
    );
    assert_eq!(
        accessor_words(&writer.accessors, &writer.buffer_views, &writer.bytes[..20], a, AccessorKind::Vec3, COMPONENT_TYPE_FLOAT),
        Err(AccessorError::OutOfBounds)
    );
    assert_eq!(parse_accessor_kind("VEC4"), Some(AccessorKind::Vec4));
    assert_eq!(parse_accessor_kind("MAT4"), None);
    assert_eq!(accessor_kind_name(AccessorKind::Scalar), "SCALAR");
}

#[test]
fn decoded_images_become_textures_cut_to_their_pixels() {
    let decoded = DecodedPng { width: 2, height: 1, color: PngColorType::Rgba, pixels: vec![1, 2, 3, 4, 5, 6, 7, 8, 0, 0] };
    let t = texture_from_decoded(Ok(decoded)).unwrap();
    assert_eq!(t.components, 4);
    assert_eq!(t.pixels, vec![1, 2, 3, 4, 5, 6, 7, 8]);
    let short = DecodedPng { width: 4, height: 4, color: PngColorType::Grayscale, pixels: vec![9; 3] };
    let t = texture_from_decoded(Ok(short)).unwrap();
    assert_eq!(t.pixels, vec![9; 3]);
    assert!(!t.is_well_formed());
    let indexed = DecodedPng { width: 1, height: 1, color: PngColorType::Indexed, pixels: vec![0] };
    let err = texture_from_decoded(Ok(indexed)).unwrap_err();
    assert_eq!(err, TextureError::UnsupportedColor(PngColorType::Indexed));
    assert_eq!(err.message(), "unsupported PNG color type Indexed");
    let err = texture_from_decoded(Err(PngFailure::DecodeFailed)).unwrap_err();
    assert_eq!(err.message(), "failed to decode PNG image");
}
