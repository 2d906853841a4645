use voxels::container::{read_glb_container, write_glb_container, GlbError};
use voxels::writer::BinWriter;

fn le32(bytes: &[u8]) -> u32 {
    u32::from_le_bytes(bytes.try_into().unwrap())
}

#[test]
fn container_frames_json_and_bin_chunks_with_padding() {
    let json = b"{}";
    let bin = &[1u8, 2, 3][..];
    let out = write_glb_container(json, bin);

    assert_eq!(&out[0..4], b"glTF");
    assert_eq!(le32(&out[4..8]), 2);
    let total_len = le32(&out[8..12]);
    assert_eq!(total_len as usize, out.len());

    let json_chunk_len = le32(&out[12..16]);
    assert_eq!(json_chunk_len, 4);
    assert_eq!(&out[16..20], b"JSON");
    assert_eq!(&out[20..24], b"{}  ");

    let bin_chunk_len = le32(&out[24..28]);
    assert_eq!(bin_chunk_len, 4);
    assert_eq!(&out[28..32], b"BIN\0");
    assert_eq!(&out[32..36], &[1, 2, 3, 0]);
}

#[test]
fn container_omits_bin_chunk_when_empty() {
    let out = write_glb_container(b"{}", &[]);
    assert_eq!(out.len(), 12 + 8 + 4);
    let total_len = le32(&out[8..12]);
    assert_eq!(total_len as usize, out.len());
}

#[test]
fn bin_writer_aligns_views_to_four_bytes() {
    let mut writer = BinWriter::new();
    writer.push_view(&[1, 2, 3], None);
    let second = writer.push_view(&[4, 5], None);
    assert_eq!(writer.buffer_views[second as usize].byte_offset, 4);
}

#[test]
fn read_glb_container_is_the_inverse_of_write_glb_container() {
    let json = b"{}  ";
    let bin = &[1u8, 2, 3, 4][..];
    let out = write_glb_container(json, bin);

    let (parsed_json, parsed_bin) = read_glb_container(&out).unwrap();
    assert_eq!(parsed_json, json);
    assert_eq!(parsed_bin, bin);
}

#[test]
fn read_glb_container_includes_padding_bytes_verbatim() {
    let out = write_glb_container(b"{}", &[1, 2, 3]);
    let (json, bin) = read_glb_container(&out).unwrap();
    assert_eq!(json, b"{}  ");
    assert_eq!(bin, &[1, 2, 3, 0]);
}

#[test]
fn read_glb_container_omits_bin_when_absent() {
    let out = write_glb_container(b"{}", &[]);
    let (json, bin) = read_glb_container(&out).unwrap();
    assert_eq!(json, b"{}  ");
    assert!(bin.is_empty());
}

#[test]
fn read_glb_container_rejects_bad_magic() {
    let err = read_glb_container(b"NOPE totally not a glb file").unwrap_err().message();
    assert!(err.contains("magic"));
}

#[test]
fn read_glb_container_rejects_wrong_version() {
    let mut out = write_glb_container(b"{}", &[]);
    out[4..8].copy_from_slice(&99u32.to_le_bytes());
    let err = read_glb_container(&out).unwrap_err().message();
    assert!(err.contains("version"));
}

#[test]
fn read_glb_container_rejects_truncated_file() {
    let out = write_glb_container(b"{}", &[1, 2, 3, 4]);
    let err = read_glb_container(&out[..out.len() - 2]).unwrap_err().message();
    assert!(err.contains("length"));
}

#[test]
fn read_glb_container_rejects_short_input_with_its_length() {
    let err = read_glb_container(b"glTF").unwrap_err();
    assert_eq!(err, GlbError::TooShort { len: 4 });
    assert_eq!(err.message(), "not a GLB file: shorter than the 12-byte header");
}

#[test]
fn read_glb_container_reports_the_declared_and_actual_lengths() {
    let out = write_glb_container(b"{}", &[1, 2, 3, 4]);
    let err = read_glb_container(&out[..out.len() - 2]).unwrap_err();
    assert_eq!(err, GlbError::LengthMismatch { declared: 36, actual: 34 });
    assert_eq!(
        err.message(),
        "GLB header declares a total length of 36 bytes, but the file is 34 bytes"
    );
}

#[test]
fn read_glb_container_rejects_a_wrong_first_chunk_type() {
    let mut out = write_glb_container(b"{}", &[]);
    out[16..20].copy_from_slice(b"BIN\0");
    let err = read_glb_container(&out).unwrap_err();
    assert!(matches!(err, GlbError::UnexpectedChunkType { .. }));
    assert_eq!(err.message(), "expected a \"JSON\" chunk, found \"BIN\\0\"");
}

#[test]
fn a_wrong_second_chunk_type_is_shown_as_text() {
    let mut out = write_glb_container(b"{}", &[7, 7, 7, 7]);
    out[28..32].copy_from_slice(b"JSON");
    let err = read_glb_container(&out).unwrap_err();
    assert_eq!(err.message(), "expected a \"BIN\\0\" chunk, found \"JSON\"");
}

#[test]
fn chunk_type_bytes_that_are_not_text_are_shown_escaped() {
    let mut out = write_glb_container(b"{}", &[]);
    out[16..20].copy_from_slice(&[0xff, b'a', 0x01, b'"']);
    let err = read_glb_container(&out).unwrap_err();
    assert_eq!(err.message(), "expected a \"JSON\" chunk, found \"\u{fffd}a\\u{1}\\\"\"");
}

#[test]
fn read_glb_container_rejects_a_chunk_longer_than_the_file() {
    let mut out = write_glb_container(b"{}", &[]);
    out[12..16].copy_from_slice(&100u32.to_le_bytes());
    let err = read_glb_container(&out).unwrap_err();
    assert_eq!(err, GlbError::ChunkTooLong);
}

#[test]
fn write_then_read_gives_back_the_padded_chunks() {
    let json = b"{\"asset\":{}}";
    let bin: Vec<u8> = (0u8..10).collect();
    let out = write_glb_container(json, &bin);
    let (j, b) = read_glb_container(&out).unwrap();
    assert_eq!(j, &b"{\"asset\":{}}"[..]);
    let mut padded = bin.clone();
    padded.extend_from_slice(&[0, 0]);
    assert_eq!(b, &padded[..]);
}
