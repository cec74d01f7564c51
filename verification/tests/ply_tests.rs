use std::io::Write;

use vivrt::ply::{load_from_bytes, parse_ply, read_ply, PlyError};
use vivrt::ply_header::{is_known_prop_type, parse_prop_type};
use vivrt::scalar::{PropType, Scalar};

fn chars(s: &str) -> Vec<char> {
    s.chars().collect()
}

fn header(lines: &[&str]) -> Vec<u8> {
    let mut v = Vec::new();
    for l in lines {
        v.extend_from_slice(l.as_bytes());
        v.push(b'\n');
    }
    v
}

fn f32s(v: &mut Vec<u8>, xs: &[f32]) {
    for x in xs {
        v.extend_from_slice(&x.to_le_bytes());
    }
}

fn face(v: &mut Vec<u8>, idx: &[i32]) {
    v.push(idx.len() as u8);
    for i in idx {
        v.extend_from_slice(&i.to_le_bytes());
    }
}

fn as_f32(s: &Scalar) -> f32 {
    match *s {
        Scalar::Float(b) => f32::from_bits(b),
        Scalar::Double(b) => f64::from_bits(b) as f32,
        Scalar::Uchar(v) => v as f32,
        Scalar::Int(v) => v as f32,
        Scalar::UInt(v) => v as f32,
        Scalar::Short(v) => v as f32,
        Scalar::UShort(v) => v as f32,
    }
}

fn quad_file() -> Vec<u8> {
    let mut b = header(&[
        "ply",
        "format binary_little_endian 1.0",
        "comment made by hand",
        "element vertex 4",
        "property float x",
        "property float y",
        "property float z",
        "property float nx",
        "property float ny",
        "property float nz",
        "property float u",
        "property float v",
        "element face 1",
        "property list uchar int vertex_indices",
        "end_header",
    ]);
    for k in 0..4 {
        let k = k as f32;
        f32s(&mut b, &[k, k + 0.5, -k, 0.0, 0.0, 1.0, k / 4.0, 1.0 - k / 4.0]);
    }
    face(&mut b, &[0, 1, 2, 3]);
    b
}

#[test]
fn quad_is_fan_triangulated() {
    let m = parse_ply(&quad_file()).unwrap();
    assert_eq!(m.vertices.len(), 12);
    assert_eq!(m.normals.len(), 12);
    assert_eq!(m.texcoords.len(), 8);
    assert_eq!(m.indices, vec![0, 1, 2, 0, 2, 3]);
    let v: Vec<f32> = m.vertices.iter().map(as_f32).collect();
    assert_eq!(&v[3..6], &[1.0, 1.5, -1.0]);
    let t: Vec<f32> = m.texcoords.iter().map(as_f32).collect();
    assert_eq!(&t[2..4], &[0.25, 0.75]);
}

#[test]
fn pentagon_and_degenerate_faces() {
    let mut b = header(&[
        "ply",
        "format binary_little_endian 1.0",
        "element vertex 0",
        "property float x",
        "element face 3",
        "property list uchar int vertex_index",
        "end_header",
    ]);
    face(&mut b, &[5, 6, 7, 8, 9]);
    face(&mut b, &[1, 2]);
    face(&mut b, &[10, 11, 12]);
    let m = parse_ply(&b).unwrap();
    assert_eq!(m.indices, vec![5, 6, 7, 5, 7, 8, 5, 8, 9, 10, 11, 12]);
    assert_eq!(m.indices.len() % 3, 0);
}

#[test]
fn extra_face_props_and_unknown_elements_are_skipped() {
    let mut b = header(&[
        "ply",
        "format binary_little_endian 1.0",
        "obj_info scanned",
        "element vertex 1",
        "property double x",
        "property double y",
        "property double z",
        "property uchar red",
        "property list uchar int junk",
        "element material 2",
        "property ushort id",
        "property list ushort short names",
        "element face 1",
        "property short flags",
        "property list ushort uint vertex_indices",
        "property list uchar float texcoord",
        "end_header",
    ]);
    for d in [1.5f64, -2.0, 3.25] {
        b.extend_from_slice(&d.to_le_bytes());
    }
    b.push(200); // red; the vertex list property is not read
    // material records
    b.extend_from_slice(&7u16.to_le_bytes());
    b.extend_from_slice(&2u16.to_le_bytes());
    b.extend_from_slice(&1i16.to_le_bytes());
    b.extend_from_slice(&2i16.to_le_bytes());
    b.extend_from_slice(&8u16.to_le_bytes());
    b.extend_from_slice(&0u16.to_le_bytes());
    // face: index list first, then the other properties in order
    b.extend_from_slice(&3u16.to_le_bytes());
    for i in [4u32, 5, 6] {
        b.extend_from_slice(&i.to_le_bytes());
    }
    b.extend_from_slice(&(-1i16).to_le_bytes());
    b.push(2);
    f32s(&mut b, &[0.5, 0.25]);
    let m = parse_ply(&b).unwrap();
    let v: Vec<f32> = m.vertices.iter().map(as_f32).collect();
    assert_eq!(v, vec![1.5, -2.0, 3.25]);
    assert_eq!(m.indices, vec![4, 5, 6]);
    assert!(m.normals.is_empty() && m.texcoords.is_empty());
}

#[test]
fn float_counts_and_indices_go_through_f32() {
    let mut b = header(&[
        "ply",
        "format binary_little_endian 1.0",
        "element face 1",
        "property list float int vertex_indices",
        "end_header",
    ]);
    f32s(&mut b, &[3.9]);
    for i in [16_777_217i32, -3, 2_147_483_647] {
        b.extend_from_slice(&i.to_le_bytes());
    }
    let m = parse_ply(&b).unwrap();
    assert_eq!(m.indices, vec![16_777_216, -3, i32::MAX]);
}

#[test]
fn default_index_types_without_index_property() {
    let mut b = header(&[
        "ply",
        "format binary_little_endian 1.0",
        "element face 1",
        "end_header",
    ]);
    face(&mut b, &[1, 2, 3]);
    let m = parse_ply(&b).unwrap();
    assert_eq!(m.indices, vec![1, 2, 3]);
}

#[test]
fn ascii_format_is_rejected() {
    let b = header(&["ply", "format ascii 1.0", "element vertex 1", "end_header"]);
    assert_eq!(parse_ply(&b).unwrap_err(), PlyError::NotBinaryLittleEndian(Some(chars("ascii"))));
    let b = header(&["ply", "format", "end_header"]);
    assert_eq!(parse_ply(&b).unwrap_err(), PlyError::NotBinaryLittleEndian(None));
    let b = header(&["ply", "element vertex 0", "end_header"]);
    assert_eq!(parse_ply(&b).unwrap_err(), PlyError::MissingFormat);
}

#[test]
fn missing_end_header_is_eof() {
    let b = header(&["ply", "format binary_little_endian 1.0", "element vertex 0"]);
    assert!(matches!(parse_ply(&b), Err(PlyError::UnexpectedEof)));
    assert!(matches!(read_ply(&b, true, &mut Vec::new()), Err(PlyError::HeaderReadFailed)));
    assert!(matches!(read_ply(&b, false, &mut Vec::new()), Err(PlyError::UnexpectedEof)));
    assert!(matches!(parse_ply(&[]), Err(PlyError::UnexpectedEof)));
}

#[test]
fn read_error_inside_a_header_line() {
    let b = b"ply\nformat binary_lit".to_vec();
    assert!(matches!(read_ply(&b, true, &mut Vec::new()), Err(PlyError::HeaderReadFailed)));
    assert_eq!(read_ply(&b, false, &mut Vec::new()).unwrap_err(), PlyError::NotBinaryLittleEndian(Some(chars("binary_lit"))));
    let mut full = quad_file();
    assert!(read_ply(&full, true, &mut Vec::new()).is_ok());
    full.truncate(20);
    assert!(matches!(read_ply(&full, true, &mut Vec::new()), Err(PlyError::HeaderReadFailed)));
}

#[test]
fn truncated_body_is_reported() {
    let mut b = quad_file();
    b.pop();
    assert!(matches!(parse_ply(&b), Err(PlyError::Truncated)));
    assert!(matches!(read_ply(&b, true, &mut Vec::new()), Err(PlyError::Truncated)));
}

#[test]
fn invalid_utf8_header_line() {
    let mut b = header(&["ply"]);
    b.extend_from_slice(&[0xff, 0xfe, b'\n']);
    b.extend_from_slice(&header(&["end_header"]));
    assert!(matches!(parse_ply(&b), Err(PlyError::InvalidHeaderText)));
}

#[test]
fn whitespace_and_crlf_in_header() {
    let text = "ply\r\n  format\tbinary_little_endian   1.0 \r\nelement  vertex 1\r\nproperty float x\r\n\r\n   end_header  \r\n";
    let mut b = text.as_bytes().to_vec();
    f32s(&mut b, &[2.5]);
    let m = parse_ply(&b).unwrap();
    assert_eq!(m.vertices, vec![Scalar::Float(2.5f32.to_bits())]);
}

#[test]
fn unicode_whitespace_separates_header_words() {
    let text = "ply\nformat binary_little_endian 1.0\nelement\u{3000}vertex 1\nproperty float\u{a0}x\nend_header\n";
    let mut b = text.as_bytes().to_vec();
    f32s(&mut b, &[9.0]);
    let m = parse_ply(&b).unwrap();
    assert_eq!(m.vertices, vec![Scalar::Float(9.0f32.to_bits())]);
}

#[test]
fn property_before_element_is_ignored_and_bad_count_is_zero() {
    let mut b = header(&[
        "ply",
        "format binary_little_endian 1.0",
        "property float ignored",
        "element vertex many",
        "property float x",
        "element vertex +1",
        "property float x",
        "end_header",
    ]);
    f32s(&mut b, &[7.0]);
    // second element named vertex uses the first one's properties
    let m = parse_ply(&b).unwrap();
    assert_eq!(m.vertices, vec![Scalar::Float(7.0f32.to_bits())]);
}

#[test]
fn trailing_bytes_are_ignored() {
    let mut b = quad_file();
    b.extend_from_slice(&[1, 2, 3, 4, 5]);
    let m = parse_ply(&b).unwrap();
    assert_eq!(m.indices, vec![0, 1, 2, 0, 2, 3]);
}

#[test]
fn huge_declared_counts_are_too_large() {
    let b = header(&[
        "ply",
        "format binary_little_endian 1.0",
        "element vertex 4611686018427387904",
        "end_header",
    ]);
    assert!(matches!(parse_ply(&b), Err(PlyError::TooLarge)));
}

#[test]
fn gzip_data_is_decompressed() {
    let plain = quad_file();
    let mut enc = flate2::write::GzEncoder::new(Vec::new(), flate2::Compression::default());
    enc.write_all(&plain).unwrap();
    let gz = enc.finish().unwrap();
    let m = load_from_bytes(&gz, true, false, &mut Vec::new()).unwrap();
    assert_eq!(m.indices, vec![0, 1, 2, 0, 2, 3]);
    assert_eq!(m.vertices.len(), 12);
    let m2 = load_from_bytes(&plain, false, false, &mut Vec::new()).unwrap();
    assert_eq!(m2.vertices, m.vertices);
    // Data that is not gzip decodes to nothing usable.
    assert!(load_from_bytes(&plain, true, false, &mut Vec::new()).is_err());
    // A cut-off gzip stream fails while reading the header.
    let cut = &gz[..gz.len() / 3];
    let r = load_from_bytes(cut, true, false, &mut Vec::new());
    assert!(matches!(r, Err(PlyError::HeaderReadFailed)) || matches!(r, Err(PlyError::Truncated)), "{:?}", r);
}

#[test]
fn unknown_property_types_are_reported_and_read_as_float() {
    let mut b = header(&[
        "ply",
        "format binary_little_endian 1.0",
        "comment property int8 ignored",
        "element vertex 1",
        "property float x",
        "property char y",
        "property float32 z",
        "element face 1",
        "property list uint8 int64 vertex_indices",
        "end_header",
    ]);
    f32s(&mut b, &[1.0, 2.0, 3.0]);
    b.push(3);
    for i in [0i32, 0, 0] {
        b.extend_from_slice(&i.to_le_bytes());
    }
    let mut warnings = vec![chars("earlier")];
    let m = read_ply(&b, false, &mut warnings).unwrap();
    assert_eq!(warnings, vec![chars("earlier"), chars("char"), chars("int64")]);
    assert_eq!(m.vertices.iter().map(as_f32).collect::<Vec<_>>(), vec![1.0, 2.0, 3.0]);
    assert_eq!(m.indices, vec![0, 0, 0]);
    let mut w2 = Vec::new();
    let _ = load_from_bytes(&b, false, false, &mut w2);
    assert_eq!(w2, vec![chars("char"), chars("int64")]);
}

#[test]
fn comment_lines_change_nothing() {
    let plain = quad_file();
    let m = parse_ply(&plain).unwrap();
    let after_ply = 4;
    for line in ["comment inserted\n", "  obj_info x y z\r\n", "comment\n"] {
        let mut b = plain[..after_ply].to_vec();
        b.extend_from_slice(line.as_bytes());
        b.extend_from_slice(&plain[after_ply..]);
        let m2 = parse_ply(&b).unwrap();
        assert_eq!(m2.vertices, m.vertices);
        assert_eq!(m2.normals, m.normals);
        assert_eq!(m2.texcoords, m.texcoords);
        assert_eq!(m2.indices, m.indices);
    }
    // Where the file is refused, it is refused the same way.
    let bad = header(&["ply", "format ascii 1.0", "end_header"]);
    let mut b = bad[..4].to_vec();
    b.extend_from_slice(b"comment x\n");
    b.extend_from_slice(&bad[4..]);
    assert_eq!(parse_ply(&b).unwrap_err(), parse_ply(&bad).unwrap_err());
}


#[test]
fn other_elements_change_nothing() {
    let plain = quad_file();
    let m = parse_ply(&plain).unwrap();
    let mut b = header(&[
        "ply",
        "format binary_little_endian 1.0",
        "comment made by hand",
        "element vertex 4",
        "property float x",
        "property float y",
        "property float z",
        "property float nx",
        "property float ny",
        "property float nz",
        "property float u",
        "property float v",
        "element material 2",
        "property uchar id",
        "property list uchar ushort layers",
        "element face 1",
        "property list uchar int vertex_indices",
        "end_header",
    ]);
    for k in 0..4 {
        let k = k as f32;
        f32s(&mut b, &[k, k + 0.5, -k, 0.0, 0.0, 1.0, k / 4.0, 1.0 - k / 4.0]);
    }
    b.extend_from_slice(&[7, 2, 1, 0, 2, 0]);
    b.extend_from_slice(&[8, 0]);
    face(&mut b, &[0, 1, 2, 3]);
    let m2 = parse_ply(&b).unwrap();
    assert_eq!(m2.vertices, m.vertices);
    assert_eq!(m2.normals, m.normals);
    assert_eq!(m2.texcoords, m.texcoords);
    assert_eq!(m2.indices, m.indices);
}

#[test]
fn extra_face_properties_change_nothing() {
    let plain = quad_file();
    let m = parse_ply(&plain).unwrap();
    let mut b = header(&[
        "ply",
        "format binary_little_endian 1.0",
        "comment made by hand",
        "element vertex 4",
        "property float x",
        "property float y",
        "property float z",
        "property float nx",
        "property float ny",
        "property float nz",
        "property float u",
        "property float v",
        "element face 1",
        "property list uchar int vertex_indices",
        "property uchar material",
        "property list uchar float weights",
        "end_header",
    ]);
    for k in 0..4 {
        let k = k as f32;
        f32s(&mut b, &[k, k + 0.5, -k, 0.0, 0.0, 1.0, k / 4.0, 1.0 - k / 4.0]);
    }
    face(&mut b, &[0, 1, 2, 3]);
    b.push(5);
    b.push(2);
    f32s(&mut b, &[0.25, 0.75]);
    let m2 = parse_ply(&b).unwrap();
    assert_eq!(m2.vertices, m.vertices);
    assert_eq!(m2.indices, m.indices);
}

#[test]
fn known_property_type_names() {
    for name in ["float", "float32", "double", "float64", "uchar", "uint8", "int", "int32", "uint",
        "uint32", "short", "int16", "ushort", "uint16"] {
        assert!(is_known_prop_type(&chars(name)), "{name}");
    }
    for name in ["char", "int8", "uint64", "Float", ""] {
        assert!(!is_known_prop_type(&chars(name)), "{name}");
        assert_eq!(parse_prop_type(&chars(name)), PropType::Float);
    }
    assert_eq!(parse_prop_type(&chars("uint16")), PropType::UShort);
}

#[test]
fn several_edits_together_change_nothing() {
    let plain = quad_file();
    let m = parse_ply(&plain).unwrap();
    let mut b = header(&[
        "ply",
        "comment first",
        "format binary_little_endian 1.0",
        "obj_info scanned",
        "element vertex 4",
        "property float x",
        "property float y",
        "property float z",
        "property float nx",
        "property float ny",
        "property float nz",
        "property float u",
        "property float v",
        "element light 1",
        "property short power",
        "element face 1",
        "property list uchar int vertex_indices",
        "property uchar material",
        "comment last",
        "end_header",
    ]);
    for k in 0..4 {
        let k = k as f32;
        f32s(&mut b, &[k, k + 0.5, -k, 0.0, 0.0, 1.0, k / 4.0, 1.0 - k / 4.0]);
    }
    b.extend_from_slice(&[0x10, 0x00]);
    face(&mut b, &[0, 1, 2, 3]);
    b.push(9);
    let m2 = parse_ply(&b).unwrap();
    assert_eq!(m2.vertices, m.vertices);
    assert_eq!(m2.normals, m.normals);
    assert_eq!(m2.texcoords, m.texcoords);
    assert_eq!(m2.indices, m.indices);
}
