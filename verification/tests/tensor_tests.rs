use vivrt::tensor::{find_field, float_words, parse_tensor_file, type_size, FloatWords, TensorError};

struct Field<'a> {
    name: &'a [u8],
    dtype: u8,
    shape: Vec<u64>,
    data: Vec<u8>,
}

fn build(fields: &[Field]) -> Vec<u8> {
    let mut header = b"tensor_file\0".to_vec();
    header.extend_from_slice(&[1, 0]);
    header.extend_from_slice(&(fields.len() as u32).to_le_bytes());
    let mut rec_len = header.len();
    for f in fields {
        rec_len += 2 + f.name.len() + 2 + 1 + 8 + 8 * f.shape.len();
    }
    let mut out = header;
    let mut data_off = rec_len as u64;
    let mut blobs = Vec::new();
    for f in fields {
        out.extend_from_slice(&(f.name.len() as u16).to_le_bytes());
        out.extend_from_slice(f.name);
        out.extend_from_slice(&(f.shape.len() as u16).to_le_bytes());
        out.push(f.dtype);
        out.extend_from_slice(&data_off.to_le_bytes());
        for d in &f.shape {
            out.extend_from_slice(&d.to_le_bytes());
        }
        data_off += f.data.len() as u64;
        blobs.extend_from_slice(&f.data);
    }
    out.extend_from_slice(&blobs);
    out
}

fn f32_bytes(xs: &[f32]) -> Vec<u8> {
    xs.iter().flat_map(|x| x.to_le_bytes()).collect()
}

#[test]
fn type_sizes() {
    let want = [0, 1, 1, 2, 2, 4, 4, 8, 8, 2, 4, 8, 0, 0];
    for (d, w) in want.iter().enumerate() {
        assert_eq!(type_size(d as u8), *w);
    }
    assert_eq!(type_size(255), 0);
}

#[test]
fn fields_are_read_in_order() {
    let file = build(&[
        Field { name: b"wavelengths", dtype: 10, shape: vec![3], data: f32_bytes(&[400.0, 500.0, 600.0]) },
        Field { name: b"luminance", dtype: 10, shape: vec![1, 1, 2, 2], data: f32_bytes(&[1.0, 2.0, 3.0, 4.0]) },
        Field { name: b"counts", dtype: 3, shape: vec![2], data: vec![1, 0, 2, 0] },
    ]);
    let fs = parse_tensor_file(&file).unwrap();
    assert_eq!(fs.len(), 3);
    assert_eq!(fs[0].name, "wavelengths");
    assert_eq!(fs[1].shape, vec![1, 1, 2, 2]);
    assert_eq!(fs[2].data, vec![1, 0, 2, 0]);
    for f in &fs {
        let n: u64 = f.shape.iter().product();
        assert_eq!(f.data.len() as u64, type_size(f.dtype) as u64 * n);
    }
    match float_words(&fs[0]) {
        FloatWords::F32(w) => {
            let v: Vec<f32> = w.iter().map(|b| f32::from_bits(*b)).collect();
            assert_eq!(v, vec![400.0, 500.0, 600.0]);
        }
        _ => panic!("expected f32 words"),
    }
    assert!(matches!(float_words(&fs[2]), FloatWords::NotFloat));
    assert_eq!(find_field(&fs, "luminance"), Some(1));
    assert_eq!(find_field(&fs, "spectra"), None);
}

#[test]
fn later_field_of_same_name_wins() {
    let file = build(&[
        Field { name: b"a", dtype: 1, shape: vec![1], data: vec![1] },
        Field { name: b"a", dtype: 1, shape: vec![1], data: vec![2] },
    ]);
    let fs = parse_tensor_file(&file).unwrap();
    assert_eq!(find_field(&fs, "a"), Some(1));
}

#[test]
fn f64_words() {
    let data: Vec<u8> = [1.5f64, -2.0].iter().flat_map(|x| x.to_le_bytes()).collect();
    let file = build(&[Field { name: b"d", dtype: 11, shape: vec![2], data }]);
    let fs = parse_tensor_file(&file).unwrap();
    match float_words(&fs[0]) {
        FloatWords::F64(w) => assert_eq!(w, vec![1.5f64.to_bits(), (-2.0f64).to_bits()]),
        _ => panic!("expected f64 words"),
    }
}

#[test]
fn malformed_files() {
    assert_eq!(parse_tensor_file(b"tensor_fil").err(), Some(TensorError::Malformed));
    let mut bad = build(&[]);
    bad[0] = b'T';
    assert_eq!(parse_tensor_file(&bad).err(), Some(TensorError::Malformed));
    let mut v2 = build(&[]);
    v2[12] = 2;
    assert_eq!(parse_tensor_file(&v2).err(), Some(TensorError::Malformed));
    assert_eq!(parse_tensor_file(&build(&[])).unwrap().len(), 0);
    // data that runs past the end
    let mut short = build(&[Field { name: b"x", dtype: 10, shape: vec![4], data: f32_bytes(&[1.0, 2.0, 3.0, 4.0]) }]);
    short.truncate(short.len() - 1);
    assert_eq!(parse_tensor_file(&short).err(), Some(TensorError::Malformed));
    // more fields announced than present
    let mut more = build(&[]);
    more[14] = 1;
    assert_eq!(parse_tensor_file(&more).err(), Some(TensorError::Malformed));
}

#[test]
fn empty_data_needs_no_bytes_at_its_offset() {
    let mut file = build(&[Field { name: b"e", dtype: 0, shape: vec![5], data: vec![] }]);
    // point the offset far beyond the end
    let off_pos = 18 + 2 + 1 + 2 + 1;
    file[off_pos..off_pos + 8].copy_from_slice(&1_000_000u64.to_le_bytes());
    let fs = parse_tensor_file(&file).unwrap();
    assert!(fs[0].data.is_empty());
}

#[test]
fn size_overflow() {
    let file = build(&[Field { name: b"big", dtype: 8, shape: vec![u64::MAX / 4, 3], data: vec![] }]);
    assert_eq!(parse_tensor_file(&file).err(), Some(TensorError::SizeOverflow));
}

#[test]
fn names_are_decoded_lossily() {
    let file = build(&[
        Field { name: &[0xff], dtype: 1, shape: vec![1], data: vec![7] },
        Field { name: &[0xfe], dtype: 1, shape: vec![1], data: vec![9] },
        Field { name: &[0x63, 0xc3, 0xa9], dtype: 1, shape: vec![1], data: vec![5] },
    ]);
    let fs = parse_tensor_file(&file).unwrap();
    assert_eq!(fs[0].name, "\u{FFFD}");
    assert_eq!(fs[1].name, "\u{FFFD}");
    assert_eq!(fs[2].name, "c\u{e9}");
    assert_eq!(find_field(&fs, "\u{FFFD}"), Some(1));
    assert_eq!(fs[1].data, vec![9]);
    assert_eq!(find_field(&fs, "c\u{e9}"), Some(2));
}
