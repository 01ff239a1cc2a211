use nnos::format::{Header, LoadError, TensorRecord};

fn gen_valid_header_bytes() -> [u8; 64] {
    let mut buf = [0u8; 64];
    buf[0..4].copy_from_slice(b"NNSH");
    buf[4..8].copy_from_slice(&u32::to_le_bytes(1));
    buf[8..12].copy_from_slice(&u32::to_le_bytes(320));
    buf[12..16].copy_from_slice(&u32::to_le_bytes(10));
    buf[16..20].copy_from_slice(&u32::to_le_bytes(10));
    buf[20..24].copy_from_slice(&u32::to_le_bytes(512));
    buf[24..28].copy_from_slice(&u32::to_le_bytes(256));
    buf[28..32].copy_from_slice(&f32::to_le_bytes(1.4));
    buf[32..36].copy_from_slice(&u32::to_le_bytes(83));
    buf
}

#[test]
fn check_gud_header() {
    let Ok(header) = Header::load(&gen_valid_header_bytes()) else {
        panic!("header load failed, ")
    };
    assert_eq!(header.d_model, 320);
    assert_eq!(header.n_heads, 10);
    assert_eq!(header.n_tensors, 83);
}

fn with_u32(at: usize, v: u32) -> [u8; 64] {
    let mut b = gen_valid_header_bytes();
    b[at..at + 4].copy_from_slice(&v.to_le_bytes());
    b
}

fn with_temp(t: f32) -> [u8; 64] {
    let mut b = gen_valid_header_bytes();
    b[28..32].copy_from_slice(&t.to_le_bytes());
    b
}

#[test]
fn header_keeps_every_field() {
    let h = Header::load(&gen_valid_header_bytes()).unwrap();
    assert_eq!(&h.magic, b"NNSH");
    assert_eq!(h.version, 1);
    assert_eq!(h.n_layers, 10);
    assert_eq!(h.ctx_len, 512);
    assert_eq!(h.vocab, 256);
    assert_eq!(f32::from_bits(h.temp_bits), 1.4);
    assert_eq!(h.crc32, 0);
}

#[test]
fn header_errors_in_check_order() {
    assert_eq!(Header::load(&[0u8; 63]), Err(LoadError::TooShort));
    let mut b = gen_valid_header_bytes();
    b[3] = b'X';
    assert_eq!(Header::load(&b), Err(LoadError::BadMagic));
    assert_eq!(Header::load(&with_u32(4, 2)), Err(LoadError::BadVersion));
    assert_eq!(Header::load(&with_u32(8, 0)), Err(LoadError::DModel));
    assert_eq!(Header::load(&with_u32(8, 1025)), Err(LoadError::DModel));
    assert_eq!(Header::load(&with_u32(12, 17)), Err(LoadError::NLayers));
    assert_eq!(Header::load(&with_u32(20, 0)), Err(LoadError::CtxSize));
    assert_eq!(Header::load(&with_u32(20, 2049)), Err(LoadError::CtxSize));
    assert_eq!(Header::load(&with_u32(24, 255)), Err(LoadError::Vocab));
    assert_eq!(Header::load(&with_u32(16, 0)), Err(LoadError::DModelNHeads));
    assert_eq!(Header::load(&with_u32(16, 7)), Err(LoadError::DModelNHeads));
    assert_eq!(Header::load(&with_u32(32, 82)), Err(LoadError::NTensors));
}

#[test]
fn temperature_must_be_between_zero_and_hundred() {
    assert_eq!(Header::load(&with_temp(0.0)), Err(LoadError::Temp));
    assert_eq!(Header::load(&with_temp(-0.0)), Err(LoadError::Temp));
    assert_eq!(Header::load(&with_temp(-1.0)), Err(LoadError::Temp));
    assert_eq!(Header::load(&with_temp(100.0)), Err(LoadError::Temp));
    assert_eq!(Header::load(&with_temp(f32::NAN)), Err(LoadError::Temp));
    assert_eq!(Header::load(&with_temp(f32::INFINITY)), Err(LoadError::Temp));
    assert!(Header::load(&with_temp(99.99)).is_ok());
    assert!(Header::load(&with_temp(f32::MIN_POSITIVE)).is_ok());
}

fn record(dtype: u8, n_dims: u8, dim0: u32, dim1: u32, scale_count: u32, data: u64, scales: u64) -> [u8; 32] {
    let mut r = [0u8; 32];
    r[0] = dtype;
    r[1] = n_dims;
    r[4..8].copy_from_slice(&dim0.to_le_bytes());
    r[8..12].copy_from_slice(&dim1.to_le_bytes());
    r[12..16].copy_from_slice(&scale_count.to_le_bytes());
    r[16..24].copy_from_slice(&data.to_le_bytes());
    r[24..32].copy_from_slice(&scales.to_le_bytes());
    r
}

fn file_with(rec: [u8; 32], total: usize) -> Vec<u8> {
    let mut f = vec![0u8; total];
    f[64..96].copy_from_slice(&rec);
    f
}

#[test]
fn record_loads_its_fields() {
    let f = file_with(record(0, 2, 4, 8, 4, 128, 160), 256);
    let r = TensorRecord::load(&f, 64).unwrap();
    assert_eq!(r.dtype, 0);
    assert_eq!(r.n_dims, 2);
    assert_eq!(r.dim0, 4);
    assert_eq!(r.dim1, 8);
    assert_eq!(r.scale_count, 4);
    assert_eq!(r.data_offset, 128);
    assert_eq!(r.scales_offset, 160);
    assert_eq!(r.cols(), 8);
}

#[test]
fn one_dim_record_counts_one_column() {
    let f = file_with(record(1, 1, 16, 0, 0, 128, 0), 192);
    let r = TensorRecord::load(&f, 64).unwrap();
    assert_eq!(r.cols(), 1);
    // 16 f32 = 64 bytes from 128 reaches exactly 192
    let f = file_with(record(1, 1, 16, 0, 0, 128, 0), 191);
    assert_eq!(TensorRecord::load(&f, 64), Err(LoadError::DataOutOfBounds));
}

#[test]
fn record_errors() {
    assert_eq!(TensorRecord::load(&[0u8; 95], 64), Err(LoadError::RecordOutOfBounds));
    let e = |rec| TensorRecord::load(&file_with(rec, 256), 64);
    assert_eq!(e(record(2, 2, 4, 8, 4, 128, 160)), Err(LoadError::BadDtype));
    assert_eq!(e(record(0, 3, 4, 8, 4, 128, 160)), Err(LoadError::BadNDims));
    assert_eq!(e(record(0, 2, 0, 8, 0, 128, 160)), Err(LoadError::BadDims));
    assert_eq!(e(record(0, 1, 4, 8, 4, 128, 160)), Err(LoadError::BadDims));
    assert_eq!(e(record(0, 2, 4, 0, 4, 128, 160)), Err(LoadError::BadDims));
    assert_eq!(e(record(0, 2, 4, 8, 3, 128, 160)), Err(LoadError::BadScaleCount));
    assert_eq!(e(record(0, 2, 4, 8, 4, 100, 160)), Err(LoadError::BadAlignment));
    assert_eq!(e(record(0, 2, 4, 64, 4, 128, 160)), Err(LoadError::DataOutOfBounds));
    assert_eq!(e(record(0, 2, 4, 8, 4, u64::MAX - 63, 160)), Err(LoadError::DataOutOfBounds));
    assert_eq!(e(record(0, 2, 4, 8, 4, 128, 250)), Err(LoadError::ScalesOutOfBounds));
    assert_eq!(e(record(0, 2, 4, 8, 4, 128, u64::MAX)), Err(LoadError::ScalesOutOfBounds));
    // no scales: the scale offset is not checked
    assert!(e(record(0, 2, 4, 8, 0, 128, u64::MAX)).is_ok());
}

#[test]
fn scales_must_be_finite_and_positive() {
    let rec = TensorRecord {
        dtype: 0,
        n_dims: 2,
        dim0: 2,
        dim1: 4,
        scale_count: 2,
        data_offset: 0,
        scales_offset: 8,
    };
    let with = |a: f32, b: f32| {
        let mut buf = vec![0u8; 16];
        buf[8..12].copy_from_slice(&a.to_le_bytes());
        buf[12..16].copy_from_slice(&b.to_le_bytes());
        rec.scales_valid(&buf)
    };
    assert!(with(1.0, 0.01));
    assert!(with(f32::MIN_POSITIVE / 2.0, f32::MAX));
    assert!(!with(1.0, 0.0));
    assert!(!with(-0.0, 1.0));
    assert!(!with(1.0, -2.0));
    assert!(!with(f32::NAN, 1.0));
    assert!(!with(1.0, f32::INFINITY));
}
