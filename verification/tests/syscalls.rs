use nnos::format::{parse_directory, Header, LoadError, TensorRecord};
use nnos::model::{check_generation, check_prefill, n_params, Config, GenError};
use nnos::nn_shell::{interpret_answer, listing_entry, parse, path, quoted, Answer};
use nnos::shell::{BashProfile, CommandBuffer};
use nnos::syscall::{get_path, MalformedPath, Syscall};

fn message(sc: &Syscall) -> Option<&str> {
    match sc {
        Syscall::Print { message } => Some(message),
        _ => None,
    }
}

#[test]
fn nn_parse_reads_every_call() {
    assert!(matches!(parse(b"TIME"), Some(Syscall::Time)));
    assert!(matches!(parse(b"REBOOT"), Some(Syscall::Reboot)));
    assert!(matches!(parse(b"LIST(\"/\")"), Some(Syscall::List { path }) if path == "/"));
    assert!(matches!(parse(b"READ(\"/a.txt\")"), Some(Syscall::Read { path }) if path == "/a.txt"));
    assert!(matches!(parse(b"CREATE(\"/n\")"), Some(Syscall::Create { path }) if path == "/n"));
    assert!(matches!(parse(b"DELETE(\"/n\")"), Some(Syscall::Delete { path }) if path == "/n"));
    assert_eq!(message(&parse(b"PRINT(\"hi\")").unwrap()), Some("hi"));
    assert!(matches!(
        parse(b"WRITE(\"/a\", \"xyz\")"),
        Some(Syscall::Write { path, data }) if path == "/a" && data == b"xyz".to_vec()
    ));
}

#[test]
fn nn_parse_differs_from_intent_parse() {
    // the root is accepted as a path here, NONE is not a call, nothing is cut at EOS
    assert!(matches!(parse(b"DELETE(\"/\")"), Some(Syscall::Delete { path }) if path == "/"));
    assert!(parse(b"NONE").is_none());
    assert!(parse(b"TIME\x04").is_none());
    assert!(parse(b"READ(\"a\")").is_none());
    assert!(parse(b"LIST(\"/x\")").is_none());
    assert!(parse(&[0xFF]).is_none());
}

#[test]
fn answers_are_sorted() {
    assert!(matches!(interpret_answer(b"NONE"), Answer::NoAction));
    assert!(matches!(interpret_answer(b"garbage"), Answer::Unparsed));
    assert!(matches!(interpret_answer(b"TIME"), Answer::Call(Syscall::Time)));
}

#[test]
fn quoting_rules() {
    assert!(quoted("plain text"));
    assert!(!quoted("a\"b"));
    assert!(!quoted("a\\b"));
    assert!(path("/x"));
    assert!(path("/"));
    assert!(!path("x"));
    assert!(!path(""));
}

#[test]
fn listing_skips_dot_entries() {
    assert!(!listing_entry("."));
    assert!(!listing_entry(".."));
    assert!(listing_entry("..."));
    assert!(listing_entry(".hidden"));
    assert!(listing_entry("a.txt"));
}

#[test]
fn thresholds() {
    assert_eq!(Syscall::Print { message: String::new() }.threshold_hundredths(), 50);
    assert_eq!(Syscall::Read { path: String::new() }.threshold_hundredths(), 60);
    assert_eq!(Syscall::Write { path: String::new(), data: vec![] }.threshold_hundredths(), 80);
    assert_eq!(Syscall::Create { path: String::new() }.threshold_hundredths(), 70);
    assert_eq!(Syscall::Delete { path: String::new() }.threshold_hundredths(), 95);
    assert_eq!(Syscall::List { path: String::new() }.threshold_hundredths(), 60);
    assert_eq!(Syscall::Time.threshold_hundredths(), 50);
    assert_eq!(Syscall::Reboot.threshold_hundredths(), 97);
}

#[test]
fn bash_profile_echoes() {
    let mut c = CommandBuffer::new();
    for b in b"hi" {
        c.feed(*b);
    }
    let sc = BashProfile.infer_syscall(&c).unwrap();
    assert_eq!(message(&sc), Some("\r\ngot: hi"));
    let mut bad = CommandBuffer::new();
    bad.feed(0xFF);
    assert!(BashProfile.infer_syscall(&bad).is_none());
}

fn cfg(d: usize, layers: usize, ctx: usize) -> Config {
    Config { d_model: d, n_layers: layers, n_heads: 1, head_dim: d, ctx, vocab: 256 }
}

#[test]
fn parameter_count() {
    // 12 * 10 * 320 * 320 + 256 * 320 + 512 * 320
    assert_eq!(n_params(&cfg(320, 10, 512)), 12_533_760);
    assert_eq!(n_params(&cfg(0, 10, 512)), 0);
}

#[test]
fn generation_checks() {
    let c = cfg(8, 1, 16);
    assert_eq!(check_prefill(&c, 0), Err(GenError::EmptyPrompt));
    assert_eq!(check_prefill(&c, 17), Err(GenError::PromptTooLong));
    assert_eq!(check_prefill(&c, 16), Ok(()));
    assert_eq!(check_generation(&c, 10, 0), Err(GenError::NoRoomToGenerate));
    assert_eq!(check_generation(&c, 10, 7), Err(GenError::NoRoomToGenerate));
    assert_eq!(check_generation(&c, 10, 6), Ok(()));
    assert_eq!(check_generation(&c, usize::MAX, 6), Err(GenError::NoRoomToGenerate));
}

#[test]
fn config_from_header() {
    let mut buf = [0u8; 64];
    buf[0..4].copy_from_slice(b"NNSH");
    buf[4..8].copy_from_slice(&1u32.to_le_bytes());
    buf[8..12].copy_from_slice(&320u32.to_le_bytes());
    buf[12..16].copy_from_slice(&10u32.to_le_bytes());
    buf[16..20].copy_from_slice(&10u32.to_le_bytes());
    buf[20..24].copy_from_slice(&512u32.to_le_bytes());
    buf[24..28].copy_from_slice(&256u32.to_le_bytes());
    buf[28..32].copy_from_slice(&1.4f32.to_le_bytes());
    buf[32..36].copy_from_slice(&83u32.to_le_bytes());
    let h = Header::load(&buf).unwrap();
    let c = Config::from_header(&h);
    assert_eq!(c.head_dim, 32);
    assert_eq!(c.d_model, 320);
    assert_eq!(c.ctx, 512);
}

#[test]
fn directory_is_read_in_order() {
    let mut h_buf = vec![0u8; 64 + 3 * 32 + 64];
    let h = Header {
        magic: *b"NNSH",
        version: 1,
        d_model: 4,
        n_layers: 0,
        n_heads: 1,
        ctx_len: 4,
        vocab: 256,
        temp_bits: 1.0f32.to_bits(),
        n_tensors: 3,
        crc32: 0,
    };
    for i in 0..3usize {
        let o = 64 + 32 * i;
        h_buf[o] = 1;
        h_buf[o + 1] = 1;
        h_buf[o + 4..o + 8].copy_from_slice(&((i + 1) as u32).to_le_bytes());
        h_buf[o + 16..o + 24].copy_from_slice(&192u64.to_le_bytes());
    }
    let recs = parse_directory(&h_buf, &h).unwrap();
    assert_eq!(recs.len(), 3);
    assert_eq!(recs[2].dim0, 3);
    assert!(!TensorRecord::size_overflows(&h_buf, 64));
    h_buf[64 + 32 + 16] = 1; // misalign the second record
    assert_eq!(parse_directory(&h_buf, &h), Err(LoadError::BadAlignment));
}

#[test]
fn oversized_record_is_detected() {
    let mut f = vec![0u8; 96];
    f[64] = 1;
    f[65] = 2;
    f[68..72].copy_from_slice(&u32::MAX.to_le_bytes());
    f[72..76].copy_from_slice(&u32::MAX.to_le_bytes());
    assert!(TensorRecord::size_overflows(&f, 64));
    f[64] = 0; // one byte per element fits
    assert!(!TensorRecord::size_overflows(&f, 64));
    assert_eq!(TensorRecord::load(&f, 64), Err(LoadError::DataOutOfBounds));
}

#[test]
fn paths_name_root_entries() {
    let n = get_path("/a.txt").unwrap();
    assert!(n == b"a.txt");
    let n = get_path("//x").unwrap();
    assert!(n == b"x");
    let n = get_path("plain").unwrap();
    assert!(n == b"plain");
    assert_eq!(get_path("/").err(), Some(MalformedPath));
    assert_eq!(get_path("").err(), Some(MalformedPath));
    assert_eq!(get_path("/a/b").err(), Some(MalformedPath));
    assert_eq!(get_path("/a\0b").err(), Some(MalformedPath));
    let long = format!("/{}", "x".repeat(256));
    assert_eq!(get_path(&long).err(), Some(MalformedPath));
    let max = format!("/{}", "x".repeat(255));
    assert!(get_path(&max).is_ok());
}
