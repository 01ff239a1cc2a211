use nnos::intent::{build_prompt, parse, truncate_listing, Intent, BOS, EOS, PAD, SEP, SOO};

#[test]
fn parses_every_verb() {
    assert_eq!(parse(b"TIME"), Some(Intent::Time));
    assert_eq!(parse(b"REBOOT"), Some(Intent::Reboot));
    assert_eq!(parse(b"NONE"), Some(Intent::Nothing));
    assert_eq!(parse(b"LIST(\"/\")"), Some(Intent::List));
    assert_eq!(
        parse(b"READ(\"/hello.txt\")"),
        Some(Intent::Read("/hello.txt".to_string()))
    );
    assert_eq!(
        parse(b"DELETE(\"/a.txt\")"),
        Some(Intent::Delete("/a.txt".to_string()))
    );
    assert_eq!(
        parse(b"CREATE(\"/new\")"),
        Some(Intent::Create("/new".to_string()))
    );
    assert_eq!(
        parse(b"PRINT(\"hi there\")"),
        Some(Intent::Print("hi there".to_string()))
    );
    assert_eq!(
        parse(b"WRITE(\"/a.txt\", \"some text\")"),
        Some(Intent::Write("/a.txt".to_string(), "some text".to_string()))
    );
}

#[test]
fn stops_at_eos() {
    let mut v = b"TIME".to_vec();
    v.push(EOS);
    v.extend_from_slice(b"garbage");
    assert_eq!(parse(&v), Some(Intent::Time));
}

#[test]
fn rejects_junk() {
    assert_eq!(parse(b""), None);
    assert_eq!(parse(b"DELET(\"/a\")"), None);
    assert_eq!(parse(b"DELETE(\"/a\""), None);
    assert_eq!(parse(b"DELETE(\"a.txt\")"), None); // no leading slash
    assert_eq!(parse(b"DELETE(\"/\")"), None); // root is not a file
    assert_eq!(parse(b"LIST(\"/sub\")"), None); // root-only
    assert_eq!(parse(b"WRITE(\"/a\")"), None); // missing text arg
}

#[test]
fn truncation_matches_the_python_rule() {
    let names = ["aaa", "bbb", "ccc"];
    // 3 + 1 + 3 + 1 + 3 = 11 fits in the cap
    assert_eq!(truncate_listing(&names, 10, 512).len(), 3);
    // budget 4 keeps "aaa" only, since adding "bbb" costs the space too
    assert_eq!(truncate_listing(&names, 512 - 4 - 4 - 96, 512), vec!["aaa"]);
    // a long line squeezes the listing out entirely
    assert!(truncate_listing(&names, 512, 512).is_empty());
}

#[test]
fn long_command_shrinks_the_listing() {
    let names = ["a.txt", "b.txt", "c.txt", "d.txt"];
    let short = build_prompt(&names, b"hi", 512);
    let long = build_prompt(&names, &[b'x'; 256], 512);
    assert!(long.len() <= 512);
    assert!(short.len() < long.len());
}

#[test]
fn sanitizes_special_bytes() {
    let p = build_prompt(&["a.txt"], &[b'h', 0, b'i', 4], 512);
    assert_eq!(p[0], BOS);
    assert_eq!(*p.last().unwrap(), SOO);
    // exactly one SEP, and no stray specials from the user line
    assert_eq!(p.iter().filter(|b| **b == SEP).count(), 1);
    assert_eq!(p.iter().filter(|b| **b == PAD).count(), 0);
    assert_eq!(p.iter().filter(|b| **b == EOS).count(), 0);
}

#[test]
fn prompt_matches_golden_encoding() {
    let p = build_prompt(
        &["birthday.txt", "hello.txt", "secret.txt"],
        b"delete hello.txt",
        512,
    );
    let want: Vec<u8> = {
        let mut v = vec![BOS];
        v.extend_from_slice(b"birthday.txt hello.txt secret.txt");
        v.push(SEP);
        v.extend_from_slice(b"delete hello.txt");
        v.push(SOO);
        v
    };
    assert_eq!(p, want);
    assert_eq!(p.len(), 52);
}

#[test]
fn budget_is_capped_at_the_listing_cap() {
    // 40 names of 4 bytes join to 199 bytes; the cap of 180 keeps 36 of them
    let names: Vec<&str> = (0..40).map(|_| "abcd").collect();
    let kept = truncate_listing(&names, 0, 2048);
    assert_eq!(kept.len(), 36);
}

#[test]
fn truncation_stops_at_first_name_that_does_not_fit() {
    // budget 6: "aaaa" fits, "bbbbbb" does not, and "c" is not considered after the stop
    let names = ["aaaa", "bbbbbb", "c"];
    let kept = truncate_listing(&names, 512 - 4 - 96 - 6, 512);
    assert_eq!(kept, vec!["aaaa"]);
}

#[test]
fn tiny_context_leaves_no_listing() {
    let p = build_prompt(&["a"], b"xy", 10);
    assert_eq!(p, vec![BOS, SEP, b'x', b'y', SOO]);
}

#[test]
fn prompt_sanitizes_every_special_byte() {
    let p = build_prompt(&[], &[0, 1, 2, 3, 4, 5], 512);
    assert_eq!(p, vec![BOS, SEP, b'?', b'?', b'?', b'?', b'?', 5, SOO]);
}

#[test]
fn parse_rejects_bad_utf8() {
    assert_eq!(parse(&[b'P', b'R', b'I', b'N', b'T', b'(', b'"', 0xFF, b'"', b')']), None);
    assert_eq!(parse(&[0xC3]), None);
}

#[test]
fn parse_keeps_multibyte_text() {
    assert_eq!(
        parse("PRINT(\"héllo\")".as_bytes()),
        Some(Intent::Print("héllo".to_string()))
    );
}

#[test]
fn parse_rejects_quotes_and_backslashes() {
    assert_eq!(parse(b"PRINT(\"a\\b\")"), None);
    assert_eq!(parse(b"PRINT(\"a\"b\")"), None);
    assert_eq!(parse(b"WRITE(\"/a\", \"x\\y\")"), None);
    assert_eq!(parse(b"WRITE(\"a\", \"x\")"), None);
}

#[test]
fn parse_allows_empty_print_and_text() {
    assert_eq!(parse(b"PRINT(\"\")"), Some(Intent::Print(String::new())));
    assert_eq!(
        parse(b"WRITE(\"/f\", \"\")"),
        Some(Intent::Write("/f".to_string(), String::new()))
    );
}

#[test]
fn parse_stops_at_any_special_byte() {
    let mut v = b"REBOOT".to_vec();
    v.push(0);
    v.extend_from_slice(b"xx");
    assert_eq!(parse(&v), Some(Intent::Reboot));
    assert_eq!(parse(&[SEP]), None);
}

#[test]
fn longer_line_or_smaller_context_only_drops_trailing_names() {
    let names = ["alpha", "beta", "gamma", "delta", "epsilon"];
    let wide = truncate_listing(&names, 400, 512);
    let narrow = truncate_listing(&names, 405, 512);
    assert_eq!(wide, vec!["alpha", "beta"]);
    assert_eq!(narrow, vec!["alpha"]);
    let small_ctx = truncate_listing(&names, 400, 507);
    assert_eq!(small_ctx, vec!["alpha"]);
    assert_eq!(&wide[..narrow.len()], &narrow[..]);
}
