use vp_trampoline::cmdline::{eq_ascii, file_stem_len, format_u32, skip_program_argument};

fn wide(s: &str) -> Vec<u16> {
    s.encode_utf16().collect()
}

#[test]
fn skips_unquoted_program() {
    let cl = wide(r"C:\bin\node.exe --version");
    assert_eq!(&cl[skip_program_argument(&cl)..], &wide(" --version")[..]);
}

#[test]
fn skips_quoted_program_with_spaces() {
    let cl = wide(r#""C:\Program Files\node.exe" -e "1 + 1""#);
    assert_eq!(&cl[skip_program_argument(&cl)..], &wide(r#" -e "1 + 1""#)[..]);
}

#[test]
fn skips_leading_whitespace_and_bare_program() {
    let cl = wide("  node");
    assert_eq!(skip_program_argument(&cl), cl.len());
    assert_eq!(skip_program_argument(&[]), 0);
}

#[test]
fn keeps_argument_tail_verbatim() {
    let cl = wide(r#"npx "a  b\" literal" --flag"#);
    assert_eq!(&cl[skip_program_argument(&cl)..], &wide(r#" "a  b\" literal" --flag"#)[..]);
}

#[test]
fn file_stem_matches_path_file_stem() {
    assert_eq!(file_stem_len(&wide("node.exe")), 4);
    assert_eq!(file_stem_len(&wide("node")), 4);
    assert_eq!(file_stem_len(&wide("NODE.EXE")), 4);
    assert_eq!(file_stem_len(&wide("a.b.exe")), 3);
    assert_eq!(file_stem_len(&wide(".hidden")), 7);
    assert_eq!(file_stem_len(&wide("node.")), 4);
}

#[test]
fn eq_ascii_is_exact() {
    assert!(eq_ascii(&wide("vp"), b"vp"));
    assert!(!eq_ascii(&wide("VP"), b"vp"));
    assert!(!eq_ascii(&wide("vpx"), b"vp"));
}

#[test]
fn formats_decimal() {
    let mut buf = [0u8; 10];
    assert_eq!(format_u32(0, &mut buf), b"0");
    let mut buf = [0u8; 10];
    assert_eq!(format_u32(203, &mut buf), b"203");
    let mut buf = [0u8; 10];
    assert_eq!(format_u32(u32::MAX, &mut buf), b"4294967295");
}

#[test]
fn tab_ends_the_program_argument() {
    let cl = wide("node\t-v");
    assert_eq!(skip_program_argument(&cl), 4);
}

#[test]
fn unterminated_quote_takes_the_whole_line() {
    let cl = wide(r#""C:\a b\node.exe -v"#);
    assert_eq!(skip_program_argument(&cl), cl.len());
}

#[test]
fn quotes_inside_the_program_toggle_quoting() {
    let cl = wide(r#"C:\"Program Files"\node.exe -v"#);
    assert_eq!(&cl[skip_program_argument(&cl)..], &wide(" -v")[..]);
}

#[test]
fn backslash_does_not_escape_a_quote() {
    let cl = wide(r#""C:\dir\" -v"#);
    assert_eq!(&cl[skip_program_argument(&cl)..], &wide(" -v")[..]);
}

#[test]
fn blanks_only_line_is_all_skipped() {
    let cl = wide(" \t ");
    assert_eq!(skip_program_argument(&cl), 3);
}

#[test]
fn appended_text_does_not_move_the_program_end() {
    let base = wide("node -v");
    let mut longer = base.clone();
    longer.extend(wide(r#" "x y" z"#));
    assert_eq!(skip_program_argument(&base), 4);
    assert_eq!(skip_program_argument(&longer), 4);
}

#[test]
fn stem_edge_cases() {
    assert_eq!(file_stem_len(&[]), 0);
    assert_eq!(file_stem_len(&wide(".")), 1);
    assert_eq!(file_stem_len(&wide("..")), 1);
    assert_eq!(file_stem_len(&wide(".a.b")), 2);
}

#[test]
fn extension_is_cut_from_any_stem() {
    let mut name = wide("np.m");
    name.extend(wide(".cmd"));
    assert_eq!(file_stem_len(&name), 4);
}

#[test]
fn eq_ascii_empty_and_widened() {
    assert!(eq_ascii(&[], b""));
    assert!(!eq_ascii(&[0x0176], b"v"));
}

#[test]
fn formats_round_trip_and_keep_the_prefix() {
    for v in [1u32, 9, 10, 99, 100, 65535, 1000000000] {
        let mut buf = [0xAAu8; 10];
        let digits = format_u32(v, &mut buf).to_vec();
        let text = String::from_utf8(digits.clone()).unwrap();
        assert_eq!(text, v.to_string());
        assert_eq!(text.parse::<u32>().unwrap(), v);
        let used = digits.len();
        assert!(buf[..10 - used].iter().all(|&b| b == 0xAA));
        assert_eq!(&buf[10 - used..], &digits[..]);
    }
}
