use rust_cat::config::Config;
use rust_cat::engine::Cat;

fn config(number_all: bool, number_nonblank: bool, squeeze: bool, v: bool, t: bool) -> Config {
    Config {
        number_all,
        number_nonblank,
        squeeze_blank: squeeze,
        show_nonprinting: v,
        show_tabs: t,
    }
}

/// Runs each source through one shared accumulator, flushing at the end of
/// each source, and returns all display bytes.
fn run_cat(cfg: Config, sources: &[&[u8]]) -> Vec<u8> {
    let mut cat = Cat::new(cfg);
    let mut out: Vec<u8> = Vec::new();
    for src in sources {
        cat.process(src, &mut out);
        cat.finish_source(&mut out);
    }
    out
}

fn alpha() -> Vec<u8> {
    b"abcde\nfghij\nklmno\npqrst\nuvwxyz\n".to_vec()
}

fn all_bytes() -> Vec<u8> {
    let mut v: Vec<u8> = Vec::new();
    let mut b: u16 = 0;
    while b < 256 {
        v.push(b as u8);
        b += 1;
    }
    v
}

#[test]
fn test_output_multi_files_print_all_chars() {
    let cfg = config(true, false, false, true, true);
    let a = alpha();
    let e = all_bytes();
    let out = run_cat(cfg, &[&a, &e]);
    let out = String::from_utf8(out).unwrap();
    assert_eq!(out,
               "     1\tabcde\n     2\tfghij\n     3\tklmno\n     4\tpqrst\n     5\tuvwxyz\n     6\t^@^A^B^C^D^E^F^G^H^I\n     7\t^K^L^M^N^O^P^Q^R^S^T^U^V^W^X^Y^Z^[^\\^]^^^_ !\"#$%&'()*+,-./0123456789:;<=>?@ABCDEFGHIJKLMNOPQRSTUVWXYZ[\\]^_`abcdefghijklmnopqrstuvwxyz{|}~^?M-^@M-^AM-^BM-^CM-^DM-^EM-^FM-^GM-^HM-^IM-^JM-^KM-^LM-^MM-^NM-^OM-^PM-^QM-^RM-^SM-^TM-^UM-^VM-^WM-^XM-^YM-^ZM-^[M-^\\M-^]M-^^M-^_M- M-!M-\"M-#M-$M-%M-&M-'M-(M-)M-*M-+M-,M--M-.M-/M-0M-1M-2M-3M-4M-5M-6M-7M-8M-9M-:M-;M-<M-=M->M-?M-@M-AM-BM-CM-DM-EM-FM-GM-HM-IM-JM-KM-LM-MM-NM-OM-PM-QM-RM-SM-TM-UM-VM-WM-XM-YM-ZM-[M-\\M-]M-^M-_M-`M-aM-bM-cM-dM-eM-fM-gM-hM-iM-jM-kM-lM-mM-nM-oM-pM-qM-rM-sM-tM-uM-vM-wM-xM-yM-zM-{M-|M-}M-~M-^?");
}

#[test]
fn test_output_files_print_all_chars() {
    let cfg = config(true, false, false, true, true);
    let a = alpha();
    let out = run_cat(cfg, &[&a]);
    let out = String::from_utf8(out).unwrap();
    assert_eq!(out,
               "     1\tabcde\n     2\tfghij\n     3\tklmno\n     4\tpqrst\n     5\tuvwxyz\n");
}

#[test]
fn test_stdin_squeeze() {
    let cfg = config(false, false, false, true, true);
    let out = run_cat(cfg, &[b"\x00\x01\x02"]);
    let out = String::from_utf8(out).unwrap();
    assert_eq!(out, "^@^A^B");
}

#[test]
fn test_stdin_number_non_blank() {
    let cfg = config(false, true, false, false, false);
    let out = run_cat(cfg, &[b"\na\nb\n\n\nc"]);
    let out = String::from_utf8(out).unwrap();
    assert_eq!(out, "\n     1\ta\n     2\tb\n\n\n     3\tc");
}

#[test]
fn scenario_control_bytes_with_tabs() {
    // Control bytes 0x00 through 0x08 become ^@ through ^H, and the tab
    // byte 0x09 becomes ^I.
    let cfg = config(false, false, false, true, true);
    let input: Vec<u8> = vec![0, 1, 2, 3, 4, 5, 6, 7, 8, 9];
    let out = run_cat(cfg, &[&input]);
    let out = String::from_utf8(out).unwrap();
    assert_eq!(out, "^@^A^B^C^D^E^F^G^H^I");
}

#[test]
fn scenario_high_byte_visible() {
    // Byte 0xFF under visible display renders as M-^?.
    let cfg = config(false, false, false, true, false);
    let out = run_cat(cfg, &[&[0xffu8][..]]);
    let out = String::from_utf8(out).unwrap();
    assert_eq!(out, "M-^?");
}

#[test]
fn scenario_squeeze_adjacent_blanks() {
    // Two adjacent blank lines collapse into one; the counter is untouched
    // by the suppressed line.
    let cfg = config(true, false, true, false, false);
    let out = run_cat(cfg, &[b"a\n\n\nb\n"]);
    let out = String::from_utf8(out).unwrap();
    assert_eq!(out, "     1\ta\n     2\t\n     3\tb\n");
}

#[test]
fn scenario_squeeze_without_numbering() {
    let cfg = config(false, false, true, false, false);
    let out = run_cat(cfg, &[b"a\n\n\n\nb\n"]);
    let out = String::from_utf8(out).unwrap();
    assert_eq!(out, "a\n\nb\n");
}

#[test]
fn squeeze_preserves_lone_blank_lines() {
    // A blank line that stands alone before a non-blank line survives
    // squeezing, so such input is copied unchanged.
    let cfg = config(false, false, true, false, false);
    let out = run_cat(cfg, &[b"a\n\nb\nc\n"]);
    assert_eq!(out, b"a\n\nb\nc\n".to_vec());
}

#[test]
fn plain_config_copies_utf8_text() {
    // With every option disabled, transparent input comes back byte for
    // byte, multi-byte characters included.
    let cfg = config(false, false, false, false, false);
    let input = "caf\u{e9} \u{20ac} \u{10348}\nplain ascii\ttab\n".as_bytes();
    let out = run_cat(cfg, &[input]);
    assert_eq!(out, input.to_vec());
}

#[test]
fn plain_config_copies_trailing_line() {
    let cfg = config(false, false, false, false, false);
    let out = run_cat(cfg, &[b"no newline at end"]);
    assert_eq!(out, b"no newline at end".to_vec());
}

#[test]
fn plain_config_drops_control_byte() {
    // Escaping is opt-in: without it, a control byte is dropped, so the
    // identity law holds only for transparent input.
    let cfg = config(false, false, false, false, false);
    let out = run_cat(cfg, &[b"a\x00b"]);
    assert_eq!(out, b"ab".to_vec());
}

#[test]
fn empty_input_gives_empty_output() {
    let cfg = config(true, true, true, true, true);
    let out = run_cat(cfg, &[b""]);
    assert_eq!(out, Vec::<u8>::new());
}

#[test]
fn numbering_is_right_aligned_width_six() {
    let cfg = config(true, false, false, false, false);
    let mut input: Vec<u8> = Vec::new();
    let mut i: usize = 0;
    while i < 12 {
        input.push(b'x');
        input.push(b'\n');
        i += 1;
    }
    let out = run_cat(cfg, &[&input]);
    let out = String::from_utf8(out).unwrap();
    assert!(out.starts_with("     1\tx\n"));
    assert!(out.contains("     9\tx\n    10\tx\n"));
    assert!(out.ends_with("    12\tx\n"));
}

#[test]
fn counter_continues_across_sources() {
    let cfg = config(true, false, false, false, false);
    let out = run_cat(cfg, &[b"a\n", b"b\n"]);
    let out = String::from_utf8(out).unwrap();
    assert_eq!(out, "     1\ta\n     2\tb\n");
}

#[test]
fn number_nonblank_takes_precedence() {
    let cfg = config(true, true, false, false, false);
    let out = run_cat(cfg, &[b"a\n\nb\n"]);
    let out = String::from_utf8(out).unwrap();
    assert_eq!(out, "     1\ta\n\n     2\tb\n");
}

#[test]
fn visible_mode_escapes_each_byte_of_utf8() {
    // With visible display every byte goes through the classifier
    // individually: multi-byte characters are not regrouped.
    let cfg = config(false, false, false, true, false);
    let out = run_cat(cfg, &[&[0xc2u8, 0xa2][..]]);
    let out = String::from_utf8(out).unwrap();
    assert_eq!(out, "M-BM-\"");
}
