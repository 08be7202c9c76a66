use rust_cat::classify::print_byte;
use rust_cat::classify::print_escaped;
use rust_cat::codepoint::print_u8_buf;
use rust_cat::config::Config;
use rust_cat::render::print_regrouped;
use rust_cat::render::print_unnumbered_buf;

fn visible() -> Config {
    Config {
        number_all: false,
        number_nonblank: false,
        squeeze_blank: false,
        show_nonprinting: true,
        show_tabs: true,
    }
}

fn plain() -> Config {
    Config {
        number_all: false,
        number_nonblank: false,
        squeeze_blank: false,
        show_nonprinting: false,
        show_tabs: false,
    }
}

#[test]
fn escaping_pass_is_idempotent_on_samples() {
    // Re-escaping already-escaped output changes nothing.
    let cfg = visible();
    let input: Vec<u8> = vec![0, 9, 10, 31, 65, 127, 128, 159, 160, 254, 255];
    let mut once: Vec<u8> = Vec::new();
    print_escaped(&input, &cfg, &mut once);
    let mut twice: Vec<u8> = Vec::new();
    print_escaped(&once, &cfg, &mut twice);
    assert_eq!(once, twice);
}

#[test]
fn failed_group_escapes_every_consumed_byte() {
    // A two-byte group whose continuation slot exceeds 0xBF fails, and both
    // consumed bytes come out escaped: none lost, none invented.
    let cfg = visible();
    let line: Vec<u8> = vec![0xc2, 0xc0];
    let mut out: Vec<u8> = Vec::new();
    print_regrouped(&line, &cfg, &mut out);
    assert_eq!(String::from_utf8(out).unwrap(), "M-BM-@");
}

#[test]
fn incomplete_trailing_group_escapes_every_byte() {
    // A three-byte group cut short at the end of the line falls back to
    // byte-wise display.
    let cfg = visible();
    let line: Vec<u8> = vec![0xe2, 0x82];
    let mut out: Vec<u8> = Vec::new();
    print_regrouped(&line, &cfg, &mut out);
    assert_eq!(String::from_utf8(out).unwrap(), "M-bM-^B");
}

#[test]
fn surrogate_group_falls_back_to_bytes() {
    // ED A0 80 folds to 0xD800, which has no character mapping; the bytes
    // are rendered individually instead.
    let cfg = visible();
    let mut group: Vec<u8> = vec![0xed, 0xa0, 0x80];
    let mut out: Vec<u8> = Vec::new();
    print_u8_buf(&mut group, &cfg, &mut out);
    assert_eq!(String::from_utf8(out).unwrap(), "M-mM- M-^@");
    assert_eq!(group, vec![0xed, 0xa0, 0x80]);
}

#[test]
fn valid_group_round_trips() {
    let cfg = plain();
    let line: Vec<u8> = vec![0xc2, 0xa2, 0xe2, 0x82, 0xac];
    let mut out: Vec<u8> = Vec::new();
    print_regrouped(&line, &cfg, &mut out);
    assert_eq!(out, line);
}

#[test]
fn classifier_samples() {
    let cfg = visible();
    let mut out: Vec<u8> = Vec::new();
    print_byte(0, &cfg, &mut out);
    print_byte(9, &cfg, &mut out);
    print_byte(127, &cfg, &mut out);
    print_byte(128, &cfg, &mut out);
    print_byte(160, &cfg, &mut out);
    print_byte(255, &cfg, &mut out);
    assert_eq!(String::from_utf8(out).unwrap(), "^@^I^?M-^@M- M-^?");
}

#[test]
fn classifier_drops_when_not_visible() {
    let cfg = plain();
    let mut out: Vec<u8> = Vec::new();
    print_byte(0, &cfg, &mut out);
    print_byte(127, &cfg, &mut out);
    assert_eq!(out, Vec::<u8>::new());
}

#[test]
fn line_body_dispatch_follows_options() {
    // With visible display the line body is escaped byte by byte; without
    // it the same bytes regroup into one character.
    let line: Vec<u8> = vec![0xc2, 0xa2];
    let mut escaped: Vec<u8> = Vec::new();
    print_unnumbered_buf(&line, &visible(), &mut escaped);
    assert_eq!(String::from_utf8(escaped).unwrap(), "M-BM-\"");
    let mut raw: Vec<u8> = Vec::new();
    print_unnumbered_buf(&line, &plain(), &mut raw);
    assert_eq!(raw, line);
}
