use rust_cat::codepoint::convert_buf_to_codepoint;
use rust_cat::line::is_empty;
use rust_cat::line::is_empty_out_buf;
use rust_cat::line::is_nl;

#[test]
fn assert_is_empty() {
    let s = "".to_string();
    assert!(is_empty(&s));
}

#[test]
fn assert_is_empty_newline() {
    let s = "\n".to_string();
    assert!(is_empty(&s));
}

#[test]
fn assert_is_empty_crlf() {
    let s = "\r\n".to_string();
    assert!(is_empty(&s));
}

#[test]
fn assert_is_empty_char() {
    let s = "d".to_string();
    assert!(!is_empty(&s));
}

#[test]
fn assert_is_empty_ctrl_char() {
    let s = "\x1b".to_string();
    assert!(!is_empty(&s));
}

#[test]
fn assert_buf_to_codepoint_24() {
    let mut b = vec![24u8];
    assert_eq!(convert_buf_to_codepoint(&mut b).unwrap(), 24u32);
}

#[test]
fn assert_buf_to_codepoint_36() {
    let mut b = vec![164u8];
    assert_eq!(convert_buf_to_codepoint(&mut b).unwrap(), 36);
}

#[test]
fn assert_buf_to_codepoint_162() {
    // cent sign: C2 A2
    let mut b = vec![194u8, 162];
    assert_eq!(convert_buf_to_codepoint(&mut b).unwrap(), 162);
}

#[test]
fn assert_buf_to_codepoint_8364() {
    // euro sign: E2 82 AC
    let mut b = vec![226u8, 130, 172];
    assert_eq!(convert_buf_to_codepoint(&mut b).unwrap(), 8364);
}

#[test]
fn assert_buf_to_codepoint_294() {
    // H with stroke: C4 A6
    let mut b = vec![196u8, 166];
    assert_eq!(convert_buf_to_codepoint(&mut b).unwrap(), 294);
}

#[test]
fn assert_buf_to_codepoint_66376() {
    // Linear B ideogram: F0 90 8D 88
    let mut b = vec![240u8, 144, 141, 136];
    assert_eq!(convert_buf_to_codepoint(&mut b).unwrap(), 66376);
}

#[test]
fn assert_buf_to_codepoint_192193_err() {
    let mut b = vec![192u8, 193];
    assert!(convert_buf_to_codepoint(&mut b).is_err());
}

#[test]
fn buf_to_codepoint_err_message() {
    let mut b = vec![226u8, 200, 130];
    match convert_buf_to_codepoint(&mut b) {
        Err(msg) => assert_eq!(msg, "Couldn't parse"),
        Ok(_) => panic!("expected a failed fold"),
    }
}

#[test]
fn buf_to_codepoint_leaves_buffer() {
    let mut b = vec![194u8, 162];
    let _ = convert_buf_to_codepoint(&mut b);
    assert_eq!(b, vec![194u8, 162]);
}

#[test]
fn is_nl_checks_newline() {
    assert!(is_nl(&10u8));
    assert!(!is_nl(&13u8));
}

#[test]
fn out_buf_blankness() {
    assert!(is_empty_out_buf(&vec![10u8]));
    assert!(is_empty_out_buf(&Vec::new()));
    assert!(!is_empty_out_buf(&vec![99u8]));
    assert!(!is_empty_out_buf(&vec![99u8, 10u8]));
}
