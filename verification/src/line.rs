//! Blank-line predicates: a line is blank when it holds at most the newline
//! byte itself.

use vstd::prelude::*;

verus! {

/// True when a buffered line is blank: it holds at most its newline byte.
pub open spec fn line_blank(s: Seq<u8>) -> bool {
    s.len() == 0 || (s.len() == 1 && s[0] == 10)
}

/// True when a line held as text is blank: empty, a lone newline, or a
/// carriage return followed by a newline.
pub open spec fn str_blank(s: Seq<char>) -> bool {
    s.len() == 0 || s == "\n"@ || s == "\r\n"@
}

/// True when `c` is the newline byte.
pub fn is_nl(c: &u8) -> (r: bool)
    ensures
        r == (*c == 10),
{
    *c == 10u8
}

/// True when a buffered line is blank.
pub fn is_empty_out_buf(v: &Vec<u8>) -> (r: bool)
    ensures
        r == line_blank(v@),
{
    if v.len() > 1 {
        false
    } else if v.len() == 0 {
        true
    } else {
        is_nl(&v[0])
    }
}

/// True when a line held as text is blank.
pub fn is_empty(line: &String) -> (r: bool)
    ensures
        r == str_blank(line@),
{
    let nl: String = "\n".to_owned();
    let crlf: String = "\r\n".to_owned();
    if line.as_str().is_empty() {
        true
    } else if *line == nl || *line == crlf {
        true
    } else {
        false
    }
}

} // verus!
