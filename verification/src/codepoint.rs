//! Folding a buffered multi-byte group into a codepoint, and emitting the
//! UTF-8 encoding of a scalar value.
//!
//! A group of two to four bytes is folded by masking the leading byte's
//! payload bits and shifting each continuation byte's low bits into position,
//! most significant first. A byte above 0xBF where a continuation byte was
//! expected makes the fold fail.

use vstd::prelude::*;
use vstd::utf8::encode_scalar;
use vstd::utf8::is_scalar;

use crate::classify::escape_render;
use crate::classify::print_escaped;
use crate::config::Config;

verus! {

/// True when every byte after the first is low enough to serve as a
/// continuation byte.
pub open spec fn conts_ok(s: Seq<u8>) -> bool {
    forall|i: int| 1 <= i < s.len() ==> s[i] <= 191
}

/// The codepoint folded from a buffered group of at most four bytes: the
/// leading byte's payload bits shifted past the continuation bytes' low
/// seven bits.
pub open spec fn fold_codepoint(s: Seq<u8>) -> int
    recommends
        s.len() <= 4,
{
    if s.len() == 0 {
        0
    } else if s.len() == 1 {
        s[0] as int % 64
    } else if s.len() == 2 {
        (s[0] as int % 64) * 64 + s[1] as int % 128
    } else if s.len() == 3 {
        (s[0] as int % 32) * 4096 + (s[1] as int % 128) * 64 + s[2] as int % 128
    } else {
        (s[0] as int % 16) * 262144 + (s[1] as int % 128) * 4096 + (s[2] as int % 128) * 64
            + s[3] as int % 128
    }
}

/// True when `cp` is a Unicode scalar value, i.e. has a character mapping.
pub open spec fn scalar_ok(cp: int) -> bool {
    0 <= cp <= 0x10FFFF && !(0xD800 <= cp <= 0xDFFF)
}

/// The display form of a complete buffered group: the UTF-8 encoding of the
/// folded codepoint when the fold succeeds and yields a scalar value, and
/// otherwise every buffered byte rendered individually through the
/// classifier.
pub open spec fn group_render(g: Seq<u8>, cfg: Config) -> Seq<u8>
    recommends
        1 <= g.len() <= 4,
{
    if conts_ok(g) && scalar_ok(fold_codepoint(g)) {
        encode_scalar(fold_codepoint(g) as u32)
    } else {
        escape_render(g, cfg)
    }
}

/// Folds a buffered group into a codepoint. Fails exactly when a byte after
/// the first exceeds 0xBF and so cannot be a continuation byte; the buffer
/// itself is left unchanged.
pub fn convert_buf_to_codepoint(buf: &mut Vec<u8>) -> (r: Result<u32, String>)
    requires
        old(buf)@.len() <= 4,
    ensures
        final(buf)@ == old(buf)@,
        r is Ok <==> conts_ok(old(buf)@),
        r is Ok ==> r->Ok_0 == fold_codepoint(old(buf)@),
        r is Err ==> r->Err_0@ == "Couldn't parse"@,
{
    let n = buf.len();
    if n == 0 {
        Ok(0)
    } else if n == 1 {
        Ok(buf[0] as u32 % 64)
    } else if n == 2 {
        let b0 = buf[0] as u32;
        let b1 = buf[1] as u32;
        if b1 > 191 {
            Err("Couldn't parse".to_owned())
        } else {
            Ok((b0 % 64) * 64 + b1 % 128)
        }
    } else if n == 3 {
        let b0 = buf[0] as u32;
        let b1 = buf[1] as u32;
        let b2 = buf[2] as u32;
        if b1 > 191 || b2 > 191 {
            Err("Couldn't parse".to_owned())
        } else {
            Ok((b0 % 32) * 4096 + (b1 % 128) * 64 + b2 % 128)
        }
    } else {
        let b0 = buf[0] as u32;
        let b1 = buf[1] as u32;
        let b2 = buf[2] as u32;
        let b3 = buf[3] as u32;
        if b1 > 191 || b2 > 191 || b3 > 191 {
            Err("Couldn't parse".to_owned())
        } else {
            Ok((b0 % 16) * 262144 + (b1 % 128) * 4096 + (b2 % 128) * 64 + b3 % 128)
        }
    }
}

/// True exactly when `cp` is a Unicode scalar value.
pub fn is_scalar_value(cp: u32) -> (r: bool)
    ensures
        r == scalar_ok(cp as int),
        r == is_scalar(cp),
{
    cp <= 0x10FFFF && !(0xD800 <= cp && cp <= 0xDFFF)
}

/// Appends the UTF-8 encoding of the scalar value `cp` to the sink.
pub fn push_scalar_utf8(cp: u32, out: &mut Vec<u8>)
    requires
        is_scalar(cp),
    ensures
        final(out)@ == old(out)@ + encode_scalar(cp),
{
    if cp <= 0x7F {
        out.push((cp & 0x7F) as u8);
        assert(out@ =~= old(out)@ + encode_scalar(cp));
    } else if cp <= 0x7FF {
        out.push(0xC0u8 | ((cp >> 6) & 0x1F) as u8);
        out.push(0x80u8 | (cp & 0x3F) as u8);
        assert(out@ =~= old(out)@ + encode_scalar(cp));
    } else if cp <= 0xFFFF {
        out.push(0xE0u8 | ((cp >> 12) & 0x0F) as u8);
        out.push(0x80u8 | ((cp >> 6) & 0x3F) as u8);
        out.push(0x80u8 | (cp & 0x3F) as u8);
        assert(out@ =~= old(out)@ + encode_scalar(cp));
    } else {
        out.push(0xF0u8 | ((cp >> 18) & 0x7) as u8);
        out.push(0x80u8 | ((cp >> 12) & 0x3F) as u8);
        out.push(0x80u8 | ((cp >> 6) & 0x3F) as u8);
        out.push(0x80u8 | (cp & 0x3F) as u8);
        assert(out@ =~= old(out)@ + encode_scalar(cp));
    }
}

/// Appends the display form of one complete buffered group: the decoded
/// character's UTF-8 encoding when the fold succeeds and yields a scalar
/// value, and otherwise every buffered byte escaped individually.
pub fn print_u8_buf(buf: &mut Vec<u8>, config: &Config, out: &mut Vec<u8>)
    requires
        1 <= old(buf)@.len() <= 4,
    ensures
        final(buf)@ == old(buf)@,
        final(out)@ == old(out)@ + group_render(old(buf)@, *config),
{
    match convert_buf_to_codepoint(buf) {
        Ok(codepoint) => {
            if is_scalar_value(codepoint) {
                push_scalar_utf8(codepoint, out);
            } else {
                print_escaped(buf, config, out);
            }
        },
        Err(_) => {
            print_escaped(buf, config, out);
        },
    }
}

} // verus!
