//! The byte classifier: the display form of one raw byte under a
//! configuration.
//!
//! Printable ASCII, newline and tab pass through literally, except that tab
//! becomes `^I` when tabs are shown. When visible display is requested,
//! control bytes become `^X`, delete becomes `^?`, and high-bit bytes get an
//! `M-` prefix. When it is not, those bytes are dropped: escaping is opt-in.

use vstd::prelude::*;

use crate::config::Config;

verus! {

/// The display form of byte `b` under `cfg`: a sequence of zero or more
/// output bytes.
pub open spec fn classify(b: u8, cfg: Config) -> Seq<u8> {
    if (0x20 <= b && b <= 0x7e) || b == 10 || b == 9 {
        if cfg.show_tabs && b == 9 {
            seq![94u8, 73u8]
        } else {
            seq![b]
        }
    } else if cfg.show_nonprinting || cfg.show_tabs {
        if b < 32 {
            seq![94u8, (b + 64) as u8]
        } else if b == 127 {
            seq![94u8, 63u8]
        } else if b == 255 {
            seq![77u8, 45u8, 94u8, 63u8]
        } else if b - 128 < 32 {
            seq![77u8, 45u8, 94u8, (b - 128 + 64) as u8]
        } else {
            seq![77u8, 45u8, (b - 128) as u8]
        }
    } else {
        Seq::empty()
    }
}

/// The classifier applied to every byte of `s` in order, results
/// concatenated.
pub open spec fn escape_render(s: Seq<u8>, cfg: Config) -> Seq<u8>
    decreases s.len(),
{
    if s.len() == 0 {
        Seq::empty()
    } else {
        classify(s[0], cfg) + escape_render(s.skip(1), cfg)
    }
}

/// Appends `^I` to the sink.
pub fn print_tab(out: &mut Vec<u8>)
    ensures
        final(out)@ == old(out)@ + seq![94u8, 73u8],
{
    out.push(94);
    out.push(73);
    assert(out@ =~= old(out)@ + seq![94u8, 73u8]);
}

/// Appends the display form of `b` to the sink.
pub fn print_byte(b: u8, config: &Config, out: &mut Vec<u8>)
    ensures
        final(out)@ == old(out)@ + classify(b, *config),
{
    if (b > 31 && b < 127) || b == 10 || b == 9 {
        if config.show_tabs && b == 9 {
            print_tab(out);
        } else {
            out.push(b);
            assert(out@ =~= old(out)@ + seq![b]);
        }
    } else if config.show_nonprinting || config.show_tabs {
        if b < 32 {
            out.push(94);
            out.push(b + 64);
            assert(out@ =~= old(out)@ + classify(b, *config));
        } else if b == 127 {
            out.push(94);
            out.push(63);
            assert(out@ =~= old(out)@ + classify(b, *config));
        } else if b == 255 {
            out.push(77);
            out.push(45);
            out.push(94);
            out.push(63);
            assert(out@ =~= old(out)@ + classify(b, *config));
        } else {
            let x = b - 128;
            if x < 32 {
                out.push(77);
                out.push(45);
                out.push(94);
                out.push(x + 64);
                assert(out@ =~= old(out)@ + classify(b, *config));
            } else {
                out.push(77);
                out.push(45);
                out.push(x);
                assert(out@ =~= old(out)@ + classify(b, *config));
            }
        }
    } else {
        assert(out@ =~= old(out)@ + classify(b, *config));
    }
}

/// Appends the display form of every byte of `line`, in order.
pub fn print_escaped(line: &Vec<u8>, config: &Config, out: &mut Vec<u8>)
    ensures
        final(out)@ == old(out)@ + escape_render(line@, *config),
{
    let ghost whole = escape_render(line@, *config);
    proof {
        assert(line@.skip(0) =~= line@);
    }
    let mut i: usize = 0;
    while i < line.len()
        invariant
            i <= line@.len(),
            out@ + escape_render(line@.skip(i as int), *config) == old(out)@ + whole,
        decreases line@.len() - i,
    {
        proof {
            assert(line@.skip(i as int)[0] == line@[i as int]);
            assert(line@.skip(i as int).skip(1) =~= line@.skip(i as int + 1));
        }
        let ghost prev = out@;
        print_byte(line[i], config, out);
        i = i + 1;
        proof {
            seq_concat_assoc(prev, classify(line@[i - 1], *config),
                escape_render(line@.skip(i as int), *config));
        }
    }
    proof {
        assert(line@.skip(line@.len() as int) =~= Seq::<u8>::empty());
        assert(out@ + Seq::<u8>::empty() =~= out@);
    }
}

/// Concatenation of byte sequences is associative.
pub proof fn seq_concat_assoc(a: Seq<u8>, b: Seq<u8>, c: Seq<u8>)
    ensures
        (a + b) + c == a + (b + c),
{
    assert((a + b) + c =~= a + (b + c));
}

} // verus!
