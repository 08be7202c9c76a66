//! Rendering one complete line: the UTF-8 regrouper for raw display, the
//! per-byte escaping pass for visible display, and the line-number prefix.

use vstd::prelude::*;

use crate::classify::classify;
use crate::classify::escape_render;
use crate::classify::print_byte;
use crate::classify::print_escaped;
use crate::classify::seq_concat_assoc;
use crate::codepoint::group_render;
use crate::codepoint::print_u8_buf;
use crate::config::Config;
use crate::line::is_empty_out_buf;
use crate::line::line_blank;

verus! {

/// The number of bytes a group starting with `b` is expected to span:
/// a byte at or above 0xF0 starts a four-byte group, at or above 0xE0 a
/// three-byte group, at or above 0xC0 a two-byte group; anything lower
/// stands alone.
pub open spec fn group_len(b: u8) -> int {
    if b >= 240 {
        4
    } else if b >= 224 {
        3
    } else if b >= 192 {
        2
    } else {
        1
    }
}

/// Raw display of a line: bytes below 0xC0 outside a group go through the
/// classifier directly; a group-leading byte and the following continuation
/// slots are buffered and resolved as one group. A line that ends before a
/// group is complete has each of the buffered bytes rendered individually,
/// so no byte is lost.
pub open spec fn raw_render(s: Seq<u8>, cfg: Config) -> Seq<u8>
    decreases s.len(),
{
    if s.len() == 0 {
        Seq::empty()
    } else {
        let n = group_len(s[0]);
        if n == 1 {
            classify(s[0], cfg) + raw_render(s.skip(1), cfg)
        } else if n <= s.len() {
            group_render(s.take(n), cfg) + raw_render(s.skip(n), cfg)
        } else {
            escape_render(s, cfg)
        }
    }
}

/// The display form of one line's bytes: every byte through the classifier
/// when visible display is requested, and otherwise the raw regrouping pass.
pub open spec fn render_line(s: Seq<u8>, cfg: Config) -> Seq<u8> {
    if cfg.escaping() {
        escape_render(s, cfg)
    } else {
        raw_render(s, cfg)
    }
}

/// The decimal digits of `n`, most significant first.
pub open spec fn dec_rep(n: int) -> Seq<u8>
    recommends
        n >= 0,
    decreases n,
{
    if n < 10 {
        seq![(48 + n) as u8]
    } else {
        dec_rep(n / 10) + seq![(48 + n % 10) as u8]
    }
}

/// The number prefix of a numbered line: the decimal counter right-aligned
/// to a width of six characters, followed by a tab.
pub open spec fn number_prefix(n: int) -> Seq<u8> {
    let digits = dec_rep(n);
    if digits.len() < 6 {
        Seq::new((6 - digits.len()) as nat, |i: int| 32u8) + digits + seq![9u8]
    } else {
        digits + seq![9u8]
    }
}

/// Appends the decimal digits of `n` to the sink.
fn push_decimal(n: u64, out: &mut Vec<u8>)
    ensures
        final(out)@ == old(out)@ + dec_rep(n as int),
    decreases n,
{
    if n < 10 {
        out.push(48 + n as u8);
        assert(out@ =~= old(out)@ + dec_rep(n as int));
    } else {
        push_decimal(n / 10, out);
        out.push(48 + (n % 10) as u8);
        assert(out@ =~= old(out)@ + dec_rep(n as int));
    }
}

/// The number of decimal digits of `n`.
fn decimal_width(n: u64) -> (w: usize)
    ensures
        w == dec_rep(n as int).len(),
        1 <= w <= 20,
    decreases n,
{
    if n < 10 {
        1
    } else {
        let w = decimal_width(n / 10);
        proof {
            lemma_dec_rep_len(n as int);
            assert(dec_rep(n as int).len() == dec_rep(n as int / 10).len() + 1);
        }
        w + 1
    }
}

/// The decimal representation of a `u64` value has at most 20 digits.
proof fn lemma_dec_rep_len(n: int)
    requires
        0 <= n <= u64::MAX,
    ensures
        dec_rep(n).len() <= 20,
{
    reveal_with_fuel(pow10, 21);
    lemma_dec_rep_len_rec(n, 20);
}

/// A value below 10^k has at most k decimal digits.
proof fn lemma_dec_rep_len_rec(n: int, k: int)
    requires
        k >= 1,
        0 <= n,
        n < pow10(k),
    ensures
        dec_rep(n).len() <= k,
    decreases k,
{
    if n >= 10 {
        assert(pow10(k) == 10 * pow10(k - 1));
        if k == 1 {
            assert(pow10(0) == 1);
        }
        lemma_dec_rep_len_rec(n / 10, k - 1);
    }
}

/// The k-th power of ten.
pub open spec fn pow10(k: int) -> int
    decreases k,
{
    if k <= 0 {
        1
    } else {
        10 * pow10(k - 1)
    }
}

/// Appends the raw display of `line` to the sink, regrouping buffered
/// multi-byte groups into single characters where they resolve.
#[verifier::loop_isolation(false)]
pub fn print_regrouped(line: &Vec<u8>, config: &Config, out: &mut Vec<u8>)
    ensures
        final(out)@ == old(out)@ + raw_render(line@, *config),
{
    let ghost whole = raw_render(line@, *config);
    proof {
        assert(line@.skip(0) =~= line@);
    }
    let mut i: usize = 0;
    while i < line.len()
        invariant
            i <= line@.len(),
            out@ + raw_render(line@.skip(i as int), *config) == old(out)@ + whole,
        decreases line@.len() - i,
    {
        let b = line[i];
        proof {
            assert(line@.skip(i as int)[0] == b);
        }
        let n: usize = if b >= 240 {
            4
        } else if b >= 224 {
            3
        } else if b >= 192 {
            2
        } else {
            1
        };
        if n == 1 {
            proof {
                assert(line@.skip(i as int).skip(1) =~= line@.skip(i as int + 1));
            }
            let ghost prev = out@;
            print_byte(b, config, out);
            proof {
                seq_concat_assoc(
                    prev,
                    classify(b, *config),
                    raw_render(line@.skip(i as int + 1), *config),
                );
            }
            i = i + 1;
        } else if n <= line.len() - i {
            let mut g: Vec<u8> = Vec::new();
            let mut j: usize = i;
            while j < i + n
                invariant
                    i <= j <= i + n,
                    g@ == line@.subrange(i as int, j as int),
                decreases i + n - j,
            {
                g.push(line[j]);
                assert(g@ =~= line@.subrange(i as int, j as int + 1));
                j = j + 1;
            }
            proof {
                assert(g@ =~= line@.skip(i as int).take(n as int));
                assert(line@.skip(i as int).skip(n as int) =~= line@.skip(i as int + n as int));
            }
            let ghost prev = out@;
            print_u8_buf(&mut g, config, out);
            proof {
                seq_concat_assoc(
                    prev,
                    group_render(line@.skip(i as int).take(n as int), *config),
                    raw_render(line@.skip(i as int + n as int), *config),
                );
            }
            i = i + n;
        } else {
            let mut rest: Vec<u8> = Vec::new();
            let mut j: usize = i;
            while j < line.len()
                invariant
                    i <= j <= line@.len(),
                    rest@ == line@.subrange(i as int, j as int),
                decreases line@.len() - j,
            {
                rest.push(line[j]);
                assert(rest@ =~= line@.subrange(i as int, j as int + 1));
                j = j + 1;
            }
            proof {
                assert(rest@ =~= line@.skip(i as int));
            }
            let ghost prev = out@;
            print_escaped(&rest, config, out);
            proof {
                assert(line@.skip(line@.len() as int) =~= Seq::<u8>::empty());
                assert(out@ + raw_render(line@.skip(line@.len() as int), *config) =~= out@);
                assert(prev + raw_render(line@.skip(i as int), *config) == old(out)@ + whole);
                assert(out@ == prev + escape_render(line@.skip(i as int), *config));
            }
            i = line.len();
        }
    }
    proof {
        assert(line@.skip(line@.len() as int) =~= Seq::<u8>::empty());
        assert(out@ + Seq::<u8>::empty() =~= out@);
    }
}

/// Appends the display form of one line's body: per-byte escaping when
/// visible display is requested, and otherwise the raw regrouping pass.
pub fn print_unnumbered_buf(out_buf: &Vec<u8>, config: &Config, out: &mut Vec<u8>)
    ensures
        final(out)@ == old(out)@ + render_line(out_buf@, *config),
{
    if config.show_nonprinting || config.show_tabs {
        print_escaped(out_buf, config, out);
    } else {
        print_regrouped(out_buf, config, out);
    }
}

/// Appends the six-wide number prefix of `linenum` and a tab to the sink.
pub fn push_number_prefix(linenum: u64, out: &mut Vec<u8>)
    ensures
        final(out)@ == old(out)@ + number_prefix(linenum as int),
{
    let w = decimal_width(linenum);
    let mut k = w;
    while k < 6
        invariant
            w <= k <= 6 || (w > 6 && k == w),
            out@ == old(out)@ + Seq::new((k - w) as nat, |i: int| 32u8),
        decreases 6 - k,
    {
        out.push(32);
        assert(out@ =~= old(out)@ + Seq::new((k + 1 - w) as nat, |i: int| 32u8));
        k = k + 1;
    }
    push_decimal(linenum, out);
    out.push(9);
    assert(out@ =~= old(out)@ + number_prefix(linenum as int));
}

/// Appends the number prefix for `linenum` and then the line body.
pub fn print_numbered_buf(out_buf: &Vec<u8>, linenum: u64, config: &Config, out: &mut Vec<u8>)
    ensures
        final(out)@ == old(out)@ + number_prefix(linenum as int) + render_line(
            out_buf@,
            *config,
        ),
{
    push_number_prefix(linenum, out);
    print_unnumbered_buf(out_buf, config, out);
}

/// The output and next counter value for one line under the numbering
/// policy: a number is applied when every line is numbered, or when only
/// non-blank lines are numbered and this line is not blank; the counter
/// advances exactly when a number was applied.
pub open spec fn print_line_spec(line: Seq<u8>, num: int, cfg: Config) -> (Seq<u8>, int) {
    if cfg.number_nonblank {
        if !line_blank(line) {
            (number_prefix(num) + render_line(line, cfg), num + 1)
        } else {
            (render_line(line, cfg), num)
        }
    } else if cfg.number_all {
        (number_prefix(num) + render_line(line, cfg), num + 1)
    } else {
        (render_line(line, cfg), num)
    }
}

/// Appends one line under the numbering policy and returns the next counter
/// value.
pub fn print_buf(out_buf: &Vec<u8>, linenum: u64, config: &Config, out: &mut Vec<u8>) -> (r: u64)
    requires
        linenum < u64::MAX,
    ensures
        final(out)@ == old(out)@ + print_line_spec(out_buf@, linenum as int, *config).0,
        r == print_line_spec(out_buf@, linenum as int, *config).1,
{
    if config.number_nonblank {
        if !is_empty_out_buf(out_buf) {
            print_numbered_buf(out_buf, linenum, config, out);
            linenum + 1
        } else {
            print_unnumbered_buf(out_buf, config, out);
            linenum
        }
    } else if config.number_all {
        print_numbered_buf(out_buf, linenum, config, out);
        linenum + 1
    } else {
        print_unnumbered_buf(out_buf, config, out);
        linenum
    }
}

} // verus!
