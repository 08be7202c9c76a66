//! The line accumulator: bytes are buffered until a newline, and each flush
//! applies the squeeze and numbering policy before the line body is rendered.
//!
//! The accumulator's state — the line counter, the pending-blank flag and the
//! line buffer — persists across input sources; end of a source flushes a
//! non-empty trailing buffer even without a final newline.

use vstd::prelude::*;

use crate::classify::seq_concat_assoc;
use crate::config::Config;
use crate::line::is_empty_out_buf;
use crate::line::line_blank;
use crate::render::number_prefix;
use crate::render::print_buf;
use crate::render::print_line_spec;
use crate::render::push_number_prefix;

verus! {

/// The effect of flushing one buffered line: the bytes emitted, the next
/// counter value, and the next pending-blank flag.
///
/// With squeezing on, a blank line emits nothing and only raises the flag;
/// a non-blank line first pays off a raised flag with exactly one blank line
/// (numbered when every line is numbered), clears the flag, and then falls
/// through to the numbering policy.
pub open spec fn flush_spec(line: Seq<u8>, num: int, pe: bool, cfg: Config) -> (Seq<u8>, int, bool) {
    if cfg.squeeze_blank {
        if line_blank(line) {
            (Seq::empty(), num, true)
        } else {
            let lead = if pe {
                if cfg.numbers_all_lines() {
                    number_prefix(num) + seq![10u8]
                } else {
                    seq![10u8]
                }
            } else {
                Seq::empty()
            };
            let num1 = if pe && cfg.numbers_all_lines() {
                num + 1
            } else {
                num
            };
            let body = print_line_spec(line, num1, cfg);
            (lead + body.0, body.1, false)
        }
    } else {
        let body = print_line_spec(line, num, cfg);
        (body.0, body.1, pe)
    }
}

/// Flushes one buffered line: applies the squeeze policy, then the numbering
/// policy, and returns the next counter value.
pub fn handle_buf(
    out_buf: &Vec<u8>,
    printempty: &mut bool,
    linenum: u64,
    config: &Config,
    out: &mut Vec<u8>,
) -> (r: u64)
    requires
        linenum + 2 <= u64::MAX,
    ensures
        ({
            let f = flush_spec(out_buf@, linenum as int, *old(printempty), *config);
            &&& final(out)@ == old(out)@ + f.0
            &&& r == f.1
            &&& *final(printempty) == f.2
        }),
{
    if config.squeeze_blank {
        if !is_empty_out_buf(out_buf) {
            let mut num = linenum;
            if *printempty {
                if config.number_all && !config.number_nonblank {
                    push_number_prefix(num, out);
                    out.push(10);
                    assert(out@ =~= old(out)@ + (number_prefix(num as int) + seq![10u8]));
                    num = num + 1;
                } else {
                    out.push(10);
                    assert(out@ =~= old(out)@ + seq![10u8]);
                }
            }
            *printempty = false;
            let ghost lead = out@.skip(old(out)@.len() as int);
            proof {
                assert(out@ == old(out)@ + lead);
            }
            let r = print_buf(out_buf, num, config, out);
            proof {
                seq_concat_assoc(
                    old(out)@,
                    lead,
                    print_line_spec(out_buf@, num as int, *config).0,
                );
            }
            r
        } else {
            *printempty = true;
            assert(out@ =~= old(out)@ + Seq::<u8>::empty());
            linenum
        }
    } else {
        print_buf(out_buf, linenum, config, out)
    }
}

/// The effect of running a sequence of input bytes through the accumulator:
/// each byte joins the buffer, and a newline flushes it. Yields the emitted
/// bytes, the remaining buffer, the next counter value, and the next
/// pending-blank flag.
pub open spec fn run_spec(input: Seq<u8>, buf: Seq<u8>, num: int, pe: bool, cfg: Config) -> (
    Seq<u8>,
    Seq<u8>,
    int,
    bool,
)
    decreases input.len(),
{
    if input.len() == 0 {
        (Seq::empty(), buf, num, pe)
    } else {
        let buf1 = buf.push(input[0]);
        if input[0] == 10 {
            let f = flush_spec(buf1, num, pe, cfg);
            let rest = run_spec(input.skip(1), Seq::empty(), f.1, f.2, cfg);
            (f.0 + rest.0, rest.1, rest.2, rest.3)
        } else {
            run_spec(input.skip(1), buf1, num, pe, cfg)
        }
    }
}

/// The effect of ending an input source: a non-empty trailing buffer is
/// flushed even without a final newline, and the buffer is left empty.
pub open spec fn finish_spec(buf: Seq<u8>, num: int, pe: bool, cfg: Config) -> (Seq<u8>, int, bool) {
    if buf.len() > 0 {
        flush_spec(buf, num, pe, cfg)
    } else {
        (Seq::empty(), num, pe)
    }
}

/// The display of one whole input under `cfg`, starting from a fresh
/// accumulator: every line flushed at its newline, and a trailing line
/// flushed at the end.
pub open spec fn cat_spec(input: Seq<u8>, cfg: Config) -> Seq<u8> {
    let r = run_spec(input, Seq::empty(), 1, false, cfg);
    r.0 + finish_spec(r.1, r.2, r.3, cfg).0
}

/// One line flush moves the counter forward by at most two: one for a
/// numbered collapsed blank line and one for the line itself.
pub proof fn lemma_flush_bounds(line: Seq<u8>, num: int, pe: bool, cfg: Config)
    ensures
        num <= flush_spec(line, num, pe, cfg).1 <= num + 2,
{
}

/// The accumulator: the display options, the line counter (shared across
/// sources, starting at one), the pending-blank flag, and the bytes of the
/// current line.
pub struct Cat {
    /// The display options this accumulator was created with.
    pub config: Config,
    /// The number the next numbered line will carry.
    pub linenum: u64,
    /// True when a blank line was suppressed and is still owed.
    pub printempty: bool,
    /// The bytes received since the last flush.
    pub buf: Vec<u8>,
}

impl Cat {
    /// A fresh accumulator: counter at one, no pending blank, empty buffer.
    pub fn new(config: Config) -> (c: Cat)
        ensures
            c.config == config,
            c.linenum == 1,
            c.printempty == false,
            c.buf@ == Seq::<u8>::empty(),
    {
        Cat { config, linenum: 1, printempty: false, buf: Vec::new() }
    }

    /// Feeds one chunk of input bytes through the accumulator, appending all
    /// display bytes to the sink. The line counter never decreases.
    #[verifier::loop_isolation(false)]
    #[verifier::rlimit(60)]
    pub fn process(&mut self, chunk: &[u8], out: &mut Vec<u8>)
        requires
            old(self).linenum as int + 2 * chunk@.len() <= u64::MAX as int,
        ensures
            ({
                let r = run_spec(
                    chunk@,
                    old(self).buf@,
                    old(self).linenum as int,
                    old(self).printempty,
                    old(self).config,
                );
                &&& final(out)@ == old(out)@ + r.0
                &&& final(self).buf@ == r.1
                &&& final(self).linenum as int == r.2
                &&& final(self).printempty == r.3
            }),
            final(self).config == old(self).config,
            final(self).linenum >= old(self).linenum,
            final(self).linenum as int <= old(self).linenum as int + 2 * chunk@.len(),
    {
        let ghost full = run_spec(
            chunk@,
            old(self).buf@,
            old(self).linenum as int,
            old(self).printempty,
            old(self).config,
        );
        proof {
            assert(chunk@.skip(0) =~= chunk@);
            assert(out@.take(out@.len() as int) =~= out@);
            assert(out@.skip(out@.len() as int) =~= Seq::<u8>::empty());
            assert(Seq::<u8>::empty() + full.0 =~= full.0);
        }
        let mut i: usize = 0;
        while i < chunk.len()
            invariant
                i <= chunk@.len(),
                self.config == old(self).config,
                self.linenum as int <= old(self).linenum as int + 2 * i,
                self.linenum >= old(self).linenum,
                out@.len() >= old(out)@.len(),
                out@.take(old(out)@.len() as int) == old(out)@,
                ({
                    let rest = run_spec(
                        chunk@.skip(i as int),
                        self.buf@,
                        self.linenum as int,
                        self.printempty,
                        self.config,
                    );
                    &&& full.0 == out@.skip(old(out)@.len() as int) + rest.0
                    &&& full.1 == rest.1
                    &&& full.2 == rest.2
                    &&& full.3 == rest.3
                }),
            decreases chunk@.len() - i,
        {
            let b = chunk[i];
            proof {
                assert(chunk@.skip(i as int)[0] == b);
                assert(chunk@.skip(i as int).skip(1) =~= chunk@.skip(i as int + 1));
            }
            self.buf.push(b);
            if b == 10 {
                let ghost prev = out@;
                let ghost pe0 = self.printempty;
                let ghost num0 = self.linenum as int;
                let ghost buf1 = self.buf@;
                let num = handle_buf(
                    &self.buf,
                    &mut self.printempty,
                    self.linenum,
                    &self.config,
                    out,
                );
                proof {
                    lemma_flush_bounds(buf1, num0, pe0, self.config);
                }
                self.linenum = num;
                self.buf.clear();
                proof {
                    let f = flush_spec(buf1, num0, pe0, self.config);
                    assert(out@ == prev + f.0);
                    assert(out@.take(old(out)@.len() as int) =~= old(out)@);
                    assert(out@.skip(old(out)@.len() as int) =~= prev.skip(
                        old(out)@.len() as int,
                    ) + f.0);
                    let rest = run_spec(
                        chunk@.skip(i as int + 1),
                        self.buf@,
                        self.linenum as int,
                        self.printempty,
                        self.config,
                    );
                    seq_concat_assoc(prev.skip(old(out)@.len() as int), f.0, rest.0);
                }
            }
            i = i + 1;
        }
        proof {
            assert(chunk@.skip(chunk@.len() as int) =~= Seq::<u8>::empty());
            assert(full.0 =~= out@.skip(old(out)@.len() as int));
            assert(out@ =~= old(out)@ + out@.skip(old(out)@.len() as int));
        }
    }

    /// Ends the current input source: flushes a non-empty trailing buffer
    /// even without a final newline.
    pub fn finish_source(&mut self, out: &mut Vec<u8>)
        requires
            old(self).linenum as int + 2 <= u64::MAX as int,
        ensures
            ({
                let f = finish_spec(
                    old(self).buf@,
                    old(self).linenum as int,
                    old(self).printempty,
                    old(self).config,
                );
                &&& final(out)@ == old(out)@ + f.0
                &&& final(self).buf@ == Seq::<u8>::empty()
                &&& final(self).linenum as int == f.1
                &&& final(self).printempty == f.2
            }),
            final(self).config == old(self).config,
            final(self).linenum >= old(self).linenum,
    {
        if self.buf.len() > 0 {
            let num = handle_buf(&self.buf, &mut self.printempty, self.linenum, &self.config, out);
            proof {
                lemma_flush_bounds(
                    self.buf@,
                    self.linenum as int,
                    old(self).printempty,
                    self.config,
                );
            }
            self.linenum = num;
            self.buf.clear();
        } else {
            assert(out@ =~= old(out)@ + Seq::<u8>::empty());
        }
    }
}

} // verus!
