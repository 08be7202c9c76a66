//! Laws of the engine, stated and proved over its specification functions:
//! idempotence of the escaping pass, byte accounting of the regrouper on
//! groups that fail to resolve, and the raw copy made by a configuration
//! with every option disabled.

use vstd::prelude::*;

use crate::classify::classify;
use crate::classify::escape_render;
use crate::classify::seq_concat_assoc;
use crate::codepoint::conts_ok;
use crate::codepoint::fold_codepoint;
use crate::codepoint::group_render;
use crate::codepoint::scalar_ok;
use crate::config::Config;
use crate::engine::cat_spec;
use crate::engine::finish_spec;
use crate::engine::flush_spec;
use crate::engine::run_spec;
use crate::line::line_blank;
use crate::render::group_len;
use crate::render::raw_render;

verus! {

/// True when `b` is its own display form under `cfg`.
spec fn renders_literally(b: u8, cfg: Config) -> bool {
    classify(b, cfg) == seq![b]
}

/// Every byte the classifier emits is its own display form under the same
/// configuration: renderings are made of printable ASCII, newlines, and tabs
/// that are not being shown.
proof fn lemma_classify_output_literal(b: u8, cfg: Config)
    ensures
        forall|j: int|
            0 <= j < classify(b, cfg).len() ==> renders_literally(
                #[trigger] classify(b, cfg)[j],
                cfg,
            ),
{
    assert forall|j: int| 0 <= j < classify(b, cfg).len() implies renders_literally(
        classify(b, cfg)[j],
        cfg,
    ) by {
        let c = classify(b, cfg)[j];
        assert(c == 10 || c == 9 || (0x20 <= c <= 0x7e));
        assert(!(cfg.show_tabs && c == 9));
    }
}

/// A sequence whose bytes are each their own display form renders to itself.
proof fn lemma_escape_render_literal(s: Seq<u8>, cfg: Config)
    requires
        forall|j: int| 0 <= j < s.len() ==> renders_literally(#[trigger] s[j], cfg),
    ensures
        escape_render(s, cfg) == s,
    decreases s.len(),
{
    if s.len() == 0 {
        assert(escape_render(s, cfg) =~= s);
    } else {
        lemma_escape_render_literal(s.skip(1), cfg);
        assert(renders_literally(s[0], cfg));
        assert(escape_render(s, cfg) =~= s);
    }
}

/// Every byte of an escaped rendering is its own display form.
proof fn lemma_escape_render_all_literal(s: Seq<u8>, cfg: Config)
    ensures
        forall|j: int|
            0 <= j < escape_render(s, cfg).len() ==> renders_literally(
                #[trigger] escape_render(s, cfg)[j],
                cfg,
            ),
    decreases s.len(),
{
    if s.len() > 0 {
        lemma_classify_output_literal(s[0], cfg);
        lemma_escape_render_all_literal(s.skip(1), cfg);
        assert forall|j: int| 0 <= j < escape_render(s, cfg).len() implies renders_literally(
            escape_render(s, cfg)[j],
            cfg,
        ) by {
            let c = classify(s[0], cfg);
            if j < c.len() {
                assert(escape_render(s, cfg)[j] == c[j]);
            } else {
                assert(escape_render(s, cfg)[j] == escape_render(s.skip(1), cfg)[j - c.len()]);
            }
        }
    }
}

/// The escaping pass applied to every byte of a sequence is idempotent:
/// re-escaping already-escaped output changes nothing, so display forms are
/// never double-escaped.
pub proof fn lemma_classifier_idempotent(s: Seq<u8>, cfg: Config)
    ensures
        escape_render(escape_render(s, cfg), cfg) == escape_render(s, cfg),
{
    lemma_escape_render_all_literal(s, cfg);
    lemma_escape_render_literal(escape_render(s, cfg), cfg);
}

/// A complete buffered group that fails to resolve — a continuation slot
/// above 0xBF, or a folded value with no character mapping — is displayed by
/// handing each of its bytes to the classifier in order: exactly the bytes
/// consumed, never more, never fewer.
pub proof fn lemma_failed_group_escapes(g: Seq<u8>, cfg: Config)
    requires
        !(conts_ok(g) && scalar_ok(fold_codepoint(g))),
    ensures
        group_render(g, cfg) == escape_render(g, cfg),
{
}

/// A line that ends before a buffered group is complete is displayed by
/// handing each remaining byte to the classifier in order: exactly the bytes
/// consumed, never more, never fewer.
pub proof fn lemma_incomplete_group_escapes(s: Seq<u8>, cfg: Config)
    requires
        s.len() > 0,
        group_len(s[0]) > s.len(),
    ensures
        raw_render(s, cfg) == escape_render(s, cfg),
{
}

/// True when `b` passes through the classifier unchanged with no option set:
/// printable ASCII, tab, or newline.
pub open spec fn plain_literal(b: u8) -> bool {
    (0x20 <= b && b <= 0x7e) || b == 9 || b == 10
}

/// True when `g` is one well-formed multi-byte group: as long as its leading
/// byte announces, continuation bytes in their proper range, folding to a
/// scalar value whose UTF-8 encoding is `g` itself.
pub open spec fn transparent_group(g: Seq<u8>) -> bool {
    &&& 2 <= g.len() <= 4
    &&& g.len() == group_len(g[0])
    &&& (forall|j: int| 1 <= j < g.len() ==> 128 <= #[trigger] g[j] <= 191)
    &&& scalar_ok(fold_codepoint(g))
    &&& vstd::utf8::encode_scalar(fold_codepoint(g) as u32) == g
}

/// True when the byte sequence is made only of bytes that display as
/// themselves and of well-formed multi-byte groups: the inputs a raw copy
/// reproduces exactly.
pub open spec fn transparent(s: Seq<u8>) -> bool
    decreases s.len(),
{
    if s.len() == 0 {
        true
    } else {
        let n = group_len(s[0]);
        if n == 1 {
            plain_literal(s[0]) && transparent(s.skip(1))
        } else {
            n <= s.len() && transparent_group(s.take(n)) && transparent(s.skip(n))
        }
    }
}

/// Raw display of a transparent sequence reproduces it byte for byte, as
/// long as no option asks for visible display.
proof fn lemma_raw_render_transparent(s: Seq<u8>, cfg: Config)
    requires
        !cfg.show_nonprinting,
        !cfg.show_tabs,
        transparent(s),
    ensures
        raw_render(s, cfg) == s,
    decreases s.len(),
{
    if s.len() > 0 {
        let n = group_len(s[0]);
        if n == 1 {
            lemma_raw_render_transparent(s.skip(1), cfg);
            assert(classify(s[0], cfg) == seq![s[0]]);
            assert(raw_render(s, cfg) =~= s);
        } else {
            let g = s.take(n);
            lemma_raw_render_transparent(s.skip(n), cfg);
            assert(conts_ok(g)) by {
                assert(forall|j: int| 1 <= j < g.len() ==> 128 <= #[trigger] g[j] <= 191);
            }
            assert(group_render(g, cfg) == g);
            assert(raw_render(s, cfg) =~= s);
        }
    }
}

/// The index of the first newline byte of `s`, or a negative value when `s`
/// has none.
pub open spec fn first_nl(s: Seq<u8>) -> int
    decreases s.len(),
{
    if s.len() == 0 {
        -1
    } else if s[0] == 10 {
        0
    } else {
        let r = first_nl(s.skip(1));
        if r < 0 {
            -1
        } else {
            r + 1
        }
    }
}

/// What `first_nl` finds: a newline with none before it, or no newline at
/// all.
proof fn lemma_first_nl(s: Seq<u8>)
    ensures
        first_nl(s) >= 0 ==> first_nl(s) < s.len() && s[first_nl(s)] == 10 && (forall|j: int|
            0 <= j < first_nl(s) ==> s[j] != 10),
        first_nl(s) < 0 ==> forall|j: int| 0 <= j < s.len() ==> s[j] != 10,
    decreases s.len(),
{
    if s.len() > 0 && s[0] != 10 {
        lemma_first_nl(s.skip(1));
        assert forall|j: int| 0 <= j < s.len() && first_nl(s) < 0 implies s[j] != 10 by {
            if j > 0 {
                assert(s.skip(1)[j - 1] == s[j]);
            }
        }
        if first_nl(s) >= 0 {
            assert forall|j: int| 0 <= j < first_nl(s) implies s[j] != 10 by {
                if j > 0 {
                    assert(s.skip(1)[j - 1] == s[j]);
                }
            }
        }
    }
}

/// A newline at position `i` with none before it is the first newline.
proof fn lemma_first_nl_at(s: Seq<u8>, i: int)
    requires
        0 <= i < s.len(),
        s[i] == 10,
        forall|j: int| 0 <= j < i ==> s[j] != 10,
    ensures
        first_nl(s) == i,
    decreases s.len(),
{
    if i > 0 {
        assert(s[0] != 10);
        assert forall|j: int| 0 <= j < i - 1 implies s.skip(1)[j] != 10 by {
            assert(s.skip(1)[j] == s[j + 1]);
        }
        assert(s.skip(1)[i - 1] == s[i]);
        lemma_first_nl_at(s.skip(1), i - 1);
    }
}

/// Splitting a transparent sequence after its first newline leaves two
/// transparent parts: groups never straddle a newline.
proof fn lemma_transparent_split(s: Seq<u8>)
    requires
        transparent(s),
        first_nl(s) >= 0,
    ensures
        transparent(s.take(first_nl(s) + 1)),
        transparent(s.skip(first_nl(s) + 1)),
    decreases s.len(),
{
    lemma_first_nl(s);
    let i = first_nl(s);
    let n = group_len(s[0]);
    if n == 1 {
        if s[0] == 10 {
            assert(i == 0) by {
                lemma_first_nl_at(s, 0);
            }
            let line = s.take(1);
            assert(line[0] == 10);
            assert(line.skip(1) =~= Seq::<u8>::empty());
            assert(transparent(Seq::<u8>::empty()));
            assert(transparent(line));
            assert(s.skip(1) =~= s.skip(i + 1));
        } else {
            assert(first_nl(s.skip(1)) == i - 1) by {
                assert(s.skip(1)[i - 1] == s[i]);
                assert forall|j: int| 0 <= j < i - 1 implies s.skip(1)[j] != 10 by {
                    assert(s.skip(1)[j] == s[j + 1]);
                }
                lemma_first_nl_at(s.skip(1), i - 1);
            }
            lemma_transparent_split(s.skip(1));
            let line = s.take(i + 1);
            assert(line[0] == s[0]);
            assert(line.skip(1) =~= s.skip(1).take(i));
            assert(transparent(line));
            assert(s.skip(i + 1) =~= s.skip(1).skip(i));
        }
    } else {
        let g = s.take(n);
        assert(g[0] == s[0]);
        assert(s[0] >= 192);
        assert forall|j: int| 0 <= j < n implies s[j] != 10 by {
            if j > 0 {
                assert(128 <= g[j] <= 191);
                assert(g[j] == s[j]);
            }
        }
        assert(i >= n);
        assert(first_nl(s.skip(n)) == i - n) by {
            assert(s.skip(n)[i - n] == s[i]);
            assert forall|j: int| 0 <= j < i - n implies s.skip(n)[j] != 10 by {
                assert(s.skip(n)[j] == s[j + n]);
            }
            lemma_first_nl_at(s.skip(n), i - n);
        }
        lemma_transparent_split(s.skip(n));
        let line = s.take(i + 1);
        assert(line[0] == s[0]);
        assert(line.take(n) =~= g);
        assert(line.skip(n) =~= s.skip(n).take(i + 1 - n));
        assert(transparent(line));
        assert(s.skip(i + 1) =~= s.skip(n).skip(i + 1 - n));
    }
}

/// Bytes without a newline only accumulate: nothing is emitted and the state
/// is unchanged but for the grown buffer.
proof fn lemma_run_no_nl(input: Seq<u8>, buf: Seq<u8>, num: int, pe: bool, cfg: Config)
    requires
        forall|j: int| 0 <= j < input.len() ==> input[j] != 10,
    ensures
        run_spec(input, buf, num, pe, cfg) == (Seq::<u8>::empty(), buf + input, num, pe),
    decreases input.len(),
{
    if input.len() == 0 {
        assert(buf + input =~= buf);
    } else {
        assert forall|j: int| 0 <= j < input.skip(1).len() implies input.skip(1)[j] != 10 by {
            assert(input.skip(1)[j] == input[j + 1]);
        }
        lemma_run_no_nl(input.skip(1), buf.push(input[0]), num, pe, cfg);
        assert(buf.push(input[0]) + input.skip(1) =~= buf + input);
    }
}

/// Running a concatenation equals running the first part and then the
/// second from the state the first part left behind.
proof fn lemma_run_append(a: Seq<u8>, b: Seq<u8>, buf: Seq<u8>, num: int, pe: bool, cfg: Config)
    ensures
        ({
            let r1 = run_spec(a, buf, num, pe, cfg);
            let r2 = run_spec(b, r1.1, r1.2, r1.3, cfg);
            run_spec(a + b, buf, num, pe, cfg) == (r1.0 + r2.0, r2.1, r2.2, r2.3)
        }),
    decreases a.len(),
{
    if a.len() == 0 {
        assert(a + b =~= b);
        let r2 = run_spec(b, buf, num, pe, cfg);
        assert(Seq::<u8>::empty() + r2.0 =~= r2.0);
    } else {
        assert((a + b).skip(1) =~= a.skip(1) + b);
        assert((a + b)[0] == a[0]);
        if a[0] == 10 {
            let f = flush_spec(buf.push(a[0]), num, pe, cfg);
            lemma_run_append(a.skip(1), b, Seq::empty(), f.1, f.2, cfg);
            let ra = run_spec(a.skip(1), Seq::empty(), f.1, f.2, cfg);
            let r2 = run_spec(b, ra.1, ra.2, ra.3, cfg);
            seq_concat_assoc(f.0, ra.0, r2.0);
        } else {
            lemma_run_append(a.skip(1), b, buf.push(a[0]), num, pe, cfg);
        }
    }
}

/// Running one whole line from an empty buffer emits exactly its flush and
/// leaves the buffer empty.
proof fn lemma_run_line(line: Seq<u8>, num: int, pe: bool, cfg: Config)
    requires
        line.len() >= 1,
        line[line.len() - 1] == 10,
        forall|j: int| 0 <= j < line.len() - 1 ==> line[j] != 10,
    ensures
        ({
            let f = flush_spec(line, num, pe, cfg);
            run_spec(line, Seq::empty(), num, pe, cfg) == (f.0, Seq::<u8>::empty(), f.1, f.2)
        }),
{
    let content = line.take(line.len() - 1);
    let tail = seq![10u8];
    assert(content + tail =~= line);
    assert forall|j: int| 0 <= j < content.len() implies content[j] != 10 by {
        assert(content[j] == line[j]);
    }
    lemma_run_no_nl(content, Seq::empty(), num, pe, cfg);
    assert(Seq::<u8>::empty() + content =~= content);
    lemma_run_append(content, tail, Seq::empty(), num, pe, cfg);
    let f = flush_spec(content.push(10u8), num, pe, cfg);
    assert(content.push(10u8) =~= line);
    assert(tail.skip(1) =~= Seq::<u8>::empty());
    assert(tail[0] == 10);
    let rest = run_spec(tail.skip(1), Seq::empty(), f.1, f.2, cfg);
    assert(rest.0 =~= Seq::<u8>::empty());
    assert(f.0 + Seq::<u8>::empty() =~= f.0);
    assert(Seq::<u8>::empty() + f.0 =~= f.0);
}

/// With every option disabled, the engine is the identity on transparent
/// inputs: the output bytes equal the input bytes.
proof fn lemma_plain_identity(input: Seq<u8>, cfg: Config)
    requires
        cfg.is_plain(),
        transparent(input),
    ensures
        cat_spec(input, cfg) == input,
    decreases input.len(),
{
    lemma_first_nl(input);
    let i = first_nl(input);
    if input.len() == 0 {
        assert(cat_spec(input, cfg) =~= input);
    } else if i >= 0 {
        let line = input.take(i + 1);
        let rest = input.skip(i + 1);
        lemma_transparent_split(input);
        assert(line + rest =~= input);
        lemma_run_append(line, rest, Seq::empty(), 1, false, cfg);
        assert(line.len() >= 1 && line[line.len() - 1] == 10);
        assert forall|j: int| 0 <= j < line.len() - 1 implies line[j] != 10 by {
            assert(line[j] == input[j]);
        }
        lemma_run_line(line, 1, false, cfg);
        lemma_raw_render_transparent(line, cfg);
        let f = flush_spec(line, 1, false, cfg);
        assert(f == (line, 1int, false));
        let rrest = run_spec(rest, Seq::empty(), 1, false, cfg);
        lemma_plain_identity(rest, cfg);
        seq_concat_assoc(line, rrest.0, finish_spec(rrest.1, rrest.2, rrest.3, cfg).0);
        assert(cat_spec(input, cfg) =~= input);
    } else {
        lemma_run_no_nl(input, Seq::empty(), 1, false, cfg);
        lemma_raw_render_transparent(input, cfg);
        assert(Seq::<u8>::empty() + input =~= input);
        assert(cat_spec(input, cfg) =~= input);
    }
}

/// True when the blank-line structure of `s` survives squeezing: every
/// blank line stands alone and is followed by a non-blank line.
pub open spec fn squeeze_safe(s: Seq<u8>) -> bool
    decreases s.len(),
{
    if s.len() == 0 {
        true
    } else {
        let i = first_nl(s);
        if i < 0 {
            true
        } else if i == 0 {
            s.len() > 1 && s[1] != 10 && squeeze_safe(s.skip(1))
        } else {
            let k = if i + 1 <= s.len() {
                i + 1
            } else {
                s.len() as int
            };
            squeeze_safe(s.skip(k))
        }
    }
}

/// With squeezing on but numbering and visible display off, a transparent,
/// squeeze-safe input runs through the engine unchanged, after any blank
/// line owed from before is paid off first.
proof fn lemma_squeeze_identity(input: Seq<u8>, num: int, pe: bool, cfg: Config)
    requires
        !cfg.number_all,
        !cfg.number_nonblank,
        cfg.squeeze_blank,
        !cfg.show_nonprinting,
        !cfg.show_tabs,
        transparent(input),
        squeeze_safe(input),
        pe ==> input.len() > 0 && input[0] != 10,
    ensures
        ({
            let r = run_spec(input, Seq::empty(), num, pe, cfg);
            let fin = finish_spec(r.1, r.2, r.3, cfg);
            r.0 + fin.0 == (if pe {
                seq![10u8]
            } else {
                Seq::<u8>::empty()
            }) + input
        }),
    decreases input.len(),
{
    lemma_first_nl(input);
    let i = first_nl(input);
    let owed: Seq<u8> = if pe {
        seq![10u8]
    } else {
        Seq::empty()
    };
    if input.len() == 0 {
        let r = run_spec(input, Seq::empty(), num, pe, cfg);
        let fin = finish_spec(r.1, r.2, r.3, cfg);
        assert(r.0 + fin.0 =~= owed + input);
    } else if i < 0 {
        lemma_run_no_nl(input, Seq::empty(), num, pe, cfg);
        lemma_raw_render_transparent(input, cfg);
        assert(Seq::<u8>::empty() + input =~= input);
        assert(!line_blank(input));
        let r = run_spec(input, Seq::empty(), num, pe, cfg);
        let fin = finish_spec(r.1, r.2, r.3, cfg);
        assert(fin.0 == owed + input);
        assert(r.0 + fin.0 =~= owed + input);
    } else if i == 0 {
        let line = input.take(1);
        let rest = input.skip(1);
        lemma_transparent_split(input);
        assert(line + rest =~= input);
        assert(line =~= seq![10u8]);
        lemma_run_append(line, rest, Seq::empty(), num, pe, cfg);
        lemma_run_line(line, num, pe, cfg);
        assert(line_blank(line));
        let f = flush_spec(line, num, pe, cfg);
        assert(f == (Seq::<u8>::empty(), num, true));
        lemma_squeeze_identity(rest, num, true, cfg);
        let rrest = run_spec(rest, Seq::empty(), num, true, cfg);
        let fin = finish_spec(rrest.1, rrest.2, rrest.3, cfg);
        assert(rrest.0 + fin.0 == seq![10u8] + rest);
        assert(seq![10u8] + rest =~= input);
        let r = run_spec(input, Seq::empty(), num, pe, cfg);
        assert(r.0 =~= rrest.0);
        assert(r.0 + fin.0 =~= owed + input);
    } else {
        let line = input.take(i + 1);
        let rest = input.skip(i + 1);
        lemma_transparent_split(input);
        assert(line + rest =~= input);
        lemma_run_append(line, rest, Seq::empty(), num, pe, cfg);
        assert(line.len() >= 1 && line[line.len() - 1] == 10);
        assert forall|j: int| 0 <= j < line.len() - 1 implies line[j] != 10 by {
            assert(line[j] == input[j]);
        }
        lemma_run_line(line, num, pe, cfg);
        lemma_raw_render_transparent(line, cfg);
        assert(!line_blank(line)) by {
            assert(line[0] == input[0] && input[0] != 10);
        }
        let f = flush_spec(line, num, pe, cfg);
        assert(f == (owed + line, num, false));
        lemma_squeeze_identity(rest, num, false, cfg);
        let rrest = run_spec(rest, Seq::empty(), num, false, cfg);
        let fin = finish_spec(rrest.1, rrest.2, rrest.3, cfg);
        assert(Seq::<u8>::empty() + rest =~= rest);
        assert(rrest.0 + fin.0 == rest);
        seq_concat_assoc(f.0, rrest.0, fin.0);
        seq_concat_assoc(owed, line, rest);
        let r = run_spec(input, Seq::empty(), num, pe, cfg);
        assert(r.0 + fin.0 =~= owed + input);
    }
}

/// With numbering and visible display disabled, the output bytes equal the
/// input bytes for every transparent input; when squeezing is also enabled,
/// this holds for input whose blank lines stand alone and are each followed
/// by a non-blank line.
pub proof fn lemma_raw_copy_identity(input: Seq<u8>, cfg: Config)
    requires
        !cfg.number_all,
        !cfg.number_nonblank,
        !cfg.show_nonprinting,
        !cfg.show_tabs,
        transparent(input),
        cfg.squeeze_blank ==> squeeze_safe(input),
    ensures
        cat_spec(input, cfg) == input,
{
    if cfg.squeeze_blank {
        lemma_squeeze_identity(input, 1, false, cfg);
        assert(Seq::<u8>::empty() + input =~= input);
    } else {
        lemma_plain_identity(input, cfg);
    }
}

} // verus!
