//! The round trip carried down to the text itself, for the trees whose
//! encoding needs no identifier: tuples, lists, numbers and binaries. For
//! them a witness text is written out token by token and proved, through
//! the real lexer and the real grammar, to parse back to the equal tree.
//! Atoms stay out here: their classification rests on the Unicode
//! alphanumeric class, of which the model states nothing; they are covered
//! by the token-level round trip in `laws`.

use vstd::prelude::*;

use crate::parser::ast::ExprV;
use crate::parser::grammar::{spec_parse_text, ParseErrV};
use crate::parser::laws::{encodable, encodable_seq, encode_elems, encode_toks, lemma_round_trip};
use crate::parser::lexer::{
    digit_run_end, lemma_spec_next_advances, marker_at, num_end, quote_end,
    spec_is_digit, spec_is_float_literal, spec_is_num_char, spec_lex, spec_lex_from, spec_next,
    LexStep, TokV,
};

verus! {

/// A tree whose encoding needs no identifier: tuples and lists of numbers
/// and binaries, with numeric text of the float-literal shape and binary
/// payloads free of double quotes.
pub open spec fn text_encodable(v: ExprV) -> bool
    decreases v,
{
    match v {
        ExprV::Tuple { exprs } => text_encodable_seq(exprs),
        ExprV::List { exprs } => text_encodable_seq(exprs),
        ExprV::Atom(name) => false,
        ExprV::Binary(data) => forall|k: int| 0 <= k < data.len() ==> data[k] != '"',
        ExprV::Number(text) => spec_is_float_literal(text),
        ExprV::Defmodule { exprs } => false,
    }
}

/// All members of a child sequence are text-encodable.
pub open spec fn text_encodable_seq(vs: Seq<ExprV>) -> bool
    decreases vs,
{
    forall|i: int| 0 <= i < vs.len() ==> text_encodable(#[trigger] vs[i])
}

/// A token such an encoding emits.
pub open spec fn good_tok(t: TokV) -> bool {
    match t {
        TokV::LCurly => true,
        TokV::RCurly => true,
        TokV::LBrace => true,
        TokV::RBrace => true,
        TokV::Comma => true,
        TokV::Number(text) => spec_is_float_literal(text),
        TokV::Quoted(data) => forall|k: int| 0 <= k < data.len() ==> data[k] != '"',
        _ => false,
    }
}

/// The text that denotes one such token.
pub open spec fn tok_text(t: TokV) -> Seq<char> {
    match t {
        TokV::LCurly => seq!['{'],
        TokV::RCurly => seq!['}'],
        TokV::LBrace => seq!['['],
        TokV::RBrace => seq![']'],
        TokV::Comma => seq![','],
        TokV::Number(text) => text,
        TokV::Quoted(data) => seq!['"'] + data + seq!['"'],
        _ => Seq::empty(),
    }
}

/// The text that denotes a token sequence, token by token.
pub open spec fn toks_text(ts: Seq<TokV>) -> Seq<char>
    decreases ts.len(),
{
    if ts.len() == 0 {
        Seq::empty()
    } else {
        tok_text(ts[0]) + toks_text(ts.subrange(1, ts.len() as int))
    }
}

/// The witness text of a text-encodable tree.
pub open spec fn encode_text(v: ExprV) -> Seq<char> {
    toks_text(encode_toks(v))
}

/// A well-formed token text: every token is one an encoding emits, and no
/// number token is followed by another — the greedy numeric capture would
/// fuse them.
pub open spec fn wf_toks(ts: Seq<TokV>) -> bool {
    &&& forall|k: int| 0 <= k < ts.len() ==> good_tok(#[trigger] ts[k])
    &&& forall|k: int|
        0 <= k < ts.len() - 1 ==> ((#[trigger] ts[k]) is Number ==> !(ts[k + 1] is Number))
}

/// A float literal starts with a digit.
proof fn lemma_float_first_digit(t: Seq<char>)
    requires
        spec_is_float_literal(t),
    ensures
        t.len() >= 1,
        spec_is_digit(t[0]),
{
    assert(digit_run_end(t, 0) >= 1);
}

/// The digits of a digit run.
proof fn lemma_digit_run_chars(t: Seq<char>, i: int)
    requires
        0 <= i,
    ensures
        forall|k: int| i <= k < digit_run_end(t, i) ==> spec_is_digit(#[trigger] t[k]),
        digit_run_end(t, i) >= i,
    decreases t.len() - i,
{
    if i < t.len() && spec_is_digit(t[i]) {
        lemma_digit_run_chars(t, i + 1);
    }
}

/// Every character of a float literal is one the numeric capture keeps:
/// a digit, `.` or `e`.
proof fn lemma_float_all_num_chars(t: Seq<char>)
    requires
        spec_is_float_literal(t),
    ensures
        forall|k: int| 0 <= k < t.len() ==> spec_is_num_char(#[trigger] t[k]),
{
    let k1 = digit_run_end(t, 0);
    lemma_digit_run_chars(t, 0);
    if k1 < t.len() {
        if t[k1] == '.' {
            let k2 = digit_run_end(t, k1 + 1);
            lemma_digit_run_chars(t, k1 + 1);
            if k2 < t.len() {
                lemma_digit_run_chars(t, k2 + 1);
                assert(digit_run_end(t, k2 + 1) == t.len());
                assert(k2 + 1 <= t.len());
            }
        } else {
            lemma_digit_run_chars(t, k1 + 1);
            assert(digit_run_end(t, k1 + 1) == t.len());
            assert(k1 + 1 <= t.len());
        }
    }
}

/// Where `L` capture-characters stand and the character after them stops
/// the capture, the numeric capture ends exactly after them.
proof fn lemma_num_scan(s: Seq<char>, i: int, len: int)
    requires
        0 <= i,
        i + len <= s.len(),
        len >= 0,
        forall|k: int| 0 <= k < len ==> spec_is_num_char(#[trigger] s[i + k]),
        i + len == s.len() || !spec_is_num_char(s[i + len]),
    ensures
        num_end(s, i) == i + len,
    decreases len,
{
    if len == 0 {
    } else {
        assert(spec_is_num_char(s[i + 0]));
        assert forall|k: int| 0 <= k < len - 1 implies spec_is_num_char(
            #[trigger] s[(i + 1) + k],
        ) by {
            assert(spec_is_num_char(s[i + (k + 1)]));
        }
        lemma_num_scan(s, i + 1, len - 1);
    }
}

/// Where `L` quote-free characters stand and a quote follows them, the
/// quoted capture ends exactly at that quote.
proof fn lemma_quote_scan(s: Seq<char>, i: int, len: int)
    requires
        0 <= i,
        len >= 0,
        i + len < s.len(),
        forall|k: int| 0 <= k < len ==> (#[trigger] s[i + k]) != '"',
        s[i + len] == '"',
    ensures
        quote_end(s, i) == i + len,
    decreases len,
{
    if len == 0 {
    } else {
        assert(s[i + 0] != '"');
        assert forall|k: int| 0 <= k < len - 1 implies (#[trigger] s[(i + 1) + k]) != '"' by {
            assert(s[i + (k + 1)] != '"');
        }
        lemma_quote_scan(s, i + 1, len - 1);
    }
}

/// At the start of a good token's text, with a capture-stopping boundary
/// after a number, the scan finds exactly that token — in either mode,
/// since the first character always matches a rule.
proof fn lemma_next_at_tok(s: Seq<char>, i: int, tk: TokV, strict: bool)
    requires
        good_tok(tk),
        0 <= i,
        i + tok_text(tk).len() <= s.len(),
        s.subrange(i, i + tok_text(tk).len()) == tok_text(tk),
        tk is Number ==> (i + tok_text(tk).len() == s.len() || !spec_is_num_char(
            s[i + tok_text(tk).len()],
        )),
    ensures
        spec_next(s, i, strict) == (LexStep::Token {
            start: i,
            tok: tk,
            end: i + tok_text(tk).len(),
        }),
{
    let text = tok_text(tk);
    assert(s[i] == text[0]) by {
        assert(s.subrange(i, i + text.len())[0] == s[i]);
    }
    match tk {
        TokV::Number(x) => {
            lemma_float_first_digit(x);
            lemma_float_all_num_chars(x);
            assert(!marker_at(s, i));
            assert forall|k: int| 0 <= k < text.len() implies spec_is_num_char(
                #[trigger] s[i + k],
            ) by {
                assert(s.subrange(i, i + text.len())[k] == s[i + k]);
            }
            lemma_num_scan(s, i, text.len() as int);
            assert(s.subrange(i, i + text.len()) =~= x);
        },
        TokV::Quoted(d) => {
            assert(text =~= seq!['"'] + d + seq!['"']);
            assert(s[i] == '"');
            assert(!marker_at(s, i));
            assert forall|k: int| 0 <= k < d.len() implies (#[trigger] s[(i + 1) + k]) != '"' by {
                assert(s.subrange(i, i + text.len())[k + 1] == s[i + 1 + k]);
                assert(text[k + 1] == d[k]);
            }
            assert(s[i + 1 + d.len()] == '"') by {
                assert(s.subrange(i, i + text.len())[d.len() + 1 as int] == s[i + 1
                    + d.len()]);
                assert(text[d.len() + 1 as int] == '"');
            }
            lemma_quote_scan(s, i + 1, d.len() as int);
            assert(quote_end(s, i + 1) == i + 1 + d.len());
            assert(quote_end(s, i + 1) < s.len());
            assert forall|k: int| 0 <= k < d.len() implies s.subrange(
                i + 1,
                i + 1 + d.len(),
            )[k] == d[k] by {
                assert(s.subrange(i, i + text.len())[k + 1] == s[i + 1 + k]);
                assert(text[k + 1] == d[k]);
            }
            assert(s.subrange(i + 1, i + 1 + d.len()) =~= d);
        },
        _ => {
            assert(!marker_at(s, i));
        },
    }
}

/// A good token's text is never empty, and never starts with a character
/// the numeric capture would keep, unless the token is itself a number.
proof fn lemma_tok_text_head(tk: TokV)
    requires
        good_tok(tk),
    ensures
        tok_text(tk).len() >= 1,
        !(tk is Number) ==> !spec_is_num_char(tok_text(tk)[0]),
{
    match tk {
        TokV::Number(x) => {
            lemma_float_first_digit(x);
        },
        TokV::Quoted(d) => {
            assert(tok_text(tk)[0] == '"');
        },
        _ => {},
    }
}

/// Lexing the text of a well-formed token sequence yields exactly those
/// tokens, in order, in either mode.
proof fn lemma_lex_toks_text(s: Seq<char>, i: int, ts: Seq<TokV>, strict: bool)
    requires
        wf_toks(ts),
        0 <= i <= s.len(),
        s.subrange(i, s.len() as int) == toks_text(ts),
    ensures
        spec_lex_from(s, i, strict) matches Ok(sp) && sp.len() == ts.len() && (forall|k: int|
            0 <= k < ts.len() ==> (#[trigger] sp[k]).1 == ts[k]),
    decreases ts.len(),
{
    if ts.len() == 0 {
        assert(i == s.len());
    } else {
        let tk = ts[0];
        let text = tok_text(tk);
        let rest = ts.subrange(1, ts.len() as int);
        let rest_text = toks_text(rest);
        assert(good_tok(tk));
        lemma_tok_text_head(tk);
        assert(toks_text(ts) == text + rest_text);
        assert(i + text.len() + rest_text.len() == s.len());
        assert(s.subrange(i, i + text.len()) =~= text) by {
            assert forall|k: int| 0 <= k < text.len() implies s.subrange(
                i,
                i + text.len(),
            )[k] == text[k] by {
                assert(s.subrange(i, s.len() as int)[k] == s[i + k]);
                assert((text + rest_text)[k] == text[k]);
            }
        }
        assert(s.subrange(i + text.len(), s.len() as int) =~= rest_text) by {
            assert forall|k: int| 0 <= k < rest_text.len() implies s.subrange(
                i + text.len(),
                s.len() as int,
            )[k] == rest_text[k] by {
                assert(s.subrange(i, s.len() as int)[text.len() + k] == s[i + text.len()
                    + k]);
                assert((text + rest_text)[text.len() + k] == rest_text[k]);
            }
        }
        // The boundary after a number token stops the numeric capture.
        if tk is Number {
            if rest.len() > 0 {
                assert(good_tok(rest[0]));
                assert(!(rest[0] is Number)) by {
                    assert(ts[0] is Number);
                    assert(ts[1int] == rest[0]);
                }
                lemma_tok_text_head(rest[0]);
                assert(toks_text(rest) == tok_text(rest[0]) + toks_text(
                    rest.subrange(1, rest.len() as int),
                ));
                assert(s[i + text.len()] == rest_text[0]);
                assert(rest_text[0] == tok_text(rest[0])[0]);
            } else {
                assert(rest_text =~= Seq::<char>::empty());
                assert(i + text.len() == s.len());
            }
        }
        lemma_next_at_tok(s, i, tk, strict);
        assert forall|k: int| 0 <= k < rest.len() implies good_tok(#[trigger] rest[k]) by {
            assert(ts[k + 1] == rest[k]);
        }
        assert forall|k: int|
            0 <= k < rest.len() - 1 && (#[trigger] rest[k]) is Number implies !(rest[k + 1]
            is Number) by {
            assert(ts[k + 1] == rest[k]);
            assert(ts[k + 2] == rest[k + 1]);
        }
        lemma_lex_toks_text(s, i + text.len(), rest, strict);
        lemma_spec_next_advances(s, i, strict);
        if let Ok(sp_rest) = spec_lex_from(s, i + text.len(), strict) {
            let head = (i, tk, i + text.len());
            let sp = seq![head] + sp_rest;
            assert(spec_lex_from(s, i, strict) == Ok::<_, crate::parser::lexer::LexicalErrorV>(
                sp,
            ));
            assert forall|k: int| 0 <= k < ts.len() implies (#[trigger] sp[k]).1 == ts[k] by {
                if k > 0 {
                    assert(sp[k] == sp_rest[k - 1]);
                    assert(rest[k - 1] == ts[k]);
                }
            }
        }
    }
}

/// Every token of a text-encodable tree's encoding is good, and no number
/// token directly follows another.
proof fn lemma_encode_wf(v: ExprV)
    requires
        text_encodable(v),
    ensures
        wf_toks(encode_toks(v)),
        encodable(v),
    decreases v, 0int,
{
    match v {
        ExprV::Tuple { exprs } => {
            if exprs.len() > 0 {
                lemma_encode_elems_wf(exprs);
                lemma_wf_bracketed(TokV::LCurly, encode_elems(exprs), TokV::RCurly);
            }
        },
        ExprV::List { exprs } => {
            if exprs.len() > 0 {
                lemma_encode_elems_wf(exprs);
                lemma_wf_bracketed(TokV::LBrace, encode_elems(exprs), TokV::RBrace);
            }
        },
        _ => {},
    }
}

/// As [`lemma_encode_wf`], for an element sequence.
proof fn lemma_encode_elems_wf(vs: Seq<ExprV>)
    requires
        vs.len() >= 1,
        text_encodable_seq(vs),
    ensures
        wf_toks(encode_elems(vs)),
        encodable_seq(vs),
    decreases vs, 1int,
{
    assert(text_encodable(vs[0]));
    lemma_encode_wf(vs[0]);
    if vs.len() > 1 {
        let rest = vs.subrange(1, vs.len() as int);
        assert forall|i: int| 0 <= i < rest.len() implies text_encodable(
            #[trigger] rest[i],
        ) by {
            assert(rest[i] == vs[i + 1]);
        }
        lemma_encode_elems_wf(rest);
        lemma_wf_concat_comma(encode_toks(vs[0]), encode_elems(rest));
        assert(encodable_seq(vs)) by {
            assert forall|i: int| 0 <= i < vs.len() implies encodable(#[trigger] vs[i]) by {
                if i > 0 {
                    assert(rest[i - 1] == vs[i]);
                }
            }
        }
    } else {
        assert(encodable_seq(vs)) by {
            assert forall|i: int| 0 <= i < vs.len() implies encodable(#[trigger] vs[i]) by {
                assert(vs[0] == vs[i]);
            }
        }
    }
}

/// Well-formedness survives joining two token texts with a comma.
#[verifier::rlimit(50)]
proof fn lemma_wf_concat_comma(a: Seq<TokV>, b: Seq<TokV>)
    requires
        wf_toks(a),
        wf_toks(b),
    ensures
        wf_toks(a + seq![TokV::Comma] + b),
{
    let ts = a + seq![TokV::Comma] + b;
    assert forall|k: int| 0 <= k < ts.len() implies good_tok(#[trigger] ts[k]) by {
        if k < a.len() {
            assert(ts[k] == a[k]);
        } else if k == a.len() {
            assert(ts[k] == TokV::Comma);
        } else {
            assert(ts[k] == b[k - a.len() - 1]);
        }
    }
    assert forall|k: int|
        0 <= k < ts.len() - 1 && (#[trigger] ts[k]) is Number implies !(ts[k + 1]
        is Number) by {
        if k + 1 < a.len() {
            assert(ts[k] == a[k] && ts[k + 1] == a[k + 1]);
        } else if k + 1 == a.len() {
            assert(ts[k + 1] == TokV::Comma);
        } else if k == a.len() {
            assert(ts[k] == TokV::Comma);
        } else {
            assert(ts[k] == b[k - a.len() - 1]);
            assert(ts[k + 1] == b[k - a.len()]);
        }
    }
}

/// Well-formedness survives wrapping a token text in delimiters.
proof fn lemma_wf_bracketed(open_tok: TokV, inner: Seq<TokV>, close_tok: TokV)
    requires
        wf_toks(inner),
        good_tok(open_tok),
        good_tok(close_tok),
        !(open_tok is Number),
        !(close_tok is Number),
    ensures
        wf_toks(seq![open_tok] + inner + seq![close_tok]),
{
    let ts = seq![open_tok] + inner + seq![close_tok];
    assert forall|k: int| 0 <= k < ts.len() implies good_tok(#[trigger] ts[k]) by {
        if k == 0 {
            assert(ts[k] == open_tok);
        } else if k <= inner.len() {
            assert(ts[k] == inner[k - 1]);
        } else {
            assert(ts[k] == close_tok);
        }
    }
    assert forall|k: int|
        0 <= k < ts.len() - 1 && (#[trigger] ts[k]) is Number implies !(ts[k + 1]
        is Number) by {
        if k == 0 {
            assert(ts[k] == open_tok);
        } else if k < inner.len() {
            assert(ts[k] == inner[k - 1]);
            assert(ts[k + 1] == inner[k]);
        } else if k == inner.len() {
            assert(ts[k + 1] == close_tok);
        }
    }
}

/// Round trip through the text itself: the witness text of a tree of
/// tuples, lists, numbers and binaries lexes and parses — in either mode,
/// whitespace-free as it is — back to the equal tree.
pub proof fn lemma_text_encode_round_trip(v: ExprV, strict: bool)
    ensures
        text_encodable(v) ==> spec_parse_text(encode_text(v), strict) == Ok::<
            ExprV,
            ParseErrV,
        >(v),
{
    if text_encodable(v) {
        let ts = encode_toks(v);
        let s = encode_text(v);
        lemma_encode_wf(v);
        assert(s.subrange(0, s.len() as int) =~= s);
        lemma_lex_toks_text(s, 0, ts, strict);
        if let Ok(sp) = spec_lex(s, strict) {
            assert(crate::parser::laws::toks_at(sp, 0, ts)) by {
                assert forall|k: int| 0 <= k < ts.len() implies #[trigger] ts[k] == sp[0
                    + k].1 by {
                    assert(sp[k].1 == ts[k]);
                }
            }
            lemma_round_trip(sp, v);
        }
    }
}

} // verus!
