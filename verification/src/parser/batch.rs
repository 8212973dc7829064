//! Parse-many: a batch text concatenates per-file dumps behind a file
//! separator, and each segment divides into a human-readable label and the
//! quoted-term text behind a label separator. This module splits a batch
//! and parses every segment's dump, yielding the label and the outcome per
//! segment; whether to stop after a failure is the caller's policy.

use vstd::prelude::*;

use crate::error::{Error, ErrorV};
use crate::parser::ast::{Expr, ExprV};
use crate::parser::grammar::{spec_parse_text, ParseErrV};
use crate::parser::lexer::string_of_chars;
use crate::parser::parse_quoted;

verus! {

/// The separator between per-file segments of a batch.
pub open spec fn file_sep() -> Seq<char> {
    seq!['@', '!', '&', '*', '(', '^', ')', '|']
}

/// The separator between a segment's label and its quoted-term text.
pub open spec fn label_sep() -> Seq<char> {
    seq!['|', ')', '&', '@', '^', '#', '%']
}

/// Whether `sep` stands in `s` at position `i`.
pub open spec fn match_at(s: Seq<char>, sep: Seq<char>, i: int) -> bool {
    &&& 0 <= i
    &&& i + sep.len() <= s.len()
    &&& s.subrange(i, i + sep.len()) == sep
}

/// The first position at or after `i` where `sep` stands in `s`, if any.
pub open spec fn find_from(s: Seq<char>, sep: Seq<char>, i: int) -> Option<int>
    decreases s.len() - i,
{
    if sep.len() < 1 || i < 0 || i + sep.len() > s.len() {
        None
    } else if match_at(s, sep, i) {
        Some(i)
    } else {
        find_from(s, sep, i + 1)
    }
}

/// A found separator stands no earlier than where the search began, and
/// fits inside the text.
pub proof fn lemma_find_from_bounds(s: Seq<char>, sep: Seq<char>, i: int)
    ensures
        find_from(s, sep, i) matches Some(j) ==> i <= j && j + sep.len() <= s.len(),
    decreases s.len() - i,
{
    if sep.len() >= 1 && 0 <= i && i + sep.len() <= s.len() && !match_at(s, sep, i) {
        lemma_find_from_bounds(s, sep, i + 1);
    }
}

/// The pieces of `s` from position `i` on, taking each separator
/// occurrence left to right: what remains between and around them. There
/// is always at least one piece.
pub open spec fn spec_split_from(s: Seq<char>, sep: Seq<char>, i: int) -> Seq<Seq<char>>
    decreases s.len() - i,
        when 0 <= i <= s.len() && sep.len() >= 1
        via spec_split_from_decreases
{
    match find_from(s, sep, i) {
        None => seq![s.subrange(i, s.len() as int)],
        Some(j) => seq![s.subrange(i, j)] + spec_split_from(s, sep, j + sep.len()),
    }
}

#[via_fn]
proof fn spec_split_from_decreases(s: Seq<char>, sep: Seq<char>, i: int) {
    lemma_find_from_bounds(s, sep, i);
}

/// The pieces of `s` around the occurrences of `sep`, as `str::split`
/// yields them.
pub open spec fn spec_split(s: Seq<char>, sep: Seq<char>) -> Seq<Seq<char>> {
    spec_split_from(s, sep, 0)
}

/// Splitting yields at least one piece.
pub proof fn lemma_split_from_nonempty(s: Seq<char>, sep: Seq<char>, i: int)
    requires
        0 <= i <= s.len(),
        sep.len() >= 1,
    ensures
        spec_split_from(s, sep, i).len() >= 1,
{
    lemma_find_from_bounds(s, sep, i);
}

/// What one nonempty segment yields: its label — the piece before the
/// first label separator — and the parse of its quoted-term text, the
/// piece between the first and second label separator. A segment without
/// a label separator has no dump text: its whole text is the label and the
/// empty dump fails the parse.
pub open spec fn spec_segment_item(seg: Seq<char>) -> (Seq<char>, Result<ExprV, ParseErrV>) {
    let pieces = spec_split(seg, label_sep());
    let label = pieces[0];
    let body = if pieces.len() >= 2 {
        pieces[1]
    } else {
        Seq::empty()
    };
    (label, spec_parse_text(body, false))
}

/// The items of the segments from index `i` on, empty segments skipped.
pub open spec fn spec_items(segs: Seq<Seq<char>>, i: int) -> Seq<
    (Seq<char>, Result<ExprV, ParseErrV>),
>
    decreases segs.len() - i,
{
    if !(0 <= i < segs.len()) {
        Seq::empty()
    } else if segs[i].len() == 0 {
        spec_items(segs, i + 1)
    } else {
        seq![spec_segment_item(segs[i])] + spec_items(segs, i + 1)
    }
}

/// What parse-many yields on a batch text: one item per nonempty segment,
/// in order — the model of [`parse_many`].
pub open spec fn spec_parse_many(s: Seq<char>) -> Seq<(Seq<char>, Result<ExprV, ParseErrV>)> {
    spec_items(spec_split(s, file_sep()), 0)
}

/// What the executable parse-many must return: labels and outcomes equal,
/// item for item, to what the model says.
pub open spec fn items_match(
    r: Seq<(String, Result<Expr, Error>)>,
    sv: Seq<(Seq<char>, Result<ExprV, ParseErrV>)>,
) -> bool {
    &&& r.len() == sv.len()
    &&& forall|k: int|
        0 <= k < r.len() ==> (#[trigger] r[k]).0@ == sv[k].0 && (match sv[k].1 {
            Ok(ev) => r[k].1 matches Ok(e) && e@ == ev,
            Err(pe) => r[k].1 matches Err(err) && err@ == ErrorV::ParseError(pe),
        })
}

/// The characters of `input`, one by one.
fn to_chars(input: &str) -> (r: Vec<char>)
    ensures
        r@ == input@,
{
    let n = input.unicode_len();
    let mut out: Vec<char> = Vec::new();
    let mut k: usize = 0;
    while k < n
        invariant
            n == input@.len(),
            k <= n,
            out@ == input@.subrange(0, k as int),
        decreases n - k,
    {
        out.push(input.get_char(k));
        proof {
            assert(input@.subrange(0, k + 1 as int) =~= input@.subrange(0, k as int).push(
                input@[k as int],
            ));
        }
        k = k + 1;
    }
    proof {
        assert(input@.subrange(0, input@.len() as int) =~= input@);
    }
    out
}

/// The file separator, as characters.
fn file_sep_chars() -> (r: Vec<char>)
    ensures
        r@ == file_sep(),
{
    let out = vec!['@', '!', '&', '*', '(', '^', ')', '|'];
    proof {
        assert(out@ =~= file_sep());
    }
    out
}

/// The label separator, as characters.
fn label_sep_chars() -> (r: Vec<char>)
    ensures
        r@ == label_sep(),
{
    let out = vec!['|', ')', '&', '@', '^', '#', '%'];
    proof {
        assert(out@ =~= label_sep());
    }
    out
}

/// The first position at or after `from` where `sep` stands in `cs`.
fn find_sep(cs: &Vec<char>, sep: &Vec<char>, from: usize) -> (r: Option<usize>)
    requires
        from <= cs@.len(),
        sep@.len() >= 1,
    ensures
        match find_from(cs@, sep@, from as int) {
            Some(j) => r matches Some(u) && u == j,
            None => r is None,
        },
{
    let n = cs.len();
    let m = sep.len();
    let mut i = from;
    loop
        invariant
            from <= i <= n,
            n == cs@.len(),
            m == sep@.len(),
            m >= 1,
            find_from(cs@, sep@, from as int) == find_from(cs@, sep@, i as int),
        decreases n - i,
    {
        if m > n - i {
            return None;
        }
        let mut j: usize = 0;
        let mut matched = true;
        while j < m
            invariant
                j <= m,
                i + m <= n,
                n == cs@.len(),
                m == sep@.len(),
                matched == (forall|q: int| 0 <= q < j ==> cs@[i + q] == sep@[q]),
                matched || j == m,
            decreases m - j,
        {
            if cs[i + j] != sep[j] {
                matched = false;
                proof {
                    assert(!(cs@[i + j] == sep@[j as int]));
                }
                j = m;
            } else {
                proof {
                    assert forall|q: int| 0 <= q < j + 1 implies cs@[i + q] == sep@[q] by {
                        if q == j {
                            assert(cs@[i + j] == sep@[j as int]);
                        }
                    }
                }
                j = j + 1;
            }
        }
        if matched {
            proof {
                assert(cs@.subrange(i as int, i + m as int) =~= sep@);
                assert(match_at(cs@, sep@, i as int));
            }
            return Some(i);
        }
        proof {
            assert(exists|q: int| 0 <= q < m && cs@[i + q] != sep@[q]);
            let q = choose|q: int| 0 <= q < m && cs@[i + q] != sep@[q];
            assert(cs@.subrange(i as int, i + m as int)[q] == cs@[i + q]);
            assert(cs@.subrange(i as int, i + m as int) != sep@);
            assert(!match_at(cs@, sep@, i as int));
        }
        i = i + 1;
    }
}

/// The views of collected pieces.
pub open spec fn pieces_views(v: Seq<Vec<char>>) -> Seq<Seq<char>> {
    v.map(|k: int, p: Vec<char>| p@)
}

/// Splits `cs` around the occurrences of `sep`, left to right.
fn split_chars(cs: &Vec<char>, sep: &Vec<char>) -> (r: Vec<Vec<char>>)
    requires
        sep@.len() >= 1,
    ensures
        pieces_views(r@) == spec_split(cs@, sep@),
{
    let n = cs.len();
    let mut out: Vec<Vec<char>> = Vec::new();
    let mut pos: usize = 0;
    loop
        invariant
            pos <= n,
            n == cs@.len(),
            sep@.len() >= 1,
            spec_split(cs@, sep@) == pieces_views(out@) + spec_split_from(
                cs@,
                sep@,
                pos as int,
            ),
        decreases n - pos,
    {
        let ghost prev = out@;
        proof {
            lemma_find_from_bounds(cs@, sep@, pos as int);
        }
        match find_sep(cs, sep, pos) {
            None => {
                let mut piece: Vec<char> = Vec::new();
                let mut k = pos;
                while k < n
                    invariant
                        pos <= k <= n,
                        n == cs@.len(),
                        piece@ == cs@.subrange(pos as int, k as int),
                    decreases n - k,
                {
                    piece.push(cs[k]);
                    proof {
                        assert(cs@.subrange(pos as int, k + 1 as int) =~= cs@.subrange(
                            pos as int,
                            k as int,
                        ).push(cs@[k as int]));
                    }
                    k = k + 1;
                }
                out.push(piece);
                proof {
                    assert(pieces_views(out@) =~= pieces_views(prev) + seq![
                        cs@.subrange(pos as int, n as int),
                    ]);
                    assert(pieces_views(out@) =~= spec_split(cs@, sep@));
                }
                return out;
            },
            Some(j) => {
                let mut piece: Vec<char> = Vec::new();
                let mut k = pos;
                while k < j
                    invariant
                        pos <= k <= j,
                        j <= n,
                        n == cs@.len(),
                        piece@ == cs@.subrange(pos as int, k as int),
                    decreases j - k,
                {
                    piece.push(cs[k]);
                    proof {
                        assert(cs@.subrange(pos as int, k + 1 as int) =~= cs@.subrange(
                            pos as int,
                            k as int,
                        ).push(cs@[k as int]));
                    }
                    k = k + 1;
                }
                out.push(piece);
                let ghost rest = spec_split_from(cs@, sep@, j + sep@.len());
                proof {
                    assert(pieces_views(out@) =~= pieces_views(prev) + seq![
                        cs@.subrange(pos as int, j as int),
                    ]);
                    assert((pieces_views(prev) + (seq![cs@.subrange(pos as int, j as int)]
                        + rest)) =~= (pieces_views(prev) + seq![
                        cs@.subrange(pos as int, j as int),
                    ]) + rest);
                }
                pos = j + sep.len();
            },
        }
    }
}

/// Parses a batch text: per nonempty segment, its label and the parse of
/// its dump text, in order, exactly as [`spec_parse_many`] says. Every
/// segment is parsed; a caller that stops at the first failure reads the
/// items up to and including the first `Err`.
pub fn parse_many(contents: &str) -> (r: Vec<(String, Result<Expr, Error>)>)
    ensures
        items_match(r@, spec_parse_many(contents@)),
{
    let chars = to_chars(contents);
    let fsep = file_sep_chars();
    let lsep = label_sep_chars();
    let segments = split_chars(&chars, &fsep);
    let ghost segs = pieces_views(segments@);
    let mut out: Vec<(String, Result<Expr, Error>)> = Vec::new();
    let mut i: usize = 0;
    while i < segments.len()
        invariant
            i <= segments@.len(),
            segs == pieces_views(segments@),
            lsep@ == label_sep(),
            spec_parse_many(contents@) == spec_items(segs, 0),
            items_match(out@, spec_items(segs, 0).subrange(
                0,
                spec_items(segs, 0).len() - spec_items(segs, i as int).len(),
            )),
            spec_items(segs, i as int).len() <= spec_items(segs, 0).len(),
            spec_items(segs, 0) == spec_items(segs, 0).subrange(
                0,
                spec_items(segs, 0).len() - spec_items(segs, i as int).len(),
            ) + spec_items(segs, i as int),
        decreases segments@.len() - i,
    {
        let ghost done = spec_items(segs, 0).len() - spec_items(segs, i as int).len();
        let segment = &segments[i];
        if segment.len() > 0 {
            let pieces = split_chars(segment, &lsep);
            proof {
                lemma_split_from_nonempty(segs[i as int], label_sep(), 0);
                assert(pieces_views(pieces@)[0] == pieces@[0]@);
            }
            let label = string_of_chars(&pieces[0]);
            let body_string = if pieces.len() >= 2 {
                proof {
                    assert(pieces_views(pieces@)[1] == pieces@[1]@);
                }
                string_of_chars(&pieces[1])
            } else {
                String::new()
            };
            let result = parse_quoted(body_string.as_str());
            let ghost prev = out@;
            out.push((label, result));
            proof {
                let items0 = spec_items(segs, 0);
                let item = spec_segment_item(segs[i as int]);
                assert(spec_items(segs, i as int) == seq![item] + spec_items(
                    segs,
                    i + 1 as int,
                ));
                lemma_items_suffix(segs, i as int);
                assert(items0.subrange(0, done + 1) =~= items0.subrange(0, done).push(
                    items0[done],
                ));
                assert(items0[done] == item);
            }
        } else {
            proof {
                assert(spec_items(segs, i as int) == spec_items(segs, i + 1 as int));
            }
        }
        i = i + 1;
    }
    proof {
        assert(spec_items(segs, segments@.len() as int) =~= Seq::<
            (Seq<char>, Result<ExprV, ParseErrV>),
        >::empty());
        assert(spec_items(segs, 0).subrange(0, spec_items(segs, 0).len() as int) =~= spec_items(
            segs,
            0,
        ));
    }
    out
}

/// The items from `i` on are a suffix of all the items, and one step of
/// the recursion peels exactly the items of segment `i`.
proof fn lemma_items_suffix(segs: Seq<Seq<char>>, i: int)
    requires
        0 <= i <= segs.len(),
    ensures
        spec_items(segs, i).len() <= spec_items(segs, 0).len(),
        spec_items(segs, 0) == spec_items(segs, 0).subrange(
            0,
            spec_items(segs, 0).len() - spec_items(segs, i).len(),
        ) + spec_items(segs, i),
    decreases i,
{
    if i > 0 {
        lemma_items_suffix(segs, i - 1);
        assert(spec_items(segs, i).len() <= spec_items(segs, i - 1).len());
        assert(spec_items(segs, 0) =~= spec_items(segs, 0).subrange(
            0,
            spec_items(segs, 0).len() - spec_items(segs, i).len(),
        ) + spec_items(segs, i));
    } else {
        assert(spec_items(segs, 0) =~= spec_items(segs, 0).subrange(
            0,
            spec_items(segs, 0).len() - spec_items(segs, 0).len(),
        ) + spec_items(segs, 0));
    }
}

} // verus!
