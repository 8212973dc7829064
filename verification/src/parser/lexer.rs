//! The lexer: scans a dump string left to right and yields classified tokens
//! with half-open `[start, end)` character-offset spans.
//!
//! The scan keeps a five-character lookahead window over the input (the
//! longest rule, the `%{}` marker, needs three characters) and an absolute
//! offset that advances one character at a time. The whole scan is modelled
//! by the spec functions [`spec_next`] and [`spec_lex`], and every executable
//! item here is proved to follow them.

use vstd::prelude::*;

verus! {

/// A classified lexical unit. A numeric literal is kept as its captured
/// text, checked to denote a 64-bit float value (see
/// [`spec_is_float_literal`]); quoted payloads are kept verbatim, with no
/// escape processing. The empty-map marker `%{}` is emitted as
/// `Unquoted("%{}")`, ahead of the single-character rules.
#[derive(Debug, PartialEq)]
pub enum Tok {
    LCurly,
    RCurly,
    LBrace,
    RBrace,
    Comma,
    Colon,
    Number(String),
    Quoted(String),
    Unquoted(String),
    Nil,
    True,
    False,
    Access,
    Kernel,
}

/// The model of a [`Tok`]: the same classification over `Seq<char>`.
pub enum TokV {
    LCurly,
    RCurly,
    LBrace,
    RBrace,
    Comma,
    Colon,
    Number(Seq<char>),
    Quoted(Seq<char>),
    Unquoted(Seq<char>),
    Nil,
    True,
    False,
    Access,
    Kernel,
}

impl View for Tok {
    type V = TokV;

    open spec fn view(&self) -> TokV {
        match self {
            Tok::LCurly => TokV::LCurly,
            Tok::RCurly => TokV::RCurly,
            Tok::LBrace => TokV::LBrace,
            Tok::RBrace => TokV::RBrace,
            Tok::Comma => TokV::Comma,
            Tok::Colon => TokV::Colon,
            Tok::Number(text) => TokV::Number(text@),
            Tok::Quoted(s) => TokV::Quoted(s@),
            Tok::Unquoted(s) => TokV::Unquoted(s@),
            Tok::Nil => TokV::Nil,
            Tok::True => TokV::True,
            Tok::False => TokV::False,
            Tok::Access => TokV::Access,
            Tok::Kernel => TokV::Kernel,
        }
    }
}

impl Clone for Tok {
    /// A clone is the same token: equal kind, equal payload text.
    fn clone(&self) -> (r: Self)
        ensures
            r@ == self@,
    {
        match self {
            Tok::LCurly => Tok::LCurly,
            Tok::RCurly => Tok::RCurly,
            Tok::LBrace => Tok::LBrace,
            Tok::RBrace => Tok::RBrace,
            Tok::Comma => Tok::Comma,
            Tok::Colon => Tok::Colon,
            Tok::Number(text) => Tok::Number(text.clone()),
            Tok::Quoted(data) => Tok::Quoted(data.clone()),
            Tok::Unquoted(name) => Tok::Unquoted(name.clone()),
            Tok::Nil => Tok::Nil,
            Tok::True => Tok::True,
            Tok::False => Tok::False,
            Tok::Access => Tok::Access,
            Tok::Kernel => Tok::Kernel,
        }
    }
}

/// A fatal failure of the scan itself: a captured numeric substring that
/// does not form a 64-bit float literal, a quoted literal whose closing
/// quote never comes, or — in the strict mode only — a character matching
/// no rule at all. Offsets are absolute character offsets into the input.
#[derive(Debug, PartialEq, Eq, Clone, Copy)]
pub enum LexicalError {
    InvalidNumber { start: usize, end: usize },
    UnterminatedString { start: usize },
    UnrecognizedChar { at: usize },
}

/// The model of a [`LexicalError`], over unbounded offsets.
pub enum LexicalErrorV {
    InvalidNumber { start: int, end: int },
    UnterminatedString { start: int },
    UnrecognizedChar { at: int },
}

impl View for LexicalError {
    type V = LexicalErrorV;

    open spec fn view(&self) -> LexicalErrorV {
        match self {
            LexicalError::InvalidNumber { start, end } => LexicalErrorV::InvalidNumber {
                start: *start as int,
                end: *end as int,
            },
            LexicalError::UnterminatedString { start } => LexicalErrorV::UnterminatedString {
                start: *start as int,
            },
            LexicalError::UnrecognizedChar { at } => LexicalErrorV::UnrecognizedChar {
                at: *at as int,
            },
        }
    }
}

/// A token together with its `[start, end)` span, or a lexical error.
pub type Spanned<T, Loc, Error> = Result<(Loc, T, Loc), Error>;

/// What [`spec_next`] finds at a position: the end of input, the next token
/// with its span, or a lexical error.
pub enum LexStep {
    Eof,
    Token { start: int, tok: TokV, end: int },
    Error { err: LexicalErrorV },
}

/// Whether the characters at `i` begin the three-character `%{}` marker.
pub open spec fn marker_at(s: Seq<char>, i: int) -> bool {
    &&& i + 3 <= s.len()
    &&& s[i] == '%'
    &&& s[i + 1] == '{'
    &&& s[i + 2] == '}'
}

/// An ASCII decimal digit.
pub open spec fn spec_is_digit(c: char) -> bool {
    48 <= c as u32 <= 57
}

/// A character a numeric capture keeps consuming: a digit, `.` or `e`.
pub open spec fn spec_is_num_char(c: char) -> bool {
    spec_is_digit(c) || c == '.' || c == 'e'
}

/// The first position at or after `i` whose character is not an ASCII
/// digit, or `s.len()` if the digits run to the end.
pub open spec fn digit_run_end(s: Seq<char>, i: int) -> int
    decreases s.len() - i,
{
    if 0 <= i < s.len() && spec_is_digit(s[i]) {
        digit_run_end(s, i + 1)
    } else {
        i
    }
}

/// A run of one or more digits reaching exactly to the end of `t`: the form
/// an exponent part must have after its `e`.
pub open spec fn exponent_ok(t: Seq<char>, i: int) -> bool {
    i < t.len() && digit_run_end(t, i) == t.len()
}

/// Whether the captured text denotes a 64-bit float value: one or more
/// digits, then an optional fraction (`.` and zero or more digits), then an
/// optional exponent (`e` and one or more digits). A capture of any other
/// shape — `5e`, `1..2`, a stray second `.` — is a lexical error.
pub open spec fn spec_is_float_literal(t: Seq<char>) -> bool {
    let k1 = digit_run_end(t, 0);
    if k1 < 1 {
        false
    } else if k1 == t.len() {
        true
    } else if t[k1] == '.' {
        let k2 = digit_run_end(t, k1 + 1);
        if k2 == t.len() {
            true
        } else if t[k2] == 'e' {
            exponent_ok(t, k2 + 1)
        } else {
            false
        }
    } else if t[k1] == 'e' {
        exponent_ok(t, k1 + 1)
    } else {
        false
    }
}

/// Whether `char::is_alphanumeric` holds: a Unicode character-class test
/// whose result depends on the character alone.
pub uninterp spec fn char_is_alphanumeric(c: char) -> bool;

/// A character of the unquoted-identifier class: alphanumerics, underscore,
/// and a fixed set of symbol characters.
pub open spec fn spec_is_unquoted(c: char) -> bool {
    ||| char_is_alphanumeric(c)
    ||| c == '_'
    ||| c == '@'
    ||| c == '!'
    ||| c == '?'
    ||| c == '='
    ||| c == '.'
    ||| c == '|'
    ||| c == '<'
    ||| c == '>'
    ||| c == '-'
    ||| c == '%'
    ||| c == '&'
}

/// The end of the numeric capture that is under way at `i`: the first
/// position at or after `i` whose character is not a digit, `.` or `e`.
pub open spec fn num_end(s: Seq<char>, i: int) -> int
    decreases s.len() - i,
{
    if 0 <= i < s.len() && spec_is_num_char(s[i]) {
        num_end(s, i + 1)
    } else {
        i
    }
}

/// The end of the identifier capture that is under way at `i`.
pub open spec fn ident_end(s: Seq<char>, i: int) -> int
    decreases s.len() - i,
{
    if 0 <= i < s.len() && spec_is_unquoted(s[i]) {
        ident_end(s, i + 1)
    } else {
        i
    }
}

/// The first position at or after `i` holding a double quote, or `s.len()`
/// if there is none.
pub open spec fn quote_end(s: Seq<char>, i: int) -> int
    decreases s.len() - i,
{
    if 0 <= i < s.len() {
        if s[i] == '"' {
            i
        } else {
            quote_end(s, i + 1)
        }
    } else {
        s.len() as int
    }
}

/// The token an identifier capture is classified as: one of the five
/// reserved words when the text matches it exactly, a plain `Unquoted`
/// token otherwise.
pub open spec fn keyword_tok(t: Seq<char>) -> TokV {
    if t == "nil"@ {
        TokV::Nil
    } else if t == "true"@ {
        TokV::True
    } else if t == "false"@ {
        TokV::False
    } else if t == "Access"@ {
        TokV::Access
    } else if t == "Kernel"@ {
        TokV::Kernel
    } else {
        TokV::Unquoted(t)
    }
}

/// One step of the scan at position `i`, after `i` characters have been
/// consumed: the rules of the scan in priority order. A character matching
/// no rule is skipped in the lenient mode — the recursive case — and is a
/// lexical error in the strict mode.
pub open spec fn spec_next(s: Seq<char>, i: int, strict: bool) -> LexStep
    decreases s.len() - i,
{
    if !(0 <= i < s.len()) {
        LexStep::Eof
    } else if marker_at(s, i) {
        LexStep::Token { start: i, tok: TokV::Unquoted("%{}"@), end: i + 3 }
    } else if s[i] == '{' {
        LexStep::Token { start: i, tok: TokV::LCurly, end: i + 1 }
    } else if s[i] == '}' {
        LexStep::Token { start: i, tok: TokV::RCurly, end: i + 1 }
    } else if s[i] == '[' {
        LexStep::Token { start: i, tok: TokV::LBrace, end: i + 1 }
    } else if s[i] == ']' {
        LexStep::Token { start: i, tok: TokV::RBrace, end: i + 1 }
    } else if s[i] == ',' {
        LexStep::Token { start: i, tok: TokV::Comma, end: i + 1 }
    } else if s[i] == ':' {
        LexStep::Token { start: i, tok: TokV::Colon, end: i + 1 }
    } else if spec_is_digit(s[i]) {
        let j = num_end(s, i);
        if spec_is_float_literal(s.subrange(i, j)) {
            LexStep::Token { start: i, tok: TokV::Number(s.subrange(i, j)), end: j }
        } else {
            LexStep::Error { err: LexicalErrorV::InvalidNumber { start: i, end: j } }
        }
    } else if s[i] == '"' {
        let j = quote_end(s, i + 1);
        if j < s.len() {
            LexStep::Token { start: i, tok: TokV::Quoted(s.subrange(i + 1, j)), end: j + 1 }
        } else {
            LexStep::Error { err: LexicalErrorV::UnterminatedString { start: i } }
        }
    } else if spec_is_unquoted(s[i]) {
        let j = ident_end(s, i);
        LexStep::Token { start: i, tok: keyword_tok(s.subrange(i, j)), end: j }
    } else if strict {
        LexStep::Error { err: LexicalErrorV::UnrecognizedChar { at: i } }
    } else {
        spec_next(s, i + 1, false)
    }
}

proof fn lemma_num_end_bounds(s: Seq<char>, i: int)
    requires
        0 <= i <= s.len(),
    ensures
        i <= num_end(s, i) <= s.len(),
    decreases s.len() - i,
{
    if i < s.len() && spec_is_num_char(s[i]) {
        lemma_num_end_bounds(s, i + 1);
    }
}

proof fn lemma_ident_end_bounds(s: Seq<char>, i: int)
    requires
        0 <= i <= s.len(),
    ensures
        i <= ident_end(s, i) <= s.len(),
    decreases s.len() - i,
{
    if i < s.len() && spec_is_unquoted(s[i]) {
        lemma_ident_end_bounds(s, i + 1);
    }
}

proof fn lemma_quote_end_bounds(s: Seq<char>, i: int)
    requires
        0 <= i <= s.len(),
    ensures
        i <= quote_end(s, i) <= s.len(),
    decreases s.len() - i,
{
    if i < s.len() && s[i] != '"' {
        lemma_quote_end_bounds(s, i + 1);
    }
}

/// Every token the scan finds spans at least one character and lies inside
/// the input: the scan always advances.
pub proof fn lemma_spec_next_advances(s: Seq<char>, i: int, strict: bool)
    requires
        0 <= i <= s.len(),
    ensures
        spec_next(s, i, strict) matches LexStep::Token { start, tok, end } ==> i <= start
            < end <= s.len(),
    decreases s.len() - i,
{
    if i < s.len() {
        if marker_at(s, i) || s[i] == '{' || s[i] == '}' || s[i] == '[' || s[i] == ']'
            || s[i] == ',' || s[i] == ':' {
        } else if spec_is_digit(s[i]) {
            lemma_num_end_bounds(s, i + 1);
        } else if s[i] == '"' {
            lemma_quote_end_bounds(s, i + 1);
        } else if spec_is_unquoted(s[i]) {
            lemma_ident_end_bounds(s, i + 1);
        } else if !strict {
            lemma_spec_next_advances(s, i + 1, false);
        }
    }
}

/// The token stream of the whole remaining input from position `i` on, or
/// the first lexical error.
pub open spec fn spec_lex_from(s: Seq<char>, i: int, strict: bool) -> Result<
    Seq<(int, TokV, int)>,
    LexicalErrorV,
>
    decreases s.len() - i,
        when 0 <= i <= s.len()
        via spec_lex_from_decreases
{
    match spec_next(s, i, strict) {
        LexStep::Eof => Ok(Seq::empty()),
        LexStep::Error { err } => Err(err),
        LexStep::Token { start, tok, end } => match spec_lex_from(s, end, strict) {
            Ok(rest) => Ok(seq![(start, tok, end)] + rest),
            Err(e) => Err(e),
        },
    }
}

#[via_fn]
proof fn spec_lex_from_decreases(s: Seq<char>, i: int, strict: bool) {
    lemma_spec_next_advances(s, i, strict);
}

/// The token stream of the whole input, or the first lexical error: the
/// model of the lexer, in either mode.
pub open spec fn spec_lex(s: Seq<char>, strict: bool) -> Result<
    Seq<(int, TokV, int)>,
    LexicalErrorV,
> {
    spec_lex_from(s, 0, strict)
}

/// Relies on `char::is_alphanumeric`: a pure Unicode character-class test.
#[verifier::external_body]
fn alphanumeric(c: char) -> (r: bool)
    ensures
        r == char_is_alphanumeric(c),
{
    c.is_alphanumeric()
}

/// Relies on `String::push`: appends the one character at the end.
#[verifier::external_body]
fn push_char(s: &mut String, c: char)
    ensures
        final(s)@ == old(s)@.push(c),
{
    s.push(c);
}

/// An ASCII decimal digit.
fn is_digit(c: char) -> (r: bool)
    ensures
        r == spec_is_digit(c),
{
    let u = c as u32;
    48 <= u && u <= 57
}

/// A character a numeric capture keeps consuming.
fn is_num_char(c: char) -> (r: bool)
    ensures
        r == spec_is_num_char(c),
{
    is_digit(c) || c == '.' || c == 'e'
}

/// Whether `c` belongs to the unquoted-identifier character class.
pub fn is_unquoted(c: &char) -> (r: bool)
    ensures
        r == spec_is_unquoted(*c),
{
    alphanumeric(*c) || *c == '_' || *c == '@' || *c == '!' || *c == '?' || *c == '='
        || *c == '.' || *c == '|' || *c == '<' || *c == '>' || *c == '-' || *c == '%'
        || *c == '&'
}

/// Builds an owned string holding exactly the captured characters.
pub(crate) fn string_of_chars(cs: &Vec<char>) -> (r: String)
    ensures
        r@ == cs@,
{
    let mut out = String::new();
    let mut k: usize = 0;
    while k < cs.len()
        invariant
            k <= cs.len(),
            out@ == cs@.subrange(0, k as int),
        decreases cs.len() - k,
    {
        push_char(&mut out, cs[k]);
        proof {
            assert(cs@.subrange(0, k + 1 as int) =~= cs@.subrange(0, k as int).push(
                cs@[k as int],
            ));
        }
        k = k + 1;
    }
    proof {
        assert(cs@.subrange(0, cs@.len() as int) =~= cs@);
    }
    out
}

/// The first position at or after `i` in `cs` that holds no digit.
fn digits_end(cs: &Vec<char>, i: usize) -> (r: usize)
    requires
        i <= cs@.len(),
    ensures
        r == digit_run_end(cs@, i as int),
        i <= r <= cs@.len(),
{
    let n = cs.len();
    let mut k = i;
    let mut cont = if k < cs.len() {
        is_digit(cs[k])
    } else {
        false
    };
    while cont
        invariant
            n == cs@.len(),
            i <= k <= cs@.len(),
            digit_run_end(cs@, i as int) == digit_run_end(cs@, k as int),
            cont == (k < cs@.len() && spec_is_digit(cs@[k as int])),
        decreases cs@.len() - k,
    {
        k = k + 1;
        cont = if k < cs.len() {
            is_digit(cs[k])
        } else {
            false
        };
    }
    k
}

/// Whether the captured characters denote a 64-bit float value.
fn is_float_literal(cs: &Vec<char>) -> (r: bool)
    ensures
        r == spec_is_float_literal(cs@),
{
    let n = cs.len();
    let k1 = digits_end(cs, 0);
    if k1 < 1 {
        return false;
    }
    if k1 == n {
        return true;
    }
    if cs[k1] == '.' {
        let k2 = digits_end(cs, k1 + 1);
        if k2 == n {
            return true;
        }
        if cs[k2] == 'e' {
            let k3 = digits_end(cs, k2 + 1);
            return k2 + 1 < n && k3 == n;
        }
        return false;
    }
    if cs[k1] == 'e' {
        let k3 = digits_end(cs, k1 + 1);
        return k1 + 1 < n && k3 == n;
    }
    false
}

/// The reserved token for the captured identifier text, or a plain
/// `Unquoted` token when it matches none of the five keywords.
fn keyword_of(cs: &Vec<char>) -> (t: Tok)
    ensures
        t@ == keyword_tok(cs@),
{
    proof {
        reveal_strlit("nil");
        reveal_strlit("true");
        reveal_strlit("false");
        reveal_strlit("Access");
        reveal_strlit("Kernel");
    }
    if cs.len() == 3 && cs[0] == 'n' && cs[1] == 'i' && cs[2] == 'l' {
        proof {
            assert(cs@ =~= "nil"@);
        }
        Tok::Nil
    } else if cs.len() == 4 && cs[0] == 't' && cs[1] == 'r' && cs[2] == 'u' && cs[3] == 'e' {
        proof {
            assert(cs@ =~= "true"@);
        }
        Tok::True
    } else if cs.len() == 5 && cs[0] == 'f' && cs[1] == 'a' && cs[2] == 'l' && cs[3] == 's'
        && cs[4] == 'e' {
        proof {
            assert(cs@ =~= "false"@);
        }
        Tok::False
    } else if cs.len() == 6 && cs[0] == 'A' && cs[1] == 'c' && cs[2] == 'c' && cs[3] == 'e'
        && cs[4] == 's' && cs[5] == 's' {
        proof {
            assert(cs@ =~= "Access"@);
        }
        Tok::Access
    } else if cs.len() == 6 && cs[0] == 'K' && cs[1] == 'e' && cs[2] == 'r' && cs[3] == 'n'
        && cs[4] == 'e' && cs[5] == 'l' {
        proof {
            assert(cs@ =~= "Kernel"@);
        }
        Tok::Kernel
    } else {
        proof {
            assert(cs@ != "nil"@ && cs@ != "true"@ && cs@ != "false"@ && cs@ != "Access"@
                && cs@ != "Kernel"@);
        }
        Tok::Unquoted(string_of_chars(cs))
    }
}

/// The scan cursor: the input, the count `i` of characters consumed so far,
/// and a five-character lookahead window `c0..c4` over the characters at
/// offsets `i..i + 5`.
pub struct Lexer<'input> {
    c0: Option<char>,
    c1: Option<char>,
    c2: Option<char>,
    c3: Option<char>,
    c4: Option<char>,
    i: usize,
    n: usize,
    s: &'input str,
    strict: bool,
}

/// The character of `s` at offset `i`, if any: what a lookahead slot holds.
pub open spec fn window(s: Seq<char>, i: int) -> Option<char> {
    if 0 <= i < s.len() {
        Some(s[i])
    } else {
        None
    }
}

impl<'input> Lexer<'input> {
    /// The input being scanned, as a character sequence.
    pub closed spec fn src(self) -> Seq<char> {
        self.s@
    }

    /// How many characters have been consumed: the absolute offset of the
    /// window's first slot.
    pub closed spec fn pos(self) -> int {
        self.i as int
    }

    /// Whether the scan errors on an unrecognized character instead of
    /// skipping it.
    pub closed spec fn strict_mode(self) -> bool {
        self.strict
    }

    /// The cursor's invariant: the offset is inside the input and each
    /// window slot holds the character at its offset, if any.
    pub closed spec fn wf(self) -> bool {
        &&& self.n == self.s@.len()
        &&& self.i <= self.n
        &&& self.c0 == window(self.s@, self.i as int)
        &&& self.c1 == window(self.s@, self.i + 1 as int)
        &&& self.c2 == window(self.s@, self.i + 2 as int)
        &&& self.c3 == window(self.s@, self.i + 3 as int)
        &&& self.c4 == window(self.s@, self.i + 4 as int)
    }

    /// Starts a lenient scan — the mode the dump format relies on, which
    /// skips unrecognized characters — at the beginning of `input`.
    pub fn new(input: &'input str) -> (r: Self)
        ensures
            r.wf(),
            r.src() == input@,
            r.pos() == 0,
            !r.strict_mode(),
    {
        let n = input.unicode_len();
        let c0 = if 0 < n { Some(input.get_char(0)) } else { None };
        let c1 = if 1 < n { Some(input.get_char(1)) } else { None };
        let c2 = if 2 < n { Some(input.get_char(2)) } else { None };
        let c3 = if 3 < n { Some(input.get_char(3)) } else { None };
        let c4 = if 4 < n { Some(input.get_char(4)) } else { None };

        Lexer { c0, c1, c2, c3, c4, i: 0, n, s: input, strict: false }
    }

    /// Starts a strict scan, which raises a lexical error on the first
    /// unrecognized character.
    pub fn new_strict(input: &'input str) -> (r: Self)
        ensures
            r.wf(),
            r.src() == input@,
            r.pos() == 0,
            r.strict_mode(),
    {
        let mut lx = Self::new(input);
        lx.strict = true;
        lx
    }

    /// Consumes one character: slides the window and advances the offset.
    /// At the end of the input the cursor stays where it is.
    pub fn shift(&mut self)
        requires
            old(self).wf(),
        ensures
            final(self).wf(),
            final(self).src() == old(self).src(),
            final(self).strict_mode() == old(self).strict_mode(),
            final(self).pos() == if old(self).pos() < old(self).src().len() {
                old(self).pos() + 1
            } else {
                old(self).pos()
            },
    {
        if self.i < self.n {
            let c = if self.n - self.i > 5 {
                Some(self.s.get_char(self.i + 5))
            } else {
                None
            };
            self.c0 = self.c1;
            self.c1 = self.c2;
            self.c2 = self.c3;
            self.c3 = self.c4;
            self.c4 = c;
            self.i = self.i + 1;
        }
    }

    /// Yields the next token of the input with its span, an error when a
    /// capture under way cannot be finished, or `None` at the end of the
    /// input — exactly what [`spec_next`] finds at the current offset.
    pub fn next(&mut self) -> (r: Option<Spanned<Tok, usize, LexicalError>>)
        requires
            old(self).wf(),
        ensures
            final(self).wf(),
            final(self).src() == old(self).src(),
            final(self).strict_mode() == old(self).strict_mode(),
            match spec_next(old(self).src(), old(self).pos(), old(self).strict_mode()) {
                LexStep::Eof => r is None,
                LexStep::Token { start, tok, end } => {
                    &&& r matches Some(Ok(sp))
                    &&& sp.0 == start
                    &&& sp.1@ == tok
                    &&& sp.2 == end
                    &&& final(self).pos() == end
                },
                LexStep::Error { err } => {
                    &&& r matches Some(Err(le))
                    &&& le@ == err
                },
            },
    {
        loop
            invariant
                self.wf(),
                self.src() == old(self).src(),
                self.strict_mode() == old(self).strict_mode(),
                0 <= self.pos() <= old(self).src().len(),
                spec_next(old(self).src(), self.pos(), self.strict_mode()) == spec_next(
                    old(self).src(),
                    old(self).pos(),
                    old(self).strict_mode(),
                ),
            decreases old(self).src().len() - self.pos(),
        {
            let ch0 = match self.c0 {
                None => {
                    return None;
                },
                Some(c) => c,
            };
            // The three-character empty-map marker comes before every
            // single-character rule.
            if ch0 == '%' && self.c1 == Some('{') && self.c2 == Some('}') {
                let i0 = self.i;
                self.shift();
                self.shift();
                self.shift();
                return Some(Ok((i0, Tok::Unquoted(String::from_str("%{}")), self.i)));
            }
            if ch0 == '{' {
                let i0 = self.i;
                self.shift();
                return Some(Ok((i0, Tok::LCurly, self.i)));
            }
            if ch0 == '}' {
                let i0 = self.i;
                self.shift();
                return Some(Ok((i0, Tok::RCurly, self.i)));
            }
            if ch0 == '[' {
                let i0 = self.i;
                self.shift();
                return Some(Ok((i0, Tok::LBrace, self.i)));
            }
            if ch0 == ']' {
                let i0 = self.i;
                self.shift();
                return Some(Ok((i0, Tok::RBrace, self.i)));
            }
            if ch0 == ',' {
                let i0 = self.i;
                self.shift();
                return Some(Ok((i0, Tok::Comma, self.i)));
            }
            if ch0 == ':' {
                let i0 = self.i;
                self.shift();
                return Some(Ok((i0, Tok::Colon, self.i)));
            }
            // Numeric literal: greedy capture of digits, `.` and `e`, then
            // the float-literal shape check.
            if is_digit(ch0) {
                let i0 = self.i;
                let mut cs: Vec<char> = Vec::new();
                let mut cont = true;
                while cont
                    invariant
                        self.wf(),
                        self.src() == old(self).src(),
                        self.strict_mode() == old(self).strict_mode(),
                        i0 <= self.pos() <= old(self).src().len(),
                        cs@ == old(self).src().subrange(i0 as int, self.pos()),
                        num_end(old(self).src(), i0 as int) == num_end(old(self).src(), self.pos()),
                        cont == (self.pos() < old(self).src().len() && spec_is_num_char(
                            old(self).src()[self.pos()],
                        )),
                    decreases old(self).src().len() - self.pos() + 1 + if cont {
                        1int
                    } else {
                        0int
                    },
                {
                    let c = match self.c0 {
                        Some(c) => c,
                        None => {
                            proof {
                                assert(false);
                            }
                            ' '
                        },
                    };
                    cs.push(c);
                    self.shift();
                    proof {
                        assert(cs@ =~= old(self).src().subrange(i0 as int, self.pos()));
                    }
                    cont = match self.c0 {
                        Some(c2) => is_num_char(c2),
                        None => false,
                    };
                }
                if is_float_literal(&cs) {
                    return Some(Ok((i0, Tok::Number(string_of_chars(&cs)), self.i)));
                } else {
                    return Some(Err(LexicalError::InvalidNumber { start: i0, end: self.i }));
                }
            }
            // Quoted literal: verbatim capture up to the next double quote,
            // both quotes consumed and excluded; running out of input first
            // is a lexical error.
            if ch0 == '"' {
                let i0 = self.i;
                self.shift();
                let mut cs: Vec<char> = Vec::new();
                let mut cont = match self.c0 {
                    Some(c) => c != '"',
                    None => false,
                };
                while cont
                    invariant
                        self.wf(),
                        self.src() == old(self).src(),
                        self.strict_mode() == old(self).strict_mode(),
                        i0 + 1 <= self.pos() <= old(self).src().len(),
                        cs@ == old(self).src().subrange(i0 + 1 as int, self.pos()),
                        quote_end(old(self).src(), i0 + 1 as int) == quote_end(old(self).src(), self.pos()),
                        cont == (self.pos() < old(self).src().len() && old(self).src()[self.pos()] != '"'),
                    decreases old(self).src().len() - self.pos(),
                {
                    let c = match self.c0 {
                        Some(c) => c,
                        None => {
                            proof {
                                assert(false);
                            }
                            ' '
                        },
                    };
                    cs.push(c);
                    self.shift();
                    proof {
                        assert(cs@ =~= old(self).src().subrange(i0 + 1 as int, self.pos()));
                    }
                    cont = match self.c0 {
                        Some(c2) => c2 != '"',
                        None => false,
                    };
                }
                if self.i < self.n {
                    // The closing quote.
                    self.shift();
                    return Some(Ok((i0, Tok::Quoted(string_of_chars(&cs)), self.i)));
                } else {
                    return Some(Err(LexicalError::UnterminatedString { start: i0 }));
                }
            }
            // Unquoted identifier: greedy capture of the identifier class,
            // then the reserved-word table.
            if is_unquoted(&ch0) {
                let i0 = self.i;
                let mut cs: Vec<char> = Vec::new();
                let mut cont = true;
                while cont
                    invariant
                        self.wf(),
                        self.src() == old(self).src(),
                        self.strict_mode() == old(self).strict_mode(),
                        i0 <= self.pos() <= old(self).src().len(),
                        cs@ == old(self).src().subrange(i0 as int, self.pos()),
                        ident_end(old(self).src(), i0 as int) == ident_end(old(self).src(), self.pos()),
                        cont == (self.pos() < old(self).src().len() && spec_is_unquoted(
                            old(self).src()[self.pos()],
                        )),
                    decreases old(self).src().len() - self.pos() + 1 + if cont {
                        1int
                    } else {
                        0int
                    },
                {
                    let c = match self.c0 {
                        Some(c) => c,
                        None => {
                            proof {
                                assert(false);
                            }
                            ' '
                        },
                    };
                    cs.push(c);
                    self.shift();
                    proof {
                        assert(cs@ =~= old(self).src().subrange(i0 as int, self.pos()));
                    }
                    cont = match self.c0 {
                        Some(c2) => is_unquoted(&c2),
                        None => false,
                    };
                }
                return Some(Ok((i0, keyword_of(&cs), self.i)));
            }
            // No rule matches: a lexical error in the strict mode; the
            // character is consumed and produces no token otherwise.
            if self.strict {
                return Some(Err(LexicalError::UnrecognizedChar { at: self.i }));
            }
            self.shift();
        }
    }
}

/// The models of collected spanned tokens, in order.
pub open spec fn spanned_views(v: Seq<(usize, Tok, usize)>) -> Seq<(int, TokV, int)> {
    v.map(|k: int, sp: (usize, Tok, usize)| (sp.0 as int, sp.1@, sp.2 as int))
}

/// Scans the whole input eagerly: the token stream `spec_lex` gives in the
/// chosen mode, or the first lexical error. Lexing is a pure function of
/// the input and the mode, so two scans of the same string yield the same
/// tokens with the same spans.
pub fn tokenize(input: &str, strict: bool) -> (r: Result<
    Vec<(usize, Tok, usize)>,
    LexicalError,
>)
    ensures
        match spec_lex(input@, strict) {
            Ok(toks) => r matches Ok(v) && spanned_views(v@) == toks,
            Err(e) => r matches Err(le) && le@ == e,
        },
{
    let mut lx = if strict {
        Lexer::new_strict(input)
    } else {
        Lexer::new(input)
    };
    let mut out: Vec<(usize, Tok, usize)> = Vec::new();
    loop
        invariant
            lx.wf(),
            lx.src() == input@,
            lx.strict_mode() == strict,
            0 <= lx.pos() <= input@.len(),
            match spec_lex_from(input@, lx.pos(), strict) {
                Ok(rest) => spec_lex(input@, strict) matches Ok(all) && all == spanned_views(
                    out@,
                ) + rest,
                Err(e) => spec_lex(input@, strict) == Err::<
                    Seq<(int, TokV, int)>,
                    LexicalErrorV,
                >(e),
            },
        decreases input@.len() - lx.pos(),
    {
        let ghost p = lx.pos();
        let ghost prev = out@;
        match lx.next() {
            None => {
                proof {
                    assert(spanned_views(out@) + Seq::<(int, TokV, int)>::empty()
                        =~= spanned_views(out@));
                }
                return Ok(out);
            },
            Some(Ok(sp)) => {
                proof {
                    lemma_spec_next_advances(input@, p, strict);
                }
                out.push(sp);
                proof {
                    let tv = (sp.0 as int, sp.1@, sp.2 as int);
                    assert(spanned_views(out@) =~= spanned_views(prev) + seq![tv]);
                    if let Ok(rest) = spec_lex_from(input@, lx.pos(), strict) {
                        assert(spanned_views(prev) + (seq![tv] + rest) =~= (spanned_views(
                            prev,
                        ) + seq![tv]) + rest);
                    }
                }
            },
            Some(Err(e)) => {
                return Err(e);
            },
        }
    }
}

} // verus!

