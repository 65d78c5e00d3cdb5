//! A recursive-descent parser from S-expression text to a typed syntax tree.
//!
//! The grammar:
//!
//! ```text
//! element := scalar | sexpr
//! scalar  := space* (nat | atom)
//! nat     := digit+              (maximal run, value must fit in u32)
//! atom    := alphanumeric+       (maximal run)
//! sexpr   := space* '(' element* space* ')'
//! ```
//!
//! Every parse function takes the remaining text and returns either the
//! unconsumed rest of it together with the parsed value, or an error that
//! names its reason and where it happened. Its result is exactly the one given
//! by the matching `spec_parse_*` function on the characters of the input.
//!
//! The lexical runs (digits, alphanumerics, whitespace) and the literal
//! parentheses are recognised with `nom`'s complete-input matchers; the
//! grammar on top of them is written and proved here.
//!
//! Recursion depth is proportional to the nesting depth of the input: one
//! `parse_element` / `parse_sexpr` frame pair per open parenthesis.

use vstd::prelude::*;
use vstd::string::StrSliceExecFns;
use vstd::string::StringExecFns;

verus! {

// ---------------------------------------------------------------------------
// Syntax tree and errors
// ---------------------------------------------------------------------------

/// A leaf token.
#[derive(Debug, PartialEq)]
pub enum Scalar {
    Atom(String),
    Nat(u32),
}

/// A node of the syntax tree: a leaf, or the contents of one `( ... )` pair.
#[derive(Debug, PartialEq)]
pub enum Element {
    Sexpr(Vec<Element>),
    Scalar(Scalar),
}

/// The mathematical content of a [`Scalar`].
pub enum SpecScalar {
    Atom(Seq<char>),
    Nat(u32),
}

/// The mathematical content of an [`Element`].
pub enum SpecElement {
    Sexpr(Seq<SpecElement>),
    Scalar(SpecScalar),
}

impl View for Scalar {
    type V = SpecScalar;

    open spec fn view(&self) -> SpecScalar {
        match self {
            Scalar::Atom(s) => SpecScalar::Atom(s@),
            Scalar::Nat(n) => SpecScalar::Nat(*n),
        }
    }
}

impl View for Element {
    type V = SpecElement;

    open spec fn view(&self) -> SpecElement {
        element_view(*self)
    }
}

pub open spec fn element_view(e: Element) -> SpecElement
    decreases e, 0nat,
{
    match e {
        Element::Sexpr(v) => SpecElement::Sexpr(elements_view(v@, v@.len())),
        Element::Scalar(s) => SpecElement::Scalar(s@),
    }
}

/// The views of the first `n` elements of `s`.
pub open spec fn elements_view(s: Seq<Element>, n: nat) -> Seq<SpecElement>
    decreases s, n,
{
    if n == 0 || n > s.len() {
        Seq::empty()
    } else {
        elements_view(s, (n - 1) as nat).push(element_view(s[n - 1]))
    }
}

/// Why a parse failed.
#[derive(Clone, Copy, Debug, PartialEq, Eq, Structural)]
pub enum ParseErrorKind {
    /// The text at the position matches none of the expected tokens.
    UnexpectedToken,
    /// A `(` was consumed but the text ended before its `)`.
    UnmatchedOpenParen,
    /// A run of digits whose value does not fit in a `u32`.
    NumericOverflow,
    /// A complete element was parsed but text remains after it.
    TrailingInput,
    /// The text ended where a token was required.
    EmptyInput,
}

/// A parse failure: its reason, and the number of characters of the input
/// that remain from the point of failure to the end of the text.
#[derive(Clone, Copy, Debug, PartialEq, Eq, Structural)]
pub struct ParseError {
    pub kind: ParseErrorKind,
    pub remaining: usize,
}

// ---------------------------------------------------------------------------
// Character classes and lexical runs
// ---------------------------------------------------------------------------

/// The character classes that the lexical runs are made of.
pub enum CharClass {
    Digit,
    Alphanumeric,
    Space,
}

pub open spec fn is_digit(c: char) -> bool {
    '0' <= c && c <= '9'
}

/// ASCII letters and decimal digits.
pub open spec fn is_alphanumeric(c: char) -> bool {
    is_digit(c) || ('a' <= c && c <= 'z') || ('A' <= c && c <= 'Z')
}

/// Space, tab, carriage return and line feed.
pub open spec fn is_space(c: char) -> bool {
    c == ' ' || c == '\t' || c == '\r' || c == '\n'
}

pub open spec fn in_class(c: char, k: CharClass) -> bool {
    match k {
        CharClass::Digit => is_digit(c),
        CharClass::Alphanumeric => is_alphanumeric(c),
        CharClass::Space => is_space(c),
    }
}

/// Length of the longest prefix of `s` made of characters of class `k`.
pub open spec fn run_len(s: Seq<char>, k: CharClass) -> nat
    decreases s.len(),
{
    if s.len() > 0 && in_class(s[0], k) {
        1 + run_len(s.drop_first(), k)
    } else {
        0
    }
}

/// `s` with its leading whitespace removed.
pub open spec fn skip_space(s: Seq<char>) -> Seq<char> {
    s.skip(run_len(s, CharClass::Space) as int)
}

/// The value of a run of decimal digits.
pub open spec fn decimal_value(s: Seq<char>) -> nat
    decreases s.len(),
{
    if s.len() == 0 {
        0
    } else {
        decimal_value(s.drop_last()) * 10 + ((s.last() as u32) - ('0' as u32)) as nat
    }
}

/// `r` is what is left of `s` after a prefix of it was consumed.
pub open spec fn is_suffix(r: Seq<char>, s: Seq<char>) -> bool {
    r.len() <= s.len() && r == s.subrange(s.len() - r.len(), s.len() as int)
}

pub proof fn lemma_run_len(s: Seq<char>, k: CharClass)
    ensures
        run_len(s, k) <= s.len(),
        forall|j: int| 0 <= j < run_len(s, k) ==> in_class(#[trigger] s[j], k),
        run_len(s, k) < s.len() ==> !in_class(s[run_len(s, k) as int], k),
    decreases s.len(),
{
    if s.len() > 0 && in_class(s[0], k) {
        lemma_run_len(s.drop_first(), k);
        assert forall|j: int| 0 <= j < run_len(s, k) implies in_class(#[trigger] s[j], k) by {
            if j > 0 {
                assert(s[j] == s.drop_first()[j - 1]);
            }
        }
    }
}

proof fn lemma_skip_is_suffix(s: Seq<char>, n: int)
    requires
        0 <= n <= s.len(),
    ensures
        is_suffix(s.skip(n), s),
{
    assert(s.skip(n) =~= s.subrange(s.len() - s.skip(n).len(), s.len() as int));
}

proof fn lemma_suffix_trans(a: Seq<char>, b: Seq<char>, c: Seq<char>)
    requires
        is_suffix(a, b),
        is_suffix(b, c),
    ensures
        is_suffix(a, c),
{
    assert(a =~= c.subrange(c.len() - a.len(), c.len() as int));
}

proof fn lemma_decimal_prefix(s: Seq<char>, k: int)
    requires
        0 <= k <= s.len(),
        forall|j: int| 0 <= j < s.len() ==> is_digit(#[trigger] s[j]),
    ensures
        decimal_value(s.take(k)) <= decimal_value(s),
    decreases s.len(),
{
    if k < s.len() {
        assert(s.drop_last().take(k) =~= s.take(k));
        lemma_decimal_prefix(s.drop_last(), k);
    } else {
        assert(s.take(k) =~= s);
    }
}

// ---------------------------------------------------------------------------
// The grammar as spec functions
// ---------------------------------------------------------------------------

/// The error for text where a token was expected and none starts.
pub open spec fn token_error(s: Seq<char>) -> ParseError {
    ParseError {
        kind: if s.len() == 0 {
            ParseErrorKind::EmptyInput
        } else {
            ParseErrorKind::UnexpectedToken
        },
        remaining: s.len() as usize,
    }
}

pub open spec fn spec_parse_nat(s: Seq<char>) -> Result<(Seq<char>, SpecScalar), ParseError> {
    let n = run_len(s, CharClass::Digit) as int;
    if n == 0 {
        Err(token_error(s))
    } else if decimal_value(s.take(n)) > u32::MAX {
        Err(ParseError { kind: ParseErrorKind::NumericOverflow, remaining: s.len() as usize })
    } else {
        Ok((s.skip(n), SpecScalar::Nat(decimal_value(s.take(n)) as u32)))
    }
}

pub open spec fn spec_parse_atom(s: Seq<char>) -> Result<(Seq<char>, SpecScalar), ParseError> {
    let n = run_len(s, CharClass::Alphanumeric) as int;
    if n == 0 {
        Err(token_error(s))
    } else {
        Ok((s.skip(n), SpecScalar::Atom(s.take(n))))
    }
}

pub open spec fn spec_parse_scalar(s: Seq<char>) -> Result<(Seq<char>, SpecElement), ParseError> {
    let t = skip_space(s);
    match spec_parse_nat(t) {
        Ok((r, v)) => Ok((r, SpecElement::Scalar(v))),
        Err(e) => if e.kind == ParseErrorKind::NumericOverflow {
            Err(e)
        } else {
            match spec_parse_atom(t) {
                Ok((r, v)) => Ok((r, SpecElement::Scalar(v))),
                Err(e2) => Err(e2),
            }
        },
    }
}

/// Whether, after whitespace, the text begins with a token that starts an
/// element (an alphanumeric character or `(`).
pub open spec fn starts_element(s: Seq<char>) -> bool {
    let t = skip_space(s);
    t.len() > 0 && (is_alphanumeric(t[0]) || t[0] == '(')
}

pub open spec fn spec_parse_element(s: Seq<char>) -> Result<(Seq<char>, SpecElement), ParseError>
    decreases s.len(), 2int,
{
    match spec_parse_scalar(s) {
        Ok(x) => Ok(x),
        Err(e) => if e.kind == ParseErrorKind::NumericOverflow {
            Err(e)
        } else {
            spec_parse_sexpr(s)
        },
    }
}

/// Elements, one after another, for as long as the text starts one.
pub open spec fn spec_parse_items(s: Seq<char>) -> Result<(Seq<char>, Seq<SpecElement>), ParseError>
    decreases s.len(), 3int,
{
    if starts_element(s) {
        match spec_parse_element(s) {
            Ok((r, e)) => if r.len() < s.len() {
                prepend_items(seq![e], spec_parse_items(r))
            } else {
                Ok((r, seq![e]))
            },
            Err(e) => Err(e),
        }
    } else {
        Ok((s, Seq::empty()))
    }
}

/// The result of parsing `close` after the elements `es` of a list.
pub open spec fn spec_close_paren(close: Seq<char>, es: Seq<SpecElement>) -> Result<
    (Seq<char>, SpecElement),
    ParseError,
> {
    let u = skip_space(close);
    if u.len() > 0 && u[0] == ')' {
        Ok((u.drop_first(), SpecElement::Sexpr(es)))
    } else if u.len() == 0 {
        Err(ParseError { kind: ParseErrorKind::UnmatchedOpenParen, remaining: 0 })
    } else {
        Err(ParseError { kind: ParseErrorKind::UnexpectedToken, remaining: u.len() as usize })
    }
}

pub open spec fn spec_parse_sexpr(s: Seq<char>) -> Result<(Seq<char>, SpecElement), ParseError>
    decreases s.len(), 1int,
{
    let k = run_len(s, CharClass::Space) as int;
    if k < s.len() && s[k] == '(' {
        match spec_parse_items(s.subrange(k + 1, s.len() as int)) {
            Ok((r, es)) => spec_close_paren(r, es),
            Err(e) => Err(e),
        }
    } else {
        Err(token_error(skip_space(s)))
    }
}

/// `p` followed by the elements of a successful `r`; a failure stays as it is.
pub open spec fn prepend_items(
    p: Seq<SpecElement>,
    r: Result<(Seq<char>, Seq<SpecElement>), ParseError>,
) -> Result<(Seq<char>, Seq<SpecElement>), ParseError> {
    match r {
        Ok((rest, es)) => Ok((rest, p + es)),
        Err(e) => Err(e),
    }
}

/// The mathematical content of a parse result.
pub open spec fn result_view<T: View>(r: Result<(&str, T), ParseError>) -> Result<
    (Seq<char>, T::V),
    ParseError,
> {
    match r {
        Ok((rest, v)) => Ok((rest@, v@)),
        Err(e) => Err(e),
    }
}

pub open spec fn element_views(v: Seq<Element>) -> Seq<SpecElement> {
    v.map_values(|e: Element| e@)
}

proof fn lemma_elements_view(s: Seq<Element>, n: nat)
    requires
        n <= s.len(),
    ensures
        elements_view(s, n) =~= element_views(s.take(n as int)),
    decreases n,
{
    if n > 0 {
        lemma_elements_view(s, (n - 1) as nat);
        assert(s.take(n as int).drop_last() =~= s.take(n - 1));
    }
}

pub proof fn lemma_sexpr_view(v: Vec<Element>)
    ensures
        Element::Sexpr(v)@ == SpecElement::Sexpr(element_views(v@)),
{
    lemma_elements_view(v@, v@.len());
    assert(v@.take(v@.len() as int) =~= v@);
}


/// Every successful parse consumes a prefix of its input: the remainder is a
/// suffix of the text, and an element consumes at least one character.
pub proof fn lemma_parse_progress(s: Seq<char>)
    ensures
        match spec_parse_element(s) {
            Ok((r, _)) => r.len() < s.len() && is_suffix(r, s),
            Err(_) => true,
        },
        match spec_parse_items(s) {
            Ok((r, _)) => is_suffix(r, s),
            Err(_) => true,
        },
    decreases s.len(),
{
    let k = run_len(s, CharClass::Space) as int;
    lemma_run_len(s, CharClass::Space);
    let t = skip_space(s);
    lemma_skip_is_suffix(s, k);
    lemma_run_len(t, CharClass::Digit);
    lemma_run_len(t, CharClass::Alphanumeric);
    lemma_skip_is_suffix(t, run_len(t, CharClass::Digit) as int);
    lemma_skip_is_suffix(t, run_len(t, CharClass::Alphanumeric) as int);
    if let Ok((r, _)) = spec_parse_scalar(s) {
        lemma_suffix_trans(r, t, s);
    }
    if k < s.len() && s[k] == '(' {
        let body = s.subrange(k + 1, s.len() as int);
        assert(body =~= s.subrange(s.len() - body.len(), s.len() as int));
        lemma_parse_progress(body);
        if let Ok((r, es)) = spec_parse_items(body) {
            lemma_suffix_trans(r, body, s);
            lemma_run_len(r, CharClass::Space);
            let u = skip_space(r);
            lemma_skip_is_suffix(r, run_len(r, CharClass::Space) as int);
            lemma_suffix_trans(u, r, s);
            if u.len() > 0 {
                lemma_skip_is_suffix(u, 1);
                assert(u.drop_first() =~= u.skip(1));
                lemma_suffix_trans(u.drop_first(), u, s);
            }
        }
    }
    if starts_element(s) {
        if let Ok((r, e)) = spec_parse_element(s) {
            if r.len() < s.len() {
                lemma_parse_progress(r);
                if let Ok((r2, _)) = spec_parse_items(r) {
                    lemma_suffix_trans(r2, r, s);
                }
            }
        }
    } else {
        assert(s =~= s.subrange(0, s.len() as int));
    }
}

/// A whole document: one element, then nothing but whitespace.
pub open spec fn spec_parse(s: Seq<char>) -> Result<SpecElement, ParseError> {
    match spec_parse_element(s) {
        Ok((r, e)) => if skip_space(r).len() == 0 {
            Ok(e)
        } else {
            Err(ParseError { kind: ParseErrorKind::TrailingInput, remaining: skip_space(r).len() as usize })
        },
        Err(x) => Err(x),
    }
}

/// A text made only of decimal digits parses as the number it writes, with
/// nothing left over, whenever that number fits in a `u32`.
pub proof fn lemma_digits_parse_as_nat(s: Seq<char>)
    requires
        s.len() > 0,
        forall|j: int| 0 <= j < s.len() ==> is_digit(#[trigger] s[j]),
        decimal_value(s) <= u32::MAX,
    ensures
        spec_parse_nat(s) == Ok::<(Seq<char>, SpecScalar), ParseError>(
            (Seq::empty(), SpecScalar::Nat(decimal_value(s) as u32)),
        ),
{
    lemma_run_len(s, CharClass::Digit);
    if run_len(s, CharClass::Digit) < s.len() {
        assert(is_digit(s[run_len(s, CharClass::Digit) as int]));
    }
    assert(s.take(s.len() as int) =~= s);
    assert(s.skip(s.len() as int) =~= Seq::<char>::empty());
}

/// Text that starts with a character that is neither a letter nor a digit is
/// neither a number nor an atom; the error points at the start of the text.
pub proof fn lemma_non_alphanumeric_rejected(s: Seq<char>)
    requires
        s.len() > 0,
        !is_alphanumeric(s[0]),
    ensures
        spec_parse_nat(s) == Err::<(Seq<char>, SpecScalar), ParseError>(
            ParseError { kind: ParseErrorKind::UnexpectedToken, remaining: s.len() as usize },
        ),
        spec_parse_atom(s) == Err::<(Seq<char>, SpecScalar), ParseError>(
            ParseError { kind: ParseErrorKind::UnexpectedToken, remaining: s.len() as usize },
        ),
{
}

/// The remainder of a successful parse is the unconsumed end of the input,
/// and parsing goes on from it exactly as a fresh parse of that remainder
/// would: an element list is the first element followed by the list parsed
/// from scratch on what the first element left.
pub proof fn lemma_reparse_remainder(s: Seq<char>)
    ensures
        match spec_parse_element(s) {
            Ok((r, e)) => {
                &&& r.len() < s.len()
                &&& r == s.subrange(s.len() - r.len(), s.len() as int)
                &&& starts_element(s) ==> spec_parse_items(s) == prepend_items(
                    seq![e],
                    spec_parse_items(r),
                )
            },
            Err(_) => true,
        },
        match spec_parse_scalar(s) {
            Ok((r, e)) => r.len() < s.len() && r == s.subrange(s.len() - r.len(), s.len() as int),
            Err(_) => true,
        },
        match spec_parse_sexpr(s) {
            Ok((r, e)) => r.len() < s.len() && r == s.subrange(s.len() - r.len(), s.len() as int),
            Err(_) => true,
        },
{
    lemma_parse_progress(s);
    if let Ok((r, _)) = spec_parse_scalar(s) {
        assert(spec_parse_element(s) == spec_parse_scalar(s));
    }
    if let Ok((r, _)) = spec_parse_sexpr(s) {
        if let Err(e) = spec_parse_scalar(s) {
            if e.kind == ParseErrorKind::NumericOverflow {
                let t = skip_space(s);
                lemma_run_len(s, CharClass::Space);
                lemma_run_len(t, CharClass::Digit);
                assert(!(run_len(s, CharClass::Space) < s.len() && s[run_len(s, CharClass::Space) as int] == '(')) by {
                    if run_len(s, CharClass::Space) < s.len() {
                        assert(t[0] == s[run_len(s, CharClass::Space) as int]);
                    }
                }
            }
        }
    }
}

/// `n` opening parentheses followed by `n` closing ones.
pub open spec fn nested_parens(n: nat) -> Seq<char>
    decreases n,
{
    if n == 0 {
        Seq::empty()
    } else {
        seq!['('] + nested_parens((n - 1) as nat) + seq![')']
    }
}

/// `n` lists, each holding the next one; the innermost is empty.
pub open spec fn nested_lists(n: nat) -> SpecElement
    decreases n,
{
    if n <= 1 {
        SpecElement::Sexpr(Seq::empty())
    } else {
        SpecElement::Sexpr(seq![nested_lists((n - 1) as nat)])
    }
}

proof fn lemma_no_leading_space(x: Seq<char>)
    requires
        x.len() > 0,
        !is_space(x[0]),
    ensures
        run_len(x, CharClass::Space) == 0,
        skip_space(x) == x,
{
    assert(x.skip(0) =~= x);
}

/// Closing a list whose elements are `es` on text that starts with `)`.
proof fn lemma_close_paren_at(tail: Seq<char>, es: Seq<SpecElement>)
    ensures
        !starts_element(seq![')'] + tail),
        spec_parse_items(seq![')'] + tail) == Ok::<(Seq<char>, Seq<SpecElement>), ParseError>(
            (seq![')'] + tail, Seq::empty()),
        ),
        spec_close_paren(seq![')'] + tail, es) == Ok::<(Seq<char>, SpecElement), ParseError>(
            (tail, SpecElement::Sexpr(es)),
        ),
{
    let x = seq![')'] + tail;
    assert(x[0] == ')');
    lemma_no_leading_space(x);
    assert(x.drop_first() =~= tail);
}

/// Matched nested parentheses, `n` deep, parse as `n` nested lists, whatever
/// text follows them.
pub proof fn lemma_nested_parens(n: nat, tail: Seq<char>)
    requires
        n >= 1,
    ensures
        spec_parse_element(nested_parens(n) + tail) == Ok::<(Seq<char>, SpecElement), ParseError>(
            (tail, nested_lists(n)),
        ),
    decreases n,
{
    let inner = nested_parens((n - 1) as nat);
    let close = seq![')'] + tail;
    let s = nested_parens(n) + tail;
    assert(s =~= seq!['('] + (inner + close));
    assert(s[0] == '(');
    lemma_no_leading_space(s);
    assert(run_len(s, CharClass::Digit) == 0);
    assert(run_len(s, CharClass::Alphanumeric) == 0);
    assert(spec_parse_element(s) == spec_parse_sexpr(s));
    let body = s.subrange(1, s.len() as int);
    assert(body =~= inner + close);
    lemma_close_paren_at(tail, Seq::empty());
    if n == 1 {
        assert(inner + close =~= close);
    } else {
        lemma_nested_parens((n - 1) as nat, close);
        let b = inner + close;
        assert(b[0] == '(') by {
            assert(inner[0] == '(');
        }
        lemma_no_leading_space(b);
        assert(starts_element(b));
        lemma_close_paren_at(tail, seq![nested_lists((n - 1) as nat)]);
        assert(seq![nested_lists((n - 1) as nat)] + Seq::<SpecElement>::empty() =~= seq![
            nested_lists((n - 1) as nat),
        ]);
    }
}

// ---------------------------------------------------------------------------
// Lexical matchers
// ---------------------------------------------------------------------------

/// Relies on `nom::character::complete::digit1` on `&str`: on text that starts
/// with an ASCII digit it splits off the maximal run of ASCII digits and
/// returns `(rest, run)`; on any other text (the empty text included) it
/// returns an error, here `None`.
#[verifier::external_body]
fn digits<'a>(i: &'a str) -> (r: Option<(&'a str, &'a str)>)
    ensures
        match r {
            Some((rest, tok)) => run_len(i@, CharClass::Digit) > 0
                && tok@ == i@.take(run_len(i@, CharClass::Digit) as int)
                && rest@ == i@.skip(run_len(i@, CharClass::Digit) as int),
            None => run_len(i@, CharClass::Digit) == 0,
        },
{
    nom::character::complete::digit1::<&str, nom::error::Error<&str>>(i).ok()
}

/// Relies on `nom::character::complete::alphanumeric1` on `&str`: on text that
/// starts with an ASCII letter or digit it splits off the maximal run of such
/// characters and returns `(rest, run)`; on any other text (the empty text
/// included) it returns an error, here `None`.
#[verifier::external_body]
fn alphanumerics<'a>(i: &'a str) -> (r: Option<(&'a str, &'a str)>)
    ensures
        match r {
            Some((rest, tok)) => run_len(i@, CharClass::Alphanumeric) > 0
                && tok@ == i@.take(run_len(i@, CharClass::Alphanumeric) as int)
                && rest@ == i@.skip(run_len(i@, CharClass::Alphanumeric) as int),
            None => run_len(i@, CharClass::Alphanumeric) == 0,
        },
{
    nom::character::complete::alphanumeric1::<&str, nom::error::Error<&str>>(i).ok()
}

/// Relies on `nom::character::complete::multispace0` on `&str`: it splits off
/// the maximal (possibly empty) run of spaces, tabs, carriage returns and line
/// feeds and never fails; the rest of the text is returned.
#[verifier::external_body]
fn spaces<'a>(i: &'a str) -> (r: &'a str)
    ensures
        r@ == skip_space(i@),
{
    match nom::character::complete::multispace0::<&str, nom::error::Error<&str>>(i) {
        Ok((rest, _)) => rest,
        Err(_) => i,
    }
}

/// Relies on `nom::bytes::complete::tag` on `&str`: it succeeds exactly when
/// the bytes of the text start with the bytes of `t` (for UTF-8 text, exactly
/// when its characters start with those of `t`), and then returns the text
/// after `t`.
#[verifier::external_body]
fn literal<'a>(i: &'a str, t: &str) -> (r: Option<&'a str>)
    ensures
        match r {
            Some(rest) => t@.len() <= i@.len() && i@.take(t@.len() as int) == t@ && rest@ == i@.skip(
                t@.len() as int,
            ),
            None => !(t@.len() <= i@.len() && i@.take(t@.len() as int) == t@),
        },
{
    nom::bytes::complete::tag::<&str, &str, nom::error::Error<&str>>(t)(i).ok().map(|(rest, _)| rest)
}

// ---------------------------------------------------------------------------
// The parser
// ---------------------------------------------------------------------------

fn token_error_at(i: &str) -> (e: ParseError)
    ensures
        e == token_error(i@),
{
    let n = i.unicode_len();
    if n == 0 {
        ParseError { kind: ParseErrorKind::EmptyInput, remaining: n }
    } else {
        ParseError { kind: ParseErrorKind::UnexpectedToken, remaining: n }
    }
}

/// The value of a run of digits, or `None` where it does not fit in a `u32`.
fn decimal(tok: &str) -> (r: Option<u32>)
    requires
        forall|j: int| 0 <= j < tok@.len() ==> is_digit(#[trigger] tok@[j]),
    ensures
        match r {
            Some(v) => decimal_value(tok@) <= u32::MAX && v == decimal_value(tok@),
            None => decimal_value(tok@) > u32::MAX,
        },
{
    let n = tok.unicode_len();
    let mut acc: u32 = 0;
    let mut k: usize = 0;
    while k < n
        invariant
            n == tok@.len(),
            k <= n,
            forall|j: int| 0 <= j < tok@.len() ==> is_digit(#[trigger] tok@[j]),
            acc as nat == decimal_value(tok@.take(k as int)),
        decreases n - k,
    {
        let c = tok.get_char(k);
        let d: u32 = (c as u32) - ('0' as u32);
        proof {
            assert(tok@.take(k + 1).drop_last() =~= tok@.take(k as int));
            assert(tok@.take(k + 1).last() == c);
        }
        let next = match acc.checked_mul(10) {
            Some(m) => m.checked_add(d),
            None => None,
        };
        match next {
            Some(v) => {
                acc = v;
                k = k + 1;
            },
            None => {
                proof {
                    lemma_decimal_prefix(tok@, k + 1);
                }
                return None;
            },
        }
    }
    proof {
        assert(tok@.take(n as int) =~= tok@);
    }
    Some(acc)
}

/// A natural number: a maximal run of decimal digits whose value fits in a
/// `u32`.
pub fn parse_nat<'a>(i: &'a str) -> (r: Result<(&'a str, Scalar), ParseError>)
    ensures
        result_view(r) == spec_parse_nat(i@),
{
    match digits(i) {
        None => Err(token_error_at(i)),
        Some((rest, tok)) => {
            proof {
                lemma_run_len(i@, CharClass::Digit);
            }
            match decimal(tok) {
                Some(v) => Ok((rest, Scalar::Nat(v))),
                None => Err(ParseError { kind: ParseErrorKind::NumericOverflow, remaining: i.unicode_len() }),
            }
        },
    }
}

/// An atom: a maximal run of ASCII letters and digits.
pub fn parse_atom<'a>(i: &'a str) -> (r: Result<(&'a str, Scalar), ParseError>)
    ensures
        result_view(r) == spec_parse_atom(i@),
{
    match alphanumerics(i) {
        None => Err(token_error_at(i)),
        Some((rest, tok)) => Ok((rest, Scalar::Atom(<String as StringExecFns>::from_str(tok)))),
    }
}

/// A scalar after optional whitespace; a run of digits is a `Nat`, never an
/// `Atom`.
pub fn parse_scalar<'a>(i: &'a str) -> (r: Result<(&'a str, Element), ParseError>)
    ensures
        result_view(r) == spec_parse_scalar(i@),
{
    let t = spaces(i);
    match parse_nat(t) {
        Ok((rest, v)) => Ok((rest, Element::Scalar(v))),
        Err(e) => match e.kind {
            ParseErrorKind::NumericOverflow => Err(e),
            _ => match parse_atom(t) {
                Ok((rest, v)) => Ok((rest, Element::Scalar(v))),
                Err(e2) => Err(e2),
            },
        },
    }
}

/// Whether, after whitespace, the text starts an element.
fn starts_element_at(i: &str) -> (b: bool)
    ensures
        b == starts_element(i@),
{
    let t = spaces(i);
    proof {
        reveal_strlit("(");
        assert("("@ =~= seq!['(']);
        if t@.len() > 0 && t@[0] == '(' {
            assert(t@.take(1) =~= "("@);
        }
        if t@.len() > 0 && t@.take(1) == "("@ {
            assert(t@[0] == t@.take(1)[0]);
        }
    }
    alphanumerics(t).is_some() || literal(t, "(").is_some()
}

/// One element: a scalar, or else a parenthesised list.
pub fn parse_element<'a>(i: &'a str) -> (r: Result<(&'a str, Element), ParseError>)
    ensures
        result_view(r) == spec_parse_element(i@),
    decreases i@.len(), 2int,
{
    match parse_scalar(i) {
        Ok(x) => Ok(x),
        Err(e) => match e.kind {
            ParseErrorKind::NumericOverflow => Err(e),
            _ => parse_sexpr(i),
        },
    }
}

/// A parenthesised list of elements, after optional whitespace.
pub fn parse_sexpr<'a>(i: &'a str) -> (r: Result<(&'a str, Element), ParseError>)
    ensures
        result_view(r) == spec_parse_sexpr(i@),
    decreases i@.len(), 1int,
{
    proof {
        lemma_run_len(i@, CharClass::Space);
        reveal_strlit("(");
        reveal_strlit(")");
    }
    let t = spaces(i);
    proof {
        assert("("@ =~= seq!['(']);
        assert(")"@ =~= seq![')']);
        let k = run_len(i@, CharClass::Space) as int;
        if k < i@.len() && i@[k] == '(' {
            assert(t@[0] == i@[k]);
            assert(t@.take(1) =~= "("@);
        }
        if t@.len() > 0 && t@.take(1) == "("@ {
            assert(t@[0] == t@.take(1)[0]);
        }
    }
    let body = match literal(t, "(") {
        Some(b) => b,
        None => {
            return Err(token_error_at(t));
        },
    };
    let ghost k = run_len(i@, CharClass::Space) as int;
    assert(t@[0] == t@.take(1)[0]);
    assert(i@[k] == t@[0]);
    assert(body@ =~= i@.subrange(k + 1, i@.len() as int));
    let mut rest = body;
    let mut children: Vec<Element> = Vec::new();
    assert(spec_parse_sexpr(i@) == match spec_parse_items(body@) {
        Ok((r, es)) => spec_close_paren(r, es),
        Err(e) => Err(e),
    });
    loop
        invariant
            spec_parse_sexpr(i@) == match spec_parse_items(body@) {
                Ok((r, es)) => spec_close_paren(r, es),
                Err(e) => Err(e),
            },
            rest@.len() <= body@.len(),
            body@.len() < i@.len(),
            spec_parse_items(body@) == prepend_items(
                element_views(children@),
                spec_parse_items(rest@),
            ),
        ensures
            spec_parse_sexpr(i@) == match spec_parse_items(body@) {
                Ok((r, es)) => spec_close_paren(r, es),
                Err(e) => Err(e),
            },
            !starts_element(rest@),
            spec_parse_items(body@) == prepend_items(
                element_views(children@),
                spec_parse_items(rest@),
            ),
        decreases rest@.len(),
    {
        if !starts_element_at(rest) {
            break;
        }
        match parse_element(rest) {
            Ok((r, e)) => {
                let ghost before = children@;
                proof {
                    lemma_parse_progress(rest@);
                    let ghost old_views = element_views(children@);
                    if let Ok((r2, es)) = spec_parse_items(r@) {
                        assert(old_views + (seq![e@] + es) =~= (old_views + seq![e@]) + es);
                    }
                }
                children.push(e);
                proof {
                    assert(element_views(children@) =~= element_views(children@.drop_last()) + seq![
                        e@,
                    ]);
                    assert(children@.drop_last() =~= before);
                }
                rest = r;
            },
            Err(e) => {
                assert(spec_parse_items(rest@) == Err::<(Seq<char>, Seq<SpecElement>), ParseError>(e));
                return Err(e);
            },
        }
    }
    assert(element_views(children@) + Seq::<SpecElement>::empty() =~= element_views(children@));
    let u = spaces(rest);
    proof {
        if u@.len() > 0 && u@[0] == ')' {
            assert(u@.take(1) =~= ")"@);
        }
        if u@.len() > 0 && u@.take(1) == ")"@ {
            assert(u@[0] == u@.take(1)[0]);
        }
    }
    match literal(u, ")") {
        Some(after) => {
            proof {
                lemma_sexpr_view(children);
            }
            let r = Element::Sexpr(children);
            assert(u@.drop_first() =~= u@.skip(1));
            Ok((after, r))
        },
        None => {
            let n = u.unicode_len();
            if n == 0 {
                Err(ParseError { kind: ParseErrorKind::UnmatchedOpenParen, remaining: 0 })
            } else {
                Err(ParseError { kind: ParseErrorKind::UnexpectedToken, remaining: n })
            }
        },
    }
}


/// A whole document: one element, then nothing but whitespace. Text after
/// the element is reported as `TrailingInput`.
pub fn parse(i: &str) -> (r: Result<Element, ParseError>)
    ensures
        match r {
            Ok(e) => spec_parse(i@) == Ok::<SpecElement, ParseError>(e@),
            Err(x) => spec_parse(i@) == Err::<SpecElement, ParseError>(x),
        },
{
    match parse_element(i) {
        Ok((rest, e)) => {
            let tail = spaces(rest);
            let n = tail.unicode_len();
            if n == 0 {
                Ok(e)
            } else {
                Err(ParseError { kind: ParseErrorKind::TrailingInput, remaining: n })
            }
        },
        Err(x) => Err(x),
    }
}

} // verus!
