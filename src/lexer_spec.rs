//! What the lexer computes, stated over sequences of characters.
//!
//! Every scan reads the input one character at a time; a carriage return is
//! absorbed wherever it stands: it counts towards the characters consumed but
//! never reaches a token's text.
use vstd::prelude::*;

use crate::chars::{char_is_alphabetic, char_is_numeric, char_is_whitespace};
use crate::token::{symbol_of, word_token, SpecLiteral, SpecToken};

verus! {

/// A class of characters that a run of the lexer consumes.
#[derive(Clone, Copy, Debug, PartialEq, Eq, Structural)]
pub enum CharClass {
    /// Whitespace, which separates tokens.
    Whitespace,
    /// Letters, digits and `_`, which continue an identifier.
    IdentPart,
    /// Anything but a line feed, which ends a line comment.
    NotNewline,
}

impl CharClass {
    pub open spec fn holds(self, c: char) -> bool {
        match self {
            CharClass::Whitespace => char_is_whitespace(c),
            CharClass::IdentPart => char_is_alphabetic(c) || char_is_numeric(c) || c == '_',
            CharClass::NotNewline => c != '\n',
        }
    }
}

/// The view of a lexing error.
pub ghost enum SpecLexError {
    UnexpectedToken(char, Seq<char>),
    Expected(Seq<char>),
}

/// The message of the error for a `/` followed by neither `/` nor `*`.
pub open spec fn bad_comment_message() -> Seq<char> {
    "Expected '/' for line comment or '*' for multiline comment"@
}

/// The message of the error for a `/` at the very end of the input.
pub open spec fn missing_comment_message() -> Seq<char> {
    "/ for comment at"@
}

/// Number of carriage returns that `s` starts with.
pub open spec fn cr_run(s: Seq<char>) -> nat
    decreases s.len(),
{
    if s.len() > 0 && s[0] == '\r' {
        1 + cr_run(s.drop_first())
    } else {
        0
    }
}

/// Length of the longest prefix of `s` made of characters in `class`.
pub open spec fn run_len(s: Seq<char>, class: CharClass) -> nat
    decreases s.len(),
{
    if s.len() > 0 && (s[0] == '\r' || class.holds(s[0])) {
        1 + run_len(s.drop_first(), class)
    } else {
        0
    }
}

/// The text of that prefix.
pub open spec fn run_text(s: Seq<char>, class: CharClass) -> Seq<char>
    decreases s.len(),
{
    if s.len() == 0 {
        Seq::empty()
    } else if s[0] == '\r' {
        run_text(s.drop_first(), class)
    } else if class.holds(s[0]) {
        seq![s[0]] + run_text(s.drop_first(), class)
    } else {
        Seq::empty()
    }
}

/// Length of the number at the start of `s`: digits, and one decimal point
/// unless `point` says that one was seen already.
pub open spec fn number_len(s: Seq<char>, point: bool) -> nat
    decreases s.len(),
{
    if s.len() > 0 && (s[0] == '\r' || char_is_numeric(s[0])) {
        1 + number_len(s.drop_first(), point)
    } else if s.len() > 0 && s[0] == '.' && !point {
        1 + number_len(s.drop_first(), true)
    } else {
        0
    }
}

/// The text of that number.
pub open spec fn number_text(s: Seq<char>, point: bool) -> Seq<char>
    decreases s.len(),
{
    if s.len() == 0 {
        Seq::empty()
    } else if s[0] == '\r' {
        number_text(s.drop_first(), point)
    } else if char_is_numeric(s[0]) {
        seq![s[0]] + number_text(s.drop_first(), point)
    } else if s[0] == '.' && !point {
        seq![s[0]] + number_text(s.drop_first(), true)
    } else {
        Seq::empty()
    }
}

/// Length of a string literal's body and its closing `quote`; `escaped` says
/// that an unescaped backslash came just before. An unterminated literal runs
/// to the end of the input.
pub open spec fn string_len(s: Seq<char>, quote: char, escaped: bool) -> nat
    decreases s.len(),
{
    if s.len() == 0 {
        0
    } else if s[0] == '\r' {
        1 + string_len(s.drop_first(), quote, escaped)
    } else if s[0] == quote && !escaped {
        1
    } else {
        1 + string_len(s.drop_first(), quote, s[0] == '\\' && !escaped)
    }
}

/// The text of that literal, backslashes kept.
pub open spec fn string_text(s: Seq<char>, quote: char, escaped: bool) -> Seq<char>
    decreases s.len(),
{
    if s.len() == 0 {
        Seq::empty()
    } else if s[0] == '\r' {
        string_text(s.drop_first(), quote, escaped)
    } else if s[0] == quote && !escaped {
        Seq::empty()
    } else {
        seq![s[0]] + string_text(s.drop_first(), quote, s[0] == '\\' && !escaped)
    }
}

/// Whether `s`, carriage returns aside, starts with `/`.
pub open spec fn starts_with_slash(s: Seq<char>) -> bool {
    cr_run(s) < s.len() && s[cr_run(s) as int] == '/'
}

/// Length of a block comment's body and its closing `*/`; an unterminated
/// comment runs to the end of the input.
pub open spec fn block_len(s: Seq<char>) -> nat
    decreases s.len(),
{
    if s.len() == 0 {
        0
    } else if s[0] == '*' && starts_with_slash(s.drop_first()) {
        2 + cr_run(s.drop_first())
    } else {
        1 + block_len(s.drop_first())
    }
}

/// The text of that comment.
pub open spec fn block_text(s: Seq<char>) -> Seq<char>
    decreases s.len(),
{
    if s.len() == 0 {
        Seq::empty()
    } else if s[0] == '\r' {
        block_text(s.drop_first())
    } else if s[0] == '*' && starts_with_slash(s.drop_first()) {
        Seq::empty()
    } else {
        seq![s[0]] + block_text(s.drop_first())
    }
}

/// The comment that follows a `/`, and how many characters after the `/` it spans.
pub open spec fn comment_step(u: Seq<char>) -> Result<(SpecToken, nat), SpecLexError> {
    let m = cr_run(u);
    if m >= u.len() {
        Err(SpecLexError::Expected(missing_comment_message()))
    } else {
        let d = u[m as int];
        let v = u.skip(m + 1 as int);
        if d == '/' {
            Ok((SpecToken::Comment(run_text(v, CharClass::NotNewline)), m + 1 + run_len(v, CharClass::NotNewline)))
        } else if d == '*' {
            Ok((SpecToken::Comment(block_text(v)), m + 1 + block_len(v)))
        } else {
            Err(SpecLexError::UnexpectedToken(d, bad_comment_message()))
        }
    }
}

/// One step of the lexer on a nonempty `s` that starts with its next character:
/// the token that starts there, if any, and how many characters it spans.
pub open spec fn lex_step(s: Seq<char>) -> Result<(Option<SpecToken>, nat), SpecLexError> {
    let c = s[0];
    let rest = s.drop_first();
    if char_is_whitespace(c) {
        Ok((None, 1 + run_len(rest, CharClass::Whitespace)))
    } else if c == '/' {
        match comment_step(rest) {
            Ok((tok, n)) => Ok((Some(tok), 1 + n)),
            Err(e) => Err(e),
        }
    } else if char_is_alphabetic(c) {
        Ok((Some(word_token(seq![c] + run_text(rest, CharClass::IdentPart))), 1 + run_len(rest, CharClass::IdentPart)))
    } else if c == '"' || c == '\'' {
        Ok((Some(SpecToken::Literal(SpecLiteral::String(string_text(rest, c, false)))), 1 + string_len(rest, c, false)))
    } else if char_is_numeric(c) {
        Ok((Some(SpecToken::Literal(SpecLiteral::Number(seq![c] + number_text(rest, false)))), 1 + number_len(rest, false)))
    } else {
        match symbol_of(c) {
            Some(sym) => Ok((Some(SpecToken::Symbol(sym)), 1)),
            None => Ok((None, 1)),
        }
    }
}

/// `t` in front of the tokens of `r`, or the error of `r`.
pub open spec fn prepend(t: SpecToken, r: Result<Seq<SpecToken>, SpecLexError>) -> Result<Seq<SpecToken>, SpecLexError> {
    match r {
        Ok(ts) => Ok(seq![t] + ts),
        Err(e) => Err(e),
    }
}

/// The tokens of the source `s`, or the first error met.
pub open spec fn lex(s: Seq<char>) -> Result<Seq<SpecToken>, SpecLexError>
    decreases s.len(),
{
    if s.len() == 0 {
        Ok(Seq::empty())
    } else if s[0] == '\r' {
        lex(s.drop_first())
    } else {
        match lex_step(s) {
            Err(e) => Err(e),
            Ok((tok, n)) => {
                proof {
                    lemma_lex_step_bounds(s);
                }
                match tok {
                    Some(t) => prepend(t, lex(s.skip(n as int))),
                    None => lex(s.skip(n as int)),
                }
            },
        }
    }
}

/// `s` starts with `cr_run(s)` carriage returns, and the character after them is none.
pub proof fn lemma_cr_run_bound(s: Seq<char>)
    ensures
        cr_run(s) <= s.len(),
        forall|i: int| 0 <= i < cr_run(s) ==> s[i] == '\r',
        cr_run(s) < s.len() ==> s[cr_run(s) as int] != '\r',
    decreases s.len(),
{
    if s.len() > 0 && s[0] == '\r' {
        lemma_cr_run_bound(s.drop_first());
        assert forall|i: int| 0 <= i < cr_run(s) implies s[i] == '\r' by {
            if i > 0 {
                assert(s[i] == s.drop_first()[i - 1]);
            }
        }
    }
}

/// A run of `k` carriage returns, and nothing else, makes `cr_run` equal `k`.
pub proof fn lemma_cr_run_exact(s: Seq<char>, k: nat)
    requires
        k <= s.len(),
        forall|i: int| 0 <= i < k ==> s[i] == '\r',
        k < s.len() ==> s[k as int] != '\r',
    ensures
        cr_run(s) == k,
    decreases k,
{
    if k > 0 {
        let t = s.drop_first();
        assert forall|i: int| 0 <= i < k - 1 implies t[i] == '\r' by {
            assert(t[i] == s[i + 1]);
        }
        lemma_cr_run_exact(t, (k - 1) as nat);
    }
}

/// Leading carriage returns count towards what each scan consumes, and change
/// nothing else.
pub proof fn lemma_absorb_cr(s: Seq<char>, k: nat, class: CharClass, point: bool, quote: char, escaped: bool)
    requires
        k <= s.len(),
        forall|i: int| 0 <= i < k ==> s[i] == '\r',
    ensures
        run_len(s, class) == k + run_len(s.skip(k as int), class),
        run_text(s, class) == run_text(s.skip(k as int), class),
        number_len(s, point) == k + number_len(s.skip(k as int), point),
        number_text(s, point) == number_text(s.skip(k as int), point),
        string_len(s, quote, escaped) == k + string_len(s.skip(k as int), quote, escaped),
        string_text(s, quote, escaped) == string_text(s.skip(k as int), quote, escaped),
        block_len(s) == k + block_len(s.skip(k as int)),
        block_text(s) == block_text(s.skip(k as int)),
        lex(s) == lex(s.skip(k as int)),
    decreases k,
{
    if k == 0 {
        assert(s.skip(0) =~= s);
    } else {
        let t = s.drop_first();
        assert forall|i: int| 0 <= i < k - 1 implies t[i] == '\r' by {
            assert(t[i] == s[i + 1]);
        }
        lemma_absorb_cr(t, (k - 1) as nat, class, point, quote, escaped);
        assert(t.skip(k - 1) =~= s.skip(k as int));
    }
}

pub proof fn lemma_run_len_bound(s: Seq<char>, class: CharClass)
    ensures
        run_len(s, class) <= s.len(),
    decreases s.len(),
{
    if s.len() > 0 {
        lemma_run_len_bound(s.drop_first(), class);
    }
}

pub proof fn lemma_number_len_bound(s: Seq<char>, point: bool)
    ensures
        number_len(s, point) <= s.len(),
    decreases s.len(),
{
    if s.len() > 0 {
        lemma_number_len_bound(s.drop_first(), point);
        lemma_number_len_bound(s.drop_first(), true);
    }
}

pub proof fn lemma_string_len_bound(s: Seq<char>, quote: char, escaped: bool)
    ensures
        string_len(s, quote, escaped) <= s.len(),
    decreases s.len(),
{
    if s.len() > 0 {
        lemma_string_len_bound(s.drop_first(), quote, escaped);
        lemma_string_len_bound(s.drop_first(), quote, s[0] == '\\' && !escaped);
    }
}

pub proof fn lemma_block_len_bound(s: Seq<char>)
    ensures
        block_len(s) <= s.len(),
    decreases s.len(),
{
    if s.len() > 0 {
        lemma_block_len_bound(s.drop_first());
        lemma_cr_run_bound(s.drop_first());
    }
}

/// A step of the lexer consumes at least one character and no more than there are.
pub proof fn lemma_lex_step_bounds(s: Seq<char>)
    requires
        s.len() > 0,
    ensures
        lex_step(s) matches Ok((_, n)) ==> 1 <= n <= s.len(),
{
    let rest = s.drop_first();
    lemma_run_len_bound(rest, CharClass::Whitespace);
    lemma_run_len_bound(rest, CharClass::IdentPart);
    lemma_string_len_bound(rest, s[0], false);
    lemma_number_len_bound(rest, false);
    lemma_cr_run_bound(rest);
    let m = cr_run(rest);
    if m < rest.len() {
        let v = rest.skip(m + 1 as int);
        lemma_run_len_bound(v, CharClass::NotNewline);
        lemma_block_len_bound(v);
    }
}

} // verus!
