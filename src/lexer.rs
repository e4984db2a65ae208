//! The lexer: a cursor over the characters of the source, and the scans that
//! turn them into tokens.
use vstd::prelude::*;
use vstd::string::StringExecFns;

use crate::chars::{char_is_alphabetic, char_is_numeric, is_alphabetic, is_alphanumeric, is_numeric, is_whitespace};
use crate::lexer_spec::{
    block_len, block_text, comment_step, cr_run, lemma_absorb_cr, lemma_cr_run_bound, lemma_cr_run_exact,
    lemma_lex_step_bounds, lex, prepend, number_len, number_text, run_len, run_text, string_len, string_text, CharClass,
    SpecLexError,
};
use crate::token::{word_token, KeywordType, Literal, SpecLiteral, SpecToken, Symbol, Token, is_word};

verus! {

/// An error met while lexing.
#[derive(Debug, PartialEq)]
pub enum ParserError {
    /// A character that cannot stand where it was found, and what was expected.
    UnexpectedToken(char, String),
    /// The input ended where more was expected.
    Expected(String),
}

impl View for ParserError {
    type V = SpecLexError;

    open spec fn view(&self) -> SpecLexError {
        match self {
            ParserError::UnexpectedToken(c, m) => SpecLexError::UnexpectedToken(*c, m@),
            ParserError::Expected(m) => SpecLexError::Expected(m@),
        }
    }
}

/// The views of a sequence of tokens.
pub open spec fn tokens_view(v: Seq<Token>) -> Seq<SpecToken> {
    v.map_values(|t: Token| t@)
}

/// `prefix` in front of the tokens of `r`, or the error of `r`.
pub open spec fn tokens_then(prefix: Seq<SpecToken>, r: Result<Seq<SpecToken>, SpecLexError>) -> Result<Seq<SpecToken>, SpecLexError> {
    match r {
        Ok(ts) => Ok(prefix + ts),
        Err(e) => Err(e),
    }
}

/// Whether `r` is what lexing should give, by `expected`.
pub open spec fn lexed_as(r: Result<Vec<Token>, ParserError>, expected: Result<Seq<SpecToken>, SpecLexError>) -> bool {
    match expected {
        Ok(ts) => r matches Ok(v) && tokens_view(v@) == ts,
        Err(e) => r matches Err(err) && err@ == e,
    }
}

/// Moving one token from the front of what is left to the end of what is done
/// changes nothing of the whole.
pub proof fn lemma_tokens_then_push(prefix: Seq<SpecToken>, t: SpecToken, r: Result<Seq<SpecToken>, SpecLexError>)
    ensures
        tokens_then(prefix.push(t), r) == tokens_then(prefix, prepend(t, r)),
{
    if let Ok(ts) = r {
        assert(prefix.push(t) + ts =~= prefix + (seq![t] + ts));
    }
}

/// Relies on `str::chars` and `collect`: the characters of `text`, in order.
#[verifier::external_body]
fn chars_of(text: &str) -> (r: Vec<char>)
    ensures
        r@ == text@,
{
    text.chars().collect()
}

/// Relies on `String`'s `FromIterator<&char>`: a string of the characters of `v`, in order.
#[verifier::external_body]
fn string_of(v: &Vec<char>) -> (r: String)
    ensures
        r@ == v@,
{
    v.iter().collect()
}

/// One more than `n`, short of the largest `usize`.
pub open spec fn count_up(n: usize) -> usize {
    if n < usize::MAX {
        (n + 1) as usize
    } else {
        n
    }
}

/// The source characters, a read position in them, the tokens produced so far,
/// and the line and column reached.
struct ParserContext {
    chars: Vec<char>,
    tokens: Vec<Token>,
    line: usize,
    line_offset: usize,
    offset: usize,
}

impl ParserContext {
    spec fn wf(&self) -> bool {
        self.offset <= self.chars.len()
    }

    /// The characters not read yet.
    spec fn rest(&self) -> Seq<char> {
        self.chars@.skip(self.offset as int)
    }

    fn new(chars: Vec<char>) -> (r: ParserContext)
        ensures
            r.wf(),
            r.chars == chars,
            r.tokens@ == Seq::<Token>::empty(),
            r.offset == 0,
            r.line == 0,
            r.line_offset == 0,
    {
        ParserContext { chars, tokens: Vec::new(), line: 0, offset: 0, line_offset: 0 }
    }

    fn push_token(&mut self, token: Token)
        ensures
            final(self).tokens@ == old(self).tokens@.push(token),
            final(self).chars == old(self).chars,
            final(self).offset == old(self).offset,
    {
        self.tokens.push(token)
    }

    fn step_back(&mut self)
        requires
            old(self).wf(),
            old(self).offset > 0,
        ensures
            final(self).wf(),
            final(self).offset == old(self).offset - 1,
            final(self).chars == old(self).chars,
            final(self).tokens == old(self).tokens,
    {
        self.offset -= 1;
    }

    /// Reads the next character, passing over carriage returns.
    fn next_char(&mut self) -> (r: Option<char>)
        requires
            old(self).wf(),
        ensures
            final(self).wf(),
            final(self).chars == old(self).chars,
            final(self).tokens == old(self).tokens,
            r == Some('\n') ==> final(self).line == count_up(old(self).line) && final(self).line_offset == 0,
            r matches Some(c) && c != '\n' ==> final(self).line == old(self).line
                && final(self).line_offset == count_up(old(self).line_offset),
            r is None ==> final(self).line == old(self).line && final(self).line_offset == old(self).line_offset,
            ({
                let s = old(self).rest();
                let k = cr_run(s);
                if k < s.len() {
                    r == Some(s[k as int]) && final(self).offset == old(self).offset + k + 1
                } else {
                    r is None && final(self).offset == old(self).chars.len()
                }
            }),
    {
        let ghost start = self.offset;
        while self.offset < self.chars.len()
            invariant
                self.wf(),
                self.chars == old(self).chars,
                self.tokens == old(self).tokens,
                start == old(self).offset,
                start <= self.offset,
                self.line == old(self).line,
                self.line_offset == old(self).line_offset,
                forall|i: int| start <= i < self.offset ==> self.chars@[i] == '\r',
            decreases self.chars.len() - self.offset,
        {
            let c = self.chars[self.offset];
            if c == '\r' {
                // A carriage return counts neither as a line nor as a column.
                self.offset += 1;
            } else {
                proof {
                    lemma_cr_run_exact(self.chars@.skip(start as int), (self.offset - start) as nat);
                }
                self.offset += 1;
                if c == '\n' {
                    self.line = self.line.saturating_add(1);
                    self.line_offset = 0;
                } else {
                    self.line_offset = self.line_offset.saturating_add(1);
                }
                return Some(c);
            }
        }
        proof {
            let s = self.chars@.skip(start as int);
            lemma_cr_run_exact(s, (self.offset - start) as nat);
        }
        None
    }

    /// Reads the longest run of characters in `class` and returns its text.
    fn take_while(&mut self, class: CharClass) -> (out: Vec<char>)
        requires
            old(self).wf(),
        ensures
            final(self).wf(),
            final(self).chars == old(self).chars,
            final(self).tokens == old(self).tokens,
            out@ == run_text(old(self).rest(), class),
            final(self).offset == old(self).offset + run_len(old(self).rest(), class),
    {
        let mut out: Vec<char> = Vec::new();
        loop
            invariant
                self.wf(),
                self.chars == old(self).chars,
                self.tokens == old(self).tokens,
                run_text(old(self).rest(), class) == out@ + run_text(self.rest(), class),
                old(self).offset + run_len(old(self).rest(), class) == self.offset + run_len(self.rest(), class),
            ensures
                run_len(self.rest(), class) == 0,
                run_text(self.rest(), class) == Seq::<char>::empty(),
            decreases self.chars.len() - self.offset,
        {
            let ghost s = self.rest();
            let ghost before = self.offset;
            proof {
                lemma_cr_run_bound(s);
                lemma_absorb_cr(s, cr_run(s), class, false, ' ', false);
            }
            match self.next_char() {
                None => {
                    assert(self.rest() =~= s.skip(s.len() as int));
                    break;
                },
                Some(c) => {
                    let ghost t = s.skip(cr_run(s) as int);
                    assert(self.rest() =~= t.drop_first());
                    if !class.test(c) {
                        self.step_back();
                        assert(self.rest() =~= t);
                        break;
                    }
                    assert(out@.push(c) + run_text(self.rest(), class) =~= out@ + (seq![c] + run_text(self.rest(), class)));
                    out.push(c);
                },
            }
        }
        out
    }

    /// Passes over the longest run of characters in `class`.
    fn skip_while(&mut self, class: CharClass)
        requires
            old(self).wf(),
        ensures
            final(self).wf(),
            final(self).chars == old(self).chars,
            final(self).tokens == old(self).tokens,
            final(self).offset == old(self).offset + run_len(old(self).rest(), class),
    {
        loop
            invariant
                self.wf(),
                self.chars == old(self).chars,
                self.tokens == old(self).tokens,
                old(self).offset + run_len(old(self).rest(), class) == self.offset + run_len(self.rest(), class),
            ensures
                run_len(self.rest(), class) == 0,
                run_text(self.rest(), class) == Seq::<char>::empty(),
            decreases self.chars.len() - self.offset,
        {
            let ghost s = self.rest();
            proof {
                lemma_cr_run_bound(s);
                lemma_absorb_cr(s, cr_run(s), class, false, ' ', false);
            }
            match self.next_char() {
                None => {
                    assert(self.rest() =~= s.skip(s.len() as int));
                    break;
                },
                Some(c) => {
                    let ghost t = s.skip(cr_run(s) as int);
                    assert(self.rest() =~= t.drop_first());
                    if !class.test(c) {
                        self.step_back();
                        assert(self.rest() =~= t);
                        break;
                    }
                },
            }
        }
    }
}

impl CharClass {
    /// Whether `c` is in this class.
    pub fn test(&self, c: char) -> (r: bool)
        ensures
            r == self.holds(c),
    {
        match self {
            CharClass::Whitespace => is_whitespace(c),
            CharClass::IdentPart => is_alphabetic(c) || is_alphanumeric(c) || c == '_',
            CharClass::NotNewline => c != '\n',
        }
    }
}


/// The lexer.
pub struct Parser;

impl Parser {
    /// Reads a comment, after its opening `/`.
    fn consume_comment(context: &mut ParserContext) -> (r: Result<(), ParserError>)
        requires
            old(context).wf(),
        ensures
            final(context).wf(),
            final(context).chars == old(context).chars,
            match comment_step(old(context).rest()) {
                Ok((tok, n)) => r is Ok && tokens_view(final(context).tokens@) == tokens_view(old(context).tokens@).push(tok)
                    && final(context).offset == old(context).offset + n,
                Err(e) => r matches Err(err) && err@ == e && final(context).tokens == old(context).tokens,
            },
    {
        let ghost u = context.rest();
        let ghost start = context.offset;
        proof {
            lemma_cr_run_bound(u);
        }
        match context.next_char() {
            None => Err(ParserError::Expected(String::from_str("/ for comment at"))),
            Some(c) => {
                let ghost m = cr_run(u);
                assert(context.rest() =~= u.skip(m + 1 as int));
                if c == '/' {
                    // Line comment: up to the end of the line.
                    let text = context.take_while(CharClass::NotNewline);
                    let ghost before = context.tokens@;
                    context.push_token(Token::Comment(string_of(&text)));
                    assert(tokens_view(context.tokens@) =~= tokens_view(before).push(context.tokens@.last()@));
                    Ok(())
                } else if c == '*' {
                    // Block comment: up to the closing `*/`.
                    let ghost v = context.rest();
                    let mut text: Vec<char> = Vec::new();
                    loop
                        invariant_except_break
                            block_text(v) == text@ + block_text(context.rest()),
                            start + m + 1 + block_len(v) == context.offset + block_len(context.rest()),
                        invariant
                            context.wf(),
                            context.chars == old(context).chars,
                            context.tokens == old(context).tokens,
                        ensures
                            block_text(v) == text@,
                            start + m + 1 + block_len(v) == context.offset,
                        decreases context.chars.len() - context.offset,
                    {
                        let ghost s = context.rest();
                        proof {
                            lemma_cr_run_bound(s);
                            lemma_absorb_cr(s, cr_run(s), CharClass::NotNewline, false, ' ', false);
                        }
                        match context.next_char() {
                            None => {
                                assert(context.rest() =~= s.skip(s.len() as int));
                                assert(text@ + Seq::<char>::empty() =~= text@);
                                break;
                            },
                            Some(first) => {
                                let ghost t = s.skip(cr_run(s) as int);
                                let ghost w = t.drop_first();
                                assert(context.rest() =~= w);
                                proof {
                                    lemma_cr_run_bound(w);
                                    lemma_absorb_cr(w, cr_run(w), CharClass::NotNewline, false, ' ', false);
                                }
                                if first == '*' {
                                    match context.next_char() {
                                        Some(second) => {
                                            if second == '/' {
                                                assert(text@ + Seq::<char>::empty() =~= text@);
                                                break;
                                            } else {
                                                context.step_back();
                                                assert(context.rest() =~= w.skip(cr_run(w) as int));
                                                assert(text@.push('*') + block_text(context.rest()) =~= text@ + (seq!['*'] + block_text(w)));
                                                text.push('*');
                                            }
                                        },
                                        None => {
                                            assert(context.rest() =~= w.skip(w.len() as int));
                                            assert(text@.push('*') + block_text(context.rest()) =~= text@ + (seq!['*'] + block_text(w)));
                                            text.push('*');
                                        },
                                    }
                                } else {
                                    assert(text@.push(first) + block_text(w) =~= text@ + (seq![first] + block_text(w)));
                                    text.push(first);
                                }
                            },
                        }
                    }
                    let ghost before = context.tokens@;
                    context.push_token(Token::Comment(string_of(&text)));
                    assert(tokens_view(context.tokens@) =~= tokens_view(before).push(context.tokens@.last()@));
                    Ok(())
                } else {
                    Err(ParserError::UnexpectedToken(
                        c,
                        String::from_str("Expected '/' for line comment or '*' for multiline comment"),
                    ))
                }
            },
        }
    }

    /// Reads an identifier, a reserved word or a word literal, whose first
    /// character has just been read.
    fn consume_ident(context: &mut ParserContext)
        requires
            old(context).wf(),
            old(context).offset > 0,
            char_is_alphabetic(old(context).chars@[old(context).offset - 1]),
        ensures
            final(context).wf(),
            final(context).chars == old(context).chars,
            tokens_view(final(context).tokens@) == tokens_view(old(context).tokens@).push(
                word_token(seq![old(context).chars@[old(context).offset - 1]] + run_text(old(context).rest(), CharClass::IdentPart)),
            ),
            final(context).offset == old(context).offset + run_len(old(context).rest(), CharClass::IdentPart),
    {
        let ghost c = context.chars@[context.offset - 1];
        context.step_back();
        assert(context.rest().drop_first() =~= old(context).rest());
        let ident = context.take_while(CharClass::IdentPart);
        let ghost before = context.tokens@;
        if let Some(keyword) = KeywordType::from(&ident) {
            context.push_token(Token::Keyword(keyword));
        } else if is_word(&ident, "true") || is_word(&ident, "false") {
            let is_true = is_word(&ident, "true");
            context.push_token(Token::Literal(Literal::Boolean(is_true)));
        } else if is_word(&ident, "null") {
            context.push_token(Token::Literal(Literal::Null));
        } else if is_word(&ident, "ndef") {
            context.push_token(Token::Literal(Literal::Undefined));
        } else {
            context.push_token(Token::Ident(string_of(&ident)));
        }
        assert(tokens_view(context.tokens@) =~= tokens_view(before).push(context.tokens@.last()@));
    }

    /// Reads a number literal, whose first digit has just been read.
    fn consume_number_literal(context: &mut ParserContext)
        requires
            old(context).wf(),
            old(context).offset > 0,
            char_is_numeric(old(context).chars@[old(context).offset - 1]),
        ensures
            final(context).wf(),
            final(context).chars == old(context).chars,
            tokens_view(final(context).tokens@) == tokens_view(old(context).tokens@).push(
                SpecToken::Literal(SpecLiteral::Number(
                    seq![old(context).chars@[old(context).offset - 1]] + number_text(old(context).rest(), false),
                )),
            ),
            final(context).offset == old(context).offset + number_len(old(context).rest(), false),
    {
        context.step_back();
        assert(context.rest().drop_first() =~= old(context).rest());
        let ghost v = context.rest();
        let ghost start = context.offset;
        let mut out: Vec<char> = Vec::new();
        let mut decimal = false;
        loop
            invariant
                context.wf(),
                context.chars == old(context).chars,
                context.tokens == old(context).tokens,
                number_text(v, false) == out@ + number_text(context.rest(), decimal),
                start + number_len(v, false) == context.offset + number_len(context.rest(), decimal),
            ensures
                number_len(context.rest(), decimal) == 0,
                number_text(context.rest(), decimal) == Seq::<char>::empty(),
            decreases context.chars.len() - context.offset,
        {
            let ghost s = context.rest();
            proof {
                lemma_cr_run_bound(s);
                lemma_absorb_cr(s, cr_run(s), CharClass::NotNewline, decimal, ' ', false);
            }
            match context.next_char() {
                None => {
                    assert(context.rest() =~= s.skip(s.len() as int));
                    break;
                },
                Some(c) => {
                    let ghost t = s.skip(cr_run(s) as int);
                    assert(context.rest() =~= t.drop_first());
                    if is_numeric(c) {
                        assert(out@.push(c) + number_text(context.rest(), decimal) =~= out@ + (seq![c] + number_text(t.drop_first(), decimal)));
                        out.push(c);
                    } else if c == '.' && !decimal {
                        assert(out@.push(c) + number_text(context.rest(), true) =~= out@ + (seq![c] + number_text(t.drop_first(), true)));
                        decimal = true;
                        out.push(c);
                    } else {
                        context.step_back();
                        assert(context.rest() =~= t);
                        break;
                    }
                },
            }
        }
        assert(out@ =~= number_text(v, false));
        let ghost before = context.tokens@;
        context.push_token(Token::Literal(Literal::Number(string_of(&out))));
        assert(tokens_view(context.tokens@) =~= tokens_view(before).push(context.tokens@.last()@));
    }

    /// Reads a string literal, after its opening quote `open_char`.
    fn consume_string_literal(open_char: char, context: &mut ParserContext)
        requires
            old(context).wf(),
        ensures
            final(context).wf(),
            final(context).chars == old(context).chars,
            tokens_view(final(context).tokens@) == tokens_view(old(context).tokens@).push(
                SpecToken::Literal(SpecLiteral::String(string_text(old(context).rest(), open_char, false))),
            ),
            final(context).offset == old(context).offset + string_len(old(context).rest(), open_char, false),
    {
        let ghost v = context.rest();
        let mut text: Vec<char> = Vec::new();
        let mut escaped = false;
        loop
            invariant_except_break
                string_text(v, open_char, false) == text@ + string_text(context.rest(), open_char, escaped),
                old(context).offset + string_len(v, open_char, false) == context.offset + string_len(context.rest(), open_char, escaped),
            invariant
                context.wf(),
                context.chars == old(context).chars,
                context.tokens == old(context).tokens,
            ensures
                string_text(v, open_char, false) == text@,
                old(context).offset + string_len(v, open_char, false) == context.offset,
            decreases context.chars.len() - context.offset,
        {
            let ghost s = context.rest();
            proof {
                lemma_cr_run_bound(s);
                lemma_absorb_cr(s, cr_run(s), CharClass::NotNewline, false, open_char, escaped);
            }
            match context.next_char() {
                None => {
                    assert(context.rest() =~= s.skip(s.len() as int));
                    break;
                },
                Some(c) => {
                    let ghost t = s.skip(cr_run(s) as int);
                    assert(context.rest() =~= t.drop_first());
                    if c == open_char && !escaped {
                        assert(text@ + Seq::<char>::empty() =~= text@);
                        break;
                    }
                    let next_escaped = c == '\\' && !escaped;
                    assert(text@.push(c) + string_text(context.rest(), open_char, next_escaped) =~= text@ + (seq![c] + string_text(t.drop_first(), open_char, next_escaped)));
                    text.push(c);
                    escaped = next_escaped;
                },
            }
        }
        let ghost before = context.tokens@;
        context.push_token(Token::Literal(Literal::String(string_of(&text))));
        assert(tokens_view(context.tokens@) =~= tokens_view(before).push(context.tokens@.last()@));
    }

    /// Turns source text into tokens, or the first error met.
    pub fn parse(text: &str) -> (r: Result<Vec<Token>, ParserError>)
        ensures
            lexed_as(r, lex(text@)),
    {
        let chars = chars_of(text);
        let mut context = ParserContext::new(chars);
        assert(context.rest() =~= text@);
        assert(tokens_view(context.tokens@) + Seq::<SpecToken>::empty() =~= Seq::<SpecToken>::empty());
        loop
            invariant
                context.wf(),
                context.chars@ == text@,
                tokens_then(tokens_view(context.tokens@), lex(context.rest())) == lex(text@),
            ensures
                context.rest() == Seq::<char>::empty(),
            decreases context.chars.len() - context.offset,
        {
            let ghost s = context.rest();
            let ghost before = tokens_view(context.tokens@);
            proof {
                lemma_cr_run_bound(s);
                lemma_absorb_cr(s, cr_run(s), CharClass::Whitespace, false, ' ', false);
            }
            match context.next_char() {
                None => {
                    assert(context.rest() =~= Seq::<char>::empty());
                    break;
                },
                Some(c) => {
                    let ghost t = s.skip(cr_run(s) as int);
                    let ghost after_c = context.offset;
                    assert(context.rest() =~= t.drop_first());
                    proof {
                        lemma_lex_step_bounds(t);
                    }
                    if is_whitespace(c) {
                        context.skip_while(CharClass::Whitespace);
                        assert(context.rest() =~= t.skip((1 + run_len(t.drop_first(), CharClass::Whitespace)) as int));
                    } else if c == '/' {
                        match Parser::consume_comment(&mut context) {
                            Ok(()) => {},
                            Err(e) => {
                                return Err(e);
                            },
                        }
                        let ghost n = comment_step(t.drop_first())->Ok_0.1;
                        assert(context.rest() =~= t.skip((1 + n) as int));
                        proof {
                            lemma_tokens_then_push(before, comment_step(t.drop_first())->Ok_0.0, lex(context.rest()));
                        }
                    } else if is_alphabetic(c) {
                        Parser::consume_ident(&mut context);
                        assert(context.rest() =~= t.skip((1 + run_len(t.drop_first(), CharClass::IdentPart)) as int));
                        proof {
                            lemma_tokens_then_push(before, word_token(seq![c] + run_text(t.drop_first(), CharClass::IdentPart)), lex(context.rest()));
                        }
                    } else if c == '"' || c == '\'' {
                        Parser::consume_string_literal(c, &mut context);
                        assert(context.rest() =~= t.skip((1 + string_len(t.drop_first(), c, false)) as int));
                        proof {
                            lemma_tokens_then_push(before, SpecToken::Literal(SpecLiteral::String(string_text(t.drop_first(), c, false))), lex(context.rest()));
                        }
                    } else if is_numeric(c) {
                        Parser::consume_number_literal(&mut context);
                        assert(context.rest() =~= t.skip((1 + number_len(t.drop_first(), false)) as int));
                        proof {
                            lemma_tokens_then_push(before, SpecToken::Literal(SpecLiteral::Number(seq![c] + number_text(t.drop_first(), false))), lex(context.rest()));
                        }
                    } else if let Some(symbol) = Symbol::from(c) {
                        context.push_token(Token::Symbol(symbol));
                        assert(tokens_view(context.tokens@) =~= before.push(SpecToken::Symbol(symbol)));
                        assert(context.rest() =~= t.skip(1));
                        proof {
                            lemma_tokens_then_push(before, SpecToken::Symbol(symbol), lex(context.rest()));
                        }
                    } else {
                        assert(context.rest() =~= t.skip(1));
                    }
                },
            }
        }
        assert(tokens_view(context.tokens@) + Seq::<SpecToken>::empty() =~= tokens_view(context.tokens@));
        Ok(context.tokens)
    }
}

} // verus!
