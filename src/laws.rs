//! Properties of lexing and parsing as a whole.
use vstd::prelude::*;

use crate::ast_spec::{idents_named, parse_properties_at, parse_struct_at, parse_declarations, parse_tokens, plain_type, Declaration, SpecProperty};
use crate::chars::{char_is_alphabetic, char_is_numeric, char_is_whitespace, is_ascii_char, is_ascii_letter};
use crate::lexer::tokens_then;
use crate::lexer_spec::{
    cr_run, lemma_absorb_cr, lemma_cr_run_bound, lemma_run_len_bound, lemma_lex_step_bounds, lex, lex_step, prepend, run_len, run_text, string_len, string_text, CharClass, SpecLexError,
};
use crate::token::{keyword_of, symbol_of, word_token, KeywordType, SpecLiteral, SpecToken, Symbol};

verus! {

/// Whether `s` has the shape of an identifier: a letter, then letters,
/// digits and underscores.
pub open spec fn is_word_shaped(s: Seq<char>) -> bool {
    &&& s.len() >= 1
    &&& is_ascii_letter(s[0])
    &&& forall|i: int| 1 <= i < s.len() ==> #[trigger] CharClass::IdentPart.holds(s[i])
}

/// Whether `w` is whitespace that separates: ASCII whitespace, not all of it
/// carriage returns.
pub open spec fn is_separating_space(w: Seq<char>) -> bool {
    &&& forall|i: int| 0 <= i < w.len() ==> is_ascii_char(#[trigger] w[i]) && char_is_whitespace(w[i])
    &&& exists|i: int| 0 <= i < w.len() && #[trigger] w[i] != '\r'
}

proof fn lemma_run_prefix(x: Seq<char>, r: Seq<char>, class: CharClass)
    requires
        forall|i: int| 0 <= i < x.len() ==> #[trigger] x[i] == '\r' || class.holds(x[i]),
    ensures
        run_len(x + r, class) == x.len() + run_len(r, class),
        (forall|i: int| 0 <= i < x.len() ==> #[trigger] x[i] != '\r') ==> run_text(x + r, class) == x + run_text(r, class),
    decreases x.len(),
{
    if x.len() == 0 {
        assert(x + r =~= r);
    } else {
        let y = x.drop_first();
        assert forall|i: int| 0 <= i < y.len() implies #[trigger] y[i] == '\r' || class.holds(y[i]) by {
            assert(y[i] == x[i + 1]);
        }
        lemma_run_prefix(y, r, class);
        assert((x + r).drop_first() =~= y + r);
        assert((x + r)[0] == x[0]);
        if forall|i: int| 0 <= i < x.len() ==> #[trigger] x[i] != '\r' {
            assert forall|i: int| 0 <= i < y.len() implies #[trigger] y[i] != '\r' by {
                assert(y[i] == x[i + 1]);
            }
            assert(x + r =~= seq![x[0]] + (y + r));
            assert(x =~= seq![x[0]] + y);
        }
    }
}

/// A word followed by nothing that continues it lexes as one word token.
proof fn lemma_lex_step_word(a: Seq<char>, r: Seq<char>)
    requires
        is_word_shaped(a),
        r.len() == 0 || (r[0] != '\r' && !CharClass::IdentPart.holds(r[0])),
    ensures
        lex_step(a + r) == Ok::<(Option<SpecToken>, nat), crate::lexer_spec::SpecLexError>((Some(word_token(a)), a.len())),
{
    let s = a + r;
    let x = a.drop_first();
    assert forall|i: int| 0 <= i < x.len() implies #[trigger] x[i] == '\r' || CharClass::IdentPart.holds(x[i]) by {
        assert(x[i] == a[i + 1]);
    }
    assert forall|i: int| 0 <= i < x.len() implies #[trigger] x[i] != '\r' by {
        assert(x[i] == a[i + 1]);
        assert(CharClass::IdentPart.holds(a[i + 1]));
    }
    lemma_run_prefix(x, r, CharClass::IdentPart);
    assert(s.drop_first() =~= x + r);
    assert(s[0] == a[0]);
    assert(seq![a[0]] + x =~= a);
    assert(run_text(r, CharClass::IdentPart) =~= Seq::<char>::empty());
    assert(x + Seq::<char>::empty() =~= x);
}

/// A word alone lexes as its one token.
pub proof fn lemma_lex_word(a: Seq<char>)
    requires
        is_word_shaped(a),
    ensures
        lex(a) == Ok::<Seq<SpecToken>, crate::lexer_spec::SpecLexError>(seq![word_token(a)]),
{
    lemma_lex_step_word(a, Seq::empty());
    assert(a + Seq::<char>::empty() =~= a);
    assert(a[0] != '\r');
    assert(a.skip(a.len() as int) =~= Seq::<char>::empty());
    assert(lex(a.skip(a.len() as int)) == Ok::<Seq<SpecToken>, crate::lexer_spec::SpecLexError>(Seq::empty()));
    assert(seq![word_token(a)] + Seq::<SpecToken>::empty() =~= seq![word_token(a)]);
}

/// A word that is not reserved, nor `true`, `false`, `null` or `ndef`,
/// lexes as exactly one identifier with that name.
pub proof fn lemma_identifier_lexes_to_ident(s: Seq<char>)
    requires
        is_word_shaped(s),
        keyword_of(s) is None,
        s != "true"@,
        s != "false"@,
        s != "null"@,
        s != "ndef"@,
    ensures
        lex(s) == Ok::<Seq<SpecToken>, crate::lexer_spec::SpecLexError>(seq![SpecToken::Ident(s)]),
{
    lemma_lex_word(s);
}

/// Each reserved word (`const`, `fun`, `let`, `impl`, `struct`, and the
/// modifiers `pub`, `static`, `inline`, `compile`, `mut`) lexes as exactly one
/// keyword token of its kind.
pub proof fn lemma_keyword_lexes_to_keyword(s: Seq<char>, k: KeywordType)
    requires
        keyword_of(s) == Some(k),
    ensures
        lex(s) == Ok::<Seq<SpecToken>, crate::lexer_spec::SpecLexError>(seq![SpecToken::Keyword(k)]),
{
    reveal_strlit("const");
    reveal_strlit("fun");
    reveal_strlit("let");
    reveal_strlit("impl");
    reveal_strlit("struct");
    reveal_strlit("pub");
    reveal_strlit("mut");
    reveal_strlit("static");
    reveal_strlit("inline");
    reveal_strlit("compile");
    assert(is_word_shaped(s));
    lemma_lex_word(s);
}

/// Leading whitespace, carriage returns included, changes nothing of what lexes.
proof fn lemma_lex_skips_whitespace(b: Seq<char>)
    ensures
        lex(b.skip(run_len(b, CharClass::Whitespace) as int)) == lex(b),
    decreases b.len(),
{
    let n = run_len(b, CharClass::Whitespace);
    if n == 0 {
        assert(b.skip(0) =~= b);
    } else {
        let c = b.drop_first();
        lemma_lex_skips_whitespace(c);
        lemma_run_len_bound(c, CharClass::Whitespace);
        assert(b.skip(n as int) =~= c.skip(run_len(c, CharClass::Whitespace) as int));
    }
}

/// Whitespace between a word and what follows yields no token and changes
/// neither side: the word's token, then the tokens of the rest.
pub proof fn lemma_whitespace_between(a: Seq<char>, w: Seq<char>, b: Seq<char>)
    requires
        is_word_shaped(a),
        is_separating_space(w),
    ensures
        lex(a) == Ok::<Seq<SpecToken>, crate::lexer_spec::SpecLexError>(seq![word_token(a)]),
        lex(a + w + b) == tokens_then(seq![word_token(a)], lex(b)),
{
    lemma_lex_word(a);
    let k = cr_run(w);
    lemma_cr_run_bound(w);
    let j = choose|i: int| 0 <= i < w.len() && #[trigger] w[i] != '\r';
    assert(k < w.len()) by {
        if k >= w.len() {
            assert(w[j] == '\r');
        }
    }
    let wb = w + b;
    assert(wb.skip(k as int) =~= w.skip(k as int) + b);
    assert forall|i: int| 0 <= i < k implies wb[i] == '\r' by {
        assert(wb[i] == w[i]);
    }
    lemma_absorb_cr(wb, k, CharClass::IdentPart, false, ' ', false);
    let v = w.skip(k as int) + b;
    assert(v[0] == w[k as int]);
    // The word stops where the whitespace starts.
    let s = a + w + b;
    assert(s =~= a + wb);
    let x = a.drop_first();
    assert forall|i: int| 0 <= i < x.len() implies #[trigger] x[i] == '\r' || CharClass::IdentPart.holds(x[i]) by {
        assert(x[i] == a[i + 1]);
    }
    assert forall|i: int| 0 <= i < x.len() implies #[trigger] x[i] != '\r' by {
        assert(x[i] == a[i + 1]);
        assert(CharClass::IdentPart.holds(a[i + 1]));
    }
    lemma_run_prefix(x, wb, CharClass::IdentPart);
    assert(s.drop_first() =~= x + wb);
    assert(seq![a[0]] + x =~= a);
    assert(run_text(v, CharClass::IdentPart) =~= Seq::<char>::empty());
    assert(x + Seq::<char>::empty() =~= x);
    assert(lex_step(s) == Ok::<(Option<SpecToken>, nat), crate::lexer_spec::SpecLexError>((Some(word_token(a)), a.len() + k)));
    lemma_lex_step_bounds(s);
    assert(s.skip((a.len() + k) as int) =~= v);
    // The whitespace is passed over.
    let y = w.skip(k as int + 1);
    assert forall|i: int| 0 <= i < y.len() implies #[trigger] y[i] == '\r' || CharClass::Whitespace.holds(y[i]) by {
        assert(y[i] == w[i + k + 1]);
    }
    lemma_run_prefix(y, b, CharClass::Whitespace);
    assert(v.drop_first() =~= y + b);
    lemma_lex_step_bounds(v);
    assert(v.skip((1 + y.len() + run_len(b, CharClass::Whitespace)) as int) =~= b.skip(run_len(b, CharClass::Whitespace) as int));
    lemma_lex_skips_whitespace(b);
}

/// The tokens of a struct `name { a: t, b: u? }` after its keyword.
pub open spec fn two_property_struct(name: Seq<char>, first: Seq<char>, first_type: Seq<char>, second: Seq<char>, second_type: Seq<char>) -> Seq<SpecToken> {
    seq![
        SpecToken::Keyword(KeywordType::Struct),
        SpecToken::Ident(name),
        SpecToken::Symbol(Symbol::OpenCurly),
        SpecToken::Ident(first),
        SpecToken::Symbol(Symbol::Colon),
        SpecToken::Ident(first_type),
        SpecToken::Symbol(Symbol::Comma),
        SpecToken::Ident(second),
        SpecToken::Symbol(Symbol::Colon),
        SpecToken::Ident(second_type),
        SpecToken::Symbol(Symbol::Question),
        SpecToken::Symbol(Symbol::CloseCurly),
    ]
}

/// A struct of two properties, the second nullable, parses to one struct
/// whose properties keep their order and whose second type is nullable.
pub proof fn lemma_struct_of_two_properties(name: Seq<char>, first: Seq<char>, first_type: Seq<char>, second: Seq<char>, second_type: Seq<char>)
    ensures
        parse_tokens(two_property_struct(name, first, first_type, second, second_type)) == Ok::<Seq<Declaration>, crate::ast_spec::SpecAstError>(seq![
            Declaration::Struct {
                name,
                properties: seq![
                    SpecProperty { name: first, type_of: plain_type(first_type, false) },
                    SpecProperty { name: second, type_of: plain_type(second_type, true) },
                ],
            },
        ]),
{
    let ts = two_property_struct(name, first, first_type, second, second_type);
    let a = SpecProperty { name: first, type_of: plain_type(first_type, false) };
    let b = SpecProperty { name: second, type_of: plain_type(second_type, true) };
    let both = seq![a, b];
    assert(ts.len() == 12);
    assert(ts[11] == SpecToken::Symbol(Symbol::CloseCurly));
    assert(Seq::empty().push(a).push(b) =~= both);
    assert(parse_properties_at(ts, 11, Seq::empty().push(a).push(b)) == Ok::<(Seq<SpecProperty>, int), crate::ast_spec::SpecAstError>((both, 12)));
    assert(parse_properties_at(ts, 7, Seq::empty().push(a)) == parse_properties_at(ts, 11, Seq::empty().push(a).push(b)));
    assert(parse_properties_at(ts, 3, Seq::empty()) == parse_properties_at(ts, 7, Seq::empty().push(a)));
    let d = Declaration::Struct { name, properties: both };
    assert(parse_struct_at(ts, 1) == Ok::<(Declaration, int), crate::ast_spec::SpecAstError>((d, 12)));
    assert(parse_declarations(ts, 12, seq![d]) == Ok::<Seq<Declaration>, crate::ast_spec::SpecAstError>(seq![d]));
    assert(Seq::<Declaration>::empty().push(d) =~= seq![d]);
}

/// Every identifier that lexing yields has a name, so its tokens can be parsed.
pub proof fn lemma_lex_idents_named(s: Seq<char>)
    ensures
        lex(s) matches Ok(ts) ==> idents_named(ts),
    decreases s.len(),
{
    if s.len() == 0 {
    } else if s[0] == '\r' {
        lemma_lex_idents_named(s.drop_first());
    } else {
        lemma_lex_step_bounds(s);
        if let Ok((tok, n)) = lex_step(s) {
            lemma_lex_idents_named(s.skip(n as int));
            if let Ok(ts) = lex(s) {
                if let Some(t) = tok {
                    let rest = lex(s.skip(n as int))->Ok_0;
                    assert(ts == seq![t] + rest);
                    assert(t matches SpecToken::Ident(m) ==> m.len() > 0);
                    assert forall|i: int| 0 <= i < ts.len() implies (#[trigger] ts[i] matches SpecToken::Ident(m) ==> m.len() > 0) by {
                        if i > 0 {
                            assert(ts[i] == rest[i - 1]);
                        }
                    }
                }
            }
        }
    }
}

/// Whether `body` can stand between double quotes as it is: no quote,
/// backslash or carriage return in it.
pub open spec fn is_plain_string_body(body: Seq<char>) -> bool {
    forall|i: int| 0 <= i < body.len() ==> #[trigger] body[i] != '"' && body[i] != '\\' && body[i] != '\r'
}

proof fn lemma_string_body(body: Seq<char>, r: Seq<char>)
    requires
        is_plain_string_body(body),
    ensures
        string_len(body + r, '"', false) == body.len() + string_len(r, '"', false),
        string_text(body + r, '"', false) == body + string_text(r, '"', false),
    decreases body.len(),
{
    if body.len() == 0 {
        assert(body + r =~= r);
    } else {
        let tail = body.drop_first();
        assert forall|i: int| 0 <= i < tail.len() implies #[trigger] tail[i] != '"' && tail[i] != '\\' && tail[i] != '\r' by {
            assert(tail[i] == body[i + 1]);
        }
        lemma_string_body(tail, r);
        assert((body + r).drop_first() =~= tail + r);
        assert((body + r)[0] == body[0]);
        assert(body =~= seq![body[0]] + tail);
    }
}

/// A double-quoted body without quotes, backslashes or carriage returns
/// lexes as exactly one string literal holding the body, quotes stripped.
pub proof fn lemma_quoted_string_lexes_to_literal(body: Seq<char>)
    requires
        is_plain_string_body(body),
    ensures
        lex(seq!['"'] + body + seq!['"']) == Ok::<Seq<SpecToken>, crate::lexer_spec::SpecLexError>(
            seq![SpecToken::Literal(SpecLiteral::String(body))],
        ),
{
    let s = seq!['"'] + body + seq!['"'];
    lemma_string_body(body, seq!['"']);
    assert(s.drop_first() =~= body + seq!['"']);
    assert(s[0] == '"');
    assert(string_text(seq!['"'], '"', false) =~= Seq::<char>::empty());
    assert(body + Seq::<char>::empty() =~= body);
    lemma_lex_step_bounds(s);
    assert(s.skip((1 + body.len() + 1) as int) =~= Seq::<char>::empty());
    assert(lex(Seq::<char>::empty()) == Ok::<Seq<SpecToken>, crate::lexer_spec::SpecLexError>(Seq::empty()));
    assert(seq![SpecToken::Literal(SpecLiteral::String(body))] + Seq::<SpecToken>::empty()
        =~= seq![SpecToken::Literal(SpecLiteral::String(body))]);
}

/// A word followed by a character that cannot continue it: the word's token,
/// then the tokens of the rest.
proof fn lemma_lex_word_then(a: Seq<char>, r: Seq<char>)
    requires
        is_word_shaped(a),
        r.len() == 0 || (r[0] != '\r' && !CharClass::IdentPart.holds(r[0])),
    ensures
        lex(a + r) == prepend(word_token(a), lex(r)),
{
    lemma_lex_step_word(a, r);
    assert((a + r)[0] == a[0]);
    assert((a + r).skip(a.len() as int) =~= r);
}

/// A symbol character: its token, then the tokens of the rest.
proof fn lemma_lex_symbol_then(c: char, r: Seq<char>)
    requires
        symbol_of(c) is Some,
        c != '\r' && c != '/' && c != '"' && c != '\'',
        !char_is_whitespace(c) && !char_is_alphabetic(c) && !char_is_numeric(c),
    ensures
        lex(seq![c] + r) == prepend(SpecToken::Symbol(symbol_of(c)->Some_0), lex(r)),
{
    let s = seq![c] + r;
    assert(s[0] == c);
    assert(s.skip(1) =~= r);
}

/// A space in front changes nothing of what lexes.
proof fn lemma_lex_space_then(r: Seq<char>)
    ensures
        lex(seq![' '] + r) == lex(r),
{
    let s = seq![' '] + r;
    assert(s[0] == ' ');
    assert(s.drop_first() =~= r);
    lemma_run_len_bound(r, CharClass::Whitespace);
    assert(s.skip((1 + run_len(r, CharClass::Whitespace)) as int) =~= r.skip(run_len(r, CharClass::Whitespace) as int));
    lemma_lex_skips_whitespace(r);
}

/// Four tokens in front of the tokens of `r`.
proof fn lemma_prepend_four(a: SpecToken, b: SpecToken, c: SpecToken, d: SpecToken, r: Result<Seq<SpecToken>, SpecLexError>)
    ensures
        prepend(a, prepend(b, prepend(c, prepend(d, r)))) == tokens_then(seq![a, b, c, d], r),
{
    if let Ok(ts) = r {
        assert(seq![a] + (seq![b] + (seq![c] + (seq![d] + ts))) =~= seq![a, b, c, d] + ts);
    }
}

/// A property `n: t` followed by the symbol `sep`: the name, a colon, the
/// type and the symbol, then the tokens of the rest.
proof fn lemma_lex_property(n: Seq<char>, t: Seq<char>, sep: char, rest: Seq<char>)
    requires
        is_word_shaped(n),
        is_word_shaped(t),
        symbol_of(sep) is Some,
        sep != '\r' && sep != '/' && sep != '"' && sep != '\'' && sep != '_',
        !char_is_whitespace(sep) && !char_is_alphabetic(sep) && !char_is_numeric(sep),
    ensures
        lex(n + (seq![':', ' '] + (t + (seq![sep] + rest)))) == tokens_then(
            seq![word_token(n), SpecToken::Symbol(Symbol::Colon), word_token(t), SpecToken::Symbol(symbol_of(sep)->Some_0)],
            lex(rest),
        ),
{
    let r4 = seq![sep] + rest;
    let r3 = t + r4;
    let r2 = seq![':', ' '] + r3;
    assert(lex(r4) == prepend(SpecToken::Symbol(symbol_of(sep)->Some_0), lex(rest))) by {
        lemma_lex_symbol_then(sep, rest);
    }
    assert(lex(r3) == prepend(word_token(t), lex(r4))) by {
        assert(r4[0] == sep);
        lemma_lex_word_then(t, r4);
    }
    assert(lex(r2) == prepend(SpecToken::Symbol(Symbol::Colon), lex(r3))) by {
        assert(r2 =~= seq![':'] + (seq![' '] + r3));
        lemma_lex_symbol_then(':', seq![' '] + r3);
        lemma_lex_space_then(r3);
    }
    assert(lex(n + r2) == prepend(word_token(n), lex(r2))) by {
        assert(r2[0] == ':');
        lemma_lex_word_then(n, r2);
    }
    lemma_prepend_four(word_token(n), SpecToken::Symbol(Symbol::Colon), word_token(t), SpecToken::Symbol(symbol_of(sep)->Some_0), lex(rest));
}

/// The header `struct name {` and a space: the keyword, the name and the
/// brace, then the tokens of the rest.
proof fn lemma_lex_struct_header(name: Seq<char>, rest: Seq<char>)
    requires
        is_word_shaped(name),
    ensures
        lex(seq!['s', 't', 'r', 'u', 'c', 't'] + (seq![' '] + (name + (seq![' ', '{', ' '] + rest)))) == tokens_then(
            seq![SpecToken::Keyword(KeywordType::Struct), word_token(name), SpecToken::Symbol(Symbol::OpenCurly)],
            lex(rest),
        ),
{
    let keyword = seq!['s', 't', 'r', 'u', 'c', 't'];
    assert(word_token(keyword) == SpecToken::Keyword(KeywordType::Struct)) by {
        reveal_strlit("const");
        reveal_strlit("fun");
        reveal_strlit("let");
        reveal_strlit("impl");
        reveal_strlit("struct");
        assert(keyword =~= "struct"@);
    }
    let r4 = seq![' ', '{', ' '] + rest;
    let r3 = name + r4;
    let r2 = seq![' '] + r3;
    assert(lex(r4) == prepend(SpecToken::Symbol(Symbol::OpenCurly), lex(rest))) by {
        assert(r4 =~= seq![' '] + (seq!['{'] + (seq![' '] + rest)));
        lemma_lex_space_then(seq!['{'] + (seq![' '] + rest));
        lemma_lex_symbol_then('{', seq![' '] + rest);
        lemma_lex_space_then(rest);
    }
    assert(lex(r2) == prepend(word_token(name), lex(r4))) by {
        assert(r4[0] == ' ');
        lemma_lex_word_then(name, r4);
        lemma_lex_space_then(r3);
    }
    assert(lex(keyword + r2) == prepend(SpecToken::Keyword(KeywordType::Struct), lex(r2))) by {
        assert(r2[0] == ' ');
        assert(is_word_shaped(keyword));
        lemma_lex_word_then(keyword, r2);
    }
    let r = lex(rest);
    if let Ok(ts) = r {
        assert(seq![SpecToken::Keyword(KeywordType::Struct)] + (seq![word_token(name)] + (seq![SpecToken::Symbol(Symbol::OpenCurly)] + ts))
            =~= seq![SpecToken::Keyword(KeywordType::Struct), word_token(name), SpecToken::Symbol(Symbol::OpenCurly)] + ts);
    }
}

/// The source `struct name { first: first_type, second: second_type? }`.
pub open spec fn two_property_struct_source(
    name: Seq<char>,
    first: Seq<char>,
    first_type: Seq<char>,
    second: Seq<char>,
    second_type: Seq<char>,
) -> Seq<char> {
    let second_property = second + (seq![':', ' '] + (second_type + (seq!['?'] + seq![' ', '}'])));
    let first_property = first + (seq![':', ' '] + (first_type + (seq![','] + (seq![' '] + second_property))));
    seq!['s', 't', 'r', 'u', 'c', 't'] + (seq![' '] + (name + (seq![' ', '{', ' '] + first_property)))
}

/// Whether `s` is a name that lexes as an identifier.
pub open spec fn is_plain_name(s: Seq<char>) -> bool {
    is_word_shaped(s) && word_token(s) == SpecToken::Ident(s)
}

/// For all names that lex as identifiers, the source of a struct of two
/// properties, the second nullable, lexes to the struct keyword, the names
/// and the symbols in order, and parses to one struct whose properties keep
/// their order and whose second type, alone, is nullable.
pub proof fn lemma_two_property_struct_source(
    name: Seq<char>,
    first: Seq<char>,
    first_type: Seq<char>,
    second: Seq<char>,
    second_type: Seq<char>,
)
    requires
        is_plain_name(name),
        is_plain_name(first),
        is_plain_name(first_type),
        is_plain_name(second),
        is_plain_name(second_type),
    ensures
        lex(two_property_struct_source(name, first, first_type, second, second_type))
            == Ok::<Seq<SpecToken>, SpecLexError>(two_property_struct(name, first, first_type, second, second_type)),
        parse_tokens(two_property_struct(name, first, first_type, second, second_type)) == Ok::<Seq<Declaration>, crate::ast_spec::SpecAstError>(seq![
            Declaration::Struct {
                name,
                properties: seq![
                    SpecProperty { name: first, type_of: plain_type(first_type, false) },
                    SpecProperty { name: second, type_of: plain_type(second_type, true) },
                ],
            },
        ]),
{
    lemma_struct_of_two_properties(name, first, first_type, second, second_type);
    let close = seq![' ', '}'];
    let second_property = second + (seq![':', ' '] + (second_type + (seq!['?'] + close)));
    let first_property = first + (seq![':', ' '] + (first_type + (seq![','] + (seq![' '] + second_property))));
    let last = seq![SpecToken::Symbol(Symbol::CloseCurly)];
    assert(lex(close) == Ok::<Seq<SpecToken>, SpecLexError>(last)) by {
        assert(close =~= seq![' '] + (seq!['}'] + Seq::<char>::empty()));
        lemma_lex_space_then(seq!['}'] + Seq::<char>::empty());
        lemma_lex_symbol_then('}', Seq::<char>::empty());
        assert(last + Seq::<SpecToken>::empty() =~= last);
    }
    let second_tokens = seq![SpecToken::Ident(second), SpecToken::Symbol(Symbol::Colon), SpecToken::Ident(second_type), SpecToken::Symbol(Symbol::Question)];
    assert(lex(second_property) == Ok::<Seq<SpecToken>, SpecLexError>(second_tokens + last)) by {
        lemma_lex_property(second, second_type, '?', close);
    }
    let first_tokens = seq![SpecToken::Ident(first), SpecToken::Symbol(Symbol::Colon), SpecToken::Ident(first_type), SpecToken::Symbol(Symbol::Comma)];
    assert(lex(first_property) == Ok::<Seq<SpecToken>, SpecLexError>(first_tokens + (second_tokens + last))) by {
        lemma_lex_property(first, first_type, ',', seq![' '] + second_property);
        lemma_lex_space_then(second_property);
    }
    let head = seq![SpecToken::Keyword(KeywordType::Struct), SpecToken::Ident(name), SpecToken::Symbol(Symbol::OpenCurly)];
    assert(lex(two_property_struct_source(name, first, first_type, second, second_type))
        == Ok::<Seq<SpecToken>, SpecLexError>(head + (first_tokens + (second_tokens + last)))) by {
        lemma_lex_struct_header(name, first_property);
    }
    assert(head + (first_tokens + (second_tokens + last)) =~= two_property_struct(name, first, first_type, second, second_type));
}

/// Whether every character of `w` is ASCII whitespace (carriage returns included).
pub open spec fn is_ascii_space(w: Seq<char>) -> bool {
    forall|i: int| 0 <= i < w.len() ==> is_ascii_char(#[trigger] w[i]) && char_is_whitespace(w[i])
}

/// ASCII whitespace in front changes nothing of what lexes.
proof fn lemma_lex_space_prefix(w: Seq<char>, b: Seq<char>)
    requires
        is_ascii_space(w),
    ensures
        lex(w + b) == lex(b),
    decreases w.len(),
{
    if w.len() == 0 {
        assert(w + b =~= b);
    } else {
        let y = w.drop_first();
        assert forall|i: int| 0 <= i < y.len() implies is_ascii_char(#[trigger] y[i]) && char_is_whitespace(y[i]) by {
            assert(y[i] == w[i + 1]);
        }
        assert((w + b).drop_first() =~= y + b);
        assert((w + b)[0] == w[0]);
        if w[0] == '\r' {
            lemma_lex_space_prefix(y, b);
        } else {
            assert forall|i: int| 0 <= i < y.len() implies #[trigger] y[i] == '\r' || CharClass::Whitespace.holds(y[i]) by {
                assert(y[i] == w[i + 1]);
            }
            lemma_run_prefix(y, b, CharClass::Whitespace);
            lemma_run_len_bound(b, CharClass::Whitespace);
            assert((w + b).skip((1 + run_len(y + b, CharClass::Whitespace)) as int)
                =~= b.skip(run_len(b, CharClass::Whitespace) as int));
            lemma_lex_skips_whitespace(b);
        }
    }
}

/// Whitespace between a symbol and what follows yields no token and changes
/// neither side: the symbol's token, then the tokens of the rest.
pub proof fn lemma_whitespace_after_symbol(c: char, w: Seq<char>, b: Seq<char>)
    requires
        symbol_of(c) is Some,
        c != '/',
        is_ascii_space(w),
    ensures
        lex(seq![c]) == Ok::<Seq<SpecToken>, SpecLexError>(seq![SpecToken::Symbol(symbol_of(c)->Some_0)]),
        lex(seq![c] + w + b) == tokens_then(seq![SpecToken::Symbol(symbol_of(c)->Some_0)], lex(b)),
{
    let t = SpecToken::Symbol(symbol_of(c)->Some_0);
    lemma_lex_symbol_then(c, w + b);
    lemma_lex_space_prefix(w, b);
    assert(seq![c] + w + b =~= seq![c] + (w + b));
    lemma_lex_symbol_then(c, Seq::empty());
    assert(seq![c] + Seq::<char>::empty() =~= seq![c]);
    assert(seq![t] + Seq::<SpecToken>::empty() =~= seq![t]);
}

/// Whitespace between a double-quoted string and what follows yields no
/// token and changes neither side: the literal, then the tokens of the rest.
pub proof fn lemma_whitespace_after_string(body: Seq<char>, w: Seq<char>, b: Seq<char>)
    requires
        is_plain_string_body(body),
        is_ascii_space(w),
    ensures
        lex(seq!['"'] + body + seq!['"'] + w + b) == tokens_then(seq![SpecToken::Literal(SpecLiteral::String(body))], lex(b)),
{
    lemma_quoted_string_lexes_to_literal(body);
    let r = seq!['"'] + (w + b);
    let s = seq!['"'] + (body + r);
    lemma_string_body(body, r);
    assert(s =~= seq!['"'] + body + seq!['"'] + w + b);
    assert(s.drop_first() =~= body + r);
    assert(s[0] == '"');
    assert(string_text(r, '"', false) =~= Seq::<char>::empty());
    assert(body + Seq::<char>::empty() =~= body);
    lemma_lex_step_bounds(s);
    assert(s.skip((1 + body.len() + 1) as int) =~= w + b);
    lemma_lex_space_prefix(w, b);
}

} // verus!
