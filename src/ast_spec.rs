//! What the parser computes, stated over the views of tokens.
//!
//! Each function reads the tokens from position `p` and gives what it parsed
//! and the position after it, or the error that stops the whole parse.
use vstd::prelude::*;

use crate::token::{KeywordType, Modifier, SpecToken, Symbol};
use crate::types::SpecDataType;

verus! {

/// The view of a struct property.
pub ghost struct SpecProperty {
    pub name: Seq<char>,
    pub type_of: SpecDataType,
}

/// The view of a function argument.
pub ghost struct SpecArgument {
    pub name: Seq<char>,
    pub data_type: SpecDataType,
}

/// The view of a function signature.
pub ghost struct SpecFunctionStub {
    pub name: Seq<char>,
    pub modifiers: Seq<Modifier>,
    pub arguments: Seq<SpecArgument>,
    pub return_type: Option<SpecDataType>,
}

/// A top-level declaration, as the parser produces it.
pub ghost enum Declaration {
    Struct { name: Seq<char>, properties: Seq<SpecProperty> },
    FunctionStub(SpecFunctionStub),
}

/// The view of a parse error: the offending token, none if the input ended
/// first, or an input that ended while a token was still required.
pub ghost enum SpecAstError {
    UnexpectedToken(Option<SpecToken>),
    Incomplete,
}

/// Whether every identifier among `ts` has a nonempty name.
pub open spec fn idents_named(ts: Seq<SpecToken>) -> bool {
    forall|i: int| 0 <= i < ts.len() ==> (#[trigger] ts[i] matches SpecToken::Ident(n) ==> n.len() > 0)
}

/// A type with no supertypes.
pub open spec fn plain_type(name: Seq<char>, nullable: bool) -> SpecDataType {
    SpecDataType { name, nullable, inherits: Set::empty() }
}

pub open spec fn is_symbol_at(ts: Seq<SpecToken>, p: int, sym: Symbol) -> bool {
    0 <= p < ts.len() && ts[p] == SpecToken::Symbol(sym)
}

/// An identifier is required at `p`.
pub open spec fn expect_ident_at(ts: Seq<SpecToken>, p: int) -> Result<(Seq<char>, int), SpecAstError> {
    if p >= ts.len() {
        Err(SpecAstError::Incomplete)
    } else {
        match ts[p] {
            SpecToken::Ident(n) => Ok((n, p + 1)),
            t => Err(SpecAstError::UnexpectedToken(Some(t))),
        }
    }
}

/// The symbol `sym` is required at `p`.
pub open spec fn expect_symbol_at(ts: Seq<SpecToken>, p: int, sym: Symbol) -> Result<int, SpecAstError> {
    if p >= ts.len() {
        Err(SpecAstError::Incomplete)
    } else if ts[p] == SpecToken::Symbol(sym) {
        Ok(p + 1)
    } else {
        Err(SpecAstError::UnexpectedToken(Some(ts[p])))
    }
}

/// A type: a name, then `?` if it admits null.
pub open spec fn parse_datatype_at(ts: Seq<SpecToken>, p: int) -> Result<(SpecDataType, int), SpecAstError> {
    match expect_ident_at(ts, p) {
        Err(e) => Err(e),
        Ok((n, q)) => if is_symbol_at(ts, q, Symbol::Question) {
            Ok((plain_type(n, true), q + 1))
        } else {
            Ok((plain_type(n, false), q))
        },
    }
}

/// The properties of a struct body, after `acc`, up to and including `}`.
/// Each is `name : type`, optionally followed by a comma.
pub open spec fn parse_properties_at(ts: Seq<SpecToken>, p: int, acc: Seq<SpecProperty>) -> Result<(Seq<SpecProperty>, int), SpecAstError>
    decreases ts.len() - p,
{
    if p >= ts.len() {
        Err(SpecAstError::UnexpectedToken(None))
    } else {
        match ts[p] {
            SpecToken::Ident(name) => match expect_symbol_at(ts, p + 1, Symbol::Colon) {
                Err(e) => Err(e),
                Ok(q) => match parse_datatype_at(ts, q) {
                    Err(e) => Err(e),
                    Ok((type_of, r)) => {
                        let next = if is_symbol_at(ts, r, Symbol::Comma) { r + 1 } else { r };
                        parse_properties_at(ts, next, acc.push(SpecProperty { name, type_of }))
                    },
                },
            },
            SpecToken::Symbol(Symbol::CloseCurly) => Ok((acc, p + 1)),
            t => Err(SpecAstError::UnexpectedToken(Some(t))),
        }
    }
}

/// A struct after its keyword: `name { properties }`.
pub open spec fn parse_struct_at(ts: Seq<SpecToken>, p: int) -> Result<(Declaration, int), SpecAstError> {
    match expect_ident_at(ts, p) {
        Err(e) => Err(e),
        Ok((name, q)) => match expect_symbol_at(ts, q, Symbol::OpenCurly) {
            Err(e) => Err(e),
            Ok(r) => match parse_properties_at(ts, r, Seq::empty()) {
                Err(e) => Err(e),
                Ok((properties, end)) => Ok((Declaration::Struct { name, properties }, end)),
            },
        },
    }
}

/// A parameter list after its `(`: at most one argument `name : type`, then `)`.
pub open spec fn parse_parameters_at(ts: Seq<SpecToken>, p: int) -> Result<(Seq<SpecArgument>, int), SpecAstError> {
    if p >= ts.len() {
        Err(SpecAstError::Incomplete)
    } else {
        match ts[p] {
            SpecToken::Ident(name) => match expect_symbol_at(ts, p + 1, Symbol::Colon) {
                Err(e) => Err(e),
                Ok(q) => match parse_datatype_at(ts, q) {
                    Err(e) => Err(e),
                    Ok((data_type, r)) => match expect_symbol_at(ts, r, Symbol::CloseParen) {
                        Err(e) => Err(e),
                        Ok(end) => Ok((seq![SpecArgument { name, data_type }], end)),
                    },
                },
            },
            SpecToken::Symbol(Symbol::CloseParen) => Ok((Seq::empty(), p + 1)),
            t => Err(SpecAstError::UnexpectedToken(Some(t))),
        }
    }
}

/// An optional return type: `-` `>` and a type, or nothing.
pub open spec fn parse_return_type_at(ts: Seq<SpecToken>, p: int) -> Result<(Option<SpecDataType>, int), SpecAstError> {
    if is_symbol_at(ts, p, Symbol::Minus) {
        match expect_symbol_at(ts, p + 1, Symbol::Right) {
            Err(e) => Err(e),
            Ok(q) => match parse_datatype_at(ts, q) {
                Err(e) => Err(e),
                Ok((d, r)) => Ok((Some(d), r)),
            },
        }
    } else {
        Ok((None, p))
    }
}

/// A function signature after its keyword: `name ( parameters ) [-> type]`.
pub open spec fn parse_function_stub_at(ts: Seq<SpecToken>, p: int, modifiers: Seq<Modifier>) -> Result<(SpecFunctionStub, int), SpecAstError> {
    match expect_ident_at(ts, p) {
        Err(e) => Err(e),
        Ok((name, q)) => match expect_symbol_at(ts, q, Symbol::OpenParen) {
            Err(e) => Err(e),
            Ok(r) => match parse_parameters_at(ts, r) {
                Err(e) => Err(e),
                Ok((arguments, s)) => match parse_return_type_at(ts, s) {
                    Err(e) => Err(e),
                    Ok((return_type, end)) => Ok((SpecFunctionStub { name, modifiers, arguments, return_type }, end)),
                },
            },
        },
    }
}

/// A trait after its keyword: `name {`; its body is not read.
pub open spec fn parse_trait_at(ts: Seq<SpecToken>, p: int) -> Result<int, SpecAstError> {
    match expect_ident_at(ts, p) {
        Err(e) => Err(e),
        Ok((_, q)) => expect_symbol_at(ts, q, Symbol::OpenCurly),
    }
}

/// The declarations of the tokens from `p` on, after `acc`. A keyword that
/// starts no declaration this parser reads (`impl`, `let`, `const`, ...) is
/// not supported and stops the parse; modifiers, comments and other tokens at
/// the top level are passed over. The first error stops all.
pub open spec fn parse_declarations(ts: Seq<SpecToken>, p: int, acc: Seq<Declaration>) -> Result<Seq<Declaration>, SpecAstError>
    decreases ts.len() - p,
{
    if p >= ts.len() {
        Ok(acc)
    } else {
        match ts[p] {
            SpecToken::Keyword(KeywordType::Struct) => match parse_struct_at(ts, p + 1) {
                Err(e) => Err(e),
                Ok((d, q)) => {
                    proof {
                        lemma_properties_advance(ts, p + 1, Seq::empty());
                    }
                    parse_declarations(ts, q, acc.push(d))
                },
            },
            SpecToken::Keyword(KeywordType::Function) => match parse_function_stub_at(ts, p + 1, Seq::empty()) {
                Err(e) => Err(e),
                Ok((f, q)) => parse_declarations(ts, q, acc.push(Declaration::FunctionStub(f))),
            },
            SpecToken::Keyword(KeywordType::Trait) => match parse_trait_at(ts, p + 1) {
                Err(e) => Err(e),
                Ok(q) => parse_declarations(ts, q, acc),
            },
            SpecToken::Keyword(KeywordType::Modifier(_)) => parse_declarations(ts, p + 1, acc),
            SpecToken::Keyword(_) => Err(SpecAstError::UnexpectedToken(Some(ts[p]))),
            _ => parse_declarations(ts, p + 1, acc),
        }
    }
}

/// The declarations of a whole token sequence.
pub open spec fn parse_tokens(ts: Seq<SpecToken>) -> Result<Seq<Declaration>, SpecAstError> {
    parse_declarations(ts, 0, Seq::empty())
}

/// A struct body, when it parses, ends after where it starts and no further
/// than the tokens go; so does a struct that starts at `p - 1` with its name.
pub proof fn lemma_properties_advance(ts: Seq<SpecToken>, p: int, acc: Seq<SpecProperty>)
    ensures
        parse_properties_at(ts, p, acc) matches Ok((_, q)) ==> p < q <= ts.len(),
        parse_struct_at(ts, p) matches Ok((_, q)) ==> p < q <= ts.len(),
    decreases ts.len() - p,
{
    if p < ts.len() {
        if let SpecToken::Ident(name) = ts[p] {
            if let Ok(q) = expect_symbol_at(ts, p + 1, Symbol::Colon) {
                if let Ok((type_of, r)) = parse_datatype_at(ts, q) {
                    let next = if is_symbol_at(ts, r, Symbol::Comma) { r + 1 } else { r };
                    lemma_properties_advance(ts, next, acc.push(SpecProperty { name, type_of }));
                }
            }
        }
    }
    if let Ok((_, q)) = expect_ident_at(ts, p) {
        if let Ok(r) = expect_symbol_at(ts, q, Symbol::OpenCurly) {
            lemma_properties_advance(ts, r, Seq::empty());
        }
    }
}

} // verus!
