//! Front end of the Spew language: a lexer that turns source text into
//! tokens, and a recursive-descent parser that turns tokens into
//! declarations (structs, function stubs) with a nominal type model.
use vstd::prelude::*;

pub mod ast;
pub mod ast_spec;
pub mod chars;
pub mod laws;
pub mod lexer;
pub mod lexer_spec;
pub mod token;
pub mod types;

pub use ast::{
    ASTError, ASTSource, ASTState, FunctionArgument, FunctionStub, Operation, Operator, SpewFunction, SpewImpl,
    SpewStruct, StructProperty, TokenSet, AST,
};
pub use lexer::{Parser, ParserError};
pub use token::{KeywordType, Literal, Modifier, Symbol, Token};
pub use types::DataType;

verus! {

} // verus!
