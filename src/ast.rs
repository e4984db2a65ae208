//! The syntax tree, the token cursor, and the recursive-descent parser.
use vstd::prelude::*;

use crate::ast_spec::{
    idents_named, is_symbol_at, expect_ident_at, expect_symbol_at, parse_datatype_at, parse_declarations,
    parse_function_stub_at, parse_parameters_at, parse_properties_at, parse_struct_at,
    parse_trait_at, lemma_properties_advance, Declaration, SpecArgument, SpecAstError, SpecFunctionStub,
    SpecProperty,
};
use crate::lexer::tokens_view;
use crate::token::{KeywordType, Literal, Modifier, SpecToken, Symbol, Token};
use crate::types::{names_of, DataType};

verus! {

/// A binary or unary operator.
#[derive(Debug, Clone)]
pub enum Operator {
    Equals,
    Plus,
    Minus,
    Multiply,
    Divide,
    Or,
    Xor,
    And,
    AndAnd,
    OrOr,
}

/// An operation: `left operator right`, or unary when `right` is absent.
#[derive(Debug)]
pub struct Operation {
    pub left: AST,
    pub operator: Operator,
    pub right: Option<AST>,
}

/// A property of a struct.
#[derive(Debug, Clone)]
pub struct StructProperty {
    pub name: String,
    pub type_of: DataType,
}

/// A struct declaration.
#[derive(Debug, Clone)]
pub struct SpewStruct {
    pub name: String,
    pub properties: Vec<StructProperty>,
}

/// An argument of a function.
#[derive(Debug, Clone)]
pub struct FunctionArgument {
    pub name: String,
    pub data_type: DataType,
}

/// A function signature.
#[derive(Debug, Clone)]
pub struct FunctionStub {
    pub name: String,
    pub modifiers: Vec<Modifier>,
    pub arguments: Vec<FunctionArgument>,
    pub return_type: Option<DataType>,
}

/// A function: its signature and body.
#[derive(Debug)]
pub struct SpewFunction {
    pub stub: FunctionStub,
    pub body: Vec<AST>,
}

/// An implementation block.
#[derive(Debug)]
pub struct SpewImpl {
    pub functions: Vec<SpewFunction>,
}

/// A node of the syntax tree.
#[derive(Debug)]
pub enum AST {
    Variable { name: String, modifiers: Vec<Modifier>, value: Option<Box<AST>> },
    Literal(Literal),
    Operation(Box<Operation>),
    ConditionBlock { condition: Box<Vec<Operation>>, contents: Box<Vec<AST>> },
    Block(Box<Vec<AST>>),
    Struct(SpewStruct),
    Impl(SpewImpl),
    Function(SpewFunction),
    FunctionStub(FunctionStub),
}

/// A copy of `node`, built field by field.
fn clone_ast(node: &AST) -> (r: AST)
    decreases node,
{
    match node {
        AST::Variable { name, modifiers, value } => {
            let value = match value {
                Some(v) => Some(Box::new(clone_ast(v))),
                None => None,
            };
            AST::Variable { name: name.clone(), modifiers: clone_modifiers(modifiers), value }
        },
        AST::Literal(l) => AST::Literal(l.clone()),
        AST::Operation(op) => AST::Operation(Box::new(clone_operation(op))),
        AST::ConditionBlock { condition, contents } => AST::ConditionBlock {
            condition: Box::new(clone_operations(condition)),
            contents: Box::new(clone_asts(contents)),
        },
        AST::Block(nodes) => AST::Block(Box::new(clone_asts(nodes))),
        AST::Struct(s) => AST::Struct(s.clone()),
        AST::Impl(i) => AST::Impl(SpewImpl { functions: clone_functions(&i.functions) }),
        AST::Function(f) => AST::Function(clone_function(f)),
        AST::FunctionStub(f) => AST::FunctionStub(f.clone()),
    }
}

fn clone_operation(op: &Operation) -> (r: Operation)
    decreases op,
{
    let right = match &op.right {
        Some(r) => Some(clone_ast(r)),
        None => None,
    };
    Operation { left: clone_ast(&op.left), operator: op.operator.clone(), right }
}

fn clone_function(f: &SpewFunction) -> (r: SpewFunction)
    decreases f,
{
    SpewFunction { stub: f.stub.clone(), body: clone_asts(&f.body) }
}

fn clone_asts(nodes: &Vec<AST>) -> (r: Vec<AST>)
    decreases nodes,
{
    broadcast use vstd::std_specs::vec::axiom_vec_index_decreases;
    let mut out: Vec<AST> = Vec::new();
    let mut i: usize = 0;
    while i < nodes.len()
        invariant
            i <= nodes.len(),
        decreases nodes.len() - i,
    {
        out.push(clone_ast(&nodes[i]));
        i = i + 1;
    }
    out
}

fn clone_operations(ops: &Vec<Operation>) -> (r: Vec<Operation>)
    decreases ops,
{
    broadcast use vstd::std_specs::vec::axiom_vec_index_decreases;
    let mut out: Vec<Operation> = Vec::new();
    let mut i: usize = 0;
    while i < ops.len()
        invariant
            i <= ops.len(),
        decreases ops.len() - i,
    {
        out.push(clone_operation(&ops[i]));
        i = i + 1;
    }
    out
}

fn clone_functions(fs: &Vec<SpewFunction>) -> (r: Vec<SpewFunction>)
    decreases fs,
{
    broadcast use vstd::std_specs::vec::axiom_vec_index_decreases;
    let mut out: Vec<SpewFunction> = Vec::new();
    let mut i: usize = 0;
    while i < fs.len()
        invariant
            i <= fs.len(),
        decreases fs.len() - i,
    {
        out.push(clone_function(&fs[i]));
        i = i + 1;
    }
    out
}

fn clone_modifiers(ms: &Vec<Modifier>) -> (r: Vec<Modifier>)
    ensures
        r@ == ms@,
{
    let mut out: Vec<Modifier> = Vec::new();
    let mut i: usize = 0;
    while i < ms.len()
        invariant
            i <= ms.len(),
            out@ == ms@.take(i as int),
        decreases ms.len() - i,
    {
        out.push(ms[i]);
        assert(ms@.take(i + 1) =~= ms@.take(i as int).push(ms@[i as int]));
        i = i + 1;
    }
    assert(ms@.take(ms.len() as int) =~= ms@);
    out
}

impl Clone for AST {
    fn clone(&self) -> (r: AST) {
        clone_ast(self)
    }
}

impl Clone for Operation {
    fn clone(&self) -> (r: Operation) {
        clone_operation(self)
    }
}

impl Clone for SpewFunction {
    fn clone(&self) -> (r: SpewFunction) {
        clone_function(self)
    }
}

impl Clone for SpewImpl {
    fn clone(&self) -> (r: SpewImpl) {
        SpewImpl { functions: clone_functions(&self.functions) }
    }
}

impl View for StructProperty {
    type V = SpecProperty;

    open spec fn view(&self) -> SpecProperty {
        SpecProperty { name: self.name@, type_of: self.type_of@ }
    }
}

impl View for FunctionArgument {
    type V = SpecArgument;

    open spec fn view(&self) -> SpecArgument {
        SpecArgument { name: self.name@, data_type: self.data_type@ }
    }
}

impl View for FunctionStub {
    type V = SpecFunctionStub;

    open spec fn view(&self) -> SpecFunctionStub {
        SpecFunctionStub {
            name: self.name@,
            modifiers: self.modifiers@,
            arguments: self.arguments@.map_values(|a: FunctionArgument| a@),
            return_type: match self.return_type {
                Some(d) => Some(d@),
                None => None,
            },
        }
    }
}

impl AST {
    /// The declaration that this node is, if it is one.
    pub open spec fn declaration(&self) -> Option<Declaration> {
        match self {
            AST::Struct(s) => Some(Declaration::Struct { name: s.name@, properties: s.properties@.map_values(|p: StructProperty| p@) }),
            AST::FunctionStub(f) => Some(Declaration::FunctionStub(f@)),
            _ => None,
        }
    }
}

/// Whether the nodes `v` are the declarations `ds`, one for one.
pub open spec fn declares(v: Seq<AST>, ds: Seq<Declaration>) -> bool {
    v.len() == ds.len() && forall|i: int| 0 <= i < v.len() ==> #[trigger] v[i].declaration() == Some(ds[i])
}

/// An error that stops the parse.
#[derive(Debug, Clone)]
pub enum ASTError {
    /// A token that cannot stand where it was found; none if the input ended first.
    UnexpectedToken(Option<Token>),
    /// The input ended while a token was still required.
    Incomplete,
}

impl View for ASTError {
    type V = SpecAstError;

    open spec fn view(&self) -> SpecAstError {
        match self {
            ASTError::UnexpectedToken(Some(t)) => SpecAstError::UnexpectedToken(Some(t@)),
            ASTError::UnexpectedToken(None) => SpecAstError::UnexpectedToken(None),
            ASTError::Incomplete => SpecAstError::Incomplete,
        }
    }
}

/// Tokens with a read position that can step back over what it has read.
#[derive(Debug, Clone)]
pub struct TokenSet {
    tokens: Vec<Token>,
    cursor: usize,
}

impl View for TokenSet {
    type V = (Seq<SpecToken>, int);

    closed spec fn view(&self) -> (Seq<SpecToken>, int) {
        (tokens_view(self.tokens@), self.cursor as int)
    }
}

impl TokenSet {
    /// The position stays within the tokens, and every identifier has a name.
    pub closed spec fn wf(&self) -> bool {
        self.cursor <= self.tokens.len() && idents_named(tokens_view(self.tokens@))
    }

    /// The tokens `tokens`, read from the first.
    pub fn new(tokens: Vec<Token>) -> (r: TokenSet)
        requires
            idents_named(tokens_view(tokens@)),
        ensures
            r.wf(),
            r@ == (tokens_view(tokens@), 0int),
    {
        TokenSet { tokens, cursor: 0 }
    }

    /// Reads the token at the position, if there is one.
    pub fn next_token(&mut self) -> (r: Option<Token>)
        requires
            old(self).wf(),
        ensures
            final(self).wf(),
            final(self)@.0 == old(self)@.0,
            if old(self)@.1 < old(self)@.0.len() {
                r matches Some(t) && t@ == old(self)@.0[old(self)@.1] && final(self)@.1 == old(self)@.1 + 1
            } else {
                r is None && final(self)@.1 == old(self)@.1
            },
    {
        if self.cursor < self.tokens.len() {
            let t = self.tokens[self.cursor].clone();
            self.cursor = self.cursor + 1;
            Some(t)
        } else {
            None
        }
    }

    /// Steps back over the last `n` tokens read.
    pub fn back(&mut self, n: usize)
        requires
            old(self).wf(),
            n <= old(self)@.1,
        ensures
            final(self).wf(),
            final(self)@ == (old(self)@.0, old(self)@.1 - n),
    {
        self.cursor = self.cursor - n;
    }
}

/// The state of a parse: the declarations so far and the token cursor.
#[derive(Debug, Clone)]
pub struct ASTState {
    result: Vec<AST>,
    token_set: TokenSet,
}

impl ASTState {
    spec fn wf(&self) -> bool {
        self.token_set.wf()
    }

    spec fn tokens(&self) -> Seq<SpecToken> {
        self.token_set@.0
    }

    spec fn pos(&self) -> int {
        self.token_set@.1
    }

    fn next_token(&mut self) -> (r: Option<Token>)
        requires
            old(self).wf(),
        ensures
            final(self).wf(),
            final(self).tokens() == old(self).tokens(),
            final(self).result == old(self).result,
            if old(self).pos() < old(self).tokens().len() {
                r matches Some(t) && t@ == old(self).tokens()[old(self).pos()] && final(self).pos() == old(self).pos() + 1
            } else {
                r is None && final(self).pos() == old(self).pos()
            },
    {
        self.token_set.next_token()
    }

    fn back_token(&mut self)
        requires
            old(self).wf(),
            old(self).pos() >= 1,
        ensures
            final(self).wf(),
            final(self).tokens() == old(self).tokens(),
            final(self).result == old(self).result,
            final(self).pos() == old(self).pos() - 1,
    {
        self.token_set.back(1)
    }

    fn push_ast(&mut self, value: AST)
        ensures
            final(self).result@ == old(self).result@.push(value),
            final(self).token_set == old(self).token_set,
    {
        self.result.push(value);
    }

    /// Requires an identifier and returns its name.
    fn expect_ident(&mut self) -> (r: Result<String, ASTError>)
        requires
            old(self).wf(),
        ensures
            final(self).wf(),
            final(self).tokens() == old(self).tokens(),
            final(self).result == old(self).result,
            match expect_ident_at(old(self).tokens(), old(self).pos()) {
                Ok((n, q)) => r matches Ok(s) && s@ == n && s@.len() > 0 && final(self).pos() == q,
                Err(e) => r matches Err(x) && x@ == e,
            },
    {
        match self.next_token() {
            Some(Token::Ident(ident)) => {
                assert(idents_named(self.tokens()));
                assert(self.tokens()[old(self).pos()] matches SpecToken::Ident(n) ==> n.len() > 0);
                Ok(ident)
            },
            Some(token) => Err(ASTError::UnexpectedToken(Some(token))),
            None => Err(ASTError::Incomplete),
        }
    }

    /// Requires the symbol `sym`.
    fn expect_symbol(&mut self, sym: Symbol) -> (r: Result<(), ASTError>)
        requires
            old(self).wf(),
        ensures
            final(self).wf(),
            final(self).tokens() == old(self).tokens(),
            final(self).result == old(self).result,
            match expect_symbol_at(old(self).tokens(), old(self).pos(), sym) {
                Ok(q) => r is Ok && final(self).pos() == q,
                Err(e) => r matches Err(x) && x@ == e,
            },
    {
        match self.next_token() {
            Some(token) => {
                if let Token::Symbol(s) = token {
                    if s == sym {
                        return Ok(());
                    }
                }
                Err(ASTError::UnexpectedToken(Some(token)))
            },
            None => Err(ASTError::Incomplete),
        }
    }

    /// Reads the symbol `sym` if it comes next, and says whether it did.
    fn is_symbol_next(&mut self, sym: Symbol) -> (r: bool)
        requires
            old(self).wf(),
        ensures
            final(self).wf(),
            final(self).tokens() == old(self).tokens(),
            final(self).result == old(self).result,
            r == is_symbol_at(old(self).tokens(), old(self).pos(), sym),
            final(self).pos() == if r { old(self).pos() + 1 } else { old(self).pos() },
    {
        match self.next_token() {
            Some(token) => {
                if let Token::Symbol(s) = token {
                    if s == sym {
                        return true;
                    }
                }
                self.back_token();
                false
            },
            None => false,
        }
    }
}

/// The views of a sequence of struct properties.
pub open spec fn properties_view(v: Seq<StructProperty>) -> Seq<SpecProperty> {
    v.map_values(|p: StructProperty| p@)
}

/// The parser: from tokens to declarations.
#[derive(Debug, Clone)]
pub struct ASTSource {
    values: Vec<AST>,
}

impl ASTSource {
    /// Parses a type: a name, then `?` if it admits null.
    fn parse_datatype(state: &mut ASTState) -> (r: Result<DataType, ASTError>)
        requires
            old(state).wf(),
        ensures
            final(state).wf(),
            final(state).tokens() == old(state).tokens(),
            final(state).result == old(state).result,
            match parse_datatype_at(old(state).tokens(), old(state).pos()) {
                Ok((d, q)) => r matches Ok(x) && x@ == d && final(state).pos() == q,
                Err(e) => r matches Err(x) && x@ == e,
            },
    {
        let base_name = match state.expect_ident() {
            Ok(n) => n,
            Err(e) => return Err(e),
        };
        let nullable = state.is_symbol_next(Symbol::Question);
        assert(names_of(Seq::<String>::empty()) =~= Set::<Seq<char>>::empty());
        Ok(DataType::new(base_name, nullable, Vec::new()))
    }

    /// Parses a struct after its keyword and adds it to the declarations.
    fn parse_struct(state: &mut ASTState) -> (r: Result<(), ASTError>)
        requires
            old(state).wf(),
        ensures
            final(state).wf(),
            final(state).tokens() == old(state).tokens(),
            match parse_struct_at(old(state).tokens(), old(state).pos()) {
                Ok((d, q)) => r is Ok && final(state).pos() == q
                    && final(state).result@.len() == old(state).result@.len() + 1
                    && final(state).result@.drop_last() == old(state).result@
                    && final(state).result@.last().declaration() == Some(d),
                Err(e) => r matches Err(x) && x@ == e && final(state).result == old(state).result,
            },
    {
        let ghost ts = state.tokens();
        let name = match state.expect_ident() {
            Ok(n) => n,
            Err(e) => return Err(e),
        };
        match state.expect_symbol(Symbol::OpenCurly) {
            Ok(()) => {},
            Err(e) => return Err(e),
        }
        let ghost start = state.pos();
        let mut properties: Vec<StructProperty> = Vec::new();
        assert(properties_view(properties@) =~= Seq::<SpecProperty>::empty());
        loop
            invariant_except_break
                parse_properties_at(ts, state.pos(), properties_view(properties@))
                    == parse_properties_at(ts, start, Seq::empty()),
            invariant
                state.wf(),
                state.tokens() == ts,
                ts == old(state).tokens(),
                state.result == old(state).result,
                parse_struct_at(ts, old(state).pos()) == (match parse_properties_at(ts, start, Seq::empty()) {
                    Err(e) => Err(e),
                    Ok((properties, end)) => Ok((Declaration::Struct { name: name@, properties }, end)),
                }),
            ensures
                parse_properties_at(ts, start, Seq::empty()) == Ok::<(Seq<SpecProperty>, int), SpecAstError>((properties_view(properties@), state.pos())),
            decreases ts.len() - state.pos(),
        {
            match state.next_token() {
                Some(Token::Ident(property_name)) => {
                    match state.expect_symbol(Symbol::Colon) {
                        Ok(()) => {},
                        Err(e) => return Err(e),
                    }
                    let type_of = match Self::parse_datatype(state) {
                        Ok(d) => d,
                        Err(e) => return Err(e),
                    };
                    let ghost before = properties@;
                    properties.push(StructProperty { name: property_name, type_of });
                    assert(properties_view(properties@) =~= properties_view(before).push(properties@.last()@));
                    state.is_symbol_next(Symbol::Comma);
                },
                Some(Token::Symbol(Symbol::CloseCurly)) => {
                    break;
                },
                Some(token) => return Err(ASTError::UnexpectedToken(Some(token))),
                None => return Err(ASTError::UnexpectedToken(None)),
            }
        }
        let ghost before = state.result@;
        state.push_ast(AST::Struct(SpewStruct { name, properties }));
        assert(state.result@.drop_last() =~= before);
        Ok(())
    }

    /// Parses a function signature after its keyword.
    fn parse_function_stub(state: &mut ASTState, modifiers: Vec<Modifier>) -> (r: Result<FunctionStub, ASTError>)
        requires
            old(state).wf(),
        ensures
            final(state).wf(),
            final(state).tokens() == old(state).tokens(),
            final(state).result == old(state).result,
            match parse_function_stub_at(old(state).tokens(), old(state).pos(), modifiers@) {
                Ok((f, q)) => r matches Ok(x) && x@ == f && final(state).pos() == q,
                Err(e) => r matches Err(x) && x@ == e,
            },
    {
        let ghost ts = state.tokens();
        let name = match state.expect_ident() {
            Ok(n) => n,
            Err(e) => return Err(e),
        };
        match state.expect_symbol(Symbol::OpenParen) {
            Ok(()) => {},
            Err(e) => return Err(e),
        }
        let ghost params_at = state.pos();
        let mut arguments: Vec<FunctionArgument> = Vec::new();
        match state.next_token() {
            Some(Token::Ident(argument_name)) => {
                match state.expect_symbol(Symbol::Colon) {
                    Ok(()) => {},
                    Err(e) => return Err(e),
                }
                let data_type = match Self::parse_datatype(state) {
                    Ok(d) => d,
                    Err(e) => return Err(e),
                };
                match state.expect_symbol(Symbol::CloseParen) {
                    Ok(()) => {},
                    Err(e) => return Err(e),
                }
                arguments.push(FunctionArgument { name: argument_name, data_type });
            },
            Some(Token::Symbol(Symbol::CloseParen)) => {},
            Some(token) => return Err(ASTError::UnexpectedToken(Some(token))),
            None => return Err(ASTError::Incomplete),
        }
        assert(parse_parameters_at(ts, params_at) == Ok::<(Seq<SpecArgument>, int), SpecAstError>(
            (arguments@.map_values(|a: FunctionArgument| a@), state.pos()),
        )) by {
            if arguments@.len() == 0 {
                assert(arguments@.map_values(|a: FunctionArgument| a@) =~= Seq::<SpecArgument>::empty());
            } else {
                assert(arguments@.map_values(|a: FunctionArgument| a@) =~= seq![arguments@[0]@]);
            }
        }
        // The return type follows an arrow `->`.
        let return_type = if state.is_symbol_next(Symbol::Minus) {
            match state.expect_symbol(Symbol::Right) {
                Ok(()) => {},
                Err(e) => return Err(e),
            }
            match Self::parse_datatype(state) {
                Ok(d) => Some(d),
                Err(e) => return Err(e),
            }
        } else {
            None
        };
        Ok(FunctionStub { name, modifiers, arguments, return_type })
    }

    /// Parses a trait after its keyword: its name and opening brace.
    fn parse_trait(state: &mut ASTState) -> (r: Result<(), ASTError>)
        requires
            old(state).wf(),
        ensures
            final(state).wf(),
            final(state).tokens() == old(state).tokens(),
            final(state).result == old(state).result,
            match parse_trait_at(old(state).tokens(), old(state).pos()) {
                Ok(q) => r is Ok && final(state).pos() == q,
                Err(e) => r matches Err(x) && x@ == e,
            },
    {
        match state.expect_ident() {
            Ok(_) => {},
            Err(e) => return Err(e),
        }
        state.expect_symbol(Symbol::OpenCurly)
    }

    /// Parses the tokens of `value` from its position on into declarations,
    /// or the first error met.
    pub fn parse_ast(value: TokenSet) -> (r: Result<Vec<AST>, ASTError>)
        requires
            value.wf(),
        ensures
            match parse_declarations(value@.0, value@.1, Seq::empty()) {
                Ok(ds) => r matches Ok(v) && declares(v@, ds),
                Err(e) => r matches Err(x) && x@ == e,
            },
    {
        let mut state = ASTState { result: Vec::new(), token_set: value };
        let ghost ts = state.tokens();
        let ghost mut ds: Seq<Declaration> = Seq::empty();
        loop
            invariant
                state.wf(),
                state.tokens() == ts,
                ts == value@.0,
                declares(state.result@, ds),
                parse_declarations(ts, state.pos(), ds) == parse_declarations(ts, value@.1, Seq::empty()),
            ensures
                parse_declarations(ts, value@.1, Seq::empty()) == Ok::<Seq<Declaration>, SpecAstError>(ds),
            decreases ts.len() - state.pos(),
        {
            let ghost p = state.pos();
            match state.next_token() {
                None => break,
                Some(Token::Keyword(KeywordType::Struct)) => {
                    let ghost before = state.result@;
                    match Self::parse_struct(&mut state) {
                        Ok(()) => {},
                        Err(e) => return Err(e),
                    }
                    proof {
                        lemma_properties_advance(ts, p + 1, Seq::empty());
                        let d = parse_struct_at(ts, p + 1)->Ok_0.0;
                        assert forall|i: int| 0 <= i < state.result@.len() implies #[trigger] state.result@[i].declaration()
                            == Some(ds.push(d)[i]) by {
                            if i < before.len() {
                                assert(state.result@[i] == state.result@.drop_last()[i]);
                            }
                        }
                        ds = ds.push(d);
                    }
                },
                Some(Token::Keyword(KeywordType::Function)) => {
                    let stub = match Self::parse_function_stub(&mut state, Vec::new()) {
                        Ok(f) => f,
                        Err(e) => return Err(e),
                    };
                    let ghost before = state.result@;
                    let ghost d = Declaration::FunctionStub(stub@);
                    state.push_ast(AST::FunctionStub(stub));
                    proof {
                        assert forall|i: int| 0 <= i < state.result@.len() implies #[trigger] state.result@[i].declaration()
                            == Some(ds.push(d)[i]) by {
                            if i < before.len() {
                                assert(state.result@[i] == before[i]);
                            }
                        }
                        ds = ds.push(d);
                    }
                },
                Some(Token::Keyword(KeywordType::Trait)) => {
                    match Self::parse_trait(&mut state) {
                        Ok(()) => {},
                        Err(e) => return Err(e),
                    }
                },
                Some(Token::Keyword(KeywordType::Modifier(_))) => {},
                Some(Token::Keyword(keyword)) => {
                    // No declaration of this kind is read yet.
                    return Err(ASTError::UnexpectedToken(Some(Token::Keyword(keyword))));
                },
                Some(_) => {
                    // Comments, identifiers, symbols and literals at the top
                    // level are passed over.
                },
            }
        }
        Ok(state.result)
    }
}

} // verus!
