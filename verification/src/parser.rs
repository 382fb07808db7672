//! Recursive-descent parsing: consumes the token sequence and builds an
//! abstract syntax tree with explicit operator-precedence climbing.
//!
//! The parser reads one token of lookahead and never backtracks (the
//! integer/range ambiguity is already resolved by the lexer).  The
//! grammar is pinned by a specification-level mirror: [`spec_parse`]
//! describes the exact tree for a given token sequence — precedence,
//! associativity, prefix chains and all — and [`Parser::parse`] is
//! proved to return it, with every parsing function proved to terminate
//! and held to its own production of the mirror.

use vstd::prelude::*;

use crate::error::CompilerError;
use crate::lexer::Token;
use crate::lexer::TokenType;
use crate::lexer::TokenTypeV;
use crate::lexer::TokenV;
use crate::text::str_eqx;
use crate::text::usize_to_string;

verus! {

broadcast use vstd::std_specs::vec::group_vec_axioms, vstd::seq::group_seq_axioms;

/// One node of the abstract syntax tree: a closed set of variants, each
/// owning its children outright (a strict tree).
#[derive(Debug)]
pub enum AstNode {
    Module { name: String, items: Vec<AstNode> },
    Function {
        name: String,
        params: Vec<(String, Type)>,
        return_type: Option<Type>,
        body: Vec<AstNode>,
    },
    VariableDecl { name: String, var_type: Option<Type>, value: Option<Box<AstNode>>, mutable: bool },
    ConstDecl { name: String, const_type: Type, value: Box<AstNode> },
    Return { value: Option<Box<AstNode>> },
    BinaryOp { left: Box<AstNode>, op: String, right: Box<AstNode> },
    UnaryOp { op: String, operand: Box<AstNode> },
    Literal(Literal),
    Identifier(String),
    FunctionCall { name: String, args: Vec<AstNode> },
    If { condition: Box<AstNode>, then_branch: Vec<AstNode>, else_branch: Option<Vec<AstNode>> },
    While { condition: Box<AstNode>, body: Vec<AstNode> },
    For {
        iterator: String,
        range_start: Box<AstNode>,
        range_end: Box<AstNode>,
        inclusive: bool,
        body: Vec<AstNode>,
    },
    Loop { body: Vec<AstNode> },
    Break,
    Continue,
    Assignment { target: String, value: Box<AstNode> },
    ArrayLiteral { elements: Vec<AstNode> },
    ArrayRepeat { value: Box<AstNode>, count: usize },
    ArrayIndex { array: Box<AstNode>, index: Box<AstNode> },
}

/// A source-level type: primitive tags plus fixed-length arrays.
/// Type equality is structural.
#[derive(Debug)]
pub enum Type {
    I8,
    I16,
    I32,
    I64,
    U8,
    U16,
    U32,
    U64,
    F32,
    F64,
    Bool,
    Char,
    Void,
    Str,
    Array(Box<Type>, usize),
}

/// Deep structural equality of two types.
pub fn type_eq(a: &Type, b: &Type) -> (r: bool)
    ensures
        r == (*a == *b),
    decreases *a,
{
    match (a, b) {
        (Type::I8, Type::I8) => true,
        (Type::I16, Type::I16) => true,
        (Type::I32, Type::I32) => true,
        (Type::I64, Type::I64) => true,
        (Type::U8, Type::U8) => true,
        (Type::U16, Type::U16) => true,
        (Type::U32, Type::U32) => true,
        (Type::U64, Type::U64) => true,
        (Type::F32, Type::F32) => true,
        (Type::F64, Type::F64) => true,
        (Type::Bool, Type::Bool) => true,
        (Type::Char, Type::Char) => true,
        (Type::Void, Type::Void) => true,
        (Type::Str, Type::Str) => true,
        (Type::Array(e1, n1), Type::Array(e2, n2)) => *n1 == *n2 && type_eq(e1, e2),
        _ => false,
    }
}

/// A deep copy of a type, equal to the original.
pub fn type_clone(t: &Type) -> (r: Type)
    ensures
        r == *t,
    decreases *t,
{
    match t {
        Type::I8 => Type::I8,
        Type::I16 => Type::I16,
        Type::I32 => Type::I32,
        Type::I64 => Type::I64,
        Type::U8 => Type::U8,
        Type::U16 => Type::U16,
        Type::U32 => Type::U32,
        Type::U64 => Type::U64,
        Type::F32 => Type::F32,
        Type::F64 => Type::F64,
        Type::Bool => Type::Bool,
        Type::Char => Type::Char,
        Type::Void => Type::Void,
        Type::Str => Type::Str,
        Type::Array(e, n) => Type::Array(Box::new(type_clone(e)), *n),
    }
}

impl Clone for Type {
    /// Cloning a type yields an equal type.
    fn clone(&self) -> (r: Type)
        ensures
            r == *self,
    {
        type_clone(self)
    }
}

/// A literal value as parsed.  A floating-point literal carries its
/// spelling: no stage of this compiler computes with it.
#[derive(Debug, Clone)]
pub enum Literal {
    Int(i64),
    Float(String),
    String(String),
    Bool(bool),
    Char(char),
}


/// The mathematical value of a tree node: identical to [`AstNode`]
/// except that text payloads are character sequences and child vectors
/// are sequences.
pub enum AstNodeV {
    Module { name: Seq<char>, items: Seq<AstNodeV> },
    Function {
        name: Seq<char>,
        params: Seq<(Seq<char>, Type)>,
        return_type: Option<Type>,
        body: Seq<AstNodeV>,
    },
    VariableDecl {
        name: Seq<char>,
        var_type: Option<Type>,
        value: Option<Box<AstNodeV>>,
        mutable: bool,
    },
    ConstDecl { name: Seq<char>, const_type: Type, value: Box<AstNodeV> },
    Return { value: Option<Box<AstNodeV>> },
    BinaryOp { left: Box<AstNodeV>, op: Seq<char>, right: Box<AstNodeV> },
    UnaryOp { op: Seq<char>, operand: Box<AstNodeV> },
    Literal(LiteralV),
    Identifier(Seq<char>),
    FunctionCall { name: Seq<char>, args: Seq<AstNodeV> },
    If {
        condition: Box<AstNodeV>,
        then_branch: Seq<AstNodeV>,
        else_branch: Option<Seq<AstNodeV>>,
    },
    While { condition: Box<AstNodeV>, body: Seq<AstNodeV> },
    For {
        iterator: Seq<char>,
        range_start: Box<AstNodeV>,
        range_end: Box<AstNodeV>,
        inclusive: bool,
        body: Seq<AstNodeV>,
    },
    Loop { body: Seq<AstNodeV> },
    Break,
    Continue,
    Assignment { target: Seq<char>, value: Box<AstNodeV> },
    ArrayLiteral { elements: Seq<AstNodeV> },
    ArrayRepeat { value: Box<AstNodeV>, count: usize },
    ArrayIndex { array: Box<AstNodeV>, index: Box<AstNodeV> },
}

/// The mathematical value of a parsed literal.
pub enum LiteralV {
    Int(i64),
    Float(Seq<char>),
    String(Seq<char>),
    Bool(bool),
    Char(char),
}

/// The mathematical value of a literal.
pub open spec fn literal_view(l: Literal) -> LiteralV {
    match l {
        Literal::Int(n) => LiteralV::Int(n),
        Literal::Float(s) => LiteralV::Float(s@),
        Literal::String(s) => LiteralV::String(s@),
        Literal::Bool(b) => LiteralV::Bool(b),
        Literal::Char(c) => LiteralV::Char(c),
    }
}

/// The mathematical value of a tree node.
pub open spec fn ast_view(n: AstNode) -> AstNodeV
    decreases n, 0int, 0int,
{
    match n {
        AstNode::Module { name, items } => AstNodeV::Module {
            name: name@,
            items: asts_view(items, 0),
        },
        AstNode::Function { name, params, return_type, body } => AstNodeV::Function {
            name: name@,
            params: params_view(params, 0),
            return_type,
            body: asts_view(body, 0),
        },
        AstNode::VariableDecl { name, var_type, value, mutable } => AstNodeV::VariableDecl {
            name: name@,
            var_type,
            value: match value {
                Some(v) => Some(Box::new(ast_view(*v))),
                None => None,
            },
            mutable,
        },
        AstNode::ConstDecl { name, const_type, value } => AstNodeV::ConstDecl {
            name: name@,
            const_type,
            value: Box::new(ast_view(*value)),
        },
        AstNode::Return { value } => AstNodeV::Return {
            value: match value {
                Some(v) => Some(Box::new(ast_view(*v))),
                None => None,
            },
        },
        AstNode::BinaryOp { left, op, right } => AstNodeV::BinaryOp {
            left: Box::new(ast_view(*left)),
            op: op@,
            right: Box::new(ast_view(*right)),
        },
        AstNode::UnaryOp { op, operand } => AstNodeV::UnaryOp {
            op: op@,
            operand: Box::new(ast_view(*operand)),
        },
        AstNode::Literal(l) => AstNodeV::Literal(literal_view(l)),
        AstNode::Identifier(name) => AstNodeV::Identifier(name@),
        AstNode::FunctionCall { name, args } => AstNodeV::FunctionCall {
            name: name@,
            args: asts_view(args, 0),
        },
        AstNode::If { condition, then_branch, else_branch } => AstNodeV::If {
            condition: Box::new(ast_view(*condition)),
            then_branch: asts_view(then_branch, 0),
            else_branch: match else_branch {
                Some(e) => Some(asts_view(e, 0)),
                None => None,
            },
        },
        AstNode::While { condition, body } => AstNodeV::While {
            condition: Box::new(ast_view(*condition)),
            body: asts_view(body, 0),
        },
        AstNode::For { iterator, range_start, range_end, inclusive, body } => AstNodeV::For {
            iterator: iterator@,
            range_start: Box::new(ast_view(*range_start)),
            range_end: Box::new(ast_view(*range_end)),
            inclusive,
            body: asts_view(body, 0),
        },
        AstNode::Loop { body } => AstNodeV::Loop { body: asts_view(body, 0) },
        AstNode::Break => AstNodeV::Break,
        AstNode::Continue => AstNodeV::Continue,
        AstNode::Assignment { target, value } => AstNodeV::Assignment {
            target: target@,
            value: Box::new(ast_view(*value)),
        },
        AstNode::ArrayLiteral { elements } => AstNodeV::ArrayLiteral {
            elements: asts_view(elements, 0),
        },
        AstNode::ArrayRepeat { value, count } => AstNodeV::ArrayRepeat {
            value: Box::new(ast_view(*value)),
            count,
        },
        AstNode::ArrayIndex { array, index } => AstNodeV::ArrayIndex {
            array: Box::new(ast_view(*array)),
            index: Box::new(ast_view(*index)),
        },
    }
}

/// The mathematical values of a vector of nodes, from index `i` on.
pub open spec fn asts_view(v: Vec<AstNode>, i: int) -> Seq<AstNodeV>
    decreases v, v@.len() - i, 1int,
{
    if i < 0 || i >= v@.len() {
        Seq::empty()
    } else {
        seq![ast_view(v@[i])] + asts_view(v, i + 1)
    }
}

/// The mathematical values of a parameter list, from index `i` on.
pub open spec fn params_view(v: Vec<(String, Type)>, i: int) -> Seq<(Seq<char>, Type)>
    decreases v@.len() - i,
{
    if i < 0 || i >= v@.len() {
        Seq::empty()
    } else {
        seq![(v@[i].0@, v@[i].1)] + params_view(v, i + 1)
    }
}

/// Appending a node extends the viewed sequence by the node's view.
pub proof fn lemma_asts_view_push(v: Vec<AstNode>, w: Vec<AstNode>, n: AstNode, i: int)
    requires
        w@ == v@.push(n),
        0 <= i <= v@.len(),
    ensures
        asts_view(w, i) == asts_view(v, i).push(ast_view(n)),
    decreases v@.len() - i,
{
    if i < v@.len() {
        lemma_asts_view_push(v, w, n, i + 1);
        assert(seq![ast_view(v@[i])] + asts_view(v, i + 1).push(ast_view(n)) =~= (seq![
            ast_view(v@[i]),
        ] + asts_view(v, i + 1)).push(ast_view(n)));
    } else {
        assert(asts_view(w, i + 1) =~= Seq::<AstNodeV>::empty());
        assert(asts_view(w, i) =~= seq![ast_view(n)]);
        assert(asts_view(v, i).push(ast_view(n)) =~= seq![ast_view(n)]);
    }
}

/// Appending a parameter extends the viewed list by its view.
pub proof fn lemma_params_view_push(
    v: Vec<(String, Type)>,
    w: Vec<(String, Type)>,
    p: (String, Type),
    i: int,
)
    requires
        w@ == v@.push(p),
        0 <= i <= v@.len(),
    ensures
        params_view(w, i) == params_view(v, i).push((p.0@, p.1)),
    decreases v@.len() - i,
{
    if i < v@.len() {
        lemma_params_view_push(v, w, p, i + 1);
        assert(seq![(v@[i].0@, v@[i].1)] + params_view(v, i + 1).push((p.0@, p.1)) =~= (seq![
            (v@[i].0@, v@[i].1),
        ] + params_view(v, i + 1)).push((p.0@, p.1)));
    } else {
        assert(params_view(w, i + 1) =~= Seq::<(Seq<char>, Type)>::empty());
        assert(params_view(w, i) =~= seq![(p.0@, p.1)]);
        assert(params_view(v, i).push((p.0@, p.1)) =~= seq![(p.0@, p.1)]);
    }
}

/// A numeric tag distinguishing the variants of a token kind, used to
/// compare kinds while ignoring their payloads.
pub open spec fn tt_tag(t: TokenTypeV) -> int {
    match t {
        TokenTypeV::Module => 0,
        TokenTypeV::Import => 1,
        TokenTypeV::Fn => 2,
        TokenTypeV::Let => 3,
        TokenTypeV::Mut => 4,
        TokenTypeV::Const => 5,
        TokenTypeV::Return => 6,
        TokenTypeV::If => 7,
        TokenTypeV::Else => 8,
        TokenTypeV::While => 9,
        TokenTypeV::For => 10,
        TokenTypeV::Loop => 11,
        TokenTypeV::Break => 12,
        TokenTypeV::Continue => 13,
        TokenTypeV::Struct => 14,
        TokenTypeV::Enum => 15,
        TokenTypeV::Union => 16,
        TokenTypeV::Type => 17,
        TokenTypeV::Pub => 18,
        TokenTypeV::Unsafe => 19,
        TokenTypeV::Defer => 20,
        TokenTypeV::I8 => 21,
        TokenTypeV::I16 => 22,
        TokenTypeV::I32 => 23,
        TokenTypeV::I64 => 24,
        TokenTypeV::U8 => 25,
        TokenTypeV::U16 => 26,
        TokenTypeV::U32 => 27,
        TokenTypeV::U64 => 28,
        TokenTypeV::F32 => 29,
        TokenTypeV::F64 => 30,
        TokenTypeV::Bool => 31,
        TokenTypeV::Char => 32,
        TokenTypeV::Void => 33,
        TokenTypeV::Str => 34,
        TokenTypeV::IntLiteral(_) => 35,
        TokenTypeV::FloatLiteral(_) => 36,
        TokenTypeV::StringLiteral(_) => 37,
        TokenTypeV::CharLiteral(_) => 38,
        TokenTypeV::BoolLiteral(_) => 39,
        TokenTypeV::Identifier(_) => 40,
        TokenTypeV::Plus => 41,
        TokenTypeV::Minus => 42,
        TokenTypeV::Star => 43,
        TokenTypeV::Slash => 44,
        TokenTypeV::Percent => 45,
        TokenTypeV::Equal => 46,
        TokenTypeV::EqualEqual => 47,
        TokenTypeV::NotEqual => 48,
        TokenTypeV::Less => 49,
        TokenTypeV::LessEqual => 50,
        TokenTypeV::Greater => 51,
        TokenTypeV::GreaterEqual => 52,
        TokenTypeV::AmpAmp => 53,
        TokenTypeV::PipePipe => 54,
        TokenTypeV::Bang => 55,
        TokenTypeV::Amp => 56,
        TokenTypeV::Pipe => 57,
        TokenTypeV::Caret => 58,
        TokenTypeV::Tilde => 59,
        TokenTypeV::LessLess => 60,
        TokenTypeV::GreaterGreater => 61,
        TokenTypeV::LeftParen => 62,
        TokenTypeV::RightParen => 63,
        TokenTypeV::LeftBrace => 64,
        TokenTypeV::RightBrace => 65,
        TokenTypeV::LeftBracket => 66,
        TokenTypeV::RightBracket => 67,
        TokenTypeV::Semicolon => 68,
        TokenTypeV::Comma => 69,
        TokenTypeV::Dot => 70,
        TokenTypeV::Colon => 71,
        TokenTypeV::ColonColon => 72,
        TokenTypeV::Arrow => 73,
        TokenTypeV::FatArrow => 74,
        TokenTypeV::Eof => 75,
    }
}

/// Whether an abstract-syntax-tree node is a function declaration.
pub open spec fn is_function_item(n: AstNode) -> bool {
    n matches AstNode::Function { .. }
}

/// A well-formed parse result: a module whose items are all function
/// declarations (imports are consumed and discarded during parsing).
pub open spec fn module_wf(ast: AstNode) -> bool {
    match ast {
        AstNode::Module { name, items } => forall|i: int|
            0 <= i < items@.len() ==> is_function_item(#[trigger] items@[i]),
        _ => false,
    }
}


/// The token kind at position `i`.
pub open spec fn kind_at(t: Seq<TokenV>, i: int) -> TokenTypeV {
    t[i].kind
}

/// The position a consuming production hands onward.  Every production
/// of this grammar moves past at least one token on success; the floor
/// over `i` only serves the termination measure of the mirror and is
/// proved exact wherever the executable parser is held to it.
pub open spec fn step_to(t: Seq<TokenV>, i: int, j: int) -> int {
    if i < j <= t.len() {
        j
    } else if i + 1 <= t.len() {
        i + 1
    } else {
        t.len() as int
    }
}

/// The position just past an import statement's terminating semicolon,
/// or at the end of input.
#[verifier::opaque]
pub open spec fn sp_import_end(t: Seq<TokenV>, i: int) -> int
    decreases t.len() - i,
{
    if !(0 <= i < t.len()) {
        i
    } else if (kind_at(t, i) matches TokenTypeV::Eof) {
        i
    } else if (kind_at(t, i) matches TokenTypeV::Semicolon) {
        i + 1
    } else {
        sp_import_end(t, i + 1)
    }
}

/// A type: a primitive name, or `[` element-type `;` integer-literal `]`.
#[verifier::opaque]
pub open spec fn sp_type(t: Seq<TokenV>, i: int) -> Result<(Type, int), ()>
    decreases t.len() - i, 2int,
{
    if !(0 <= i < t.len()) {
        Err(())
    } else {
        match kind_at(t, i) {
            TokenTypeV::I8 => Ok((Type::I8, i + 1)),
            TokenTypeV::I16 => Ok((Type::I16, i + 1)),
            TokenTypeV::I32 => Ok((Type::I32, i + 1)),
            TokenTypeV::I64 => Ok((Type::I64, i + 1)),
            TokenTypeV::U8 => Ok((Type::U8, i + 1)),
            TokenTypeV::U16 => Ok((Type::U16, i + 1)),
            TokenTypeV::U32 => Ok((Type::U32, i + 1)),
            TokenTypeV::U64 => Ok((Type::U64, i + 1)),
            TokenTypeV::F32 => Ok((Type::F32, i + 1)),
            TokenTypeV::F64 => Ok((Type::F64, i + 1)),
            TokenTypeV::Bool => Ok((Type::Bool, i + 1)),
            TokenTypeV::Char => Ok((Type::Char, i + 1)),
            TokenTypeV::Void => Ok((Type::Void, i + 1)),
            TokenTypeV::Str => Ok((Type::Str, i + 1)),
            TokenTypeV::LeftBracket => match sp_type(t, i + 1) {
                Ok((et, j0)) => {
                    let j = step_to(t, i, j0);
                    if j < t.len() && (kind_at(t, j) matches TokenTypeV::Semicolon) {
                        if j + 1 < t.len() {
                            match kind_at(t, j + 1) {
                                TokenTypeV::IntLiteral(sz) => {
                                    if j + 2 < t.len() && (kind_at(t, j + 2)
                                        matches TokenTypeV::RightBracket) {
                                        Ok((Type::Array(Box::new(et), (sz as usize)), j + 3))
                                    } else {
                                        Err(())
                                    }
                                },
                                _ => Err(()),
                            }
                        } else {
                            Err(())
                        }
                    } else {
                        Err(())
                    }
                },
                Err(()) => Err(()),
            },
            _ => Err(()),
        }
    }
}

/// A comma-separated argument list, read until the closing parenthesis
/// (which the caller consumes).
#[verifier::opaque]
pub open spec fn sp_args(t: Seq<TokenV>, i: int, acc: Seq<AstNodeV>) -> Result<
    (Seq<AstNodeV>, int),
    (),
>
    decreases t.len() - i, 17int,
{
    if !(0 <= i < t.len()) {
        Err(())
    } else if (kind_at(t, i) matches TokenTypeV::RightParen) {
        Ok((acc, i))
    } else {
        match sp_expression(t, i) {
            Ok((e, j0)) => {
                let j = step_to(t, i, j0);
                if j < t.len() && (kind_at(t, j) matches TokenTypeV::Comma) {
                    sp_args(t, j + 1, acc.push(e))
                } else {
                    Ok((acc.push(e), j))
                }
            },
            Err(()) => Err(()),
        }
    }
}

/// The elements of an array literal after the first, each preceded by a
/// comma; a trailing comma before `]` is allowed.
#[verifier::opaque]
pub open spec fn sp_elems(t: Seq<TokenV>, i: int, acc: Seq<AstNodeV>) -> Result<
    (Seq<AstNodeV>, int),
    (),
>
    decreases t.len() - i, 17int,
{
    if 0 <= i < t.len() && (kind_at(t, i) matches TokenTypeV::Comma) {
        if i + 1 < t.len() && (kind_at(t, i + 1) matches TokenTypeV::RightBracket) {
            Ok((acc, i + 1))
        } else {
            match sp_expression(t, i + 1) {
                Ok((e, j0)) => sp_elems(t, step_to(t, i, j0), acc.push(e)),
                Err(()) => Err(()),
            }
        }
    } else {
        Ok((acc, i))
    }
}

/// A primary expression: a literal, an identifier optionally indexed or
/// called (index checked first, the two mutually exclusive), a
/// parenthesized expression, an array literal, or an array-repeat whose
/// count must be an integer literal token.
#[verifier::opaque]
pub open spec fn sp_primary(t: Seq<TokenV>, i: int) -> Result<(AstNodeV, int), ()>
    decreases t.len() - i, 2int,
{
    if !(0 <= i < t.len()) {
        Err(())
    } else {
        match kind_at(t, i) {
            TokenTypeV::IntLiteral(n) => Ok((AstNodeV::Literal(LiteralV::Int(n)), i + 1)),
            TokenTypeV::FloatLiteral(s) => Ok((AstNodeV::Literal(LiteralV::Float(s)), i + 1)),
            TokenTypeV::StringLiteral(s) => Ok((AstNodeV::Literal(LiteralV::String(s)), i + 1)),
            TokenTypeV::CharLiteral(c) => Ok((AstNodeV::Literal(LiteralV::Char(c)), i + 1)),
            TokenTypeV::BoolLiteral(b) => Ok((AstNodeV::Literal(LiteralV::Bool(b)), i + 1)),
            TokenTypeV::Identifier(name) => {
                if i + 1 < t.len() && (kind_at(t, i + 1) matches TokenTypeV::LeftBracket) {
                    match sp_expression(t, i + 2) {
                        Ok((idx, j0)) => {
                            let j = step_to(t, i, j0);
                            if j < t.len() && (kind_at(t, j) matches TokenTypeV::RightBracket) {
                                Ok(
                                    (
                                        AstNodeV::ArrayIndex {
                                            array: Box::new(AstNodeV::Identifier(name)),
                                            index: Box::new(idx),
                                        },
                                        j + 1,
                                    ),
                                )
                            } else {
                                Err(())
                            }
                        },
                        Err(()) => Err(()),
                    }
                } else if i + 1 < t.len() && (kind_at(t, i + 1) matches TokenTypeV::LeftParen) {
                    match sp_args(t, i + 2, Seq::empty()) {
                        Ok((args, j0)) => {
                            let j = step_to(t, i, j0);
                            if j < t.len() && (kind_at(t, j) matches TokenTypeV::RightParen) {
                                Ok((AstNodeV::FunctionCall { name, args }, j + 1))
                            } else {
                                Err(())
                            }
                        },
                        Err(()) => Err(()),
                    }
                } else {
                    Ok((AstNodeV::Identifier(name), i + 1))
                }
            },
            TokenTypeV::LeftParen => match sp_expression(t, i + 1) {
                Ok((e, j0)) => {
                    let j = step_to(t, i, j0);
                    if j < t.len() && (kind_at(t, j) matches TokenTypeV::RightParen) {
                        Ok((e, j + 1))
                    } else {
                        Err(())
                    }
                },
                Err(()) => Err(()),
            },
            TokenTypeV::LeftBracket => {
                if i + 1 < t.len() && (kind_at(t, i + 1) matches TokenTypeV::RightBracket) {
                    Ok((AstNodeV::ArrayLiteral { elements: Seq::empty() }, i + 2))
                } else {
                    match sp_expression(t, i + 1) {
                        Ok((first, j0)) => {
                            let j = step_to(t, i, j0);
                            if j < t.len() && (kind_at(t, j) matches TokenTypeV::Semicolon) {
                                if j + 1 < t.len() {
                                    match kind_at(t, j + 1) {
                                        TokenTypeV::IntLiteral(c) => {
                                            if j + 2 < t.len() && (kind_at(t, j + 2)
                                                matches TokenTypeV::RightBracket) {
                                                Ok(
                                                    (
                                                        AstNodeV::ArrayRepeat {
                                                            value: Box::new(first),
                                                            count: (c as usize),
                                                        },
                                                        j + 3,
                                                    ),
                                                )
                                            } else {
                                                Err(())
                                            }
                                        },
                                        _ => Err(()),
                                    }
                                } else {
                                    Err(())
                                }
                            } else {
                                match sp_elems(t, j, seq![first]) {
                                    Ok((elements, k0)) => {
                                        let k = step_to(t, i, k0);
                                        if k < t.len() && (kind_at(t, k)
                                            matches TokenTypeV::RightBracket) {
                                            Ok((AstNodeV::ArrayLiteral { elements }, k + 1))
                                        } else {
                                            Err(())
                                        }
                                    },
                                    Err(()) => Err(()),
                                }
                            }
                        },
                        Err(()) => Err(()),
                    }
                }
            },
            _ => Err(()),
        }
    }
}

/// A unary expression: prefix `-` and `!` recurse right.
#[verifier::opaque]
pub open spec fn sp_unary(t: Seq<TokenV>, i: int) -> Result<(AstNodeV, int), ()>
    decreases t.len() - i, 3int,
{
    if !(0 <= i <= t.len()) {
        Err(())
    } else if 0 <= i < t.len() && ((kind_at(t, i) matches TokenTypeV::Minus) || (kind_at(t, i)
        matches TokenTypeV::Bang)) {
        let op: Seq<char> = if (kind_at(t, i) matches TokenTypeV::Minus) {
            "-"@
        } else {
            "!"@
        };
        match sp_unary(t, i + 1) {
            Ok((operand, j)) => Ok((AstNodeV::UnaryOp { op, operand: Box::new(operand) }, j)),
            Err(()) => Err(()),
        }
    } else {
        sp_primary(t, i)
    }
}

/// The operator text of a multiplicative token, if it is one.
pub open spec fn sp_factor_op(k: TokenTypeV) -> Option<Seq<char>> {
    match k {
        TokenTypeV::Star => Some("*"@),
        TokenTypeV::Slash => Some("/"@),
        TokenTypeV::Percent => Some("%"@),
        _ => None,
    }
}

/// The operator text of an additive token, if it is one.
pub open spec fn sp_term_op(k: TokenTypeV) -> Option<Seq<char>> {
    match k {
        TokenTypeV::Plus => Some("+"@),
        TokenTypeV::Minus => Some("-"@),
        _ => None,
    }
}

/// The operator text of a comparison token, if it is one.
pub open spec fn sp_cmp_op(k: TokenTypeV) -> Option<Seq<char>> {
    match k {
        TokenTypeV::Less => Some("<"@),
        TokenTypeV::LessEqual => Some("<="@),
        TokenTypeV::Greater => Some(">"@),
        TokenTypeV::GreaterEqual => Some(">="@),
        _ => None,
    }
}

/// The operator text of an equality token, if it is one.
pub open spec fn sp_eq_op(k: TokenTypeV) -> Option<Seq<char>> {
    match k {
        TokenTypeV::EqualEqual => Some("=="@),
        TokenTypeV::NotEqual => Some("!="@),
        _ => None,
    }
}

/// Folds further multiplicative operators onto `left`, left to right.
#[verifier::opaque]
pub open spec fn sp_factor_rest(t: Seq<TokenV>, i: int, left: AstNodeV) -> Result<
    (AstNodeV, int),
    (),
>
    decreases t.len() - i, 4int,
{
    if 0 <= i < t.len() && sp_factor_op(kind_at(t, i)) is Some {
        match sp_unary(t, i + 1) {
            Ok((right, j0)) => sp_factor_rest(
                t,
                step_to(t, i, j0),
                AstNodeV::BinaryOp {
                    left: Box::new(left),
                    op: sp_factor_op(kind_at(t, i))->0,
                    right: Box::new(right),
                },
            ),
            Err(()) => Err(()),
        }
    } else {
        Ok((left, i))
    }
}

/// A multiplicative expression.
#[verifier::opaque]
pub open spec fn sp_factor(t: Seq<TokenV>, i: int) -> Result<(AstNodeV, int), ()>
    decreases t.len() - i, 5int,
{
    if !(0 <= i <= t.len()) {
        Err(())
    } else {
        match sp_unary(t, i) {
            Ok((l, j0)) => sp_factor_rest(t, step_to(t, i, j0), l),
            Err(()) => Err(()),
        }
    }
}

/// Folds further additive operators onto `left`, left to right.
#[verifier::opaque]
pub open spec fn sp_term_rest(t: Seq<TokenV>, i: int, left: AstNodeV) -> Result<
    (AstNodeV, int),
    (),
>
    decreases t.len() - i, 6int,
{
    if 0 <= i < t.len() && sp_term_op(kind_at(t, i)) is Some {
        match sp_factor(t, i + 1) {
            Ok((right, j0)) => sp_term_rest(
                t,
                step_to(t, i, j0),
                AstNodeV::BinaryOp {
                    left: Box::new(left),
                    op: sp_term_op(kind_at(t, i))->0,
                    right: Box::new(right),
                },
            ),
            Err(()) => Err(()),
        }
    } else {
        Ok((left, i))
    }
}

/// An additive expression.
#[verifier::opaque]
pub open spec fn sp_term(t: Seq<TokenV>, i: int) -> Result<(AstNodeV, int), ()>
    decreases t.len() - i, 7int,
{
    if !(0 <= i <= t.len()) {
        Err(())
    } else {
        match sp_factor(t, i) {
            Ok((l, j0)) => sp_term_rest(t, step_to(t, i, j0), l),
            Err(()) => Err(()),
        }
    }
}

/// Folds further comparison operators onto `left`, left to right.
#[verifier::opaque]
pub open spec fn sp_cmp_rest(t: Seq<TokenV>, i: int, left: AstNodeV) -> Result<(AstNodeV, int), ()>
    decreases t.len() - i, 8int,
{
    if 0 <= i < t.len() && sp_cmp_op(kind_at(t, i)) is Some {
        match sp_term(t, i + 1) {
            Ok((right, j0)) => sp_cmp_rest(
                t,
                step_to(t, i, j0),
                AstNodeV::BinaryOp {
                    left: Box::new(left),
                    op: sp_cmp_op(kind_at(t, i))->0,
                    right: Box::new(right),
                },
            ),
            Err(()) => Err(()),
        }
    } else {
        Ok((left, i))
    }
}

/// A comparison expression.
#[verifier::opaque]
pub open spec fn sp_comparison(t: Seq<TokenV>, i: int) -> Result<(AstNodeV, int), ()>
    decreases t.len() - i, 9int,
{
    if !(0 <= i <= t.len()) {
        Err(())
    } else {
        match sp_term(t, i) {
            Ok((l, j0)) => sp_cmp_rest(t, step_to(t, i, j0), l),
            Err(()) => Err(()),
        }
    }
}

/// Folds further equality operators onto `left`, left to right.
#[verifier::opaque]
pub open spec fn sp_eq_rest(t: Seq<TokenV>, i: int, left: AstNodeV) -> Result<(AstNodeV, int), ()>
    decreases t.len() - i, 10int,
{
    if 0 <= i < t.len() && sp_eq_op(kind_at(t, i)) is Some {
        match sp_comparison(t, i + 1) {
            Ok((right, j0)) => sp_eq_rest(
                t,
                step_to(t, i, j0),
                AstNodeV::BinaryOp {
                    left: Box::new(left),
                    op: sp_eq_op(kind_at(t, i))->0,
                    right: Box::new(right),
                },
            ),
            Err(()) => Err(()),
        }
    } else {
        Ok((left, i))
    }
}

/// An equality expression.
#[verifier::opaque]
pub open spec fn sp_equality(t: Seq<TokenV>, i: int) -> Result<(AstNodeV, int), ()>
    decreases t.len() - i, 11int,
{
    if !(0 <= i <= t.len()) {
        Err(())
    } else {
        match sp_comparison(t, i) {
            Ok((l, j0)) => sp_eq_rest(t, step_to(t, i, j0), l),
            Err(()) => Err(()),
        }
    }
}

/// Folds further `&&` operators onto `left`, left to right.
#[verifier::opaque]
pub open spec fn sp_and_rest(t: Seq<TokenV>, i: int, left: AstNodeV) -> Result<(AstNodeV, int), ()>
    decreases t.len() - i, 12int,
{
    if 0 <= i < t.len() && (kind_at(t, i) matches TokenTypeV::AmpAmp) {
        match sp_equality(t, i + 1) {
            Ok((right, j0)) => sp_and_rest(
                t,
                step_to(t, i, j0),
                AstNodeV::BinaryOp { left: Box::new(left), op: "&&"@, right: Box::new(right) },
            ),
            Err(()) => Err(()),
        }
    } else {
        Ok((left, i))
    }
}

/// A logical-and expression.
#[verifier::opaque]
pub open spec fn sp_and(t: Seq<TokenV>, i: int) -> Result<(AstNodeV, int), ()>
    decreases t.len() - i, 13int,
{
    if !(0 <= i <= t.len()) {
        Err(())
    } else {
        match sp_equality(t, i) {
            Ok((l, j0)) => sp_and_rest(t, step_to(t, i, j0), l),
            Err(()) => Err(()),
        }
    }
}

/// Folds further `||` operators onto `left`, left to right.
#[verifier::opaque]
pub open spec fn sp_or_rest(t: Seq<TokenV>, i: int, left: AstNodeV) -> Result<(AstNodeV, int), ()>
    decreases t.len() - i, 14int,
{
    if 0 <= i < t.len() && (kind_at(t, i) matches TokenTypeV::PipePipe) {
        match sp_and(t, i + 1) {
            Ok((right, j0)) => sp_or_rest(
                t,
                step_to(t, i, j0),
                AstNodeV::BinaryOp { left: Box::new(left), op: "||"@, right: Box::new(right) },
            ),
            Err(()) => Err(()),
        }
    } else {
        Ok((left, i))
    }
}

/// A logical-or expression.
#[verifier::opaque]
pub open spec fn sp_or(t: Seq<TokenV>, i: int) -> Result<(AstNodeV, int), ()>
    decreases t.len() - i, 15int,
{
    if !(0 <= i <= t.len()) {
        Err(())
    } else {
        match sp_and(t, i) {
            Ok((l, j0)) => sp_or_rest(t, step_to(t, i, j0), l),
            Err(()) => Err(()),
        }
    }
}

/// An expression: precedence climbs from logical-or down to primary.
#[verifier::opaque]
pub open spec fn sp_expression(t: Seq<TokenV>, i: int) -> Result<(AstNodeV, int), ()>
    decreases t.len() - i, 16int,
{
    if !(0 <= i <= t.len()) {
        Err(())
    } else {
        sp_or(t, i)
    }
}


/// A variable declaration after its `let`: optional `mut`, a name, an
/// optional `:` type, an optional `=` initializer, and `;`.
#[verifier::opaque]
pub open spec fn sp_var_decl(t: Seq<TokenV>, i: int) -> Result<(AstNodeV, int), ()>
    decreases t.len() - i, 18int,
{
    if !(0 <= i < t.len()) {
        Err(())
    } else {
        let mutable = (kind_at(t, i) matches TokenTypeV::Mut);
        let p = if (kind_at(t, i) matches TokenTypeV::Mut) {
            i + 1
        } else {
            i
        };
        if p < t.len() {
            match kind_at(t, p) {
                TokenTypeV::Identifier(name) => {
                    sp_var_decl_tail(t, p + 1, name, mutable)
                },
                _ => Err(()),
            }
        } else {
            Err(())
        }
    }
}

/// The remainder of a variable declaration after its name.
#[verifier::opaque]
pub open spec fn sp_var_decl_tail(t: Seq<TokenV>, i: int, name: Seq<char>, mutable: bool) -> Result<
    (AstNodeV, int),
    (),
>
    decreases t.len() - i, 18int,
{
    if !(0 <= i <= t.len()) {
        Err(())
    } else {
        let tyr: Result<(Option<Type>, int), ()> = if i < t.len() && (kind_at(t, i)
            matches TokenTypeV::Colon) {
            match sp_type(t, i + 1) {
                Ok((ty, j0)) => Ok((Some(ty), step_to(t, i, j0))),
                Err(()) => Err(()),
            }
        } else {
            Ok((None, i))
        };
        match tyr {
            Ok((var_type, q)) => {
                let vr: Result<(Option<Box<AstNodeV>>, int), ()> = if i <= q < t.len() && (kind_at(
                    t,
                    q,
                ) matches TokenTypeV::Equal) {
                    match sp_expression(t, q + 1) {
                        Ok((v, r0)) => Ok((Some(Box::new(v)), step_to(t, i, r0))),
                        Err(()) => Err(()),
                    }
                } else {
                    Ok((None, q))
                };
                match vr {
                    Ok((value, r)) => {
                        if r < t.len() && (kind_at(t, r) matches TokenTypeV::Semicolon) {
                            Ok(
                                (
                                    AstNodeV::VariableDecl { name, var_type, value, mutable },
                                    r + 1,
                                ),
                            )
                        } else {
                            Err(())
                        }
                    },
                    Err(()) => Err(()),
                }
            },
            Err(()) => Err(()),
        }
    }
}

/// A constant declaration after its `const`: a name, `:` type, `=`
/// initializer, and `;`.
#[verifier::opaque]
pub open spec fn sp_const_decl(t: Seq<TokenV>, i: int) -> Result<(AstNodeV, int), ()>
    decreases t.len() - i, 18int,
{
    if !(0 <= i < t.len()) {
        Err(())
    } else {
        match kind_at(t, i) {
            TokenTypeV::Identifier(name) => {
                if i + 1 < t.len() && (kind_at(t, i + 1) matches TokenTypeV::Colon) {
                    match sp_type(t, i + 2) {
                        Ok((const_type, j0)) => {
                            let j = step_to(t, i, j0);
                            if j < t.len() && (kind_at(t, j) matches TokenTypeV::Equal) {
                                match sp_expression(t, j + 1) {
                                    Ok((v, k0)) => {
                                        let k = step_to(t, i, k0);
                                        if k < t.len() && (kind_at(t, k)
                                            matches TokenTypeV::Semicolon) {
                                            Ok(
                                                (
                                                    AstNodeV::ConstDecl {
                                                        name,
                                                        const_type,
                                                        value: Box::new(v),
                                                    },
                                                    k + 1,
                                                ),
                                            )
                                        } else {
                                            Err(())
                                        }
                                    },
                                    Err(()) => Err(()),
                                }
                            } else {
                                Err(())
                            }
                        },
                        Err(()) => Err(()),
                    }
                } else {
                    Err(())
                }
            },
            _ => Err(()),
        }
    }
}

/// A return statement after its `return`: an optional value and `;`.
#[verifier::opaque]
pub open spec fn sp_return(t: Seq<TokenV>, i: int) -> Result<(AstNodeV, int), ()>
    decreases t.len() - i, 18int,
{
    if !(0 <= i < t.len()) {
        Err(())
    } else if (kind_at(t, i) matches TokenTypeV::Semicolon) {
        Ok((AstNodeV::Return { value: None }, i + 1))
    } else {
        match sp_expression(t, i) {
            Ok((v, j0)) => {
                let j = step_to(t, i, j0);
                if j < t.len() && (kind_at(t, j) matches TokenTypeV::Semicolon) {
                    Ok((AstNodeV::Return { value: Some(Box::new(v)) }, j + 1))
                } else {
                    Err(())
                }
            },
            Err(()) => Err(()),
        }
    }
}

/// An if statement after its `if`: a parenthesized condition, a braced
/// then-branch, and an optional braced else-branch.
#[verifier::opaque]
pub open spec fn sp_if(t: Seq<TokenV>, i: int) -> Result<(AstNodeV, int), ()>
    decreases t.len() - i, 18int,
{
    if !(0 <= i < t.len() && (kind_at(t, i) matches TokenTypeV::LeftParen)) {
        Err(())
    } else {
        match sp_expression(t, i + 1) {
            Ok((c, j0)) => {
                let j = step_to(t, i, j0);
                if j + 1 < t.len() && (kind_at(t, j) matches TokenTypeV::RightParen) && (kind_at(
                    t,
                    j + 1,
                ) matches TokenTypeV::LeftBrace) {
                    match sp_block(t, j + 2) {
                        Ok((thn, k0)) => {
                            let k = step_to(t, i, k0);
                            if k < t.len() && (kind_at(t, k) matches TokenTypeV::RightBrace) {
                                if k + 1 < t.len() && (kind_at(t, k + 1)
                                    matches TokenTypeV::Else) {
                                    if k + 2 < t.len() && (kind_at(t, k + 2)
                                        matches TokenTypeV::LeftBrace) {
                                        match sp_block(t, k + 3) {
                                            Ok((els, m0)) => {
                                                let m = step_to(t, i, m0);
                                                if m < t.len() && (kind_at(t, m)
                                                    matches TokenTypeV::RightBrace) {
                                                    Ok(
                                                        (
                                                            AstNodeV::If {
                                                                condition: Box::new(c),
                                                                then_branch: thn,
                                                                else_branch: Some(els),
                                                            },
                                                            m + 1,
                                                        ),
                                                    )
                                                } else {
                                                    Err(())
                                                }
                                            },
                                            Err(()) => Err(()),
                                        }
                                    } else {
                                        Err(())
                                    }
                                } else {
                                    Ok(
                                        (
                                            AstNodeV::If {
                                                condition: Box::new(c),
                                                then_branch: thn,
                                                else_branch: None,
                                            },
                                            k + 1,
                                        ),
                                    )
                                }
                            } else {
                                Err(())
                            }
                        },
                        Err(()) => Err(()),
                    }
                } else {
                    Err(())
                }
            },
            Err(()) => Err(()),
        }
    }
}

/// A while statement after its `while`: a parenthesized condition and a
/// braced body.
#[verifier::opaque]
pub open spec fn sp_while(t: Seq<TokenV>, i: int) -> Result<(AstNodeV, int), ()>
    decreases t.len() - i, 18int,
{
    if !(0 <= i < t.len() && (kind_at(t, i) matches TokenTypeV::LeftParen)) {
        Err(())
    } else {
        match sp_expression(t, i + 1) {
            Ok((c, j0)) => {
                let j = step_to(t, i, j0);
                if j + 1 < t.len() && (kind_at(t, j) matches TokenTypeV::RightParen) && (kind_at(
                    t,
                    j + 1,
                ) matches TokenTypeV::LeftBrace) {
                    match sp_block(t, j + 2) {
                        Ok((body, k0)) => {
                            let k = step_to(t, i, k0);
                            if k < t.len() && (kind_at(t, k) matches TokenTypeV::RightBrace) {
                                Ok((AstNodeV::While { condition: Box::new(c), body }, k + 1))
                            } else {
                                Err(())
                            }
                        },
                        Err(()) => Err(()),
                    }
                } else {
                    Err(())
                }
            },
            Err(()) => Err(()),
        }
    }
}

/// A for statement after its `for`: `(` name `in` start `..`|`...` end
/// `)` and a braced body; exactly three dots make the range inclusive,
/// exactly two exclusive.
#[verifier::opaque]
pub open spec fn sp_for(t: Seq<TokenV>, i: int) -> Result<(AstNodeV, int), ()>
    decreases t.len() - i, 18int,
{
    if !(0 <= i < t.len() && (kind_at(t, i) matches TokenTypeV::LeftParen) && i + 2 < t.len()) {
        Err(())
    } else {
        match (kind_at(t, i + 1), kind_at(t, i + 2)) {
            (TokenTypeV::Identifier(iterator), TokenTypeV::Identifier(kw)) => {
                if kw == "in"@ {
                    match sp_expression(t, i + 3) {
                        Ok((start, j0)) => {
                            let j = step_to(t, i, j0);
                            if j + 1 < t.len() && (kind_at(t, j) matches TokenTypeV::Dot)
                                && (kind_at(t, j + 1) matches TokenTypeV::Dot) {
                                let inclusive = j + 2 < t.len() && (kind_at(t, j + 2)
                                    matches TokenTypeV::Dot);
                                let p = if inclusive {
                                    j + 3
                                } else {
                                    j + 2
                                };
                                match sp_expression(t, p) {
                                    Ok((end, k0)) => {
                                        let k = step_to(t, i, k0);
                                        if k + 1 < t.len() && (kind_at(t, k)
                                            matches TokenTypeV::RightParen) && (kind_at(t, k + 1)
                                            matches TokenTypeV::LeftBrace) {
                                            match sp_block(t, k + 2) {
                                                Ok((body, m0)) => {
                                                    let m = step_to(t, i, m0);
                                                    if m < t.len() && (kind_at(t, m)
                                                        matches TokenTypeV::RightBrace) {
                                                        Ok(
                                                            (
                                                                AstNodeV::For {
                                                                    iterator,
                                                                    range_start: Box::new(start),
                                                                    range_end: Box::new(end),
                                                                    inclusive,
                                                                    body,
                                                                },
                                                                m + 1,
                                                            ),
                                                        )
                                                    } else {
                                                        Err(())
                                                    }
                                                },
                                                Err(()) => Err(()),
                                            }
                                        } else {
                                            Err(())
                                        }
                                    },
                                    Err(()) => Err(()),
                                }
                            } else {
                                Err(())
                            }
                        },
                        Err(()) => Err(()),
                    }
                } else {
                    Err(())
                }
            },
            _ => Err(()),
        }
    }
}

/// An unconditional loop after its `loop`: a braced body.
#[verifier::opaque]
pub open spec fn sp_loop(t: Seq<TokenV>, i: int) -> Result<(AstNodeV, int), ()>
    decreases t.len() - i, 18int,
{
    if !(0 <= i < t.len() && (kind_at(t, i) matches TokenTypeV::LeftBrace)) {
        Err(())
    } else {
        match sp_block(t, i + 1) {
            Ok((body, k0)) => {
                let k = step_to(t, i, k0);
                if k < t.len() && (kind_at(t, k) matches TokenTypeV::RightBrace) {
                    Ok((AstNodeV::Loop { body }, k + 1))
                } else {
                    Err(())
                }
            },
            Err(()) => Err(()),
        }
    }
}

/// One statement: a keyword statement, or an expression that becomes an
/// assignment exactly when it is a plain identifier followed by `=`.
#[verifier::opaque]
pub open spec fn sp_statement(t: Seq<TokenV>, i: int) -> Result<(AstNodeV, int), ()>
    decreases t.len() - i, 18int,
{
    if !(0 <= i < t.len()) {
        Err(())
    } else {
        match kind_at(t, i) {
            TokenTypeV::Let => sp_var_decl(t, i + 1),
            TokenTypeV::Const => sp_const_decl(t, i + 1),
            TokenTypeV::Return => sp_return(t, i + 1),
            TokenTypeV::If => sp_if(t, i + 1),
            TokenTypeV::While => sp_while(t, i + 1),
            TokenTypeV::For => sp_for(t, i + 1),
            TokenTypeV::Loop => sp_loop(t, i + 1),
            TokenTypeV::Break => {
                if i + 1 < t.len() && (kind_at(t, i + 1) matches TokenTypeV::Semicolon) {
                    Ok((AstNodeV::Break, i + 2))
                } else {
                    Err(())
                }
            },
            TokenTypeV::Continue => {
                if i + 1 < t.len() && (kind_at(t, i + 1) matches TokenTypeV::Semicolon) {
                    Ok((AstNodeV::Continue, i + 2))
                } else {
                    Err(())
                }
            },
            _ => match sp_expression(t, i) {
                Ok((e, j0)) => {
                    let j = step_to(t, i, j0);
                    if j < t.len() && (kind_at(t, j) matches TokenTypeV::Equal) {
                        match e {
                            AstNodeV::Identifier(target) => match sp_expression(t, j + 1) {
                                Ok((v, k0)) => {
                                    let k = step_to(t, i, k0);
                                    if k < t.len() && (kind_at(t, k)
                                        matches TokenTypeV::Semicolon) {
                                        Ok(
                                            (
                                                AstNodeV::Assignment {
                                                    target,
                                                    value: Box::new(v),
                                                },
                                                k + 1,
                                            ),
                                        )
                                    } else {
                                        Err(())
                                    }
                                },
                                Err(()) => Err(()),
                            },
                            _ => {
                                if j + 1 < t.len() && (kind_at(t, j + 1)
                                    matches TokenTypeV::Semicolon) {
                                    Ok((e, j + 2))
                                } else {
                                    Err(())
                                }
                            },
                        }
                    } else if j < t.len() && (kind_at(t, j) matches TokenTypeV::Semicolon) {
                        Ok((e, j + 1))
                    } else {
                        Err(())
                    }
                },
                Err(()) => Err(()),
            },
        }
    }
}

/// Statements until a closing brace or the end of input.
#[verifier::opaque]
pub open spec fn sp_block(t: Seq<TokenV>, i: int) -> Result<(Seq<AstNodeV>, int), ()>
    decreases t.len() - i, 19int,
{
    if !(0 <= i < t.len()) {
        Ok((Seq::empty(), i))
    } else if (kind_at(t, i) matches TokenTypeV::RightBrace) {
        Ok((Seq::empty(), i))
    } else if (kind_at(t, i) matches TokenTypeV::Eof) {
        Ok((Seq::empty(), i))
    } else {
        match sp_statement(t, i) {
            Ok((s, j0)) => match sp_block(t, step_to(t, i, j0)) {
                Ok((rest, k)) => Ok((seq![s] + rest, k)),
                Err(()) => Err(()),
            },
            Err(()) => Err(()),
        }
    }
}

/// A comma-separated parameter list, read until the closing parenthesis
/// (which the caller consumes).
#[verifier::opaque]
pub open spec fn sp_params(t: Seq<TokenV>, i: int, acc: Seq<(Seq<char>, Type)>) -> Result<
    (Seq<(Seq<char>, Type)>, int),
    (),
>
    decreases t.len() - i, 18int,
{
    if !(0 <= i < t.len()) {
        Err(())
    } else if (kind_at(t, i) matches TokenTypeV::RightParen) {
        Ok((acc, i))
    } else {
        match kind_at(t, i) {
            TokenTypeV::Identifier(name) => {
                if i + 1 < t.len() && (kind_at(t, i + 1) matches TokenTypeV::Colon) {
                    match sp_type(t, i + 2) {
                        Ok((ty, j0)) => {
                            let j = step_to(t, i, j0);
                            if j < t.len() && (kind_at(t, j) matches TokenTypeV::Comma) {
                                sp_params(t, j + 1, acc.push((name, ty)))
                            } else {
                                Ok((acc.push((name, ty)), j))
                            }
                        },
                        Err(()) => Err(()),
                    }
                } else {
                    Err(())
                }
            },
            _ => Err(()),
        }
    }
}

/// A function declaration after its `fn`: a name, a parenthesized
/// parameter list, an optional `->` return type, and a braced body.
#[verifier::opaque]
pub open spec fn sp_function(t: Seq<TokenV>, i: int) -> Result<(AstNodeV, int), ()>
    decreases t.len() - i, 20int,
{
    if !(0 <= i < t.len()) {
        Err(())
    } else {
        match kind_at(t, i) {
            TokenTypeV::Identifier(name) => {
                if i + 1 < t.len() && (kind_at(t, i + 1) matches TokenTypeV::LeftParen) {
                    match sp_params(t, i + 2, Seq::empty()) {
                        Ok((params, j0)) => {
                            let j = step_to(t, i, j0);
                            if j < t.len() && (kind_at(t, j) matches TokenTypeV::RightParen) {
                                let tyr: Result<(Option<Type>, int), ()> = if j + 1 < t.len()
                                    && (kind_at(t, j + 1) matches TokenTypeV::Arrow) {
                                    match sp_type(t, j + 2) {
                                        Ok((ty, q0)) => Ok((Some(ty), step_to(t, i, q0))),
                                        Err(()) => Err(()),
                                    }
                                } else {
                                    Ok((None, j + 1))
                                };
                                match tyr {
                                    Ok((return_type, q)) => {
                                        if i < q < t.len() && (kind_at(t, q)
                                            matches TokenTypeV::LeftBrace) {
                                            match sp_block(t, q + 1) {
                                                Ok((body, k0)) => {
                                                    let k = step_to(t, i, k0);
                                                    if k < t.len() && (kind_at(t, k)
                                                        matches TokenTypeV::RightBrace) {
                                                        Ok(
                                                            (
                                                                AstNodeV::Function {
                                                                    name,
                                                                    params,
                                                                    return_type,
                                                                    body,
                                                                },
                                                                k + 1,
                                                            ),
                                                        )
                                                    } else {
                                                        Err(())
                                                    }
                                                },
                                                Err(()) => Err(()),
                                            }
                                        } else {
                                            Err(())
                                        }
                                    },
                                    Err(()) => Err(()),
                                }
                            } else {
                                Err(())
                            }
                        },
                        Err(()) => Err(()),
                    }
                } else {
                    Err(())
                }
            },
            _ => Err(()),
        }
    }
}

/// The optional leading module declaration; absent, the unit is named
/// `main`.
#[verifier::opaque]
pub open spec fn sp_module_decl(t: Seq<TokenV>, i: int) -> Result<(Seq<char>, int), ()> {
    if 0 <= i < t.len() && (kind_at(t, i) matches TokenTypeV::Module) {
        if i + 1 < t.len() {
            match kind_at(t, i + 1) {
                TokenTypeV::Identifier(name) => {
                    if i + 2 < t.len() && (kind_at(t, i + 2) matches TokenTypeV::Semicolon) {
                        Ok((name, i + 3))
                    } else {
                        Err(())
                    }
                },
                _ => Err(()),
            }
        } else {
            Err(())
        }
    } else {
        Ok(("main"@, i))
    }
}

/// Top-level items until the end of input: functions kept in order,
/// imports consumed up to their semicolon without effect, anything else
/// rejected.
#[verifier::opaque]
pub open spec fn sp_items(t: Seq<TokenV>, i: int) -> Result<(Seq<AstNodeV>, int), ()>
    decreases t.len() - i, 21int,
{
    if !(0 <= i < t.len()) {
        Ok((Seq::empty(), i))
    } else if (kind_at(t, i) matches TokenTypeV::Eof) {
        Ok((Seq::empty(), i))
    } else if (kind_at(t, i) matches TokenTypeV::Import) {
        sp_items(t, step_to(t, i, sp_import_end(t, i + 1)))
    } else if (kind_at(t, i) matches TokenTypeV::Fn) {
        match sp_function(t, i + 1) {
            Ok((f, j0)) => match sp_items(t, step_to(t, i, j0)) {
                Ok((items, k)) => Ok((seq![f] + items, k)),
                Err(()) => Err(()),
            },
            Err(()) => Err(()),
        }
    } else {
        Err(())
    }
}

/// The whole parse: an optional module declaration, then top-level items
/// to the end of input.  This is the mirror [`Parser::parse`] is held
/// to.
#[verifier::opaque]
pub open spec fn spec_parse(t: Seq<TokenV>) -> Result<AstNodeV, ()> {
    match sp_module_decl(t, 0) {
        Ok((name, i)) => match sp_items(t, i) {
            Ok((items, _)) => Ok(AstNodeV::Module { name, items }),
            Err(()) => Err(()),
        },
        Err(()) => Err(()),
    }
}

/// The recursive-descent parser: the token sequence and a cursor into it.
pub struct Parser {
    tokens: Vec<Token>,
    current: usize,
}

impl Parser {
    /// The tokens as the specification sees them.
    pub closed spec fn input(&self) -> Seq<TokenV> {
        self.tokens@.map_values(|t: Token| t@)
    }

    /// The cursor position.
    pub closed spec fn pos(&self) -> int {
        self.current as int
    }

    /// The token under the cursor.
    pub closed spec fn cur(&self) -> TokenV {
        self.tokens@[self.current as int]@
    }

    /// The token sequence is non-empty, ends with the end-of-input token,
    /// and the cursor never leaves it.
    pub closed spec fn wf(&self) -> bool {
        &&& self.tokens@.len() >= 1
        &&& self.tokens@.last()@.kind matches TokenTypeV::Eof
        &&& self.current < self.tokens@.len()
    }

    /// A parser over `tokens`, which must end with the end-of-input token
    /// that the lexer always appends.
    pub fn new(tokens: Vec<Token>) -> (r: Parser)
        requires
            tokens@.len() >= 1,
            tokens@.last()@.kind matches TokenTypeV::Eof,
        ensures
            r.wf(),
            r.pos() == 0,
            r.input() == tokens@.map_values(|t: Token| t@),
    {
        Parser { tokens, current: 0 }
    }

    fn current_token(&self) -> (r: &Token)
        requires
            self.wf(),
        ensures
            *r == self.tokens@[self.pos()],
            r@ == self.cur(),
    {
        &self.tokens[self.current]
    }

    fn is_at_end(&self) -> (r: bool)
        requires
            self.wf(),
        ensures
            r == (self.cur().kind matches TokenTypeV::Eof),
    {
        matches!(self.current_token().token_type, TokenType::Eof)
    }

    fn advance(&mut self)
        requires
            old(self).wf(),
        ensures
            final(self).wf(),
            final(self).input() == old(self).input(),
            (old(self).cur().kind matches TokenTypeV::Eof) ==> final(self).pos() == old(
                self,
            ).pos(),
            !(old(self).cur().kind matches TokenTypeV::Eof) ==> final(self).pos() == old(
                self,
            ).pos() + 1,
    {
        if !self.is_at_end() {
            let n = self.tokens.len();
            proof {
                assert(self.tokens@.last()@.kind matches TokenTypeV::Eof);
                assert(self.current < n - 1);
            }
            self.current = self.current + 1;
        }
    }

    fn check(&self, token_type: &TokenType) -> (r: bool)
        requires
            self.wf(),
        ensures
            r == (!(self.cur().kind matches TokenTypeV::Eof) && tt_tag(self.cur().kind) == tt_tag(
                token_type@,
            )),
    {
        if self.is_at_end() {
            return false;
        }
        tag_of(&self.current_token().token_type) == tag_of(token_type)
    }

    fn match_token(&mut self, token_type: &TokenType) -> (r: bool)
        requires
            old(self).wf(),
        ensures
            final(self).wf(),
            final(self).input() == old(self).input(),
            r == (!(old(self).cur().kind matches TokenTypeV::Eof) && tt_tag(old(self).cur().kind)
                == tt_tag(token_type@)),
            r ==> final(self).pos() == old(self).pos() + 1,
            !r ==> final(self).pos() == old(self).pos() && final(self).cur() == old(self).cur(),
    {
        if self.check(token_type) {
            self.advance();
            true
        } else {
            false
        }
    }

    fn expect_token(&mut self, token_type: &TokenType) -> (r: Result<(), CompilerError>)
        requires
            old(self).wf(),
        ensures
            final(self).wf(),
            final(self).input() == old(self).input(),
            r matches Ok(()) ==> final(self).pos() == old(self).pos() + 1 && !(old(
                self,
            ).cur().kind matches TokenTypeV::Eof) && tt_tag(old(self).cur().kind) == tt_tag(
                token_type@,
            ),
            r matches Err(e) ==> (e matches CompilerError::ParseError(_)) && final(self).pos()
                == old(self).pos() && ((old(self).cur().kind matches TokenTypeV::Eof) || tt_tag(
                old(self).cur().kind,
            ) != tt_tag(token_type@)),
    {
        if self.check(token_type) {
            self.advance();
            Ok(())
        } else {
            Err(self.parse_error_here("Unexpected token"))
        }
    }

    /// A parse error naming the line and column of the current token.
    fn parse_error_here(&self, what: &str) -> (r: CompilerError)
        requires
            self.wf(),
        ensures
            r matches CompilerError::ParseError(_),
    {
        let t = self.current_token();
        let mut msg = String::from_str(what);
        msg.append(" at line ");
        let ls = usize_to_string(t.line);
        msg.append(ls.as_str());
        msg.append(", column ");
        let cs = usize_to_string(t.column);
        msg.append(cs.as_str());
        CompilerError::ParseError(msg)
    }

    /// Parses the whole token sequence into a module: an optional leading
    /// module declaration (the module is named "main" when absent), then
    /// top-level items until the end of input.  The result is exactly
    /// what the mirror [`spec_parse`] describes: on success a module
    /// holding only function declarations, every token consumed, and the
    /// tree pinned node for node; rejection exactly when the mirror
    /// rejects.
    #[verifier::rlimit(100)]
    #[verifier::spinoff_prover]
    pub fn parse(&mut self) -> (r: Result<AstNode, CompilerError>)
        requires
            old(self).wf(),
        ensures
            final(self).wf(),
            r matches Ok(ast) ==> module_wf(ast) && (final(self).cur().kind
                matches TokenTypeV::Eof),
            r matches Err(e) ==> (e matches CompilerError::ParseError(_)),
            ({
                let t = old(self).input();
                let m = match sp_module_decl(t, old(self).pos()) {
                    Ok((name, i1)) => match sp_items(t, i1) {
                        Ok((itemsv, _)) => Ok::<AstNodeV, ()>(
                            AstNodeV::Module { name, items: itemsv },
                        ),
                        Err(()) => Err::<AstNodeV, ()>(()),
                    },
                    Err(()) => Err::<AstNodeV, ()>(()),
                };
                match m {
                    Ok(astv) => r matches Ok(ast) && ast_view(ast) == astv,
                    Err(()) => r is Err,
                }
            }),
            old(self).pos() == 0 ==> (match spec_parse(old(self).input()) {
                Ok(astv) => r matches Ok(ast) && ast_view(ast) == astv,
                Err(()) => r is Err,
            }),
    {
        proof {
            reveal(spec_parse);
            reveal(sp_items);
        }
        let ghost t = self.input();
        let ghost p0 = self.pos();
        let mut items: Vec<AstNode> = Vec::new();
        let module_name = match self.parse_module_declaration() {
            Ok(n) => n,
            Err(e) => {
                return Err(e);
            },
        };
        let ghost i1 = self.pos();
        proof {
            assert(asts_view(items, 0) =~= Seq::<AstNodeV>::empty());
            match sp_items(t, i1) {
                Ok(q) => {
                    assert(Seq::<AstNodeV>::empty() + q.0 =~= q.0);
                },
                Err(()) => {},
            }
        }
        loop
            invariant_except_break
                (match (sp_items(t, i1), sp_items(t, self.pos())) {
                    (Ok(p), Ok(q)) => p.0 == asts_view(items, 0) + q.0 && p.1 == q.1,
                    (Err(()), Err(())) => true,
                    _ => false,
                }),
            invariant
                self.wf(),
                self.input() == t,
                t == old(self).input(),
                p0 == old(self).pos(),
                sp_module_decl(t, p0) == Ok::<(Seq<char>, int), ()>((module_name@, i1)),
                i1 <= self.pos(),
                forall|i: int| 0 <= i < items@.len() ==> is_function_item(#[trigger] items@[i]),
            ensures
                sp_items(t, i1) matches Ok(p) && p.0 == asts_view(items, 0),
                self.cur().kind matches TokenTypeV::Eof,
                forall|i: int| 0 <= i < items@.len() ==> is_function_item(#[trigger] items@[i]),
            decreases self.input().len() - self.pos(),
        {
            proof {
                reveal(spec_parse);
                reveal(sp_items);
            }
            let ghost pos_a = self.pos();
            proof {
                assert(kind_at(t, pos_a) == self.cur().kind);
            }
            if self.is_at_end() {
                proof {
                    match sp_items(t, pos_a) {
                        Ok(q) => {
                            assert(asts_view(items, 0) + q.0 =~= asts_view(items, 0));
                        },
                        Err(()) => {},
                    }
                }
                break ;
            }
            let ghost items_pre = items;
            match self.parse_top_level() {
                Ok(Some(item)) => {
                    let ghost fv = ast_view(item);
                    items.push(item);
                    proof {
                        lemma_asts_view_push(items_pre, items, items@.last(), 0);
                        match sp_items(t, self.pos()) {
                            Ok(q) => {
                                assert(asts_view(items_pre, 0) + (seq![fv] + q.0) =~= asts_view(
                                    items,
                                    0,
                                ) + q.0);
                            },
                            Err(()) => {},
                        }
                    }
                },
                Ok(None) => {},
                Err(e) => {
                    return Err(e);
                },
            }
        }
        Ok(AstNode::Module { name: module_name, items })
    }

    fn parse_module_declaration(&mut self) -> (r: Result<String, CompilerError>)
        requires
            old(self).wf(),
        ensures
            final(self).wf(),
            final(self).input() == old(self).input(),
            old(self).pos() <= final(self).pos(),
            r matches Err(e) ==> (e matches CompilerError::ParseError(_)),
            ({
                let m = sp_module_decl(old(self).input(), old(self).pos());
                match m {
                    Ok(p) => r matches Ok(name) && name@ == p.0 && final(self).pos() == p.1,
                    Err(()) => r is Err,
                }
            }),
        decreases self.input().len() - self.pos(), 14int,
    {
        proof {
            reveal(sp_module_decl);
        }
        let ghost t = self.input();
        let ghost p0 = self.pos();
        proof {
            assert(kind_at(t, p0) == self.cur().kind);
        }
        if self.match_token(&TokenType::Module) {
            proof {
                assert(kind_at(t, p0 + 1) == self.cur().kind);
            }
            let name_opt: Option<String> = match &self.current_token().token_type {
                TokenType::Identifier(n) => Some(n.clone()),
                _ => None,
            };
            match name_opt {
                Some(name) => {
                    self.advance();
                    proof {
                        assert(kind_at(t, p0 + 2) == self.cur().kind);
                    }
                    match self.expect_token(&TokenType::Semicolon) {
                        Ok(()) => Ok(name),
                        Err(e) => Err(e),
                    }
                },
                None => Err(self.parse_error_here("Expected module name")),
            }
        } else {
            let name = String::from_str("main");
            proof {
                assert(name@ == "main"@);
            }
            Ok(name)
        }
    }

    fn parse_top_level(&mut self) -> (r: Result<Option<AstNode>, CompilerError>)
        requires
            old(self).wf(),
        ensures
            final(self).wf(),
            final(self).input() == old(self).input(),
            old(self).pos() <= final(self).pos(),
            r matches Ok(it) ==> old(self).pos() < final(self).pos() && (it matches Some(n) ==>
                is_function_item(n)),
            r matches Err(e) ==> (e matches CompilerError::ParseError(_)),
            ({
                let t = old(self).input();
                let i = old(self).pos();
                0 <= i < t.len() ==> match kind_at(t, i) {
                    TokenTypeV::Import => r matches Ok(it) && it is None && final(self).pos()
                        == step_to(t, i, sp_import_end(t, i + 1)),
                    TokenTypeV::Fn => (match sp_function(t, i + 1) {
                        Ok(p) => r matches Ok(it) && (it matches Some(n) && ast_view(n) == p.0)
                            && final(self).pos() == step_to(t, i, p.1),
                        Err(()) => r is Err,
                    }),
                    TokenTypeV::Eof => r is Err,
                    _ => r is Err,
                }
            }),
        decreases self.input().len() - self.pos(), 14int,
    {
        let ghost t = self.input();
        let ghost p0 = self.pos();
        proof {
            assert(kind_at(t, p0) == self.cur().kind);
        }
        if self.match_token(&TokenType::Import) {
            match self.parse_import() {
                Ok(()) => {
                    proof {
                        assert(step_to(t, p0, sp_import_end(t, p0 + 1)) == self.pos());
                    }
                    Ok(None)
                },
                Err(e) => Err(e),
            }
        } else if self.match_token(&TokenType::Fn) {
            match self.parse_function() {
                Ok(f) => {
                    proof {
                        assert(step_to(t, p0, self.pos()) == self.pos());
                    }
                    Ok(Some(f))
                },
                Err(e) => Err(e),
            }
        } else {
            Err(self.parse_error_here("Unexpected token at top level"))
        }
    }

    /// Skips an import statement up to and including its semicolon; it
    /// has no semantic effect.
    fn parse_import(&mut self) -> (r: Result<(), CompilerError>)
        requires
            old(self).wf(),
        ensures
            final(self).wf(),
            final(self).input() == old(self).input(),
            old(self).pos() <= final(self).pos(),
            r is Ok,
            final(self).pos() == sp_import_end(old(self).input(), old(self).pos()),
        decreases self.input().len() - self.pos(), 13int,
    {
        proof {
            reveal(sp_import_end);
        }
        let ghost t = self.input();
        let ghost p0 = self.pos();
        loop
            invariant_except_break
                sp_import_end(t, p0) == sp_import_end(t, self.pos()),
            invariant
                self.wf(),
                self.input() == t,
                t == old(self).input(),
                p0 == old(self).pos(),
                old(self).pos() <= self.pos(),
            ensures
                sp_import_end(t, p0) == self.pos(),
            decreases self.input().len() - self.pos(),
        {
            proof {
                reveal(sp_import_end);
            }
            let ghost pos_a = self.pos();
            proof {
                assert(kind_at(t, pos_a) == self.cur().kind);
            }
            if self.is_at_end() {
                break ;
            }
            if self.match_token(&TokenType::Semicolon) {
                break ;
            }
            self.advance();
        }
        Ok(())
    }

    #[verifier::rlimit(100)]
    #[verifier::spinoff_prover]
    fn parse_function(&mut self) -> (r: Result<AstNode, CompilerError>)
        requires
            old(self).wf(),
        ensures
            final(self).wf(),
            final(self).input() == old(self).input(),
            old(self).pos() <= final(self).pos(),
            r matches Ok(n) ==> is_function_item(n),
            r matches Err(e) ==> (e matches CompilerError::ParseError(_)),
            ({
                let m = sp_function(old(self).input(), old(self).pos());
                match m {
                    Ok(p) => r matches Ok(n) && ast_view(n) == p.0 && final(self).pos() == p.1,
                    Err(()) => r is Err,
                }
            }),
        decreases self.input().len() - self.pos(), 13int,
    {
        proof {
            reveal(sp_function);
            reveal(sp_params);
        }
        let ghost t = self.input();
        let ghost p0 = self.pos();
        proof {
            assert(kind_at(t, p0) == self.cur().kind);
        }
        let name_opt: Option<String> = match &self.current_token().token_type {
            TokenType::Identifier(n) => Some(n.clone()),
            _ => None,
        };
        let name = match name_opt {
            Some(n) => n,
            None => {
                return Err(self.parse_error_here("Expected function name"));
            },
        };
        self.advance();
        proof {
            assert(kind_at(t, p0 + 1) == self.cur().kind);
        }

        match self.expect_token(&TokenType::LeftParen) {
            Ok(()) => {},
            Err(e) => {
                return Err(e);
            },
        }

        let ghost a0 = self.pos();
        let mut params: Vec<(String, Type)> = Vec::new();
        proof {
            assert(params_view(params, 0) =~= Seq::<(Seq<char>, Type)>::empty());
        }
        loop
            invariant_except_break
                sp_params(t, a0, Seq::empty()) == sp_params(t, self.pos(), params_view(params, 0)),
            invariant
                self.wf(),
                self.input() == t,
                t == old(self).input(),
                p0 == old(self).pos(),
                0 <= p0,
                p0 + 1 < t.len(),
                kind_at(t, p0) == TokenTypeV::Identifier(name@),
                kind_at(t, p0 + 1) matches TokenTypeV::LeftParen,
                a0 == p0 + 2,
                old(self).pos() < self.pos(),
                a0 <= self.pos(),
            ensures
                sp_params(t, a0, Seq::empty()) == Ok::<(Seq<(Seq<char>, Type)>, int), ()>(
                    (params_view(params, 0), self.pos() as int),
                ),
            decreases self.input().len() - self.pos(),
        {
            proof {
                reveal(sp_function);
                reveal(sp_params);
            }
            let ghost pos_a = self.pos();
            proof {
                assert(kind_at(t, pos_a) == self.cur().kind);
            }
            if self.check(&TokenType::RightParen) {
                break ;
            }
            let param_opt: Option<String> = match &self.current_token().token_type {
                TokenType::Identifier(n) => Some(n.clone()),
                _ => None,
            };
            let param_name = match param_opt {
                Some(n) => n,
                None => {
                    return Err(self.parse_error_here("Expected parameter name"));
                },
            };
            self.advance();
            proof {
                assert(kind_at(t, pos_a + 1) == self.cur().kind);
            }
            match self.expect_token(&TokenType::Colon) {
                Ok(()) => {},
                Err(e) => {
                    return Err(e);
                },
            }
            let param_type = match self.parse_type() {
                Ok(ty0) => ty0,
                Err(e) => {
                    return Err(e);
                },
            };
            let ghost params_pre = params;
            params.push((param_name, param_type));
            proof {
                lemma_params_view_push(params_pre, params, params@.last(), 0);
                assert(step_to(t, pos_a, self.pos()) == self.pos());
                assert(kind_at(t, self.pos()) == self.cur().kind);
            }
            if !self.match_token(&TokenType::Comma) {
                break ;
            }
        }

        proof {
            assert(kind_at(t, self.pos()) == self.cur().kind);
        }
        match self.expect_token(&TokenType::RightParen) {
            Ok(()) => {},
            Err(e) => {
                return Err(e);
            },
        }
        let ghost j = self.pos() - 1;
        proof {
            assert(step_to(t, p0, j) == j);
            assert(kind_at(t, j + 1) == self.cur().kind);
        }

        let return_type: Option<Type>;
        if self.match_token(&TokenType::Arrow) {
            match self.parse_type() {
                Ok(ty0) => {
                    return_type = Some(ty0);
                },
                Err(e) => {
                    return Err(e);
                },
            }
            proof {
                assert(step_to(t, p0, self.pos()) == self.pos());
            }
        } else {
            return_type = None;
        }
        let ghost q = self.pos();
        proof {
            assert(kind_at(t, q) == self.cur().kind);
        }

        match self.expect_token(&TokenType::LeftBrace) {
            Ok(()) => {},
            Err(e) => {
                return Err(e);
            },
        }

        let body = match self.parse_block() {
            Ok(b) => b,
            Err(e) => {
                return Err(e);
            },
        };
        proof {
            assert(step_to(t, p0, self.pos()) == self.pos());
            assert(kind_at(t, self.pos()) == self.cur().kind);
        }

        match self.expect_token(&TokenType::RightBrace) {
            Ok(()) => {},
            Err(e) => {
                return Err(e);
            },
        }

        Ok(AstNode::Function { name, params, return_type, body })
    }

    /// Parses statements until a closing brace or the end of input.
    #[verifier::rlimit(100)]
    #[verifier::spinoff_prover]
    fn parse_block(&mut self) -> (r: Result<Vec<AstNode>, CompilerError>)
        requires
            old(self).wf(),
        ensures
            final(self).wf(),
            final(self).input() == old(self).input(),
            old(self).pos() <= final(self).pos(),
            r matches Err(e) ==> (e matches CompilerError::ParseError(_)),
            ({
                let m = sp_block(old(self).input(), old(self).pos());
                match m {
                    Ok(p) => r matches Ok(v) && asts_view(v, 0) == p.0 && final(self).pos()
                        == p.1,
                    Err(()) => r is Err,
                }
            }),
        decreases self.input().len() - self.pos(), 12int,
    {
        let ghost t = self.input();
        let ghost p0 = self.pos();
        let mut statements: Vec<AstNode> = Vec::new();
        proof {
            assert(asts_view(statements, 0) =~= Seq::<AstNodeV>::empty());
            match sp_block(t, p0) {
                Ok(q) => {
                    assert(Seq::<AstNodeV>::empty() + q.0 =~= q.0);
                },
                Err(()) => {},
            }
        }
        loop
            invariant_except_break
                (match (sp_block(t, p0), sp_block(t, self.pos())) {
                    (Ok(p), Ok(q)) => p.0 == asts_view(statements, 0) + q.0 && p.1 == q.1,
                    (Err(()), Err(())) => true,
                    _ => false,
                }),
            invariant
                self.wf(),
                self.input() == t,
                t == old(self).input(),
                p0 == old(self).pos(),
                old(self).pos() <= self.pos(),
            ensures
                sp_block(t, p0) == Ok::<(Seq<AstNodeV>, int), ()>(
                    (asts_view(statements, 0), self.pos() as int),
                ),
            decreases self.input().len() - self.pos(),
        {
            proof {
                reveal(sp_block);
            }
            let ghost pos_a = self.pos();
            proof {
                assert(kind_at(t, pos_a) == self.cur().kind);
            }
            if self.check(&TokenType::RightBrace) {
                proof {
                    match sp_block(t, pos_a) {
                        Ok(q) => {
                            assert(asts_view(statements, 0) + q.0 =~= asts_view(statements, 0));
                        },
                        Err(()) => {},
                    }
                }
                break ;
            }
            if self.is_at_end() {
                proof {
                    match sp_block(t, pos_a) {
                        Ok(q) => {
                            assert(asts_view(statements, 0) + q.0 =~= asts_view(statements, 0));
                        },
                        Err(()) => {},
                    }
                }
                break ;
            }
            let ghost stmts_pre = statements;
            match self.parse_statement() {
                Ok(s) => {
                    let ghost sv = ast_view(s);
                    statements.push(s);
                    proof {
                        lemma_asts_view_push(stmts_pre, statements, statements@.last(), 0);
                        assert(step_to(t, pos_a, self.pos()) == self.pos());
                        match sp_block(t, self.pos()) {
                            Ok(q) => {
                                assert(asts_view(stmts_pre, 0) + (seq![sv] + q.0) =~= asts_view(
                                    statements,
                                    0,
                                ) + q.0);
                            },
                            Err(()) => {},
                        }
                    }
                },
                Err(e) => {
                    return Err(e);
                },
            }
        }
        Ok(statements)
    }

    #[verifier::rlimit(100)]
    #[verifier::spinoff_prover]
    fn parse_statement(&mut self) -> (r: Result<AstNode, CompilerError>)
        requires
            old(self).wf(),
        ensures
            final(self).wf(),
            final(self).input() == old(self).input(),
            old(self).pos() <= final(self).pos(),
            r matches Ok(_) ==> old(self).pos() < final(self).pos(),
            r matches Err(e) ==> (e matches CompilerError::ParseError(_)),
            ({
                let m = sp_statement(old(self).input(), old(self).pos());
                match m {
                    Ok(p) => r matches Ok(n) && ast_view(n) == p.0 && final(self).pos() == p.1,
                    Err(()) => r is Err,
                }
            }),
        decreases self.input().len() - self.pos(), 11int,
    {
        proof {
            reveal(sp_statement);
        }
        let ghost t = self.input();
        let ghost p0 = self.pos();
        proof {
            assert(kind_at(t, p0) == self.cur().kind);
        }
        if self.match_token(&TokenType::Let) {
            return self.parse_variable_decl();
        }
        if self.match_token(&TokenType::Const) {
            return self.parse_const_decl();
        }
        if self.match_token(&TokenType::Return) {
            return self.parse_return();
        }
        if self.match_token(&TokenType::If) {
            return self.parse_if();
        }
        if self.match_token(&TokenType::While) {
            return self.parse_while();
        }
        if self.match_token(&TokenType::For) {
            return self.parse_for();
        }
        if self.match_token(&TokenType::Loop) {
            return self.parse_loop();
        }
        if self.match_token(&TokenType::Break) {
            match self.expect_token(&TokenType::Semicolon) {
                Ok(()) => {
                    return Ok(AstNode::Break);
                },
                Err(e) => {
                    return Err(e);
                },
            }
        }
        if self.match_token(&TokenType::Continue) {
            match self.expect_token(&TokenType::Semicolon) {
                Ok(()) => {
                    return Ok(AstNode::Continue);
                },
                Err(e) => {
                    return Err(e);
                },
            }
        }

        let expr = match self.parse_expression() {
            Ok(x) => x,
            Err(e) => {
                return Err(e);
            },
        };
            proof {
                assert(step_to(t, p0, self.pos()) == self.pos());
                assert(kind_at(t, self.pos()) == self.cur().kind);
            }

        if self.match_token(&TokenType::Equal) {
            if let AstNode::Identifier(name) = expr {
                let value = match self.parse_expression() {
                    Ok(v) => v,
                    Err(e) => {
                        return Err(e);
                    },
                };
                match self.expect_token(&TokenType::Semicolon) {
                    Ok(()) => {
                        return Ok(AstNode::Assignment { target: name, value: Box::new(value) });
                    },
                    Err(e) => {
                        return Err(e);
                    },
                }
            } else {
                match self.expect_token(&TokenType::Semicolon) {
                    Ok(()) => {
                        return Ok(expr);
                    },
                    Err(e) => {
                        return Err(e);
                    },
                }
            }
        }

        match self.expect_token(&TokenType::Semicolon) {
            Ok(()) => Ok(expr),
            Err(e) => Err(e),
        }
    }

    #[verifier::rlimit(100)]
    #[verifier::spinoff_prover]
    fn parse_variable_decl(&mut self) -> (r: Result<AstNode, CompilerError>)
        requires
            old(self).wf(),
        ensures
            final(self).wf(),
            final(self).input() == old(self).input(),
            old(self).pos() <= final(self).pos(),
            r matches Err(e) ==> (e matches CompilerError::ParseError(_)),
            ({
                let m = sp_var_decl(old(self).input(), old(self).pos());
                match m {
                    Ok(p) => r matches Ok(n) && ast_view(n) == p.0 && final(self).pos() == p.1,
                    Err(()) => r is Err,
                }
            }),
        decreases self.input().len() - self.pos(), 12int,
    {
        proof {
            reveal(sp_var_decl);
            reveal(sp_var_decl_tail);
        }
        let ghost t = self.input();
        let ghost p0 = self.pos();
        proof {
            assert(kind_at(t, p0) == self.cur().kind);
        }
        let mutable = self.match_token(&TokenType::Mut);

        let name_opt: Option<String> = match &self.current_token().token_type {
            TokenType::Identifier(n) => Some(n.clone()),
            _ => None,
        };
        let name = match name_opt {
            Some(n) => n,
            None => {
                return Err(self.parse_error_here("Expected variable name"));
            },
        };
        self.advance();
            proof {
                assert(kind_at(t, self.pos()) == self.cur().kind);
            }

        let var_type: Option<Type>;
        if self.match_token(&TokenType::Colon) {
            match self.parse_type() {
                Ok(t) => {
                    var_type = Some(t);
                },
                Err(e) => {
                    return Err(e);
                },
            }
        } else {
            var_type = None;
        }

        let value: Option<Box<AstNode>>;
        if self.match_token(&TokenType::Equal) {
            match self.parse_expression() {
                Ok(v) => {
                    value = Some(Box::new(v));
                },
                Err(e) => {
                    return Err(e);
                },
            }
        } else {
            value = None;
        }

        match self.expect_token(&TokenType::Semicolon) {
            Ok(()) => Ok(AstNode::VariableDecl { name, var_type, value, mutable }),
            Err(e) => Err(e),
        }
    }

    #[verifier::rlimit(100)]
    #[verifier::spinoff_prover]
    fn parse_const_decl(&mut self) -> (r: Result<AstNode, CompilerError>)
        requires
            old(self).wf(),
        ensures
            final(self).wf(),
            final(self).input() == old(self).input(),
            old(self).pos() <= final(self).pos(),
            r matches Err(e) ==> (e matches CompilerError::ParseError(_)),
            ({
                let m = sp_const_decl(old(self).input(), old(self).pos());
                match m {
                    Ok(p) => r matches Ok(n) && ast_view(n) == p.0 && final(self).pos() == p.1,
                    Err(()) => r is Err,
                }
            }),
        decreases self.input().len() - self.pos(), 12int,
    {
        proof {
            reveal(sp_const_decl);
        }
        let ghost t = self.input();
        let ghost p0 = self.pos();
        proof {
            assert(kind_at(t, p0) == self.cur().kind);
        }
        let name_opt: Option<String> = match &self.current_token().token_type {
            TokenType::Identifier(n) => Some(n.clone()),
            _ => None,
        };
        let name = match name_opt {
            Some(n) => n,
            None => {
                return Err(self.parse_error_here("Expected constant name"));
            },
        };
        self.advance();
            proof {
                assert(kind_at(t, self.pos()) == self.cur().kind);
            }

        match self.expect_token(&TokenType::Colon) {
            Ok(()) => {},
            Err(e) => {
                return Err(e);
            },
        }
            proof {
                assert(kind_at(t, self.pos()) == self.cur().kind);
            }
        let const_type = match self.parse_type() {
            Ok(t) => t,
            Err(e) => {
                return Err(e);
            },
        };
            proof {
                assert(step_to(t, p0, self.pos()) == self.pos());
                assert(kind_at(t, self.pos()) == self.cur().kind);
            }
        match self.expect_token(&TokenType::Equal) {
            Ok(()) => {},
            Err(e) => {
                return Err(e);
            },
        }
            proof {
                assert(kind_at(t, self.pos()) == self.cur().kind);
            }
        let value = match self.parse_expression() {
            Ok(v) => Box::new(v),
            Err(e) => {
                return Err(e);
            },
        };
            proof {
                assert(step_to(t, p0, self.pos()) == self.pos());
                assert(kind_at(t, self.pos()) == self.cur().kind);
            }
        match self.expect_token(&TokenType::Semicolon) {
            Ok(()) => Ok(AstNode::ConstDecl { name, const_type, value }),
            Err(e) => Err(e),
        }
    }

    #[verifier::rlimit(100)]
    #[verifier::spinoff_prover]
    fn parse_return(&mut self) -> (r: Result<AstNode, CompilerError>)
        requires
            old(self).wf(),
        ensures
            final(self).wf(),
            final(self).input() == old(self).input(),
            old(self).pos() <= final(self).pos(),
            r matches Err(e) ==> (e matches CompilerError::ParseError(_)),
            ({
                let m = sp_return(old(self).input(), old(self).pos());
                match m {
                    Ok(p) => r matches Ok(n) && ast_view(n) == p.0 && final(self).pos() == p.1,
                    Err(()) => r is Err,
                }
            }),
        decreases self.input().len() - self.pos(), 12int,
    {
        proof {
            reveal(sp_return);
        }
        let ghost t = self.input();
        let ghost p0 = self.pos();
        proof {
            assert(kind_at(t, p0) == self.cur().kind);
        }
        let value: Option<Box<AstNode>>;
        if !self.check(&TokenType::Semicolon) {
            match self.parse_expression() {
                Ok(v) => {
                    value = Some(Box::new(v));
                },
                Err(e) => {
                    return Err(e);
                },
            }
        } else {
            value = None;
        }
        match self.expect_token(&TokenType::Semicolon) {
            Ok(()) => Ok(AstNode::Return { value }),
            Err(e) => Err(e),
        }
    }

    #[verifier::rlimit(100)]
    #[verifier::spinoff_prover]
    fn parse_if(&mut self) -> (r: Result<AstNode, CompilerError>)
        requires
            old(self).wf(),
        ensures
            final(self).wf(),
            final(self).input() == old(self).input(),
            old(self).pos() <= final(self).pos(),
            r matches Err(e) ==> (e matches CompilerError::ParseError(_)),
            ({
                let m = sp_if(old(self).input(), old(self).pos());
                match m {
                    Ok(p) => r matches Ok(n) && ast_view(n) == p.0 && final(self).pos() == p.1,
                    Err(()) => r is Err,
                }
            }),
        decreases self.input().len() - self.pos(), 12int,
    {
        proof {
            reveal(sp_if);
        }
        let ghost t = self.input();
        let ghost p0 = self.pos();
        proof {
            assert(kind_at(t, p0) == self.cur().kind);
        }
        match self.expect_token(&TokenType::LeftParen) {
            Ok(()) => {},
            Err(e) => {
                return Err(e);
            },
        }
            proof {
                assert(kind_at(t, self.pos()) == self.cur().kind);
            }
        let condition = match self.parse_expression() {
            Ok(c) => Box::new(c),
            Err(e) => {
                return Err(e);
            },
        };
            proof {
                assert(step_to(t, p0, self.pos()) == self.pos());
                assert(kind_at(t, self.pos()) == self.cur().kind);
            }
        match self.expect_token(&TokenType::RightParen) {
            Ok(()) => {},
            Err(e) => {
                return Err(e);
            },
        }
            proof {
                assert(kind_at(t, self.pos()) == self.cur().kind);
            }
        match self.expect_token(&TokenType::LeftBrace) {
            Ok(()) => {},
            Err(e) => {
                return Err(e);
            },
        }
            proof {
                assert(kind_at(t, self.pos()) == self.cur().kind);
            }
        let then_branch = match self.parse_block() {
            Ok(b) => b,
            Err(e) => {
                return Err(e);
            },
        };
            proof {
                assert(step_to(t, p0, self.pos()) == self.pos());
                assert(kind_at(t, self.pos()) == self.cur().kind);
            }
        match self.expect_token(&TokenType::RightBrace) {
            Ok(()) => {},
            Err(e) => {
                return Err(e);
            },
        }
            proof {
                assert(kind_at(t, self.pos()) == self.cur().kind);
            }

        let else_branch: Option<Vec<AstNode>>;
        if self.match_token(&TokenType::Else) {
            match self.expect_token(&TokenType::LeftBrace) {
                Ok(()) => {},
                Err(e) => {
                    return Err(e);
                },
            }
            let else_body = match self.parse_block() {
                Ok(b) => b,
                Err(e) => {
                    return Err(e);
                },
            };
            match self.expect_token(&TokenType::RightBrace) {
                Ok(()) => {},
                Err(e) => {
                    return Err(e);
                },
            }
            else_branch = Some(else_body);
        } else {
            else_branch = None;
        }

        Ok(AstNode::If { condition, then_branch, else_branch })
    }

    #[verifier::rlimit(100)]
    #[verifier::spinoff_prover]
    fn parse_while(&mut self) -> (r: Result<AstNode, CompilerError>)
        requires
            old(self).wf(),
        ensures
            final(self).wf(),
            final(self).input() == old(self).input(),
            old(self).pos() <= final(self).pos(),
            r matches Err(e) ==> (e matches CompilerError::ParseError(_)),
            ({
                let m = sp_while(old(self).input(), old(self).pos());
                match m {
                    Ok(p) => r matches Ok(n) && ast_view(n) == p.0 && final(self).pos() == p.1,
                    Err(()) => r is Err,
                }
            }),
        decreases self.input().len() - self.pos(), 12int,
    {
        proof {
            reveal(sp_while);
        }
        let ghost t = self.input();
        let ghost p0 = self.pos();
        proof {
            assert(kind_at(t, p0) == self.cur().kind);
        }
        match self.expect_token(&TokenType::LeftParen) {
            Ok(()) => {},
            Err(e) => {
                return Err(e);
            },
        }
            proof {
                assert(kind_at(t, self.pos()) == self.cur().kind);
            }
        let condition = match self.parse_expression() {
            Ok(c) => Box::new(c),
            Err(e) => {
                return Err(e);
            },
        };
            proof {
                assert(step_to(t, p0, self.pos()) == self.pos());
                assert(kind_at(t, self.pos()) == self.cur().kind);
            }
        match self.expect_token(&TokenType::RightParen) {
            Ok(()) => {},
            Err(e) => {
                return Err(e);
            },
        }
            proof {
                assert(kind_at(t, self.pos()) == self.cur().kind);
            }
        match self.expect_token(&TokenType::LeftBrace) {
            Ok(()) => {},
            Err(e) => {
                return Err(e);
            },
        }
            proof {
                assert(kind_at(t, self.pos()) == self.cur().kind);
            }
        let body = match self.parse_block() {
            Ok(b) => b,
            Err(e) => {
                return Err(e);
            },
        };
            proof {
                assert(step_to(t, p0, self.pos()) == self.pos());
                assert(kind_at(t, self.pos()) == self.cur().kind);
            }
        match self.expect_token(&TokenType::RightBrace) {
            Ok(()) => {},
            Err(e) => {
                return Err(e);
            },
        }
            proof {
                assert(kind_at(t, self.pos()) == self.cur().kind);
            }
        Ok(AstNode::While { condition, body })
    }

    /// Parses `for (name in start..end)` or `start...end` (inclusive)
    /// followed by a braced body.
    #[verifier::rlimit(100)]
    #[verifier::spinoff_prover]
    fn parse_for(&mut self) -> (r: Result<AstNode, CompilerError>)
        requires
            old(self).wf(),
        ensures
            final(self).wf(),
            final(self).input() == old(self).input(),
            old(self).pos() <= final(self).pos(),
            r matches Err(e) ==> (e matches CompilerError::ParseError(_)),
            ({
                let m = sp_for(old(self).input(), old(self).pos());
                match m {
                    Ok(p) => r matches Ok(n) && ast_view(n) == p.0 && final(self).pos() == p.1,
                    Err(()) => r is Err,
                }
            }),
        decreases self.input().len() - self.pos(), 12int,
    {
        proof {
            reveal(sp_for);
        }
        let ghost t = self.input();
        let ghost p0 = self.pos();
        proof {
            assert(kind_at(t, p0) == self.cur().kind);
        }
        match self.expect_token(&TokenType::LeftParen) {
            Ok(()) => {},
            Err(e) => {
                return Err(e);
            },
        }
            proof {
                assert(kind_at(t, self.pos()) == self.cur().kind);
            }

        let iter_opt: Option<String> = match &self.current_token().token_type {
            TokenType::Identifier(n) => Some(n.clone()),
            _ => None,
        };
        let iterator = match iter_opt {
            Some(n) => n,
            None => {
                return Err(self.parse_error_here("Expected iterator variable"));
            },
        };
        self.advance();
            proof {
                assert(kind_at(t, self.pos()) == self.cur().kind);
            }

        let has_in: bool = match &self.current_token().token_type {
            TokenType::Identifier(kw) => str_eqx(kw.as_str(), "in"),
            _ => false,
        };
        if !has_in {
            return Err(self.parse_error_here("Expected 'in' keyword"));
        }
        self.advance();
            proof {
                assert(kind_at(t, self.pos()) == self.cur().kind);
            }

        let range_start = match self.parse_expression() {
            Ok(v) => Box::new(v),
            Err(e) => {
                return Err(e);
            },
        };
            proof {
                assert(step_to(t, p0, self.pos()) == self.pos());
                assert(kind_at(t, self.pos()) == self.cur().kind);
            }

        let inclusive: bool;
        if self.match_token(&TokenType::Dot) {
            if self.match_token(&TokenType::Dot) {
                inclusive = self.match_token(&TokenType::Dot);
            } else {
                return Err(self.parse_error_here("Expected range operator"));
            }
        } else {
            return Err(self.parse_error_here("Expected range operator"));
        }

        let range_end = match self.parse_expression() {
            Ok(v) => Box::new(v),
            Err(e) => {
                return Err(e);
            },
        };
            proof {
                assert(step_to(t, p0, self.pos()) == self.pos());
                assert(kind_at(t, self.pos()) == self.cur().kind);
            }

        match self.expect_token(&TokenType::RightParen) {
            Ok(()) => {},
            Err(e) => {
                return Err(e);
            },
        }
            proof {
                assert(kind_at(t, self.pos()) == self.cur().kind);
            }
        match self.expect_token(&TokenType::LeftBrace) {
            Ok(()) => {},
            Err(e) => {
                return Err(e);
            },
        }
            proof {
                assert(kind_at(t, self.pos()) == self.cur().kind);
            }
        let body = match self.parse_block() {
            Ok(b) => b,
            Err(e) => {
                return Err(e);
            },
        };
            proof {
                assert(step_to(t, p0, self.pos()) == self.pos());
                assert(kind_at(t, self.pos()) == self.cur().kind);
            }
        match self.expect_token(&TokenType::RightBrace) {
            Ok(()) => {},
            Err(e) => {
                return Err(e);
            },
        }
            proof {
                assert(kind_at(t, self.pos()) == self.cur().kind);
            }

        Ok(AstNode::For { iterator, range_start, range_end, inclusive, body })
    }

    #[verifier::rlimit(100)]
    #[verifier::spinoff_prover]
    fn parse_loop(&mut self) -> (r: Result<AstNode, CompilerError>)
        requires
            old(self).wf(),
        ensures
            final(self).wf(),
            final(self).input() == old(self).input(),
            old(self).pos() <= final(self).pos(),
            r matches Err(e) ==> (e matches CompilerError::ParseError(_)),
            ({
                let m = sp_loop(old(self).input(), old(self).pos());
                match m {
                    Ok(p) => r matches Ok(n) && ast_view(n) == p.0 && final(self).pos() == p.1,
                    Err(()) => r is Err,
                }
            }),
        decreases self.input().len() - self.pos(), 12int,
    {
        proof {
            reveal(sp_loop);
        }
        let ghost t = self.input();
        let ghost p0 = self.pos();
        proof {
            assert(kind_at(t, p0) == self.cur().kind);
        }
        match self.expect_token(&TokenType::LeftBrace) {
            Ok(()) => {},
            Err(e) => {
                return Err(e);
            },
        }
            proof {
                assert(kind_at(t, self.pos()) == self.cur().kind);
            }
        let body = match self.parse_block() {
            Ok(b) => b,
            Err(e) => {
                return Err(e);
            },
        };
            proof {
                assert(step_to(t, p0, self.pos()) == self.pos());
                assert(kind_at(t, self.pos()) == self.cur().kind);
            }
        match self.expect_token(&TokenType::RightBrace) {
            Ok(()) => {},
            Err(e) => {
                return Err(e);
            },
        }
            proof {
                assert(kind_at(t, self.pos()) == self.cur().kind);
            }
        Ok(AstNode::Loop { body })
    }

    #[verifier::rlimit(100)]
    #[verifier::spinoff_prover]
    fn parse_expression(&mut self) -> (r: Result<AstNode, CompilerError>)
        requires
            old(self).wf(),
        ensures
            final(self).wf(),
            final(self).input() == old(self).input(),
            old(self).pos() <= final(self).pos(),
            r matches Ok(_) ==> old(self).pos() < final(self).pos(),
            r matches Err(e) ==> (e matches CompilerError::ParseError(_)),
            ({
                let m = sp_expression(old(self).input(), old(self).pos());
                match m {
                    Ok(p) => r matches Ok(n) && ast_view(n) == p.0 && final(self).pos() == p.1,
                    Err(()) => r is Err,
                }
            }),
        decreases self.input().len() - self.pos(), 10int,
    {
        proof {
            reveal(sp_expression);
        }
        self.parse_logical_or()
    }

    #[verifier::rlimit(100)]
    #[verifier::spinoff_prover]
    fn parse_logical_or(&mut self) -> (r: Result<AstNode, CompilerError>)
        requires
            old(self).wf(),
        ensures
            final(self).wf(),
            final(self).input() == old(self).input(),
            old(self).pos() <= final(self).pos(),
            r matches Ok(_) ==> old(self).pos() < final(self).pos(),
            r matches Err(e) ==> (e matches CompilerError::ParseError(_)),
            ({
                let m = sp_or(old(self).input(), old(self).pos());
                match m {
                    Ok(p) => r matches Ok(n) && ast_view(n) == p.0 && final(self).pos() == p.1,
                    Err(()) => r is Err,
                }
            }),
        decreases self.input().len() - self.pos(), 9int,
    {
        proof {
            reveal(sp_or);
            reveal(sp_or_rest);
        }
        let ghost t = self.input();
        let ghost p0 = self.pos();
        let mut left = match self.parse_logical_and() {
            Ok(x) => x,
            Err(e) => {
                return Err(e);
            },
        };
        proof {
            assert(step_to(t, p0, self.pos()) == self.pos());
        }
        loop
            invariant
                self.wf(),
                self.input() == t,
                t == old(self).input(),
                p0 == old(self).pos(),
                old(self).pos() < self.pos(),
                sp_or(t, p0) == sp_or_rest(t, self.pos(), ast_view(left)),
            ensures
                sp_or(t, p0) == Ok::<(AstNodeV, int), ()>((ast_view(left), self.pos() as int)),
            decreases self.input().len() - self.pos(),
        {
            proof {
                reveal(sp_or);
                reveal(sp_or_rest);
            }
            let ghost pos_a = self.pos();
            if !self.match_token(&TokenType::PipePipe) {
                break;
            }
            proof {
                assert(kind_at(t, pos_a) == self.input()[pos_a].kind);
                assert(kind_at(t, pos_a) matches TokenTypeV::PipePipe);
            }
            let right = match self.parse_logical_and() {
                Ok(x) => x,
                Err(e) => {
                    return Err(e);
                },
            };
            left = AstNode::BinaryOp {
                left: Box::new(left),
                op: String::from_str("||"),
                right: Box::new(right),
            };
            proof {
                assert(step_to(t, pos_a, self.pos()) == self.pos());
                assert(sp_or(t, p0) == sp_or_rest(t, self.pos(), ast_view(left)));
            }
        }
        Ok(left)
    }

    #[verifier::rlimit(100)]
    #[verifier::spinoff_prover]
    fn parse_logical_and(&mut self) -> (r: Result<AstNode, CompilerError>)
        requires
            old(self).wf(),
        ensures
            final(self).wf(),
            final(self).input() == old(self).input(),
            old(self).pos() <= final(self).pos(),
            r matches Ok(_) ==> old(self).pos() < final(self).pos(),
            r matches Err(e) ==> (e matches CompilerError::ParseError(_)),
            ({
                let m = sp_and(old(self).input(), old(self).pos());
                match m {
                    Ok(p) => r matches Ok(n) && ast_view(n) == p.0 && final(self).pos() == p.1,
                    Err(()) => r is Err,
                }
            }),
        decreases self.input().len() - self.pos(), 8int,
    {
        proof {
            reveal(sp_and);
            reveal(sp_and_rest);
        }
        let ghost t = self.input();
        let ghost p0 = self.pos();
        let mut left = match self.parse_equality() {
            Ok(x) => x,
            Err(e) => {
                return Err(e);
            },
        };
        proof {
            assert(step_to(t, p0, self.pos()) == self.pos());
        }
        loop
            invariant
                self.wf(),
                self.input() == t,
                t == old(self).input(),
                p0 == old(self).pos(),
                old(self).pos() < self.pos(),
                sp_and(t, p0) == sp_and_rest(t, self.pos(), ast_view(left)),
            ensures
                sp_and(t, p0) == Ok::<(AstNodeV, int), ()>((ast_view(left), self.pos() as int)),
            decreases self.input().len() - self.pos(),
        {
            proof {
                reveal(sp_and);
                reveal(sp_and_rest);
            }
            let ghost pos_a = self.pos();
            if !self.match_token(&TokenType::AmpAmp) {
                break;
            }
            proof {
                assert(kind_at(t, pos_a) == self.input()[pos_a].kind);
                assert(kind_at(t, pos_a) matches TokenTypeV::AmpAmp);
            }
            let right = match self.parse_equality() {
                Ok(x) => x,
                Err(e) => {
                    return Err(e);
                },
            };
            left = AstNode::BinaryOp {
                left: Box::new(left),
                op: String::from_str("&&"),
                right: Box::new(right),
            };
            proof {
                assert(step_to(t, pos_a, self.pos()) == self.pos());
                assert(sp_and(t, p0) == sp_and_rest(t, self.pos(), ast_view(left)));
            }
        }
        Ok(left)
    }

    #[verifier::rlimit(100)]
    #[verifier::spinoff_prover]
    fn parse_equality(&mut self) -> (r: Result<AstNode, CompilerError>)
        requires
            old(self).wf(),
        ensures
            final(self).wf(),
            final(self).input() == old(self).input(),
            old(self).pos() <= final(self).pos(),
            r matches Ok(_) ==> old(self).pos() < final(self).pos(),
            r matches Err(e) ==> (e matches CompilerError::ParseError(_)),
            ({
                let m = sp_equality(old(self).input(), old(self).pos());
                match m {
                    Ok(p) => r matches Ok(n) && ast_view(n) == p.0 && final(self).pos() == p.1,
                    Err(()) => r is Err,
                }
            }),
        decreases self.input().len() - self.pos(), 7int,
    {
        proof {
            reveal(sp_equality);
            reveal(sp_eq_rest);
        }
        let ghost t = self.input();
        let ghost p0 = self.pos();
        let mut left = match self.parse_comparison() {
            Ok(x) => x,
            Err(e) => {
                return Err(e);
            },
        };
        proof {
            assert(step_to(t, p0, self.pos()) == self.pos());
        }
        loop
            invariant
                self.wf(),
                self.input() == t,
                t == old(self).input(),
                p0 == old(self).pos(),
                old(self).pos() < self.pos(),
                sp_equality(t, p0) == sp_eq_rest(t, self.pos(), ast_view(left)),
            ensures
                sp_equality(t, p0) == Ok::<(AstNodeV, int), ()>((ast_view(left), self.pos() as int)),
            decreases self.input().len() - self.pos(),
        {
            proof {
                reveal(sp_equality);
                reveal(sp_eq_rest);
            }
            let ghost pos_a = self.pos();
            let op: &str;
            if self.match_token(&TokenType::EqualEqual) {
                op = "==";
            } else if self.match_token(&TokenType::NotEqual) {
                op = "!=";
            } else {
                break;
            }
            proof {
                assert(kind_at(t, pos_a) == self.input()[pos_a].kind);
                assert(sp_eq_op(kind_at(t, pos_a)) == Some(op@));
            }
            let right = match self.parse_comparison() {
                Ok(x) => x,
                Err(e) => {
                    return Err(e);
                },
            };
            let ghost prev_left = ast_view(left);
            left = AstNode::BinaryOp {
                left: Box::new(left),
                op: String::from_str(op),
                right: Box::new(right),
            };
            proof {
                assert(step_to(t, pos_a, self.pos()) == self.pos());
                assert(sp_equality(t, p0) == sp_eq_rest(t, self.pos(), ast_view(left)));
            }
        }
        Ok(left)
    }

    #[verifier::rlimit(100)]
    #[verifier::spinoff_prover]
    fn parse_comparison(&mut self) -> (r: Result<AstNode, CompilerError>)
        requires
            old(self).wf(),
        ensures
            final(self).wf(),
            final(self).input() == old(self).input(),
            old(self).pos() <= final(self).pos(),
            r matches Ok(_) ==> old(self).pos() < final(self).pos(),
            r matches Err(e) ==> (e matches CompilerError::ParseError(_)),
            ({
                let m = sp_comparison(old(self).input(), old(self).pos());
                match m {
                    Ok(p) => r matches Ok(n) && ast_view(n) == p.0 && final(self).pos() == p.1,
                    Err(()) => r is Err,
                }
            }),
        decreases self.input().len() - self.pos(), 6int,
    {
        proof {
            reveal(sp_comparison);
            reveal(sp_cmp_rest);
        }
        let ghost t = self.input();
        let ghost p0 = self.pos();
        let mut left = match self.parse_term() {
            Ok(x) => x,
            Err(e) => {
                return Err(e);
            },
        };
        proof {
            assert(step_to(t, p0, self.pos()) == self.pos());
        }
        loop
            invariant
                self.wf(),
                self.input() == t,
                t == old(self).input(),
                p0 == old(self).pos(),
                old(self).pos() < self.pos(),
                sp_comparison(t, p0) == sp_cmp_rest(t, self.pos(), ast_view(left)),
            ensures
                sp_comparison(t, p0) == Ok::<(AstNodeV, int), ()>((ast_view(left), self.pos() as int)),
            decreases self.input().len() - self.pos(),
        {
            proof {
                reveal(sp_comparison);
                reveal(sp_cmp_rest);
            }
            let ghost pos_a = self.pos();
            let op: &str;
            if self.match_token(&TokenType::Less) {
                op = "<";
            } else if self.match_token(&TokenType::LessEqual) {
                op = "<=";
            } else if self.match_token(&TokenType::Greater) {
                op = ">";
            } else if self.match_token(&TokenType::GreaterEqual) {
                op = ">=";
            } else {
                break;
            }
            proof {
                assert(kind_at(t, pos_a) == self.input()[pos_a].kind);
                assert(sp_cmp_op(kind_at(t, pos_a)) == Some(op@));
            }
            let right = match self.parse_term() {
                Ok(x) => x,
                Err(e) => {
                    return Err(e);
                },
            };
            let ghost prev_left = ast_view(left);
            left = AstNode::BinaryOp {
                left: Box::new(left),
                op: String::from_str(op),
                right: Box::new(right),
            };
            proof {
                assert(step_to(t, pos_a, self.pos()) == self.pos());
                assert(sp_comparison(t, p0) == sp_cmp_rest(t, self.pos(), ast_view(left)));
            }
        }
        Ok(left)
    }

    #[verifier::rlimit(100)]
    #[verifier::spinoff_prover]
    fn parse_term(&mut self) -> (r: Result<AstNode, CompilerError>)
        requires
            old(self).wf(),
        ensures
            final(self).wf(),
            final(self).input() == old(self).input(),
            old(self).pos() <= final(self).pos(),
            r matches Ok(_) ==> old(self).pos() < final(self).pos(),
            r matches Err(e) ==> (e matches CompilerError::ParseError(_)),
            ({
                let m = sp_term(old(self).input(), old(self).pos());
                match m {
                    Ok(p) => r matches Ok(n) && ast_view(n) == p.0 && final(self).pos() == p.1,
                    Err(()) => r is Err,
                }
            }),
        decreases self.input().len() - self.pos(), 5int,
    {
        proof {
            reveal(sp_term);
            reveal(sp_term_rest);
        }
        let ghost t = self.input();
        let ghost p0 = self.pos();
        let mut left = match self.parse_factor() {
            Ok(x) => x,
            Err(e) => {
                return Err(e);
            },
        };
        proof {
            assert(step_to(t, p0, self.pos()) == self.pos());
        }
        loop
            invariant
                self.wf(),
                self.input() == t,
                t == old(self).input(),
                p0 == old(self).pos(),
                old(self).pos() < self.pos(),
                sp_term(t, p0) == sp_term_rest(t, self.pos(), ast_view(left)),
            ensures
                sp_term(t, p0) == Ok::<(AstNodeV, int), ()>((ast_view(left), self.pos() as int)),
            decreases self.input().len() - self.pos(),
        {
            proof {
                reveal(sp_term);
                reveal(sp_term_rest);
            }
            let ghost pos_a = self.pos();
            let op: &str;
            if self.match_token(&TokenType::Plus) {
                op = "+";
            } else if self.match_token(&TokenType::Minus) {
                op = "-";
            } else {
                break;
            }
            proof {
                assert(kind_at(t, pos_a) == self.input()[pos_a].kind);
                assert(sp_term_op(kind_at(t, pos_a)) == Some(op@));
            }
            let right = match self.parse_factor() {
                Ok(x) => x,
                Err(e) => {
                    return Err(e);
                },
            };
            let ghost prev_left = ast_view(left);
            left = AstNode::BinaryOp {
                left: Box::new(left),
                op: String::from_str(op),
                right: Box::new(right),
            };
            proof {
                assert(step_to(t, pos_a, self.pos()) == self.pos());
                assert(sp_term(t, p0) == sp_term_rest(t, self.pos(), ast_view(left)));
            }
        }
        Ok(left)
    }

    #[verifier::rlimit(100)]
    #[verifier::spinoff_prover]
    fn parse_factor(&mut self) -> (r: Result<AstNode, CompilerError>)
        requires
            old(self).wf(),
        ensures
            final(self).wf(),
            final(self).input() == old(self).input(),
            old(self).pos() <= final(self).pos(),
            r matches Ok(_) ==> old(self).pos() < final(self).pos(),
            r matches Err(e) ==> (e matches CompilerError::ParseError(_)),
            ({
                let m = sp_factor(old(self).input(), old(self).pos());
                match m {
                    Ok(p) => r matches Ok(n) && ast_view(n) == p.0 && final(self).pos() == p.1,
                    Err(()) => r is Err,
                }
            }),
        decreases self.input().len() - self.pos(), 4int,
    {
        proof {
            reveal(sp_factor);
            reveal(sp_factor_rest);
        }
        let ghost t = self.input();
        let ghost p0 = self.pos();
        let mut left = match self.parse_unary() {
            Ok(x) => x,
            Err(e) => {
                return Err(e);
            },
        };
        proof {
            assert(step_to(t, p0, self.pos()) == self.pos());
        }
        loop
            invariant
                self.wf(),
                self.input() == t,
                t == old(self).input(),
                p0 == old(self).pos(),
                old(self).pos() < self.pos(),
                sp_factor(t, p0) == sp_factor_rest(t, self.pos(), ast_view(left)),
            ensures
                sp_factor(t, p0) == Ok::<(AstNodeV, int), ()>((ast_view(left), self.pos() as int)),
            decreases self.input().len() - self.pos(),
        {
            proof {
                reveal(sp_factor);
                reveal(sp_factor_rest);
            }
            let ghost pos_a = self.pos();
            let op: &str;
            if self.match_token(&TokenType::Star) {
                op = "*";
            } else if self.match_token(&TokenType::Slash) {
                op = "/";
            } else if self.match_token(&TokenType::Percent) {
                op = "%";
            } else {
                break;
            }
            proof {
                assert(kind_at(t, pos_a) == self.input()[pos_a].kind);
                assert(sp_factor_op(kind_at(t, pos_a)) == Some(op@));
            }
            let right = match self.parse_unary() {
                Ok(x) => x,
                Err(e) => {
                    return Err(e);
                },
            };
            let ghost prev_left = ast_view(left);
            left = AstNode::BinaryOp {
                left: Box::new(left),
                op: String::from_str(op),
                right: Box::new(right),
            };
            proof {
                assert(step_to(t, pos_a, self.pos()) == self.pos());
                assert(sp_factor(t, p0) == sp_factor_rest(t, self.pos(), ast_view(left)));
            }
        }
        Ok(left)
    }

    /// Prefix `-` and `!` recurse right, so chains like `!!x` nest.
    #[verifier::rlimit(100)]
    #[verifier::spinoff_prover]
    fn parse_unary(&mut self) -> (r: Result<AstNode, CompilerError>)
        requires
            old(self).wf(),
        ensures
            final(self).wf(),
            final(self).input() == old(self).input(),
            old(self).pos() <= final(self).pos(),
            r matches Ok(_) ==> old(self).pos() < final(self).pos(),
            r matches Err(e) ==> (e matches CompilerError::ParseError(_)),
            ({
                let m = sp_unary(old(self).input(), old(self).pos());
                match m {
                    Ok(p) => r matches Ok(n) && ast_view(n) == p.0 && final(self).pos() == p.1,
                    Err(()) => r is Err,
                }
            }),
        decreases self.input().len() - self.pos(), 3int,
    {
        proof {
            reveal(sp_unary);
        }
        let ghost t = self.input();
        let ghost p0 = self.pos();
        proof {
            assert(kind_at(t, p0) == self.cur().kind);
        }
        let op: &str;
        if self.match_token(&TokenType::Minus) {
            op = "-";
        } else if self.match_token(&TokenType::Bang) {
            op = "!";
        } else {
            return self.parse_primary();
        }
        let operand = match self.parse_unary() {
            Ok(x) => x,
            Err(e) => {
                return Err(e);
            },
        };
        Ok(AstNode::UnaryOp { op: String::from_str(op), operand: Box::new(operand) })
    }

    #[verifier::rlimit(100)]
    #[verifier::spinoff_prover]
    fn parse_primary(&mut self) -> (r: Result<AstNode, CompilerError>)
        requires
            old(self).wf(),
        ensures
            final(self).wf(),
            final(self).input() == old(self).input(),
            old(self).pos() <= final(self).pos(),
            r matches Ok(_) ==> old(self).pos() < final(self).pos(),
            r matches Err(e) ==> (e matches CompilerError::ParseError(_)),
            ({
                let m = sp_primary(old(self).input(), old(self).pos());
                match m {
                    Ok(p) => r matches Ok(n) && ast_view(n) == p.0 && final(self).pos() == p.1,
                    Err(()) => r is Err,
                }
            }),
        decreases self.input().len() - self.pos(), 2int,
    {
        proof {
            reveal(sp_primary);
            reveal(sp_args);
            reveal(sp_elems);
        }
        let ghost t = self.input();
        let ghost p0 = self.pos();
        proof {
            assert(kind_at(t, p0) == self.cur().kind);
        }
        if matches!(self.current_token().token_type, TokenType::IntLiteral(_)) {
            let val: i64 = match &self.current_token().token_type {
                TokenType::IntLiteral(n) => *n,
                _ => 0,
            };
            self.advance();
            return Ok(AstNode::Literal(Literal::Int(val)));
        }
        if matches!(self.current_token().token_type, TokenType::FloatLiteral(_)) {
            let val: String = match &self.current_token().token_type {
                TokenType::FloatLiteral(f) => f.clone(),
                _ => String::new(),
            };
            self.advance();
            return Ok(AstNode::Literal(Literal::Float(val)));
        }
        if matches!(self.current_token().token_type, TokenType::StringLiteral(_)) {
            let val: String = match &self.current_token().token_type {
                TokenType::StringLiteral(s) => s.clone(),
                _ => String::new(),
            };
            self.advance();
            return Ok(AstNode::Literal(Literal::String(val)));
        }
        if matches!(self.current_token().token_type, TokenType::CharLiteral(_)) {
            let val: char = match &self.current_token().token_type {
                TokenType::CharLiteral(c) => *c,
                _ => ' ',
            };
            self.advance();
            return Ok(AstNode::Literal(Literal::Char(val)));
        }
        if matches!(self.current_token().token_type, TokenType::BoolLiteral(_)) {
            let val: bool = match &self.current_token().token_type {
                TokenType::BoolLiteral(b) => *b,
                _ => false,
            };
            self.advance();
            return Ok(AstNode::Literal(Literal::Bool(val)));
        }
        if matches!(self.current_token().token_type, TokenType::Identifier(_)) {
            let name: String = match &self.current_token().token_type {
                TokenType::Identifier(n) => n.clone(),
                _ => String::new(),
            };
            self.advance();
            proof {
                assert(kind_at(t, p0 + 1) == self.cur().kind);
            }

            if self.check(&TokenType::LeftBracket) {
                self.advance();
                let index = match self.parse_expression() {
                    Ok(x) => x,
                    Err(e) => {
                        return Err(e);
                    },
                };
                proof {
                    assert(step_to(t, p0, self.pos()) == self.pos());
                    assert(kind_at(t, self.pos()) == self.cur().kind);
                }
                match self.expect_token(&TokenType::RightBracket) {
                    Ok(()) => {},
                    Err(e) => {
                        return Err(e);
                    },
                }
                let res = AstNode::ArrayIndex {
                    array: Box::new(AstNode::Identifier(name)),
                    index: Box::new(index),
                };
                proof {
                    assert(0 <= p0 < t.len());
                    assert(p0 + 1 < t.len());
                    assert(kind_at(t, p0 + 1) matches TokenTypeV::LeftBracket);
                    assert(sp_expression(t, p0 + 2) is Ok);
                    match sp_expression(t, p0 + 2) {
                        Ok((idxv, j0)) => {
                            assert(step_to(t, p0, j0) == j0);
                            assert(j0 + 1 == self.pos());
                            assert(kind_at(t, j0) matches TokenTypeV::RightBracket);
                            assert(ast_view(AstNode::Identifier(name)) == AstNodeV::Identifier(
                                name@,
                            ));
                            assert(ast_view(res) == AstNodeV::ArrayIndex {
                                array: Box::new(AstNodeV::Identifier(name@)),
                                index: Box::new(idxv),
                            });
                        },
                        Err(()) => {},
                    }
                    assert(sp_primary(t, p0) == Ok::<(AstNodeV, int), ()>(
                        (ast_view(res), self.pos() as int),
                    ));
                }
                return Ok(res);
            }

            if self.match_token(&TokenType::LeftParen) {
                let ghost a0 = self.pos();
                let mut args: Vec<AstNode> = Vec::new();
                proof {
                    assert(asts_view(args, 0) =~= Seq::<AstNodeV>::empty());
                }
                loop
                    invariant_except_break
                        sp_args(t, a0, Seq::empty()) == sp_args(t, self.pos(), asts_view(args, 0)),
                    invariant
                        self.wf(),
                        self.input() == t,
                        t == old(self).input(),
                        p0 == old(self).pos(),
                        0 <= p0,
                        p0 + 1 < t.len(),
                        kind_at(t, p0) == TokenTypeV::Identifier(name@),
                        kind_at(t, p0 + 1) matches TokenTypeV::LeftParen,
                        a0 == p0 + 2,
                        old(self).pos() < self.pos(),
                        a0 <= self.pos(),
                    ensures
                        sp_args(t, a0, Seq::empty()) == Ok::<(Seq<AstNodeV>, int), ()>(
                            (asts_view(args, 0), self.pos() as int),
                        ),
                    decreases self.input().len() - self.pos(),
                {
                    proof {
                        reveal(sp_primary);
                        reveal(sp_args);
                    }
                    let ghost pos_a = self.pos();
                    proof {
                        assert(kind_at(t, pos_a) == self.cur().kind);
                    }
                    if self.check(&TokenType::RightParen) {
                        break;
                    }
                    let ghost args_pre = args;
                    match self.parse_expression() {
                        Ok(x) => {
                            let ghost xv = ast_view(x);
                            args.push(x);
                            proof {
                                lemma_asts_view_push(args_pre, args, x, 0);
                                assert(step_to(t, pos_a, self.pos()) == self.pos());
                            }
                        },
                        Err(e) => {
                            return Err(e);
                        },
                    }
                    let ghost pos_b = self.pos();
                    proof {
                        assert(kind_at(t, pos_b) == self.cur().kind);
                    }
                    if !self.match_token(&TokenType::Comma) {
                        break;
                    }
                }
                proof {
                    assert(kind_at(t, self.pos()) == self.cur().kind);
                }
                match self.expect_token(&TokenType::RightParen) {
                    Ok(()) => {},
                    Err(e) => {
                        return Err(e);
                    },
                }
                return Ok(AstNode::FunctionCall { name, args });
            }

            return Ok(AstNode::Identifier(name));
        }
        if self.match_token(&TokenType::LeftParen) {
            let expr = match self.parse_expression() {
                Ok(x) => x,
                Err(e) => {
                    return Err(e);
                },
            };
            proof {
                assert(step_to(t, p0, self.pos()) == self.pos());
                assert(kind_at(t, self.pos()) == self.cur().kind);
            }
            match self.expect_token(&TokenType::RightParen) {
                Ok(()) => {},
                Err(e) => {
                    return Err(e);
                },
            }
            return Ok(expr);
        }
        if self.match_token(&TokenType::LeftBracket) {
            let mut elements: Vec<AstNode> = Vec::new();
            proof {
                assert(kind_at(t, p0 + 1) == self.cur().kind);
                assert(asts_view(elements, 0) =~= Seq::<AstNodeV>::empty());
            }

            if self.check(&TokenType::RightBracket) {
                self.advance();
                return Ok(AstNode::ArrayLiteral { elements });
            }

            let first_expr = match self.parse_expression() {
                Ok(x) => x,
                Err(e) => {
                    return Err(e);
                },
            };
            proof {
                assert(step_to(t, p0, self.pos()) == self.pos());
                assert(kind_at(t, self.pos()) == self.cur().kind);
            }
            let ghost jf = self.pos();

            if self.match_token(&TokenType::Semicolon) {
                proof {
                    assert(kind_at(t, jf + 1) == self.cur().kind);
                }
                let count_opt: Option<i64> = match &self.current_token().token_type {
                    TokenType::IntLiteral(n) => Some(*n),
                    _ => None,
                };
                match count_opt {
                    Some(count) => {
                        self.advance();
                        proof {
                            assert(kind_at(t, jf + 2) == self.cur().kind);
                        }
                        match self.expect_token(&TokenType::RightBracket) {
                            Ok(()) => {},
                            Err(e) => {
                                return Err(e);
                            },
                        }
                        return Ok(
                            AstNode::ArrayRepeat {
                                value: Box::new(first_expr),
                                count: #[verifier::truncate] (count as usize),
                            },
                        );
                    },
                    None => {
                        return Err(self.parse_error_here("Expected array size"));
                    },
                }
            }

            let ghost elems_pre = elements;
            let ghost firstv = ast_view(first_expr);
            elements.push(first_expr);
            proof {
                lemma_asts_view_push(elems_pre, elements, elements@.last(), 0);
                assert(asts_view(elements, 0) =~= seq![firstv]);
            }

            loop
                invariant
                    self.wf(),
                    self.input() == t,
                    t == old(self).input(),
                    p0 == old(self).pos(),
                    0 <= p0,
                    p0 + 1 < t.len(),
                    kind_at(t, p0) matches TokenTypeV::LeftBracket,
                    !(kind_at(t, p0 + 1) matches TokenTypeV::RightBracket),
                    sp_expression(t, p0 + 1) == Ok::<(AstNodeV, int), ()>((firstv, jf as int)),
                    step_to(t, p0, jf) == jf,
                    0 <= jf < t.len(),
                    !(kind_at(t, jf) matches TokenTypeV::Semicolon),
                    old(self).pos() < self.pos(),
                    sp_elems(t, jf, seq![firstv]) == sp_elems(
                        t,
                        self.pos(),
                        asts_view(elements, 0),
                    ),
                ensures
                    sp_elems(t, jf, seq![firstv]) == Ok::<(Seq<AstNodeV>, int), ()>(
                        (asts_view(elements, 0), self.pos() as int),
                    ),
                decreases self.input().len() - self.pos(),
            {
                proof {
                    reveal(sp_primary);
                    reveal(sp_elems);
                }
                let ghost pos_a = self.pos();
                proof {
                    assert(kind_at(t, pos_a) == self.cur().kind);
                }
                if !self.match_token(&TokenType::Comma) {
                    break;
                }
                proof {
                    assert(kind_at(t, pos_a + 1) == self.cur().kind);
                }
                if self.check(&TokenType::RightBracket) {
                    break;
                }
                let ghost elems_a = elements;
                match self.parse_expression() {
                    Ok(x) => {
                        elements.push(x);
                        proof {
                            lemma_asts_view_push(elems_a, elements, elements@.last(), 0);
                            assert(step_to(t, pos_a, self.pos()) == self.pos());
                        }
                    },
                    Err(e) => {
                        return Err(e);
                    },
                }
            }

            proof {
                assert(kind_at(t, self.pos()) == self.cur().kind);
            }
            match self.expect_token(&TokenType::RightBracket) {
                Ok(()) => {},
                Err(e) => {
                    return Err(e);
                },
            }
            return Ok(AstNode::ArrayLiteral { elements });
        }

        Err(self.parse_error_here("Unexpected token"))
    }

    fn parse_type(&mut self) -> (r: Result<Type, CompilerError>)
        requires
            old(self).wf(),
        ensures
            final(self).wf(),
            final(self).input() == old(self).input(),
            old(self).pos() <= final(self).pos(),
            r matches Ok(_) ==> old(self).pos() < final(self).pos(),
            r matches Err(e) ==> (e matches CompilerError::ParseError(_)),
            ({
                let m = sp_type(old(self).input(), old(self).pos());
                match m {
                    Ok(p) => r matches Ok(ty) && ty == p.0 && final(self).pos() == p.1,
                    Err(()) => r is Err,
                }
            }),
        decreases self.input().len() - self.pos(), 2int,
    {
        proof {
            reveal(sp_type);
        }
        let ghost t = self.input();
        let ghost p0 = self.pos();
        proof {
            assert(kind_at(t, p0) == self.cur().kind);
        }
        let ty: Type;
        if matches!(self.current_token().token_type, TokenType::I8) {
            ty = Type::I8;
        } else if matches!(self.current_token().token_type, TokenType::I16) {
            ty = Type::I16;
        } else if matches!(self.current_token().token_type, TokenType::I32) {
            ty = Type::I32;
        } else if matches!(self.current_token().token_type, TokenType::I64) {
            ty = Type::I64;
        } else if matches!(self.current_token().token_type, TokenType::U8) {
            ty = Type::U8;
        } else if matches!(self.current_token().token_type, TokenType::U16) {
            ty = Type::U16;
        } else if matches!(self.current_token().token_type, TokenType::U32) {
            ty = Type::U32;
        } else if matches!(self.current_token().token_type, TokenType::U64) {
            ty = Type::U64;
        } else if matches!(self.current_token().token_type, TokenType::F32) {
            ty = Type::F32;
        } else if matches!(self.current_token().token_type, TokenType::F64) {
            ty = Type::F64;
        } else if matches!(self.current_token().token_type, TokenType::Bool) {
            ty = Type::Bool;
        } else if matches!(self.current_token().token_type, TokenType::Char) {
            ty = Type::Char;
        } else if matches!(self.current_token().token_type, TokenType::Void) {
            ty = Type::Void;
        } else if matches!(self.current_token().token_type, TokenType::Str) {
            ty = Type::Str;
        } else if self.match_token(&TokenType::LeftBracket) {
            let element_type = match self.parse_type() {
                Ok(ty0) => ty0,
                Err(e) => {
                    return Err(e);
                },
            };
            proof {
                assert(step_to(t, p0, self.pos()) == self.pos());
            }
            let ghost j = self.pos();
            proof {
                assert(kind_at(t, j) == self.cur().kind);
            }
            match self.expect_token(&TokenType::Semicolon) {
                Ok(()) => {},
                Err(e) => {
                    return Err(e);
                },
            }
            proof {
                assert(kind_at(t, j + 1) == self.cur().kind);
            }
            let size_opt: Option<i64> = match &self.current_token().token_type {
                TokenType::IntLiteral(n) => Some(*n),
                _ => None,
            };
            match size_opt {
                Some(size) => {
                    self.advance();
                    proof {
                        assert(kind_at(t, j + 2) == self.cur().kind);
                    }
                    match self.expect_token(&TokenType::RightBracket) {
                        Ok(()) => {},
                        Err(e) => {
                            return Err(e);
                        },
                    }
                    return Ok(
                        Type::Array(Box::new(element_type), #[verifier::truncate] (size as usize)),
                    );
                },
                None => {
                    return Err(self.parse_error_here("Expected array size"));
                },
            }
        } else {
            return Err(self.parse_error_here("Expected type"));
        }
        self.advance();
        Ok(ty)
    }
}

/// The numeric tag of a token kind, matching [`tt_tag`].
fn tag_of(t: &TokenType) -> (r: u32)
    ensures
        r as int == tt_tag(t@),
{
    match t {
        TokenType::Module => 0,
        TokenType::Import => 1,
        TokenType::Fn => 2,
        TokenType::Let => 3,
        TokenType::Mut => 4,
        TokenType::Const => 5,
        TokenType::Return => 6,
        TokenType::If => 7,
        TokenType::Else => 8,
        TokenType::While => 9,
        TokenType::For => 10,
        TokenType::Loop => 11,
        TokenType::Break => 12,
        TokenType::Continue => 13,
        TokenType::Struct => 14,
        TokenType::Enum => 15,
        TokenType::Union => 16,
        TokenType::Type => 17,
        TokenType::Pub => 18,
        TokenType::Unsafe => 19,
        TokenType::Defer => 20,
        TokenType::I8 => 21,
        TokenType::I16 => 22,
        TokenType::I32 => 23,
        TokenType::I64 => 24,
        TokenType::U8 => 25,
        TokenType::U16 => 26,
        TokenType::U32 => 27,
        TokenType::U64 => 28,
        TokenType::F32 => 29,
        TokenType::F64 => 30,
        TokenType::Bool => 31,
        TokenType::Char => 32,
        TokenType::Void => 33,
        TokenType::Str => 34,
        TokenType::IntLiteral(_) => 35,
        TokenType::FloatLiteral(_) => 36,
        TokenType::StringLiteral(_) => 37,
        TokenType::CharLiteral(_) => 38,
        TokenType::BoolLiteral(_) => 39,
        TokenType::Identifier(_) => 40,
        TokenType::Plus => 41,
        TokenType::Minus => 42,
        TokenType::Star => 43,
        TokenType::Slash => 44,
        TokenType::Percent => 45,
        TokenType::Equal => 46,
        TokenType::EqualEqual => 47,
        TokenType::NotEqual => 48,
        TokenType::Less => 49,
        TokenType::LessEqual => 50,
        TokenType::Greater => 51,
        TokenType::GreaterEqual => 52,
        TokenType::AmpAmp => 53,
        TokenType::PipePipe => 54,
        TokenType::Bang => 55,
        TokenType::Amp => 56,
        TokenType::Pipe => 57,
        TokenType::Caret => 58,
        TokenType::Tilde => 59,
        TokenType::LessLess => 60,
        TokenType::GreaterGreater => 61,
        TokenType::LeftParen => 62,
        TokenType::RightParen => 63,
        TokenType::LeftBrace => 64,
        TokenType::RightBrace => 65,
        TokenType::LeftBracket => 66,
        TokenType::RightBracket => 67,
        TokenType::Semicolon => 68,
        TokenType::Comma => 69,
        TokenType::Dot => 70,
        TokenType::Colon => 71,
        TokenType::ColonColon => 72,
        TokenType::Arrow => 73,
        TokenType::FatArrow => 74,
        TokenType::Eof => 75,
    }
}

} // verus!
