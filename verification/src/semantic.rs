//! Scope-aware semantic checking: a single recursive walk over the tree
//! that maintains a stack of lexical scopes, infers and checks types, and
//! rejects invalid programs.
//!
//! The analysis is pinned by a specification-level mirror: [`spec_visit`]
//! says, for every node and every scope stack, whether the walk accepts
//! and what it infers, and [`SemanticAnalyzer::analyze`] is proved to
//! accept exactly when the mirror does.  The mirror states the scoping
//! rules directly: a program is accepted precisely when every variable
//! use is preceded by a declaration in an enclosing-or-same scope, every
//! assignment target is declared and mutable, and every checked type pair
//! is structurally equal — with a name redeclared in an inner scope
//! shadowing the outer one, and never redeclared within one scope.

use vstd::prelude::*;

use crate::error::CompilerError;
use crate::parser::AstNode;
use crate::parser::Literal;
use crate::parser::Type;
use crate::parser::type_clone;
use crate::parser::type_eq;
use crate::text::str_eqx;

verus! {

broadcast use vstd::std_specs::vec::group_vec_axioms, vstd::seq::group_seq_axioms;

/// One binding: its type and whether assignment to it is allowed.
#[derive(Debug, Clone)]
struct SymbolInfo {
    symbol_type: Type,
    mutable: bool,
}

/// One lexical scope as the specification sees it: a mapping from names
/// to (type, mutability).
pub type ScopeMap = Map<Seq<char>, (Type, bool)>;

/// The walk's context: the stack of open scopes, innermost last, and the
/// declared return type of the function being checked.
pub struct ScopeCtx {
    pub scopes: Seq<ScopeMap>,
    pub ret: Option<Type>,
}

/// The context in which a whole program is checked: one empty module
/// scope and no enclosing function.
pub open spec fn initial_ctx() -> ScopeCtx {
    ScopeCtx { scopes: seq![Map::empty()], ret: None }
}

/// Opens a child scope.
pub open spec fn ctx_enter(c: ScopeCtx) -> ScopeCtx {
    ScopeCtx { scopes: c.scopes.push(Map::empty()), ret: c.ret }
}

/// Closes the innermost scope.
pub open spec fn ctx_exit(c: ScopeCtx) -> ScopeCtx {
    if c.scopes.len() == 0 {
        c
    } else {
        ScopeCtx { scopes: c.scopes.drop_last(), ret: c.ret }
    }
}

/// Declares a name in the innermost scope.  Redeclaring a name already
/// bound in that exact scope is the error; a name bound only in an outer
/// scope may be shadowed.
pub open spec fn ctx_declare(c: ScopeCtx, name: Seq<char>, t: Type, mutable: bool) -> Result<
    ScopeCtx,
    (),
> {
    if c.scopes.len() == 0 {
        Ok(c)
    } else if c.scopes.last().contains_key(name) {
        Err(())
    } else {
        Ok(
            ScopeCtx {
                scopes: c.scopes.update(
                    c.scopes.len() - 1,
                    c.scopes.last().insert(name, (t, mutable)),
                ),
                ret: c.ret,
            },
        )
    }
}

/// Looks a name up through the scope stack, innermost first; the first
/// match wins, so inner declarations shadow outer ones.
pub open spec fn lookup_in(scopes: Seq<ScopeMap>, name: Seq<char>) -> Option<(Type, bool)>
    decreases scopes.len(),
{
    if scopes.len() == 0 {
        None
    } else if scopes.last().contains_key(name) {
        Some(scopes.last()[name])
    } else {
        lookup_in(scopes.drop_last(), name)
    }
}

/// The type of a literal: integers are 32-bit signed, floating-point
/// literals are 64-bit, and the rest map directly.
pub open spec fn literal_type(lit: Literal) -> Type {
    match lit {
        Literal::Int(_) => Type::I32,
        Literal::Float(_) => Type::F64,
        Literal::String(_) => Type::Str,
        Literal::Bool(_) => Type::Bool,
        Literal::Char(_) => Type::Char,
    }
}

/// Whether a binary operator yields `bool` regardless of its operands.
pub open spec fn is_bool_op(op: Seq<char>) -> bool {
    ||| op == "=="@
    ||| op == "!="@
    ||| op == "<"@
    ||| op == "<="@
    ||| op == ">"@
    ||| op == ">="@
    ||| op == "&&"@
    ||| op == "||"@
}

/// The semantic walk, mirrored exactly: for a context and a node, either
/// the inferred type (when the node is an expression) together with the
/// context after the node, or rejection.
pub open spec fn spec_visit(ctx: ScopeCtx, node: AstNode) -> Result<(Option<Type>, ScopeCtx), ()>
    decreases node, 0int, 0int,
{
    match node {
        AstNode::Module { name: _, items } => match spec_visit_all(ctx, items, 0) {
            Ok(c) => Ok((None, c)),
            Err(()) => Err(()),
        },
        AstNode::Function { name: _, params, return_type, body } => {
            let c1 = ScopeCtx { scopes: ctx.scopes.push(Map::empty()), ret: return_type };
            match spec_declare_params(c1, params, 0) {
                Ok(c2) => match spec_visit_all(c2, body, 0) {
                    Ok(c3) => Ok((None, ScopeCtx { scopes: ctx_exit(c3).scopes, ret: ctx.ret })),
                    Err(()) => Err(()),
                },
                Err(()) => Err(()),
            }
        },
        AstNode::VariableDecl { name, var_type, value, mutable } => {
            let after_value = match value {
                Some(v) => spec_visit(ctx, *v),
                None => Ok((None, ctx)),
            };
            match after_value {
                Ok((inferred, c1)) => {
                    match var_type {
                        Some(explicit) => {
                            if inferred matches Some(inf) && !(explicit == inf) {
                                Err(())
                            } else {
                                match ctx_declare(c1, name@, explicit, mutable) {
                                    Ok(c2) => Ok((None, c2)),
                                    Err(()) => Err(()),
                                }
                            }
                        },
                        None => match inferred {
                            Some(inf) => match ctx_declare(c1, name@, inf, mutable) {
                                Ok(c2) => Ok((None, c2)),
                                Err(()) => Err(()),
                            },
                            None => Err(()),
                        },
                    }
                },
                Err(()) => Err(()),
            }
        },
        AstNode::ConstDecl { name, const_type, value } => match spec_visit(ctx, *value) {
            Ok((vt, c1)) => {
                if vt matches Some(t) && !(const_type == t) {
                    Err(())
                } else {
                    match ctx_declare(c1, name@, const_type, false) {
                        Ok(c2) => Ok((None, c2)),
                        Err(()) => Err(()),
                    }
                }
            },
            Err(()) => Err(()),
        },
        AstNode::Return { value } => match value {
            Some(v) => match spec_visit(ctx, *v) {
                Ok((rt, c1)) => {
                    if c1.ret matches Some(expected) && rt matches Some(actual) && !(expected
                        == actual) {
                        Err(())
                    } else {
                        Ok((None, c1))
                    }
                },
                Err(()) => Err(()),
            },
            None => Ok((None, ctx)),
        },
        AstNode::BinaryOp { left, op, right } => match spec_visit(ctx, *left) {
            Ok((lt, c1)) => match spec_visit(c1, *right) {
                Ok((rt, c2)) => match (lt, rt) {
                    (Some(l), Some(r)) => {
                        if !(l == r) {
                            Err(())
                        } else if is_bool_op(op@) {
                            Ok((Some(Type::Bool), c2))
                        } else {
                            Ok((Some(l), c2))
                        }
                    },
                    _ => Ok((None, c2)),
                },
                Err(()) => Err(()),
            },
            Err(()) => Err(()),
        },
        AstNode::UnaryOp { op: _, operand } => spec_visit(ctx, *operand),
        AstNode::Literal(lit) => Ok((Some(literal_type(lit)), ctx)),
        AstNode::Identifier(name) => match lookup_in(ctx.scopes, name@) {
            Some(info) => Ok((Some(info.0), ctx)),
            None => Err(()),
        },
        AstNode::FunctionCall { name: _, args } => match spec_visit_all(ctx, args, 0) {
            Ok(c) => Ok((Some(Type::I32), c)),
            Err(()) => Err(()),
        },
        AstNode::If { condition, then_branch, else_branch } => match spec_visit(ctx, *condition) {
            Ok((ct, c1)) => {
                if ct matches Some(t) && !(t == Type::Bool) {
                    Err(())
                } else {
                    match spec_visit_all(ctx_enter(c1), then_branch, 0) {
                        Ok(c2) => {
                            let c3 = ctx_exit(c2);
                            match else_branch {
                                Some(else_body) => match spec_visit_all(
                                    ctx_enter(c3),
                                    else_body,
                                    0,
                                ) {
                                    Ok(c4) => Ok((None, ctx_exit(c4))),
                                    Err(()) => Err(()),
                                },
                                None => Ok((None, c3)),
                            }
                        },
                        Err(()) => Err(()),
                    }
                }
            },
            Err(()) => Err(()),
        },
        AstNode::While { condition, body } => match spec_visit(ctx, *condition) {
            Ok((ct, c1)) => {
                if ct matches Some(t) && !(t == Type::Bool) {
                    Err(())
                } else {
                    match spec_visit_all(ctx_enter(c1), body, 0) {
                        Ok(c2) => Ok((None, ctx_exit(c2))),
                        Err(()) => Err(()),
                    }
                }
            },
            Err(()) => Err(()),
        },
        AstNode::For { iterator, range_start, range_end, inclusive: _, body } => {
            match spec_visit(ctx, *range_start) {
                Ok((_, c1)) => match spec_visit(c1, *range_end) {
                    Ok((_, c2)) => {
                        match ctx_declare(ctx_enter(c2), iterator@, Type::I32, false) {
                            Ok(c3) => match spec_visit_all(c3, body, 0) {
                                Ok(c4) => Ok((None, ctx_exit(c4))),
                                Err(()) => Err(()),
                            },
                            Err(()) => Err(()),
                        }
                    },
                    Err(()) => Err(()),
                },
                Err(()) => Err(()),
            }
        },
        AstNode::Loop { body } => match spec_visit_all(ctx_enter(ctx), body, 0) {
            Ok(c2) => Ok((None, ctx_exit(c2))),
            Err(()) => Err(()),
        },
        AstNode::Break => Ok((None, ctx)),
        AstNode::Continue => Ok((None, ctx)),
        AstNode::Assignment { target, value } => match lookup_in(ctx.scopes, target@) {
            Some((target_type, mutable)) => {
                if !mutable {
                    Err(())
                } else {
                    match spec_visit(ctx, *value) {
                        Ok((vt, c1)) => {
                            if vt matches Some(t) && !(target_type == t) {
                                Err(())
                            } else {
                                Ok((None, c1))
                            }
                        },
                        Err(()) => Err(()),
                    }
                }
            },
            None => Err(()),
        },
        AstNode::ArrayLiteral { elements } => {
            if elements@.len() == 0 {
                Ok((Some(Type::Array(Box::new(Type::I32), 0)), ctx))
            } else {
                match spec_visit(ctx, elements@[0]) {
                    Ok((first, c1)) => match first {
                        Some(elem_type) => {
                            match spec_visit_elems(c1, elements, 1, elem_type) {
                                Ok(c2) => Ok(
                                    (
                                        Some(
                                            Type::Array(
                                                Box::new(elem_type),
                                                elements@.len() as usize,
                                            ),
                                        ),
                                        c2,
                                    ),
                                ),
                                Err(()) => Err(()),
                            }
                        },
                        None => Ok((None, c1)),
                    },
                    Err(()) => Err(()),
                }
            }
        },
        AstNode::ArrayRepeat { value, count } => match spec_visit(ctx, *value) {
            Ok((vt, c1)) => match vt {
                Some(t) => Ok((Some(Type::Array(Box::new(t), count)), c1)),
                None => Ok((None, c1)),
            },
            Err(()) => Err(()),
        },
        AstNode::ArrayIndex { array, index } => match spec_visit(ctx, *array) {
            Ok((at, c1)) => match spec_visit(c1, *index) {
                Ok((_, c2)) => match at {
                    Some(Type::Array(elem_type, _)) => Ok((Some(*elem_type), c2)),
                    _ => Err(()),
                },
                Err(()) => Err(()),
            },
            Err(()) => Err(()),
        },
    }
}

/// Visits a run of statements in order, threading the context.
pub open spec fn spec_visit_all(ctx: ScopeCtx, stmts: Vec<AstNode>, i: int) -> Result<ScopeCtx, ()>
    decreases stmts, stmts@.len() - i, 1int,
{
    if i < 0 || i >= stmts@.len() {
        Ok(ctx)
    } else {
        match spec_visit(ctx, stmts@[i]) {
            Ok((_, c)) => spec_visit_all(c, stmts, i + 1),
            Err(()) => Err(()),
        }
    }
}

/// Declares a function's parameters in order, each with its declared
/// type, none of them mutable.
pub open spec fn spec_declare_params(ctx: ScopeCtx, params: Vec<(String, Type)>, i: int) -> Result<
    ScopeCtx,
    (),
>
    decreases params@.len() - i,
{
    if i < 0 || i >= params@.len() {
        Ok(ctx)
    } else {
        match ctx_declare(ctx, params@[i].0@, params@[i].1, false) {
            Ok(c) => spec_declare_params(c, params, i + 1),
            Err(()) => Err(()),
        }
    }
}

/// Visits the remaining elements of an array literal, requiring each to
/// share the first element's type.
pub open spec fn spec_visit_elems(
    ctx: ScopeCtx,
    elements: Vec<AstNode>,
    i: int,
    elem_type: Type,
) -> Result<ScopeCtx, ()>
    decreases elements, elements@.len() - i, 1int,
{
    if i < 0 || i >= elements@.len() {
        Ok(ctx)
    } else {
        match spec_visit(ctx, elements@[i]) {
            Ok((et, c1)) => {
                if et matches Some(t) && !(elem_type == t) {
                    Err(())
                } else {
                    spec_visit_elems(c1, elements, i + 1, elem_type)
                }
            },
            Err(()) => Err(()),
        }
    }
}

/// Whether the whole program is accepted by semantic analysis: the walk
/// of the module from a fresh context succeeds.
pub open spec fn spec_analyze(ast: AstNode) -> bool {
    spec_visit(initial_ctx(), ast) is Ok
}


/// A name may always be redeclared in a freshly opened inner scope,
/// whatever the enclosing scopes bind: the inner declaration shadows the
/// outer one instead of clashing with it.
pub proof fn lemma_shadowing_allowed(ctx: ScopeCtx, name: Seq<char>, t: Type, mutable: bool)
    ensures
        ctx_declare(ctx_enter(ctx), name, t, mutable) is Ok,
{
}

/// An identifier declared in no enclosing-or-same scope is rejected by
/// the walk, so such a program never reaches code generation.
pub proof fn lemma_undeclared_use_rejected(ctx: ScopeCtx, name: String)
    requires
        lookup_in(ctx.scopes, name@) is None,
    ensures
        spec_visit(ctx, AstNode::Identifier(name)) is Err,
{
}

/// Assignment to a binding declared immutable is rejected by the walk.
pub proof fn lemma_immutable_assignment_rejected(
    ctx: ScopeCtx,
    target: String,
    value: Box<AstNode>,
)
    requires
        lookup_in(ctx.scopes, target@) matches Some(info) && !info.1,
    ensures
        spec_visit(ctx, AstNode::Assignment { target, value }) is Err,
{
}

/// The view of one executable scope: later entries inserted last.
spec fn scope_view(entries: Seq<(String, SymbolInfo)>) -> ScopeMap
    decreases entries.len(),
{
    if entries.len() == 0 {
        Map::empty()
    } else {
        scope_view(entries.drop_last()).insert(
            entries.last().0@,
            (entries.last().1.symbol_type, entries.last().1.mutable),
        )
    }
}

/// No name occurs twice in one scope.
spec fn scope_unique(entries: Seq<(String, SymbolInfo)>) -> bool {
    forall|i: int, j: int|
        0 <= i < j < entries.len() ==> (#[trigger] entries[i].0)@ != (#[trigger] entries[j].0)@
}

/// An entry of a duplicate-free scope is found in its view.
proof fn lemma_scope_view_entry(entries: Seq<(String, SymbolInfo)>, i: int)
    requires
        scope_unique(entries),
        0 <= i < entries.len(),
    ensures
        scope_view(entries).contains_key(entries[i].0@),
        scope_view(entries)[entries[i].0@] == (entries[i].1.symbol_type, entries[i].1.mutable),
    decreases entries.len(),
{
    if i == entries.len() - 1 {
    } else {
        assert(entries.drop_last()[i] == entries[i]);
        lemma_scope_view_entry(entries.drop_last(), i);
        assert(entries[i].0@ != entries[entries.len() - 1].0@);
    }
}

/// A name matching no entry is absent from the view.
proof fn lemma_scope_view_absent(entries: Seq<(String, SymbolInfo)>, name: Seq<char>)
    requires
        forall|i: int| 0 <= i < entries.len() ==> (#[trigger] entries[i].0)@ != name,
    ensures
        !scope_view(entries).contains_key(name),
    decreases entries.len(),
{
    if entries.len() > 0 {
        assert(forall|i: int|
            0 <= i < entries.len() - 1 ==> (#[trigger] entries.drop_last()[i].0)@ != name);
        lemma_scope_view_absent(entries.drop_last(), name);
    }
}

/// A deep copy of an optional type, equal to the original.
fn opt_type_clone(t: &Option<Type>) -> (r: Option<Type>)
    ensures
        r == *t,
{
    match t {
        Some(x) => Some(type_clone(x)),
        None => None,
    }
}

/// The semantic analyzer: a stack of scopes, innermost last, and the
/// declared return type of the function under analysis.
pub struct SemanticAnalyzer {
    symbol_table: Vec<Vec<(String, SymbolInfo)>>,
    current_function_return: Option<Type>,
}

impl SemanticAnalyzer {
    /// The analyzer's context as the specification mirror sees it.
    pub closed spec fn ctx(&self) -> ScopeCtx {
        ScopeCtx {
            scopes: self.symbol_table@.map_values(
                |sc: Vec<(String, SymbolInfo)>| scope_view(sc@),
            ),
            ret: self.current_function_return,
        }
    }

    /// Every scope on the stack is duplicate-free.
    pub closed spec fn wf(&self) -> bool {
        forall|k: int|
            0 <= k < self.symbol_table@.len() ==> scope_unique(
                (#[trigger] self.symbol_table@[k])@,
            )
    }

    /// A fresh analyzer holding one empty module-level scope.
    pub fn new() -> (r: SemanticAnalyzer)
        ensures
            r.wf(),
            r.ctx() == initial_ctx(),
    {
        let mut symbol_table: Vec<Vec<(String, SymbolInfo)>> = Vec::new();
        symbol_table.push(Vec::new());
        let r = SemanticAnalyzer { symbol_table, current_function_return: None };
        proof {
            assert(r.ctx().scopes =~~= initial_ctx().scopes);
            assert(r.ctx() == initial_ctx());
        }
        r
    }

    /// Checks a whole program.  Acceptance is exactly what the mirror
    /// [`spec_analyze`] describes: every use declared in an
    /// enclosing-or-same scope, every assignment target mutable, every
    /// checked type pair structurally equal.  Rejection is always a
    /// semantic error.
    pub fn analyze(&mut self, ast: &AstNode) -> (r: Result<(), CompilerError>)
        requires
            old(self).wf(),
            old(self).ctx() == initial_ctx(),
        ensures
            final(self).wf(),
            r matches Ok(()) <==> spec_analyze(*ast),
            r matches Ok(()) ==> spec_visit(initial_ctx(), *ast) matches Ok(p)
                && final(self).ctx() == p.1,
            r matches Err(e) ==> (e matches CompilerError::SemanticError(_)),
    {
        match self.visit(ast) {
            Ok(_) => Ok(()),
            Err(e) => Err(e),
        }
    }

    fn enter_scope(&mut self)
        requires
            old(self).wf(),
        ensures
            final(self).wf(),
            final(self).ctx() == ctx_enter(old(self).ctx()),
    {
        self.symbol_table.push(Vec::new());
        proof {
            assert(self.ctx().scopes =~~= ctx_enter(old(self).ctx()).scopes);
        }
    }

    fn exit_scope(&mut self)
        requires
            old(self).wf(),
        ensures
            final(self).wf(),
            final(self).ctx() == ctx_exit(old(self).ctx()),
    {
        if self.symbol_table.len() > 0 {
            let _ = self.symbol_table.pop();
            proof {
                assert(self.ctx().scopes =~~= ctx_exit(old(self).ctx()).scopes);
            }
        }
    }

    fn declare_variable(&mut self, name: String, var_type: Type, mutable: bool) -> (r: Result<
        (),
        CompilerError,
    >)
        requires
            old(self).wf(),
        ensures
            final(self).wf(),
            match ctx_declare(old(self).ctx(), name@, var_type, mutable) {
                Ok(c) => r is Ok && final(self).ctx() == c,
                Err(()) => r matches Err(e) && (e matches CompilerError::SemanticError(_))
                    && final(self).ctx() == old(self).ctx(),
            },
    {
        if self.symbol_table.len() == 0 {
            return Ok(());
        }
        let mut scope = self.symbol_table.pop().unwrap();
        let n = scope.len();
        let mut i: usize = 0;
        let mut found: bool = false;
        #[verifier::loop_isolation(false)]
        while i < n
            invariant
                i <= n,
                found ==> scope_view(scope@).contains_key(name@),
                !found ==> forall|j: int| 0 <= j < i ==> (#[trigger] scope@[j].0)@ != name@,
            decreases n - i,
        {
            if str_eqx(scope[i].0.as_str(), name.as_str()) {
                found = true;
                proof {
                    lemma_scope_view_entry(scope@, i as int);
                }
                break ;
            }
            i = i + 1;
        }
        if found {
            self.symbol_table.push(scope);
            proof {
                assert(self.ctx().scopes =~~= old(self).ctx().scopes);
            }
            let mut msg = String::from_str("Variable '");
            msg.append(name.as_str());
            msg.append("' already declared in this scope");
            return Err(CompilerError::SemanticError(msg));
        }
        proof {
            lemma_scope_view_absent(scope@, name@);
        }
        let ghost old_scope = scope@;
        scope.push((name, SymbolInfo { symbol_type: var_type, mutable }));
        self.symbol_table.push(scope);
        proof {
            assert(scope@.drop_last() =~= old_scope);
            match ctx_declare(old(self).ctx(), name@, var_type, mutable) {
                Ok(c) => {
                    assert(self.ctx().scopes =~~= c.scopes);
                },
                Err(()) => {},
            }
        }
        Ok(())
    }

    fn lookup_variable(&self, name: &str) -> (r: Option<(Type, bool)>)
        requires
            self.wf(),
        ensures
            r == lookup_in(self.ctx().scopes, name@),
    {
        let depth = self.symbol_table.len();
        proof {
            assert(self.ctx().scopes.take(depth as int) =~= self.ctx().scopes);
        }
        let mut k = depth;
        #[verifier::loop_isolation(false)]
        while k > 0
            invariant
                k <= depth,
                lookup_in(self.ctx().scopes, name@) == lookup_in(
                    self.ctx().scopes.take(k as int),
                    name@,
                ),
            decreases k,
        {
            k = k - 1;
            let scope = &self.symbol_table[k];
            let n = scope.len();
            let mut i: usize = 0;
            #[verifier::loop_isolation(false)]
            while i < n
                invariant
                    i <= n,
                    forall|j: int| 0 <= j < i ==> (#[trigger] scope@[j].0)@ != name@,
                decreases n - i,
            {
                if str_eqx(scope[i].0.as_str(), name) {
                    proof {
                        lemma_scope_view_entry(scope@, i as int);
                        assert(self.ctx().scopes.take(k as int + 1).last() == scope_view(scope@));
                        assert(self.ctx().scopes.take(k as int + 1).drop_last() =~= self.ctx()
                            .scopes.take(k as int));
                    }
                    return Some((type_clone(&scope[i].1.symbol_type), scope[i].1.mutable));
                }
                i = i + 1;
            }
            proof {
                lemma_scope_view_absent(scope@, name@);
                assert(self.ctx().scopes.take(k as int + 1).last() == scope_view(scope@));
                assert(self.ctx().scopes.take(k as int + 1).drop_last() =~= self.ctx().scopes.take(
                    k as int,
                ));
            }
        }
        proof {
            assert(self.ctx().scopes.take(0) =~= Seq::<ScopeMap>::empty());
        }
        None
    }

    /// Structural type compatibility: exact equality.
    fn types_compatible(&self, t1: &Type, t2: &Type) -> (r: bool)
        ensures
            r == (*t1 == *t2),
    {
        type_eq(t1, t2)
    }

    fn visit(&mut self, node: &AstNode) -> (r: Result<Option<Type>, CompilerError>)
        requires
            old(self).wf(),
        ensures
            final(self).wf(),
            match spec_visit(old(self).ctx(), *node) {
                Ok((t, c)) => r matches Ok(t2) && t2 == t && final(self).ctx() == c,
                Err(()) => r matches Err(e) && (e matches CompilerError::SemanticError(_)),
            },
        decreases *node, 1int, 0int,
    {
        match node {
            AstNode::Module { name: _, items } => {
                match self.visit_all(items) {
                    Ok(()) => Ok(None),
                    Err(e) => Err(e),
                }
            },
            AstNode::Function { name: _, params, return_type, body } => {
                self.enter_scope();

                let ghost saved_ctx = old(self).ctx();
                let old_return = opt_type_clone(&self.current_function_return);
                self.current_function_return = opt_type_clone(return_type);

                let n = params.len();
                let mut i: usize = 0;
                #[verifier::loop_isolation(false)]
                loop
                    invariant
                        i <= n,
                        n == params@.len(),
                        self.wf(),
                        spec_declare_params(
                            ScopeCtx { scopes: saved_ctx.scopes.push(Map::empty()), ret: *return_type },
                            *params,
                            0,
                        ) == spec_declare_params(self.ctx(), *params, i as int),
                        self.ctx().ret == *return_type,
                    decreases n - i,
                {
                    if i >= n {
                        break ;
                    }
                    let pname = params[i].0.clone();
                    let ptype = type_clone(&params[i].1);
                    match self.declare_variable(pname, ptype, false) {
                        Ok(()) => {},
                        Err(e) => {
                            return Err(e);
                        },
                    }
                    i = i + 1;
                }

                match self.visit_all(body) {
                    Ok(()) => {},
                    Err(e) => {
                        return Err(e);
                    },
                }

                self.current_function_return = old_return;
                self.exit_scope();
                Ok(None)
            },
            AstNode::VariableDecl { name, var_type, value, mutable } => {
                let inferred_type: Option<Type> = match value {
                    Some(val) => {
                        match self.visit(val) {
                            Ok(t) => t,
                            Err(e) => {
                                return Err(e);
                            },
                        }
                    },
                    None => None,
                };

                let final_type: Type = match (var_type, inferred_type) {
                    (Some(explicit), Some(inf)) => {
                        if !self.types_compatible(explicit, &inf) {
                            return Err(
                                CompilerError::SemanticError(
                                    String::from_str("Type mismatch in declaration"),
                                ),
                            );
                        }
                        type_clone(explicit)
                    },
                    (Some(explicit), None) => type_clone(explicit),
                    (None, Some(inf)) => inf,
                    (None, None) => {
                        let mut msg = String::from_str("Cannot infer type for variable '");
                        msg.append(name.as_str());
                        msg.append("'");
                        return Err(CompilerError::SemanticError(msg));
                    },
                };

                match self.declare_variable(name.clone(), final_type, *mutable) {
                    Ok(()) => Ok(None),
                    Err(e) => Err(e),
                }
            },
            AstNode::ConstDecl { name, const_type, value } => {
                let value_type = match self.visit(value) {
                    Ok(t) => t,
                    Err(e) => {
                        return Err(e);
                    },
                };
                if let Some(val_type) = value_type {
                    if !self.types_compatible(const_type, &val_type) {
                        return Err(
                            CompilerError::SemanticError(
                                String::from_str("Constant type mismatch"),
                            ),
                        );
                    }
                }
                match self.declare_variable(name.clone(), type_clone(const_type), false) {
                    Ok(()) => Ok(None),
                    Err(e) => Err(e),
                }
            },
            AstNode::Return { value } => {
                match value {
                    Some(val) => {
                        let return_type = match self.visit(val) {
                            Ok(t) => t,
                            Err(e) => {
                                return Err(e);
                            },
                        };
                        let mismatch: bool = match (&self.current_function_return, &return_type) {
                            (Some(expected), Some(actual)) => !self.types_compatible(
                                expected,
                                actual,
                            ),
                            _ => false,
                        };
                        if mismatch {
                            return Err(
                                CompilerError::SemanticError(
                                    String::from_str("Return type mismatch"),
                                ),
                            );
                        }
                        Ok(None)
                    },
                    None => Ok(None),
                }
            },
            AstNode::BinaryOp { left, op, right } => {
                let left_type = match self.visit(left) {
                    Ok(t) => t,
                    Err(e) => {
                        return Err(e);
                    },
                };
                let right_type = match self.visit(right) {
                    Ok(t) => t,
                    Err(e) => {
                        return Err(e);
                    },
                };

                match (left_type, right_type) {
                    (Some(lt), Some(rt)) => {
                        if !self.types_compatible(&lt, &rt) {
                            return Err(
                                CompilerError::SemanticError(
                                    String::from_str("Type mismatch in binary operation"),
                                ),
                            );
                        }
                        let boolish = str_eqx(op.as_str(), "==") || str_eqx(op.as_str(), "!=")
                            || str_eqx(op.as_str(), "<") || str_eqx(op.as_str(), "<=") || str_eqx(
                            op.as_str(),
                            ">",
                        ) || str_eqx(op.as_str(), ">=") || str_eqx(op.as_str(), "&&") || str_eqx(
                            op.as_str(),
                            "||",
                        );
                        if boolish {
                            Ok(Some(Type::Bool))
                        } else {
                            Ok(Some(lt))
                        }
                    },
                    _ => Ok(None),
                }
            },
            AstNode::UnaryOp { op: _, operand } => self.visit(operand),
            AstNode::Literal(lit) => {
                Ok(
                    Some(
                        match lit {
                            Literal::Int(_) => Type::I32,
                            Literal::Float(_) => Type::F64,
                            Literal::String(_) => Type::Str,
                            Literal::Bool(_) => Type::Bool,
                            Literal::Char(_) => Type::Char,
                        },
                    ),
                )
            },
            AstNode::Identifier(name) => {
                match self.lookup_variable(name.as_str()) {
                    Some(info) => Ok(Some(info.0)),
                    None => {
                        let mut msg = String::from_str("Undefined variable '");
                        msg.append(name.as_str());
                        msg.append("'");
                        Err(CompilerError::SemanticError(msg))
                    },
                }
            },
            AstNode::FunctionCall { name: _, args } => {
                match self.visit_all(args) {
                    Ok(()) => Ok(Some(Type::I32)),
                    Err(e) => Err(e),
                }
            },
            AstNode::If { condition, then_branch, else_branch } => {
                let cond_type = match self.visit(condition) {
                    Ok(t) => t,
                    Err(e) => {
                        return Err(e);
                    },
                };
                if let Some(t) = cond_type {
                    if !self.types_compatible(&t, &Type::Bool) {
                        return Err(
                            CompilerError::SemanticError(
                                String::from_str("Condition must be boolean"),
                            ),
                        );
                    }
                }

                self.enter_scope();
                match self.visit_all(then_branch) {
                    Ok(()) => {},
                    Err(e) => {
                        return Err(e);
                    },
                }
                self.exit_scope();

                if let Some(else_body) = else_branch {
                    self.enter_scope();
                    match self.visit_all(else_body) {
                        Ok(()) => {},
                        Err(e) => {
                            return Err(e);
                        },
                    }
                    self.exit_scope();
                }

                Ok(None)
            },
            AstNode::While { condition, body } => {
                let cond_type = match self.visit(condition) {
                    Ok(t) => t,
                    Err(e) => {
                        return Err(e);
                    },
                };
                if let Some(t) = cond_type {
                    if !self.types_compatible(&t, &Type::Bool) {
                        return Err(
                            CompilerError::SemanticError(
                                String::from_str("Condition must be boolean"),
                            ),
                        );
                    }
                }

                self.enter_scope();
                match self.visit_all(body) {
                    Ok(()) => {},
                    Err(e) => {
                        return Err(e);
                    },
                }
                self.exit_scope();

                Ok(None)
            },
            AstNode::For { iterator, range_start, range_end, inclusive: _, body } => {
                match self.visit(range_start) {
                    Ok(_) => {},
                    Err(e) => {
                        return Err(e);
                    },
                }
                match self.visit(range_end) {
                    Ok(_) => {},
                    Err(e) => {
                        return Err(e);
                    },
                }

                self.enter_scope();
                match self.declare_variable(iterator.clone(), Type::I32, false) {
                    Ok(()) => {},
                    Err(e) => {
                        return Err(e);
                    },
                }
                match self.visit_all(body) {
                    Ok(()) => {},
                    Err(e) => {
                        return Err(e);
                    },
                }
                self.exit_scope();

                Ok(None)
            },
            AstNode::Loop { body } => {
                self.enter_scope();
                match self.visit_all(body) {
                    Ok(()) => {},
                    Err(e) => {
                        return Err(e);
                    },
                }
                self.exit_scope();
                Ok(None)
            },
            AstNode::Break => Ok(None),
            AstNode::Continue => Ok(None),
            AstNode::Assignment { target, value } => {
                let symbol_info = match self.lookup_variable(target.as_str()) {
                    Some(info) => info,
                    None => {
                        let mut msg = String::from_str("Undefined variable '");
                        msg.append(target.as_str());
                        msg.append("'");
                        return Err(CompilerError::SemanticError(msg));
                    },
                };

                if !symbol_info.1 {
                    let mut msg = String::from_str("Cannot assign to immutable variable '");
                    msg.append(target.as_str());
                    msg.append("'");
                    return Err(CompilerError::SemanticError(msg));
                }

                let value_type = match self.visit(value) {
                    Ok(t) => t,
                    Err(e) => {
                        return Err(e);
                    },
                };
                if let Some(val_type) = value_type {
                    if !self.types_compatible(&symbol_info.0, &val_type) {
                        return Err(
                            CompilerError::SemanticError(
                                String::from_str("Type mismatch in assignment"),
                            ),
                        );
                    }
                }

                Ok(None)
            },
            AstNode::ArrayLiteral { elements } => {
                if elements.len() == 0 {
                    return Ok(Some(Type::Array(Box::new(Type::I32), 0)));
                }

                let first_type = match self.visit(&elements[0]) {
                    Ok(t) => t,
                    Err(e) => {
                        return Err(e);
                    },
                };
                match first_type {
                    Some(elem_type) => {
                        let n = elements.len();
                        let mut i: usize = 1;
                        #[verifier::loop_isolation(false)]
                        loop
                            invariant
                                1 <= i <= n,
                                n == elements@.len(),
                                self.wf(),
                                spec_visit_elems(
                                    old_after_first(old(self).ctx(), *elements),
                                    *elements,
                                    1,
                                    elem_type,
                                ) == spec_visit_elems(self.ctx(), *elements, i as int, elem_type),
                            decreases n - i,
                        {
                            if i >= n {
                                break ;
                            }
                            let et = match self.visit(&elements[i]) {
                                Ok(t) => t,
                                Err(e) => {
                                    return Err(e);
                                },
                            };
                            if let Some(t) = et {
                                if !self.types_compatible(&elem_type, &t) {
                                    return Err(
                                        CompilerError::SemanticError(
                                            String::from_str("Array elements must have same type"),
                                        ),
                                    );
                                }
                            }
                            i = i + 1;
                        }
                        Ok(Some(Type::Array(Box::new(elem_type), elements.len())))
                    },
                    None => Ok(None),
                }
            },
            AstNode::ArrayRepeat { value, count } => {
                let elem_type = match self.visit(value) {
                    Ok(t) => t,
                    Err(e) => {
                        return Err(e);
                    },
                };
                match elem_type {
                    Some(t) => Ok(Some(Type::Array(Box::new(t), *count))),
                    None => Ok(None),
                }
            },
            AstNode::ArrayIndex { array, index } => {
                let array_type = match self.visit(array) {
                    Ok(t) => t,
                    Err(e) => {
                        return Err(e);
                    },
                };
                match self.visit(index) {
                    Ok(_) => {},
                    Err(e) => {
                        return Err(e);
                    },
                }

                match array_type {
                    Some(Type::Array(elem_type, _)) => Ok(Some(*elem_type)),
                    _ => Err(
                        CompilerError::SemanticError(String::from_str("Can only index arrays")),
                    ),
                }
            },
        }
    }

    /// Visits each node of a run of statements in order.
    fn visit_all(&mut self, stmts: &Vec<AstNode>) -> (r: Result<(), CompilerError>)
        requires
            old(self).wf(),
        ensures
            final(self).wf(),
            match spec_visit_all(old(self).ctx(), *stmts, 0) {
                Ok(c) => r is Ok && final(self).ctx() == c,
                Err(()) => r matches Err(e) && (e matches CompilerError::SemanticError(_)),
            },
        decreases *stmts, 0int, 1int,
    {
        let n = stmts.len();
        let mut i: usize = 0;
        #[verifier::loop_isolation(false)]
        loop
            invariant
                i <= n,
                n == stmts@.len(),
                self.wf(),
                spec_visit_all(old(self).ctx(), *stmts, 0) == spec_visit_all(
                    self.ctx(),
                    *stmts,
                    i as int,
                ),
            decreases n - i,
        {
            if i >= n {
                break ;
            }
            match self.visit(&stmts[i]) {
                Ok(_) => {},
                Err(e) => {
                    return Err(e);
                },
            }
            i = i + 1;
        }
        Ok(())
    }
}

/// The context after visiting the first element of a non-empty array
/// literal, assuming that visit succeeded.
pub open spec fn old_after_first(ctx: ScopeCtx, elements: Vec<AstNode>) -> ScopeCtx {
    match spec_visit(ctx, elements@[0]) {
        Ok((_, c)) => c,
        Err(()) => ctx,
    }
}

} // verus!
