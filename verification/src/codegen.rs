//! Stack-machine code generation: two independent output passes over a
//! well-formed tree, one producing a readable pseudo-IR text and one
//! producing x86-64 assembly text for an external assembler.
//!
//! The assembly pass is pinned by a specification-level mirror: the
//! emitted text is exactly the rendering of the line sequence that
//! [`spec_to_assembly`] describes.  Code is modelled as a sequence of
//! structured lines ([`AsmLine`]), which also lets the label discipline
//! be stated and proved: every branch label a run allocates is defined
//! exactly once, and every function name labels exactly one block.
//!
//! One evaluation register holds the current expression value; binary
//! operations evaluate the right operand first.  Stack slots are 8 bytes,
//! assigned flat per function in first-declared order and never reclaimed
//! when a nested block exits.  A frame over 256 MiB, or a tree of more
//! than four million nodes, is refused with a code-generation error, the
//! kind reserved for such defensive internal checks.

use vstd::prelude::*;

use crate::error::CompilerError;
use crate::parser::AstNode;
use crate::parser::Literal;
use crate::parser::Type;
use crate::text::dec_str;
use crate::text::int_str;
use crate::text::i64_to_string;
use crate::text::str_eqx;
use crate::text::u64_to_string;
use crate::text::usize_to_string;

verus! {

broadcast use vstd::std_specs::vec::group_vec_axioms, vstd::seq::group_seq_axioms;

/// The largest tree the assembly pass accepts, in nodes.
pub const MAX_AST_NODES: u64 = 0x0040_0000;

/// The largest per-function frame the assembly pass accepts, in bytes.
pub const MAX_FRAME_BYTES: u64 = 0x1000_0000;

/// The slot count that fills the largest accepted frame exactly.
pub const MAX_FRAME_SLOTS: u64 = 0x0200_0000;

/// One line of generated assembly: a function label, a numbered local
/// label, one instruction, or a blank separator line.
pub enum AsmLine {
    FnLabel(String),
    LocalLabel(usize),
    Instr(InstrKind),
    Blank,
}

/// One emitted instruction, with its operands.
pub enum InstrKind {
    PushRbp,
    MovRbpRsp,
    SubRspImm(u64),
    AddRspImm(u64),
    XorEaxEax,
    Leave,
    Ret,
    MovRaxImm(i64),
    MovSlotRax(u64),
    MovRaxSlot(u64),
    MovRcxSlot(u64),
    TestRaxRax,
    Jz(usize),
    Jmp(usize),
    Jg(usize),
    Jge(usize),
    CmpRaxRcx,
    IncRax,
    LeaRaxStr(usize),
    LeaRcxStr(usize),
    PushRax,
    PopRcx,
    AddRaxRcx,
    SubRaxRcx,
    ImulRaxRcx,
    XorRdxRdx,
    IdivRcx,
    MovRaxRdx,
    SeteAl,
    SetneAl,
    SetlAl,
    SetleAl,
    SetgAl,
    SetgeAl,
    SetzAl,
    MovzxRaxAl,
    AndRaxRcx,
    OrRaxRcx,
    NegRax,
    MovRcxRax,
    CallPrintf,
}

/// The exact text of one instruction, newline included.
pub open spec fn instr_text(i: InstrKind) -> Seq<char> {
    match i {
        InstrKind::PushRbp => "    push rbp\n"@,
        InstrKind::MovRbpRsp => "    mov rbp, rsp\n"@,
        InstrKind::SubRspImm(n) => "    sub rsp, "@ + dec_str(n as int) + "\n"@,
        InstrKind::AddRspImm(n) => "    add rsp, "@ + dec_str(n as int) + "\n"@,
        InstrKind::XorEaxEax => "    xor eax, eax\n"@,
        InstrKind::Leave => "    leave\n"@,
        InstrKind::Ret => "    ret\n"@,
        InstrKind::MovRaxImm(n) => "    mov rax, "@ + int_str(n as int) + "\n"@,
        InstrKind::MovSlotRax(off) => "    mov [rbp-"@ + dec_str(off as int) + "], rax\n"@,
        InstrKind::MovRaxSlot(off) => "    mov rax, [rbp-"@ + dec_str(off as int) + "]\n"@,
        InstrKind::MovRcxSlot(off) => "    mov rcx, [rbp-"@ + dec_str(off as int) + "]\n"@,
        InstrKind::TestRaxRax => "    test rax, rax\n"@,
        InstrKind::Jz(n) => "    jz L"@ + dec_str(n as int) + "\n"@,
        InstrKind::Jmp(n) => "    jmp L"@ + dec_str(n as int) + "\n"@,
        InstrKind::Jg(n) => "    jg L"@ + dec_str(n as int) + "\n"@,
        InstrKind::Jge(n) => "    jge L"@ + dec_str(n as int) + "\n"@,
        InstrKind::CmpRaxRcx => "    cmp rax, rcx\n"@,
        InstrKind::IncRax => "    inc rax\n"@,
        InstrKind::LeaRaxStr(n) => "    lea rax, [rel str_"@ + dec_str(n as int) + "]\n"@,
        InstrKind::LeaRcxStr(n) => "    lea rcx, [rel str_"@ + dec_str(n as int) + "]\n"@,
        InstrKind::PushRax => "    push rax\n"@,
        InstrKind::PopRcx => "    pop rcx\n"@,
        InstrKind::AddRaxRcx => "    add rax, rcx\n"@,
        InstrKind::SubRaxRcx => "    sub rax, rcx\n"@,
        InstrKind::ImulRaxRcx => "    imul rax, rcx\n"@,
        InstrKind::XorRdxRdx => "    xor rdx, rdx\n"@,
        InstrKind::IdivRcx => "    idiv rcx\n"@,
        InstrKind::MovRaxRdx => "    mov rax, rdx\n"@,
        InstrKind::SeteAl => "    sete al\n"@,
        InstrKind::SetneAl => "    setne al\n"@,
        InstrKind::SetlAl => "    setl al\n"@,
        InstrKind::SetleAl => "    setle al\n"@,
        InstrKind::SetgAl => "    setg al\n"@,
        InstrKind::SetgeAl => "    setge al\n"@,
        InstrKind::SetzAl => "    setz al\n"@,
        InstrKind::MovzxRaxAl => "    movzx rax, al\n"@,
        InstrKind::AndRaxRcx => "    and rax, rcx\n"@,
        InstrKind::OrRaxRcx => "    or rax, rcx\n"@,
        InstrKind::NegRax => "    neg rax\n"@,
        InstrKind::MovRcxRax => "    mov rcx, rax\n"@,
        InstrKind::CallPrintf => "    call printf\n"@,
    }
}

/// The exact text of one assembly line.
pub open spec fn render_line(l: AsmLine) -> Seq<char> {
    match l {
        AsmLine::FnLabel(name) => name@ + ":\n"@,
        AsmLine::LocalLabel(n) => "L"@ + dec_str(n as int) + ":\n"@,
        AsmLine::Instr(i) => instr_text(i),
        AsmLine::Blank => "\n"@,
    }
}

/// The exact text of a sequence of assembly lines.
pub open spec fn render_lines(ls: Seq<AsmLine>) -> Seq<char>
    decreases ls.len(),
{
    if ls.len() == 0 {
        Seq::empty()
    } else {
        render_lines(ls.drop_last()) + render_line(ls.last())
    }
}

/// Rendering distributes over appending one line.
pub proof fn lemma_render_push(ls: Seq<AsmLine>, l: AsmLine)
    ensures
        render_lines(ls.push(l)) == render_lines(ls) + render_line(l),
{
    assert(ls.push(l).drop_last() =~= ls);
}

/// One escaped character of a data-section string: raw newlines and
/// carriage returns are written out as two-character escapes.
pub open spec fn esc_char(c: char) -> Seq<char> {
    if c == '\n' {
        seq!['\\', 'n']
    } else if c == '\r' {
        seq!['\\', 'r']
    } else {
        seq![c]
    }
}

/// A data-section string with its newlines and carriage returns escaped.
pub open spec fn esc_text(s: Seq<char>) -> Seq<char>
    decreases s.len(),
{
    if s.len() == 0 {
        Seq::empty()
    } else {
        esc_text(s.drop_last()) + esc_char(s.last())
    }
}

/// Escaping distributes over appending one character.
pub proof fn lemma_esc_push(s: Seq<char>, c: char)
    ensures
        esc_text(s.push(c)) == esc_text(s) + esc_char(c),
{
    assert(s.push(c).drop_last() =~= s);
}

/// The data-section entries for the interned strings from index `i` on:
/// each as a null-terminated byte string under its own symbol, in
/// insertion order.
pub open spec fn data_entries(pool: Seq<Seq<char>>, i: int) -> Seq<char>
    decreases pool.len() - i,
{
    if i < 0 || i >= pool.len() {
        Seq::empty()
    } else {
        "    str_"@ + dec_str(i) + ": db `"@ + esc_text(pool[i]) + "`, 0\n"@ + data_entries(
            pool,
            i + 1,
        )
    }
}

/// The fixed module frame around the generated code: the data section
/// listing the string pool, an empty uninitialized-data section, and the
/// text section header with its entry symbol and external imports.
pub open spec fn header_text(pool: Seq<Seq<char>>) -> Seq<char> {
    "section .data\n"@ + data_entries(pool, 0) + "\n"@ + "section .bss\n\n"@ + "section .text\n"@
        + "    global main\n"@ + "    extern ExitProcess\n"@ + "    extern printf\n\n"@
}

/// The generator's state: the label counter, the string pool, the flat
/// per-function variable-to-offset map, the next free stack offset, and
/// the stack of enclosing (break, continue) label pairs.
pub struct CgSt {
    pub label_counter: int,
    pub strings: Seq<Seq<char>>,
    pub vars: Map<Seq<char>, int>,
    pub stack_offset: int,
    pub loops: Seq<(int, int)>,
}

/// The state a code-generation pass starts from.
pub open spec fn init_cg_st() -> CgSt {
    CgSt {
        label_counter: 0,
        strings: Seq::empty(),
        vars: Map::empty(),
        stack_offset: 0,
        loops: Seq::empty(),
    }
}

/// The number of nodes in a tree.
pub open spec fn ast_size(n: AstNode) -> int
    decreases n, 0int, 0int,
{
    1 + match n {
        AstNode::Module { name: _, items } => ast_size_all(items, 0),
        AstNode::Function { name: _, params: _, return_type: _, body } => ast_size_all(body, 0),
        AstNode::VariableDecl { name: _, var_type: _, value, mutable: _ } => match value {
            Some(v) => ast_size(*v),
            None => 0,
        },
        AstNode::ConstDecl { name: _, const_type: _, value } => ast_size(*value),
        AstNode::Return { value } => match value {
            Some(v) => ast_size(*v),
            None => 0,
        },
        AstNode::BinaryOp { left, op: _, right } => ast_size(*left) + ast_size(*right),
        AstNode::UnaryOp { op: _, operand } => ast_size(*operand),
        AstNode::Literal(_) => 0,
        AstNode::Identifier(_) => 0,
        AstNode::FunctionCall { name: _, args } => ast_size_all(args, 0),
        AstNode::If { condition, then_branch, else_branch } => ast_size(*condition)
            + ast_size_all(then_branch, 0) + match else_branch {
            Some(e) => ast_size_all(e, 0),
            None => 0,
        },
        AstNode::While { condition, body } => ast_size(*condition) + ast_size_all(body, 0),
        AstNode::For { iterator: _, range_start, range_end, inclusive: _, body } => ast_size(
            *range_start,
        ) + ast_size(*range_end) + ast_size_all(body, 0),
        AstNode::Loop { body } => ast_size_all(body, 0),
        AstNode::Break => 0,
        AstNode::Continue => 0,
        AstNode::Assignment { target: _, value } => ast_size(*value),
        AstNode::ArrayLiteral { elements } => ast_size_all(elements, 0),
        AstNode::ArrayRepeat { value, count: _ } => ast_size(*value),
        AstNode::ArrayIndex { array, index } => ast_size(*array) + ast_size(*index),
    }
}

/// The number of nodes in the trees of a vector, from index `i` on.
pub open spec fn ast_size_all(v: Vec<AstNode>, i: int) -> int
    decreases v, v@.len() - i, 1int,
{
    if i < 0 || i >= v@.len() {
        0
    } else {
        ast_size(v@[i]) + ast_size_all(v, i + 1)
    }
}

/// Every tree has at least one node.
pub proof fn lemma_ast_size_pos(n: AstNode)
    ensures
        ast_size(n) >= 1,
    decreases n, 0int, 0int,
{
    lemma_ast_size_some(n);
}

proof fn lemma_ast_size_some(n: AstNode)
    ensures
        ast_size(n) >= 1,
    decreases n, 1int, 0int,
{
    match n {
        AstNode::Module { name: _, items } => lemma_ast_size_all_nonneg(items, 0),
        AstNode::Function { name: _, params: _, return_type: _, body } => lemma_ast_size_all_nonneg(
            body,
            0,
        ),
        AstNode::VariableDecl { name: _, var_type: _, value, mutable: _ } => match value {
            Some(v) => lemma_ast_size_some(*v),
            None => {},
        },
        AstNode::ConstDecl { name: _, const_type: _, value } => lemma_ast_size_some(*value),
        AstNode::Return { value } => match value {
            Some(v) => lemma_ast_size_some(*v),
            None => {},
        },
        AstNode::BinaryOp { left, op: _, right } => {
            lemma_ast_size_some(*left);
            lemma_ast_size_some(*right);
        },
        AstNode::UnaryOp { op: _, operand } => lemma_ast_size_some(*operand),
        AstNode::FunctionCall { name: _, args } => lemma_ast_size_all_nonneg(args, 0),
        AstNode::If { condition, then_branch, else_branch } => {
            lemma_ast_size_some(*condition);
            lemma_ast_size_all_nonneg(then_branch, 0);
            match else_branch {
                Some(e) => lemma_ast_size_all_nonneg(e, 0),
                None => {},
            }
        },
        AstNode::While { condition, body } => {
            lemma_ast_size_some(*condition);
            lemma_ast_size_all_nonneg(body, 0);
        },
        AstNode::For { iterator: _, range_start, range_end, inclusive: _, body } => {
            lemma_ast_size_some(*range_start);
            lemma_ast_size_some(*range_end);
            lemma_ast_size_all_nonneg(body, 0);
        },
        AstNode::Loop { body } => lemma_ast_size_all_nonneg(body, 0),
        AstNode::Assignment { target: _, value } => lemma_ast_size_some(*value),
        AstNode::ArrayLiteral { elements } => lemma_ast_size_all_nonneg(elements, 0),
        AstNode::ArrayRepeat { value, count: _ } => lemma_ast_size_some(*value),
        AstNode::ArrayIndex { array, index } => {
            lemma_ast_size_some(*array);
            lemma_ast_size_some(*index);
        },
        _ => {},
    }
}

/// A vector of trees never has negative size, and each element's size is
/// bounded by the whole.
pub proof fn lemma_ast_size_all_nonneg(v: Vec<AstNode>, i: int)
    ensures
        ast_size_all(v, i) >= 0,
    decreases v, v@.len() - i, 2int,
{
    if 0 <= i < v@.len() {
        lemma_ast_size_some(v@[i]);
        lemma_ast_size_all_nonneg(v, i + 1);
    }
}

/// The size of the suffix from `i` bounds the size of its head plus the
/// rest.
pub proof fn lemma_ast_size_all_step(v: Vec<AstNode>, i: int)
    requires
        0 <= i < v@.len(),
    ensures
        ast_size_all(v, i) == ast_size(v@[i]) + ast_size_all(v, i + 1),
        ast_size(v@[i]) >= 1,
        ast_size_all(v, i + 1) >= 0,
{
    lemma_ast_size_some(v@[i]);
    lemma_ast_size_all_nonneg(v, i + 1);
}

/// The slot count of the stack-frame pre-pass: one slot per declaration,
/// two extra per for loop (its iterator and its hidden range-end bound),
/// summed straight through nested while/for/loop bodies — and through
/// BOTH branches of an if-else, deliberately over-reserving.
pub open spec fn calc_count(body: Vec<AstNode>, i: int) -> int
    decreases body, body@.len() - i, 1int,
{
    if i < 0 || i >= body@.len() {
        0
    } else {
        (match body@[i] {
            AstNode::VariableDecl { .. } => 1int,
            AstNode::ConstDecl { .. } => 1int,
            AstNode::For { iterator: _, range_start: _, range_end: _, inclusive: _, body: b } => 2
                + calc_count(b, 0),
            AstNode::While { condition: _, body: b } => calc_count(b, 0),
            AstNode::Loop { body: b } => calc_count(b, 0),
            AstNode::If { condition: _, then_branch, else_branch } => calc_count(then_branch, 0)
                + match else_branch {
                Some(e) => calc_count(e, 0),
                None => 0,
            },
            _ => 0,
        }) + calc_count(body, i + 1)
    }
}

/// The byte count of the stack-frame pre-pass: the whole slot count at 8
/// bytes per slot, converted once and rounded up to a 16-byte boundary.
pub open spec fn calc_space(body: Vec<AstNode>) -> int {
    ((calc_count(body, 0) * 8 + 15) / 16) * 16
}

/// The pre-pass never reports a negative count.
pub proof fn lemma_calc_count_nonneg(body: Vec<AstNode>, i: int)
    ensures
        calc_count(body, i) >= 0,
    decreases body, body@.len() - i, 3int,
{
    if 0 <= i < body@.len() {
        match body@[i] {
            AstNode::For { iterator: _, range_start: _, range_end: _, inclusive: _, body: b } => {
                lemma_calc_count_nonneg(b, 0);
            },
            AstNode::While { condition: _, body: b } => {
                lemma_calc_count_nonneg(b, 0);
            },
            AstNode::Loop { body: b } => {
                lemma_calc_count_nonneg(b, 0);
            },
            AstNode::If { condition: _, then_branch, else_branch } => {
                lemma_calc_count_nonneg(then_branch, 0);
                match else_branch {
                    Some(e) => {
                        lemma_calc_count_nonneg(e, 0);
                    },
                    None => {},
                }
            },
            _ => {},
        }
        lemma_calc_count_nonneg(body, i + 1);
    }
}

/// Whether any top-level statement of a body is a return statement; a
/// function without one gets an implicit return-zero epilogue.
pub open spec fn has_top_return(body: Vec<AstNode>, i: int) -> bool
    decreases body@.len() - i,
{
    if i < 0 || i >= body@.len() {
        false
    } else if body@[i] matches AstNode::Return { .. } {
        true
    } else {
        has_top_return(body, i + 1)
    }
}

/// Whether a binary operator's text has an emission rule; any other
/// operator text emits no combining instruction.
pub open spec fn binop_lines(op: Seq<char>) -> Seq<AsmLine> {
    if op == "+"@ {
        seq![AsmLine::Instr(InstrKind::AddRaxRcx)]
    } else if op == "-"@ {
        seq![AsmLine::Instr(InstrKind::SubRaxRcx)]
    } else if op == "*"@ {
        seq![AsmLine::Instr(InstrKind::ImulRaxRcx)]
    } else if op == "/"@ {
        seq![AsmLine::Instr(InstrKind::XorRdxRdx), AsmLine::Instr(InstrKind::IdivRcx)]
    } else if op == "%"@ {
        seq![
            AsmLine::Instr(InstrKind::XorRdxRdx),
            AsmLine::Instr(InstrKind::IdivRcx),
            AsmLine::Instr(InstrKind::MovRaxRdx),
        ]
    } else if op == "=="@ {
        seq![
            AsmLine::Instr(InstrKind::CmpRaxRcx),
            AsmLine::Instr(InstrKind::SeteAl),
            AsmLine::Instr(InstrKind::MovzxRaxAl),
        ]
    } else if op == "!="@ {
        seq![
            AsmLine::Instr(InstrKind::CmpRaxRcx),
            AsmLine::Instr(InstrKind::SetneAl),
            AsmLine::Instr(InstrKind::MovzxRaxAl),
        ]
    } else if op == "<"@ {
        seq![
            AsmLine::Instr(InstrKind::CmpRaxRcx),
            AsmLine::Instr(InstrKind::SetlAl),
            AsmLine::Instr(InstrKind::MovzxRaxAl),
        ]
    } else if op == "<="@ {
        seq![
            AsmLine::Instr(InstrKind::CmpRaxRcx),
            AsmLine::Instr(InstrKind::SetleAl),
            AsmLine::Instr(InstrKind::MovzxRaxAl),
        ]
    } else if op == ">"@ {
        seq![
            AsmLine::Instr(InstrKind::CmpRaxRcx),
            AsmLine::Instr(InstrKind::SetgAl),
            AsmLine::Instr(InstrKind::MovzxRaxAl),
        ]
    } else if op == ">="@ {
        seq![
            AsmLine::Instr(InstrKind::CmpRaxRcx),
            AsmLine::Instr(InstrKind::SetgeAl),
            AsmLine::Instr(InstrKind::MovzxRaxAl),
        ]
    } else if op == "&&"@ {
        seq![AsmLine::Instr(InstrKind::AndRaxRcx)]
    } else if op == "||"@ {
        seq![AsmLine::Instr(InstrKind::OrRaxRcx)]
    } else {
        Seq::empty()
    }
}

/// The lines and state change of evaluating one expression into the
/// accumulator.  Expressions allocate no labels and no stack slots; a
/// string literal is interned as a fresh pool entry whether or not an
/// equal one exists.
pub open spec fn emit_expr(st: CgSt, node: AstNode) -> (Seq<AsmLine>, CgSt)
    decreases node, 0int, 0int,
{
    match node {
        AstNode::Literal(lit) => match lit {
            Literal::Int(n) => (seq![AsmLine::Instr(InstrKind::MovRaxImm(n))], st),
            Literal::Char(c) => (
                seq![AsmLine::Instr(InstrKind::MovRaxImm((c as u32) as i64))],
                st,
            ),
            Literal::Bool(b) => (
                seq![
                    AsmLine::Instr(
                        InstrKind::MovRaxImm(
                            if b {
                                1
                            } else {
                                0
                            },
                        ),
                    ),
                ],
                st,
            ),
            Literal::String(s) => (
                seq![AsmLine::Instr(InstrKind::LeaRaxStr(st.strings.len() as usize))],
                CgSt { strings: st.strings.push(s@), ..st },
            ),
            Literal::Float(_) => (Seq::empty(), st),
        },
        AstNode::Identifier(name) => {
            if st.vars.contains_key(name@) {
                (seq![AsmLine::Instr(InstrKind::MovRaxSlot(st.vars[name@] as u64))], st)
            } else {
                (Seq::empty(), st)
            }
        },
        AstNode::BinaryOp { left, op, right } => {
            let (rl, st1) = emit_expr(st, *right);
            let (ll, st2) = emit_expr(st1, *left);
            (
                rl + seq![AsmLine::Instr(InstrKind::PushRax)] + ll + seq![
                    AsmLine::Instr(InstrKind::PopRcx),
                ] + binop_lines(op@),
                st2,
            )
        },
        AstNode::UnaryOp { op, operand } => {
            let (ol, st1) = emit_expr(st, *operand);
            let tail: Seq<AsmLine> = if op@ == "-"@ {
                seq![AsmLine::Instr(InstrKind::NegRax)]
            } else if op@ == "!"@ {
                seq![
                    AsmLine::Instr(InstrKind::TestRaxRax),
                    AsmLine::Instr(InstrKind::SetzAl),
                    AsmLine::Instr(InstrKind::MovzxRaxAl),
                ]
            } else {
                Seq::empty()
            };
            (ol + tail, st1)
        },
        AstNode::FunctionCall { name, args } => {
            if name@ == "print"@ && args@.len() > 0 {
                let (al, st1) = match args@[0] {
                    AstNode::Literal(Literal::String(s)) => (
                        seq![AsmLine::Instr(InstrKind::LeaRcxStr(st.strings.len() as usize))],
                        CgSt { strings: st.strings.push(s@ + "\n"@), ..st },
                    ),
                    _ => {
                        let (el, st1) = emit_expr(st, args@[0]);
                        (el + seq![AsmLine::Instr(InstrKind::MovRcxRax)], st1)
                    },
                };
                (
                    al + seq![
                        AsmLine::Instr(InstrKind::SubRspImm(32)),
                        AsmLine::Instr(InstrKind::CallPrintf),
                        AsmLine::Instr(InstrKind::AddRspImm(32)),
                    ],
                    st1,
                )
            } else {
                (Seq::empty(), st)
            }
        },
        _ => (Seq::empty(), st),
    }
}


/// Interning never deduplicates: evaluating a string literal always
/// appends a fresh pool entry and loads that entry's own symbol, whether
/// or not an equal string is already in the pool.
pub proof fn lemma_interning_never_deduplicates(st: CgSt, s: String)
    ensures
        ({
            let (l, st2) = emit_expr(st, AstNode::Literal(Literal::String(s)));
            &&& st2.strings == st.strings.push(s@)
            &&& l == seq![AsmLine::Instr(InstrKind::LeaRaxStr(st.strings.len() as usize))]
        }),
{
}

/// The lines and state change of one statement.  Control-flow constructs
/// allocate two fresh labels each and define both exactly once;
/// declarations claim the next 8-byte slot.
pub open spec fn emit_stmt(st: CgSt, node: AstNode) -> (Seq<AsmLine>, CgSt)
    decreases node, 1int, 0int,
{
    match node {
        AstNode::VariableDecl { name, var_type: _, value, mutable: _ } => {
            match value {
                Some(v) => {
                    let (el, st1) = emit_expr(st, *v);
                    let off = st1.stack_offset + 8;
                    (
                        el + seq![AsmLine::Instr(InstrKind::MovSlotRax(off as u64))],
                        CgSt { vars: st1.vars.insert(name@, off), stack_offset: off, ..st1 },
                    )
                },
                None => {
                    let off = st.stack_offset + 8;
                    (Seq::empty(), CgSt { vars: st.vars.insert(name@, off), stack_offset: off, ..st })
                },
            }
        },
        AstNode::ConstDecl { name, const_type: _, value } => {
            let (el, st1) = emit_expr(st, *value);
            let off = st1.stack_offset + 8;
            (
                el + seq![AsmLine::Instr(InstrKind::MovSlotRax(off as u64))],
                CgSt { vars: st1.vars.insert(name@, off), stack_offset: off, ..st1 },
            )
        },
        AstNode::Return { value } => {
            match value {
                Some(v) => {
                    let (el, st1) = emit_expr(st, *v);
                    (
                        el + seq![AsmLine::Instr(InstrKind::Leave), AsmLine::Instr(InstrKind::Ret)],
                        st1,
                    )
                },
                None => (
                    seq![
                        AsmLine::Instr(InstrKind::XorEaxEax),
                        AsmLine::Instr(InstrKind::Leave),
                        AsmLine::Instr(InstrKind::Ret),
                    ],
                    st,
                ),
            }
        },
        AstNode::Assignment { target, value } => {
            let (el, st1) = emit_expr(st, *value);
            if st1.vars.contains_key(target@) {
                (
                    el + seq![AsmLine::Instr(InstrKind::MovSlotRax(st1.vars[target@] as u64))],
                    st1,
                )
            } else {
                (el, st1)
            }
        },
        AstNode::If { condition, then_branch, else_branch } => {
            let else_label = st.label_counter;
            let end_label = st.label_counter + 1;
            let st0 = CgSt { label_counter: st.label_counter + 2, ..st };
            let (cl, st1) = emit_expr(st0, *condition);
            let (tl, st2) = emit_stmts(st1, then_branch, 0);
            let (el, st3) = match else_branch {
                Some(eb) => emit_stmts(st2, eb, 0),
                None => (Seq::empty(), st2),
            };
            (
                cl + seq![
                    AsmLine::Instr(InstrKind::TestRaxRax),
                    AsmLine::Instr(InstrKind::Jz(else_label as usize)),
                ] + tl + seq![
                    AsmLine::Instr(InstrKind::Jmp(end_label as usize)),
                    AsmLine::LocalLabel(else_label as usize),
                ] + el + seq![AsmLine::LocalLabel(end_label as usize)],
                st3,
            )
        },
        AstNode::While { condition, body } => {
            let start_label = st.label_counter;
            let end_label = st.label_counter + 1;
            let st0 = CgSt {
                label_counter: st.label_counter + 2,
                loops: st.loops.push((end_label, start_label)),
                ..st
            };
            let (cl, st1) = emit_expr(st0, *condition);
            let (bl, st2) = emit_stmts(st1, body, 0);
            (
                seq![AsmLine::LocalLabel(start_label as usize)] + cl + seq![
                    AsmLine::Instr(InstrKind::TestRaxRax),
                    AsmLine::Instr(InstrKind::Jz(end_label as usize)),
                ] + bl + seq![
                    AsmLine::Instr(InstrKind::Jmp(start_label as usize)),
                    AsmLine::LocalLabel(end_label as usize),
                ],
                CgSt { loops: st2.loops.drop_last(), ..st2 },
            )
        },
        AstNode::For { iterator, range_start, range_end, inclusive, body } => {
            let start_label = st.label_counter;
            let end_label = st.label_counter + 1;
            let st0 = CgSt { label_counter: st.label_counter + 2, ..st };
            let (sl, st1) = emit_expr(st0, *range_start);
            let iter_off = st1.stack_offset + 8;
            let st2 = CgSt {
                vars: st1.vars.insert(iterator@, iter_off),
                stack_offset: iter_off,
                ..st1
            };
            let (el, st3) = emit_expr(st2, *range_end);
            let end_off = st3.stack_offset + 8;
            let st4 = CgSt {
                stack_offset: end_off,
                loops: st3.loops.push((end_label, start_label)),
                ..st3
            };
            let (bl, st5) = emit_stmts(st4, body, 0);
            (
                sl + seq![AsmLine::Instr(InstrKind::MovSlotRax(iter_off as u64))] + el + seq![
                    AsmLine::Instr(InstrKind::MovSlotRax(end_off as u64)),
                    AsmLine::LocalLabel(start_label as usize),
                    AsmLine::Instr(InstrKind::MovRaxSlot(iter_off as u64)),
                    AsmLine::Instr(InstrKind::MovRcxSlot(end_off as u64)),
                    AsmLine::Instr(InstrKind::CmpRaxRcx),
                    AsmLine::Instr(
                        if inclusive {
                            InstrKind::Jg(end_label as usize)
                        } else {
                            InstrKind::Jge(end_label as usize)
                        },
                    ),
                ] + bl + seq![
                    AsmLine::Instr(InstrKind::MovRaxSlot(iter_off as u64)),
                    AsmLine::Instr(InstrKind::IncRax),
                    AsmLine::Instr(InstrKind::MovSlotRax(iter_off as u64)),
                    AsmLine::Instr(InstrKind::Jmp(start_label as usize)),
                    AsmLine::LocalLabel(end_label as usize),
                ],
                CgSt { loops: st5.loops.drop_last(), ..st5 },
            )
        },
        AstNode::Loop { body } => {
            let start_label = st.label_counter;
            let end_label = st.label_counter + 1;
            let st0 = CgSt {
                label_counter: st.label_counter + 2,
                loops: st.loops.push((end_label, start_label)),
                ..st
            };
            let (bl, st1) = emit_stmts(st0, body, 0);
            (
                seq![AsmLine::LocalLabel(start_label as usize)] + bl + seq![
                    AsmLine::Instr(InstrKind::Jmp(start_label as usize)),
                    AsmLine::LocalLabel(end_label as usize),
                ],
                CgSt { loops: st1.loops.drop_last(), ..st1 },
            )
        },
        AstNode::Break => {
            if st.loops.len() > 0 {
                (seq![AsmLine::Instr(InstrKind::Jmp(st.loops.last().0 as usize))], st)
            } else {
                (Seq::empty(), st)
            }
        },
        AstNode::Continue => {
            if st.loops.len() > 0 {
                (seq![AsmLine::Instr(InstrKind::Jmp(st.loops.last().1 as usize))], st)
            } else {
                (Seq::empty(), st)
            }
        },
        _ => emit_expr(st, node),
    }
}

/// The lines and state change of a run of statements, in order.
pub open spec fn emit_stmts(st: CgSt, body: Vec<AstNode>, i: int) -> (Seq<AsmLine>, CgSt)
    decreases body, body@.len() - i, 2int,
{
    if i < 0 || i >= body@.len() {
        (Seq::empty(), st)
    } else {
        let (l1, st1) = emit_stmt(st, body@[i]);
        let (l2, st2) = emit_stmts(st1, body, i + 1);
        (l1 + l2, st2)
    }
}

/// The lines and state change of one top-level item.  A function block
/// is its label, a prologue reserving the pre-computed frame, the body,
/// and — when no top-level statement is a return — an implicit
/// return-zero epilogue.  A frame beyond the limit is refused.
pub open spec fn emit_item(st: CgSt, node: AstNode) -> Result<(Seq<AsmLine>, CgSt), ()>
    decreases node, 2int, 0int,
{
    match node {
        AstNode::Module { name: _, items } => emit_items(st, items, 0),
        AstNode::Function { name, params: _, return_type: _, body } => {
            let local_space = calc_space(body);
            if local_space > MAX_FRAME_BYTES as int {
                Err(())
            } else {
                let total_space = ((local_space + 32 + 15) / 16) * 16;
                let st0 = CgSt { vars: Map::empty(), stack_offset: 0, ..st };
                let (bl, st1) = emit_stmts(st0, body, 0);
                let prologue = seq![
                    AsmLine::FnLabel(name),
                    AsmLine::Instr(InstrKind::PushRbp),
                    AsmLine::Instr(InstrKind::MovRbpRsp),
                ] + (if total_space > 0 {
                    seq![AsmLine::Instr(InstrKind::SubRspImm(total_space as u64))]
                } else {
                    Seq::empty()
                }) + seq![AsmLine::Blank];
                let epilogue: Seq<AsmLine> = if has_top_return(body, 0) {
                    Seq::empty()
                } else {
                    seq![
                        AsmLine::Instr(InstrKind::XorEaxEax),
                        AsmLine::Instr(InstrKind::Leave),
                        AsmLine::Instr(InstrKind::Ret),
                    ]
                };
                Ok((prologue + bl + epilogue + seq![AsmLine::Blank], st1))
            }
        },
        _ => Ok((Seq::empty(), st)),
    }
}

/// The lines and state change of a run of top-level items.
pub open spec fn emit_items(st: CgSt, items: Vec<AstNode>, i: int) -> Result<
    (Seq<AsmLine>, CgSt),
    (),
>
    decreases items, items@.len() - i, 3int,
{
    if i < 0 || i >= items@.len() {
        Ok((Seq::empty(), st))
    } else {
        match emit_item(st, items@[i]) {
            Ok((l1, st1)) => match emit_items(st1, items, i + 1) {
                Ok((l2, st2)) => Ok((l1 + l2, st2)),
                Err(()) => Err(()),
            },
            Err(()) => Err(()),
        }
    }
}

/// The complete assembly text of a program: the module frame listing the
/// strings the run interned, then the rendered code.  The only rejection
/// is a function frame beyond the limit.
pub open spec fn spec_to_assembly(ast: AstNode) -> Result<Seq<char>, ()> {
    match emit_item(init_cg_st(), ast) {
        Ok((lines, st)) => Ok(header_text(st.strings) + render_lines(lines)),
        Err(()) => Err(()),
    }
}


/// The flat variable map as the specification sees it: entries in
/// insertion order, later bindings overriding earlier ones.
spec fn vars_view(entries: Seq<(String, u64)>) -> Map<Seq<char>, int>
    decreases entries.len(),
{
    if entries.len() == 0 {
        Map::empty()
    } else {
        vars_view(entries.drop_last()).insert(entries.last().0@, entries.last().1 as int)
    }
}

/// The loop-context stack as the specification sees it.
spec fn loops_view(entries: Seq<(usize, usize)>) -> Seq<(int, int)> {
    entries.map_values(|p: (usize, usize)| (p.0 as int, p.1 as int))
}

/// How many nodes a tree has, when that is at most `budget`.
fn measure_ast(n: &AstNode, budget: u64) -> (r: Option<u64>)
    ensures
        r matches Some(v) ==> v as int == ast_size(*n) && v <= budget && v >= 1,
        r is None ==> ast_size(*n) > budget,
    decreases *n, 0int, 0int,
{
    proof {
        lemma_ast_size_pos(*n);
    }
    if budget == 0 {
        return None;
    }
    let rem = budget - 1;
    let children: Option<u64> = match n {
        AstNode::Module { name: _, items } => measure_ast_all(items, 0, rem),
        AstNode::Function { name: _, params: _, return_type: _, body } => measure_ast_all(
            body,
            0,
            rem,
        ),
        AstNode::VariableDecl { name: _, var_type: _, value, mutable: _ } => match value {
            Some(v) => measure_ast(v, rem),
            None => Some(0),
        },
        AstNode::ConstDecl { name: _, const_type: _, value } => measure_ast(value, rem),
        AstNode::Return { value } => match value {
            Some(v) => measure_ast(v, rem),
            None => Some(0),
        },
        AstNode::BinaryOp { left, op: _, right } => {
            proof {
                lemma_ast_size_pos(**left);
                lemma_ast_size_pos(**right);
            }
            match measure_ast(left, rem) {
                Some(a) => match measure_ast(right, rem - a) {
                    Some(b) => Some(a + b),
                    None => None,
                },
                None => None,
            }
        },
        AstNode::UnaryOp { op: _, operand } => measure_ast(operand, rem),
        AstNode::Literal(_) => Some(0),
        AstNode::Identifier(_) => Some(0),
        AstNode::FunctionCall { name: _, args } => measure_ast_all(args, 0, rem),
        AstNode::If { condition, then_branch, else_branch } => {
            proof {
                lemma_ast_size_pos(**condition);
                lemma_ast_size_all_nonneg(*then_branch, 0);
                match else_branch {
                    Some(e) => lemma_ast_size_all_nonneg(*e, 0),
                    None => {},
                }
            }
            match measure_ast(condition, rem) {
                Some(a) => match measure_ast_all(then_branch, 0, rem - a) {
                    Some(b) => match else_branch {
                        Some(e) => match measure_ast_all(e, 0, rem - a - b) {
                            Some(c) => Some(a + b + c),
                            None => None,
                        },
                        None => Some(a + b),
                    },
                    None => None,
                },
                None => None,
            }
        },
        AstNode::While { condition, body } => {
            proof {
                lemma_ast_size_pos(**condition);
                lemma_ast_size_all_nonneg(*body, 0);
            }
            match measure_ast(condition, rem) {
                Some(a) => match measure_ast_all(body, 0, rem - a) {
                    Some(b) => Some(a + b),
                    None => None,
                },
                None => None,
            }
        },
        AstNode::For { iterator: _, range_start, range_end, inclusive: _, body } => {
            proof {
                lemma_ast_size_pos(**range_start);
                lemma_ast_size_pos(**range_end);
                lemma_ast_size_all_nonneg(*body, 0);
            }
            match measure_ast(range_start, rem) {
                Some(a) => match measure_ast(range_end, rem - a) {
                    Some(b) => match measure_ast_all(body, 0, rem - a - b) {
                        Some(c) => Some(a + b + c),
                        None => None,
                    },
                    None => None,
                },
                None => None,
            }
        },
        AstNode::Loop { body } => measure_ast_all(body, 0, rem),
        AstNode::Break => Some(0),
        AstNode::Continue => Some(0),
        AstNode::Assignment { target: _, value } => measure_ast(value, rem),
        AstNode::ArrayLiteral { elements } => measure_ast_all(elements, 0, rem),
        AstNode::ArrayRepeat { value, count: _ } => measure_ast(value, rem),
        AstNode::ArrayIndex { array, index } => {
            proof {
                lemma_ast_size_pos(**array);
                lemma_ast_size_pos(**index);
            }
            match measure_ast(array, rem) {
                Some(a) => match measure_ast(index, rem - a) {
                    Some(b) => Some(a + b),
                    None => None,
                },
                None => None,
            }
        },
    };
    match children {
        Some(c) => Some(c + 1),
        None => None,
    }
}

/// How many nodes the trees of a vector have, from index `i` on, when
/// that is at most `budget`.
fn measure_ast_all(v: &Vec<AstNode>, i: usize, budget: u64) -> (r: Option<u64>)
    requires
        i <= v@.len(),
    ensures
        r matches Some(s) ==> s as int == ast_size_all(*v, i as int) && s <= budget,
        r is None ==> ast_size_all(*v, i as int) > budget,
    decreases *v, v@.len() - i, 1int,
{
    proof {
        lemma_ast_size_all_nonneg(*v, i as int);
    }
    if i >= v.len() {
        return Some(0);
    }
    proof {
        lemma_ast_size_all_step(*v, i as int);
    }
    match measure_ast(&v[i], budget) {
        Some(a) => match measure_ast_all(v, i + 1, budget - a) {
            Some(b) => Some(a + b),
            None => None,
        },
        None => None,
    }
}

/// Evaluating an expression leaves the label counter, the variable map,
/// the stack offset and the loop stack untouched; only the string pool
/// can grow, by at most one entry per node.
pub proof fn lemma_emit_expr_frame(st: CgSt, node: AstNode)
    ensures
        ({
            let (l, st2) = emit_expr(st, node);
            &&& st2.label_counter == st.label_counter
            &&& st2.vars == st.vars
            &&& st2.stack_offset == st.stack_offset
            &&& st2.loops == st.loops
            &&& st.strings.len() <= st2.strings.len() <= st.strings.len() + ast_size(node)
        }),
    decreases node, 0int, 1int,
{
    lemma_ast_size_pos(node);
    match node {
        AstNode::BinaryOp { left, op: _, right } => {
            lemma_emit_expr_frame(st, *right);
            let (rl, st1) = emit_expr(st, *right);
            lemma_emit_expr_frame(st1, *left);
            lemma_ast_size_pos(*left);
            lemma_ast_size_pos(*right);
        },
        AstNode::UnaryOp { op: _, operand } => {
            lemma_emit_expr_frame(st, *operand);
        },
        AstNode::FunctionCall { name: _, args } => {
            if args@.len() > 0 {
                lemma_emit_expr_frame(st, args@[0]);
                lemma_ast_size_all_step(args, 0);
            }
        },
        _ => {},
    }
}

/// A statement's emission pops exactly what it pushes on the loop
/// stack, allocates at most two labels per node, claims at most 8 bytes
/// of frame per node, and interns at most one string per node.
pub proof fn lemma_emit_stmt_growth(st: CgSt, node: AstNode)
    ensures
        ({
            let (l, st2) = emit_stmt(st, node);
            &&& st2.loops == st.loops
            &&& st.label_counter <= st2.label_counter <= st.label_counter + 2 * ast_size(node)
            &&& st.stack_offset <= st2.stack_offset <= st.stack_offset + 8 * ast_size(node)
            &&& st.strings.len() <= st2.strings.len() <= st.strings.len() + ast_size(node)
        }),
    decreases node, 1int, 1int,
{
    lemma_ast_size_pos(node);
    match node {
        AstNode::VariableDecl { name: _, var_type: _, value, mutable: _ } => {
            match value {
                Some(v) => {
                    lemma_emit_expr_frame(st, *v);
                    lemma_ast_size_pos(*v);
                },
                None => {},
            }
        },
        AstNode::ConstDecl { name: _, const_type: _, value } => {
            lemma_emit_expr_frame(st, *value);
            lemma_ast_size_pos(*value);
        },
        AstNode::Return { value } => {
            match value {
                Some(v) => {
                    lemma_emit_expr_frame(st, *v);
                    lemma_ast_size_pos(*v);
                },
                None => {},
            }
        },
        AstNode::Assignment { target: _, value } => {
            lemma_emit_expr_frame(st, *value);
            lemma_ast_size_pos(*value);
        },
        AstNode::If { condition, then_branch, else_branch } => {
            let st0 = CgSt { label_counter: st.label_counter + 2, ..st };
            lemma_emit_expr_frame(st0, *condition);
            let (cl, st1) = emit_expr(st0, *condition);
            lemma_emit_stmts_growth(st1, then_branch, 0);
            let (tl, st2) = emit_stmts(st1, then_branch, 0);
            lemma_ast_size_pos(*condition);
            lemma_ast_size_all_nonneg(then_branch, 0);
            match else_branch {
                Some(eb) => {
                    lemma_emit_stmts_growth(st2, eb, 0);
                    lemma_ast_size_all_nonneg(eb, 0);
                },
                None => {},
            }
        },
        AstNode::While { condition, body } => {
            let start_label = st.label_counter;
            let end_label = st.label_counter + 1;
            let st0 = CgSt {
                label_counter: st.label_counter + 2,
                loops: st.loops.push((end_label, start_label)),
                ..st
            };
            lemma_emit_expr_frame(st0, *condition);
            let (cl, st1) = emit_expr(st0, *condition);
            lemma_emit_stmts_growth(st1, body, 0);
            let (bl, st2) = emit_stmts(st1, body, 0);
            lemma_ast_size_pos(*condition);
            lemma_ast_size_all_nonneg(body, 0);
            assert(st2.loops.drop_last() =~= st.loops);
        },
        AstNode::For { iterator, range_start, range_end, inclusive: _, body } => {
            let start_label = st.label_counter;
            let end_label = st.label_counter + 1;
            let st0 = CgSt { label_counter: st.label_counter + 2, ..st };
            lemma_emit_expr_frame(st0, *range_start);
            let (sl, st1) = emit_expr(st0, *range_start);
            let iter_off = st1.stack_offset + 8;
            let st2 = CgSt {
                vars: st1.vars.insert(iterator@, iter_off),
                stack_offset: iter_off,
                ..st1
            };
            lemma_emit_expr_frame(st2, *range_end);
            let (el, st3) = emit_expr(st2, *range_end);
            let end_off = st3.stack_offset + 8;
            let st4 = CgSt {
                stack_offset: end_off,
                loops: st3.loops.push((end_label, start_label)),
                ..st3
            };
            lemma_emit_stmts_growth(st4, body, 0);
            let (bl, st5) = emit_stmts(st4, body, 0);
            lemma_ast_size_pos(*range_start);
            lemma_ast_size_pos(*range_end);
            lemma_ast_size_all_nonneg(body, 0);
            assert(st5.loops.drop_last() =~= st.loops);
        },
        AstNode::Loop { body } => {
            let start_label = st.label_counter;
            let end_label = st.label_counter + 1;
            let st0 = CgSt {
                label_counter: st.label_counter + 2,
                loops: st.loops.push((end_label, start_label)),
                ..st
            };
            lemma_emit_stmts_growth(st0, body, 0);
            let (bl, st1) = emit_stmts(st0, body, 0);
            lemma_ast_size_all_nonneg(body, 0);
            assert(st1.loops.drop_last() =~= st.loops);
        },
        _ => {
            lemma_emit_expr_frame(st, node);
        },
    }
}

/// A run of statements grows the state no faster than its nodes allow.
pub proof fn lemma_emit_stmts_growth(st: CgSt, body: Vec<AstNode>, i: int)
    ensures
        ({
            let (l, st2) = emit_stmts(st, body, i);
            &&& st2.loops == st.loops
            &&& st.label_counter <= st2.label_counter <= st.label_counter + 2 * ast_size_all(
                body,
                i,
            )
            &&& st.stack_offset <= st2.stack_offset <= st.stack_offset + 8 * ast_size_all(body, i)
            &&& st.strings.len() <= st2.strings.len() <= st.strings.len() + ast_size_all(body, i)
        }),
    decreases body, body@.len() - i, 2int,
{
    lemma_ast_size_all_nonneg(body, i);
    if 0 <= i < body@.len() {
        lemma_ast_size_all_step(body, i);
        lemma_emit_stmt_growth(st, body@[i]);
        let (l1, st1) = emit_stmt(st, body@[i]);
        lemma_emit_stmts_growth(st1, body, i + 1);
    }
}


/// A top-level item's emission keeps the loop stack, allocates at most
/// two labels and at most one string per node, and leaves the next free
/// stack offset no higher than its own body demands.
pub proof fn lemma_emit_item_growth(st: CgSt, node: AstNode)
    requires
        st.stack_offset >= 0,
    ensures
        ({
            let r = emit_item(st, node);
            r matches Ok((l, st2)) ==> {
                &&& st2.loops == st.loops
                &&& st.label_counter <= st2.label_counter <= st.label_counter + 2 * ast_size(node)
                &&& 0 <= st2.stack_offset <= st.stack_offset + 8 * ast_size(node)
                &&& st.strings.len() <= st2.strings.len() <= st.strings.len() + ast_size(node)
            }
        }),
    decreases node, 3int, 0int,
{
    lemma_ast_size_pos(node);
    match node {
        AstNode::Module { name: _, items } => {
            lemma_emit_items_growth(st, items, 0);
        },
        AstNode::Function { name: _, params: _, return_type: _, body } => {
            let st0 = CgSt { vars: Map::empty(), stack_offset: 0, ..st };
            lemma_emit_stmts_growth(st0, body, 0);
            lemma_ast_size_all_nonneg(body, 0);
        },
        _ => {},
    }
}

/// A run of top-level items grows the state no faster than its nodes
/// allow.
pub proof fn lemma_emit_items_growth(st: CgSt, items: Vec<AstNode>, i: int)
    requires
        st.stack_offset >= 0,
    ensures
        ({
            let r = emit_items(st, items, i);
            r matches Ok((l, st2)) ==> {
                &&& st2.loops == st.loops
                &&& st.label_counter <= st2.label_counter <= st.label_counter + 2 * ast_size_all(
                    items,
                    i,
                )
                &&& 0 <= st2.stack_offset <= st.stack_offset + 8 * ast_size_all(items, i)
                &&& st.strings.len() <= st2.strings.len() <= st.strings.len() + ast_size_all(
                    items,
                    i,
                )
            }
        }),
    decreases items, items@.len() - i, 4int,
{
    lemma_ast_size_all_nonneg(items, i);
    if 0 <= i < items@.len() {
        lemma_ast_size_all_step(items, i);
        lemma_emit_item_growth(st, items@[i]);
        match emit_item(st, items@[i]) {
            Ok((l1, st1)) => {
                lemma_emit_items_growth(st1, items, i + 1);
            },
            Err(()) => {},
        }
    }
}

/// The code generator: the shared label counter, the ordered string
/// pool, the flat per-function variable map, the next free stack offset,
/// and the stack of enclosing (break, continue) label pairs.  The
/// optimization level is accepted but does not yet alter output.
pub struct CodeGenerator {
    opt_level: u8,
    label_counter: usize,
    string_literals: Vec<String>,
    variables: Vec<(String, u64)>,
    stack_offset: u64,
    loop_stack: Vec<(usize, usize)>,
}

impl CodeGenerator {
    /// The generator's state as the specification mirror sees it.
    pub closed spec fn st(&self) -> CgSt {
        CgSt {
            label_counter: self.label_counter as int,
            strings: self.string_literals@.map_values(|s: String| s@),
            vars: vars_view(self.variables@),
            stack_offset: self.stack_offset as int,
            loops: loops_view(self.loop_stack@),
        }
    }

    /// A fresh generator with everything reset.
    pub fn new(opt_level: u8) -> (r: CodeGenerator)
        ensures
            r.st() == init_cg_st(),
    {
        let r = CodeGenerator {
            opt_level,
            label_counter: 0,
            string_literals: Vec::new(),
            variables: Vec::new(),
            stack_offset: 0,
            loop_stack: Vec::new(),
        };
        proof {
            assert(r.st().strings =~= init_cg_st().strings);
            assert(r.st().loops =~= init_cg_st().loops);
            assert(r.st() == init_cg_st());
        }
        r
    }

    /// Hands out the next process-unique label number; labels are never
    /// reused.
    fn next_label(&mut self) -> (r: usize)
        requires
            old(self).st().label_counter + 1 <= 0x4000_0000,
        ensures
            r as int == old(self).st().label_counter,
            final(self).st() == (CgSt {
                label_counter: old(self).st().label_counter + 1,
                ..old(self).st()
            }),
    {
        let l = self.label_counter;
        self.label_counter = self.label_counter + 1;
        l
    }

    /// Looks a variable's stack offset up in the flat map; the latest
    /// binding of the name wins.
    fn lookup_var(&self, name: &String) -> (r: Option<u64>)
        ensures
            match r {
                Some(off) => self.st().vars.contains_key(name@) && self.st().vars[name@]
                    == off as int,
                None => !self.st().vars.contains_key(name@),
            },
    {
        let mut k = self.variables.len();
        proof {
            assert(self.variables@.take(k as int) =~= self.variables@);
        }
        #[verifier::loop_isolation(false)]
        while k > 0
            invariant
                k <= self.variables@.len(),
                ({
                    let full = vars_view(self.variables@);
                    let part = vars_view(self.variables@.take(k as int));
                    &&& full.contains_key(name@) == part.contains_key(name@)
                    &&& (part.contains_key(name@) ==> full[name@] == part[name@])
                }),
            decreases k,
        {
            k = k - 1;
            proof {
                assert(self.variables@.take(k as int + 1).drop_last() =~= self.variables@.take(
                    k as int,
                ));
                assert(self.variables@.take(k as int + 1).last() == self.variables@[k as int]);
            }
            if str_eqx(self.variables[k].0.as_str(), name.as_str()) {
                return Some(self.variables[k].1);
            }
        }
        proof {
            assert(self.variables@.take(0) =~= Seq::<(String, u64)>::empty());
        }
        None
    }

    /// The structural pre-pass that counts one 8-byte slot per
    /// declaration textually inside the body — two extra per for loop,
    /// for its iterator and its hidden range-end bound — descending into
    /// nested blocks and summing both branches of an if-else, then
    /// converts the whole count to bytes once and rounds up to a 16-byte
    /// boundary.  A frame beyond the limit is reported as such.
    fn calculate_stack_space(&self, body: &Vec<AstNode>) -> (r: Option<u64>)
        ensures
            match r {
                Some(v) => v as int == calc_space(*body) && v <= MAX_FRAME_BYTES,
                None => calc_space(*body) > MAX_FRAME_BYTES as int,
            },
    {
        match self.count_stack_slots(body) {
            Some(c) => {
                let space: u64 = ((c * 8 + 15) / 16) * 16;
                Some(space)
            },
            None => {
                proof {
                    lemma_calc_count_nonneg(*body, 0);
                    assert(((calc_count(*body, 0) * 8 + 15) / 16) * 16 >= calc_count(*body, 0) * 8
                        + 15 - 15);
                }
                None
            },
        }
    }

    /// Counts the body's stack slots, refusing a count over the limit.
    fn count_stack_slots(&self, body: &Vec<AstNode>) -> (r: Option<u64>)
        ensures
            match r {
                Some(c) => c as int == calc_count(*body, 0) && c <= MAX_FRAME_SLOTS,
                None => calc_count(*body, 0) > MAX_FRAME_SLOTS as int,
            },
        decreases *body, body@.len(), 9int,
    {
        let n = body.len();
        let mut count: u64 = 0;
        let mut i: usize = 0;
        proof {
            lemma_calc_count_nonneg(*body, 0);
        }
        #[verifier::loop_isolation(false)]
        loop
            invariant
                i <= n,
                n == body@.len(),
                count <= MAX_FRAME_SLOTS,
                count as int == calc_count(*body, 0) - calc_count(*body, i as int),
            decreases n - i,
        {
            if i >= n {
                break ;
            }
            proof {
                lemma_calc_count_nonneg(*body, i as int);
                lemma_calc_count_nonneg(*body, i as int + 1);
            }
            let add: u64 = match &body[i] {
                AstNode::VariableDecl { .. } => 1,
                AstNode::ConstDecl { .. } => 1,
                AstNode::For { iterator: _, range_start: _, range_end: _, inclusive: _, body: b } => {
                    match self.count_stack_slots(b) {
                        Some(v) => 2 + v,
                        None => {
                            proof {
                                lemma_calc_count_over(*body, i as int);
                            }
                            return None;
                        },
                    }
                },
                AstNode::While { condition: _, body: b } => {
                    match self.count_stack_slots(b) {
                        Some(v) => v,
                        None => {
                            proof {
                                lemma_calc_count_over(*body, i as int);
                            }
                            return None;
                        },
                    }
                },
                AstNode::Loop { body: b } => {
                    match self.count_stack_slots(b) {
                        Some(v) => v,
                        None => {
                            proof {
                                lemma_calc_count_over(*body, i as int);
                            }
                            return None;
                        },
                    }
                },
                AstNode::If { condition: _, then_branch, else_branch } => {
                    let a = match self.count_stack_slots(then_branch) {
                        Some(v) => v,
                        None => {
                            proof {
                                lemma_calc_count_over(*body, i as int);
                            }
                            return None;
                        },
                    };
                    match else_branch {
                        Some(e) => {
                            match self.count_stack_slots(e) {
                                Some(v) => a + v,
                                None => {
                                    proof {
                                        lemma_calc_count_over(*body, i as int);
                                    }
                                    return None;
                                },
                            }
                        },
                        None => a,
                    }
                },
                _ => 0,
            };
            count = count + add;
            if count > MAX_FRAME_SLOTS {
                proof {
                    lemma_calc_count_prefix_bound(*body, i as int + 1);
                }
                return None;
            }
            i = i + 1;
        }
        Some(count)
    }
}

/// When the running slot count has already passed the limit, the whole
/// body's slot count has too.
proof fn lemma_calc_count_prefix_bound(body: Vec<AstNode>, i: int)
    requires
        0 <= i <= body@.len(),
        calc_count(body, 0) - calc_count(body, i) > MAX_FRAME_SLOTS as int,
    ensures
        calc_count(body, 0) > MAX_FRAME_SLOTS as int,
{
    lemma_calc_count_nonneg(body, i);
}

/// When a nested block's slot count has passed the limit, so has the
/// slot count of any body containing it.
proof fn lemma_calc_count_over(body: Vec<AstNode>, i: int)
    requires
        0 <= i < body@.len(),
        match body@[i] {
            AstNode::For { iterator: _, range_start: _, range_end: _, inclusive: _, body: b } =>
                calc_count(b, 0) > MAX_FRAME_SLOTS as int,
            AstNode::While { condition: _, body: b } => calc_count(b, 0) > MAX_FRAME_SLOTS as int,
            AstNode::Loop { body: b } => calc_count(b, 0) > MAX_FRAME_SLOTS as int,
            AstNode::If { condition: _, then_branch, else_branch } => calc_count(then_branch, 0)
                > MAX_FRAME_SLOTS as int || (else_branch matches Some(e) && calc_count(e, 0)
                > MAX_FRAME_SLOTS as int),
            _ => false,
        },
    ensures
        calc_count(body, 0) > MAX_FRAME_SLOTS as int,
{
    lemma_calc_count_nonneg(body, i + 1);
    lemma_calc_count_prefix_nonneg(body, i);
    match body@[i] {
        AstNode::For { iterator: _, range_start: _, range_end: _, inclusive: _, body: b } => {
            assert(calc_count(body, i) >= 2 + calc_count(b, 0));
        },
        AstNode::While { condition: _, body: b } => {
            assert(calc_count(body, i) >= calc_count(b, 0));
        },
        AstNode::Loop { body: b } => {
            assert(calc_count(body, i) >= calc_count(b, 0));
        },
        AstNode::If { condition: _, then_branch, else_branch } => {
            lemma_calc_count_nonneg(then_branch, 0);
            match else_branch {
                Some(e) => {
                    lemma_calc_count_nonneg(e, 0);
                    assert(calc_count(body, i) >= calc_count(then_branch, 0) + calc_count(e, 0));
                },
                None => {
                    assert(calc_count(body, i) >= calc_count(then_branch, 0));
                },
            }
        },
        _ => {},
    }
    assert(calc_count(body, i) > MAX_FRAME_SLOTS as int);
}

/// Prefix contributions are never negative.
proof fn lemma_calc_count_prefix_nonneg(body: Vec<AstNode>, i: int)
    requires
        0 <= i <= body@.len(),
    ensures
        calc_count(body, 0) >= calc_count(body, i),
    decreases i,
{
    if i > 0 {
        lemma_calc_count_prefix_nonneg(body, i - 1);
        lemma_calc_count_step_nonneg(body, i - 1);
    }
}

/// One statement's contribution to the slot count is never negative.
proof fn lemma_calc_count_step_nonneg(body: Vec<AstNode>, i: int)
    requires
        0 <= i < body@.len(),
    ensures
        calc_count(body, i) >= calc_count(body, i + 1),
{
    lemma_calc_count_nonneg(body, i + 1);
    match body@[i] {
        AstNode::For { iterator: _, range_start: _, range_end: _, inclusive: _, body: b } => {
            lemma_calc_count_nonneg(b, 0);
        },
        AstNode::While { condition: _, body: b } => {
            lemma_calc_count_nonneg(b, 0);
        },
        AstNode::Loop { body: b } => {
            lemma_calc_count_nonneg(b, 0);
        },
        AstNode::If { condition: _, then_branch, else_branch } => {
            lemma_calc_count_nonneg(then_branch, 0);
            match else_branch {
                Some(e) => {
                    lemma_calc_count_nonneg(e, 0);
                },
                None => {},
            }
        },
        _ => {},
    }
}


impl CodeGenerator {
    /// Evaluates one expression into the accumulator, appending exactly
    /// the lines the mirror [`emit_expr`] describes.
    fn generate_expression(&mut self, node: &AstNode, code: &mut Vec<AsmLine>) -> (r: Result<
        (),
        CompilerError,
    >)
        requires
            old(self).st().strings.len() + ast_size(*node) <= 0x4000_0000,
        ensures
            r is Ok,
            ({
                let (l, st2) = emit_expr(old(self).st(), *node);
                final(self).st() == st2 && final(code)@ == old(code)@ + l
            }),
        decreases *node, 0int, 0int,
    {
        proof {
            lemma_ast_size_pos(*node);
        }
        match node {
            AstNode::Literal(lit) => {
                match lit {
                    Literal::Int(n) => {
                        code.push(AsmLine::Instr(InstrKind::MovRaxImm(*n)));
                        proof {
                            assert(code@ =~= old(code)@ + seq![
                                AsmLine::Instr(InstrKind::MovRaxImm(*n)),
                            ]);
                        }
                    },
                    Literal::Char(c) => {
                        let v: i64 = (*c as u32) as i64;
                        code.push(AsmLine::Instr(InstrKind::MovRaxImm(v)));
                        proof {
                            assert(code@ =~= old(code)@ + seq![AsmLine::Instr(InstrKind::MovRaxImm(v))]);
                        }
                    },
                    Literal::Bool(b) => {
                        let v: i64 = if *b {
                            1
                        } else {
                            0
                        };
                        code.push(AsmLine::Instr(InstrKind::MovRaxImm(v)));
                        proof {
                            assert(code@ =~= old(code)@ + seq![AsmLine::Instr(InstrKind::MovRaxImm(v))]);
                        }
                    },
                    Literal::String(s) => {
                        let index = self.string_literals.len();
                        self.string_literals.push(s.clone());
                        code.push(AsmLine::Instr(InstrKind::LeaRaxStr(index)));
                        proof {
                            assert(self.st().strings =~= old(self).st().strings.push(s@));
                            assert(self.st() == (CgSt {
                                strings: old(self).st().strings.push(s@),
                                ..old(self).st()
                            }));
                            assert(code@ =~= old(code)@ + seq![
                                AsmLine::Instr(InstrKind::LeaRaxStr(index)),
                            ]);
                        }
                    },
                    Literal::Float(_) => {
                        proof {
                            assert(code@ =~= old(code)@ + Seq::<AsmLine>::empty());
                        }
                    },
                }
                Ok(())
            },
            AstNode::Identifier(name) => {
                match self.lookup_var(name) {
                    Some(off) => {
                        code.push(AsmLine::Instr(InstrKind::MovRaxSlot(off)));
                        proof {
                            assert((old(self).st().vars[name@]) as u64 == off);
                            assert(code@ =~= old(code)@ + seq![
                                AsmLine::Instr(InstrKind::MovRaxSlot(off)),
                            ]);
                        }
                    },
                    None => {
                        proof {
                            assert(code@ =~= old(code)@ + Seq::<AsmLine>::empty());
                        }
                    },
                }
                Ok(())
            },
            AstNode::BinaryOp { left, op, right } => {
                proof {
                    lemma_ast_size_pos(**left);
                    lemma_ast_size_pos(**right);
                    lemma_emit_expr_frame(old(self).st(), **right);
                }
                let ghost st0 = self.st();
                match self.generate_expression(right, code) {
                    Ok(()) => {},
                    Err(e) => {
                        return Err(e);
                    },
                }
                code.push(AsmLine::Instr(InstrKind::PushRax));
                match self.generate_expression(left, code) {
                    Ok(()) => {},
                    Err(e) => {
                        return Err(e);
                    },
                }
                code.push(AsmLine::Instr(InstrKind::PopRcx));
                if str_eqx(op.as_str(), "+") {
                    code.push(AsmLine::Instr(InstrKind::AddRaxRcx));
                } else if str_eqx(op.as_str(), "-") {
                    code.push(AsmLine::Instr(InstrKind::SubRaxRcx));
                } else if str_eqx(op.as_str(), "*") {
                    code.push(AsmLine::Instr(InstrKind::ImulRaxRcx));
                } else if str_eqx(op.as_str(), "/") {
                    code.push(AsmLine::Instr(InstrKind::XorRdxRdx));
                    code.push(AsmLine::Instr(InstrKind::IdivRcx));
                } else if str_eqx(op.as_str(), "%") {
                    code.push(AsmLine::Instr(InstrKind::XorRdxRdx));
                    code.push(AsmLine::Instr(InstrKind::IdivRcx));
                    code.push(AsmLine::Instr(InstrKind::MovRaxRdx));
                } else if str_eqx(op.as_str(), "==") {
                    code.push(AsmLine::Instr(InstrKind::CmpRaxRcx));
                    code.push(AsmLine::Instr(InstrKind::SeteAl));
                    code.push(AsmLine::Instr(InstrKind::MovzxRaxAl));
                } else if str_eqx(op.as_str(), "!=") {
                    code.push(AsmLine::Instr(InstrKind::CmpRaxRcx));
                    code.push(AsmLine::Instr(InstrKind::SetneAl));
                    code.push(AsmLine::Instr(InstrKind::MovzxRaxAl));
                } else if str_eqx(op.as_str(), "<") {
                    code.push(AsmLine::Instr(InstrKind::CmpRaxRcx));
                    code.push(AsmLine::Instr(InstrKind::SetlAl));
                    code.push(AsmLine::Instr(InstrKind::MovzxRaxAl));
                } else if str_eqx(op.as_str(), "<=") {
                    code.push(AsmLine::Instr(InstrKind::CmpRaxRcx));
                    code.push(AsmLine::Instr(InstrKind::SetleAl));
                    code.push(AsmLine::Instr(InstrKind::MovzxRaxAl));
                } else if str_eqx(op.as_str(), ">") {
                    code.push(AsmLine::Instr(InstrKind::CmpRaxRcx));
                    code.push(AsmLine::Instr(InstrKind::SetgAl));
                    code.push(AsmLine::Instr(InstrKind::MovzxRaxAl));
                } else if str_eqx(op.as_str(), ">=") {
                    code.push(AsmLine::Instr(InstrKind::CmpRaxRcx));
                    code.push(AsmLine::Instr(InstrKind::SetgeAl));
                    code.push(AsmLine::Instr(InstrKind::MovzxRaxAl));
                } else if str_eqx(op.as_str(), "&&") {
                    code.push(AsmLine::Instr(InstrKind::AndRaxRcx));
                } else if str_eqx(op.as_str(), "||") {
                    code.push(AsmLine::Instr(InstrKind::OrRaxRcx));
                }
                proof {
                    let (rl, st1) = emit_expr(st0, **right);
                    let (ll, st2) = emit_expr(st1, **left);
                    assert(code@ =~= old(code)@ + (rl + seq![AsmLine::Instr(InstrKind::PushRax)] + ll
                        + seq![AsmLine::Instr(InstrKind::PopRcx)] + binop_lines(op@)));
                }
                Ok(())
            },
            AstNode::UnaryOp { op, operand } => {
                match self.generate_expression(operand, code) {
                    Ok(()) => {},
                    Err(e) => {
                        return Err(e);
                    },
                }
                if str_eqx(op.as_str(), "-") {
                    code.push(AsmLine::Instr(InstrKind::NegRax));
                } else if str_eqx(op.as_str(), "!") {
                    code.push(AsmLine::Instr(InstrKind::TestRaxRax));
                    code.push(AsmLine::Instr(InstrKind::SetzAl));
                    code.push(AsmLine::Instr(InstrKind::MovzxRaxAl));
                }
                proof {
                    let (ol, st1) = emit_expr(old(self).st(), **operand);
                    let tail: Seq<AsmLine> = if op@ == "-"@ {
                        seq![AsmLine::Instr(InstrKind::NegRax)]
                    } else if op@ == "!"@ {
                        seq![
                            AsmLine::Instr(InstrKind::TestRaxRax),
                            AsmLine::Instr(InstrKind::SetzAl),
                            AsmLine::Instr(InstrKind::MovzxRaxAl),
                        ]
                    } else {
                        Seq::empty()
                    };
                    assert(code@ =~= old(code)@ + (ol + tail));
                }
                Ok(())
            },
            AstNode::FunctionCall { name, args } => {
                if str_eqx(name.as_str(), "print") && args.len() > 0 {
                    proof {
                        lemma_ast_size_all_step(*args, 0);
                    }
                    let is_lit_str = matches!(&args[0], AstNode::Literal(Literal::String(_)));
                    if is_lit_str {
                        match &args[0] {
                            AstNode::Literal(Literal::String(s)) => {
                                let mut interned = s.clone();
                                interned.push('\n');
                                let index = self.string_literals.len();
                                self.string_literals.push(interned);
                                code.push(AsmLine::Instr(InstrKind::LeaRcxStr(index)));
                                proof {
                                    reveal_strlit("\n");
                                    assert(s@.push('\n') =~= s@ + "\n"@);
                                    assert(self.st().strings =~= old(self).st().strings.push(
                                        s@ + "\n"@,
                                    ));
                                    assert(self.st() == (CgSt {
                                        strings: old(self).st().strings.push(s@ + "\n"@),
                                        ..old(self).st()
                                    }));
                                }
                            },
                            _ => {},
                        }
                    } else {
                        match self.generate_expression(&args[0], code) {
                            Ok(()) => {},
                            Err(e) => {
                                return Err(e);
                            },
                        }
                        code.push(AsmLine::Instr(InstrKind::MovRcxRax));
                    }
                    code.push(AsmLine::Instr(InstrKind::SubRspImm(32)));
                    code.push(AsmLine::Instr(InstrKind::CallPrintf));
                    code.push(AsmLine::Instr(InstrKind::AddRspImm(32)));
                    proof {
                        let (l, st2) = emit_expr(old(self).st(), *node);
                        assert(code@ =~= old(code)@ + l);
                    }
                } else {
                    proof {
                        assert(code@ =~= old(code)@ + Seq::<AsmLine>::empty());
                    }
                }
                Ok(())
            },
            _ => {
                proof {
                    assert(code@ =~= old(code)@ + Seq::<AsmLine>::empty());
                }
                Ok(())
            },
        }
    }
}


impl CodeGenerator {
    /// Emits a run of statements in order, appending exactly the lines
    /// the mirror [`emit_stmts`] describes.
    fn generate_stmts(&mut self, body: &Vec<AstNode>, code: &mut Vec<AsmLine>) -> (r: Result<
        (),
        CompilerError,
    >)
        requires
            old(self).st().label_counter + 2 * ast_size_all(*body, 0) <= 0x4000_0000,
            old(self).st().stack_offset + 8 * ast_size_all(*body, 0) + 16 <= 0x4000_0000,
            old(self).st().strings.len() + ast_size_all(*body, 0) <= 0x4000_0000,
        ensures
            r is Ok,
            ({
                let (l, st2) = emit_stmts(old(self).st(), *body, 0);
                final(self).st() == st2 && final(code)@ == old(code)@ + l
            }),
        decreases *body, 1int, 1int,
    {
        let ghost st0 = self.st();
        let ghost prefix = code@;
        let ghost mut done: Seq<AsmLine> = Seq::empty();
        let n = body.len();
        let mut i: usize = 0;
        proof {
            assert(Seq::<AsmLine>::empty() + emit_stmts(st0, *body, 0).0 =~= emit_stmts(
                st0,
                *body,
                0,
            ).0);
            assert(code@ =~= prefix + done);
        }
        #[verifier::loop_isolation(false)]
        loop
            invariant
                i <= n,
                n == body@.len(),
                code@ == prefix + done,
                ({
                    let (lt, stt) = emit_stmts(st0, *body, 0);
                    let (lr, st2) = emit_stmts(self.st(), *body, i as int);
                    lt == done + lr && stt == st2
                }),
                self.st().label_counter + 2 * ast_size_all(*body, i as int) <= 0x4000_0000,
                self.st().stack_offset + 8 * ast_size_all(*body, i as int) + 16 <= 0x4000_0000,
                self.st().strings.len() + ast_size_all(*body, i as int) <= 0x4000_0000,
            decreases n - i,
        {
            if i >= n {
                break ;
            }
            proof {
                lemma_ast_size_all_step(*body, i as int);
                lemma_emit_stmt_growth(self.st(), body@[i as int]);
            }
            let ghost pre = self.st();
            match self.generate_statement(&body[i], code) {
                Ok(()) => {},
                Err(e) => {
                    return Err(e);
                },
            }
            proof {
                let (l1, st1) = emit_stmt(pre, body@[i as int]);
                done = done + l1;
                assert(code@ =~= prefix + done);
                let (lr2, st22) = emit_stmts(self.st(), *body, i as int + 1);
                assert(done + lr2 =~= (done.subrange(0, done.len() - l1.len() as int) + (l1
                    + lr2)));
            }
            i = i + 1;
        }
        proof {
            assert(done + emit_stmts(self.st(), *body, i as int).0 =~= done);
        }
        Ok(())
    }

    /// Emits one statement, appending exactly the lines the mirror
    /// [`emit_stmt`] describes.  Control flow lowers to labelled jumps;
    /// a break or continue outside any loop context is silently emitted
    /// as nothing.
    #[verifier::rlimit(100)]
    #[verifier::spinoff_prover]
    fn generate_statement(&mut self, node: &AstNode, code: &mut Vec<AsmLine>) -> (r: Result<
        (),
        CompilerError,
    >)
        requires
            old(self).st().label_counter + 2 * ast_size(*node) <= 0x4000_0000,
            old(self).st().stack_offset + 8 * ast_size(*node) + 16 <= 0x4000_0000,
            old(self).st().strings.len() + ast_size(*node) <= 0x4000_0000,
        ensures
            r is Ok,
            ({
                let (l, st2) = emit_stmt(old(self).st(), *node);
                final(self).st() == st2 && final(code)@ == old(code)@ + l
            }),
        decreases *node, 1int, 0int,
    {
        proof {
            lemma_ast_size_pos(*node);
        }
        match node {
            AstNode::VariableDecl { name, var_type: _, value, mutable: _ } => {
                match value {
                    Some(val) => {
                        proof {
                            lemma_ast_size_pos(**val);
                            lemma_emit_expr_frame(self.st(), **val);
                        }
                        let ghost st_in = self.st();
                        match self.generate_expression(val, code) {
                            Ok(()) => {},
                            Err(e) => {
                                return Err(e);
                            },
                        }
                        let off = self.stack_offset + 8;
                        self.stack_offset = off;
                        let ghost vars_pre = self.variables@;
                        self.variables.push((name.clone(), off));
                        code.push(AsmLine::Instr(InstrKind::MovSlotRax(off)));
                        proof {
                            let (el, st1) = emit_expr(st_in, **val);
                            assert(self.variables@.drop_last() =~= vars_pre);
                            assert(self.st().vars =~~= st1.vars.insert(name@, off as int));
                            assert(self.st() == (CgSt {
                                vars: st1.vars.insert(name@, off as int),
                                stack_offset: off as int,
                                ..st1
                            }));
                            assert(code@ =~= old(code)@ + (el + seq![
                                AsmLine::Instr(InstrKind::MovSlotRax(off)),
                            ]));
                        }
                    },
                    None => {
                        let off = self.stack_offset + 8;
                        self.stack_offset = off;
                        let ghost vars_pre = self.variables@;
                        self.variables.push((name.clone(), off));
                        proof {
                            assert(self.variables@.drop_last() =~= vars_pre);
                            assert(self.st().vars =~~= old(self).st().vars.insert(
                                name@,
                                off as int,
                            ));
                            assert(self.st() == (CgSt {
                                vars: old(self).st().vars.insert(name@, off as int),
                                stack_offset: off as int,
                                ..old(self).st()
                            }));
                            assert(code@ =~= old(code)@ + Seq::<AsmLine>::empty());
                        }
                    },
                }
                Ok(())
            },
            AstNode::ConstDecl { name, const_type: _, value } => {
                proof {
                    lemma_ast_size_pos(**value);
                    lemma_emit_expr_frame(self.st(), **value);
                }
                let ghost st_in = self.st();
                match self.generate_expression(value, code) {
                    Ok(()) => {},
                    Err(e) => {
                        return Err(e);
                    },
                }
                let off = self.stack_offset + 8;
                self.stack_offset = off;
                let ghost vars_pre = self.variables@;
                self.variables.push((name.clone(), off));
                code.push(AsmLine::Instr(InstrKind::MovSlotRax(off)));
                proof {
                    let (el, st1) = emit_expr(st_in, **value);
                    assert(self.variables@.drop_last() =~= vars_pre);
                    assert(self.st().vars =~~= st1.vars.insert(name@, off as int));
                    assert(self.st() == (CgSt {
                        vars: st1.vars.insert(name@, off as int),
                        stack_offset: off as int,
                        ..st1
                    }));
                    assert(code@ =~= old(code)@ + (el + seq![
                        AsmLine::Instr(InstrKind::MovSlotRax(off)),
                    ]));
                }
                Ok(())
            },
            AstNode::Return { value } => {
                match value {
                    Some(val) => {
                        match self.generate_expression(val, code) {
                            Ok(()) => {},
                            Err(e) => {
                                return Err(e);
                            },
                        }
                        code.push(AsmLine::Instr(InstrKind::Leave));
                        code.push(AsmLine::Instr(InstrKind::Ret));
                        proof {
                            let (el, st1) = emit_expr(old(self).st(), **val);
                            assert(code@ =~= old(code)@ + (el + seq![
                                AsmLine::Instr(InstrKind::Leave),
                                AsmLine::Instr(InstrKind::Ret),
                            ]));
                        }
                    },
                    None => {
                        code.push(AsmLine::Instr(InstrKind::XorEaxEax));
                        code.push(AsmLine::Instr(InstrKind::Leave));
                        code.push(AsmLine::Instr(InstrKind::Ret));
                        proof {
                            assert(code@ =~= old(code)@ + seq![
                                AsmLine::Instr(InstrKind::XorEaxEax),
                                AsmLine::Instr(InstrKind::Leave),
                                AsmLine::Instr(InstrKind::Ret),
                            ]);
                        }
                    },
                }
                Ok(())
            },
            AstNode::Assignment { target, value } => {
                match self.generate_expression(value, code) {
                    Ok(()) => {},
                    Err(e) => {
                        return Err(e);
                    },
                }
                let ghost st1 = self.st();
                match self.lookup_var(target) {
                    Some(off) => {
                        code.push(AsmLine::Instr(InstrKind::MovSlotRax(off)));
                        proof {
                            let (el, st1s) = emit_expr(old(self).st(), **value);
                            assert((st1.vars[target@]) as u64 == off);
                            assert(code@ =~= old(code)@ + (el + seq![
                                AsmLine::Instr(InstrKind::MovSlotRax(off)),
                            ]));
                        }
                    },
                    None => {
                        proof {
                            let (el, st1s) = emit_expr(old(self).st(), **value);
                            assert(code@ =~= old(code)@ + el);
                        }
                    },
                }
                Ok(())
            },
            AstNode::If { condition, then_branch, else_branch } => {
                proof {
                    lemma_ast_size_pos(**condition);
                    lemma_ast_size_all_nonneg(*then_branch, 0);
                    match else_branch {
                        Some(e) => lemma_ast_size_all_nonneg(*e, 0),
                        None => {},
                    }
                }
                let else_label = self.next_label();
                let end_label = self.next_label();
                proof {
                    lemma_emit_expr_frame(self.st(), **condition);
                }
                let ghost st_c = self.st();
                match self.generate_expression(condition, code) {
                    Ok(()) => {},
                    Err(e) => {
                        return Err(e);
                    },
                }
                code.push(AsmLine::Instr(InstrKind::TestRaxRax));
                code.push(AsmLine::Instr(InstrKind::Jz(else_label)));
                proof {
                    lemma_emit_stmts_growth(self.st(), *then_branch, 0);
                }
                let ghost st_t = self.st();
                match self.generate_stmts(then_branch, code) {
                    Ok(()) => {},
                    Err(e) => {
                        return Err(e);
                    },
                }
                code.push(AsmLine::Instr(InstrKind::Jmp(end_label)));
                code.push(AsmLine::LocalLabel(else_label));
                match else_branch {
                    Some(eb) => {
                        proof {
                            lemma_emit_stmts_growth(self.st(), *eb, 0);
                        }
                        match self.generate_stmts(eb, code) {
                            Ok(()) => {},
                            Err(e) => {
                                return Err(e);
                            },
                        }
                    },
                    None => {},
                }
                code.push(AsmLine::LocalLabel(end_label));
                proof {
                    let (cl, st1) = emit_expr(st_c, **condition);
                    let (tl, st2) = emit_stmts(st1, *then_branch, 0);
                    let (el, st3) = match else_branch {
                        Some(eb) => emit_stmts(st2, *eb, 0),
                        None => (Seq::<AsmLine>::empty(), st2),
                    };
                    assert(code@ =~= old(code)@ + (cl + seq![
                        AsmLine::Instr(InstrKind::TestRaxRax),
                        AsmLine::Instr(InstrKind::Jz(else_label)),
                    ] + tl + seq![
                        AsmLine::Instr(InstrKind::Jmp(end_label)),
                        AsmLine::LocalLabel(else_label),
                    ] + el + seq![AsmLine::LocalLabel(end_label)]));
                }
                Ok(())
            },
            AstNode::While { condition, body } => {
                proof {
                    lemma_ast_size_pos(**condition);
                    lemma_ast_size_all_nonneg(*body, 0);
                }
                let start_label = self.next_label();
                let end_label = self.next_label();
                self.loop_stack.push((end_label, start_label));
                proof {
                    assert(self.st().loops =~= old(self).st().loops.push(
                        (end_label as int, start_label as int),
                    ));
                    lemma_emit_expr_frame(self.st(), **condition);
                }
                code.push(AsmLine::LocalLabel(start_label));
                let ghost st_c = self.st();
                match self.generate_expression(condition, code) {
                    Ok(()) => {},
                    Err(e) => {
                        return Err(e);
                    },
                }
                code.push(AsmLine::Instr(InstrKind::TestRaxRax));
                code.push(AsmLine::Instr(InstrKind::Jz(end_label)));
                proof {
                    lemma_emit_stmts_growth(self.st(), *body, 0);
                }
                match self.generate_stmts(body, code) {
                    Ok(()) => {},
                    Err(e) => {
                        return Err(e);
                    },
                }
                code.push(AsmLine::Instr(InstrKind::Jmp(start_label)));
                code.push(AsmLine::LocalLabel(end_label));
                let _ = self.loop_stack.pop();
                proof {
                    let (cl, st1) = emit_expr(st_c, **condition);
                    let (bl, st2) = emit_stmts(st1, *body, 0);
                    assert(self.st().loops =~= st2.loops.drop_last());
                    assert(self.st() == (CgSt { loops: st2.loops.drop_last(), ..st2 }));
                    assert(code@ =~= old(code)@ + (seq![AsmLine::LocalLabel(start_label)] + cl
                        + seq![
                        AsmLine::Instr(InstrKind::TestRaxRax),
                        AsmLine::Instr(InstrKind::Jz(end_label)),
                    ] + bl + seq![
                        AsmLine::Instr(InstrKind::Jmp(start_label)),
                        AsmLine::LocalLabel(end_label),
                    ]));
                }
                Ok(())
            },
            AstNode::For { iterator, range_start, range_end, inclusive, body } => {
                proof {
                    lemma_ast_size_pos(**range_start);
                    lemma_ast_size_pos(**range_end);
                    lemma_ast_size_all_nonneg(*body, 0);
                }
                let start_label = self.next_label();
                let end_label = self.next_label();
                proof {
                    lemma_emit_expr_frame(self.st(), **range_start);
                }
                let ghost st_s = self.st();
                match self.generate_expression(range_start, code) {
                    Ok(()) => {},
                    Err(e) => {
                        return Err(e);
                    },
                }
                let iter_off = self.stack_offset + 8;
                self.stack_offset = iter_off;
                let ghost vars_pre = self.variables@;
                self.variables.push((iterator.clone(), iter_off));
                code.push(AsmLine::Instr(InstrKind::MovSlotRax(iter_off)));
                proof {
                    assert(self.variables@.drop_last() =~= vars_pre);
                    assert(self.st().vars =~~= emit_expr(st_s, **range_start).1.vars.insert(
                        iterator@,
                        iter_off as int,
                    ));
                    lemma_emit_expr_frame(self.st(), **range_end);
                }
                let ghost st_e = self.st();
                match self.generate_expression(range_end, code) {
                    Ok(()) => {},
                    Err(e) => {
                        return Err(e);
                    },
                }
                let end_off = self.stack_offset + 8;
                self.stack_offset = end_off;
                code.push(AsmLine::Instr(InstrKind::MovSlotRax(end_off)));
                self.loop_stack.push((end_label, start_label));
                code.push(AsmLine::LocalLabel(start_label));
                let iter_read = match self.lookup_var(iterator) {
                    Some(o) => o,
                    None => iter_off,
                };
                proof {
                    assert(iter_read == iter_off);
                }
                code.push(AsmLine::Instr(InstrKind::MovRaxSlot(iter_read)));
                code.push(AsmLine::Instr(InstrKind::MovRcxSlot(end_off)));
                code.push(AsmLine::Instr(InstrKind::CmpRaxRcx));
                if *inclusive {
                    code.push(AsmLine::Instr(InstrKind::Jg(end_label)));
                } else {
                    code.push(AsmLine::Instr(InstrKind::Jge(end_label)));
                }
                proof {
                    assert(self.st().loops =~= emit_expr(st_e, **range_end).1.loops.push(
                        (end_label as int, start_label as int),
                    ));
                    lemma_emit_stmts_growth(self.st(), *body, 0);
                }
                match self.generate_stmts(body, code) {
                    Ok(()) => {},
                    Err(e) => {
                        return Err(e);
                    },
                }
                code.push(AsmLine::Instr(InstrKind::MovRaxSlot(iter_read)));
                code.push(AsmLine::Instr(InstrKind::IncRax));
                code.push(AsmLine::Instr(InstrKind::MovSlotRax(iter_read)));
                code.push(AsmLine::Instr(InstrKind::Jmp(start_label)));
                code.push(AsmLine::LocalLabel(end_label));
                let _ = self.loop_stack.pop();
                proof {
                    let (sl, st1) = emit_expr(st_s, **range_start);
                    let st2 = CgSt {
                        vars: st1.vars.insert(iterator@, iter_off as int),
                        stack_offset: iter_off as int,
                        ..st1
                    };
                    let (el, st3) = emit_expr(st2, **range_end);
                    let st4 = CgSt {
                        stack_offset: end_off as int,
                        loops: st3.loops.push((end_label as int, start_label as int)),
                        ..st3
                    };
                    let (bl, st5) = emit_stmts(st4, *body, 0);
                    assert(self.st().loops =~= st5.loops.drop_last());
                    assert(self.st() == (CgSt { loops: st5.loops.drop_last(), ..st5 }));
                    assert(code@ =~= old(code)@ + (sl + seq![
                        AsmLine::Instr(InstrKind::MovSlotRax(iter_off)),
                    ] + el + seq![
                        AsmLine::Instr(InstrKind::MovSlotRax(end_off)),
                        AsmLine::LocalLabel(start_label),
                        AsmLine::Instr(InstrKind::MovRaxSlot(iter_off)),
                        AsmLine::Instr(InstrKind::MovRcxSlot(end_off)),
                        AsmLine::Instr(InstrKind::CmpRaxRcx),
                        AsmLine::Instr(
                            if *inclusive {
                                InstrKind::Jg(end_label)
                            } else {
                                InstrKind::Jge(end_label)
                            },
                        ),
                    ] + bl + seq![
                        AsmLine::Instr(InstrKind::MovRaxSlot(iter_off)),
                        AsmLine::Instr(InstrKind::IncRax),
                        AsmLine::Instr(InstrKind::MovSlotRax(iter_off)),
                        AsmLine::Instr(InstrKind::Jmp(start_label)),
                        AsmLine::LocalLabel(end_label),
                    ]));
                }
                Ok(())
            },
            AstNode::Loop { body } => {
                proof {
                    lemma_ast_size_all_nonneg(*body, 0);
                }
                let start_label = self.next_label();
                let end_label = self.next_label();
                self.loop_stack.push((end_label, start_label));
                proof {
                    assert(self.st().loops =~= old(self).st().loops.push(
                        (end_label as int, start_label as int),
                    ));
                    lemma_emit_stmts_growth(self.st(), *body, 0);
                }
                code.push(AsmLine::LocalLabel(start_label));
                let ghost st_b = self.st();
                match self.generate_stmts(body, code) {
                    Ok(()) => {},
                    Err(e) => {
                        return Err(e);
                    },
                }
                code.push(AsmLine::Instr(InstrKind::Jmp(start_label)));
                code.push(AsmLine::LocalLabel(end_label));
                let _ = self.loop_stack.pop();
                proof {
                    let (bl, st1) = emit_stmts(st_b, *body, 0);
                    assert(self.st().loops =~= st1.loops.drop_last());
                    assert(self.st() == (CgSt { loops: st1.loops.drop_last(), ..st1 }));
                    assert(code@ =~= old(code)@ + (seq![AsmLine::LocalLabel(start_label)] + bl
                        + seq![
                        AsmLine::Instr(InstrKind::Jmp(start_label)),
                        AsmLine::LocalLabel(end_label),
                    ]));
                }
                Ok(())
            },
            AstNode::Break => {
                if self.loop_stack.len() > 0 {
                    let p = self.loop_stack[self.loop_stack.len() - 1];
                    code.push(AsmLine::Instr(InstrKind::Jmp(p.0)));
                    proof {
                        assert(old(self).st().loops.last() == (p.0 as int, p.1 as int));
                        assert(code@ =~= old(code)@ + seq![AsmLine::Instr(InstrKind::Jmp(p.0))]);
                    }
                } else {
                    proof {
                        assert(code@ =~= old(code)@ + Seq::<AsmLine>::empty());
                    }
                }
                Ok(())
            },
            AstNode::Continue => {
                if self.loop_stack.len() > 0 {
                    let p = self.loop_stack[self.loop_stack.len() - 1];
                    code.push(AsmLine::Instr(InstrKind::Jmp(p.1)));
                    proof {
                        assert(old(self).st().loops.last() == (p.0 as int, p.1 as int));
                        assert(code@ =~= old(code)@ + seq![AsmLine::Instr(InstrKind::Jmp(p.1))]);
                    }
                } else {
                    proof {
                        assert(code@ =~= old(code)@ + Seq::<AsmLine>::empty());
                    }
                }
                Ok(())
            },
            _ => self.generate_expression(node, code),
        }
    }
}


impl CodeGenerator {
    /// Emits one top-level item: for a module its items in declaration
    /// order, for a function a labelled block with prologue, body and —
    /// when no top-level statement is a return — an implicit return-zero
    /// epilogue.
    fn generate_assembly_node(&mut self, node: &AstNode, code: &mut Vec<AsmLine>) -> (r: Result<
        (),
        CompilerError,
    >)
        requires
            old(self).st().label_counter + 2 * ast_size(*node) <= 0x4000_0000,
            old(self).st().strings.len() + ast_size(*node) <= 0x4000_0000,
            8 * ast_size(*node) + 16 <= 0x4000_0000,
        ensures
            match emit_item(old(self).st(), *node) {
                Ok((l, st2)) => r is Ok && final(self).st() == st2 && final(code)@ == old(code)@
                    + l,
                Err(()) => r matches Err(e) && (e matches CompilerError::CodeGenError(_)),
            },
        decreases *node, 2int, 0int,
    {
        proof {
            lemma_ast_size_pos(*node);
        }
        match node {
            AstNode::Module { name: _, items } => {
                let ghost st0 = self.st();
                let ghost prefix = code@;
                let ghost mut done: Seq<AsmLine> = Seq::empty();
                let n = items.len();
                let mut i: usize = 0;
                proof {
                    lemma_ast_size_all_nonneg(*items, 0);
                    match emit_items(st0, *items, 0) {
                        Ok(p) => {
                            assert(Seq::<AsmLine>::empty() + p.0 =~= p.0);
                        },
                        Err(()) => {},
                    }
                    assert(code@ =~= prefix + done);
                }
                #[verifier::loop_isolation(false)]
                loop
                    invariant
                        i <= n,
                        n == items@.len(),
                        code@ == prefix + done,
                        ({
                            match emit_items(st0, *items, 0) {
                                Ok(p) => {
                                    match emit_items(self.st(), *items, i as int) {
                                        Ok(q) => p.0 == done + q.0 && p.1 == q.1,
                                        Err(()) => false,
                                    }
                                },
                                Err(()) => emit_items(self.st(), *items, i as int) is Err,
                            }
                        }),
                        self.st().label_counter + 2 * ast_size_all(*items, i as int)
                            <= 0x4000_0000,
                        self.st().strings.len() + ast_size_all(*items, i as int) <= 0x4000_0000,
                        8 * ast_size_all(*items, i as int) + 16 <= 0x4000_0000,
                    decreases n - i,
                {
                    if i >= n {
                        break ;
                    }
                    proof {
                        lemma_ast_size_all_step(*items, i as int);
                        lemma_emit_item_growth(self.st(), items@[i as int]);
                    }
                    let ghost pre = self.st();
                    match self.generate_assembly_node(&items[i], code) {
                        Ok(()) => {},
                        Err(e) => {
                            return Err(e);
                        },
                    }
                    proof {
                        match emit_item(pre, items@[i as int]) {
                            Ok(p1) => {
                                done = done + p1.0;
                                assert(code@ =~= prefix + done);
                                match emit_items(self.st(), *items, i as int + 1) {
                                    Ok(q1) => {
                                        assert((done.subrange(
                                            0,
                                            done.len() - p1.0.len() as int,
                                        ) + (p1.0 + q1.0)) =~= done + q1.0);
                                    },
                                    Err(()) => {},
                                }
                            },
                            Err(()) => {},
                        }
                    }
                    i = i + 1;
                }
                proof {
                    match emit_items(self.st(), *items, i as int) {
                        Ok(q) => {
                            assert(done + q.0 =~= done);
                        },
                        Err(()) => {},
                    }
                }
                Ok(())
            },
            AstNode::Function { name, params: _, return_type: _, body } => {
                proof {
                    lemma_ast_size_all_nonneg(*body, 0);
                }
                code.push(AsmLine::FnLabel(name.clone()));
                code.push(AsmLine::Instr(InstrKind::PushRbp));
                code.push(AsmLine::Instr(InstrKind::MovRbpRsp));

                self.variables = Vec::new();
                self.stack_offset = 0;

                let local_space = match self.calculate_stack_space(body) {
                    Some(v) => v,
                    None => {
                        return Err(
                            CompilerError::CodeGenError(
                                String::from_str("Stack frame exceeds the supported size"),
                            ),
                        );
                    },
                };
                let total_space: u64 = ((local_space + 32 + 15) / 16) * 16;

                if total_space > 0 {
                    code.push(AsmLine::Instr(InstrKind::SubRspImm(total_space)));
                }
                code.push(AsmLine::Blank);

                proof {
                    assert(self.st().vars =~~= Map::<Seq<char>, int>::empty());
                    assert(self.st() == (CgSt {
                        vars: Map::empty(),
                        stack_offset: 0,
                        ..old(self).st()
                    }));
                }
                let ghost st0 = self.st();
                match self.generate_stmts(body, code) {
                    Ok(()) => {},
                    Err(e) => {
                        return Err(e);
                    },
                }

                let n = body.len();
                let mut has_ret = false;
                let mut i: usize = 0;
                #[verifier::loop_isolation(false)]
                loop
                    invariant
                        i <= n,
                        n == body@.len(),
                        !has_ret ==> has_top_return(*body, 0) == has_top_return(*body, i as int),
                        has_ret ==> has_top_return(*body, 0),
                    decreases n - i,
                {
                    if i >= n {
                        break ;
                    }
                    if matches!(&body[i], AstNode::Return { .. }) {
                        has_ret = true;
                        break ;
                    }
                    i = i + 1;
                }
                proof {
                    if !has_ret {
                        assert(!has_top_return(*body, 0));
                    }
                }

                if !has_ret {
                    code.push(AsmLine::Instr(InstrKind::XorEaxEax));
                    code.push(AsmLine::Instr(InstrKind::Leave));
                    code.push(AsmLine::Instr(InstrKind::Ret));
                }
                code.push(AsmLine::Blank);

                proof {
                    let (bl, st1) = emit_stmts(st0, *body, 0);
                    let prologue = seq![
                        AsmLine::FnLabel(*name),
                        AsmLine::Instr(InstrKind::PushRbp),
                        AsmLine::Instr(InstrKind::MovRbpRsp),
                    ] + (if total_space as int > 0 {
                        seq![AsmLine::Instr(InstrKind::SubRspImm(total_space))]
                    } else {
                        Seq::<AsmLine>::empty()
                    }) + seq![AsmLine::Blank];
                    let epilogue: Seq<AsmLine> = if has_top_return(*body, 0) {
                        Seq::empty()
                    } else {
                        seq![
                            AsmLine::Instr(InstrKind::XorEaxEax),
                            AsmLine::Instr(InstrKind::Leave),
                            AsmLine::Instr(InstrKind::Ret),
                        ]
                    };
                    assert(code@ =~= old(code)@ + (prologue + bl + epilogue + seq![
                        AsmLine::Blank,
                    ]));
                }
                Ok(())
            },
            _ => {
                proof {
                    assert(code@ =~= old(code)@ + Seq::<AsmLine>::empty());
                }
                Ok(())
            },
        }
    }
}

/// The exact text of one assembly line, as a string.
fn line_text(l: &AsmLine) -> (r: String)
    ensures
        r@ == render_line(*l),
{
    match l {
        AsmLine::FnLabel(name) => {
            let mut s = name.clone();
            s.append(":\n");
            s
        },
        AsmLine::LocalLabel(n) => {
            let mut s = String::from_str("L");
            let d = usize_to_string(*n);
            s.append(d.as_str());
            s.append(":\n");
            s
        },
        AsmLine::Instr(i) => instr_string(i),
        AsmLine::Blank => String::from_str("\n"),
    }
}

/// The exact text of one instruction, as a string.
fn instr_string(i: &InstrKind) -> (r: String)
    ensures
        r@ == instr_text(*i),
{
    match i {
        InstrKind::PushRbp => String::from_str("    push rbp\n"),
        InstrKind::MovRbpRsp => String::from_str("    mov rbp, rsp\n"),
        InstrKind::SubRspImm(n) => {
            let mut s = String::from_str("    sub rsp, ");
            let d = u64_to_string(*n);
            s.append(d.as_str());
            s.append("\n");
            s
        },
        InstrKind::AddRspImm(n) => {
            let mut s = String::from_str("    add rsp, ");
            let d = u64_to_string(*n);
            s.append(d.as_str());
            s.append("\n");
            s
        },
        InstrKind::XorEaxEax => String::from_str("    xor eax, eax\n"),
        InstrKind::Leave => String::from_str("    leave\n"),
        InstrKind::Ret => String::from_str("    ret\n"),
        InstrKind::MovRaxImm(n) => {
            let mut s = String::from_str("    mov rax, ");
            let d = i64_to_string(*n);
            s.append(d.as_str());
            s.append("\n");
            s
        },
        InstrKind::MovSlotRax(off) => {
            let mut s = String::from_str("    mov [rbp-");
            let d = u64_to_string(*off);
            s.append(d.as_str());
            s.append("], rax\n");
            s
        },
        InstrKind::MovRaxSlot(off) => {
            let mut s = String::from_str("    mov rax, [rbp-");
            let d = u64_to_string(*off);
            s.append(d.as_str());
            s.append("]\n");
            s
        },
        InstrKind::MovRcxSlot(off) => {
            let mut s = String::from_str("    mov rcx, [rbp-");
            let d = u64_to_string(*off);
            s.append(d.as_str());
            s.append("]\n");
            s
        },
        InstrKind::TestRaxRax => String::from_str("    test rax, rax\n"),
        InstrKind::Jz(n) => {
            let mut s = String::from_str("    jz L");
            let d = usize_to_string(*n);
            s.append(d.as_str());
            s.append("\n");
            s
        },
        InstrKind::Jmp(n) => {
            let mut s = String::from_str("    jmp L");
            let d = usize_to_string(*n);
            s.append(d.as_str());
            s.append("\n");
            s
        },
        InstrKind::Jg(n) => {
            let mut s = String::from_str("    jg L");
            let d = usize_to_string(*n);
            s.append(d.as_str());
            s.append("\n");
            s
        },
        InstrKind::Jge(n) => {
            let mut s = String::from_str("    jge L");
            let d = usize_to_string(*n);
            s.append(d.as_str());
            s.append("\n");
            s
        },
        InstrKind::CmpRaxRcx => String::from_str("    cmp rax, rcx\n"),
        InstrKind::IncRax => String::from_str("    inc rax\n"),
        InstrKind::LeaRaxStr(n) => {
            let mut s = String::from_str("    lea rax, [rel str_");
            let d = usize_to_string(*n);
            s.append(d.as_str());
            s.append("]\n");
            s
        },
        InstrKind::LeaRcxStr(n) => {
            let mut s = String::from_str("    lea rcx, [rel str_");
            let d = usize_to_string(*n);
            s.append(d.as_str());
            s.append("]\n");
            s
        },
        InstrKind::PushRax => String::from_str("    push rax\n"),
        InstrKind::PopRcx => String::from_str("    pop rcx\n"),
        InstrKind::AddRaxRcx => String::from_str("    add rax, rcx\n"),
        InstrKind::SubRaxRcx => String::from_str("    sub rax, rcx\n"),
        InstrKind::ImulRaxRcx => String::from_str("    imul rax, rcx\n"),
        InstrKind::XorRdxRdx => String::from_str("    xor rdx, rdx\n"),
        InstrKind::IdivRcx => String::from_str("    idiv rcx\n"),
        InstrKind::MovRaxRdx => String::from_str("    mov rax, rdx\n"),
        InstrKind::SeteAl => String::from_str("    sete al\n"),
        InstrKind::SetneAl => String::from_str("    setne al\n"),
        InstrKind::SetlAl => String::from_str("    setl al\n"),
        InstrKind::SetleAl => String::from_str("    setle al\n"),
        InstrKind::SetgAl => String::from_str("    setg al\n"),
        InstrKind::SetgeAl => String::from_str("    setge al\n"),
        InstrKind::SetzAl => String::from_str("    setz al\n"),
        InstrKind::MovzxRaxAl => String::from_str("    movzx rax, al\n"),
        InstrKind::AndRaxRcx => String::from_str("    and rax, rcx\n"),
        InstrKind::OrRaxRcx => String::from_str("    or rax, rcx\n"),
        InstrKind::NegRax => String::from_str("    neg rax\n"),
        InstrKind::MovRcxRax => String::from_str("    mov rcx, rax\n"),
        InstrKind::CallPrintf => String::from_str("    call printf\n"),
    }
}

/// Appends the rendering of a line sequence.
fn render_append(lines: &Vec<AsmLine>, out: &mut String)
    ensures
        final(out)@ == old(out)@ + render_lines(lines@),
{
    let n = lines.len();
    let mut i: usize = 0;
    #[verifier::loop_isolation(false)]
    loop
        invariant
            i <= n,
            n == lines@.len(),
            out@ == old(out)@ + render_lines(lines@.take(i as int)),
        decreases n - i,
    {
        if i >= n {
            break ;
        }
        let t = line_text(&lines[i]);
        out.append(t.as_str());
        proof {
            lemma_render_push(lines@.take(i as int), lines@[i as int]);
            assert(lines@.take(i as int).push(lines@[i as int]) =~= lines@.take(i as int + 1));
            assert(out@ =~= old(out)@ + render_lines(lines@.take(i as int + 1)));
        }
        i = i + 1;
    }
    proof {
        assert(lines@.take(n as int) =~= lines@);
    }
}

/// An interned string with its raw newlines and carriage returns written
/// out as escapes, for display in the data section.
fn escape_entry(s: &String) -> (r: String)
    ensures
        r@ == esc_text(s@),
{
    let n = s.as_str().unicode_len();
    let mut out = String::new();
    let mut i: usize = 0;
    #[verifier::loop_isolation(false)]
    loop
        invariant
            i <= n,
            n == s@.len(),
            out@ == esc_text(s@.take(i as int)),
        decreases n - i,
    {
        if i >= n {
            break ;
        }
        let c = s.as_str().get_char(i);
        if c == '\n' {
            out.push('\\');
            out.push('n');
        } else if c == '\r' {
            out.push('\\');
            out.push('r');
        } else {
            out.push(c);
        }
        proof {
            lemma_esc_push(s@.take(i as int), c);
            assert(s@.take(i as int).push(c) =~= s@.take(i as int + 1));
            assert(out@ =~= esc_text(s@.take(i as int + 1)));
        }
        i = i + 1;
    }
    proof {
        assert(s@.take(n as int) =~= s@);
    }
    out
}

/// Appends the data-section entries for the interned strings, one
/// null-terminated byte string per entry, in insertion order.
fn data_append(pool: &Vec<String>, out: &mut String)
    ensures
        final(out)@ == old(out)@ + data_entries(pool@.map_values(|s: String| s@), 0),
{
    let ghost view = pool@.map_values(|s: String| s@);
    let ghost mut done: Seq<char> = Seq::empty();
    let n = pool.len();
    let mut i: usize = 0;
    proof {
        assert(Seq::<char>::empty() + data_entries(view, 0) =~= data_entries(view, 0));
    }
    #[verifier::loop_isolation(false)]
    loop
        invariant
            i <= n,
            n == pool@.len(),
            out@ == old(out)@ + done,
            data_entries(view, 0) == done + data_entries(view, i as int),
        decreases n - i,
    {
        if i >= n {
            break ;
        }
        out.append("    str_");
        let d = usize_to_string(i);
        out.append(d.as_str());
        out.append(": db `");
        let e = escape_entry(&pool[i]);
        out.append(e.as_str());
        out.append("`, 0\n");
        proof {
            let entry = "    str_"@ + dec_str(i as int) + ": db `"@ + esc_text(view[i as int])
                + "`, 0\n"@;
            done = done + entry;
            assert(out@ =~= old(out)@ + done);
            assert(done + data_entries(view, i as int + 1) =~= (done.subrange(
                0,
                done.len() - entry.len() as int,
            ) + (entry + data_entries(view, i as int + 1))));
        }
        i = i + 1;
    }
    proof {
        assert(done + data_entries(view, i as int) =~= done);
    }
}

impl CodeGenerator {
    /// Produces the complete assembly text for a (well-formed) tree:
    /// exactly the text the mirror [`spec_to_assembly`] describes.  The
    /// pass resets all internal state first.  A tree over the node limit
    /// or a function frame over the byte limit is refused with a
    /// code-generation error; nothing else is.
    pub fn to_assembly(&mut self, ast: &AstNode) -> (r: Result<String, CompilerError>)
        ensures
            match r {
                Ok(s) => spec_to_assembly(*ast) matches Ok(t) && s@ == t,
                Err(e) => (e matches CompilerError::CodeGenError(_)) && (ast_size(*ast)
                    > MAX_AST_NODES as int || spec_to_assembly(*ast) is Err),
            },
            (ast_size(*ast) > MAX_AST_NODES as int || spec_to_assembly(*ast) is Err) ==> r is Err,
    {
        self.string_literals = Vec::new();
        self.variables = Vec::new();
        self.stack_offset = 0;
        self.label_counter = 0;
        self.loop_stack = Vec::new();
        proof {
            assert(self.st().strings =~= init_cg_st().strings);
            assert(self.st().vars =~~= init_cg_st().vars);
            assert(self.st().loops =~= init_cg_st().loops);
            assert(self.st() == init_cg_st());
        }

        match measure_ast(ast, MAX_AST_NODES) {
            Some(_) => {},
            None => {
                return Err(
                    CompilerError::CodeGenError(
                        String::from_str("Program exceeds the supported size"),
                    ),
                );
            },
        }

        let mut code: Vec<AsmLine> = Vec::new();
        match self.generate_assembly_node(ast, &mut code) {
            Ok(()) => {},
            Err(e) => {
                return Err(e);
            },
        }

        let mut out = String::from_str("section .data\n");
        data_append(&self.string_literals, &mut out);
        out.append("\n");
        out.append("section .bss\n\n");
        out.append("section .text\n");
        out.append("    global main\n");
        out.append("    extern ExitProcess\n");
        out.append("    extern printf\n\n");
        render_append(&code, &mut out);
        proof {
            match emit_item(init_cg_st(), *ast) {
                Ok(p) => {
                    assert(out@ =~= header_text(p.1.strings) + render_lines(p.0));
                },
                Err(()) => {},
            }
        }
        Ok(out)
    }
}


/// The source-level name of a type, with arrays as `[elem; len]`.
pub open spec fn type_text(t: Type) -> Seq<char>
    decreases t,
{
    match t {
        Type::I8 => "i8"@,
        Type::I16 => "i16"@,
        Type::I32 => "i32"@,
        Type::I64 => "i64"@,
        Type::U8 => "u8"@,
        Type::U16 => "u16"@,
        Type::U32 => "u32"@,
        Type::U64 => "u64"@,
        Type::F32 => "f32"@,
        Type::F64 => "f64"@,
        Type::Bool => "bool"@,
        Type::Char => "char"@,
        Type::Void => "void"@,
        Type::Str => "str"@,
        Type::Array(e, n) => "["@ + type_text(*e) + "; "@ + dec_str(n as int) + "]"@,
    }
}

/// The one-word rendering of a statement for the pseudo-IR dump: a
/// consistent, total summary line per statement-level node.
pub open spec fn stmt_word(n: AstNode) -> Seq<char> {
    match n {
        AstNode::Module { name, items: _ } => "module "@ + name@,
        AstNode::Function { name, params: _, return_type: _, body: _ } => "fn "@ + name@,
        AstNode::VariableDecl { name, var_type: _, value: _, mutable: _ } => "let "@ + name@,
        AstNode::ConstDecl { name, const_type: _, value: _ } => "const "@ + name@,
        AstNode::Return { value: _ } => "return"@,
        AstNode::BinaryOp { left: _, op: _, right: _ } => "binop"@,
        AstNode::UnaryOp { op: _, operand: _ } => "unop"@,
        AstNode::Literal(_) => "literal"@,
        AstNode::Identifier(name) => name@,
        AstNode::FunctionCall { name, args: _ } => "call "@ + name@,
        AstNode::If { condition: _, then_branch: _, else_branch: _ } => "if"@,
        AstNode::While { condition: _, body: _ } => "while"@,
        AstNode::For { iterator, range_start: _, range_end: _, inclusive: _, body: _ } => "for "@
            + iterator@,
        AstNode::Loop { body: _ } => "loop"@,
        AstNode::Break => "break"@,
        AstNode::Continue => "continue"@,
        AstNode::Assignment { target, value: _ } => "assign "@ + target@,
        AstNode::ArrayLiteral { elements: _ } => "array"@,
        AstNode::ArrayRepeat { value: _, count: _ } => "array-repeat"@,
        AstNode::ArrayIndex { array: _, index: _ } => "index"@,
    }
}

/// The parameter list of a function header, comma separated.
pub open spec fn params_text(params: Vec<(String, Type)>, i: int) -> Seq<char>
    decreases params@.len() - i,
{
    if i < 0 || i >= params@.len() {
        Seq::empty()
    } else {
        (if i > 0 {
            ", "@
        } else {
            Seq::<char>::empty()
        }) + params@[i].0@ + ": "@ + type_text(params@[i].1) + params_text(params, i + 1)
    }
}

/// One summary line per top-level statement of a function body.
pub open spec fn stmts_ir_text(body: Vec<AstNode>, i: int) -> Seq<char>
    decreases body@.len() - i,
{
    if i < 0 || i >= body@.len() {
        Seq::empty()
    } else {
        "    "@ + stmt_word(body@[i]) + "\n"@ + stmts_ir_text(body, i + 1)
    }
}

/// The pseudo-IR text of one node: a module comment line followed by its
/// items, a function as a pseudo-declaration block, and nothing for
/// anything else at top level.
pub open spec fn ir_text(node: AstNode) -> Seq<char>
    decreases node, 0int, 0int,
{
    match node {
        AstNode::Module { name, items } => "; Module: "@ + name@ + "\n"@ + items_ir_text(
            items,
            0,
        ),
        AstNode::Function { name, params, return_type, body } => "function "@ + name@ + "("@
            + params_text(params, 0) + ")"@ + (match return_type {
            Some(t) => " -> "@ + type_text(t),
            None => Seq::<char>::empty(),
        }) + " {\n"@ + stmts_ir_text(body, 0) + "}\n\n"@,
        _ => Seq::empty(),
    }
}

/// The pseudo-IR text of a run of top-level items.
pub open spec fn items_ir_text(items: Vec<AstNode>, i: int) -> Seq<char>
    decreases items, items@.len() - i, 1int,
{
    if i < 0 || i >= items@.len() {
        Seq::empty()
    } else {
        ir_text(items@[i]) + items_ir_text(items, i + 1)
    }
}

/// The source-level name of a type, as a string.
fn type_text_string(t: &Type) -> (r: String)
    ensures
        r@ == type_text(*t),
    decreases *t,
{
    match t {
        Type::I8 => String::from_str("i8"),
        Type::I16 => String::from_str("i16"),
        Type::I32 => String::from_str("i32"),
        Type::I64 => String::from_str("i64"),
        Type::U8 => String::from_str("u8"),
        Type::U16 => String::from_str("u16"),
        Type::U32 => String::from_str("u32"),
        Type::U64 => String::from_str("u64"),
        Type::F32 => String::from_str("f32"),
        Type::F64 => String::from_str("f64"),
        Type::Bool => String::from_str("bool"),
        Type::Char => String::from_str("char"),
        Type::Void => String::from_str("void"),
        Type::Str => String::from_str("str"),
        Type::Array(e, n) => {
            let mut s = String::from_str("[");
            let inner = type_text_string(e);
            s.append(inner.as_str());
            s.append("; ");
            let d = usize_to_string(*n);
            s.append(d.as_str());
            s.append("]");
            s
        },
    }
}

/// The one-word summary of a statement, as a string.
fn stmt_word_string(n: &AstNode) -> (r: String)
    ensures
        r@ == stmt_word(*n),
{
    match n {
        AstNode::Module { name, items: _ } => {
            let mut s = String::from_str("module ");
            s.append(name.as_str());
            s
        },
        AstNode::Function { name, params: _, return_type: _, body: _ } => {
            let mut s = String::from_str("fn ");
            s.append(name.as_str());
            s
        },
        AstNode::VariableDecl { name, var_type: _, value: _, mutable: _ } => {
            let mut s = String::from_str("let ");
            s.append(name.as_str());
            s
        },
        AstNode::ConstDecl { name, const_type: _, value: _ } => {
            let mut s = String::from_str("const ");
            s.append(name.as_str());
            s
        },
        AstNode::Return { value: _ } => String::from_str("return"),
        AstNode::BinaryOp { left: _, op: _, right: _ } => String::from_str("binop"),
        AstNode::UnaryOp { op: _, operand: _ } => String::from_str("unop"),
        AstNode::Literal(_) => String::from_str("literal"),
        AstNode::Identifier(name) => name.clone(),
        AstNode::FunctionCall { name, args: _ } => {
            let mut s = String::from_str("call ");
            s.append(name.as_str());
            s
        },
        AstNode::If { condition: _, then_branch: _, else_branch: _ } => String::from_str("if"),
        AstNode::While { condition: _, body: _ } => String::from_str("while"),
        AstNode::For { iterator, range_start: _, range_end: _, inclusive: _, body: _ } => {
            let mut s = String::from_str("for ");
            s.append(iterator.as_str());
            s
        },
        AstNode::Loop { body: _ } => String::from_str("loop"),
        AstNode::Break => String::from_str("break"),
        AstNode::Continue => String::from_str("continue"),
        AstNode::Assignment { target, value: _ } => {
            let mut s = String::from_str("assign ");
            s.append(target.as_str());
            s
        },
        AstNode::ArrayLiteral { elements: _ } => String::from_str("array"),
        AstNode::ArrayRepeat { value: _, count: _ } => String::from_str("array-repeat"),
        AstNode::ArrayIndex { array: _, index: _ } => String::from_str("index"),
    }
}

/// Appends the pseudo-IR text of one node.
#[verifier::rlimit(100)]
#[verifier::spinoff_prover]
fn ir_append(node: &AstNode, out: &mut String)
    ensures
        final(out)@ == old(out)@ + ir_text(*node),
    decreases *node, 1int, 0int,
{
    match node {
        AstNode::Module { name, items } => {
            out.append("; Module: ");
            out.append(name.as_str());
            out.append("\n");
            let ghost after_head = out@;
            let ghost view = *items;
            let ghost mut done: Seq<char> = Seq::empty();
            let n = items.len();
            let mut i: usize = 0;
            proof {
                assert(Seq::<char>::empty() + items_ir_text(view, 0) =~= items_ir_text(view, 0));
                assert(out@ =~= after_head + done);
            }
            #[verifier::loop_isolation(false)]
            loop
                invariant
                    i <= n,
                    n == items@.len(),
                    out@ == after_head + done,
                    items_ir_text(view, 0) == done + items_ir_text(view, i as int),
                decreases n - i,
            {
                if i >= n {
                    break ;
                }
                ir_append(&items[i], out);
                proof {
                    let entry = ir_text(items@[i as int]);
                    done = done + entry;
                    assert(out@ =~= after_head + done);
                    assert(done + items_ir_text(view, i as int + 1) =~= (done.subrange(
                        0,
                        done.len() - entry.len() as int,
                    ) + (entry + items_ir_text(view, i as int + 1))));
                }
                i = i + 1;
            }
            proof {
                assert(done + items_ir_text(view, i as int) =~= done);
                assert(out@ =~= old(out)@ + ir_text(*node));
            }
        },
        AstNode::Function { name, params, return_type, body } => {
            out.append("function ");
            out.append(name.as_str());
            out.append("(");
            let ghost pview = *params;
            let ghost after_open = out@;
            let ghost mut pdone: Seq<char> = Seq::empty();
            let np = params.len();
            let mut i: usize = 0;
            proof {
                assert(Seq::<char>::empty() + params_text(pview, 0) =~= params_text(pview, 0));
                assert(out@ =~= after_open + pdone);
            }
            #[verifier::loop_isolation(false)]
            loop
                invariant
                    i <= np,
                    np == params@.len(),
                    out@ == after_open + pdone,
                    params_text(pview, 0) == pdone + params_text(pview, i as int),
                decreases np - i,
            {
                if i >= np {
                    break ;
                }
                if i > 0 {
                    out.append(", ");
                }
                out.append(params[i].0.as_str());
                out.append(": ");
                let tt = type_text_string(&params[i].1);
                out.append(tt.as_str());
                proof {
                    let entry = (if i as int > 0 {
                        ", "@
                    } else {
                        Seq::<char>::empty()
                    }) + params@[i as int].0@ + ": "@ + type_text(params@[i as int].1);
                    pdone = pdone + entry;
                    assert(out@ =~= after_open + pdone);
                    assert(pdone + params_text(pview, i as int + 1) =~= (pdone.subrange(
                        0,
                        pdone.len() - entry.len() as int,
                    ) + (entry + params_text(pview, i as int + 1))));
                }
                i = i + 1;
            }
            proof {
                assert(pdone + params_text(pview, i as int) =~= pdone);
            }
            out.append(")");
            match return_type {
                Some(t) => {
                    out.append(" -> ");
                    let tt = type_text_string(t);
                    out.append(tt.as_str());
                },
                None => {},
            }
            out.append(" {\n");
            let ghost bview = *body;
            let ghost after_brace = out@;
            let ghost mut bdone: Seq<char> = Seq::empty();
            let nb = body.len();
            let mut j: usize = 0;
            proof {
                assert(Seq::<char>::empty() + stmts_ir_text(bview, 0) =~= stmts_ir_text(bview, 0));
                assert(out@ =~= after_brace + bdone);
            }
            #[verifier::loop_isolation(false)]
            loop
                invariant
                    j <= nb,
                    nb == body@.len(),
                    out@ == after_brace + bdone,
                    stmts_ir_text(bview, 0) == bdone + stmts_ir_text(bview, j as int),
                decreases nb - j,
            {
                if j >= nb {
                    break ;
                }
                out.append("    ");
                let w = stmt_word_string(&body[j]);
                out.append(w.as_str());
                out.append("\n");
                proof {
                    let entry = "    "@ + stmt_word(body@[j as int]) + "\n"@;
                    bdone = bdone + entry;
                    assert(out@ =~= after_brace + bdone);
                    assert(bdone + stmts_ir_text(bview, j as int + 1) =~= (bdone.subrange(
                        0,
                        bdone.len() - entry.len() as int,
                    ) + (entry + stmts_ir_text(bview, j as int + 1))));
                }
                j = j + 1;
            }
            proof {
                assert(bdone + stmts_ir_text(bview, j as int) =~= bdone);
            }
            out.append("}\n\n");
            proof {
                assert(out@ =~= old(out)@ + ir_text(*node));
            }
        },
        _ => {
            proof {
                assert(out@ =~= old(out)@ + ir_text(*node));
            }
        },
    }
}

impl CodeGenerator {
    /// Produces the human-readable pseudo-IR text of a tree: exactly the
    /// text [`ir_text`] describes.  The dump is advisory only; nothing
    /// downstream consumes it.
    pub fn generate(&mut self, ast: &AstNode) -> (r: Result<String, CompilerError>)
        ensures
            r matches Ok(s) && s@ == ir_text(*ast),
    {
        let mut output = String::new();
        ir_append(ast, &mut output);
        Ok(output)
    }
}


/// How many times the line sequence defines the numbered local label `n`.
pub open spec fn count_local_label(lines: Seq<AsmLine>, n: int) -> int
    decreases lines.len(),
{
    if lines.len() == 0 {
        0
    } else {
        (match lines.last() {
            AsmLine::LocalLabel(m) => if m as int == n {
                1int
            } else {
                0int
            },
            _ => 0int,
        }) + count_local_label(lines.drop_last(), n)
    }
}

/// How many times the line sequence defines the function label `f`.
pub open spec fn count_fn_label(lines: Seq<AsmLine>, f: Seq<char>) -> int
    decreases lines.len(),
{
    if lines.len() == 0 {
        0
    } else {
        (match lines.last() {
            AsmLine::FnLabel(s) => if s@ == f {
                1int
            } else {
                0int
            },
            _ => 0int,
        }) + count_fn_label(lines.drop_last(), f)
    }
}

/// Label counts distribute over concatenation.
pub proof fn lemma_count_concat(a: Seq<AsmLine>, b: Seq<AsmLine>, n: int, f: Seq<char>)
    ensures
        count_local_label(a + b, n) == count_local_label(a, n) + count_local_label(b, n),
        count_fn_label(a + b, f) == count_fn_label(a, f) + count_fn_label(b, f),
    decreases b.len(),
{
    if b.len() == 0 {
        assert(a + b =~= a);
    } else {
        lemma_count_concat(a, b.drop_last(), n, f);
        assert((a + b).drop_last() =~= a + b.drop_last());
    }
}

/// How many functions named `f` a tree declares at top level.
pub open spec fn count_fn_named(node: AstNode, f: Seq<char>) -> int
    decreases node, 0int, 0int,
{
    match node {
        AstNode::Module { name: _, items } => count_fn_named_all(items, 0, f),
        AstNode::Function { name, params: _, return_type: _, body: _ } => if name@ == f {
            1int
        } else {
            0int
        },
        _ => 0,
    }
}

/// How many functions named `f` a run of items declares.
pub open spec fn count_fn_named_all(items: Vec<AstNode>, i: int, f: Seq<char>) -> int
    decreases items, items@.len() - i, 1int,
{
    if i < 0 || i >= items@.len() {
        0
    } else {
        count_fn_named(items@[i], f) + count_fn_named_all(items, i + 1, f)
    }
}


/// One line's contribution to a local-label count.
pub open spec fn local_contrib(x: AsmLine, n: int) -> int {
    match x {
        AsmLine::LocalLabel(m) => if m as int == n {
            1int
        } else {
            0int
        },
        _ => 0int,
    }
}

/// One line's contribution to a function-label count.
pub open spec fn fnlab_contrib(x: AsmLine, f: Seq<char>) -> int {
    match x {
        AsmLine::FnLabel(s) => if s@ == f {
            1int
        } else {
            0int
        },
        _ => 0int,
    }
}

proof fn lemma_count_unit(x: AsmLine, n: int, f: Seq<char>)
    ensures
        count_local_label(seq![x], n) == local_contrib(x, n),
        count_fn_label(seq![x], f) == fnlab_contrib(x, f),
{
    assert(seq![x].drop_last() =~= Seq::<AsmLine>::empty());
    assert(count_local_label(Seq::<AsmLine>::empty(), n) == 0);
    assert(count_fn_label(Seq::<AsmLine>::empty(), f) == 0);
}

proof fn lemma_count_two(a: AsmLine, b: AsmLine, n: int, f: Seq<char>)
    ensures
        count_local_label(seq![a, b], n) == local_contrib(a, n) + local_contrib(b, n),
        count_fn_label(seq![a, b], f) == fnlab_contrib(a, f) + fnlab_contrib(b, f),
{
    assert(seq![a, b] =~= seq![a] + seq![b]);
    lemma_count_concat(seq![a], seq![b], n, f);
    lemma_count_unit(a, n, f);
    lemma_count_unit(b, n, f);
}

proof fn lemma_count_three(a: AsmLine, b: AsmLine, c: AsmLine, n: int, f: Seq<char>)
    ensures
        count_local_label(seq![a, b, c], n) == local_contrib(a, n) + local_contrib(b, n)
            + local_contrib(c, n),
        count_fn_label(seq![a, b, c], f) == fnlab_contrib(a, f) + fnlab_contrib(b, f)
            + fnlab_contrib(c, f),
{
    assert(seq![a, b, c] =~= seq![a, b] + seq![c]);
    lemma_count_concat(seq![a, b], seq![c], n, f);
    lemma_count_two(a, b, n, f);
    lemma_count_unit(c, n, f);
}

proof fn lemma_count_five(
    a: AsmLine,
    b: AsmLine,
    c: AsmLine,
    d: AsmLine,
    e: AsmLine,
    n: int,
    f: Seq<char>,
)
    ensures
        count_local_label(seq![a, b, c, d, e], n) == local_contrib(a, n) + local_contrib(b, n)
            + local_contrib(c, n) + local_contrib(d, n) + local_contrib(e, n),
        count_fn_label(seq![a, b, c, d, e], f) == fnlab_contrib(a, f) + fnlab_contrib(b, f)
            + fnlab_contrib(c, f) + fnlab_contrib(d, f) + fnlab_contrib(e, f),
{
    assert(seq![a, b, c, d, e] =~= seq![a, b, c] + seq![d, e]);
    lemma_count_concat(seq![a, b, c], seq![d, e], n, f);
    lemma_count_three(a, b, c, n, f);
    lemma_count_two(d, e, n, f);
}

proof fn lemma_count_six(
    a: AsmLine,
    b: AsmLine,
    c: AsmLine,
    d: AsmLine,
    e: AsmLine,
    g: AsmLine,
    n: int,
    f: Seq<char>,
)
    ensures
        count_local_label(seq![a, b, c, d, e, g], n) == local_contrib(a, n) + local_contrib(b, n)
            + local_contrib(c, n) + local_contrib(d, n) + local_contrib(e, n) + local_contrib(
            g,
            n,
        ),
        count_fn_label(seq![a, b, c, d, e, g], f) == fnlab_contrib(a, f) + fnlab_contrib(b, f)
            + fnlab_contrib(c, f) + fnlab_contrib(d, f) + fnlab_contrib(e, f) + fnlab_contrib(
            g,
            f,
        ),
{
    assert(seq![a, b, c, d, e, g] =~= seq![a, b, c, d, e] + seq![g]);
    lemma_count_concat(seq![a, b, c, d, e], seq![g], n, f);
    lemma_count_five(a, b, c, d, e, n, f);
    lemma_count_unit(g, n, f);
}

/// An expression emits no label definitions of either kind.
pub proof fn lemma_emit_expr_no_labels(st: CgSt, node: AstNode)
    ensures
        forall|n: int| #[trigger] count_local_label(emit_expr(st, node).0, n) == 0,
        forall|f: Seq<char>| #[trigger] count_fn_label(emit_expr(st, node).0, f) == 0,
    decreases node, 0int, 2int,
{
    let (l, st2) = emit_expr(st, node);
    match node {
        AstNode::BinaryOp { left, op, right } => {
            let (rl, st1) = emit_expr(st, *right);
            let (ll, stl) = emit_expr(st1, *left);
            lemma_emit_expr_no_labels(st, *right);
            lemma_emit_expr_no_labels(st1, *left);
            assert forall|n: int| #[trigger] count_local_label(l, n) == 0 by {
                lemma_count_concat(rl, seq![AsmLine::Instr(InstrKind::PushRax)], n, Seq::empty());
                lemma_count_concat(
                    rl + seq![AsmLine::Instr(InstrKind::PushRax)],
                    ll,
                    n,
                    Seq::empty(),
                );
                lemma_count_concat(
                    rl + seq![AsmLine::Instr(InstrKind::PushRax)] + ll,
                    seq![AsmLine::Instr(InstrKind::PopRcx)],
                    n,
                    Seq::empty(),
                );
                lemma_count_concat(
                    rl + seq![AsmLine::Instr(InstrKind::PushRax)] + ll + seq![
                        AsmLine::Instr(InstrKind::PopRcx),
                    ],
                    binop_lines(op@),
                    n,
                    Seq::empty(),
                );
                lemma_count_instrs_only(binop_lines(op@), n, Seq::empty());
                lemma_count_unit(AsmLine::Instr(InstrKind::PushRax), n, Seq::empty());
                lemma_count_unit(AsmLine::Instr(InstrKind::PopRcx), n, Seq::empty());
            }
            assert forall|f: Seq<char>| #[trigger] count_fn_label(l, f) == 0 by {
                lemma_count_concat(rl, seq![AsmLine::Instr(InstrKind::PushRax)], 0, f);
                lemma_count_concat(rl + seq![AsmLine::Instr(InstrKind::PushRax)], ll, 0, f);
                lemma_count_concat(
                    rl + seq![AsmLine::Instr(InstrKind::PushRax)] + ll,
                    seq![AsmLine::Instr(InstrKind::PopRcx)],
                    0,
                    f,
                );
                lemma_count_concat(
                    rl + seq![AsmLine::Instr(InstrKind::PushRax)] + ll + seq![
                        AsmLine::Instr(InstrKind::PopRcx),
                    ],
                    binop_lines(op@),
                    0,
                    f,
                );
                lemma_count_instrs_only(binop_lines(op@), 0, f);
                lemma_count_unit(AsmLine::Instr(InstrKind::PushRax), 0, f);
                lemma_count_unit(AsmLine::Instr(InstrKind::PopRcx), 0, f);
            }
        },
        AstNode::UnaryOp { op, operand } => {
            let (ol, st1) = emit_expr(st, *operand);
            lemma_emit_expr_no_labels(st, *operand);
            let tail: Seq<AsmLine> = if op@ == "-"@ {
                seq![AsmLine::Instr(InstrKind::NegRax)]
            } else if op@ == "!"@ {
                seq![
                    AsmLine::Instr(InstrKind::TestRaxRax),
                    AsmLine::Instr(InstrKind::SetzAl),
                    AsmLine::Instr(InstrKind::MovzxRaxAl),
                ]
            } else {
                Seq::empty()
            };
            assert forall|n: int| #[trigger] count_local_label(l, n) == 0 by {
                lemma_count_concat(ol, tail, n, Seq::empty());
                lemma_count_instrs_only(tail, n, Seq::empty());
            }
            assert forall|f: Seq<char>| #[trigger] count_fn_label(l, f) == 0 by {
                lemma_count_concat(ol, tail, 0, f);
                lemma_count_instrs_only(tail, 0, f);
            }
        },
        AstNode::FunctionCall { name, args } => {
            if name@ == "print"@ && args@.len() > 0 {
                match args@[0] {
                    AstNode::Literal(Literal::String(_)) => {
                        let al = seq![AsmLine::Instr(InstrKind::LeaRcxStr(st.strings.len() as usize))];
                        let tail = seq![
                            AsmLine::Instr(InstrKind::SubRspImm(32)),
                            AsmLine::Instr(InstrKind::CallPrintf),
                            AsmLine::Instr(InstrKind::AddRspImm(32)),
                        ];
                        assert forall|n: int| #[trigger] count_local_label(l, n) == 0 by {
                            lemma_count_concat(al, tail, n, Seq::empty());
                            lemma_count_unit(al[0], n, Seq::empty());
                            lemma_count_three(tail[0], tail[1], tail[2], n, Seq::empty());
                            assert(seq![tail[0], tail[1], tail[2]] =~= tail);
                            assert(seq![al[0]] =~= al);
                        }
                        assert forall|f: Seq<char>| #[trigger] count_fn_label(l, f) == 0 by {
                            lemma_count_concat(al, tail, 0, f);
                            lemma_count_unit(al[0], 0, f);
                            lemma_count_three(tail[0], tail[1], tail[2], 0, f);
                            assert(seq![tail[0], tail[1], tail[2]] =~= tail);
                            assert(seq![al[0]] =~= al);
                        }
                    },
                    _ => {
                        let (el, st1) = emit_expr(st, args@[0]);
                        lemma_emit_expr_no_labels(st, args@[0]);
                        let al = el + seq![AsmLine::Instr(InstrKind::MovRcxRax)];
                        let tail = seq![
                            AsmLine::Instr(InstrKind::SubRspImm(32)),
                            AsmLine::Instr(InstrKind::CallPrintf),
                            AsmLine::Instr(InstrKind::AddRspImm(32)),
                        ];
                        assert forall|n: int| #[trigger] count_local_label(l, n) == 0 by {
                            lemma_count_concat(
                                el,
                                seq![AsmLine::Instr(InstrKind::MovRcxRax)],
                                n,
                                Seq::empty(),
                            );
                            lemma_count_unit(AsmLine::Instr(InstrKind::MovRcxRax), n, Seq::empty());
                            lemma_count_concat(al, tail, n, Seq::empty());
                            lemma_count_three(tail[0], tail[1], tail[2], n, Seq::empty());
                            assert(seq![tail[0], tail[1], tail[2]] =~= tail);
                        }
                        assert forall|f: Seq<char>| #[trigger] count_fn_label(l, f) == 0 by {
                            lemma_count_concat(
                                el,
                                seq![AsmLine::Instr(InstrKind::MovRcxRax)],
                                0,
                                f,
                            );
                            lemma_count_unit(AsmLine::Instr(InstrKind::MovRcxRax), 0, f);
                            lemma_count_concat(al, tail, 0, f);
                            lemma_count_three(tail[0], tail[1], tail[2], 0, f);
                            assert(seq![tail[0], tail[1], tail[2]] =~= tail);
                        }
                    },
                }
            }
        },
        _ => {
            assert forall|n: int| #[trigger] count_local_label(l, n) == 0 by {
                lemma_count_instrs_only(l, n, Seq::empty());
            }
            assert forall|f2: Seq<char>| #[trigger] count_fn_label(l, f2) == 0 by {
                lemma_count_instrs_only(l, 0, f2);
            }
        },
    }
}

/// A sequence made only of instructions and blanks defines no labels.
proof fn lemma_count_instrs_only(lines: Seq<AsmLine>, n: int, f: Seq<char>)
    requires
        forall|i: int|
            0 <= i < lines.len() ==> !((#[trigger] lines[i]) matches AsmLine::LocalLabel(_))
                && !(lines[i] matches AsmLine::FnLabel(_)),
    ensures
        count_local_label(lines, n) == 0,
        count_fn_label(lines, f) == 0,
    decreases lines.len(),
{
    if lines.len() > 0 {
        lemma_count_instrs_only(lines.drop_last(), n, f);
    }
}

/// A statement's emission defines exactly the labels it allocates: each
/// number in the range the label counter moved across appears exactly
/// once, and no function labels appear.
#[verifier::rlimit(100)]
#[verifier::spinoff_prover]
pub proof fn lemma_emit_stmt_labels(st: CgSt, node: AstNode, n: int, f: Seq<char>)
    requires
        0 <= st.label_counter,
        st.label_counter + 2 * ast_size(node) <= usize::MAX,
    ensures
        ({
            let (l, st2) = emit_stmt(st, node);
            &&& count_local_label(l, n) == if st.label_counter <= n < st2.label_counter {
                1int
            } else {
                0int
            }
            &&& count_fn_label(l, f) == 0
        }),
    decreases node, 1int, 2int,
{
    let (l, st2) = emit_stmt(st, node);
    lemma_emit_stmt_growth(st, node);
    lemma_ast_size_pos(node);
    match node {
        AstNode::VariableDecl { name: _, var_type: _, value, mutable: _ } => {
            match value {
                Some(v) => {
                    lemma_emit_expr_no_labels(st, *v);
                    lemma_emit_expr_frame(st, *v);
                    let (el, st1) = emit_expr(st, *v);
                    lemma_count_concat(
                        el,
                        seq![AsmLine::Instr(InstrKind::MovSlotRax((st1.stack_offset + 8) as u64))],
                        n,
                        f,
                    );
                    lemma_count_unit(
                        AsmLine::Instr(InstrKind::MovSlotRax((st1.stack_offset + 8) as u64)),
                        n,
                        f,
                    );
                },
                None => {},
            }
        },
        AstNode::ConstDecl { name: _, const_type: _, value } => {
            lemma_emit_expr_no_labels(st, *value);
            lemma_emit_expr_frame(st, *value);
            let (el, st1) = emit_expr(st, *value);
            lemma_count_concat(
                el,
                seq![AsmLine::Instr(InstrKind::MovSlotRax((st1.stack_offset + 8) as u64))],
                n,
                f,
            );
            lemma_count_unit(
                AsmLine::Instr(InstrKind::MovSlotRax((st1.stack_offset + 8) as u64)),
                n,
                f,
            );
        },
        AstNode::Return { value } => {
            match value {
                Some(v) => {
                    lemma_emit_expr_no_labels(st, *v);
                    lemma_emit_expr_frame(st, *v);
                    let (el, st1) = emit_expr(st, *v);
                    lemma_count_concat(
                        el,
                        seq![AsmLine::Instr(InstrKind::Leave), AsmLine::Instr(InstrKind::Ret)],
                        n,
                        f,
                    );
                    lemma_count_two(
                        AsmLine::Instr(InstrKind::Leave),
                        AsmLine::Instr(InstrKind::Ret),
                        n,
                        f,
                    );
                },
                None => {
                    lemma_count_three(
                        AsmLine::Instr(InstrKind::XorEaxEax),
                        AsmLine::Instr(InstrKind::Leave),
                        AsmLine::Instr(InstrKind::Ret),
                        n,
                        f,
                    );
                },
            }
        },
        AstNode::Assignment { target, value } => {
            lemma_emit_expr_no_labels(st, *value);
            lemma_emit_expr_frame(st, *value);
            let (el, st1) = emit_expr(st, *value);
            if st1.vars.contains_key(target@) {
                lemma_count_concat(
                    el,
                    seq![AsmLine::Instr(InstrKind::MovSlotRax(st1.vars[target@] as u64))],
                    n,
                    f,
                );
                lemma_count_unit(
                    AsmLine::Instr(InstrKind::MovSlotRax(st1.vars[target@] as u64)),
                    n,
                    f,
                );
            }
        },
        AstNode::If { condition, then_branch, else_branch } => {
            let else_label = st.label_counter;
            let end_label = st.label_counter + 1;
            let st0 = CgSt { label_counter: st.label_counter + 2, ..st };
            let (cl, st1) = emit_expr(st0, *condition);
            let (tl, stt) = emit_stmts(st1, then_branch, 0);
            let (el, ste) = match else_branch {
                Some(eb) => emit_stmts(stt, eb, 0),
                None => (Seq::<AsmLine>::empty(), stt),
            };
            lemma_ast_size_pos(*condition);
            lemma_ast_size_all_nonneg(then_branch, 0);
            match else_branch {
                Some(eb) => lemma_ast_size_all_nonneg(eb, 0),
                None => {},
            }
            lemma_emit_expr_no_labels(st0, *condition);
            lemma_emit_expr_frame(st0, *condition);
            lemma_emit_stmts_labels(st1, then_branch, 0, n, f);
            lemma_emit_stmts_growth(st1, then_branch, 0);
            match else_branch {
                Some(eb) => {
                    lemma_emit_stmts_labels(stt, eb, 0, n, f);
                    lemma_emit_stmts_growth(stt, eb, 0);
                },
                None => {},
            }
            let p1 = cl + seq![
                AsmLine::Instr(InstrKind::TestRaxRax),
                AsmLine::Instr(InstrKind::Jz(else_label as usize)),
            ];
            let p2 = p1 + tl;
            let p3 = p2 + seq![
                AsmLine::Instr(InstrKind::Jmp(end_label as usize)),
                AsmLine::LocalLabel(else_label as usize),
            ];
            let p4 = p3 + el;
            lemma_count_concat(
                cl,
                seq![
                    AsmLine::Instr(InstrKind::TestRaxRax),
                    AsmLine::Instr(InstrKind::Jz(else_label as usize)),
                ],
                n,
                f,
            );
            lemma_count_concat(p1, tl, n, f);
            lemma_count_concat(
                p2,
                seq![
                    AsmLine::Instr(InstrKind::Jmp(end_label as usize)),
                    AsmLine::LocalLabel(else_label as usize),
                ],
                n,
                f,
            );
            lemma_count_concat(p3, el, n, f);
            lemma_count_concat(p4, seq![AsmLine::LocalLabel(end_label as usize)], n, f);
            lemma_count_two(
                AsmLine::Instr(InstrKind::TestRaxRax),
                AsmLine::Instr(InstrKind::Jz(else_label as usize)),
                n,
                f,
            );
            lemma_count_two(
                AsmLine::Instr(InstrKind::Jmp(end_label as usize)),
                AsmLine::LocalLabel(else_label as usize),
                n,
                f,
            );
            lemma_count_unit(AsmLine::LocalLabel(end_label as usize), n, f);
            assert(count_local_label(l, n) == if st.label_counter <= n < st2.label_counter {
                1int
            } else {
                0int
            });
            assert(count_fn_label(l, f) == 0);
        },
        AstNode::While { condition, body } => {
            let start_label = st.label_counter;
            let end_label = st.label_counter + 1;
            let st0 = CgSt {
                label_counter: st.label_counter + 2,
                loops: st.loops.push((end_label, start_label)),
                ..st
            };
            let (cl, st1) = emit_expr(st0, *condition);
            let (bl, stb) = emit_stmts(st1, body, 0);
            lemma_ast_size_pos(*condition);
            lemma_ast_size_all_nonneg(body, 0);
            lemma_emit_expr_no_labels(st0, *condition);
            lemma_emit_expr_frame(st0, *condition);
            lemma_emit_stmts_labels(st1, body, 0, n, f);
            lemma_emit_stmts_growth(st1, body, 0);
            let p1 = seq![AsmLine::LocalLabel(start_label as usize)] + cl;
            let p2 = p1 + seq![
                AsmLine::Instr(InstrKind::TestRaxRax),
                AsmLine::Instr(InstrKind::Jz(end_label as usize)),
            ];
            let p3 = p2 + bl;
            lemma_count_concat(seq![AsmLine::LocalLabel(start_label as usize)], cl, n, f);
            lemma_count_concat(
                p1,
                seq![
                    AsmLine::Instr(InstrKind::TestRaxRax),
                    AsmLine::Instr(InstrKind::Jz(end_label as usize)),
                ],
                n,
                f,
            );
            lemma_count_concat(p2, bl, n, f);
            lemma_count_concat(
                p3,
                seq![
                    AsmLine::Instr(InstrKind::Jmp(start_label as usize)),
                    AsmLine::LocalLabel(end_label as usize),
                ],
                n,
                f,
            );
            lemma_count_unit(AsmLine::LocalLabel(start_label as usize), n, f);
            lemma_count_two(
                AsmLine::Instr(InstrKind::TestRaxRax),
                AsmLine::Instr(InstrKind::Jz(end_label as usize)),
                n,
                f,
            );
            lemma_count_two(
                AsmLine::Instr(InstrKind::Jmp(start_label as usize)),
                AsmLine::LocalLabel(end_label as usize),
                n,
                f,
            );
            assert(count_local_label(l, n) == if st.label_counter <= n < st2.label_counter {
                1int
            } else {
                0int
            });
            assert(count_fn_label(l, f) == 0);
        },
        AstNode::For { iterator, range_start, range_end, inclusive, body } => {
            let start_label = st.label_counter;
            let end_label = st.label_counter + 1;
            let st0 = CgSt { label_counter: st.label_counter + 2, ..st };
            let (sl, st1) = emit_expr(st0, *range_start);
            let iter_off = st1.stack_offset + 8;
            let st_iter = CgSt {
                vars: st1.vars.insert(iterator@, iter_off),
                stack_offset: iter_off,
                ..st1
            };
            let (el, st3) = emit_expr(st_iter, *range_end);
            let end_off = st3.stack_offset + 8;
            let st4 = CgSt {
                stack_offset: end_off,
                loops: st3.loops.push((end_label, start_label)),
                ..st3
            };
            let (bl, st5) = emit_stmts(st4, body, 0);
            lemma_ast_size_pos(*range_start);
            lemma_ast_size_pos(*range_end);
            lemma_ast_size_all_nonneg(body, 0);
            lemma_emit_expr_no_labels(st0, *range_start);
            lemma_emit_expr_frame(st0, *range_start);
            lemma_emit_expr_no_labels(st_iter, *range_end);
            lemma_emit_expr_frame(st_iter, *range_end);
            lemma_emit_stmts_labels(st4, body, 0, n, f);
            lemma_emit_stmts_growth(st4, body, 0);
            let mid = seq![
                AsmLine::Instr(InstrKind::MovSlotRax(end_off as u64)),
                AsmLine::LocalLabel(start_label as usize),
                AsmLine::Instr(InstrKind::MovRaxSlot(iter_off as u64)),
                AsmLine::Instr(InstrKind::MovRcxSlot(end_off as u64)),
                AsmLine::Instr(InstrKind::CmpRaxRcx),
                AsmLine::Instr(
                    if inclusive {
                        InstrKind::Jg(end_label as usize)
                    } else {
                        InstrKind::Jge(end_label as usize)
                    },
                ),
            ];
            let tail = seq![
                AsmLine::Instr(InstrKind::MovRaxSlot(iter_off as u64)),
                AsmLine::Instr(InstrKind::IncRax),
                AsmLine::Instr(InstrKind::MovSlotRax(iter_off as u64)),
                AsmLine::Instr(InstrKind::Jmp(start_label as usize)),
                AsmLine::LocalLabel(end_label as usize),
            ];
            let p1 = sl + seq![AsmLine::Instr(InstrKind::MovSlotRax(iter_off as u64))];
            let p2 = p1 + el;
            let p3 = p2 + mid;
            let p4 = p3 + bl;
            lemma_count_concat(
                sl,
                seq![AsmLine::Instr(InstrKind::MovSlotRax(iter_off as u64))],
                n,
                f,
            );
            lemma_count_concat(p1, el, n, f);
            lemma_count_concat(p2, mid, n, f);
            lemma_count_concat(p3, bl, n, f);
            lemma_count_concat(p4, tail, n, f);
            lemma_count_unit(AsmLine::Instr(InstrKind::MovSlotRax(iter_off as u64)), n, f);
            lemma_count_six(mid[0], mid[1], mid[2], mid[3], mid[4], mid[5], n, f);
            assert(seq![mid[0], mid[1], mid[2], mid[3], mid[4], mid[5]] =~= mid);
            lemma_count_five(tail[0], tail[1], tail[2], tail[3], tail[4], n, f);
            assert(seq![tail[0], tail[1], tail[2], tail[3], tail[4]] =~= tail);
            assert(count_local_label(sl, n) == 0);
            assert(count_local_label(el, n) == 0);
            assert(count_local_label(mid, n) == local_contrib(mid[1], n));
            assert(count_local_label(bl, n) == if st4.label_counter <= n < st5.label_counter {
                1int
            } else {
                0int
            });
            assert(count_local_label(tail, n) == local_contrib(tail[4], n));
            assert(l == p4 + tail);
            assert(count_local_label(l, n) == local_contrib(mid[1], n) + local_contrib(tail[4], n)
                + (if st4.label_counter <= n < st5.label_counter {
                1int
            } else {
                0int
            }));
            assert(st4.label_counter == st.label_counter + 2);
            assert(st2.label_counter == st5.label_counter);
            assert(count_local_label(l, n) == if st.label_counter <= n < st2.label_counter {
                1int
            } else {
                0int
            });
            assert(count_fn_label(l, f) == 0);
        },
        AstNode::Loop { body } => {
            let start_label = st.label_counter;
            let end_label = st.label_counter + 1;
            let st0 = CgSt {
                label_counter: st.label_counter + 2,
                loops: st.loops.push((end_label, start_label)),
                ..st
            };
            let (bl, st1) = emit_stmts(st0, body, 0);
            lemma_ast_size_all_nonneg(body, 0);
            lemma_emit_stmts_labels(st0, body, 0, n, f);
            lemma_emit_stmts_growth(st0, body, 0);
            let p1 = seq![AsmLine::LocalLabel(start_label as usize)] + bl;
            lemma_count_concat(seq![AsmLine::LocalLabel(start_label as usize)], bl, n, f);
            lemma_count_concat(
                p1,
                seq![
                    AsmLine::Instr(InstrKind::Jmp(start_label as usize)),
                    AsmLine::LocalLabel(end_label as usize),
                ],
                n,
                f,
            );
            lemma_count_unit(AsmLine::LocalLabel(start_label as usize), n, f);
            lemma_count_two(
                AsmLine::Instr(InstrKind::Jmp(start_label as usize)),
                AsmLine::LocalLabel(end_label as usize),
                n,
                f,
            );
            assert(count_local_label(l, n) == if st.label_counter <= n < st2.label_counter {
                1int
            } else {
                0int
            });
            assert(count_fn_label(l, f) == 0);
        },
        AstNode::Break => {
            if st.loops.len() > 0 {
                lemma_count_unit(AsmLine::Instr(InstrKind::Jmp(st.loops.last().0 as usize)), n, f);
            }
        },
        AstNode::Continue => {
            if st.loops.len() > 0 {
                lemma_count_unit(AsmLine::Instr(InstrKind::Jmp(st.loops.last().1 as usize)), n, f);
            }
        },
        _ => {
            lemma_emit_expr_no_labels(st, node);
            lemma_emit_expr_frame(st, node);
            assert(count_local_label(emit_expr(st, node).0, n) == 0);
            assert(count_fn_label(emit_expr(st, node).0, f) == 0);
        },
    }
}

/// A run of statements defines exactly the labels its nodes allocate.
pub proof fn lemma_emit_stmts_labels(st: CgSt, body: Vec<AstNode>, i: int, n: int, f: Seq<char>)
    requires
        0 <= st.label_counter,
        st.label_counter + 2 * ast_size_all(body, i) <= usize::MAX,
    ensures
        ({
            let (l, st2) = emit_stmts(st, body, i);
            &&& count_local_label(l, n) == if st.label_counter <= n < st2.label_counter {
                1int
            } else {
                0int
            }
            &&& count_fn_label(l, f) == 0
        }),
    decreases body, body@.len() - i, 3int,
{
    lemma_ast_size_all_nonneg(body, i);
    if 0 <= i < body@.len() {
        lemma_ast_size_all_step(body, i);
        let (l1, st1) = emit_stmt(st, body@[i]);
        lemma_emit_stmt_labels(st, body@[i], n, f);
        lemma_emit_stmt_growth(st, body@[i]);
        lemma_emit_stmts_labels(st1, body, i + 1, n, f);
        lemma_emit_stmts_growth(st1, body, i + 1);
        let (l2, st2) = emit_stmts(st1, body, i + 1);
        lemma_count_concat(l1, l2, n, f);
    }
}

/// A top-level item defines each allocated branch label exactly once,
/// and one function label per function declaration it holds.
pub proof fn lemma_emit_item_labels(st: CgSt, node: AstNode, n: int, f: Seq<char>)
    requires
        0 <= st.label_counter,
        st.label_counter + 2 * ast_size(node) <= usize::MAX,
    ensures
        ({
            let r = emit_item(st, node);
            r matches Ok((l, st2)) ==> {
                &&& count_local_label(l, n) == if st.label_counter <= n < st2.label_counter {
                    1int
                } else {
                    0int
                }
                &&& count_fn_label(l, f) == count_fn_named(node, f)
            }
        }),
    decreases node, 3int, 2int,
{
    lemma_ast_size_pos(node);
    match node {
        AstNode::Module { name: _, items } => {
            lemma_ast_size_all_nonneg(items, 0);
            lemma_emit_items_labels(st, items, 0, n, f);
        },
        AstNode::Function { name, params: _, return_type: _, body } => {
            lemma_ast_size_all_nonneg(body, 0);
            let local_space = calc_space(body);
            if local_space > MAX_FRAME_BYTES as int {
            } else {
                let total_space = ((local_space + 32 + 15) / 16) * 16;
                let st0 = CgSt { vars: Map::empty(), stack_offset: 0, ..st };
                let (bl, st1) = emit_stmts(st0, body, 0);
                lemma_emit_stmts_labels(st0, body, 0, n, f);
                lemma_emit_stmts_growth(st0, body, 0);
                let prologue = seq![
                    AsmLine::FnLabel(name),
                    AsmLine::Instr(InstrKind::PushRbp),
                    AsmLine::Instr(InstrKind::MovRbpRsp),
                ] + (if total_space > 0 {
                    seq![AsmLine::Instr(InstrKind::SubRspImm(total_space as u64))]
                } else {
                    Seq::<AsmLine>::empty()
                }) + seq![AsmLine::Blank];
                let epilogue: Seq<AsmLine> = if has_top_return(body, 0) {
                    Seq::empty()
                } else {
                    seq![
                        AsmLine::Instr(InstrKind::XorEaxEax),
                        AsmLine::Instr(InstrKind::Leave),
                        AsmLine::Instr(InstrKind::Ret),
                    ]
                };
                lemma_count_concat(
                    seq![
                        AsmLine::FnLabel(name),
                        AsmLine::Instr(InstrKind::PushRbp),
                        AsmLine::Instr(InstrKind::MovRbpRsp),
                    ],
                    (if total_space > 0 {
                        seq![AsmLine::Instr(InstrKind::SubRspImm(total_space as u64))]
                    } else {
                        Seq::<AsmLine>::empty()
                    }),
                    n,
                    f,
                );
                lemma_count_concat(
                    seq![
                        AsmLine::FnLabel(name),
                        AsmLine::Instr(InstrKind::PushRbp),
                        AsmLine::Instr(InstrKind::MovRbpRsp),
                    ] + (if total_space > 0 {
                        seq![AsmLine::Instr(InstrKind::SubRspImm(total_space as u64))]
                    } else {
                        Seq::<AsmLine>::empty()
                    }),
                    seq![AsmLine::Blank],
                    n,
                    f,
                );
                lemma_count_concat(prologue, bl, n, f);
                lemma_count_concat(prologue + bl, epilogue, n, f);
                lemma_count_concat(prologue + bl + epilogue, seq![AsmLine::Blank], n, f);
                lemma_count_three(
                    AsmLine::FnLabel(name),
                    AsmLine::Instr(InstrKind::PushRbp),
                    AsmLine::Instr(InstrKind::MovRbpRsp),
                    n,
                    f,
                );
                if total_space > 0 {
                    lemma_count_unit(
                        AsmLine::Instr(InstrKind::SubRspImm(total_space as u64)),
                        n,
                        f,
                    );
                }
                lemma_count_unit(AsmLine::Blank, n, f);
                if !has_top_return(body, 0) {
                    lemma_count_three(
                        AsmLine::Instr(InstrKind::XorEaxEax),
                        AsmLine::Instr(InstrKind::Leave),
                        AsmLine::Instr(InstrKind::Ret),
                        n,
                        f,
                    );
                }
            }
        },
        _ => {},
    }
}

/// A run of items defines each allocated branch label exactly once, and
/// one function label per declared function of each name.
pub proof fn lemma_emit_items_labels(st: CgSt, items: Vec<AstNode>, i: int, n: int, f: Seq<char>)
    requires
        0 <= st.label_counter,
        st.label_counter + 2 * ast_size_all(items, i) <= usize::MAX,
    ensures
        ({
            let r = emit_items(st, items, i);
            r matches Ok((l, st2)) ==> {
                &&& count_local_label(l, n) == if st.label_counter <= n < st2.label_counter {
                    1int
                } else {
                    0int
                }
                &&& count_fn_label(l, f) == count_fn_named_all(items, i, f)
            }
        }),
    decreases items, items@.len() - i, 4int,
{
    lemma_ast_size_all_nonneg(items, i);
    if 0 <= i < items@.len() {
        lemma_ast_size_all_step(items, i);
        lemma_emit_item_labels(st, items@[i], n, f);
        match emit_item(st, items@[i]) {
            Ok((l1, st1)) => {
                lemma_emit_item_growth_lc(st, items@[i]);
                lemma_emit_items_labels(st1, items, i + 1, n, f);
                match emit_items(st1, items, i + 1) {
                    Ok((l2, st2)) => {
                        lemma_emit_items_growth_lc(st1, items, i + 1);
                        lemma_count_concat(l1, l2, n, f);
                    },
                    Err(()) => {},
                }
            },
            Err(()) => {},
        }
    }
}

/// An item's emission moves the label counter forwards by at most two
/// labels per node.
proof fn lemma_emit_item_growth_lc(st: CgSt, node: AstNode)
    ensures
        emit_item(st, node) matches Ok((l, st2)) ==> st.label_counter <= st2.label_counter
            <= st.label_counter + 2 * ast_size(node),
    decreases node, 3int, 1int,
{
    lemma_ast_size_pos(node);
    match node {
        AstNode::Module { name: _, items } => {
            lemma_ast_size_all_nonneg(items, 0);
            lemma_emit_items_growth_lc(st, items, 0);
        },
        AstNode::Function { name: _, params: _, return_type: _, body } => {
            lemma_ast_size_all_nonneg(body, 0);
            let st0 = CgSt { vars: Map::empty(), stack_offset: 0, ..st };
            lemma_emit_stmts_growth(st0, body, 0);
        },
        _ => {},
    }
}

/// A run of items moves the label counter forwards by at most two labels
/// per node.
proof fn lemma_emit_items_growth_lc(st: CgSt, items: Vec<AstNode>, i: int)
    ensures
        emit_items(st, items, i) matches Ok((l, st2)) ==> st.label_counter <= st2.label_counter
            <= st.label_counter + 2 * ast_size_all(items, i),
    decreases items, items@.len() - i, 5int,
{
    lemma_ast_size_all_nonneg(items, i);
    if 0 <= i < items@.len() {
        lemma_ast_size_all_step(items, i);
        lemma_emit_item_growth_lc(st, items@[i]);
        match emit_item(st, items@[i]) {
            Ok((l1, st1)) => {
                lemma_emit_items_growth_lc(st1, items, i + 1);
            },
            Err(()) => {},
        }
    }
}

/// For every program code generation accepts, the emitted line sequence
/// is balanced: each branch label the run allocates is defined exactly
/// once, no other branch label is ever defined, and each function name
/// labels exactly as many blocks as the module declares functions of
/// that name — exactly one, for a module whose function names are
/// distinct.
pub proof fn lemma_assembly_labels_balanced(ast: AstNode)
    requires
        ast_size(ast) <= MAX_AST_NODES as int,
    ensures
        ({
            let r = emit_item(init_cg_st(), ast);
            r matches Ok((lines, st2)) ==> {
                &&& forall|n: int| #[trigger] count_local_label(lines, n) == if 0 <= n
                    < st2.label_counter {
                    1int
                } else {
                    0int
                }
                &&& forall|f: Seq<char>| #[trigger] count_fn_label(lines, f) == count_fn_named(
                    ast,
                    f,
                )
            }
        }),
{
    lemma_ast_size_pos(ast);
    match emit_item(init_cg_st(), ast) {
        Ok((lines, st2)) => {
            assert forall|n: int| #[trigger] count_local_label(lines, n) == if 0 <= n
                < st2.label_counter {
                1int
            } else {
                0int
            } by {
                lemma_emit_item_labels(init_cg_st(), ast, n, Seq::empty());
            }
            assert forall|f: Seq<char>| #[trigger] count_fn_label(lines, f) == count_fn_named(
                ast,
                f,
            ) by {
                lemma_emit_item_labels(init_cg_st(), ast, 0, f);
            }
        },
        Err(()) => {},
    }
}

} // verus!
