//! Properties of the pipeline as a whole, proved over the models of the
//! parser and the code generator.
use vstd::prelude::*;
use crate::assembly::InstructionModel;
use crate::error::ErrorModel;
use crate::lexer::{lemma_token_bounds, next_token};
use crate::parser::{expect_any, parse_expression, parse_program, parse_statements, parse_term};
use crate::transpiler::{
    balanced, emit, exec_instruction, exec_instructions, gen_expr, gen_program, gen_statement,
    gen_statements, lemma_statements_next, lemma_statements_prefix, lookup,
    GenState,
};
use crate::utterances::{
    ArithmeticOperator, ExpressionModel, LiteralModel, StatementModel, SysCallModel, TermModel,
};

verus! {

// ---------------------------------------------------------------------------
// Stack balance

proof fn lemma_instruction_balanced(st: GenState, i: InstructionModel, max: int)
    requires
        balanced(st, max),
    ensures
        exec_instruction(st, i, max) matches Ok(st2) ==> balanced(st2, max),
{
}

proof fn lemma_instructions_balanced(st: GenState, is: Seq<InstructionModel>, max: int)
    requires
        balanced(st, max),
    ensures
        exec_instructions(st, is, max) matches Ok(st2) ==> balanced(st2, max),
    decreases is.len(),
{
    if is.len() > 0 {
        lemma_instructions_balanced(st, is.drop_last(), max);
        if let Ok(st1) = exec_instructions(st, is.drop_last(), max) {
            lemma_instruction_balanced(st1, is.last(), max);
        }
    }
}

proof fn lemma_expr_balanced(st: GenState, e: ExpressionModel, max: int)
    requires
        balanced(st, max),
    ensures
        gen_expr(st, e, max) matches Ok(st2) ==> balanced(st2, max),
    decreases e,
{
    match e {
        ExpressionModel::Term(TermModel::Alias(a)) => {
            if let Some(slot) = lookup(st.vars, a) {
                let k = (st.depth - slot - 1) as nat;
                lemma_instructions_balanced(
                    st,
                    seq![InstructionModel::Push(crate::transpiler::slot_operand(k))],
                    max,
                );
            }
        },
        ExpressionModel::Term(TermModel::Literal(LiteralModel::U32(v))) => {
            lemma_instructions_balanced(
                st,
                seq![
                    InstructionModel::Mov(crate::assembly::Registers::Rax.spec_name(), v),
                    InstructionModel::Push(crate::assembly::Registers::Rax.spec_name()),
                ],
                max,
            );
        },
        ExpressionModel::Term(TermModel::Literal(_)) => {},
        ExpressionModel::BinaryOp(op, l, r) => {
            let rax = crate::assembly::Registers::Rax.spec_name();
            let rbx = crate::assembly::Registers::Rbx.spec_name();
            lemma_expr_balanced(st, *l, max);
            if let Ok(st1) = gen_expr(st, *l, max) {
                lemma_expr_balanced(st1, *r, max);
                if let Ok(st2) = gen_expr(st1, *r, max) {
                    lemma_instructions_balanced(st2, seq![InstructionModel::Pop(rax)], max);
                    if let Ok(st3) = emit(st2, seq![InstructionModel::Pop(rax)], max) {
                        lemma_instructions_balanced(st3, seq![InstructionModel::Pop(rbx)], max);
                        if let Ok(st4) = emit(st3, seq![InstructionModel::Pop(rbx)], max) {
                            lemma_instructions_balanced(
                                st4,
                                seq![InstructionModel::Add(rax, rbx), InstructionModel::Push(rax)],
                                max,
                            );
                        }
                    }
                }
            }
        },
    }
}

proof fn lemma_statement_balanced(st: GenState, s: StatementModel, max: int)
    requires
        balanced(st, max),
    ensures
        gen_statement(st, s, max) matches Ok(st2) ==> balanced(st2, max),
{
    match s {
        StatementModel::Let(a, e) => lemma_expr_balanced(st, e, max),
        StatementModel::SystemCall(SysCallModel::Exit(e)) => {
            lemma_expr_balanced(st, e, max);
            if let Ok(st1) = gen_expr(st, e, max) {
                lemma_instructions_balanced(st1, seq![InstructionModel::Syscall], max);
            }
        },
    }
}

proof fn lemma_statements_balanced(st: GenState, v: Seq<StatementModel>, max: int)
    requires
        balanced(st, max),
    ensures
        gen_statements(st, v, max) matches Ok(st2) ==> balanced(st2, max),
    decreases v.len(),
{
    reveal(gen_statements);
    if v.len() > 0 {
        lemma_statements_balanced(st, v.drop_last(), max);
        if let Ok(st1) = gen_statements(st, v.drop_last(), max) {
            lemma_statement_balanced(st1, v.last(), max);
        }
    }
}

/// How much a block of instructions raises the stack: one for each push,
/// less one for each pop and each exit call.
pub open spec fn net_depth(is: Seq<InstructionModel>) -> int
    decreases is.len(),
{
    if is.len() == 0 {
        0
    } else {
        net_depth(is.drop_last()) + match is.last() {
            InstructionModel::Push(_) => 1int,
            InstructionModel::Pop(_) => -1int,
            InstructionModel::Syscall => -1int,
            _ => 0int,
        }
    }
}

proof fn lemma_instructions_depth(st: GenState, is: Seq<InstructionModel>, max: int)
    ensures
        exec_instructions(st, is, max) matches Ok(st2) ==> st2.depth == st.depth + net_depth(is)
            && st2.vars == st.vars,
    decreases is.len(),
{
    if is.len() > 0 {
        lemma_instructions_depth(st, is.drop_last(), max);
    }
}

/// A block of instructions that is emitted raises the stack by its pushes
/// less its pops and exit calls, declares nothing, and keeps the stack
/// balanced: every depth reached lies between zero and the bound.
pub proof fn lemma_block(st: GenState, is: Seq<InstructionModel>, max: int)
    requires
        balanced(st, max),
    ensures
        emit(st, is, max) matches Ok(st2) ==> {
            &&& st2.depth == st.depth + net_depth(is)
            &&& st2.vars == st.vars
            &&& balanced(st2, max)
        },
{
    lemma_instructions_depth(st, is, max);
    lemma_instructions_balanced(st, is, max);
}

/// Code of an expression leaves one more value on the stack.
pub proof fn lemma_expr_depth(st: GenState, e: ExpressionModel, max: int)
    ensures
        gen_expr(st, e, max) matches Ok(st2) ==> st2.depth == st.depth + 1,
    decreases e,
{
    let rax = crate::assembly::Registers::Rax.spec_name();
    let rbx = crate::assembly::Registers::Rbx.spec_name();
    match e {
        ExpressionModel::Term(TermModel::Alias(a)) => {
            if let Some(slot) = lookup(st.vars, a) {
                let k = (st.depth - slot - 1) as nat;
                lemma_emit_small(st, seq![InstructionModel::Push(crate::transpiler::slot_operand(k))], max);
            }
        },
        ExpressionModel::Term(TermModel::Literal(LiteralModel::U32(v))) => {
            lemma_emit_small(st, seq![InstructionModel::Mov(rax, v), InstructionModel::Push(rax)], max);
        },
        ExpressionModel::Term(TermModel::Literal(_)) => {},
        ExpressionModel::BinaryOp(op, l, r) => {
            lemma_expr_depth(st, *l, max);
            if let Ok(st1) = gen_expr(st, *l, max) {
                lemma_expr_depth(st1, *r, max);
                if let Ok(st2) = gen_expr(st1, *r, max) {
                    lemma_emit_small(st2, seq![InstructionModel::Pop(rax)], max);
                    if let Ok(st3) = emit(st2, seq![InstructionModel::Pop(rax)], max) {
                        lemma_emit_small(st3, seq![InstructionModel::Pop(rbx)], max);
                        if let Ok(st4) = emit(st3, seq![InstructionModel::Pop(rbx)], max) {
                            lemma_emit_small(
                                st4,
                                seq![InstructionModel::Add(rax, rbx), InstructionModel::Push(rax)],
                                max,
                            );
                        }
                    }
                }
            }
        },
    }
}

/// How many `let` statements `v` holds.
pub open spec fn lets(v: Seq<StatementModel>) -> nat
    decreases v.len(),
{
    if v.len() == 0 {
        0
    } else {
        lets(v.drop_last()) + if v.last() is Let {
            1nat
        } else {
            0nat
        }
    }
}

proof fn lemma_statements_depth(st: GenState, v: Seq<StatementModel>, max: int)
    ensures
        gen_statements(st, v, max) matches Ok(st2) ==> st2.depth == st.depth + lets(v),
    decreases v.len(),
{
    reveal(gen_statements);
    if v.len() > 0 {
        lemma_statements_depth(st, v.drop_last(), max);
        if let Ok(st1) = gen_statements(st, v.drop_last(), max) {
            match v.last() {
                StatementModel::Let(a, e) => lemma_expr_depth(st1, e, max),
                StatementModel::SystemCall(SysCallModel::Exit(e)) => {
                    lemma_expr_depth(st1, e, max);
                    if let Ok(st2) = gen_expr(st1, e, max) {
                        lemma_emit_small(st2, seq![InstructionModel::Syscall], max);
                    }
                },
            }
        }
    }
}

/// Lowering a program keeps the stack balanced: the pushes emitted less the
/// pops emitted are the final depth, which is the number of `let`
/// statements, and the depth never went beyond the bound at any point of
/// generation.
pub proof fn lemma_stack_balance(stamp: Seq<char>, v: Seq<StatementModel>, exit_at_end: bool, max: int)
    requires
        0 <= max,
    ensures
        gen_program(stamp, v, exit_at_end, max) matches Ok(st2) ==> {
            &&& st2.pushes - st2.pops == st2.depth
            &&& st2.depth == lets(v)
            &&& 0 <= st2.depth <= st2.peak <= max
        },
{
    let st1 = crate::transpiler::append_text(crate::transpiler::initial_state(), crate::transpiler::header(stamp));
    let all = if exit_at_end {
        v.push(crate::transpiler::default_exit())
    } else {
        v
    };
    assert(v.push(crate::transpiler::default_exit()).drop_last() =~= v);
    lemma_statements_balanced(st1, all, max);
    lemma_statements_depth(st1, all, max);
}

// ---------------------------------------------------------------------------
// Aliases

/// Each alias declared has its slot below `d`.
pub open spec fn slots_below(vars: Seq<(Seq<char>, int)>, d: int) -> bool {
    forall|k: int| 0 <= k < vars.len() ==> #[trigger] vars[k].1 < d
}

/// Declaring `b` after the others: `a` keeps its slot, and `b` is found.
pub proof fn lemma_lookup_push(vars: Seq<(Seq<char>, int)>, b: Seq<char>, d: int, a: Seq<char>)
    ensures
        lookup(vars.push((b, d)), a) == if lookup(vars, a) is Some {
            lookup(vars, a)
        } else if b == a {
            Some(d)
        } else {
            None
        },
    decreases vars.len(),
{
    if vars.len() > 0 {
        assert(vars.push((b, d))[0] == vars[0]);
        assert(vars.push((b, d)).drop_first() =~= vars.drop_first().push((b, d)));
        lemma_lookup_push(vars.drop_first(), b, d, a);
        if vars[0].0 == a {
            assert(lookup(vars, a) == Some(vars[0].1));
        } else {
            assert(lookup(vars, a) == lookup(vars.drop_first(), a));
        }
    } else {
        assert(vars.push((b, d))[0] == (b, d));
        assert(vars.push((b, d)).drop_first() =~= Seq::<(Seq<char>, int)>::empty());
        assert(lookup(Seq::<(Seq<char>, int)>::empty(), a) is None);
    }
}

/// A slot that `lookup` finds is the slot of some declaration.
pub proof fn lemma_lookup_found(vars: Seq<(Seq<char>, int)>, a: Seq<char>)
    ensures
        lookup(vars, a) matches Some(slot) ==> exists|k: int| 0 <= k < vars.len() && #[trigger] vars[k] == (a, slot),
    decreases vars.len(),
{
    if vars.len() > 0 && vars[0].0 != a {
        lemma_lookup_found(vars.drop_first(), a);
        if let Some(slot) = lookup(vars, a) {
            let k = choose|k: int| 0 <= k < vars.drop_first().len() && #[trigger] vars.drop_first()[k] == (a, slot);
            assert(vars[k + 1] == (a, slot));
        }
    }
}

proof fn lemma_instructions_frame(st: GenState, is: Seq<InstructionModel>, max: int)
    ensures
        exec_instructions(st, is, max) matches Ok(st2) ==> st2.vars == st.vars,
    decreases is.len(),
{
    if is.len() > 0 {
        lemma_instructions_frame(st, is.drop_last(), max);
    }
}

/// Code of an expression declares nothing.
pub proof fn lemma_expr_frame(st: GenState, e: ExpressionModel, max: int)
    ensures
        gen_expr(st, e, max) matches Ok(st2) ==> st2.vars == st.vars,
    decreases e,
{
    let rax = crate::assembly::Registers::Rax.spec_name();
    let rbx = crate::assembly::Registers::Rbx.spec_name();
    match e {
        ExpressionModel::Term(TermModel::Alias(a)) => {
            if let Some(slot) = lookup(st.vars, a) {
                let k = (st.depth - slot - 1) as nat;
                lemma_instructions_frame(
                    st,
                    seq![InstructionModel::Push(crate::transpiler::slot_operand(k))],
                    max,
                );
            }
        },
        ExpressionModel::Term(TermModel::Literal(LiteralModel::U32(v))) => {
            lemma_instructions_frame(
                st,
                seq![InstructionModel::Mov(rax, v), InstructionModel::Push(rax)],
                max,
            );
        },
        ExpressionModel::Term(TermModel::Literal(_)) => {},
        ExpressionModel::BinaryOp(op, l, r) => {
            lemma_expr_frame(st, *l, max);
            if let Ok(st1) = gen_expr(st, *l, max) {
                lemma_expr_frame(st1, *r, max);
                if let Ok(st2) = gen_expr(st1, *r, max) {
                    lemma_instructions_frame(st2, seq![InstructionModel::Pop(rax)], max);
                    if let Ok(st3) = emit(st2, seq![InstructionModel::Pop(rax)], max) {
                        lemma_instructions_frame(st3, seq![InstructionModel::Pop(rbx)], max);
                        if let Ok(st4) = emit(st3, seq![InstructionModel::Pop(rbx)], max) {
                            lemma_instructions_frame(
                                st4,
                                seq![InstructionModel::Add(rax, rbx), InstructionModel::Push(rax)],
                                max,
                            );
                        }
                    }
                }
            }
        },
    }
}

/// An alias declared stays declared.
proof fn lemma_statement_keeps(st: GenState, s: StatementModel, a: Seq<char>, max: int)
    requires
        lookup(st.vars, a) is Some,
    ensures
        gen_statement(st, s, max) matches Ok(st2) ==> lookup(st2.vars, a) is Some,
{
    match s {
        StatementModel::Let(b, e) => {
            lemma_expr_frame(st, e, max);
            if let Ok(st1) = gen_expr(st, e, max) {
                lemma_lookup_push(st1.vars, b, st.depth, a);
            }
        },
        StatementModel::SystemCall(SysCallModel::Exit(e)) => {
            lemma_expr_frame(st, e, max);
            if let Ok(st1) = gen_expr(st, e, max) {
                lemma_instructions_frame(st1, seq![InstructionModel::Syscall], max);
            }
        },
    }
}

/// After statement `i` declares `a`, the statements up to `j` leave it declared.
proof fn lemma_declared_persists(st: GenState, v: Seq<StatementModel>, i: int, j: int, a: Seq<char>, max: int)
    requires
        0 <= i < j <= v.len(),
        v[i] matches StatementModel::Let(b, _) && b == a,
        gen_statements(st, v.take(j), max) is Ok,
    ensures
        lookup(gen_statements(st, v.take(j), max)->Ok_0.vars, a) is Some,
    decreases j - i,
{
    lemma_statements_next(st, v, j - 1, max);
    if j - 1 > i {
        lemma_declared_persists(st, v, i, j - 1, a, max);
        let sp = gen_statements(st, v.take(j - 1), max)->Ok_0;
        lemma_statement_keeps(sp, v[j - 1], a, max);
    } else {
        let sp = gen_statements(st, v.take(i), max)->Ok_0;
        if let StatementModel::Let(b, e) = v[i] {
            lemma_expr_frame(sp, e, max);
            let s1 = gen_expr(sp, e, max)->Ok_0;
            lemma_lookup_push(s1.vars, b, sp.depth, a);
        }
    }
}

/// Declaring an alias a second time aborts code generation with the
/// "already declared" error, whatever either binding's value is, unless
/// an earlier statement has already failed.
pub proof fn lemma_redeclaration(st: GenState, v: Seq<StatementModel>, i: int, j: int, max: int)
    requires
        0 <= i < j < v.len(),
        v[i] matches StatementModel::Let(a, _) && v[j] matches StatementModel::Let(b, _) && a == b,
    ensures
        gen_statements(st, v, max) is Err,
        gen_statements(st, v.take(j), max) is Ok ==> gen_statements(st, v, max) == Err::<
            GenState,
            ErrorModel,
        >(ErrorModel::AlreadyDeclared { alias: v[j]->Let_0 }),
{
    let a = v[j]->Let_0;
    if gen_statements(st, v.take(j), max) is Err {
        lemma_statements_prefix(st, v, j, max);
    } else {
        lemma_declared_persists(st, v, i, j, a, max);
        lemma_statements_next(st, v, j, max);
        lemma_statements_prefix(st, v, j + 1, max);
    }
}

/// After `let a = e;` is lowered from `st`, a read of `a` from any later
/// state `s` in which no other alias has been declared pushes the word
/// `(depth at the read - depth at the declaration - 1) * word size` bytes
/// above the stack pointer.
pub proof fn lemma_alias_offset(st: GenState, a: Seq<char>, e: ExpressionModel, max: int, s: GenState)
    requires
        gen_statement(st, StatementModel::Let(a, e), max) matches Ok(st1) && s.vars == st1.vars,
        st.depth < s.depth,
    ensures
        gen_expr(s, ExpressionModel::Term(TermModel::Alias(a)), max) == emit(
            s,
            seq![
                InstructionModel::Push(
                    crate::transpiler::slot_operand((s.depth - st.depth - 1) as nat),
                ),
            ],
            max,
        ),
{
    lemma_expr_frame(st, e, max);
    let st1 = gen_expr(st, e, max)->Ok_0;
    lemma_lookup_push(st1.vars, a, st.depth, a);
}

// ---------------------------------------------------------------------------
// Expressions

/// The shape that parsing gives an expression: every left operand is a term.
pub open spec fn parsed_shape(e: ExpressionModel) -> bool
    decreases e,
{
    match e {
        ExpressionModel::Term(_) => true,
        ExpressionModel::BinaryOp(_, l, r) => (*l is Term) && parsed_shape(*r),
    }
}

/// Every literal of `e` is an unsigned integer.
pub open spec fn integer_literals(e: ExpressionModel) -> bool
    decreases e,
{
    match e {
        ExpressionModel::Term(TermModel::Literal(l)) => l is U32,
        ExpressionModel::Term(TermModel::Alias(_)) => true,
        ExpressionModel::BinaryOp(_, l, r) => integer_literals(*l) && integer_literals(*r),
    }
}

/// `e` reads the alias `a`.
pub open spec fn reads(e: ExpressionModel, a: Seq<char>) -> bool
    decreases e,
{
    match e {
        ExpressionModel::Term(TermModel::Alias(b)) => b == a,
        ExpressionModel::Term(TermModel::Literal(_)) => false,
        ExpressionModel::BinaryOp(_, l, r) => reads(*l, a) || reads(*r, a),
    }
}

/// Every alias that `e` reads is declared, in a slot below `d`.
pub open spec fn declared_below(vars: Seq<(Seq<char>, int)>, d: int, e: ExpressionModel) -> bool
    decreases e,
{
    match e {
        ExpressionModel::Term(TermModel::Alias(a)) => lookup(vars, a) matches Some(slot) && slot < d,
        ExpressionModel::Term(TermModel::Literal(_)) => true,
        ExpressionModel::BinaryOp(_, l, r) => declared_below(vars, d, *l) && declared_below(vars, d, *r),
    }
}

/// Every operator of `e` is `+`.
pub open spec fn only_additions(e: ExpressionModel) -> bool
    decreases e,
{
    match e {
        ExpressionModel::Term(_) => true,
        ExpressionModel::BinaryOp(op, l, r) => op == ArithmeticOperator::Add && only_additions(*l)
            && only_additions(*r),
    }
}

/// How many `+` operators `e` holds.
pub open spec fn add_count(e: ExpressionModel) -> nat
    decreases e,
{
    match e {
        ExpressionModel::Term(_) => 0,
        ExpressionModel::BinaryOp(op, l, r) => (if op == ArithmeticOperator::Add {
            1nat
        } else {
            0nat
        }) + add_count(*l) + add_count(*r),
    }
}

/// How many stack slots evaluating `e` takes at most.
pub open spec fn need(e: ExpressionModel) -> nat
    decreases e,
{
    match e {
        ExpressionModel::Term(_) => 1,
        ExpressionModel::BinaryOp(_, l, r) => if need(*l) > 1 + need(*r) {
            need(*l)
        } else {
            1 + need(*r)
        },
    }
}

proof fn lemma_declared_mono(vars: Seq<(Seq<char>, int)>, d: int, d2: int, e: ExpressionModel)
    requires
        declared_below(vars, d, e),
        d <= d2,
    ensures
        declared_below(vars, d2, e),
    decreases e,
{
    if let ExpressionModel::BinaryOp(_, l, r) = e {
        lemma_declared_mono(vars, d, d2, *l);
        lemma_declared_mono(vars, d, d2, *r);
    }
}

/// What a block of up to two instructions does.
proof fn lemma_emit_small(st: GenState, is: Seq<InstructionModel>, max: int)
    requires
        1 <= is.len() <= 2,
    ensures
        is.len() == 1 ==> exec_instructions(st, is, max) == exec_instruction(st, is[0], max),
        is.len() == 2 ==> exec_instructions(st, is, max) == match exec_instruction(st, is[0], max) {
            Ok(st1) => exec_instruction(st1, is[1], max),
            Err(x) => Err(x),
        },
{
    reveal_with_fuel(exec_instructions, 3);
    assert(is.drop_last().len() + 1 == is.len());
    if is.len() == 2 {
        assert(is.drop_last().drop_last().len() == 0);
        assert(is.drop_last()[0] == is[0]);
    } else {
        assert(is.drop_last().len() == 0);
    }
}

/// An expression whose aliases are declared, whose literals are integers,
/// whose operators are all `+`, and that fits on the stack, is lowered: the
/// value lands one slot up, and exactly one addition is emitted for each `+`.
pub proof fn lemma_additions(st: GenState, e: ExpressionModel, max: int)
    requires
        integer_literals(e),
        declared_below(st.vars, st.depth, e),
        only_additions(e),
        0 <= st.depth,
        st.depth + need(e) <= max,
    ensures
        gen_expr(st, e, max) matches Ok(st2) && st2.depth == st.depth + 1 && st2.vars == st.vars
            && st2.adds == st.adds + add_count(e),
    decreases e,
{
    let rax = crate::assembly::Registers::Rax.spec_name();
    let rbx = crate::assembly::Registers::Rbx.spec_name();
    match e {
        ExpressionModel::Term(TermModel::Alias(a)) => {
            let slot = lookup(st.vars, a)->Some_0;
            let k = (st.depth - slot - 1) as nat;
            lemma_emit_small(st, seq![InstructionModel::Push(crate::transpiler::slot_operand(k))], max);
        },
        ExpressionModel::Term(TermModel::Literal(LiteralModel::U32(v))) => {
            lemma_emit_small(st, seq![InstructionModel::Mov(rax, v), InstructionModel::Push(rax)], max);
        },
        ExpressionModel::Term(TermModel::Literal(_)) => {},
        ExpressionModel::BinaryOp(op, l, r) => {
            lemma_additions(st, *l, max);
            let st1 = gen_expr(st, *l, max)->Ok_0;
            lemma_declared_mono(st.vars, st.depth, st1.depth, *r);
            lemma_additions(st1, *r, max);
            let st2 = gen_expr(st1, *r, max)->Ok_0;
            lemma_emit_small(st2, seq![InstructionModel::Pop(rax)], max);
            let st3 = emit(st2, seq![InstructionModel::Pop(rax)], max)->Ok_0;
            lemma_emit_small(st3, seq![InstructionModel::Pop(rbx)], max);
            let st4 = emit(st3, seq![InstructionModel::Pop(rbx)], max)->Ok_0;
            lemma_emit_small(st4, seq![InstructionModel::Add(rax, rbx), InstructionModel::Push(rax)], max);
        },
    }
}

/// An expression that uses `-`, `*` or `/` anywhere, with its aliases
/// declared, its literals integers, and room on the stack, fails code
/// generation with the unimplemented-operator error.
pub proof fn lemma_unimplemented_operator(st: GenState, e: ExpressionModel, max: int)
    requires
        integer_literals(e),
        declared_below(st.vars, st.depth, e),
        !only_additions(e),
        0 <= st.depth,
        st.depth + need(e) <= max,
    ensures
        gen_expr(st, e, max) matches Err(ErrorModel::UnimplementedOperator { operator })
            && operator != ArithmeticOperator::Add,
    decreases e,
{
    let rax = crate::assembly::Registers::Rax.spec_name();
    let rbx = crate::assembly::Registers::Rbx.spec_name();
    if let ExpressionModel::BinaryOp(op, l, r) = e {
        if !only_additions(*l) {
            lemma_unimplemented_operator(st, *l, max);
        } else {
            lemma_additions(st, *l, max);
            let st1 = gen_expr(st, *l, max)->Ok_0;
            lemma_declared_mono(st.vars, st.depth, st1.depth, *r);
            if !only_additions(*r) {
                lemma_unimplemented_operator(st1, *r, max);
            } else {
                lemma_additions(st1, *r, max);
                let st2 = gen_expr(st1, *r, max)->Ok_0;
                lemma_emit_small(st2, seq![InstructionModel::Pop(rax)], max);
                let st3 = emit(st2, seq![InstructionModel::Pop(rax)], max)->Ok_0;
                lemma_emit_small(st3, seq![InstructionModel::Pop(rbx)], max);
            }
        }
    }
}

/// Reading an alias that was never declared aborts code generation with
/// the undeclared-alias error, for an expression of the shape parsing
/// gives, with integer literals, on a stack with room for it and whose
/// aliases sit below its top.
pub proof fn lemma_undeclared_alias(st: GenState, e: ExpressionModel, a: Seq<char>, max: int)
    requires
        parsed_shape(e),
        integer_literals(e),
        reads(e, a),
        lookup(st.vars, a) is None,
        slots_below(st.vars, st.depth),
        0 <= st.depth,
        st.depth + need(e) <= max,
    ensures
        gen_expr(st, e, max) matches Err(ErrorModel::UndeclaredAlias { alias }) && lookup(
            st.vars,
            alias,
        ) is None && reads(e, alias),
    decreases e,
{
    if let ExpressionModel::BinaryOp(op, l, r) = e {
        let undeclared_left = match *l {
            ExpressionModel::Term(TermModel::Alias(b)) => lookup(st.vars, b) is None,
            _ => false,
        };
        if !undeclared_left {
            if let ExpressionModel::Term(TermModel::Alias(b)) = *l {
                lemma_lookup_found(st.vars, b);
                let slot = lookup(st.vars, b)->Some_0;
                let k = choose|k: int| 0 <= k < st.vars.len() && #[trigger] st.vars[k] == (b, slot);
                assert(st.vars[k].1 < st.depth);
            }
            assert(declared_below(st.vars, st.depth, *l));
            assert(!reads(*l, a));
            lemma_additions(st, *l, max);
            let st1 = gen_expr(st, *l, max)->Ok_0;
            lemma_undeclared_alias(st1, *r, a, max);
        } else {
            let b = l->Term_0->Alias_0;
            assert(reads(*l, b));
        }
    }
}

// ---------------------------------------------------------------------------
// Parsing

/// A source with no statement, only whitespace and comments, is refused
/// with the empty-program error; parsing never yields an empty program.
pub proof fn lemma_empty_program(s: Seq<char>, p: int)
    requires
        0 <= p <= s.len(),
    ensures
        parse_program(s, p) != Ok::<Seq<StatementModel>, ErrorModel>(Seq::empty()),
        next_token(s, p) is End ==> parse_program(s, p) == Err::<Seq<StatementModel>, ErrorModel>(
            ErrorModel::NoStatementsFound,
        ),
{
    reveal(parse_statements);
}

/// Parsing gives expressions whose left operands are terms and whose
/// literals are integers.
pub proof fn lemma_parsed_expression_shape(s: Seq<char>, p: int)
    requires
        0 <= p <= s.len(),
    ensures
        parse_expression(s, p) matches Ok((e, _)) ==> parsed_shape(e) && integer_literals(e),
    decreases s.len() - p,
{
    lemma_token_bounds(s, p);
    if let Ok((t, q)) = parse_term(s, p) {
        assert(t is Alias || t->Literal_0 is U32);
        assert(integer_literals(ExpressionModel::Term(t)));
        lemma_token_bounds(s, q);
        if let Ok(n) = expect_any(s, q) {
            if n.kind != crate::utterances::Kind::SemiColon {
                lemma_parsed_expression_shape(s, n.end);
                if let Ok((r, e)) = parse_expression(s, n.end) {
                    let op = crate::parser::operator_of(n.kind)->Some_0;
                    let x = ExpressionModel::BinaryOp(
                        op,
                        Box::new(ExpressionModel::Term(t)),
                        Box::new(r),
                    );
                    assert(parsed_shape(x));
                    assert(integer_literals(x));
                }
            }
        }
    }
}

} // verus!
