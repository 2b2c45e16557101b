//! The stack balance read off the generated text: the `push` lines less the
//! `pop` lines of a program's text are its final stack depth.
use vstd::prelude::*;
use crate::assembly::{decimal, render, InstructionModel, Registers};
use crate::laws::{lemma_stack_balance, lets};
use crate::transpiler::{
    append_text, emit, exec_instruction, exec_instructions, gen_expr, gen_program, gen_statement,
    gen_statements, header, initial_state, lookup, pop_op, slot_operand, GenState,
};
use crate::utterances::{ExpressionModel, LiteralModel, StatementModel, SysCallModel, TermModel};

verus! {

/// How many times `pat` occurs in `t`, overlapping or not.
pub open spec fn occurrences(t: Seq<char>, pat: Seq<char>) -> nat
    decreases t.len(),
{
    if t.len() == 0 {
        0
    } else {
        (if pat.is_prefix_of(t) {
            1nat
        } else {
            0nat
        }) + occurrences(t.drop_first(), pat)
    }
}

/// The start of a push line.
pub open spec fn push_mark() -> Seq<char> {
    "\tpush "@
}

/// The start of a pop line.
pub open spec fn pop_mark() -> Seq<char> {
    "\tpop "@
}

pub open spec fn tab_free(t: Seq<char>) -> bool {
    forall|i: int| 0 <= i < t.len() ==> #[trigger] t[i] != '\t'
}

/// Empty, or ends a line.
pub open spec fn ends_line(t: Seq<char>) -> bool {
    t.len() == 0 || t.last() == '\n'
}

/// A mark: starts with a tab, holds no line feed.
spec fn mark(pat: Seq<char>) -> bool {
    &&& pat.len() > 0
    &&& pat[0] == '\t'
    &&& forall|j: int| 0 <= j < pat.len() ==> #[trigger] pat[j] != '\n'
}

proof fn lemma_marks()
    ensures
        mark(push_mark()),
        mark(pop_mark()),
        push_mark() =~= seq!['\t', 'p', 'u', 's', 'h', ' '],
        pop_mark() =~= seq!['\t', 'p', 'o', 'p', ' '],
{
    reveal_strlit("\tpush ");
    reveal_strlit("\tpop ");
}

/// A text ending a line splits the count of a mark.
proof fn lemma_occurrences_concat(a: Seq<char>, b: Seq<char>, pat: Seq<char>)
    requires
        ends_line(a),
        mark(pat),
    ensures
        occurrences(a + b, pat) == occurrences(a, pat) + occurrences(b, pat),
    decreases a.len(),
{
    if a.len() == 0 {
        assert(a + b =~= b);
    } else {
        assert((a + b).drop_first() =~= a.drop_first() + b);
        lemma_occurrences_concat(a.drop_first(), b, pat);
        if pat.len() <= a.len() {
            assert((a + b).subrange(0, pat.len() as int) =~= a.subrange(0, pat.len() as int));
        } else if pat.is_prefix_of(a + b) {
            assert(pat[a.len() - 1] == (a + b)[a.len() - 1]);
        }
    }
}

/// A mark does not occur in a text without tabs.
proof fn lemma_occurrences_tab_free(t: Seq<char>, pat: Seq<char>)
    requires
        tab_free(t),
        mark(pat),
    ensures
        occurrences(t, pat) == 0,
    decreases t.len(),
{
    if t.len() > 0 {
        if pat.is_prefix_of(t) {
            assert(t[0] == pat[0]);
        }
        lemma_occurrences_tab_free(t.drop_first(), pat);
    }
}

/// A mark occurs in a text with no tab after its first character only at
/// its start.
proof fn lemma_occurrences_line(t: Seq<char>, pat: Seq<char>)
    requires
        t.len() > 0,
        tab_free(t.drop_first()),
        mark(pat),
    ensures
        occurrences(t, pat) == if pat.is_prefix_of(t) {
            1nat
        } else {
            0nat
        },
{
    lemma_occurrences_tab_free(t.drop_first(), pat);
}

proof fn lemma_decimal_tab_free(n: nat)
    ensures
        tab_free(decimal(n)),
    decreases n,
{
    let digits = seq!['0', '1', '2', '3', '4', '5', '6', '7', '8', '9'];
    assert(forall|d: int| 0 <= d < 10 ==> #[trigger] digits[d] != '\t');
    if n >= 10 {
        lemma_decimal_tab_free(n / 10);
    }
}

proof fn lemma_registers_tab_free(r: Registers)
    ensures
        tab_free(r.spec_name()),
{
    reveal_strlit("rsp");
    reveal_strlit("rax");
    reveal_strlit("rbx");
    reveal_strlit("rdi");
}

proof fn lemma_slot_operand_tab_free(k: nat)
    ensures
        tab_free(slot_operand(k)),
{
    reveal_strlit("QWORD [");
    reveal_strlit("+");
    reveal_strlit("]");
    lemma_registers_tab_free(Registers::Rsp);
    lemma_decimal_tab_free(k * 8);
}

/// The instruction's operands hold no tab.
pub open spec fn plain(i: InstructionModel) -> bool {
    match i {
        InstructionModel::Push(op) => tab_free(op),
        InstructionModel::Pop(op) => tab_free(op),
        InstructionModel::Mov(r, _) => tab_free(r),
        InstructionModel::Add(l, r) => tab_free(l) && tab_free(r),
        InstructionModel::Syscall => true,
    }
}

/// The marks of the text are the pushes and pops counted, and the text
/// ends a line.
pub open spec fn counted(st: GenState) -> bool {
    &&& occurrences(st.text, push_mark()) == st.pushes
    &&& occurrences(st.text, pop_mark()) == st.pops
    &&& ends_line(st.text)
}

/// Appending a line whose only tab is its first character.
proof fn lemma_append_line(st: GenState, t: Seq<char>)
    requires
        counted(st),
        t.len() > 0,
        t.last() == '\n',
        tab_free(t.drop_first()),
    ensures
        occurrences(st.text + t, push_mark()) == st.pushes + if push_mark().is_prefix_of(t) {
            1int
        } else {
            0int
        },
        occurrences(st.text + t, pop_mark()) == st.pops + if pop_mark().is_prefix_of(t) {
            1int
        } else {
            0int
        },
        ends_line(st.text + t),
{
    lemma_marks();
    lemma_occurrences_concat(st.text, t, push_mark());
    lemma_occurrences_concat(st.text, t, pop_mark());
    lemma_occurrences_line(t, push_mark());
    lemma_occurrences_line(t, pop_mark());
}

proof fn lemma_render_line(i: InstructionModel)
    requires
        plain(i),
    ensures
        render(i).len() > 0,
        render(i).last() == '\n',
        tab_free(render(i).drop_first()),
        push_mark().is_prefix_of(render(i)) <==> i is Push,
        pop_mark().is_prefix_of(render(i)) <==> i is Pop,
{
    lemma_marks();
    reveal_strlit("\tpush ");
    reveal_strlit("\tpop ");
    reveal_strlit("\tmov ");
    reveal_strlit("\tadd ");
    reveal_strlit(", ");
    reveal_strlit("\n");
    reveal_strlit("\tsyscall\n");
    let t = render(i);
    match i {
        InstructionModel::Mov(r, v) => {
            lemma_decimal_tab_free(v as nat);
            assert(t[1] == 'm');
        },
        InstructionModel::Add(l, r) => {
            assert(t[1] == 'a');
        },
        InstructionModel::Syscall => {
            assert(t[1] == 's');
        },
        InstructionModel::Push(op) => {
            assert(t[2] == 'u');
        },
        InstructionModel::Pop(op) => {
            assert(t[2] == 'o');
        },
    }
    assert(t.drop_first().len() == t.len() - 1);
    assert forall|k: int| 0 <= k < t.drop_first().len() implies #[trigger] t.drop_first()[k] != '\t' by {
        assert(t.drop_first()[k] == t[k + 1]);
    }
}

proof fn lemma_line_counted(st: GenState, i: InstructionModel)
    requires
        counted(st),
        plain(i),
    ensures
        ({
            let t = st.text + render(i);
            &&& occurrences(t, push_mark()) == st.pushes + if i is Push {
                1int
            } else {
                0int
            }
            &&& occurrences(t, pop_mark()) == st.pops + if i is Pop {
                1int
            } else {
                0int
            }
            &&& ends_line(t)
        }),
{
    lemma_render_line(i);
    lemma_append_line(st, render(i));
}

proof fn lemma_blank_counted(st: GenState)
    requires
        counted(st),
    ensures
        counted(append_text(st, "\n"@)),
{
    reveal_strlit("\n");
    lemma_marks();
    assert(tab_free("\n"@.drop_first()));
    lemma_append_line(st, "\n"@);
}

proof fn lemma_instruction_counted(st: GenState, i: InstructionModel, max: int)
    requires
        counted(st),
        plain(i),
    ensures
        exec_instruction(st, i, max) matches Ok(st2) ==> counted(st2),
{
    lemma_line_counted(st, i);
    if i is Syscall {
        let mov = InstructionModel::Mov(Registers::Rax.spec_name(), crate::transpiler::EXIT_SYSCALL);
        lemma_registers_tab_free(Registers::Rax);
        lemma_registers_tab_free(Registers::Rdi);
        lemma_line_counted(st, mov);
        let st1 = append_text(st, render(mov));
        let pop = InstructionModel::Pop(Registers::Rdi.spec_name());
        lemma_line_counted(st1, pop);
        if let Ok(st2) = pop_op(st1, Registers::Rdi.spec_name()) {
            lemma_blank_counted(st2);
            let st3 = append_text(st2, "\n"@);
            lemma_line_counted(st3, InstructionModel::Syscall);
            assert(st2.text + ("\n"@ + render(InstructionModel::Syscall)) =~= st3.text + render(
                InstructionModel::Syscall,
            ));
        }
    }
}

proof fn lemma_instructions_counted(st: GenState, is: Seq<InstructionModel>, max: int)
    requires
        counted(st),
        forall|k: int| 0 <= k < is.len() ==> plain(#[trigger] is[k]),
    ensures
        exec_instructions(st, is, max) matches Ok(st2) ==> counted(st2),
    decreases is.len(),
{
    if is.len() > 0 {
        lemma_instructions_counted(st, is.drop_last(), max);
        if let Ok(st1) = exec_instructions(st, is.drop_last(), max) {
            lemma_instruction_counted(st1, is.last(), max);
        }
    }
}

proof fn lemma_emit_counted(st: GenState, is: Seq<InstructionModel>, max: int)
    requires
        counted(st),
        forall|k: int| 0 <= k < is.len() ==> plain(#[trigger] is[k]),
    ensures
        emit(st, is, max) matches Ok(st2) ==> counted(st2),
{
    lemma_instructions_counted(st, is, max);
    if let Ok(st1) = exec_instructions(st, is, max) {
        lemma_blank_counted(st1);
    }
}

proof fn lemma_expr_counted(st: GenState, e: ExpressionModel, max: int)
    requires
        counted(st),
    ensures
        gen_expr(st, e, max) matches Ok(st2) ==> counted(st2),
    decreases e,
{
    let rax = Registers::Rax.spec_name();
    let rbx = Registers::Rbx.spec_name();
    lemma_registers_tab_free(Registers::Rax);
    lemma_registers_tab_free(Registers::Rbx);
    match e {
        ExpressionModel::Term(TermModel::Alias(a)) => {
            if let Some(slot) = lookup(st.vars, a) {
                let k = (st.depth - slot - 1) as nat;
                lemma_slot_operand_tab_free(k);
                let is = seq![InstructionModel::Push(slot_operand(k))];
                assert(plain(is[0]));
                lemma_emit_counted(st, is, max);
            }
        },
        ExpressionModel::Term(TermModel::Literal(LiteralModel::U32(v))) => {
            let is = seq![InstructionModel::Mov(rax, v), InstructionModel::Push(rax)];
            assert(plain(is[0]) && plain(is[1]));
            lemma_emit_counted(st, is, max);
        },
        ExpressionModel::Term(TermModel::Literal(_)) => {},
        ExpressionModel::BinaryOp(op, l, r) => {
            lemma_expr_counted(st, *l, max);
            if let Ok(st1) = gen_expr(st, *l, max) {
                lemma_expr_counted(st1, *r, max);
                if let Ok(st2) = gen_expr(st1, *r, max) {
                    let p1 = seq![InstructionModel::Pop(rax)];
                    assert(plain(p1[0]));
                    lemma_emit_counted(st2, p1, max);
                    if let Ok(st3) = emit(st2, p1, max) {
                        let p2 = seq![InstructionModel::Pop(rbx)];
                        assert(plain(p2[0]));
                        lemma_emit_counted(st3, p2, max);
                        if let Ok(st4) = emit(st3, p2, max) {
                            let p3 = seq![InstructionModel::Add(rax, rbx), InstructionModel::Push(rax)];
                            assert(plain(p3[0]) && plain(p3[1]));
                            lemma_emit_counted(st4, p3, max);
                        }
                    }
                }
            }
        },
    }
}

proof fn lemma_statement_counted(st: GenState, s: StatementModel, max: int)
    requires
        counted(st),
    ensures
        gen_statement(st, s, max) matches Ok(st2) ==> counted(st2),
{
    match s {
        StatementModel::Let(a, e) => lemma_expr_counted(st, e, max),
        StatementModel::SystemCall(SysCallModel::Exit(e)) => {
            lemma_expr_counted(st, e, max);
            if let Ok(st1) = gen_expr(st, e, max) {
                let is = seq![InstructionModel::Syscall];
                assert(plain(is[0]));
                lemma_emit_counted(st1, is, max);
            }
        },
    }
}

proof fn lemma_statements_counted(st: GenState, v: Seq<StatementModel>, max: int)
    requires
        counted(st),
    ensures
        gen_statements(st, v, max) matches Ok(st2) ==> counted(st2),
    decreases v.len(),
{
    reveal(gen_statements);
    if v.len() > 0 {
        lemma_statements_counted(st, v.drop_last(), max);
        if let Ok(st1) = gen_statements(st, v.drop_last(), max) {
            lemma_statement_counted(st1, v.last(), max);
        }
    }
}

proof fn lemma_header_counted(stamp: Seq<char>)
    requires
        tab_free(stamp),
    ensures
        counted(append_text(initial_state(), header(stamp))),
{
    reveal_strlit("# ");
    reveal_strlit("\n\n");
    reveal_strlit("global _start\n_start:\n");
    lemma_marks();
    let h = header(stamp);
    assert(tab_free(h)) by {
        assert forall|i: int| 0 <= i < h.len() implies #[trigger] h[i] != '\t' by {
            if 2 <= i < 2 + stamp.len() {
                assert(h[i] == stamp[i - 2]);
            }
        }
    }
    lemma_occurrences_tab_free(h, push_mark());
    lemma_occurrences_tab_free(h, pop_mark());
    assert(Seq::<char>::empty() + h =~= h);
}

/// Read off the text of a program: its `push` lines less its `pop` lines
/// are its final stack depth, which is the number of its `let` statements,
/// and the depth stayed within the bound throughout generation. (A time
/// stamp with a tab could hold a `push` mark of its own.)
pub proof fn lemma_text_balance(stamp: Seq<char>, v: Seq<StatementModel>, exit_at_end: bool, max: int)
    requires
        tab_free(stamp),
        0 <= max,
    ensures
        gen_program(stamp, v, exit_at_end, max) matches Ok(st) ==> {
            &&& occurrences(st.text, push_mark()) - occurrences(st.text, pop_mark()) == st.depth
            &&& st.depth == lets(v)
            &&& 0 <= st.depth <= st.peak <= max
        },
{
    lemma_stack_balance(stamp, v, exit_at_end, max);
    lemma_header_counted(stamp);
    let st1 = append_text(initial_state(), header(stamp));
    lemma_statements_counted(st1, if exit_at_end {
        v.push(crate::transpiler::default_exit())
    } else {
        v
    }, max);
}

} // verus!
