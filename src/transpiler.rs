//! The code generator: lowers the syntax tree to assembly text for a stack
//! machine, tracking a virtual stack depth and the slot of each alias.
use vstd::prelude::*;
use vstd::string::StringExecFns;
use crate::assembly::{append_decimal, decimal, instructions_model, render, InstructionModel};
pub use crate::assembly::{Instructions, Registers};
use crate::error::{CompileError, ErrorModel};
use crate::utterances::{
    ArithmeticOperator, Construct, Expression, ExpressionModel, Literal, LiteralModel, Statement,
    StatementModel, SysCall, SysCallModel, Term, TermModel,
};

verus! {

/// The bound on the virtual stack depth.
pub const MAX_STACK_SIZE: usize = 100;

/// The bytes of one stack slot.
pub const WORD_SIZE: usize = 8;

/// The Linux system-call number of `exit`.
pub const EXIT_SYSCALL: u32 = 60;

/// The state of code generation.
pub struct GenState {
    /// The text emitted so far.
    pub text: Seq<char>,
    /// The virtual stack depth.
    pub depth: int,
    /// Each alias declared, with the slot it was given, in order of declaration.
    pub vars: Seq<(Seq<char>, int)>,
    /// How many pushes were emitted.
    pub pushes: int,
    /// How many pops were emitted.
    pub pops: int,
    /// The greatest depth reached.
    pub peak: int,
    /// How many additions were emitted.
    pub adds: int,
}

/// The slot of the alias `a`.
pub open spec fn lookup(vars: Seq<(Seq<char>, int)>, a: Seq<char>) -> Option<int>
    decreases vars.len(),
{
    if vars.len() == 0 {
        None
    } else if vars[0].0 == a {
        Some(vars[0].1)
    } else {
        lookup(vars.drop_first(), a)
    }
}

pub open spec fn append_text(st: GenState, t: Seq<char>) -> GenState {
    GenState { text: st.text + t, ..st }
}

/// A push of `op`, refused beyond `max`.
pub open spec fn push_op(st: GenState, op: Seq<char>, max: int) -> Result<GenState, ErrorModel> {
    if st.depth + 1 > max {
        Err(ErrorModel::StackOverflow)
    } else {
        Ok(
            GenState {
                text: st.text + render(InstructionModel::Push(op)),
                depth: st.depth + 1,
                pushes: st.pushes + 1,
                peak: if st.depth + 1 > st.peak {
                    st.depth + 1
                } else {
                    st.peak
                },
                ..st
            },
        )
    }
}

/// A pop into `op`, refused on the empty stack.
pub open spec fn pop_op(st: GenState, op: Seq<char>) -> Result<GenState, ErrorModel> {
    if st.depth <= 0 {
        Err(ErrorModel::StackUnderflow)
    } else {
        Ok(
            GenState {
                text: st.text + render(InstructionModel::Pop(op)),
                depth: st.depth - 1,
                pops: st.pops + 1,
                ..st
            },
        )
    }
}

/// One instruction. The exit call is lowered to loading its number into
/// `rax` and popping its argument into `rdi`, as a block of its own,
/// followed by the `syscall` instruction.
pub open spec fn exec_instruction(st: GenState, i: InstructionModel, max: int) -> Result<
    GenState,
    ErrorModel,
> {
    match i {
        InstructionModel::Push(op) => push_op(st, op, max),
        InstructionModel::Pop(op) => pop_op(st, op),
        InstructionModel::Syscall => {
            let st1 = append_text(
                st,
                render(InstructionModel::Mov(Registers::Rax.spec_name(), EXIT_SYSCALL)),
            );
            match pop_op(st1, Registers::Rdi.spec_name()) {
                Ok(st2) => Ok(append_text(st2, "\n"@ + render(InstructionModel::Syscall))),
                Err(e) => Err(e),
            }
        },
        InstructionModel::Add(_, _) => Ok(GenState { text: st.text + render(i), adds: st.adds + 1, ..st }),
        InstructionModel::Mov(_, _) => Ok(append_text(st, render(i))),
    }
}

/// The instructions of `is`, in order; the first error stops.
pub open spec fn exec_instructions(st: GenState, is: Seq<InstructionModel>, max: int) -> Result<
    GenState,
    ErrorModel,
>
    decreases is.len(),
{
    if is.len() == 0 {
        Ok(st)
    } else {
        match exec_instructions(st, is.drop_last(), max) {
            Ok(st1) => exec_instruction(st1, is.last(), max),
            Err(e) => Err(e),
        }
    }
}

/// A block of instructions, followed by a blank line.
pub open spec fn emit(st: GenState, is: Seq<InstructionModel>, max: int) -> Result<
    GenState,
    ErrorModel,
> {
    match exec_instructions(st, is, max) {
        Ok(st1) => Ok(append_text(st1, "\n"@)),
        Err(e) => Err(e),
    }
}

/// The operand that reads the slot `k` words below the top of the stack.
pub open spec fn slot_operand(k: nat) -> Seq<char> {
    "QWORD ["@ + Registers::Rsp.spec_name() + "+"@ + decimal(k * WORD_SIZE as nat) + "]"@
}

/// Code that leaves the value of `e` on top of the stack.
pub open spec fn gen_expr(st: GenState, e: ExpressionModel, max: int) -> Result<GenState, ErrorModel>
    decreases e,
{
    match e {
        ExpressionModel::Term(TermModel::Alias(a)) => match lookup(st.vars, a) {
            Some(slot) => if slot < st.depth {
                emit(
                    st,
                    seq![InstructionModel::Push(slot_operand((st.depth - slot - 1) as nat))],
                    max,
                )
            } else {
                Err(ErrorModel::StackUnderflow)
            },
            None => Err(ErrorModel::UndeclaredAlias { alias: a }),
        },
        ExpressionModel::Term(TermModel::Literal(LiteralModel::U32(v))) => emit(
            st,
            seq![
                InstructionModel::Mov(Registers::Rax.spec_name(), v),
                InstructionModel::Push(Registers::Rax.spec_name()),
            ],
            max,
        ),
        ExpressionModel::Term(TermModel::Literal(_)) => Err(ErrorModel::UnsupportedLiteral),
        ExpressionModel::BinaryOp(op, l, r) => match gen_expr(st, *l, max) {
            Ok(st1) => match gen_expr(st1, *r, max) {
                Ok(st2) => match emit(st2, seq![InstructionModel::Pop(Registers::Rax.spec_name())], max) {
                    Ok(st3) => match emit(
                        st3,
                        seq![InstructionModel::Pop(Registers::Rbx.spec_name())],
                        max,
                    ) {
                        Ok(st4) => if op == ArithmeticOperator::Add {
                            emit(
                                st4,
                                seq![
                                    InstructionModel::Add(
                                        Registers::Rax.spec_name(),
                                        Registers::Rbx.spec_name(),
                                    ),
                                    InstructionModel::Push(Registers::Rax.spec_name()),
                                ],
                                max,
                            )
                        } else {
                            Err(ErrorModel::UnimplementedOperator { operator: op })
                        },
                        Err(x) => Err(x),
                    },
                    Err(x) => Err(x),
                },
                Err(x) => Err(x),
            },
            Err(x) => Err(x),
        },
    }
}

/// Code of one statement. A `let` gives its alias the slot where the value
/// of its expression lands.
pub open spec fn gen_statement(st: GenState, s: StatementModel, max: int) -> Result<
    GenState,
    ErrorModel,
> {
    match s {
        StatementModel::Let(a, e) => if lookup(st.vars, a) is Some {
            Err(ErrorModel::AlreadyDeclared { alias: a })
        } else {
            match gen_expr(st, e, max) {
                Ok(st1) => Ok(GenState { vars: st1.vars.push((a, st.depth)), ..st1 }),
                Err(x) => Err(x),
            }
        },
        StatementModel::SystemCall(SysCallModel::Exit(e)) => match gen_expr(st, e, max) {
            Ok(st1) => emit(st1, seq![InstructionModel::Syscall], max),
            Err(x) => Err(x),
        },
    }
}

/// Code of the statements of `v`, in order; the first error stops.
#[verifier::opaque]
pub open spec fn gen_statements(st: GenState, v: Seq<StatementModel>, max: int) -> Result<
    GenState,
    ErrorModel,
>
    decreases v.len(),
{
    if v.len() == 0 {
        Ok(st)
    } else {
        match gen_statements(st, v.drop_last(), max) {
            Ok(st1) => gen_statement(st1, v.last(), max),
            Err(x) => Err(x),
        }
    }
}

/// `exit 0`, appended to a program when the generator is asked to.
pub open spec fn default_exit() -> StatementModel {
    StatementModel::SystemCall(
        SysCallModel::Exit(ExpressionModel::Term(TermModel::Literal(LiteralModel::U32(0)))),
    )
}

/// The header: a comment with the time stamp, then the entry point.
pub open spec fn header(stamp: Seq<char>) -> Seq<char> {
    "# "@ + stamp + "\n\n"@ + "global _start\n_start:\n"@
}

/// The state that lowering a program starts from: no text, an empty
/// stack, no alias declared.
pub open spec fn initial_state() -> GenState {
    GenState { text: Seq::empty(), depth: 0, vars: Seq::empty(), pushes: 0, pops: 0, peak: 0, adds: 0 }
}

/// Code of a whole program, lowered from the initial state. A program
/// without statements is an error.
pub open spec fn gen_program(stamp: Seq<char>, v: Seq<StatementModel>, exit_at_end: bool, max: int) -> Result<
    GenState,
    ErrorModel,
> {
    if v.len() == 0 {
        Err(ErrorModel::NoStatementsFound)
    } else {
        let all = if exit_at_end {
            v.push(default_exit())
        } else {
            v
        };
        gen_statements(append_text(initial_state(), header(stamp)), all, max)
    }
}

/// The depth is the pushes less the pops, and has never gone beyond `max`.
pub open spec fn balanced(st: GenState, max: int) -> bool {
    &&& st.depth == st.pushes - st.pops
    &&& 0 <= st.depth <= st.peak <= max
}

/// `r` is the outcome `m` of code generation, `after` the state it leaves.
pub open spec fn generated(r: Result<(), CompileError>, m: Result<GenState, ErrorModel>, after: GenState) -> bool {
    match m {
        Ok(st) => r is Ok && after == st,
        Err(e) => r matches Err(x) && x@ == e,
    }
}

/// `r` is the outcome of lowering the program `v`, and `after` the state
/// it leaves on success; the text returned is the program's text.
pub open spec fn lowered(
    stamp: Seq<char>,
    v: Seq<StatementModel>,
    exit_at_end: bool,
    max: int,
    r: Result<String, CompileError>,
    after: GenState,
) -> bool {
    match gen_program(stamp, v, exit_at_end, max) {
        Ok(st1) => r matches Ok(text) && text@ == st1.text && after == st1,
        Err(e) => r matches Err(x) && x@ == e,
    }
}

/// `after` declares the aliases of `before` and no other, and its text
/// extends that of `before`.
pub open spec fn keeps(before: GenState, after: GenState) -> bool {
    &&& after.vars == before.vars
    &&& before.text.is_prefix_of(after.text)
}

pub broadcast proof fn lemma_keeps_trans(a: GenState, b: GenState, c: GenState)
    requires
        keeps(a, b),
        keeps(b, c),
    ensures
        #![trigger keeps(a, b), keeps(b, c)]
        keeps(a, c),
{
    assert forall|i: int| 0 <= i < a.text.len() implies a.text[i] == c.text[i] by {
        assert(a.text[i] == b.text.subrange(0, a.text.len() as int)[i]);
        assert(b.text[i] == c.text.subrange(0, b.text.len() as int)[i]);
    }
    assert(a.text =~= c.text.subrange(0, a.text.len() as int));
}

/// The aliases are declared at most once each.
pub open spec fn distinct_aliases(vars: Seq<(Seq<char>, int)>) -> bool {
    forall|i: int, j: int| 0 <= i < j < vars.len() ==> #[trigger] vars[i].0 != #[trigger] vars[j].0
}

/// An alias that `lookup` does not find is declared nowhere.
pub proof fn lemma_lookup_absent(vars: Seq<(Seq<char>, int)>, a: Seq<char>)
    requires
        lookup(vars, a) is None,
    ensures
        forall|k: int| 0 <= k < vars.len() ==> #[trigger] vars[k].0 != a,
    decreases vars.len(),
{
    if vars.len() > 0 {
        lemma_lookup_absent(vars.drop_first(), a);
        assert forall|k: int| 0 <= k < vars.len() implies #[trigger] vars[k].0 != a by {
            if k > 0 {
                assert(vars[k] == vars.drop_first()[k - 1]);
            }
        }
    }
}

/// An alias and the stack slot it was given.
struct Var {
    alias: String,
    stack_location: u32,
}

spec fn vars_model(v: Seq<Var>) -> Seq<(Seq<char>, int)> {
    v.map_values(|x: Var| (x.alias@, x.stack_location as int))
}

/// Lowers a program to assembly text.
pub struct Transpiler {
    output: String,
    vars: Vec<Var>,
    stack_len: usize,
    max_stack_size: usize,
    exit_at_end: bool,
    pushes: Ghost<int>,
    pops: Ghost<int>,
    peak: Ghost<int>,
    adds: Ghost<int>,
}

impl Transpiler {
    /// The state of generation: text, depth, aliases and stack counts.
    pub closed spec fn state(&self) -> GenState {
        GenState {
            text: self.output@,
            depth: self.stack_len as int,
            vars: vars_model(self.vars@),
            pushes: self.pushes@,
            pops: self.pops@,
            peak: self.peak@,
            adds: self.adds@,
        }
    }

    /// The bound on the stack depth.
    pub closed spec fn max(&self) -> int {
        self.max_stack_size as int
    }

    /// Whether `exit 0` is appended to each program.
    pub closed spec fn exits_at_end(&self) -> bool {
        self.exit_at_end
    }

    pub closed spec fn wf(&self) -> bool {
        &&& self.max_stack_size == MAX_STACK_SIZE
        &&& balanced(self.state(), self.max())
        &&& distinct_aliases(self.state().vars)
    }

    pub fn new() -> (r: Transpiler)
        ensures
            r.wf(),
            r.state() == (GenState {
                text: Seq::empty(),
                depth: 0,
                vars: Seq::empty(),
                pushes: 0,
                pops: 0,
                peak: 0,
                adds: 0,
            }),
            r.max() == MAX_STACK_SIZE,
            !r.exits_at_end(),
    {
        let r = Transpiler {
            output: String::new(),
            vars: Vec::new(),
            stack_len: 0,
            max_stack_size: MAX_STACK_SIZE,
            exit_at_end: false,
            pushes: Ghost(0),
            pops: Ghost(0),
            peak: Ghost(0),
            adds: Ghost(0),
        };
        assert(vars_model(r.vars@) =~= Seq::empty());
        r
    }

    /// Appends `t` to the output.
    fn write(&mut self, t: &str)
        requires
            old(self).wf(),
        ensures
            final(self).wf(),
            final(self).state() == append_text(old(self).state(), t@),
            final(self).max() == old(self).max(),
            final(self).exits_at_end() == old(self).exits_at_end(),
            keeps(old(self).state(), final(self).state()),
    {
        self.output.append(t);
    }

    fn push(&mut self, op: &str) -> (r: Result<(), CompileError>)
        requires
            old(self).wf(),
        ensures
            final(self).wf(),
            final(self).max() == old(self).max(),
            final(self).exits_at_end() == old(self).exits_at_end(),
            keeps(old(self).state(), final(self).state()),
            generated(r, push_op(old(self).state(), op@, old(self).max()), final(self).state()),
    {
        if self.stack_len >= self.max_stack_size {
            return Err(CompileError::StackOverflow);
        }
        self.stack_len = self.stack_len + 1;
        self.pushes = Ghost(self.pushes@ + 1);
        self.peak = Ghost(
            if self.stack_len > self.peak@ {
                self.stack_len as int
            } else {
                self.peak@
            },
        );
        let ghost t0 = self.output@;
        self.output.append("\tpush ");
        self.output.append(op);
        self.output.append("\n");
        assert(self.output@ =~= t0 + render(InstructionModel::Push(op@)));
        Ok(())
    }

    fn pop(&mut self, op: &str) -> (r: Result<(), CompileError>)
        requires
            old(self).wf(),
        ensures
            final(self).wf(),
            final(self).max() == old(self).max(),
            final(self).exits_at_end() == old(self).exits_at_end(),
            keeps(old(self).state(), final(self).state()),
            generated(r, pop_op(old(self).state(), op@), final(self).state()),
    {
        if self.stack_len == 0 {
            return Err(CompileError::StackUnderflow);
        }
        self.stack_len = self.stack_len - 1;
        self.pops = Ghost(self.pops@ + 1);
        let ghost t0 = self.output@;
        self.output.append("\tpop ");
        self.output.append(op);
        self.output.append("\n");
        assert(self.output@ =~= t0 + render(InstructionModel::Pop(op@)));
        Ok(())
    }

    fn mov(&mut self, reg: &str, value: u32)
        requires
            old(self).wf(),
        ensures
            final(self).wf(),
            final(self).max() == old(self).max(),
            final(self).exits_at_end() == old(self).exits_at_end(),
            keeps(old(self).state(), final(self).state()),
            final(self).state() == append_text(
                old(self).state(),
                render(InstructionModel::Mov(reg@, value)),
            ),
    {
        let ghost t0 = self.output@;
        self.output.append("\tmov ");
        self.output.append(reg);
        self.output.append(", ");
        append_decimal(&mut self.output, value as u64);
        self.output.append("\n");
        assert(self.output@ =~= t0 + render(InstructionModel::Mov(reg@, value)));
    }

    /// One instruction.
    fn instruction(&mut self, i: &Instructions) -> (r: Result<(), CompileError>)
        requires
            old(self).wf(),
        ensures
            final(self).wf(),
            final(self).max() == old(self).max(),
            final(self).exits_at_end() == old(self).exits_at_end(),
            keeps(old(self).state(), final(self).state()),
            generated(r, exec_instruction(old(self).state(), i@, old(self).max()), final(self).state()),
    {
        match i {
            Instructions::Push(op) => self.push(op.as_str()),
            Instructions::Pop(op) => self.pop(op.as_str()),
            Instructions::Mov(reg, value) => {
                self.mov(reg.as_str(), *value);
                Ok(())
            },
            Instructions::Syscall => {
                self.mov(Registers::Rax.name(), EXIT_SYSCALL);
                match self.pop(Registers::Rdi.name()) {
                    Ok(()) => {},
                    Err(e) => {
                        return Err(e);
                    },
                }
                let ghost t0 = self.output@;
                self.write("\n");
                self.write("\tsyscall\n");
                assert(self.output@ =~= t0 + ("\n"@ + render(InstructionModel::Syscall)));
                Ok(())
            },
            Instructions::Add(l, r) => {
                let ghost t0 = self.output@;
                self.write("\tadd ");
                self.write(l.as_str());
                self.write(", ");
                self.write(r.as_str());
                self.write("\n");
                self.adds = Ghost(self.adds@ + 1);
                assert(self.output@ =~= t0 + render(InstructionModel::Add(l@, r@)));
                Ok(())
            },
        }
    }

    /// Emits `instructions` as one block, followed by a blank line, keeping
    /// count of the stack depth.
    pub fn instructions(&mut self, instructions: Vec<Instructions>) -> (r: Result<(), CompileError>)
        requires
            old(self).wf(),
        ensures
            final(self).wf(),
            final(self).max() == old(self).max(),
            final(self).exits_at_end() == old(self).exits_at_end(),
            keeps(old(self).state(), final(self).state()),
            generated(
                r,
                emit(old(self).state(), instructions_model(instructions@), old(self).max()),
                final(self).state(),
            ),
    {
        broadcast use lemma_keeps_trans;

        let ghost st0 = old(self).state();
        let ghost is = instructions_model(instructions@);
        let mut i: usize = 0;
        while i < instructions.len()
            invariant
                self.wf(),
                self.max() == old(self).max(),
                self.exits_at_end() == old(self).exits_at_end(),
                st0 == old(self).state(),
                keeps(st0, self.state()),
                is == instructions_model(instructions@),
                0 <= i <= instructions.len(),
                exec_instructions(st0, is.take(i as int), self.max()) == Ok::<GenState, ErrorModel>(
                    self.state(),
                ),
            decreases instructions.len() - i,
        {
            assert(is.take(i + 1).drop_last() =~= is.take(i as int));
            match self.instruction(&instructions[i]) {
                Ok(()) => {},
                Err(e) => {
                    proof {
                        lemma_instructions_prefix(st0, is, i + 1, self.max());
                    }
                    return Err(e);
                },
            }
            i = i + 1;
        }
        assert(is.take(i as int) =~= is);
        self.write("\n");
        Ok(())
    }

    /// The slot of the alias `a`.
    fn find(&self, a: &String) -> (r: Option<u32>)
        ensures
            match lookup(self.state().vars, a@) {
                Some(slot) => r == Some(slot as u32) && slot == r->0 as int,
                None => r is None,
            },
    {
        let ghost vs = self.state().vars;
        let mut i: usize = 0;
        assert(vs.skip(0) =~= vs);
        while i < self.vars.len()
            invariant
                vs == self.state().vars,
                0 <= i <= self.vars.len(),
                lookup(vs, a@) == lookup(vs.skip(i as int), a@),
            decreases self.vars.len() - i,
        {
            assert(vs.skip(i as int).drop_first() =~= vs.skip(i + 1));
            if self.vars[i].alias == *a {
                return Some(self.vars[i].stack_location);
            }
            i = i + 1;
        }
        None
    }

    /// Code that leaves the value of `expression` on top of the stack.
    /// Whatever the outcome, no alias is declared and text is only appended.
    pub fn expr(&mut self, expression: &Expression) -> (r: Result<(), CompileError>)
        requires
            old(self).wf(),
        ensures
            final(self).wf(),
            final(self).max() == old(self).max(),
            final(self).exits_at_end() == old(self).exits_at_end(),
            keeps(old(self).state(), final(self).state()),
            generated(r, gen_expr(old(self).state(), expression@, old(self).max()), final(self).state()),
        decreases expression,
    {
        match expression {
            Expression::Term(Term::Alias(alias)) => match self.find(alias) {
                Some(slot) => {
                    if slot as usize >= self.stack_len {
                        return Err(CompileError::StackUnderflow);
                    }
                    let mut op = String::from_str("QWORD [");
                    op.append(Registers::Rsp.name());
                    op.append("+");
                    append_decimal(&mut op, ((self.stack_len - slot as usize - 1) * WORD_SIZE) as u64);
                    op.append("]");
                    assert(op@ =~= slot_operand((self.state().depth - slot - 1) as nat));
                    let is = vec![Instructions::Push(op)];
                    assert(instructions_model(is@) =~= seq![
                        InstructionModel::Push(slot_operand((self.state().depth - slot - 1) as nat)),
                    ]);
                    self.instructions(is)
                },
                None => Err(CompileError::UndeclaredAlias { alias: alias.clone() }),
            },
            Expression::Term(Term::Literal(literal)) => self.literal(literal),
            Expression::BinaryOp(operator, left, right) => {
                match self.expr(left) {
                    Ok(()) => {},
                    Err(e) => {
                        return Err(e);
                    },
                }
                match self.expr(right) {
                    Ok(()) => {},
                    Err(e) => {
                        return Err(e);
                    },
                }
                let is = vec![Instructions::Pop(Registers::Rax.to_string())];
                assert(instructions_model(is@) =~= seq![
                    InstructionModel::Pop(Registers::Rax.spec_name()),
                ]);
                match self.instructions(is) {
                    Ok(()) => {},
                    Err(e) => {
                        return Err(e);
                    },
                }
                let is = vec![Instructions::Pop(Registers::Rbx.to_string())];
                assert(instructions_model(is@) =~= seq![
                    InstructionModel::Pop(Registers::Rbx.spec_name()),
                ]);
                match self.instructions(is) {
                    Ok(()) => {},
                    Err(e) => {
                        return Err(e);
                    },
                }
                match operator {
                    ArithmeticOperator::Add => {
                        let is = vec![
                            Instructions::Add(Registers::Rax.to_string(), Registers::Rbx.to_string()),
                            Instructions::Push(Registers::Rax.to_string()),
                        ];
                        assert(instructions_model(is@) =~= seq![
                            InstructionModel::Add(Registers::Rax.spec_name(), Registers::Rbx.spec_name()),
                            InstructionModel::Push(Registers::Rax.spec_name()),
                        ]);
                        self.instructions(is)
                    },
                    _ => Err(CompileError::UnimplementedOperator { operator: *operator }),
                }
            },
        }
    }

    /// Code of one statement. Text is only appended; on an error no alias
    /// is declared; an alias declared a second time changes nothing.
    pub fn statement(&mut self, statement: &Statement) -> (r: Result<(), CompileError>)
        requires
            old(self).wf(),
        ensures
            final(self).wf(),
            final(self).max() == old(self).max(),
            final(self).exits_at_end() == old(self).exits_at_end(),
            old(self).state().text.is_prefix_of(final(self).state().text),
            r is Err ==> final(self).state().vars == old(self).state().vars,
            (statement@ matches StatementModel::Let(a, _) && lookup(old(self).state().vars, a) is Some)
                ==> final(self).state() == old(self).state(),
            generated(r, gen_statement(old(self).state(), statement@, old(self).max()), final(self).state()),
    {
        match statement {
            Statement::Let(alias, expression) => {
                if self.find(alias).is_some() {
                    return Err(CompileError::AlreadyDeclared { alias: alias.clone() });
                }
                let stack_location = self.stack_len as u32;
                match self.expr(expression) {
                    Ok(()) => {},
                    Err(e) => {
                        return Err(e);
                    },
                }
                let ghost before = self.vars@;
                proof {
                    lemma_lookup_absent(vars_model(before), alias@);
                }
                self.vars.push(Var { alias: alias.clone(), stack_location });
                assert(vars_model(self.vars@) =~= vars_model(before).push(
                    (alias@, stack_location as int),
                ));
                Ok(())
            },
            Statement::SystemCall(SysCall::Exit(expression)) => {
                match self.expr(expression) {
                    Ok(()) => {},
                    Err(e) => {
                        return Err(e);
                    },
                }
                let is = vec![Instructions::Syscall];
                assert(instructions_model(is@) =~= seq![InstructionModel::Syscall]);
                self.instructions(is)
            },
        }
    }

    /// Lowers `construct` from a fresh state (no text, an empty stack, no
    /// alias), with `stamp` as the time stamp of the header, and returns the
    /// program's text. A program without statements is an error.
    pub fn construct_stamped(&mut self, stamp: &str, construct: Construct) -> (r: Result<
        String,
        CompileError,
    >)
        requires
            old(self).wf(),
        ensures
            final(self).wf(),
            final(self).max() == old(self).max(),
            final(self).exits_at_end() == old(self).exits_at_end(),
            lowered(stamp@, construct@, old(self).exits_at_end(), old(self).max(), r, final(self).state()),
    {
        if construct.is_empty() {
            return Err(CompileError::NoStatementsFound);
        }
        self.reset();
        let ghost st0 = self.state();
        let ghost t0 = self.output@;
        self.write("# ");
        self.write(stamp);
        self.write("\n\n");
        self.write("global _start\n_start:\n");
        assert(self.output@ =~= t0 + header(stamp@));
        let ghost sth = self.state();
        let Construct::Program(statements) = construct;
        let ghost v = crate::utterances::statements_model(statements@);
        let mut i: usize = 0;
        assert(v.take(0) =~= Seq::<StatementModel>::empty());
        proof {
            reveal(gen_statements);
        }
        while i < statements.len()
            invariant
                st0 == initial_state(),
                v == construct@,
                v.len() > 0,
                self.wf(),
                self.max() == old(self).max(),
                self.exits_at_end() == old(self).exits_at_end(),
                sth == append_text(st0, header(stamp@)),
                v == crate::utterances::statements_model(statements@),
                0 <= i <= statements.len(),
                gen_statements(sth, v.take(i as int), self.max()) == Ok::<GenState, ErrorModel>(
                    self.state(),
                ),
            decreases statements.len() - i,
        {
            proof {
                lemma_statements_next(sth, v, i as int, self.max());
            }
            match self.statement(&statements[i]) {
                Ok(()) => {},
                Err(e) => {
                    proof {
                        lemma_statements_prefix(sth, v, i + 1, self.max());
                        lemma_statements_then(sth, v, default_exit(), self.max());
                    }
                    return Err(e);
                },
            }
            i = i + 1;
        }
        assert(v.take(i as int) =~= v);
        proof {
            lemma_statements_then(sth, v, default_exit(), self.max());
        }
        if self.exit_at_end {
            let exit = Statement::SystemCall(
                SysCall::Exit(Expression::Term(Term::Literal(Literal::U32(0)))),
            );
            match self.statement(&exit) {
                Ok(()) => {},
                Err(e) => {
                    return Err(e);
                },
            }
        }
        Ok(self.output.clone())
    }

    /// Lowers `construct` from a fresh state under a header stamped with the
    /// local time, and returns the program's text.
    pub fn construct(&mut self, construct: Construct) -> (r: Result<String, CompileError>)
        requires
            old(self).wf(),
        ensures
            final(self).wf(),
            final(self).max() == old(self).max(),
            final(self).exits_at_end() == old(self).exits_at_end(),
            exists|stamp: Seq<char>|
                #[trigger] lowered(
                    stamp,
                    construct@,
                    old(self).exits_at_end(),
                    old(self).max(),
                    r,
                    final(self).state(),
                ),
    {
        let stamp = local_time_stamp();
        self.construct_stamped(stamp.as_str(), construct)
    }

    /// Forgets all text and aliases, and empties the stack.
    fn reset(&mut self)
        requires
            old(self).wf(),
        ensures
            final(self).wf(),
            final(self).state() == initial_state(),
            final(self).max() == old(self).max(),
            final(self).exits_at_end() == old(self).exits_at_end(),
    {
        self.output = String::new();
        self.vars = Vec::new();
        self.stack_len = 0;
        self.pushes = Ghost(0);
        self.pops = Ghost(0);
        self.peak = Ghost(0);
        self.adds = Ghost(0);
        assert(vars_model(self.vars@) =~= Seq::empty());
    }

    /// The text emitted so far.
    pub fn output(&self) -> (r: &str)
        ensures
            r@ == self.state().text,
    {
        self.output.as_str()
    }

    /// Appends `exit 0` to every program lowered, so that the generated
    /// program ends even where the source has no exit call.
    pub fn with_default_exit(self, on: bool) -> (r: Transpiler)
        requires
            self.wf(),
        ensures
            r.wf(),
            r.state() == self.state(),
            r.max() == self.max(),
            r.exits_at_end() == on,
    {
        Transpiler { exit_at_end: on, ..self }
    }

    /// The current virtual stack depth.
    pub fn stack_len(&self) -> (r: usize)
        ensures
            r == self.state().depth,
    {
        self.stack_len
    }

    /// The bound on the virtual stack depth.
    pub fn max_stack_size(&self) -> (r: usize)
        ensures
            r == self.max(),
    {
        self.max_stack_size
    }

    /// Code that pushes the value of `literal`.
    pub fn literal(&mut self, literal: &Literal) -> (r: Result<(), CompileError>)
        requires
            old(self).wf(),
        ensures
            final(self).wf(),
            final(self).max() == old(self).max(),
            final(self).exits_at_end() == old(self).exits_at_end(),
            keeps(old(self).state(), final(self).state()),
            generated(
                r,
                gen_expr(
                    old(self).state(),
                    ExpressionModel::Term(TermModel::Literal(literal@)),
                    old(self).max(),
                ),
                final(self).state(),
            ),
    {
        match literal {
            Literal::U32(value) => {
                let is = vec![
                    Instructions::Mov(Registers::Rax.to_string(), *value),
                    Instructions::Push(Registers::Rax.to_string()),
                ];
                assert(instructions_model(is@) =~= seq![
                    InstructionModel::Mov(Registers::Rax.spec_name(), *value),
                    InstructionModel::Push(Registers::Rax.spec_name()),
                ]);
                self.instructions(is)
            },
            _ => Err(CompileError::UnsupportedLiteral),
        }
    }
}

/// The local time, as `%H:%M:%S / %e %b %Y`.
///
/// Relies on chrono's `From<SystemTime> for DateTime<Local>` and
/// `DateTime::format`; nothing is promised of the result, which depends on
/// the clock and the time zone.
#[verifier::external_body]
fn local_time_stamp() -> String {
    let now = chrono::DateTime::<chrono::Local>::from(std::time::SystemTime::now());
    now.format("%H:%M:%S / %e %b %Y").to_string()
}

/// The statements up to `i` are those up to `i - 1`, then statement `i`.
pub proof fn lemma_statements_next(st: GenState, v: Seq<StatementModel>, i: int, max: int)
    requires
        0 <= i < v.len(),
    ensures
        gen_statements(st, v.take(i + 1), max) == match gen_statements(st, v.take(i), max) {
            Ok(st1) => gen_statement(st1, v[i], max),
            Err(x) => Err(x),
        },
{
    reveal(gen_statements);
    assert(v.take(i + 1).drop_last() =~= v.take(i));
}

/// A statement appended to a program is lowered after it.
pub proof fn lemma_statements_then(st: GenState, v: Seq<StatementModel>, s: StatementModel, max: int)
    ensures
        gen_statements(st, v.push(s), max) == match gen_statements(st, v, max) {
            Ok(st1) => gen_statement(st1, s, max),
            Err(x) => Err(x),
        },
{
    reveal(gen_statements);
    assert(v.push(s).drop_last() =~= v);
}

/// Once a prefix of a program fails, the program fails the same way.
pub proof fn lemma_statements_prefix(st: GenState, v: Seq<StatementModel>, i: int, max: int)
    requires
        0 <= i <= v.len(),
        gen_statements(st, v.take(i), max) is Err,
    ensures
        gen_statements(st, v, max) == gen_statements(st, v.take(i), max),
    decreases v.len() - i,
{
    reveal(gen_statements);
    if i < v.len() {
        assert(v.take(i + 1).drop_last() =~= v.take(i));
        lemma_statements_prefix(st, v, i + 1, max);
    } else {
        assert(v.take(i) =~= v);
    }
}

/// Once a prefix of a block fails, the block fails the same way.
pub proof fn lemma_instructions_prefix(st: GenState, is: Seq<InstructionModel>, i: int, max: int)
    requires
        0 <= i <= is.len(),
        exec_instructions(st, is.take(i), max) is Err,
    ensures
        exec_instructions(st, is, max) == exec_instructions(st, is.take(i), max),
    decreases is.len() - i,
{
    if i < is.len() {
        assert(is.take(i + 1).drop_last() =~= is.take(i));
        lemma_instructions_prefix(st, is, i + 1, max);
    } else {
        assert(is.take(i) =~= is);
    }
}

} // verus!
