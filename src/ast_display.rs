//! Renders the syntax tree as indented text for inspection.
use vstd::prelude::*;
use vstd::string::StringExecFns;
use crate::assembly::{append_decimal, decimal};
use crate::utterances::{
    ArithmeticOperator, Construct, Expression, ExpressionModel, Literal, LiteralModel, Statement,
    StatementModel, SysCall, SysCallModel, Term, TermModel,
};

verus! {

/// Indentation of a statement under its program.
pub const SPACE_SIZE: usize = 2;

pub open spec fn operator_text(op: ArithmeticOperator) -> Seq<char> {
    match op {
        ArithmeticOperator::Add => "+"@,
        ArithmeticOperator::Sub => "-"@,
        ArithmeticOperator::Mul => "*"@,
        ArithmeticOperator::Div => "/"@,
    }
}

pub open spec fn literal_text(l: LiteralModel) -> Seq<char> {
    match l {
        LiteralModel::U32(v) => decimal(v as nat),
        LiteralModel::Str(s) => s,
        LiteralModel::Boolean(b) => if b {
            "true"@
        } else {
            "false"@
        },
    }
}

pub open spec fn term_text(t: TermModel) -> Seq<char> {
    match t {
        TermModel::Alias(a) => a,
        TermModel::Literal(l) => literal_text(l),
    }
}

/// An operation is written in parentheses, its operator between its operands.
pub open spec fn expression_text(e: ExpressionModel) -> Seq<char>
    decreases e,
{
    match e {
        ExpressionModel::BinaryOp(op, l, r) => "("@ + expression_text(*l) + " "@ + operator_text(op)
            + " "@ + expression_text(*r) + ")"@,
        ExpressionModel::Term(t) => term_text(t),
    }
}

pub open spec fn syscall_text(c: SysCallModel) -> Seq<char> {
    match c {
        SysCallModel::Exit(e) => "SYSCALL "@ + "EXIT "@ + expression_text(e),
    }
}

pub open spec fn statement_text(s: StatementModel) -> Seq<char> {
    match s {
        StatementModel::Let(a, e) => "STATEMENT "@ + "LET "@ + a + " ASSIGN "@ + expression_text(e)
            + ";"@,
        StatementModel::SystemCall(c) => "STATEMENT "@ + syscall_text(c),
    }
}

/// The lines of the statements from the first up to `n`.
pub open spec fn statements_text(v: Seq<StatementModel>, n: int) -> Seq<char>
    decreases n,
{
    if n <= 0 {
        Seq::empty()
    } else {
        statements_text(v, n - 1) + "  "@ + statement_text(v[n - 1]) + "\n"@
    }
}

/// A heading line, then one indented line per statement.
pub open spec fn construct_text(v: Seq<StatementModel>) -> Seq<char> {
    "CONSTRUCT\n"@ + statements_text(v, v.len() as int)
}

impl ArithmeticOperator {
    pub fn write_text(&self, out: &mut String)
        ensures
            final(out)@ == old(out)@ + operator_text(*self),
    {
        match self {
            ArithmeticOperator::Add => out.append("+"),
            ArithmeticOperator::Sub => out.append("-"),
            ArithmeticOperator::Mul => out.append("*"),
            ArithmeticOperator::Div => out.append("/"),
        }
    }
}

impl Literal {
    pub fn write_text(&self, out: &mut String)
        ensures
            final(out)@ == old(out)@ + literal_text(self@),
    {
        match self {
            Literal::U32(v) => append_decimal(out, *v as u64),
            Literal::Str(s) => out.append(s.as_str()),
            Literal::Boolean(b) => if *b {
                out.append("true")
            } else {
                out.append("false")
            },
        }
    }
}

impl Term {
    pub fn write_text(&self, out: &mut String)
        ensures
            final(out)@ == old(out)@ + term_text(self@),
    {
        match self {
            Term::Alias(a) => out.append(a.as_str()),
            Term::Literal(l) => l.write_text(out),
        }
    }
}

impl Expression {
    pub fn write_text(&self, out: &mut String)
        ensures
            final(out)@ == old(out)@ + expression_text(self@),
        decreases self,
    {
        match self {
            Expression::BinaryOp(op, l, r) => {
                let ghost t0 = out@;
                out.append("(");
                l.write_text(out);
                out.append(" ");
                op.write_text(out);
                out.append(" ");
                r.write_text(out);
                out.append(")");
                assert(out@ =~= t0 + expression_text(self@));
            },
            Expression::Term(t) => t.write_text(out),
        }
    }

    pub fn to_text(&self) -> (r: String)
        ensures
            r@ == expression_text(self@),
    {
        let mut out = String::new();
        self.write_text(&mut out);
        assert(out@ =~= expression_text(self@));
        out
    }
}

impl SysCall {
    pub fn write_text(&self, out: &mut String)
        ensures
            final(out)@ == old(out)@ + syscall_text(self@),
    {
        match self {
            SysCall::Exit(e) => {
                let ghost t0 = out@;
                out.append("SYSCALL ");
                out.append("EXIT ");
                e.write_text(out);
                assert(out@ =~= t0 + syscall_text(self@));
            },
        }
    }
}

impl Statement {
    pub fn write_text(&self, out: &mut String)
        ensures
            final(out)@ == old(out)@ + statement_text(self@),
    {
        let ghost t0 = out@;
        out.append("STATEMENT ");
        match self {
            Statement::Let(alias, expression) => {
                out.append("LET ");
                out.append(alias.as_str());
                out.append(" ASSIGN ");
                expression.write_text(out);
                out.append(";");
            },
            Statement::SystemCall(c) => c.write_text(out),
        }
        assert(out@ =~= t0 + statement_text(self@));
    }

    pub fn to_text(&self) -> (r: String)
        ensures
            r@ == statement_text(self@),
    {
        let mut out = String::new();
        self.write_text(&mut out);
        assert(out@ =~= statement_text(self@));
        out
    }
}

impl Construct {
    pub fn write_text(&self, out: &mut String)
        ensures
            final(out)@ == old(out)@ + construct_text(self@),
    {
        let ghost t0 = out@;
        out.append("CONSTRUCT\n");
        match self {
            Construct::Program(statements) => {
                let ghost v = crate::utterances::statements_model(statements@);
                let mut i: usize = 0;
                while i < statements.len()
                    invariant
                        v == crate::utterances::statements_model(statements@),
                        0 <= i <= statements.len(),
                        out@ == t0 + "CONSTRUCT\n"@ + statements_text(v, i as int),
                    decreases statements.len() - i,
                {
                    let ghost t1 = out@;
                    let mut k: usize = 0;
                    while k < SPACE_SIZE
                        invariant
                            k <= SPACE_SIZE,
                            out@ == t1 + Seq::new(k as nat, |j: int| ' '),
                        decreases SPACE_SIZE - k,
                    {
                        let ghost t2 = out@;
                        out.append(" ");
                        assert(out@ =~= t1 + Seq::new((k + 1) as nat, |j: int| ' ')) by {
                            reveal_strlit(" ");
                        }
                        k = k + 1;
                    }
                    assert(Seq::new(2nat, |j: int| ' ') =~= "  "@) by {
                        reveal_strlit("  ");
                    }
                    statements[i].write_text(out);
                    out.append("\n");
                    assert(out@ =~= t0 + "CONSTRUCT\n"@ + statements_text(v, i + 1));
                    i = i + 1;
                }
            },
        }
    }

    pub fn to_text(&self) -> (r: String)
        ensures
            r@ == construct_text(self@),
    {
        let mut out = String::new();
        self.write_text(&mut out);
        assert(out@ =~= construct_text(self@));
        out
    }
}

} // verus!
