//! The recursive-descent parser, with the grammar it follows stated over the
//! characters of the source.
use vstd::prelude::*;
use crate::error::{CompileError, ErrorModel};
use crate::lexer::{
    digits_value, lemma_number_digits, lemma_token_bounds, next_token, Lexer, Step, Token,
};
use crate::utterances::{
    statements_model, ArithmeticOperator, Construct, Expression, ExpressionModel, Kind, Literal, LiteralModel,
    Statement, StatementModel, SysCall, SysCallModel, Term, TermModel,
};

verus! {

/// A token seen by the grammar: its kind and the characters `start..end`.
pub struct Span {
    pub kind: Kind,
    pub start: int,
    pub end: int,
}

/// The token that must come next from `p` on.
pub open spec fn expect_any(s: Seq<char>, p: int) -> Result<Span, ErrorModel> {
    match next_token(s, p) {
        Step::End => Err(ErrorModel::UnexpectedEnd),
        Step::Fault(q) => Err(ErrorModel::Lexical { position: q as usize }),
        Step::Token(k, a, b) => Ok(Span { kind: k, start: a, end: b }),
    }
}

/// The token of kind `k` that must come next from `p` on.
pub open spec fn expect_kind(s: Seq<char>, p: int, k: Kind) -> Result<Span, ErrorModel> {
    match expect_any(s, p) {
        Ok(t) => if t.kind == k {
            Ok(t)
        } else {
            Err(ErrorModel::UnexpectedToken { expected: k, found: t.kind, position: t.start as usize })
        },
        Err(e) => Err(e),
    }
}

/// `term := number | alias`
pub open spec fn parse_term(s: Seq<char>, p: int) -> Result<(TermModel, int), ErrorModel> {
    match expect_any(s, p) {
        Ok(t) => if t.kind == Kind::Number {
            let v = digits_value(s.subrange(t.start, t.end));
            if v <= u32::MAX {
                Ok((TermModel::Literal(LiteralModel::U32(v as u32)), t.end))
            } else {
                Err(ErrorModel::InvalidNumber { position: t.start as usize })
            }
        } else if t.kind == Kind::AliasSnakeCase {
            Ok((TermModel::Alias(s.subrange(t.start, t.end)), t.end))
        } else {
            Err(ErrorModel::UnexpectedInExpression { found: t.kind, position: t.start as usize })
        },
        Err(e) => Err(e),
    }
}

/// The operator that a token stands for.
pub open spec fn operator_of(k: Kind) -> Option<ArithmeticOperator> {
    match k {
        Kind::Add => Some(ArithmeticOperator::Add),
        Kind::Sub => Some(ArithmeticOperator::Sub),
        Kind::Mul => Some(ArithmeticOperator::Mul),
        Kind::Div => Some(ArithmeticOperator::Div),
        _ => None,
    }
}

/// `expression := term (";" | operator expression)`: right-recursive, with
/// no precedence, so `a + b + c` is `a + (b + c)`. The `;` that ends the
/// expression is consumed.
pub open spec fn parse_expression(s: Seq<char>, p: int) -> Result<(ExpressionModel, int), ErrorModel>
    decreases (if p < s.len() { s.len() - p } else { 0 }),
{
    match parse_term(s, p) {
        Ok((t, q)) => match expect_any(s, q) {
            Ok(n) => if n.kind == Kind::SemiColon {
                Ok((ExpressionModel::Term(t), n.end))
            } else {
                match operator_of(n.kind) {
                    Some(op) => match parse_expression(s, n.end) {
                        Ok((r, e)) => Ok(
                            (
                                ExpressionModel::BinaryOp(
                                    op,
                                    Box::new(ExpressionModel::Term(t)),
                                    Box::new(r),
                                ),
                                e,
                            ),
                        ),
                        Err(e) => Err(e),
                    },
                    None => Err(
                        ErrorModel::UnexpectedInExpression { found: n.kind, position: n.start as usize },
                    ),
                }
            },
            Err(e) => Err(e),
        },
        Err(e) => Err(e),
    }
}

/// `let_stmt := "let" alias "=" expression`, from just after `let`.
pub open spec fn parse_let(s: Seq<char>, p: int) -> Result<(StatementModel, int), ErrorModel> {
    match expect_kind(s, p, Kind::AliasSnakeCase) {
        Ok(a) => match expect_kind(s, a.end, Kind::Assign) {
            Ok(eq) => match parse_expression(s, eq.end) {
                Ok((e, end)) => Ok((StatementModel::Let(s.subrange(a.start, a.end), e), end)),
                Err(x) => Err(x),
            },
            Err(x) => Err(x),
        },
        Err(x) => Err(x),
    }
}

/// `syscall_stmt := "syscall" "exit" expression`, from just after `syscall`.
pub open spec fn parse_syscall(s: Seq<char>, p: int) -> Result<(StatementModel, int), ErrorModel> {
    match expect_kind(s, p, Kind::AliasSnakeCase) {
        Ok(n) => if s.subrange(n.start, n.end) == seq!['e', 'x', 'i', 't'] {
            match parse_expression(s, n.end) {
                Ok((e, end)) => Ok((StatementModel::SystemCall(SysCallModel::Exit(e)), end)),
                Err(x) => Err(x),
            }
        } else {
            Err(ErrorModel::UnknownSyscall { position: n.start as usize })
        },
        Err(x) => Err(x),
    }
}

/// `statement := let_stmt | syscall_stmt`, chosen by its first token `t`.
pub open spec fn parse_statement(s: Seq<char>, t: Span) -> Result<(StatementModel, int), ErrorModel> {
    if t.kind == Kind::KeywordLet {
        parse_let(s, t.end)
    } else if t.kind == Kind::SystemCall {
        parse_syscall(s, t.end)
    } else {
        Err(ErrorModel::UnexpectedStatement { found: t.kind, position: t.start as usize })
    }
}

/// The statements from `p` to the end of the source; the first error
/// met stops parsing.
#[verifier::opaque]
pub open spec fn parse_statements(s: Seq<char>, p: int) -> Result<Seq<StatementModel>, ErrorModel>
    decreases (if p < s.len() { s.len() - p } else { 0 }),
{
    match next_token(s, p) {
        Step::End => Ok(Seq::empty()),
        Step::Fault(q) => Err(ErrorModel::Lexical { position: q as usize }),
        Step::Token(k, a, b) => match parse_statement(s, Span { kind: k, start: a, end: b }) {
            Ok((st, e)) => if p < e {
                prepend(seq![st], parse_statements(s, e))
            } else {
                // never taken: a statement always consumes input (lemma_statement_advances)
                Ok(seq![st])
            },
            Err(x) => Err(x),
        },
    }
}

/// `program := statement+`: a program without statements is an error.
pub open spec fn parse_program(s: Seq<char>, p: int) -> Result<Seq<StatementModel>, ErrorModel> {
    match parse_statements(s, p) {
        Ok(v) => if v.len() == 0 {
            Err(ErrorModel::NoStatementsFound)
        } else {
            Ok(v)
        },
        Err(e) => Err(e),
    }
}

/// `v` followed by the statements of `r`, or the error of `r`.
pub open spec fn prepend(v: Seq<StatementModel>, r: Result<Seq<StatementModel>, ErrorModel>) -> Result<
    Seq<StatementModel>,
    ErrorModel,
> {
    match r {
        Ok(w) => Ok(v + w),
        Err(e) => Err(e),
    }
}

pub proof fn lemma_prepend_empty(r: Result<Seq<StatementModel>, ErrorModel>)
    ensures
        prepend(Seq::empty(), r) == r,
{
    if let Ok(w) = r {
        assert(Seq::<StatementModel>::empty() + w =~= w);
    }
}

pub proof fn lemma_prepend_empty_rest(v: Seq<StatementModel>)
    ensures
        prepend(v, Ok(Seq::empty())) == Ok::<Seq<StatementModel>, ErrorModel>(v),
{
    assert(v + Seq::<StatementModel>::empty() =~= v);
}

pub proof fn lemma_prepend_assoc(
    u: Seq<StatementModel>,
    v: Seq<StatementModel>,
    r: Result<Seq<StatementModel>, ErrorModel>,
)
    ensures
        prepend(u, prepend(v, r)) == prepend(u + v, r),
{
    if let Ok(w) = r {
        assert(u + (v + w) =~= (u + v) + w);
    }
}

/// Parsing statements from `p` is the first statement followed by the
/// statements after it.
pub proof fn lemma_statements_step(s: Seq<char>, p: int, st: StatementModel, e: int)
    requires
        next_token(s, p) matches Step::Token(k, a, b) && parse_statement(
            s,
            Span { kind: k, start: a, end: b },
        ) == Ok::<(StatementModel, int), ErrorModel>((st, e)) && b < e,
        0 <= p,
    ensures
        parse_statements(s, p) == prepend(seq![st], parse_statements(s, e)),
{
    reveal(parse_statements);
    lemma_token_bounds(s, p);
}

/// A statement that fails to parse stops parsing.
pub proof fn lemma_statements_fail(s: Seq<char>, p: int, x: ErrorModel)
    requires
        next_token(s, p) matches Step::Token(k, a, b) && parse_statement(
            s,
            Span { kind: k, start: a, end: b },
        ) == Err::<(StatementModel, int), ErrorModel>(x),
    ensures
        parse_statements(s, p) == Err::<Seq<StatementModel>, ErrorModel>(x),
{
    reveal(parse_statements);
}

/// An expression ends after where it starts, within the source.
pub proof fn lemma_expression_advances(s: Seq<char>, p: int)
    requires
        0 <= p <= s.len(),
    ensures
        parse_expression(s, p) matches Ok((_, e)) ==> p < e <= s.len(),
    decreases s.len() - p,
{
    lemma_token_bounds(s, p);
    if let Ok((t, q)) = parse_term(s, p) {
        lemma_token_bounds(s, q);
        if let Ok(n) = expect_any(s, q) {
            if n.kind != Kind::SemiColon {
                lemma_expression_advances(s, n.end);
            }
        }
    }
}

/// A statement ends after its first token, within the source: parsing
/// statements always consumes input.
pub proof fn lemma_statement_advances(s: Seq<char>, p: int)
    requires
        0 <= p <= s.len(),
    ensures
        next_token(s, p) matches Step::Token(k, a, b) ==> (parse_statement(
            s,
            Span { kind: k, start: a, end: b },
        ) matches Ok((_, e)) ==> p <= a < b < e <= s.len()),
{
    lemma_token_bounds(s, p);
    if let Step::Token(k, a, b) = next_token(s, p) {
        lemma_token_bounds(s, b);
        if let Ok(x) = expect_any(s, b) {
            lemma_token_bounds(s, x.end);
            lemma_expression_advances(s, x.end);
            if let Ok(y) = expect_any(s, x.end) {
                lemma_expression_advances(s, y.end);
            }
        }
    }
}

/// The grammar's view of a token.
pub open spec fn span_of(t: Token) -> Span {
    Span { kind: t.kind, start: t.start as int, end: t.end as int }
}

/// Pulls tokens from a lexer and builds the syntax tree.
pub struct Parser {
    lexer: Lexer,
}

impl Parser {
    /// The characters of the source.
    pub closed spec fn text(&self) -> Seq<char> {
        self.lexer.text()
    }

    /// Where parsing goes on.
    pub closed spec fn position(&self) -> int {
        self.lexer.cursor()
    }

    pub closed spec fn wf(&self) -> bool {
        self.lexer.wf()
    }

    pub fn new(lexer: Lexer) -> (r: Parser)
        requires
            lexer.wf(),
        ensures
            r.wf(),
            r.text() == lexer.text(),
            r.position() == lexer.cursor(),
    {
        Parser { lexer }
    }

    /// Parses the whole program that remains.
    pub fn program(&mut self) -> (r: Result<Construct, CompileError>)
        requires
            old(self).wf(),
        ensures
            final(self).wf(),
            final(self).text() == old(self).text(),
            match r {
                Ok(c) => parse_program(old(self).text(), old(self).position()) == Ok::<
                    Seq<StatementModel>,
                    ErrorModel,
                >(c@),
                Err(e) => parse_program(old(self).text(), old(self).position()) == Err::<
                    Seq<StatementModel>,
                    ErrorModel,
                >(e@),
            },
    {
        let ghost s = old(self).text();
        let ghost p0 = old(self).position();
        let mut statements: Vec<Statement> = Vec::new();
        proof {
            self.lexer.lemma_bounds();
            assert(statements_model(statements@) =~= Seq::<StatementModel>::empty());
            lemma_prepend_empty(parse_statements(s, p0));
        }
        loop
            invariant
                s == old(self).text(),
                p0 == old(self).position(),
                self.wf(),
                self.text() == s,
                0 <= self.position() <= s.len(),
                parse_statements(s, p0) == prepend(
                    statements_model(statements@),
                    parse_statements(s, self.position()),
                ),
            decreases s.len() - self.position(),
        {
            let ghost p = self.position();
            proof {
                lemma_token_bounds(s, p);
            }
            let leader = self.lexer.next();
            match leader {
                None => {
                    proof {
                        reveal(parse_statements);
                        lemma_prepend_empty_rest(statements_model(statements@));
                    }
                    if statements.len() == 0 {
                        return Err(CompileError::NoStatementsFound);
                    }
                    return Ok(Construct::Program(statements));
                },
                Some(Err(e)) => {
                    proof {
                        reveal(parse_statements);
                    }
                    return Err(e);
                },
                Some(Ok(kind)) => {
                    proof {
                        self.lexer.lemma_bounds();
                    }
                    let (start, end) = self.lexer.span();
                    let t = Token { kind, start, end };
                    match self.statement(t) {
                        Ok((st, e)) => {
                            proof {
                                lemma_statements_step(s, p, st@, e as int);
                                lemma_prepend_assoc(
                                    statements_model(statements@),
                                    seq![st@],
                                    parse_statements(s, e as int),
                                );
                            }
                            let ghost before = statements@;
                            statements.push(st);
                            assert(statements_model(statements@) =~= statements_model(before)
                                + seq![st@]);
                            self.lexer.seek(e);
                        },
                        Err(x) => {
                            proof {
                                lemma_statements_fail(s, p, x@);
                            }
                            return Err(x);
                        },
                    }
                },
            }
        }
    }

    /// The token that must come next from `p` on.
    fn expect_token(&self, p: usize) -> (r: Result<Token, CompileError>)
        requires
            self.wf(),
            p <= self.text().len(),
        ensures
            match r {
                Ok(t) => expect_any(self.text(), p as int) == Ok::<Span, ErrorModel>(span_of(t))
                    && p <= t.start < t.end <= self.text().len(),
                Err(e) => expect_any(self.text(), p as int) == Err::<Span, ErrorModel>(e@),
            },
    {
        proof {
            lemma_token_bounds(self.text(), p as int);
            self.lexer.lemma_bounds();
        }
        match self.lexer.scan(p) {
            Ok(Some(t)) => Ok(t),
            Ok(None) => Err(CompileError::UnexpectedEnd),
            Err(e) => Err(e),
        }
    }

    /// The token of kind `k` that must come next from `p` on.
    fn expect_token_kind(&self, p: usize, k: Kind) -> (r: Result<Token, CompileError>)
        requires
            self.wf(),
            p <= self.text().len(),
        ensures
            match r {
                Ok(t) => expect_kind(self.text(), p as int, k) == Ok::<Span, ErrorModel>(
                    span_of(t),
                ) && p <= t.start < t.end <= self.text().len(),
                Err(e) => expect_kind(self.text(), p as int, k) == Err::<Span, ErrorModel>(e@),
            },
    {
        match self.expect_token(p) {
            Ok(t) => if t.kind == k {
                Ok(t)
            } else {
                Err(CompileError::UnexpectedToken { expected: k, found: t.kind, position: t.start })
            },
            Err(e) => Err(e),
        }
    }

    fn term(&self, p: usize) -> (r: Result<(Term, usize), CompileError>)
        requires
            self.wf(),
            p <= self.text().len(),
        ensures
            match r {
                Ok((t, e)) => parse_term(self.text(), p as int) == Ok::<(TermModel, int), ErrorModel>(
                    (t@, e as int),
                ) && p < e <= self.text().len(),
                Err(x) => parse_term(self.text(), p as int) == Err::<(TermModel, int), ErrorModel>(
                    x@,
                ),
            },
    {
        let t = match self.expect_token(p) {
            Ok(t) => t,
            Err(e) => {
                return Err(e);
            },
        };
        if t.kind == Kind::Number {
            proof {
                lemma_number_digits(self.text(), p as int);
            }
            match self.lexer.number_at(t.start, t.end) {
                Some(v) => Ok((Term::Literal(Literal::U32(v)), t.end)),
                None => Err(CompileError::InvalidNumber { position: t.start }),
            }
        } else if t.kind == Kind::AliasSnakeCase {
            Ok((Term::Alias(self.lexer.text_of(t.start, t.end)), t.end))
        } else {
            Err(CompileError::UnexpectedInExpression { found: t.kind, position: t.start })
        }
    }

    fn expression(&self, p: usize) -> (r: Result<(Expression, usize), CompileError>)
        requires
            self.wf(),
            p <= self.text().len(),
        ensures
            match r {
                Ok((x, e)) => parse_expression(self.text(), p as int) == Ok::<
                    (ExpressionModel, int),
                    ErrorModel,
                >((x@, e as int)) && p < e <= self.text().len(),
                Err(x) => parse_expression(self.text(), p as int) == Err::<
                    (ExpressionModel, int),
                    ErrorModel,
                >(x@),
            },
        decreases self.text().len() - p,
    {
        let (t, q) = match self.term(p) {
            Ok(r) => r,
            Err(e) => {
                return Err(e);
            },
        };
        let n = match self.expect_token(q) {
            Ok(n) => n,
            Err(e) => {
                return Err(e);
            },
        };
        if n.kind == Kind::SemiColon {
            return Ok((Expression::Term(t), n.end));
        }
        let op = match n.kind {
            Kind::Add => ArithmeticOperator::Add,
            Kind::Sub => ArithmeticOperator::Sub,
            Kind::Mul => ArithmeticOperator::Mul,
            Kind::Div => ArithmeticOperator::Div,
            _ => {
                return Err(CompileError::UnexpectedInExpression { found: n.kind, position: n.start });
            },
        };
        match self.expression(n.end) {
            Ok((right, e)) => Ok(
                (Expression::BinaryOp(op, Box::new(Expression::Term(t)), Box::new(right)), e),
            ),
            Err(x) => Err(x),
        }
    }

    /// The statement whose first token is `t`.
    fn statement(&self, t: Token) -> (r: Result<(Statement, usize), CompileError>)
        requires
            self.wf(),
            t.start < t.end <= self.text().len(),
        ensures
            match r {
                Ok((st, e)) => parse_statement(self.text(), span_of(t)) == Ok::<
                    (StatementModel, int),
                    ErrorModel,
                >((st@, e as int)) && t.end < e <= self.text().len(),
                Err(x) => parse_statement(self.text(), span_of(t)) == Err::<
                    (StatementModel, int),
                    ErrorModel,
                >(x@),
            },
    {
        if t.kind == Kind::KeywordLet {
            self.assign(t.end)
        } else if t.kind == Kind::SystemCall {
            self.syscall(t.end)
        } else {
            Err(CompileError::UnexpectedStatement { found: t.kind, position: t.start })
        }
    }

    fn assign(&self, p: usize) -> (r: Result<(Statement, usize), CompileError>)
        requires
            self.wf(),
            p <= self.text().len(),
        ensures
            match r {
                Ok((st, e)) => parse_let(self.text(), p as int) == Ok::<(StatementModel, int), ErrorModel>(
                    (st@, e as int),
                ) && p < e <= self.text().len(),
                Err(x) => parse_let(self.text(), p as int) == Err::<(StatementModel, int), ErrorModel>(
                    x@,
                ),
            },
    {
        let a = match self.expect_token_kind(p, Kind::AliasSnakeCase) {
            Ok(a) => a,
            Err(e) => {
                return Err(e);
            },
        };
        let alias = self.lexer.text_of(a.start, a.end);
        let eq = match self.expect_token_kind(a.end, Kind::Assign) {
            Ok(eq) => eq,
            Err(e) => {
                return Err(e);
            },
        };
        match self.expression(eq.end) {
            Ok((right, e)) => Ok((Statement::Let(alias, right), e)),
            Err(x) => Err(x),
        }
    }

    fn syscall(&self, p: usize) -> (r: Result<(Statement, usize), CompileError>)
        requires
            self.wf(),
            p <= self.text().len(),
        ensures
            match r {
                Ok((st, e)) => parse_syscall(self.text(), p as int) == Ok::<
                    (StatementModel, int),
                    ErrorModel,
                >((st@, e as int)) && p < e <= self.text().len(),
                Err(x) => parse_syscall(self.text(), p as int) == Err::<
                    (StatementModel, int),
                    ErrorModel,
                >(x@),
            },
    {
        let n = match self.expect_token_kind(p, Kind::AliasSnakeCase) {
            Ok(n) => n,
            Err(e) => {
                return Err(e);
            },
        };
        if self.is_exit(n) {
            match self.expression(n.end) {
                Ok((e, end)) => Ok((Statement::SystemCall(SysCall::Exit(e)), end)),
                Err(x) => Err(x),
            }
        } else {
            Err(CompileError::UnknownSyscall { position: n.start })
        }
    }

    /// The text of `t` is `exit`.
    fn is_exit(&self, t: Token) -> (r: bool)
        requires
            self.wf(),
            t.start <= t.end <= self.text().len(),
        ensures
            r == (self.text().subrange(t.start as int, t.end as int) == seq!['e', 'x', 'i', 't']),
    {
        let ghost w = self.text().subrange(t.start as int, t.end as int);
        let ghost x = seq!['e', 'x', 'i', 't'];
        assert(x.len() == 4 && x[0] == 'e' && x[1] == 'x' && x[2] == 'i' && x[3] == 't');
        let a = t.start;
        if t.end - a == 4 && self.lexer.char_at(a) == 'e' && self.lexer.char_at(a + 1) == 'x'
            && self.lexer.char_at(a + 2) == 'i' && self.lexer.char_at(a + 3) == 't' {
            assert(w =~= x);
            true
        } else {
            proof {
                if w == x {
                    assert(w[0] == self.text()[a as int]);
                    assert(w[1] == self.text()[a + 1]);
                    assert(w[2] == self.text()[a + 2]);
                    assert(w[3] == self.text()[a + 3]);
                }
            }
            false
        }
    }
}

} // verus!
