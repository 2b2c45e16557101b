//! Instructions of the target machine and their textual form.
use vstd::prelude::*;
use vstd::string::StringExecFns;

verus! {

#[derive(Debug)]
pub enum Instructions {
    Push(String),
    Pop(String),
    Mov(String, u32),
    Add(String, String),
    /// The exit system call: its argument is popped into `rdi`.
    Syscall,
}

#[derive(Clone, Copy, Debug, PartialEq, Eq, Structural)]
pub enum Registers {
    Rsp,
    Rax,
    Rbx,
    Rdi,
}

/// Model of an instruction: operands are seen as their characters.
pub enum InstructionModel {
    Push(Seq<char>),
    Pop(Seq<char>),
    Mov(Seq<char>, u32),
    Add(Seq<char>, Seq<char>),
    Syscall,
}

impl View for Instructions {
    type V = InstructionModel;

    open spec fn view(&self) -> InstructionModel {
        match self {
            Instructions::Push(r) => InstructionModel::Push(r@),
            Instructions::Pop(r) => InstructionModel::Pop(r@),
            Instructions::Mov(r, v) => InstructionModel::Mov(r@, *v),
            Instructions::Add(l, r) => InstructionModel::Add(l@, r@),
            Instructions::Syscall => InstructionModel::Syscall,
        }
    }
}

/// The models of a list of instructions.
pub open spec fn instructions_model(v: Seq<Instructions>) -> Seq<InstructionModel> {
    v.map_values(|i: Instructions| i@)
}

impl Registers {
    /// The register's name in assembly text.
    pub open spec fn spec_name(self) -> Seq<char> {
        match self {
            Registers::Rsp => "rsp"@,
            Registers::Rax => "rax"@,
            Registers::Rbx => "rbx"@,
            Registers::Rdi => "rdi"@,
        }
    }

    pub fn name(&self) -> (r: &'static str)
        ensures
            r@ == self.spec_name(),
    {
        match self {
            Registers::Rsp => "rsp",
            Registers::Rax => "rax",
            Registers::Rbx => "rbx",
            Registers::Rdi => "rdi",
        }
    }

    pub fn to_string(&self) -> (r: String)
        ensures
            r@ == self.spec_name(),
    {
        String::from_str(self.name())
    }
}

/// The character of a decimal digit.
pub open spec fn digit_char(d: nat) -> char
    recommends
        d < 10,
{
    seq!['0', '1', '2', '3', '4', '5', '6', '7', '8', '9'][d as int]
}

/// The decimal numeral of `n`, without leading zeros.
pub open spec fn decimal(n: nat) -> Seq<char>
    decreases n,
{
    if n < 10 {
        seq![digit_char(n)]
    } else {
        decimal(n / 10) + seq![digit_char(n % 10)]
    }
}

fn digit_str(d: u64) -> (r: &'static str)
    requires
        d < 10,
    ensures
        r@ == seq![digit_char(d as nat)],
{
    proof {
        reveal_strlit("0");
        reveal_strlit("1");
        reveal_strlit("2");
        reveal_strlit("3");
        reveal_strlit("4");
        reveal_strlit("5");
        reveal_strlit("6");
        reveal_strlit("7");
        reveal_strlit("8");
        reveal_strlit("9");
    }
    let r = match d {
        0 => "0",
        1 => "1",
        2 => "2",
        3 => "3",
        4 => "4",
        5 => "5",
        6 => "6",
        7 => "7",
        8 => "8",
        _ => "9",
    };
    assert(r@ =~= seq![digit_char(d as nat)]);
    r
}

/// Appends the decimal numeral of `n` to `out`.
pub fn append_decimal(out: &mut String, n: u64)
    ensures
        final(out)@ == old(out)@ + decimal(n as nat),
    decreases n,
{
    if n >= 10 {
        append_decimal(out, n / 10);
    }
    out.append(digit_str(n % 10));
    assert(final(out)@ =~= old(out)@ + decimal(n as nat));
}

/// The text of one instruction.
pub open spec fn render(i: InstructionModel) -> Seq<char> {
    match i {
        InstructionModel::Push(op) => "\tpush "@ + op + "\n"@,
        InstructionModel::Pop(op) => "\tpop "@ + op + "\n"@,
        InstructionModel::Mov(r, v) => "\tmov "@ + r + ", "@ + decimal(v as nat) + "\n"@,
        InstructionModel::Add(l, r) => "\tadd "@ + l + ", "@ + r + "\n"@,
        InstructionModel::Syscall => "\tsyscall\n"@,
    }
}

} // verus!
