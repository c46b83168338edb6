//! The command vocabulary that lowering produces and rendering consumes.

use vstd::prelude::*;

verus! {

/// A named storage slot of the emitted program.
#[derive(Clone, Copy, Debug, PartialEq, Eq, Structural)]
pub enum Var {
    Zero,
    Pointer,
    Tape,
    Temp,
    Buffer,
}

pub open spec fn var_text(v: Var) -> Seq<char> {
    match v {
        Var::Zero => "Zero"@,
        Var::Pointer => "Pointer"@,
        Var::Tape => "Tape"@,
        Var::Temp => "Temp"@,
        Var::Buffer => "Buffer"@,
    }
}

impl Var {
    /// The identifier of this slot in the emitted program.
    pub fn name(&self) -> (r: &'static str)
        ensures
            r@ == var_text(*self),
    {
        match self {
            Var::Zero => "Zero",
            Var::Pointer => "Pointer",
            Var::Tape => "Tape",
            Var::Temp => "Temp",
            Var::Buffer => "Buffer",
        }
    }
}


/// A constant of the emitted program.
#[derive(Clone, Copy, Debug, PartialEq, Eq, Structural)]
pub enum Literal {
    Char(char),
    Int(u8),
    EmptyArray,
}

/// A right-hand side, a condition or a returned value.
#[derive(Clone, Copy, Debug, PartialEq, Eq, Structural)]
pub enum Expr {
    Inc(Var),
    Dec(Var),
    ArrayAccess(Var, Var),
    IsEqualLiteral(Var, Literal),
    IsEqualVar(Var, Var),
    IsNotEqualLiteral(Var, Literal),
    Literal(Literal),
}

/// A library routine of the emitted program, with its arguments.
#[derive(Clone, Copy, Debug, PartialEq, Eq, Structural)]
pub enum Function {
    ArrayReplace(Var, Var, Var),
    ArrayPush(Var, Var, Var),
    ArrayPop(Var, Var),
    ArrayLength(Var),
    CharToInt(Var),
    IntToChar(Var),
    PutChar(Var),
    ReadLine,
}

/// One entry of the command list.
#[derive(Clone, Copy, Debug, PartialEq, Eq, Structural)]
pub enum Cmd {
    DeclareVar(Var),
    DeclareFn(Function),
    Return(Expr),
    DeclareChorus,
    Assign(Var, Expr),
    Call(Function, Var),
    CallNoReturn(Function),
    StartCond(Expr),
    EndIf,
    EndWhile,
}

/// The character that stands for the digit `d`.
pub open spec fn digit_char(d: nat) -> char {
    seq!['0', '1', '2', '3', '4', '5', '6', '7', '8', '9'][d as int]
}

/// The decimal digits of `n`, most significant first, without leading zeros.
pub open spec fn decimal(n: nat) -> Seq<char>
    decreases n,
{
    if n < 10 {
        seq![digit_char(n)]
    } else {
        decimal(n / 10).push(digit_char(n % 10))
    }
}

/// How a literal is written: bytes in decimal, characters quoted, with
/// newline, quote and backslash escaped.
pub open spec fn literal_text(l: Literal) -> Seq<char> {
    match l {
        Literal::Int(i) => decimal(i as nat),
        Literal::Char(c) => if c == '\n' {
            "'\\n'"@
        } else if c == '\'' {
            "'\\''"@
        } else if c == '\\' {
            "'\\\\'"@
        } else {
            "'"@ + seq![c] + "'"@
        },
        Literal::EmptyArray => "ARRAY"@,
    }
}

pub open spec fn expr_text(e: Expr) -> Seq<char> {
    match e {
        Expr::Inc(v) => var_text(v) + " + 1"@,
        Expr::Dec(v) => var_text(v) + " - 1"@,
        Expr::ArrayAccess(a, i) => var_text(a) + " : "@ + var_text(i),
        Expr::IsEqualLiteral(v, l) => var_text(v) + " == "@ + literal_text(l),
        Expr::IsEqualVar(v, w) => var_text(v) + " == "@ + var_text(w),
        Expr::IsNotEqualLiteral(v, l) => var_text(v) + " != "@ + literal_text(l),
        Expr::Literal(l) => literal_text(l),
    }
}

pub open spec fn function_name(f: Function) -> Seq<char> {
    match f {
        Function::ArrayReplace(_, _, _) => "ArrayReplace"@,
        Function::ArrayPush(_, _, _) => "ArrayPush"@,
        Function::ArrayPop(_, _) => "ArrayPop"@,
        Function::ArrayLength(_) => "ArrayLength"@,
        Function::CharToInt(_) => "CharToInt"@,
        Function::IntToChar(_) => "IntToChar"@,
        Function::PutChar(_) => "PutChar"@,
        Function::ReadLine => "ReadLine"@,
    }
}

pub open spec fn function_args(f: Function) -> Seq<char> {
    match f {
        Function::ArrayReplace(a, b, c) => var_text(a) + ", "@ + var_text(b) + ", "@ + var_text(c),
        Function::ArrayPush(a, b, c) => var_text(a) + ", "@ + var_text(b) + ", "@ + var_text(c),
        Function::ArrayPop(a, b) => var_text(a) + ", "@ + var_text(b),
        Function::ArrayLength(v) => var_text(v),
        Function::CharToInt(v) => var_text(v),
        Function::IntToChar(v) => var_text(v),
        Function::PutChar(v) => var_text(v),
        Function::ReadLine => "you"@,
    }
}

/// The first (for most commands the only) line of a command, without
/// indentation or newline.
pub open spec fn cmd_line(c: Cmd) -> Seq<char> {
    match c {
        Cmd::DeclareVar(v) => "Never gonna let "@ + var_text(v) + " down"@,
        Cmd::DeclareFn(f) => "[Verse "@ + function_name(f) + "]"@,
        Cmd::Return(e) => "(Ooh) Never gonna give, never gonna give (give you "@ + expr_text(e)
            + ")"@,
        Cmd::DeclareChorus => "[Chorus]"@,
        Cmd::Assign(v, e) => "Never gonna give "@ + var_text(v) + " "@ + expr_text(e),
        Cmd::Call(f, v) => "(Ooh give you "@ + var_text(v) + ") "@ + "Never gonna run "@
            + function_name(f) + " and desert "@ + function_args(f),
        Cmd::CallNoReturn(f) => "Never gonna run "@ + function_name(f) + " and desert "@
            + function_args(f),
        Cmd::StartCond(e) => "Inside we both know "@ + expr_text(e),
        Cmd::EndIf => "Your heart's been aching but you're too shy to say it"@,
        Cmd::EndWhile => "We know the game and we're gonna play it"@,
    }
}

/// The parameter line that follows a routine header.
pub open spec fn params_line(f: Function) -> Seq<char> {
    "(Ooh give you "@ + function_args(f) + ")"@
}

/// The text of a command, before indentation: its line and a newline, and for
/// a routine header the parameter line too, which is never indented.
pub open spec fn cmd_text(c: Cmd) -> Seq<char> {
    match c {
        Cmd::DeclareFn(f) => cmd_line(c) + "\n"@ + params_line(f) + "\n"@,
        _ => cmd_line(c) + "\n"@,
    }
}

/// Relies on String::push: the character is appended at the end.
#[verifier::external_body]
pub(crate) fn push_char(out: &mut String, c: char)
    ensures
        final(out)@ == old(out)@.push(c),
{
    out.push(c)
}

fn digit(d: usize) -> (c: char)
    requires
        d < 10,
    ensures
        c == digit_char(d as nat),
{
    match d {
        0 => '0',
        1 => '1',
        2 => '2',
        3 => '3',
        4 => '4',
        5 => '5',
        6 => '6',
        7 => '7',
        8 => '8',
        _ => '9',
    }
}

/// Appends the decimal digits of `n`.
pub fn push_decimal(out: &mut String, n: usize)
    ensures
        final(out)@ == old(out)@ + decimal(n as nat),
    decreases n,
{
    if n >= 10 {
        push_decimal(out, n / 10);
    }
    push_char(out, digit(n % 10));
    assert(final(out)@ =~= old(out)@ + decimal(n as nat));
}

impl Literal {
    /// Appends this literal as the emitted program writes it.
    pub fn render_into(&self, out: &mut String)
        ensures
            final(out)@ == old(out)@ + literal_text(*self),
    {
        match self {
            Literal::Int(i) => push_decimal(out, *i as usize),
            Literal::Char(c) => {
                if *c == '\n' {
                    out.append("'\\n'");
                } else if *c == '\'' {
                    out.append("'\\''");
                } else if *c == '\\' {
                    out.append("'\\\\'");
                } else {
                    out.append("'");
                    push_char(out, *c);
                    out.append("'");
                }
            },
            Literal::EmptyArray => out.append("ARRAY"),
        }
        assert(final(out)@ =~= old(out)@ + literal_text(*self));
    }
}


impl Expr {
    /// Appends this expression as the emitted program writes it.
    pub fn render_into(&self, out: &mut String)
        ensures
            final(out)@ == old(out)@ + expr_text(*self),
    {
        match self {
            Expr::Inc(v) => {
                out.append(v.name());
                out.append(" + 1");
            },
            Expr::Dec(v) => {
                out.append(v.name());
                out.append(" - 1");
            },
            Expr::ArrayAccess(a, i) => {
                out.append(a.name());
                out.append(" : ");
                out.append(i.name());
            },
            Expr::IsEqualLiteral(v, l) => {
                out.append(v.name());
                out.append(" == ");
                l.render_into(out);
            },
            Expr::IsEqualVar(v, w) => {
                out.append(v.name());
                out.append(" == ");
                out.append(w.name());
            },
            Expr::IsNotEqualLiteral(v, l) => {
                out.append(v.name());
                out.append(" != ");
                l.render_into(out);
            },
            Expr::Literal(l) => l.render_into(out),
        }
        assert(final(out)@ =~= old(out)@ + expr_text(*self));
    }
}

impl Function {
    /// The routine's name in the emitted program.
    pub fn name(&self) -> (r: &'static str)
        ensures
            r@ == function_name(*self),
    {
        match self {
            Function::ArrayReplace(_, _, _) => "ArrayReplace",
            Function::ArrayPush(_, _, _) => "ArrayPush",
            Function::ArrayPop(_, _) => "ArrayPop",
            Function::ArrayLength(_) => "ArrayLength",
            Function::CharToInt(_) => "CharToInt",
            Function::IntToChar(_) => "IntToChar",
            Function::PutChar(_) => "PutChar",
            Function::ReadLine => "ReadLine",
        }
    }

    /// The routine's argument list, comma separated.
    pub fn args(&self) -> (r: String)
        ensures
            r@ == function_args(*self),
    {
        let mut out = String::new();
        match self {
            Function::ArrayReplace(a, b, c) | Function::ArrayPush(a, b, c) => {
                out.append(a.name());
                out.append(", ");
                out.append(b.name());
                out.append(", ");
                out.append(c.name());
            },
            Function::ArrayPop(a, b) => {
                out.append(a.name());
                out.append(", ");
                out.append(b.name());
            },
            Function::ArrayLength(v) | Function::CharToInt(v) | Function::IntToChar(v)
            | Function::PutChar(v) => out.append(v.name()),
            Function::ReadLine => out.append("you"),
        }
        assert(out@ =~= function_args(*self));
        out
    }
}

impl Cmd {
    /// Appends the line or lines of this command, without indentation.
    pub fn render_into(&self, out: &mut String)
        ensures
            final(out)@ == old(out)@ + cmd_text(*self),
    {
        match self {
            Cmd::DeclareVar(v) => {
                out.append("Never gonna let ");
                out.append(v.name());
                out.append(" down");
            },
            Cmd::DeclareFn(f) => {
                out.append("[Verse ");
                out.append(f.name());
                out.append("]");
            },
            Cmd::Return(e) => {
                out.append("(Ooh) Never gonna give, never gonna give (give you ");
                e.render_into(out);
                out.append(")");
            },
            Cmd::DeclareChorus => out.append("[Chorus]"),
            Cmd::Assign(v, e) => {
                out.append("Never gonna give ");
                out.append(v.name());
                out.append(" ");
                e.render_into(out);
            },
            Cmd::Call(f, v) => {
                out.append("(Ooh give you ");
                out.append(v.name());
                out.append(") ");
                out.append("Never gonna run ");
                out.append(f.name());
                out.append(" and desert ");
                out.append(f.args().as_str());
            },
            Cmd::CallNoReturn(f) => {
                out.append("Never gonna run ");
                out.append(f.name());
                out.append(" and desert ");
                out.append(f.args().as_str());
            },
            Cmd::StartCond(e) => {
                out.append("Inside we both know ");
                e.render_into(out);
            },
            Cmd::EndIf => out.append("Your heart's been aching but you're too shy to say it"),
            Cmd::EndWhile => out.append("We know the game and we're gonna play it"),
        }
        if let Cmd::DeclareFn(f) = self {
            out.append("\n");
            out.append("(Ooh give you ");
            out.append(f.args().as_str());
            out.append(")");
        }
        out.append("\n");
        assert(final(out)@ =~= old(out)@ + cmd_text(*self));
    }
}

} // verus!
