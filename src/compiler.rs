//! Lowering of tape-language source into commands, and rendering of the
//! commands into Rickroll text.

use vstd::prelude::*;
use crate::ir::{Cmd, Expr, Function, Literal, Var, cmd_text, decimal, push_decimal};

verus! {

/// Number of entries in each lookup routine: newline, then space through tilde.
pub const TABLE_SIZE: usize = 96;

/// The byte of entry `i` of the lookup routines.
pub open spec fn table_byte(i: int) -> u8 {
    if i == 0 {
        10u8
    } else {
        (i + 31) as u8
    }
}

/// One entry of a lookup routine: the test on the input, the value returned,
/// and the end of the test. `to_int` picks the character-to-byte routine.
pub open spec fn table_entry(to_int: bool, i: int) -> Seq<Cmd> {
    let b = table_byte(i);
    if to_int {
        seq![
            Cmd::StartCond(Expr::IsEqualLiteral(Var::Temp, Literal::Char(b as char))),
            Cmd::Return(Expr::Literal(Literal::Int(b))),
            Cmd::EndIf,
        ]
    } else {
        seq![
            Cmd::StartCond(Expr::IsEqualLiteral(Var::Temp, Literal::Int(b))),
            Cmd::Return(Expr::Literal(Literal::Char(b as char))),
            Cmd::EndIf,
        ]
    }
}

/// Entries `lo` up to `hi` (exclusive) of a lookup routine, in order.
pub open spec fn table_entries(to_int: bool, lo: int, hi: int) -> Seq<Cmd>
    decreases hi - lo,
{
    if lo >= hi {
        seq![]
    } else {
        table_entry(to_int, lo) + table_entries(to_int, lo + 1, hi)
    }
}

/// The routine that maps a character to its byte, with the sentinel `$` for
/// any other input.
pub open spec fn char_to_int_routine() -> Seq<Cmd> {
    seq![Cmd::DeclareFn(Function::CharToInt(Var::Temp))] + table_entries(true, 0, TABLE_SIZE as int)
        + seq![Cmd::Return(Expr::Literal(Literal::Char('$')))]
}

/// The routine that maps a byte to its character, with the byte 0 for any
/// other input.
pub open spec fn int_to_char_routine() -> Seq<Cmd> {
    seq![Cmd::DeclareFn(Function::IntToChar(Var::Temp))] + table_entries(false, 0, TABLE_SIZE as int)
        + seq![Cmd::Return(Expr::Literal(Literal::Int(0)))]
}

/// Declarations and initial values: a one-cell tape, pointer and scratch at 0.
pub open spec fn init_cmds() -> Seq<Cmd> {
    seq![
        Cmd::DeclareVar(Var::Zero),
        Cmd::DeclareVar(Var::Tape),
        Cmd::DeclareVar(Var::Temp),
        Cmd::DeclareVar(Var::Buffer),
        Cmd::DeclareVar(Var::Pointer),
        Cmd::Assign(Var::Zero, Expr::Literal(Literal::Int(0))),
        Cmd::Assign(Var::Tape, Expr::Literal(Literal::EmptyArray)),
        Cmd::Call(Function::ArrayPush(Var::Tape, Var::Zero, Var::Zero), Var::Tape),
        Cmd::Assign(Var::Temp, Expr::Literal(Literal::Int(0))),
        Cmd::Assign(Var::Buffer, Expr::Literal(Literal::EmptyArray)),
        Cmd::Assign(Var::Pointer, Expr::Literal(Literal::Int(0))),
    ]
}

/// What precedes the translated source: the byte-to-character routine, then
/// the character-to-byte one, the main block marker and the initialisation.
pub open spec fn preamble() -> Seq<Cmd> {
    int_to_char_routine() + char_to_int_routine() + seq![Cmd::DeclareChorus] + init_cmds()
}

/// The commands for one source character; other characters give none.
pub open spec fn lower_char(c: char) -> Seq<Cmd> {
    if c == '>' {
        seq![
            Cmd::Assign(Var::Pointer, Expr::Inc(Var::Pointer)),
            Cmd::Call(Function::ArrayLength(Var::Tape), Var::Temp),
            Cmd::StartCond(Expr::IsEqualVar(Var::Pointer, Var::Temp)),
            Cmd::Call(Function::ArrayPush(Var::Tape, Var::Temp, Var::Zero), Var::Tape),
            Cmd::EndIf,
        ]
    } else if c == '<' {
        seq![Cmd::Assign(Var::Pointer, Expr::Dec(Var::Pointer))]
    } else if c == '+' {
        seq![
            Cmd::Assign(Var::Temp, Expr::ArrayAccess(Var::Tape, Var::Pointer)),
            Cmd::Assign(Var::Temp, Expr::Inc(Var::Temp)),
            Cmd::Call(Function::ArrayReplace(Var::Tape, Var::Pointer, Var::Temp), Var::Tape),
        ]
    } else if c == '-' {
        seq![
            Cmd::Assign(Var::Temp, Expr::ArrayAccess(Var::Tape, Var::Pointer)),
            Cmd::Assign(Var::Temp, Expr::Dec(Var::Temp)),
            Cmd::Call(Function::ArrayReplace(Var::Tape, Var::Pointer, Var::Temp), Var::Tape),
        ]
    } else if c == '.' {
        seq![
            Cmd::Assign(Var::Temp, Expr::ArrayAccess(Var::Tape, Var::Pointer)),
            Cmd::Call(Function::IntToChar(Var::Temp), Var::Temp),
            Cmd::CallNoReturn(Function::PutChar(Var::Temp)),
        ]
    } else if c == ',' {
        seq![
            Cmd::Call(Function::ArrayLength(Var::Buffer), Var::Temp),
            Cmd::StartCond(Expr::IsEqualLiteral(Var::Temp, Literal::Int(0))),
            Cmd::Call(Function::ReadLine, Var::Buffer),
            Cmd::EndIf,
            Cmd::Assign(Var::Temp, Expr::ArrayAccess(Var::Buffer, Var::Zero)),
            Cmd::Call(Function::ArrayPop(Var::Buffer, Var::Zero), Var::Buffer),
            Cmd::Call(Function::CharToInt(Var::Temp), Var::Temp),
            Cmd::Call(Function::ArrayReplace(Var::Tape, Var::Pointer, Var::Temp), Var::Tape),
        ]
    } else if c == '[' {
        seq![
            Cmd::Assign(Var::Temp, Expr::ArrayAccess(Var::Tape, Var::Pointer)),
            Cmd::StartCond(Expr::IsNotEqualLiteral(Var::Temp, Literal::Int(0))),
        ]
    } else if c == ']' {
        seq![Cmd::EndWhile]
    } else {
        seq![]
    }
}

/// The commands for a whole source text, character after character.
pub open spec fn lower_body(s: Seq<char>) -> Seq<Cmd>
    decreases s.len(),
{
    if s.len() == 0 {
        seq![]
    } else {
        lower_body(s.drop_last()) + lower_char(s.last())
    }
}

/// The command list of a source text.
pub open spec fn lower(s: Seq<char>) -> Seq<Cmd> {
    preamble() + lower_body(s)
}

pub proof fn lemma_table_entries_extend(to_int: bool, lo: int, hi: int)
    requires
        lo <= hi,
    ensures
        table_entries(to_int, lo, hi + 1) == table_entries(to_int, lo, hi) + table_entry(
            to_int,
            hi,
        ),
    decreases hi - lo,
{
    if lo < hi {
        lemma_table_entries_extend(to_int, lo + 1, hi);
        assert(table_entries(to_int, lo, hi + 1) =~= table_entries(to_int, lo, hi) + table_entry(
            to_int,
            hi,
        ));
    } else {
        assert(table_entries(to_int, lo + 1, hi + 1) == Seq::<Cmd>::empty());
        assert(table_entries(to_int, lo, hi + 1) =~= table_entries(to_int, lo, hi) + table_entry(
            to_int,
            hi,
        ));
    }
}

/// Whether a command closes a block.
pub open spec fn closes(c: Cmd) -> bool {
    c is EndIf || c is EndWhile
}

/// The nesting depth after one command, from `d`; `None` once a block was
/// closed with none open.
pub open spec fn depth_step(d: Option<nat>, c: Cmd) -> Option<nat> {
    match d {
        None => None,
        Some(n) => if closes(c) {
            if n == 0 {
                None
            } else {
                Some((n - 1) as nat)
            }
        } else if c is StartCond {
            Some(n + 1)
        } else {
            Some(n)
        },
    }
}

/// The nesting depth after a list of commands, from `start`.
pub open spec fn depth_after(start: Option<nat>, cmds: Seq<Cmd>) -> Option<nat>
    decreases cmds.len(),
{
    if cmds.len() == 0 {
        start
    } else {
        depth_step(depth_after(start, cmds.drop_last()), cmds.last())
    }
}

/// The nesting depth after a list of commands, from the outermost level.
pub open spec fn nesting(cmds: Seq<Cmd>) -> Option<nat> {
    depth_after(Some(0), cmds)
}

/// The depth at which a command's own line stands, after `d`: a closing
/// command stands at the level it returns to.
pub open spec fn line_depth(d: Option<nat>, c: Cmd) -> nat {
    match d {
        Some(n) => if closes(c) && n > 0 {
            (n - 1) as nat
        } else {
            n
        },
        None => 0,
    }
}

/// Whether the main block marker occurs in the list.
pub open spec fn main_begun(cmds: Seq<Cmd>) -> bool
    decreases cmds.len(),
{
    cmds.len() > 0 && (cmds.last() is DeclareChorus || main_begun(cmds.drop_last()))
}

pub open spec fn spaces(n: nat) -> Seq<char> {
    Seq::new(n, |i: int| ' ')
}

/// Leading spaces of a line at depth `d`; a width below zero indents nothing.
pub open spec fn indent_width(d: nat, indent: int) -> nat {
    if indent > 0 {
        (d * indent) as nat
    } else {
        0
    }
}

/// The comment line that trace mode puts before the command at index `ln`.
pub open spec fn trace_line(pad: Seq<char>, ln: nat) -> Seq<char> {
    pad + "Never gonna say "@ + decimal(ln) + "\n"@
}

/// The text for command `c`, which follows the commands `prefix`.
pub open spec fn cmd_lines(prefix: Seq<Cmd>, c: Cmd, indent: int, trace: bool) -> Seq<char> {
    let pad = spaces(indent_width(line_depth(nesting(prefix), c), indent));
    (if trace && main_begun(prefix) {
        trace_line(pad, prefix.len())
    } else {
        seq![]
    }) + pad + cmd_text(c)
}

/// The text of a command list, command after command.
pub open spec fn rendered(cmds: Seq<Cmd>, indent: int, trace: bool) -> Seq<char>
    decreases cmds.len(),
{
    if cmds.len() == 0 {
        seq![]
    } else {
        rendered(cmds.drop_last(), indent, trace) + cmd_lines(
            cmds.drop_last(),
            cmds.last(),
            indent,
            trace,
        )
    }
}

/// The text of a command list, or `None` where its blocks do not nest.
pub open spec fn render(cmds: Seq<Cmd>, indent: int, trace: bool) -> Option<Seq<char>> {
    if nesting(cmds) == Some(0nat) {
        Some(rendered(cmds, indent, trace))
    } else {
        None
    }
}

pub proof fn lemma_depth_after_concat(start: Option<nat>, a: Seq<Cmd>, b: Seq<Cmd>)
    ensures
        depth_after(start, a + b) == depth_after(depth_after(start, a), b),
    decreases b.len(),
{
    if b.len() == 0 {
        assert(a + b =~= a);
    } else {
        assert((a + b).drop_last() =~= a + b.drop_last());
        lemma_depth_after_concat(start, a, b.drop_last());
    }
}

pub proof fn lemma_depth_after_failed(cmds: Seq<Cmd>)
    ensures
        depth_after(None, cmds) == None::<nat>,
    decreases cmds.len(),
{
    if cmds.len() > 0 {
        lemma_depth_after_failed(cmds.drop_last());
    }
}

proof fn lemma_render_step(cmds: Seq<Cmd>, k: int, indent: int, trace: bool)
    requires
        0 <= k < cmds.len(),
    ensures
        cmds.take(k + 1).drop_last() == cmds.take(k),
        nesting(cmds.take(k + 1)) == depth_step(nesting(cmds.take(k)), cmds[k]),
        main_begun(cmds.take(k + 1)) == (cmds[k] is DeclareChorus || main_begun(cmds.take(k))),
        rendered(cmds.take(k + 1), indent, trace) == rendered(cmds.take(k), indent, trace)
            + cmd_lines(cmds.take(k), cmds[k], indent, trace),
{
    assert(cmds.take(k + 1).drop_last() =~= cmds.take(k));
}

/// The depth as a number, 0 once a block was closed with none open.
pub open spec fn depth_value(d: Option<nat>) -> nat {
    match d {
        Some(n) => n,
        None => 0,
    }
}

/// The deepest nesting reached after any prefix of `cmds`, from `start`.
pub open spec fn max_depth_from(start: Option<nat>, cmds: Seq<Cmd>) -> nat
    decreases cmds.len(),
{
    if cmds.len() == 0 {
        depth_value(start)
    } else {
        let before = max_depth_from(start, cmds.drop_last());
        let here = depth_value(depth_after(start, cmds));
        if here > before {
            here
        } else {
            before
        }
    }
}

/// The deepest nesting reached anywhere in a command list.
pub open spec fn max_nesting(cmds: Seq<Cmd>) -> nat {
    max_depth_from(Some(0), cmds)
}

proof fn lemma_max_nesting_prefix(cmds: Seq<Cmd>, k: int)
    requires
        0 <= k <= cmds.len(),
    ensures
        max_nesting(cmds.take(k)) <= max_nesting(cmds),
        depth_value(nesting(cmds.take(k))) <= max_nesting(cmds),
    decreases cmds.len(),
{
    if k == cmds.len() {
        assert(cmds.take(k) =~= cmds);
    } else {
        assert(cmds.drop_last().take(k) =~= cmds.take(k));
        lemma_max_nesting_prefix(cmds.drop_last(), k);
    }
}

/// Errors of rendering.
#[derive(Debug)]
pub enum CompilerError {
    /// Building the text failed; writing to a `String` never does.
    FormatError,
    /// A block was closed with none open, or left open at the end.
    UnbalancedBrackets,
}

/// Appends `n` spaces.
fn push_spaces(out: &mut String, n: i64)
    requires
        n >= 0,
    ensures
        final(out)@ == old(out)@ + spaces(n as nat),
{
    let ghost start = out@;
    let mut i: i64 = 0;
    while i < n
        invariant
            0 <= i <= n,
            out@ == start + spaces(i as nat),
        decreases n - i,
    {
        out.append(" ");
        proof {
            reveal_strlit(" ");
        }
        assert(out@ =~= start + spaces((i + 1) as nat));
        i += 1;
    }
}

/// Appends a command's text at `width` spaces, after its numbered comment line
/// where `comment` holds.
fn push_lines(out: &mut String, cmd: &Cmd, width: i64, comment: bool, ln: usize)
    requires
        width >= 0,
    ensures
        final(out)@ == old(out)@ + (if comment {
            trace_line(spaces(width as nat), ln as nat)
        } else {
            seq![]
        }) + spaces(width as nat) + cmd_text(*cmd),
{
    if comment {
        push_spaces(out, width);
        out.append("Never gonna say ");
        push_decimal(out, ln);
        out.append("\n");
    }
    push_spaces(out, width);
    cmd.render_into(out);
    assert(final(out)@ =~= old(out)@ + (if comment {
        trace_line(spaces(width as nat), ln as nat)
    } else {
        seq![]
    }) + spaces(width as nat) + cmd_text(*cmd));
}

/// A lowered program, ready to be rendered.
pub struct Compiler {
    cmds: Vec<Cmd>,
}

impl View for Compiler {
    type V = Seq<Cmd>;

    closed spec fn view(&self) -> Seq<Cmd> {
        self.cmds@
    }
}

impl Compiler {
    /// Lowers a source text: the preamble, then each recognised character's
    /// commands in source order.
    pub fn read(program: &str) -> (c: Compiler)
        ensures
            c@ == lower(program@),
    {
        let mut compiler = Compiler { cmds: Vec::new() };
        compiler.define_int_to_char();
        compiler.define_char_to_int();
        compiler.declare_chorus();
        compiler.init_vars();
        assert(compiler@ =~= preamble());
        let n = program.unicode_len();
        let mut i: usize = 0;
        while i < n
            invariant
                i <= n,
                n == program@.len(),
                compiler@ == lower(program@.take(i as int)),
            decreases n - i,
        {
            let c = program.get_char(i);
            match c {
                '>' => compiler.inc_pointer(),
                '<' => compiler.dec_pointer(),
                '+' => compiler.inc_data(),
                '-' => compiler.dec_data(),
                '.' => compiler.output_byte(),
                ',' => compiler.read_byte(),
                '[' => compiler.cond_jump(),
                ']' => compiler.cond_jump_end(),
                _ => {},
            }
            assert(program@.take(i + 1).drop_last() =~= program@.take(i as int));
            assert(compiler@ =~= lower(program@.take(i + 1)));
            i += 1;
        }
        assert(program@.take(n as int) =~= program@);
        compiler
    }

    /// The number of commands.
    pub fn len(&self) -> (n: usize)
        ensures
            n == self@.len(),
    {
        self.cmds.len()
    }

    /// The deepest nesting of blocks in the command list: a width `w` can be
    /// rendered when this times `w` fits in an `i64`.
    pub fn max_depth(&self) -> (r: usize)
        ensures
            r == max_nesting(self@),
    {
        let mut level: usize = 0;
        let mut failed = false;
        let mut best: usize = 0;
        let mut i: usize = 0;
        while i < self.cmds.len()
            invariant
                i <= self@.len(),
                level <= i,
                best <= i,
                nesting(self@.take(i as int)) == if failed {
                    None
                } else {
                    Some(level as nat)
                },
                best == max_nesting(self@.take(i as int)),
            decreases self@.len() - i,
        {
            proof {
                lemma_render_step(self@, i as int, 0, false);
            }
            let cmd = self.cmds[i];
            if !failed {
                if matches!(cmd, Cmd::EndIf | Cmd::EndWhile) {
                    if level == 0 {
                        failed = true;
                    } else {
                        level -= 1;
                    }
                } else if matches!(cmd, Cmd::StartCond(_)) {
                    level += 1;
                }
            }
            let here: usize = if failed {
                0
            } else {
                level
            };
            if here > best {
                best = here;
            }
            i += 1;
        }
        assert(self@.take(i as int) =~= self@);
        best
    }

    /// Renders the command list: each command's line indented by `indent`
    /// spaces per open block, with a numbered comment line before each command
    /// of the main block in trace mode. Fails where blocks do not nest.
    #[verifier::rlimit(30)]
    pub fn output(&self, indent: i64, trace: bool) -> (r: Result<String, CompilerError>)
        requires
            indent <= 0 || max_nesting(self@) * indent <= i64::MAX,
        ensures
            match r {
                Ok(s) => render(self@, indent as int, trace) == Some(s@),
                Err(e) => render(self@, indent as int, trace) is None && e is UnbalancedBrackets,
            },
    {
        let mut res = String::new();
        let mut level: usize = 0;
        let mut in_chorus = false;
        let mut ln: usize = 0;
        while ln < self.cmds.len()
            invariant
                ln <= self@.len(),
                indent <= 0 || max_nesting(self@) * indent <= i64::MAX,
                0 <= level <= ln,
                nesting(self@.take(ln as int)) == Some(level as nat),
                in_chorus == main_begun(self@.take(ln as int)),
                res@ == rendered(self@.take(ln as int), indent as int, trace),
            decreases self@.len() - ln,
        {
            let cmd = self.cmds[ln];
            let ghost prefix = self@.take(ln as int);
            proof {
                lemma_render_step(self@, ln as int, indent as int, trace);
                lemma_max_nesting_prefix(self@, ln as int);
            }
            if matches!(cmd, Cmd::EndIf | Cmd::EndWhile) {
                if level == 0 {
                    proof {
                        assert(self@ =~= self@.take(ln + 1) + self@.skip(ln + 1));
                        lemma_depth_after_concat(Some(0), self@.take(ln + 1), self@.skip(ln + 1));
                        lemma_depth_after_failed(self@.skip(ln + 1));
                    }
                    return Err(CompilerError::UnbalancedBrackets);
                }
                level -= 1;
            }
            let width: i64 = if indent > 0 {
                assert(level <= level * indent <= max_nesting(self@) * indent)
                    by (nonlinear_arith)
                    requires
                        0 <= level <= max_nesting(self@),
                        indent > 0,
                ;
                level as i64 * indent
            } else {
                0
            };
            assert(level as nat == line_depth(nesting(prefix), cmd));
            assert(width == indent_width(line_depth(nesting(prefix), cmd), indent as int));
            let ghost before = res@;
            push_lines(&mut res, &cmd, width, trace && in_chorus, ln);
            assert(prefix.len() == ln);
            assert(res@ == before + cmd_lines(prefix, cmd, indent as int, trace));
            if matches!(cmd, Cmd::StartCond(_)) {
                level += 1;
            }
            if matches!(cmd, Cmd::DeclareChorus) {
                in_chorus = true;
            }
            ln += 1;
        }
        assert(self@.take(ln as int) =~= self@);
        if level == 0 {
            Ok(res)
        } else {
            Err(CompilerError::UnbalancedBrackets)
        }
    }

    fn push_table(&mut self, to_int: bool)
        ensures
            final(self)@ == old(self)@ + table_entries(to_int, 0, TABLE_SIZE as int),
    {
        let ghost start = self@;
        let mut i: usize = 0;
        assert(self@ =~= start + table_entries(to_int, 0, 0));
        while i < TABLE_SIZE
            invariant
                i <= TABLE_SIZE,
                self@ == start + table_entries(to_int, 0, i as int),
            decreases TABLE_SIZE - i,
        {
            let b: u8 = if i == 0 {
                10
            } else {
                (i + 31) as u8
            };
            if to_int {
                self.cmds.push(
                    Cmd::StartCond(Expr::IsEqualLiteral(Var::Temp, Literal::Char(b as char))),
                );
                self.cmds.push(Cmd::Return(Expr::Literal(Literal::Int(b))));
            } else {
                self.cmds.push(Cmd::StartCond(Expr::IsEqualLiteral(Var::Temp, Literal::Int(b))));
                self.cmds.push(Cmd::Return(Expr::Literal(Literal::Char(b as char))));
            }
            self.cmds.push(Cmd::EndIf);
            proof {
                lemma_table_entries_extend(to_int, 0, i as int);
            }
            assert(self@ =~= start + table_entries(to_int, 0, i + 1));
            i += 1;
        }
    }

    fn define_char_to_int(&mut self)
        ensures
            final(self)@ == old(self)@ + char_to_int_routine(),
    {
        self.cmds.push(Cmd::DeclareFn(Function::CharToInt(Var::Temp)));
        self.push_table(true);
        self.cmds.push(Cmd::Return(Expr::Literal(Literal::Char('$'))));
        assert(self@ =~= old(self)@ + char_to_int_routine());
    }

    fn define_int_to_char(&mut self)
        ensures
            final(self)@ == old(self)@ + int_to_char_routine(),
    {
        self.cmds.push(Cmd::DeclareFn(Function::IntToChar(Var::Temp)));
        self.push_table(false);
        self.cmds.push(Cmd::Return(Expr::Literal(Literal::Int(0))));
        assert(self@ =~= old(self)@ + int_to_char_routine());
    }

    fn declare_chorus(&mut self)
        ensures
            final(self)@ == old(self)@.push(Cmd::DeclareChorus),
    {
        self.cmds.push(Cmd::DeclareChorus);
    }

    fn init_vars(&mut self)
        ensures
            final(self)@ == old(self)@ + init_cmds(),
    {
        self.cmds.push(Cmd::DeclareVar(Var::Zero));
        self.cmds.push(Cmd::DeclareVar(Var::Tape));
        self.cmds.push(Cmd::DeclareVar(Var::Temp));
        self.cmds.push(Cmd::DeclareVar(Var::Buffer));
        self.cmds.push(Cmd::DeclareVar(Var::Pointer));
        self.cmds.push(Cmd::Assign(Var::Zero, Expr::Literal(Literal::Int(0))));
        self.cmds.push(Cmd::Assign(Var::Tape, Expr::Literal(Literal::EmptyArray)));
        self.cmds.push(Cmd::Call(Function::ArrayPush(Var::Tape, Var::Zero, Var::Zero), Var::Tape));
        self.cmds.push(Cmd::Assign(Var::Temp, Expr::Literal(Literal::Int(0))));
        self.cmds.push(Cmd::Assign(Var::Buffer, Expr::Literal(Literal::EmptyArray)));
        self.cmds.push(Cmd::Assign(Var::Pointer, Expr::Literal(Literal::Int(0))));
        assert(self@ =~= old(self)@ + init_cmds());
    }

    fn inc_pointer(&mut self)
        ensures
            final(self)@ == old(self)@ + lower_char('>'),
    {
        self.cmds.push(Cmd::Assign(Var::Pointer, Expr::Inc(Var::Pointer)));
        self.cmds.push(Cmd::Call(Function::ArrayLength(Var::Tape), Var::Temp));
        self.cmds.push(Cmd::StartCond(Expr::IsEqualVar(Var::Pointer, Var::Temp)));
        self.cmds.push(Cmd::Call(Function::ArrayPush(Var::Tape, Var::Temp, Var::Zero), Var::Tape));
        self.cmds.push(Cmd::EndIf);
        assert(self@ =~= old(self)@ + lower_char('>'));
    }

    fn dec_pointer(&mut self)
        ensures
            final(self)@ == old(self)@ + lower_char('<'),
    {
        self.cmds.push(Cmd::Assign(Var::Pointer, Expr::Dec(Var::Pointer)));
        assert(self@ =~= old(self)@ + lower_char('<'));
    }

    fn inc_data(&mut self)
        ensures
            final(self)@ == old(self)@ + lower_char('+'),
    {
        self.cmds.push(Cmd::Assign(Var::Temp, Expr::ArrayAccess(Var::Tape, Var::Pointer)));
        self.cmds.push(Cmd::Assign(Var::Temp, Expr::Inc(Var::Temp)));
        self.cmds.push(
            Cmd::Call(Function::ArrayReplace(Var::Tape, Var::Pointer, Var::Temp), Var::Tape),
        );
        assert(self@ =~= old(self)@ + lower_char('+'));
    }

    fn dec_data(&mut self)
        ensures
            final(self)@ == old(self)@ + lower_char('-'),
    {
        self.cmds.push(Cmd::Assign(Var::Temp, Expr::ArrayAccess(Var::Tape, Var::Pointer)));
        self.cmds.push(Cmd::Assign(Var::Temp, Expr::Dec(Var::Temp)));
        self.cmds.push(
            Cmd::Call(Function::ArrayReplace(Var::Tape, Var::Pointer, Var::Temp), Var::Tape),
        );
        assert(self@ =~= old(self)@ + lower_char('-'));
    }

    fn output_byte(&mut self)
        ensures
            final(self)@ == old(self)@ + lower_char('.'),
    {
        self.cmds.push(Cmd::Assign(Var::Temp, Expr::ArrayAccess(Var::Tape, Var::Pointer)));
        self.cmds.push(Cmd::Call(Function::IntToChar(Var::Temp), Var::Temp));
        self.cmds.push(Cmd::CallNoReturn(Function::PutChar(Var::Temp)));
        assert(self@ =~= old(self)@ + lower_char('.'));
    }

    fn read_byte(&mut self)
        ensures
            final(self)@ == old(self)@ + lower_char(','),
    {
        self.cmds.push(Cmd::Call(Function::ArrayLength(Var::Buffer), Var::Temp));
        self.cmds.push(Cmd::StartCond(Expr::IsEqualLiteral(Var::Temp, Literal::Int(0))));
        self.cmds.push(Cmd::Call(Function::ReadLine, Var::Buffer));
        self.cmds.push(Cmd::EndIf);
        self.cmds.push(Cmd::Assign(Var::Temp, Expr::ArrayAccess(Var::Buffer, Var::Zero)));
        self.cmds.push(Cmd::Call(Function::ArrayPop(Var::Buffer, Var::Zero), Var::Buffer));
        self.cmds.push(Cmd::Call(Function::CharToInt(Var::Temp), Var::Temp));
        self.cmds.push(
            Cmd::Call(Function::ArrayReplace(Var::Tape, Var::Pointer, Var::Temp), Var::Tape),
        );
        assert(self@ =~= old(self)@ + lower_char(','));
    }

    fn cond_jump(&mut self)
        ensures
            final(self)@ == old(self)@ + lower_char('['),
    {
        self.cmds.push(Cmd::Assign(Var::Temp, Expr::ArrayAccess(Var::Tape, Var::Pointer)));
        self.cmds.push(Cmd::StartCond(Expr::IsNotEqualLiteral(Var::Temp, Literal::Int(0))));
        assert(self@ =~= old(self)@ + lower_char('['));
    }

    fn cond_jump_end(&mut self)
        ensures
            final(self)@ == old(self)@ + lower_char(']'),
    {
        self.cmds.push(Cmd::EndWhile);
        assert(self@ =~= old(self)@ + lower_char(']'));
    }
}

} // verus!
