//! Trace mode only inserts comment lines: removing the lines that are trace
//! comments from a traced rendering gives the plain rendering.

use vstd::prelude::*;
use crate::ir::{
    Cmd,
    Expr,
    Function,
    Literal,
    Var,
    cmd_line,
    cmd_text,
    decimal,
    expr_text,
    function_args,
    function_name,
    literal_text,
    params_line,
    var_text,
};
use crate::compiler::{
    cmd_lines,
    indent_width,
    line_depth,
    main_begun,
    nesting,
    render,
    rendered,
    spaces,
    trace_line,
};

verus! {

pub open spec fn no_newline(s: Seq<char>) -> bool {
    forall|i: int| 0 <= i < s.len() ==> s[i] != '\n'
}

/// The number of spaces that begin a line.
pub open spec fn leading_spaces(line: Seq<char>) -> nat
    decreases line.len(),
{
    if line.len() > 0 && line[0] == ' ' {
        1 + leading_spaces(line.skip(1))
    } else {
        0
    }
}

/// A trace comment line: spaces, then `Never gonna say `.
pub open spec fn is_trace_comment(line: Seq<char>) -> bool {
    let rest = line.skip(leading_spaces(line) as int);
    rest.len() >= 16 && rest.take(16) == "Never gonna say "@
}

/// Removes the trace comment lines from `t`, where `line` holds the part of
/// the current line already read.
pub open spec fn strip_from(line: Seq<char>, t: Seq<char>) -> Seq<char>
    decreases t.len(),
{
    if t.len() == 0 {
        if line.len() == 0 || is_trace_comment(line) {
            seq![]
        } else {
            line
        }
    } else if t[0] == '\n' {
        (if is_trace_comment(line) {
            seq![]
        } else {
            line.push('\n')
        }) + strip_from(seq![], t.skip(1))
    } else {
        strip_from(line.push(t[0]), t.skip(1))
    }
}

/// The text with every trace comment line, and its newline, removed.
pub open spec fn strip_trace_comments(t: Seq<char>) -> Seq<char> {
    strip_from(seq![], t)
}

proof fn lemma_strip_line(acc: Seq<char>, l: Seq<char>, r: Seq<char>)
    requires
        no_newline(l),
    ensures
        strip_from(acc, l + seq!['\n'] + r) == (if is_trace_comment(acc + l) {
            seq![]
        } else {
            (acc + l).push('\n')
        }) + strip_from(seq![], r),
    decreases l.len(),
{
    let t = l + seq!['\n'] + r;
    if l.len() == 0 {
        assert(acc + l =~= acc);
        assert(t.skip(1) =~= r);
    } else {
        assert(t[0] == l[0]);
        assert(t.skip(1) =~= l.skip(1) + seq!['\n'] + r);
        assert(acc.push(l[0]) + l.skip(1) =~= acc + l);
        lemma_strip_line(acc.push(l[0]), l.skip(1), r);
    }
}

proof fn lemma_strip_concat(acc: Seq<char>, a: Seq<char>, b: Seq<char>)
    requires
        a.len() > 0,
        a.last() == '\n',
    ensures
        strip_from(acc, a + b) == strip_from(acc, a) + strip_from(seq![], b),
    decreases a.len(),
{
    let t = a + b;
    assert(t[0] == a[0]);
    assert(t.skip(1) =~= a.skip(1) + b);
    if a[0] == '\n' {
        if a.len() == 1 {
            assert(a.skip(1) =~= Seq::<char>::empty());
            assert(a.skip(1) + b =~= b);
        } else {
            lemma_strip_concat(seq![], a.skip(1), b);
        }
        let head: Seq<char> = if is_trace_comment(acc) {
            seq![]
        } else {
            acc.push('\n')
        };
        assert(strip_from(acc, a + b) == head + strip_from(seq![], a.skip(1) + b));
        assert(strip_from(acc, a) == head + strip_from(seq![], a.skip(1)));
        if a.len() == 1 {
            assert(strip_from(seq![], a.skip(1)) == Seq::<char>::empty());
        }
        assert(strip_from(acc, a + b) =~= strip_from(acc, a) + strip_from(seq![], b));
    } else {
        lemma_strip_concat(acc.push(a[0]), a.skip(1), b);
    }
}

proof fn lemma_leading_spaces(w: nat, l: Seq<char>)
    requires
        l.len() > 0,
        l[0] != ' ',
    ensures
        leading_spaces(spaces(w) + l) == w,
        (spaces(w) + l).skip(w as int) == l,
    decreases w,
{
    if w > 0 {
        assert((spaces(w) + l).skip(1) =~= spaces((w - 1) as nat) + l);
        lemma_leading_spaces((w - 1) as nat, l);
    }
    assert((spaces(w) + l).skip(w as int) =~= l);
}

/// A line that is no trace comment survives, spaces and all.
proof fn lemma_strip_plain_line(w: nat, l: Seq<char>, r: Seq<char>)
    requires
        no_newline(l),
        l.len() > 0,
        l[0] != ' ',
        !(l.len() >= 16 && l.take(16) == "Never gonna say "@),
    ensures
        strip_from(seq![], spaces(w) + l + seq!['\n'] + r) == spaces(w) + l + seq!['\n']
            + strip_from(seq![], r),
{
    let line = spaces(w) + l;
    assert(no_newline(line));
    assert(line + seq!['\n'] + r =~= spaces(w) + l + seq!['\n'] + r);
    lemma_strip_line(seq![], line, r);
    lemma_leading_spaces(w, l);
    assert(seq![] + line =~= line);
    assert(line.push('\n') =~= spaces(w) + l + seq!['\n']);
}

proof fn lemma_not_comment_start(l: Seq<char>, k: int)
    requires
        0 <= k < 16,
        k < l.len(),
        l[k] != "Never gonna say "@[k],
    ensures
        !(l.len() >= 16 && l.take(16) == "Never gonna say "@),
{
    if l.len() >= 16 && l.take(16) == "Never gonna say "@ {
        assert(l.take(16)[k] == l[k]);
    }
}

proof fn lemma_var_no_newline(v: Var)
    ensures
        no_newline(var_text(v)),
        var_text(v).len() > 0,
{
    reveal_strlit("Zero");
    reveal_strlit("Pointer");
    reveal_strlit("Tape");
    reveal_strlit("Temp");
    reveal_strlit("Buffer");
}

proof fn lemma_decimal_no_newline(n: nat)
    ensures
        no_newline(decimal(n)),
    decreases n,
{
    assert(no_newline(seq!['0', '1', '2', '3', '4', '5', '6', '7', '8', '9']));
    if n >= 10 {
        lemma_decimal_no_newline(n / 10);
    }
}

proof fn lemma_literal_no_newline(l: Literal)
    ensures
        no_newline(literal_text(l)),
{
    reveal_strlit("'\\n'");
    reveal_strlit("'\\''");
    reveal_strlit("'\\\\'");
    reveal_strlit("'");
    reveal_strlit("ARRAY");
    if let Literal::Int(i) = l {
        lemma_decimal_no_newline(i as nat);
    }
}

proof fn lemma_expr_no_newline(e: Expr)
    ensures
        no_newline(expr_text(e)),
{
    reveal_strlit(" + 1");
    reveal_strlit(" - 1");
    reveal_strlit(" : ");
    reveal_strlit(" == ");
    reveal_strlit(" != ");
    match e {
        Expr::Inc(v) => lemma_var_no_newline(v),
        Expr::Dec(v) => lemma_var_no_newline(v),
        Expr::ArrayAccess(a, i) => {
            lemma_var_no_newline(a);
            lemma_var_no_newline(i);
        },
        Expr::IsEqualLiteral(v, l) => {
            lemma_var_no_newline(v);
            lemma_literal_no_newline(l);
        },
        Expr::IsEqualVar(v, w) => {
            lemma_var_no_newline(v);
            lemma_var_no_newline(w);
        },
        Expr::IsNotEqualLiteral(v, l) => {
            lemma_var_no_newline(v);
            lemma_literal_no_newline(l);
        },
        Expr::Literal(l) => lemma_literal_no_newline(l),
    }
}

proof fn lemma_function_no_newline(f: Function)
    ensures
        no_newline(function_name(f)),
        no_newline(function_args(f)),
{
    reveal_strlit("ArrayReplace");
    reveal_strlit("ArrayPush");
    reveal_strlit("ArrayPop");
    reveal_strlit("ArrayLength");
    reveal_strlit("CharToInt");
    reveal_strlit("IntToChar");
    reveal_strlit("PutChar");
    reveal_strlit("ReadLine");
    reveal_strlit(", ");
    reveal_strlit("you");
    match f {
        Function::ArrayReplace(a, b, c) => {
            lemma_var_no_newline(a);
            lemma_var_no_newline(b);
            lemma_var_no_newline(c);
        },
        Function::ArrayPush(a, b, c) => {
            lemma_var_no_newline(a);
            lemma_var_no_newline(b);
            lemma_var_no_newline(c);
        },
        Function::ArrayPop(a, b) => {
            lemma_var_no_newline(a);
            lemma_var_no_newline(b);
        },
        Function::ArrayLength(v) => lemma_var_no_newline(v),
        Function::CharToInt(v) => lemma_var_no_newline(v),
        Function::IntToChar(v) => lemma_var_no_newline(v),
        Function::PutChar(v) => lemma_var_no_newline(v),
        Function::ReadLine => {},
    }
}

/// A command's first line holds no newline, starts with no space, and is no
/// trace comment; the same holds of a routine's parameter line.
proof fn lemma_cmd_line_plain(c: Cmd)
    ensures
        no_newline(cmd_line(c)),
        cmd_line(c).len() > 0,
        cmd_line(c)[0] != ' ',
        !(cmd_line(c).len() >= 16 && cmd_line(c).take(16) == "Never gonna say "@),
        c matches Cmd::DeclareFn(f) ==> {
            &&& no_newline(params_line(f))
            &&& params_line(f).len() > 0
            &&& params_line(f)[0] != ' '
            &&& !(params_line(f).len() >= 16 && params_line(f).take(16) == "Never gonna say "@)
        },
{
    reveal_strlit("Never gonna say ");
    reveal_strlit("Never gonna let ");
    reveal_strlit(" down");
    reveal_strlit("[Verse ");
    reveal_strlit("]");
    reveal_strlit("(Ooh) Never gonna give, never gonna give (give you ");
    reveal_strlit(")");
    reveal_strlit("[Chorus]");
    reveal_strlit("Never gonna give ");
    reveal_strlit(" ");
    reveal_strlit("(Ooh give you ");
    reveal_strlit(") ");
    reveal_strlit("Never gonna run ");
    reveal_strlit(" and desert ");
    reveal_strlit("Inside we both know ");
    reveal_strlit("Your heart's been aching but you're too shy to say it");
    reveal_strlit("We know the game and we're gonna play it");
    match c {
        Cmd::DeclareVar(v) => {
            lemma_var_no_newline(v);
            lemma_not_comment_start(cmd_line(c), 12);
        },
        Cmd::DeclareFn(f) => {
            lemma_function_no_newline(f);
            lemma_not_comment_start(cmd_line(c), 0);
            lemma_not_comment_start(params_line(f), 0);
        },
        Cmd::Return(e) => {
            lemma_expr_no_newline(e);
            lemma_not_comment_start(cmd_line(c), 0);
        },
        Cmd::DeclareChorus => {
            lemma_not_comment_start(cmd_line(c), 0);
        },
        Cmd::Assign(v, e) => {
            lemma_var_no_newline(v);
            lemma_expr_no_newline(e);
            lemma_not_comment_start(cmd_line(c), 12);
        },
        Cmd::Call(f, v) => {
            lemma_var_no_newline(v);
            lemma_function_no_newline(f);
            lemma_not_comment_start(cmd_line(c), 0);
        },
        Cmd::CallNoReturn(f) => {
            lemma_function_no_newline(f);
            lemma_not_comment_start(cmd_line(c), 12);
        },
        Cmd::StartCond(e) => {
            lemma_expr_no_newline(e);
            lemma_not_comment_start(cmd_line(c), 0);
        },
        Cmd::EndIf => {
            lemma_not_comment_start(cmd_line(c), 0);
        },
        Cmd::EndWhile => {
            lemma_not_comment_start(cmd_line(c), 0);
        },
    }
}


/// A command's text, indented, holds no trace comment and survives whole.
proof fn lemma_strip_cmd(w: nat, c: Cmd)
    ensures
        strip_trace_comments(spaces(w) + cmd_text(c)) == spaces(w) + cmd_text(c),
        cmd_text(c).len() > 0,
        cmd_text(c).last() == '\n',
{
    reveal_strlit("\n");
    lemma_cmd_line_plain(c);
    let empty = Seq::<char>::empty();
    assert(strip_from(seq![], empty) == empty);
    if let Cmd::DeclareFn(f) = c {
        let second = params_line(f) + seq!['\n'];
        assert(spaces(w) + cmd_text(c) =~= spaces(w) + cmd_line(c) + seq!['\n'] + second);
        lemma_strip_plain_line(w, cmd_line(c), second);
        assert(second =~= spaces(0) + params_line(f) + seq!['\n'] + empty);
        lemma_strip_plain_line(0, params_line(f), empty);
        assert(strip_from(seq![], second) =~= second);
        assert(spaces(w) + cmd_line(c) + seq!['\n'] + second =~= spaces(w) + cmd_text(c));
    } else {
        assert(spaces(w) + cmd_text(c) =~= spaces(w) + cmd_line(c) + seq!['\n'] + empty);
        lemma_strip_plain_line(w, cmd_line(c), empty);
        assert(spaces(w) + cmd_line(c) + seq!['\n'] + empty =~= spaces(w) + cmd_text(c));
    }
}

/// A trace comment line is removed whole.
proof fn lemma_strip_trace_line(w: nat, ln: nat)
    ensures
        strip_trace_comments(trace_line(spaces(w), ln)) == Seq::<char>::empty(),
        trace_line(spaces(w), ln).len() > 0,
        trace_line(spaces(w), ln).last() == '\n',
{
    reveal_strlit("\n");
    reveal_strlit("Never gonna say ");
    lemma_decimal_no_newline(ln);
    let text = "Never gonna say "@ + decimal(ln);
    let l = spaces(w) + text;
    assert(no_newline(l));
    assert(trace_line(spaces(w), ln) =~= l + seq!['\n'] + Seq::<char>::empty());
    lemma_strip_line(seq![], l, Seq::<char>::empty());
    assert(seq![] + l =~= l);
    lemma_leading_spaces(w, text);
    assert(text.take(16) =~= "Never gonna say "@);
    assert(is_trace_comment(l));
}

proof fn lemma_strip_rendered(cmds: Seq<Cmd>, indent: int)
    ensures
        strip_trace_comments(rendered(cmds, indent, true)) == rendered(cmds, indent, false),
        strip_trace_comments(rendered(cmds, indent, false)) == rendered(cmds, indent, false),
        cmds.len() > 0 ==> rendered(cmds, indent, true).len() > 0 && rendered(
            cmds,
            indent,
            true,
        ).last() == '\n',
        cmds.len() > 0 ==> rendered(cmds, indent, false).len() > 0 && rendered(
            cmds,
            indent,
            false,
        ).last() == '\n',
    decreases cmds.len(),
{
    if cmds.len() > 0 {
        let prefix = cmds.drop_last();
        let c = cmds.last();
        lemma_strip_rendered(prefix, indent);
        let traced = cmd_lines(prefix, c, indent, true);
        let plain = cmd_lines(prefix, c, indent, false);
        let pad = spaces(indent_width(line_depth(nesting(prefix), c), indent));
        let w = pad.len();
        assert(pad =~= spaces(w));
        lemma_strip_cmd(w, c);
        assert(plain =~= pad + cmd_text(c));
        if main_begun(prefix) {
            let comment = trace_line(pad, prefix.len());
            lemma_strip_trace_line(w, prefix.len());
            assert(traced =~= comment + (pad + cmd_text(c)));
            lemma_strip_concat(seq![], comment, pad + cmd_text(c));
            assert(strip_trace_comments(traced) =~= plain);
        } else {
            assert(traced =~= plain);
        }
        if prefix.len() == 0 {
            assert(rendered(cmds, indent, true) =~= traced);
            assert(rendered(cmds, indent, false) =~= plain);
        } else {
            lemma_strip_concat(seq![], rendered(prefix, indent, true), traced);
            lemma_strip_concat(seq![], rendered(prefix, indent, false), plain);
        }
    }
}

/// Trace mode only adds comment lines: the traced rendering succeeds exactly
/// when the plain one does, removing its trace comment lines gives the plain
/// rendering, and the plain rendering holds no trace comment line.
pub proof fn lemma_trace_only_adds_comments(cmds: Seq<Cmd>, indent: int)
    ensures
        render(cmds, indent, true) is Some <==> render(cmds, indent, false) is Some,
        render(cmds, indent, true) matches Some(t) ==> strip_trace_comments(t) == render(
            cmds,
            indent,
            false,
        )->0,
        render(cmds, indent, false) matches Some(t) ==> strip_trace_comments(t) == t,
{
    lemma_strip_rendered(cmds, indent);
}

} // verus!
