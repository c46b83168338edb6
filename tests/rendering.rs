use bf_to_rickroll::compiler::{Compiler, CompilerError};
use bf_to_rickroll::ir::{push_decimal, Cmd, Expr, Function, Literal, Var};

const INCREMENT: &str = "Never gonna give Temp Tape : Pointer\n\
Never gonna give Temp Temp + 1\n\
(Ooh give you Tape) Never gonna run ArrayReplace and desert Tape, Pointer, Temp\n";

const DECREMENT: &str = "Never gonna give Temp Tape : Pointer\n\
Never gonna give Temp Temp - 1\n\
(Ooh give you Tape) Never gonna run ArrayReplace and desert Tape, Pointer, Temp\n";

const INIT: &str = "[Chorus]\n\
Never gonna let Zero down\n\
Never gonna let Tape down\n\
Never gonna let Temp down\n\
Never gonna let Buffer down\n\
Never gonna let Pointer down\n\
Never gonna give Zero 0\n\
Never gonna give Tape ARRAY\n\
(Ooh give you Tape) Never gonna run ArrayPush and desert Tape, Zero, Zero\n\
Never gonna give Temp 0\n\
Never gonna give Buffer ARRAY\n\
Never gonna give Pointer 0\n";

fn render(src: &str, indent: i64, trace: bool) -> Result<String, CompilerError> {
    Compiler::read(src).output(indent, trace)
}

fn preamble() -> String {
    render("", 2, false).unwrap()
}

fn literal(l: Literal) -> String {
    let mut s = String::new();
    l.render_into(&mut s);
    s
}

#[test]
fn empty_source_renders_preamble_only() {
    let out = preamble();
    assert!(out.starts_with("[Verse IntToChar]\n(Ooh give you Temp)\n"));
    assert!(out.contains("[Verse CharToInt]\n(Ooh give you Temp)\n"));
    assert!(out.ends_with(INIT));
    assert_eq!(out.matches("Inside we both know").count(), 2 * 96);
    assert_eq!(out.matches("Your heart's been aching").count(), 2 * 96);
    assert_eq!(out.lines().filter(|l| l.starts_with(' ')).count(), 2 * 96);
}

#[test]
fn comments_are_ignored_by_lowering() {
    assert_eq!(preamble(), render("hello world\n", 2, false).unwrap());
}

#[test]
fn lookup_routines_start_with_newline() {
    let out = preamble();
    assert!(out.starts_with(
        "[Verse IntToChar]\n(Ooh give you Temp)\n\
Inside we both know Temp == 10\n\
\x20\x20(Ooh) Never gonna give, never gonna give (give you '\\n')\n\
Your heart's been aching but you're too shy to say it\n\
Inside we both know Temp == 32\n\
\x20\x20(Ooh) Never gonna give, never gonna give (give you ' ')\n"
    ));
    assert!(out.contains(
        "[Verse CharToInt]\n(Ooh give you Temp)\n\
Inside we both know Temp == '\\n'\n\
\x20\x20(Ooh) Never gonna give, never gonna give (give you 10)\n"
    ));
}

#[test]
fn lookup_routines_are_inverse() {
    let out = preamble();
    assert!(out.contains(
        "Inside we both know Temp == 'A'\n  (Ooh) Never gonna give, never gonna give (give you 65)\n"
    ));
    assert!(out.contains(
        "Inside we both know Temp == 65\n  (Ooh) Never gonna give, never gonna give (give you 'A')\n"
    ));
    assert!(out.contains(
        "Inside we both know Temp == 126\n  (Ooh) Never gonna give, never gonna give (give you '~')\n"
    ));
}

#[test]
fn lookup_routine_fallbacks() {
    let out = preamble();
    assert!(out.contains(
        "Your heart's been aching but you're too shy to say it\n\
(Ooh) Never gonna give, never gonna give (give you 0)\n[Verse CharToInt]\n"
    ));
    assert!(out.contains(
        "Your heart's been aching but you're too shy to say it\n\
(Ooh) Never gonna give, never gonna give (give you '$')\n[Chorus]\n"
    ));
}

#[test]
fn three_increments() {
    let out = render("+++", 2, false).unwrap();
    assert_eq!(out, preamble() + INCREMENT + INCREMENT + INCREMENT);
}

#[test]
fn clear_loop() {
    let out = render("[-]", 2, false).unwrap();
    let mut body = String::from(
        "Never gonna give Temp Tape : Pointer\nInside we both know Temp != 0\n",
    );
    for line in DECREMENT.lines() {
        body.push_str("  ");
        body.push_str(line);
        body.push('\n');
    }
    body.push_str("We know the game and we're gonna play it\n");
    assert_eq!(out, preamble() + &body);
}

#[test]
fn lone_close_fails() {
    assert!(matches!(render("]", 2, false), Err(CompilerError::UnbalancedBrackets)));
    assert!(matches!(render("]", 2, true), Err(CompilerError::UnbalancedBrackets)));
}

#[test]
fn unclosed_open_fails() {
    assert!(matches!(render("[", 2, false), Err(CompilerError::UnbalancedBrackets)));
    assert!(matches!(render("+[[-]", 4, true), Err(CompilerError::UnbalancedBrackets)));
}

#[test]
fn close_before_open_fails() {
    assert!(matches!(render("][", 2, false), Err(CompilerError::UnbalancedBrackets)));
}

#[test]
fn balanced_nesting_renders() {
    assert!(render("++[>++[-<+>]<-]>.", 2, false).is_ok());
    assert!(render("[[[]]][]", 0, true).is_ok());
}

#[test]
fn pointer_moves() {
    let right = render(">", 2, false).unwrap();
    assert_eq!(
        right,
        preamble()
            + "Never gonna give Pointer Pointer + 1\n\
(Ooh give you Temp) Never gonna run ArrayLength and desert Tape\n\
Inside we both know Pointer == Temp\n\
\x20\x20(Ooh give you Tape) Never gonna run ArrayPush and desert Tape, Temp, Zero\n\
Your heart's been aching but you're too shy to say it\n"
    );
    let left = render("<", 2, false).unwrap();
    assert_eq!(left, preamble() + "Never gonna give Pointer Pointer - 1\n");
}

#[test]
fn input_and_output() {
    let out = render(".,", 1, false).unwrap();
    assert_eq!(
        out,
        render("", 1, false).unwrap()
            + "Never gonna give Temp Tape : Pointer\n\
(Ooh give you Temp) Never gonna run IntToChar and desert Temp\n\
Never gonna run PutChar and desert Temp\n\
(Ooh give you Temp) Never gonna run ArrayLength and desert Buffer\n\
Inside we both know Temp == 0\n\
\x20(Ooh give you Buffer) Never gonna run ReadLine and desert you\n\
Your heart's been aching but you're too shy to say it\n\
Never gonna give Temp Buffer : Zero\n\
(Ooh give you Buffer) Never gonna run ArrayPop and desert Buffer, Zero\n\
(Ooh give you Temp) Never gonna run CharToInt and desert Temp\n\
(Ooh give you Tape) Never gonna run ArrayReplace and desert Tape, Pointer, Temp\n"
    );
}

#[test]
fn trace_numbers_main_block_commands() {
    let out = render("+", 2, true).unwrap();
    assert!(out.contains("[Chorus]\nNever gonna say 581\nNever gonna let Zero down\n"));
    assert!(out.ends_with("Never gonna say 592\nNever gonna give Temp Tape : Pointer\n\
Never gonna say 593\nNever gonna give Temp Temp + 1\n\
Never gonna say 594\n(Ooh give you Tape) Never gonna run ArrayReplace and desert Tape, Pointer, Temp\n"));
    assert!(!out.contains("[Verse CharToInt]\nNever gonna say"));
}

#[test]
fn trace_only_adds_comment_lines() {
    for src in ["", "+-<>.,", "[->+<]", "+[[-]>]"] {
        let plain = render(src, 3, false).unwrap();
        let traced = render(src, 3, true).unwrap();
        let kept: Vec<&str> = traced
            .lines()
            .filter(|l| !l.trim_start().starts_with("Never gonna say "))
            .collect();
        assert_eq!(kept, plain.lines().collect::<Vec<&str>>());
        assert!(traced.lines().count() > plain.lines().count());
    }
}

#[test]
fn trace_comment_is_indented() {
    let out = render("[+]", 4, true).unwrap();
    assert!(out.ends_with("Never gonna say 593\nInside we both know Temp != 0\n\
\x20\x20\x20\x20Never gonna say 594\n    Never gonna give Temp Tape : Pointer\n\
\x20\x20\x20\x20Never gonna say 595\n    Never gonna give Temp Temp + 1\n\
\x20\x20\x20\x20Never gonna say 596\n    (Ooh give you Tape) Never gonna run ArrayReplace and desert Tape, Pointer, Temp\n\
Never gonna say 597\nWe know the game and we're gonna play it\n"));
}

#[test]
fn indentation_follows_depth() {
    let out = render("[[+]]", 3, false).unwrap();
    let body: Vec<&str> = out.lines().skip(preamble().lines().count()).collect();
    assert_eq!(
        body,
        vec![
            "Never gonna give Temp Tape : Pointer",
            "Inside we both know Temp != 0",
            "   Never gonna give Temp Tape : Pointer",
            "   Inside we both know Temp != 0",
            "      Never gonna give Temp Tape : Pointer",
            "      Never gonna give Temp Temp + 1",
            "      (Ooh give you Tape) Never gonna run ArrayReplace and desert Tape, Pointer, Temp",
            "   We know the game and we're gonna play it",
            "We know the game and we're gonna play it",
        ]
    );
}

#[test]
fn zero_and_negative_width_indent_nothing() {
    let zero = render("[+]", 0, false).unwrap();
    let negative = render("[+]", -3, false).unwrap();
    assert_eq!(zero, negative);
    assert!(!zero.lines().any(|l| l.starts_with(' ')));
}

#[test]
fn literal_escapes() {
    assert_eq!(literal(Literal::Char('\n')), "'\\n'");
    assert_eq!(literal(Literal::Char('\'')), "'\\''");
    assert_eq!(literal(Literal::Char('\\')), "'\\\\'");
    assert_eq!(literal(Literal::Char('x')), "'x'");
    assert_eq!(literal(Literal::Char('"')), "'\"'");
    assert_eq!(literal(Literal::Int(0)), "0");
    assert_eq!(literal(Literal::Int(255)), "255");
    assert_eq!(literal(Literal::EmptyArray), "ARRAY");
}

#[test]
fn decimal_digits() {
    let mut s = String::from("n=");
    push_decimal(&mut s, 0);
    assert_eq!(s, "n=0");
    let mut t = String::new();
    push_decimal(&mut t, 1907);
    assert_eq!(t, "1907");
    let mut u = String::new();
    push_decimal(&mut u, usize::MAX);
    assert_eq!(u, usize::MAX.to_string());
}

#[test]
fn routine_names_and_arguments() {
    let f = Function::ArrayPush(Var::Tape, Var::Temp, Var::Zero);
    assert_eq!(f.name(), "ArrayPush");
    assert_eq!(f.args(), "Tape, Temp, Zero");
    assert_eq!(Function::ArrayPop(Var::Buffer, Var::Zero).args(), "Buffer, Zero");
    assert_eq!(Function::ReadLine.args(), "you");
    assert_eq!(Function::PutChar(Var::Temp).name(), "PutChar");
}

#[test]
fn command_templates() {
    let mut s = String::new();
    Cmd::DeclareFn(Function::CharToInt(Var::Temp)).render_into(&mut s);
    Cmd::Return(Expr::Literal(Literal::Char('\''))).render_into(&mut s);
    Cmd::CallNoReturn(Function::PutChar(Var::Temp)).render_into(&mut s);
    Cmd::StartCond(Expr::IsEqualVar(Var::Pointer, Var::Temp)).render_into(&mut s);
    assert_eq!(
        s,
        "[Verse CharToInt]\n(Ooh give you Temp)\n\
(Ooh) Never gonna give, never gonna give (give you '\\'')\n\
Never gonna run PutChar and desert Temp\n\
Inside we both know Pointer == Temp\n"
    );
}

#[test]
fn lowering_is_deterministic() {
    let src = "+[>,.<-]";
    assert_eq!(render(src, 2, true).unwrap(), render(src, 2, true).unwrap());
}

#[test]
fn lowering_keeps_source_order() {
    assert_eq!(render("+-", 2, false).unwrap(), preamble() + INCREMENT + DECREMENT);
    assert_eq!(render("-+", 2, false).unwrap(), preamble() + DECREMENT + INCREMENT);
}

#[test]
fn deepest_nesting() {
    assert_eq!(Compiler::read("").max_depth(), 1);
    assert_eq!(Compiler::read("[[+]]").max_depth(), 2);
    assert_eq!(Compiler::read("[[>]]").max_depth(), 3);
    assert_eq!(Compiler::read("[[[").max_depth(), 3);
    assert_eq!(Compiler::read("]]]").max_depth(), 1);
}
