//! What holds of lowering and rendering together, stated over the spec
//! functions that the executable functions' contracts use.

use vstd::prelude::*;
use crate::ir::{Cmd, Expr, Function, Literal, Var, cmd_text, literal_text};
use crate::compiler::{
    closes,
    depth_after,
    depth_step,
    init_cmds,
    lemma_depth_after_concat,
    lemma_depth_after_failed,
    depth_value,
    max_depth_from,
    max_nesting,
    lower,
    lower_body,
    lower_char,
    nesting,
    preamble,
    render,
    rendered,
    cmd_lines,
    line_depth,
    main_begun,
    spaces,
    indent_width,
    trace_line,
    table_byte,
    table_entries,
    table_entry,
    char_to_int_routine,
    int_to_char_routine,
    TABLE_SIZE,
};

verus! {

/// The bracket depth after one source character, from `d`; `None` once a
/// `]` came with no `[` open.
pub open spec fn bracket_step(d: Option<nat>, c: char) -> Option<nat> {
    match d {
        None => None,
        Some(n) => if c == '[' {
            Some(n + 1)
        } else if c == ']' {
            if n == 0 {
                None
            } else {
                Some((n - 1) as nat)
            }
        } else {
            Some(n)
        },
    }
}

/// The bracket depth after a source text, from `start`.
pub open spec fn bracket_after(start: Option<nat>, s: Seq<char>) -> Option<nat>
    decreases s.len(),
{
    if s.len() == 0 {
        start
    } else {
        bracket_step(bracket_after(start, s.drop_last()), s.last())
    }
}

/// Every `]` closes an earlier `[`, and every `[` is closed.
pub open spec fn brackets_balanced(s: Seq<char>) -> bool {
    bracket_after(Some(0), s) == Some(0nat)
}

/// The nesting depth read front to back.
spec fn depth_forward(start: Option<nat>, cmds: Seq<Cmd>) -> Option<nat>
    decreases cmds.len(),
{
    if cmds.len() == 0 {
        start
    } else {
        depth_forward(depth_step(start, cmds[0]), cmds.skip(1))
    }
}

proof fn lemma_depth_forward(start: Option<nat>, cmds: Seq<Cmd>)
    ensures
        depth_after(start, cmds) == depth_forward(start, cmds),
    decreases cmds.len(),
{
    if cmds.len() > 0 {
        let head = seq![cmds[0]];
        assert(cmds =~= head + cmds.skip(1));
        lemma_depth_after_concat(start, head, cmds.skip(1));
        assert(head.drop_last() =~= Seq::<Cmd>::empty());
        assert(depth_after(start, head.drop_last()) == start);
        assert(depth_after(start, head) == depth_step(start, cmds[0]));
        lemma_depth_forward(depth_step(start, cmds[0]), cmds.skip(1));
    }
}

/// Commands that neither open nor close a block leave the depth as it is.
proof fn lemma_depth_flat(start: Option<nat>, cmds: Seq<Cmd>)
    requires
        forall|i: int| 0 <= i < cmds.len() ==> !closes(#[trigger] cmds[i]) && !(cmds[i] is StartCond),
    ensures
        depth_after(start, cmds) == start,
    decreases cmds.len(),
{
    if cmds.len() > 0 {
        lemma_depth_flat(start, cmds.drop_last());
    }
}

proof fn lemma_lower_char_depth(d: Option<nat>, c: char)
    ensures
        depth_after(d, lower_char(c)) == bracket_step(d, c),
{
    lemma_depth_forward(d, lower_char(c));
    reveal_with_fuel(depth_forward, 9);
    if c == '>' || c == ',' {
        assert(depth_forward(d, lower_char(c)) == d);
    }
}

proof fn lemma_lower_body_depth(d: Option<nat>, s: Seq<char>)
    ensures
        depth_after(d, lower_body(s)) == bracket_after(d, s),
    decreases s.len(),
{
    if s.len() > 0 {
        lemma_lower_body_depth(d, s.drop_last());
        lemma_depth_after_concat(d, lower_body(s.drop_last()), lower_char(s.last()));
        lemma_lower_char_depth(bracket_after(d, s.drop_last()), s.last());
    }
}

proof fn lemma_table_depth(n: nat, to_int: bool, lo: int, hi: int)
    ensures
        depth_after(Some(n), table_entries(to_int, lo, hi)) == Some(n),
    decreases hi - lo,
{
    if lo < hi {
        lemma_depth_after_concat(Some(n), table_entry(to_int, lo), table_entries(to_int, lo + 1, hi));
        lemma_depth_forward(Some(n), table_entry(to_int, lo));
        reveal_with_fuel(depth_forward, 4);
        lemma_table_depth(n, to_int, lo + 1, hi);
    }
}

proof fn lemma_routine_depth(to_int: bool)
    ensures
        nesting(if to_int { char_to_int_routine() } else { int_to_char_routine() }) == Some(0nat),
{
    let r = if to_int { char_to_int_routine() } else { int_to_char_routine() };
    let head = r.take(1);
    let body = table_entries(to_int, 0, TABLE_SIZE as int);
    let tail = r.skip(1 + body.len() as int);
    assert(r =~= head + body + tail);
    lemma_depth_flat(Some(0), head);
    lemma_depth_after_concat(Some(0), head, body);
    lemma_table_depth(0, to_int, 0, TABLE_SIZE as int);
    lemma_depth_after_concat(Some(0), head + body, tail);
    lemma_depth_flat(Some(0), tail);
}

/// The preamble opens no block that it does not close.
pub proof fn lemma_preamble_nesting()
    ensures
        nesting(preamble()) == Some(0nat),
{
    let a = int_to_char_routine();
    let b = char_to_int_routine();
    let c = seq![Cmd::DeclareChorus] + init_cmds();
    assert(preamble() =~= a + b + c);
    lemma_routine_depth(true);
    lemma_routine_depth(false);
    lemma_depth_after_concat(Some(0), a, b);
    lemma_depth_after_concat(Some(0), a + b, c);
    lemma_depth_flat(Some(0), c);
}

/// The blocks of a lowered program nest exactly as the source's brackets do.
pub proof fn lemma_lower_nesting(s: Seq<char>)
    ensures
        nesting(lower(s)) == bracket_after(Some(0), s),
{
    lemma_preamble_nesting();
    lemma_depth_after_concat(Some(0), preamble(), lower_body(s));
    lemma_lower_body_depth(Some(0), s);
}

/// A source whose brackets balance renders, at any width, with or without
/// trace comments.
pub proof fn lemma_balanced_source_renders(s: Seq<char>, indent: int, trace: bool)
    requires
        brackets_balanced(s),
    ensures
        render(lower(s), indent, trace) is Some,
{
    lemma_lower_nesting(s);
}

/// A source with a `]` that closes nothing, or a `[` never closed, fails to
/// render, at any width, with or without trace comments.
pub proof fn lemma_unbalanced_source_fails(s: Seq<char>, indent: int, trace: bool)
    requires
        !brackets_balanced(s),
    ensures
        render(lower(s), indent, trace) is None,
{
    lemma_lower_nesting(s);
}


/// Lowering one text after another gives the commands of the first, then
/// those of the second: each character is lowered in place, in order.
pub proof fn lemma_lower_concat(a: Seq<char>, b: Seq<char>)
    ensures
        lower_body(a + b) == lower_body(a) + lower_body(b),
        lower(a + b) == lower(a) + lower_body(b),
    decreases b.len(),
{
    if b.len() == 0 {
        assert(a + b =~= a);
        assert(lower_body(a) + lower_body(b) =~= lower_body(a));
    } else {
        assert((a + b).drop_last() =~= a + b.drop_last());
        lemma_lower_concat(a, b.drop_last());
        assert(lower_body(a + b) =~= lower_body(a) + lower_body(b));
    }
    assert(lower(a + b) =~= lower(a) + lower_body(b));
}

/// Lowering depends on the source text alone: equal texts give equal lists.
pub proof fn lemma_lower_deterministic(a: Seq<char>, b: Seq<char>)
    requires
        a == b,
    ensures
        lower(a) == lower(b),
{
}

/// A source with no recognised character lowers to the preamble alone, whose
/// blocks all close, and renders.
pub proof fn lemma_empty_source(s: Seq<char>, indent: int, trace: bool)
    requires
        forall|i: int| 0 <= i < s.len() ==> lower_char(#[trigger] s[i]) == Seq::<Cmd>::empty(),
    ensures
        lower(s) == preamble(),
        nesting(lower(s)) == Some(0nat),
        render(lower(s), indent, trace) is Some,
    decreases s.len(),
{
    if s.len() > 0 {
        lemma_empty_source(s.drop_last(), indent, trace);
        assert(lower_char(s[s.len() - 1]) == Seq::<Cmd>::empty());
        assert(lower_body(s) =~= lower_body(s.drop_last()));
    }
    assert(lower(s) =~= preamble());
    lemma_preamble_nesting();
}

/// What a lookup routine's body returns for `input`: the value of the first
/// entry whose test matches it, else the fallback that ends the body.
pub open spec fn table_lookup(body: Seq<Cmd>, input: Literal) -> Option<Literal>
    decreases body.len(),
{
    if body.len() >= 3 && body[0] is StartCond && body[0]->StartCond_0 is IsEqualLiteral
        && body[1] is Return && body[1]->Return_0 is Literal && body[2] is EndIf {
        if body[0]->StartCond_0->IsEqualLiteral_1 == input {
            Some(body[1]->Return_0->Literal_0)
        } else {
            table_lookup(body.skip(3), input)
        }
    } else if body.len() >= 1 && body[0] is Return && body[0]->Return_0 is Literal {
        Some(body[0]->Return_0->Literal_0)
    } else {
        None
    }
}

/// The bytes that the lookup routines know: newline, and space through tilde.
pub open spec fn in_table(b: u8) -> bool {
    b == 10 || (32 <= b <= 126)
}

/// The key that entry `i` of a routine tests for.
spec fn table_key(to_int: bool, i: int) -> Literal {
    if to_int {
        Literal::Char(table_byte(i) as char)
    } else {
        Literal::Int(table_byte(i))
    }
}

/// The value that entry `i` of a routine returns.
spec fn table_value(to_int: bool, i: int) -> Literal {
    if to_int {
        Literal::Int(table_byte(i))
    } else {
        Literal::Char(table_byte(i) as char)
    }
}

proof fn lemma_table_keys_distinct(to_int: bool, i: int, j: int)
    requires
        0 <= j < i < TABLE_SIZE,
    ensures
        table_key(to_int, j) != table_key(to_int, i),
{
    let bi = table_byte(i);
    let bj = table_byte(j);
    assert(bi != bj);
    if to_int {
        assert((bi as char) as u32 == bi as u32);
        assert((bj as char) as u32 == bj as u32);
    }
}

proof fn lemma_table_lookup_entry(to_int: bool, lo: int, i: int, tail: Seq<Cmd>)
    requires
        0 <= lo <= i < TABLE_SIZE,
    ensures
        table_lookup(table_entries(to_int, lo, TABLE_SIZE as int) + tail, table_key(to_int, i))
            == Some(table_value(to_int, i)),
    decreases i - lo,
{
    let body = table_entries(to_int, lo, TABLE_SIZE as int) + tail;
    let rest = table_entries(to_int, lo + 1, TABLE_SIZE as int) + tail;
    assert(body =~= table_entry(to_int, lo) + rest);
    assert(body.skip(3) =~= rest);
    if lo < i {
        lemma_table_keys_distinct(to_int, i, lo);
        lemma_table_lookup_entry(to_int, lo + 1, i, tail);
    }
}

/// The two lookup routines undo each other on the bytes they know: the
/// character-to-byte routine maps the character of `b` to `b`, and the
/// byte-to-character routine maps `b` back to that character.
pub proof fn lemma_tables_inverse(b: u8)
    requires
        in_table(b),
    ensures
        table_lookup(char_to_int_routine().skip(1), Literal::Char(b as char)) == Some(
            Literal::Int(b),
        ),
        table_lookup(int_to_char_routine().skip(1), Literal::Int(b)) == Some(
            Literal::Char(b as char),
        ),
{
    let i: int = if b == 10 {
        0
    } else {
        b - 31
    };
    assert(table_byte(i) == b);
    let fallback_int = seq![Cmd::Return(Expr::Literal(Literal::Int(0)))];
    let fallback_char = seq![Cmd::Return(Expr::Literal(Literal::Char('$')))];
    assert(char_to_int_routine().skip(1) =~= table_entries(true, 0, TABLE_SIZE as int)
        + fallback_char);
    assert(int_to_char_routine().skip(1) =~= table_entries(false, 0, TABLE_SIZE as int)
        + fallback_int);
    lemma_table_lookup_entry(true, 0, i, fallback_char);
    lemma_table_lookup_entry(false, 0, i, fallback_int);
}

/// Newline, quote and backslash are written as two-character escapes, each
/// distinct; any other character stands as itself between quotes.
pub proof fn lemma_char_literal_escapes(c: char)
    ensures
        literal_text(Literal::Char('\n')) == seq!['\'', '\\', 'n', '\''],
        literal_text(Literal::Char('\'')) == seq!['\'', '\\', '\'', '\''],
        literal_text(Literal::Char('\\')) == seq!['\'', '\\', '\\', '\''],
        c != '\n' && c != '\'' && c != '\\' ==> literal_text(Literal::Char(c)) == seq![
            '\'',
            c,
            '\'',
        ],
{
    reveal_strlit("'\\n'");
    reveal_strlit("'\\''");
    reveal_strlit("'\\\\'");
    reveal_strlit("'");
    assert(literal_text(Literal::Char('\n')) =~= seq!['\'', '\\', 'n', '\'']);
    assert(literal_text(Literal::Char('\'')) =~= seq!['\'', '\\', '\'', '\'']);
    assert(literal_text(Literal::Char('\\')) =~= seq!['\'', '\\', '\\', '\'']);
    if c != '\n' && c != '\'' && c != '\\' {
        assert(literal_text(Literal::Char(c)) =~= seq!['\'', c, '\'']);
    }
}


/// No command's text begins with a space, so its leading spaces are the
/// indentation alone.
pub proof fn lemma_cmd_text_starts_unindented(c: Cmd)
    ensures
        cmd_text(c).len() > 0,
        cmd_text(c)[0] != ' ',
{
    reveal_strlit("Never gonna let ");
    reveal_strlit("[Verse ");
    reveal_strlit("(Ooh) Never gonna give, never gonna give (give you ");
    reveal_strlit("[Chorus]");
    reveal_strlit("Never gonna give ");
    reveal_strlit("(Ooh give you ");
    reveal_strlit("Never gonna run ");
    reveal_strlit("Inside we both know ");
    reveal_strlit("Your heart's been aching but you're too shy to say it");
    reveal_strlit("We know the game and we're gonna play it");
}

/// The text of command `k` follows that of the commands before it, and each
/// of its lines (the trace comment, if any, and its own first line) is
/// indented by the width times the depth at that point: the depth before the
/// command, or after it where the command closes a block.
pub proof fn lemma_indentation(cmds: Seq<Cmd>, k: int, indent: int, trace: bool)
    requires
        0 <= k < cmds.len(),
        nesting(cmds.take(k + 1)) is Some,
    ensures
        ({
            let prefix = cmds.take(k);
            let c = cmds[k];
            let d = line_depth(nesting(prefix), c);
            let pad = spaces(indent_width(d, indent));
            &&& d == if closes(c) {
                nesting(cmds.take(k + 1))->0
            } else {
                nesting(prefix)->0
            }
            &&& rendered(cmds.take(k + 1), indent, trace) == rendered(prefix, indent, trace)
                + cmd_lines(prefix, c, indent, trace)
            &&& cmd_lines(prefix, c, indent, trace) == (if trace && main_begun(prefix) {
                trace_line(pad, k as nat)
            } else {
                seq![]
            }) + pad + cmd_text(c)
            &&& pad.len() == indent_width(d, indent)
            &&& cmd_text(c)[0] != ' '
        }),
{
    assert(cmds.take(k + 1).drop_last() =~= cmds.take(k));
    lemma_cmd_text_starts_unindented(cmds[k]);
}


proof fn lemma_max_covers_last(start: Option<nat>, cmds: Seq<Cmd>)
    ensures
        max_depth_from(start, cmds) >= depth_value(depth_after(start, cmds)),
        max_depth_from(start, cmds) >= depth_value(start),
    decreases cmds.len(),
{
    if cmds.len() > 0 {
        lemma_max_covers_last(start, cmds.drop_last());
    }
}

proof fn lemma_max_concat(start: Option<nat>, a: Seq<Cmd>, b: Seq<Cmd>)
    ensures
        max_depth_from(start, a + b) == ({
            let x = max_depth_from(start, a);
            let y = max_depth_from(depth_after(start, a), b);
            if x > y {
                x
            } else {
                y
            }
        }),
    decreases b.len(),
{
    lemma_max_covers_last(start, a);
    if b.len() == 0 {
        assert(a + b =~= a);
    } else {
        assert((a + b).drop_last() =~= a + b.drop_last());
        lemma_max_concat(start, a, b.drop_last());
        lemma_depth_after_concat(start, a, b);
    }
}

/// The deepest nesting read front to back.
spec fn max_forward(start: Option<nat>, cmds: Seq<Cmd>) -> nat
    decreases cmds.len(),
{
    if cmds.len() == 0 {
        depth_value(start)
    } else {
        let rest = max_forward(depth_step(start, cmds[0]), cmds.skip(1));
        if depth_value(start) > rest {
            depth_value(start)
        } else {
            rest
        }
    }
}

proof fn lemma_max_forward(start: Option<nat>, cmds: Seq<Cmd>)
    ensures
        max_depth_from(start, cmds) == max_forward(start, cmds),
    decreases cmds.len(),
{
    if cmds.len() > 0 {
        let head = seq![cmds[0]];
        assert(cmds =~= head + cmds.skip(1));
        lemma_max_concat(start, head, cmds.skip(1));
        assert(head.drop_last() =~= Seq::<Cmd>::empty());
        assert(depth_after(start, head.drop_last()) == start);
        assert(depth_after(start, head) == depth_step(start, cmds[0]));
        assert(max_depth_from(start, head.drop_last()) == depth_value(start));
        lemma_max_covers_last(depth_step(start, cmds[0]), cmds.skip(1));
        lemma_max_forward(depth_step(start, cmds[0]), cmds.skip(1));
    }
}

proof fn lemma_max_failed(cmds: Seq<Cmd>)
    ensures
        max_depth_from(None, cmds) == 0,
    decreases cmds.len(),
{
    if cmds.len() > 0 {
        lemma_max_failed(cmds.drop_last());
        lemma_depth_after_failed(cmds);
    }
}

proof fn lemma_lower_char_max(d: nat, c: char)
    ensures
        max_depth_from(Some(d), lower_char(c)) <= d + 1,
{
    lemma_max_forward(Some(d), lower_char(c));
    reveal_with_fuel(max_forward, 9);
}

proof fn lemma_lower_body_max(s: Seq<char>)
    ensures
        max_depth_from(Some(0), lower_body(s)) <= s.len() + 1,
        depth_value(depth_after(Some(0), lower_body(s))) <= s.len(),
    decreases s.len(),
{
    if s.len() > 0 {
        let prev = lower_body(s.drop_last());
        lemma_lower_body_max(s.drop_last());
        lemma_max_concat(Some(0), prev, lower_char(s.last()));
        lemma_depth_after_concat(Some(0), prev, lower_char(s.last()));
        lemma_lower_char_depth(depth_after(Some(0), prev), s.last());
        match depth_after(Some(0), prev) {
            Some(d) => lemma_lower_char_max(d, s.last()),
            None => lemma_max_failed(lower_char(s.last())),
        }
    }
}

proof fn lemma_table_max(to_int: bool, lo: int, hi: int)
    ensures
        max_depth_from(Some(0), table_entries(to_int, lo, hi)) <= 1,
        depth_after(Some(0), table_entries(to_int, lo, hi)) == Some(0nat),
    decreases hi - lo,
{
    if lo < hi {
        lemma_table_max(to_int, lo + 1, hi);
        lemma_max_concat(Some(0), table_entry(to_int, lo), table_entries(to_int, lo + 1, hi));
        lemma_max_forward(Some(0), table_entry(to_int, lo));
        reveal_with_fuel(max_forward, 4);
        lemma_depth_forward(Some(0), table_entry(to_int, lo));
        reveal_with_fuel(depth_forward, 4);
        lemma_depth_after_concat(Some(0), table_entry(to_int, lo), table_entries(to_int, lo + 1, hi));
    }
}

proof fn lemma_routine_max(to_int: bool)
    ensures
        max_nesting(if to_int { char_to_int_routine() } else { int_to_char_routine() }) <= 1,
{
    let r = if to_int { char_to_int_routine() } else { int_to_char_routine() };
    let head = r.take(1);
    let body = table_entries(to_int, 0, TABLE_SIZE as int);
    let tail = r.skip(1 + body.len() as int);
    assert(r =~= head + body + tail);
    lemma_max_forward(Some(0), head);
    lemma_depth_flat(Some(0), head);
    lemma_max_concat(Some(0), head, body);
    lemma_table_max(to_int, 0, TABLE_SIZE as int);
    lemma_depth_after_concat(Some(0), head, body);
    lemma_max_concat(Some(0), head + body, tail);
    lemma_max_forward(Some(0), tail);
    reveal_with_fuel(max_forward, 2);
}

proof fn lemma_preamble_max()
    ensures
        max_nesting(preamble()) <= 1,
{
    let a = int_to_char_routine();
    let b = char_to_int_routine();
    let c = seq![Cmd::DeclareChorus] + init_cmds();
    assert(preamble() =~= a + b + c);
    lemma_routine_depth(true);
    lemma_routine_depth(false);
    lemma_routine_max(true);
    lemma_routine_max(false);
    lemma_depth_after_concat(Some(0), a, b);
    lemma_max_concat(Some(0), a, b);
    lemma_max_concat(Some(0), a + b, c);
    lemma_max_forward(Some(0), c);
    reveal_with_fuel(max_forward, 13);
}

/// A lowered program nests at most one level deeper than its source is long:
/// each character opens at most one block.
pub proof fn lemma_lower_max_nesting(s: Seq<char>)
    ensures
        max_nesting(lower(s)) <= s.len() + 1,
{
    lemma_preamble_max();
    lemma_preamble_nesting();
    lemma_max_concat(Some(0), preamble(), lower_body(s));
    lemma_lower_body_max(s);
}

/// A width whose product with one more than the source length fits in an
/// `i64` meets the bound that rendering the lowered program asks for.
pub proof fn lemma_lowered_width_fits(s: Seq<char>, indent: int)
    requires
        indent <= 0 || (s.len() + 1) * indent <= i64::MAX,
    ensures
        indent <= 0 || max_nesting(lower(s)) * indent <= i64::MAX,
{
    lemma_lower_max_nesting(s);
    if indent > 0 {
        let m = max_nesting(lower(s));
        assert(m * indent <= (s.len() + 1) * indent) by (nonlinear_arith)
            requires
                m <= s.len() + 1,
                indent > 0,
        ;
    }
}


proof fn lemma_table_entries_len(to_int: bool, lo: int, hi: int)
    requires
        lo <= hi,
    ensures
        table_entries(to_int, lo, hi).len() == 3 * (hi - lo),
    decreases hi - lo,
{
    if lo < hi {
        lemma_table_entries_len(to_int, lo + 1, hi);
    }
}

proof fn lemma_table_entries_at(to_int: bool, lo: int, hi: int, k: int)
    requires
        lo <= k < hi,
    ensures
        table_entries(to_int, lo, hi).subrange(3 * (k - lo), 3 * (k - lo) + 3) == table_entry(
            to_int,
            k,
        ),
    decreases hi - lo,
{
    lemma_table_entries_len(to_int, lo + 1, hi);
    let all = table_entries(to_int, lo, hi);
    let rest = table_entries(to_int, lo + 1, hi);
    assert(all =~= table_entry(to_int, lo) + rest);
    if k == lo {
        assert(all.subrange(0, 3) =~= table_entry(to_int, lo));
    } else {
        lemma_table_entries_at(to_int, lo + 1, hi, k);
        assert(all.subrange(3 * (k - lo), 3 * (k - lo) + 3) =~= rest.subrange(
            3 * (k - lo - 1),
            3 * (k - lo - 1) + 3,
        ));
    }
}

/// A lowered program begins with the byte-to-character routine, then the
/// character-to-byte routine, each its header, one entry of three commands for
/// each table byte in ascending order (newline, then space through tilde),
/// and its fallback return; the main block marker follows them.
pub proof fn lemma_preamble_layout(s: Seq<char>, to_int: bool, k: int)
    requires
        0 <= k < TABLE_SIZE,
    ensures
        char_to_int_routine().len() == 3 * TABLE_SIZE + 2,
        int_to_char_routine().len() == 3 * TABLE_SIZE + 2,
        lower(s)[0] == Cmd::DeclareFn(Function::IntToChar(Var::Temp)),
        lower(s)[3 * TABLE_SIZE + 2] == Cmd::DeclareFn(Function::CharToInt(Var::Temp)),
        lower(s)[6 * TABLE_SIZE + 4] == Cmd::DeclareChorus,
        lower(s)[3 * TABLE_SIZE + 1] == Cmd::Return(Expr::Literal(Literal::Int(0))),
        lower(s)[6 * TABLE_SIZE + 3] == Cmd::Return(Expr::Literal(Literal::Char('$'))),
        (if to_int {
            char_to_int_routine()
        } else {
            int_to_char_routine()
        }).subrange(1 + 3 * k, 4 + 3 * k) == table_entry(to_int, k),
{
    lemma_table_entries_len(true, 0, TABLE_SIZE as int);
    lemma_table_entries_len(false, 0, TABLE_SIZE as int);
    lemma_table_entries_at(to_int, 0, TABLE_SIZE as int, k);
    let r = if to_int {
        char_to_int_routine()
    } else {
        int_to_char_routine()
    };
    let body = table_entries(to_int, 0, TABLE_SIZE as int);
    assert(r.subrange(1 + 3 * k, 4 + 3 * k) =~= body.subrange(3 * k, 3 * k + 3));
    let a = int_to_char_routine();
    let b = char_to_int_routine();
    assert(lower(s) =~= a + b + seq![Cmd::DeclareChorus] + init_cmds() + lower_body(s));
}

} // verus!
