use crate::grammar::{
    assign_at, block_at, body_at, comment_len, comment_text_len, core_at, decr_at, def_at,
    has_tag, incr_at, more_names, more_stmts, name_len, names_at, program_of, remaining,
    return_at, skip_len, stmt_at, while_at,
};
use vstd::prelude::*;

verus! {

/// A name ends within the text.
pub proof fn law_name_within(s: Seq<char>, pos: nat)
    ensures
        name_len(s, pos) <= remaining(s, pos),
    decreases remaining(s, pos),
{
    if pos < s.len() {
        law_name_within(s, pos + 1);
    }
}

/// The text of a comment ends within the text.
pub proof fn law_comment_text_within(s: Seq<char>, pos: nat)
    ensures
        comment_text_len(s, pos) <= remaining(s, pos),
    decreases remaining(s, pos),
{
    if pos < s.len() {
        law_comment_text_within(s, pos + 1);
    }
}

/// A comment holds at least its `#`, and ends within the text.
pub proof fn law_comment_within(s: Seq<char>, pos: nat)
    ensures
        comment_len(s, pos) matches Some(len) ==> 1 <= len <= remaining(s, pos),
{
    law_comment_text_within(s, pos + 1);
}

/// What is skipped ends within the text.
pub proof fn law_skip_within(s: Seq<char>, pos: nat, across_lines: bool)
    ensures
        skip_len(s, pos, across_lines) <= remaining(s, pos),
    decreases remaining(s, pos),
{
    law_comment_within(s, pos);
    if pos < s.len() {
        law_skip_within(s, pos + 1, across_lines);
        match comment_len(s, pos) {
            Some(len) => law_skip_within(s, pos + len, across_lines),
            None => {},
        }
    }
}

/// The names after the first one of a list end within the text.
pub proof fn law_more_names_within(s: Seq<char>, pos: nat)
    ensures
        more_names(s, pos).len <= remaining(s, pos),
    decreases remaining(s, pos),
{
    if pos < s.len() && s[pos as int] == ',' {
        let start = pos + 1 + skip_len(s, pos + 1, true);
        law_skip_within(s, pos + 1, true);
        law_name_within(s, start);
        law_more_names_within(s, start + name_len(s, start));
    }
}

/// A list of names holds at least its parentheses, and ends within the text.
pub proof fn law_names_within(s: Seq<char>, pos: nat)
    ensures
        names_at(s, pos) matches Some(list) ==> 2 <= list.len <= remaining(s, pos),
{
    if pos < s.len() {
        let start = pos + 1 + skip_len(s, pos + 1, true);
        law_skip_within(s, pos + 1, true);
        law_name_within(s, start);
        law_more_names_within(s, start + name_len(s, start));
    }
}

/// An increment, a decrement, a return and a call each hold at least one
/// character, and end within the text.
pub proof fn law_simple_statements_within(s: Seq<char>, pos: nat)
    requires
        pos <= s.len(),
    ensures
        incr_at(s, pos) matches Some(stmt) ==> 1 <= stmt.len <= remaining(s, pos),
        decr_at(s, pos) matches Some(stmt) ==> 1 <= stmt.len <= remaining(s, pos),
        return_at(s, pos) matches Some(stmt) ==> 1 <= stmt.len <= remaining(s, pos),
        assign_at(s, pos) matches Some(stmt) ==> 1 <= stmt.len <= remaining(s, pos),
{
    reveal_strlit("+=1");
    reveal_strlit("-=1");
    reveal_strlit("return ");
    reveal_strlit("=");
    law_name_within(s, pos);
    law_name_within(s, pos + "return "@.len());
    let start = pos + name_len(s, pos) + "="@.len();
    law_name_within(s, start);
    law_names_within(s, start + name_len(s, start));
}

/// A block ends within the text.
pub proof fn law_block_within(s: Seq<char>, pos: nat, close: Seq<char>)
    requires
        pos <= s.len(),
    ensures
        block_at(s, pos, close) matches Some(block) ==> block.len <= remaining(s, pos),
    decreases remaining(s, pos), 6nat,
{
    let start = pos + skip_len(s, pos, true);
    law_skip_within(s, pos, true);
    law_body_within(s, start);
    law_skip_within(s, start + body_at(s, start).len, true);
}

/// A loop holds at least one character, and ends within the text.
pub proof fn law_while_within(s: Seq<char>, pos: nat)
    requires
        pos <= s.len(),
    ensures
        while_at(s, pos) matches Some(stmt) ==> 1 <= stmt.len <= remaining(s, pos),
    decreases remaining(s, pos), 1nat,
{
    reveal_strlit("while ");
    if has_tag(s, pos, "while "@) {
        let start = pos + "while "@.len();
        let len = name_len(s, start);
        law_name_within(s, start);
        if has_tag(s, start + len, "!=0:"@) {
            law_block_within(s, start + len + "!=0:"@.len(), "#endwhile"@);
        }
    }
}

/// A definition holds at least one character, and ends within the text.
pub proof fn law_def_within(s: Seq<char>, pos: nat)
    requires
        pos <= s.len(),
    ensures
        def_at(s, pos) matches Some(stmt) ==> 1 <= stmt.len <= remaining(s, pos),
    decreases remaining(s, pos), 1nat,
{
    reveal_strlit("def ");
    if has_tag(s, pos, "def "@) {
        let start = pos + "def "@.len();
        let len = name_len(s, start);
        law_name_within(s, start);
        law_names_within(s, start + len);
        match names_at(s, start + len) {
            Some(parameters) => {
                let colon = start + len + parameters.len;
                if has_tag(s, colon, ":"@) {
                    law_block_within(s, colon + ":"@.len(), "#enddef"@);
                }
            },
            None => {},
        }
    }
}

/// A statement proper holds at least one character, and ends within the
/// text.
pub proof fn law_core_within(s: Seq<char>, pos: nat)
    requires
        pos <= s.len(),
    ensures
        core_at(s, pos) matches Some(stmt) ==> 1 <= stmt.len <= remaining(s, pos),
    decreases remaining(s, pos), 2nat,
{
    law_simple_statements_within(s, pos);
    law_while_within(s, pos);
    law_def_within(s, pos);
}

/// A statement holds at least one character, and ends within the text.
pub proof fn law_stmt_within(s: Seq<char>, pos: nat)
    requires
        pos <= s.len(),
    ensures
        stmt_at(s, pos) matches Some(stmt) ==> 1 <= stmt.len <= remaining(s, pos),
    decreases remaining(s, pos), 3nat,
{
    let start = pos + skip_len(s, pos, false);
    law_skip_within(s, pos, false);
    law_core_within(s, start);
    match core_at(s, start) {
        Some(core) => law_skip_within(s, start + core.len, false),
        None => {},
    }
}

/// The statements after the first one of a sequence end within the text.
pub proof fn law_more_stmts_within(s: Seq<char>, pos: nat)
    requires
        pos <= s.len(),
    ensures
        more_stmts(s, pos).len <= remaining(s, pos),
    decreases remaining(s, pos), 4nat,
{
    if pos < s.len() {
        let start = pos + 1 + skip_len(s, pos + 1, true);
        law_skip_within(s, pos + 1, true);
        law_stmt_within(s, start);
        match stmt_at(s, start) {
            Some(stmt) => law_more_stmts_within(s, start + stmt.len),
            None => {},
        }
    }
}

/// A sequence of statements ends within the text.
pub proof fn law_body_within(s: Seq<char>, pos: nat)
    requires
        pos <= s.len(),
    ensures
        body_at(s, pos).len <= remaining(s, pos),
    decreases remaining(s, pos), 5nat,
{
    law_stmt_within(s, pos);
    match stmt_at(s, pos) {
        Some(first) => law_more_stmts_within(s, pos + first.len),
        None => {},
    }
}

/// A text is a program, or its statements end before its end: there the
/// error of `program` points.
pub proof fn law_program_or_position(s: Seq<char>)
    ensures
        program_of(s) is Some || body_at(s, 0).len < s.len(),
{
    law_body_within(s, 0);
}

} // verus!
