use crate::ast::{Name, Stmt};
use crate::text::{alphanumeric, white_space};
use vstd::prelude::*;

verus! {

/// What a rule of the grammar took from the text: the value that it built and
/// the number of characters that it read.
pub struct Taken<T> {
    pub value: T,
    pub len: nat,
}

/// The number of characters of the text from `pos` on.
pub open spec fn remaining(s: Seq<char>, pos: nat) -> nat {
    if pos <= s.len() {
        (s.len() - pos) as nat
    } else {
        0
    }
}

/// Whether the text holds the characters of `tag` from `pos` on.
pub open spec fn has_tag(s: Seq<char>, pos: nat, tag: Seq<char>) -> bool {
    &&& pos + tag.len() <= s.len()
    &&& forall|i: int| 0 <= i < tag.len() ==> s[pos + i] == tag[i]
}

/// Whether the `len` characters of the text from `pos` on are those of `word`.
pub open spec fn is_word(s: Seq<char>, pos: nat, len: nat, word: Seq<char>) -> bool {
    len == word.len() && has_tag(s, pos, word)
}

/// The length of the name at `pos`: of the longest run of alphanumeric
/// characters that starts there. It may be 0.
pub open spec fn name_len(s: Seq<char>, pos: nat) -> nat
    decreases remaining(s, pos),
{
    if pos < s.len() && alphanumeric(s[pos as int]) {
        1 + name_len(s, pos + 1)
    } else {
        0
    }
}

/// The name at `pos`.
pub open spec fn name_at(s: Seq<char>, pos: nat) -> Name {
    s.subrange(pos as int, (pos + name_len(s, pos)) as int)
}

/// Whether a character ends the text of a comment.
pub open spec fn ends_comment(c: char) -> bool {
    c == '\r' || c == '\n' || c == ';'
}

/// The length of the text of a comment whose text starts at `pos`: of the
/// longest run of characters that do not end a comment.
pub open spec fn comment_text_len(s: Seq<char>, pos: nat) -> nat
    decreases remaining(s, pos),
{
    if pos < s.len() && !ends_comment(s[pos as int]) {
        1 + comment_text_len(s, pos + 1)
    } else {
        0
    }
}

/// The length of the comment at `pos`, if there is one: a `#` and the text
/// after it, unless that text is `endwhile` or `enddef`, which end a block.
pub open spec fn comment_len(s: Seq<char>, pos: nat) -> Option<nat> {
    if pos < s.len() && s[pos as int] == '#' {
        let len = comment_text_len(s, pos + 1);
        if is_word(s, pos + 1, len, "endwhile"@) || is_word(s, pos + 1, len, "enddef"@) {
            None
        } else {
            Some(1 + len)
        }
    } else {
        None
    }
}

/// Whether a character is skipped between the parts of a statement.
pub open spec fn is_blank(c: char) -> bool {
    c == ' ' || c == '\t' || c == '\r'
}

/// Whether a character can be skipped at `pos`: within a line the blanks,
/// across lines all white space.
pub open spec fn skips(c: char, across_lines: bool) -> bool {
    if across_lines {
        white_space(c)
    } else {
        is_blank(c)
    }
}

/// The length of what is skipped at `pos`: the longest run of characters that
/// can be skipped and of comments.
pub open spec fn skip_len(s: Seq<char>, pos: nat, across_lines: bool) -> nat
    decreases remaining(s, pos),
{
    if pos < s.len() && skips(s[pos as int], across_lines) {
        1 + skip_len(s, pos + 1, across_lines)
    } else {
        match comment_len(s, pos) {
            Some(len) => len + skip_len(s, pos + len, across_lines),
            None => 0,
        }
    }
}

/// Whether a character separates two statements.
pub open spec fn is_separator(c: char) -> bool {
    c == ';' || c == '\n'
}

/// The names that follow the first one in a list, each after a comma and
/// white space, from `pos` on.
pub open spec fn more_names(s: Seq<char>, pos: nat) -> Taken<Seq<Name>>
    decreases remaining(s, pos),
{
    if pos < s.len() && s[pos as int] == ',' {
        let start = pos + 1 + skip_len(s, pos + 1, true);
        let end = start + name_len(s, start);
        let rest = more_names(s, end);
        Taken { value: seq![name_at(s, start)] + rest.value, len: (end - pos + rest.len) as nat }
    } else {
        Taken { value: Seq::empty(), len: 0 }
    }
}

/// The list of names in parentheses at `pos`, if there is one. Since a name
/// may be empty, the list holds at least one name: `()` holds the empty name.
pub open spec fn names_at(s: Seq<char>, pos: nat) -> Option<Taken<Seq<Name>>> {
    if pos < s.len() && s[pos as int] == '(' {
        let start = pos + 1 + skip_len(s, pos + 1, true);
        let end = start + name_len(s, start);
        let rest = more_names(s, end);
        let close = end + rest.len;
        if close < s.len() && s[close as int] == ')' {
            Some(
                Taken {
                    value: seq![name_at(s, start)] + rest.value,
                    len: (close + 1 - pos) as nat,
                },
            )
        } else {
            None
        }
    } else {
        None
    }
}

/// An increment at `pos`: a name and `+=1`.
pub open spec fn incr_at(s: Seq<char>, pos: nat) -> Option<Taken<Stmt>> {
    let len = name_len(s, pos);
    if has_tag(s, pos + len, "+=1"@) {
        Some(Taken { value: Stmt::Incr { var_name: name_at(s, pos) }, len: len + "+=1"@.len() })
    } else {
        None
    }
}

/// A decrement at `pos`: a name and `-=1`.
pub open spec fn decr_at(s: Seq<char>, pos: nat) -> Option<Taken<Stmt>> {
    let len = name_len(s, pos);
    if has_tag(s, pos + len, "-=1"@) {
        Some(Taken { value: Stmt::Decr { var_name: name_at(s, pos) }, len: len + "-=1"@.len() })
    } else {
        None
    }
}

/// A return at `pos`: `return`, one space and a name.
pub open spec fn return_at(s: Seq<char>, pos: nat) -> Option<Taken<Stmt>> {
    if has_tag(s, pos, "return "@) {
        let start = pos + "return "@.len();
        Some(
            Taken {
                value: Stmt::Return { name: name_at(s, start) },
                len: "return "@.len() + name_len(s, start),
            },
        )
    } else {
        None
    }
}

/// A call at `pos`: a name, `=`, a name and a list of names.
pub open spec fn assign_at(s: Seq<char>, pos: nat) -> Option<Taken<Stmt>> {
    let target = name_len(s, pos);
    if has_tag(s, pos + target, "="@) {
        let start = pos + target + "="@.len();
        let callee = name_len(s, start);
        match names_at(s, start + callee) {
            Some(args) => Some(
                Taken {
                    value: Stmt::Assign {
                        var_name: name_at(s, pos),
                        fun_name: name_at(s, start),
                        args: args.value,
                    },
                    len: (start + callee + args.len - pos) as nat,
                },
            ),
            None => None,
        }
    } else {
        None
    }
}

/// The block that starts at `pos` and ends with the word `close`: white
/// space, statements, white space and the word.
pub open spec fn block_at(s: Seq<char>, pos: nat, close: Seq<char>) -> Option<Taken<Seq<Stmt>>>
    decreases remaining(s, pos), 6nat,
{
    let start = pos + skip_len(s, pos, true);
    let body = body_at(s, start);
    let end = start + body.len + skip_len(s, start + body.len, true);
    if has_tag(s, end, close) {
        Some(Taken { value: body.value, len: (end + close.len() - pos) as nat })
    } else {
        None
    }
}

/// A loop at `pos`: `while`, one space, a name, `!=0:` and a block that ends
/// with `#endwhile`.
pub open spec fn while_at(s: Seq<char>, pos: nat) -> Option<Taken<Stmt>>
    decreases remaining(s, pos), 1nat,
{
    if has_tag(s, pos, "while "@) {
        let start = pos + "while "@.len();
        let len = name_len(s, start);
        if has_tag(s, start + len, "!=0:"@) {
            proof {
                reveal_strlit("while ");
            }
            match block_at(s, start + len + "!=0:"@.len(), "#endwhile"@) {
                Some(body) => Some(
                    Taken {
                        value: Stmt::While { cond_var: name_at(s, start), body: body.value },
                        len: "while "@.len() + len + "!=0:"@.len() + body.len,
                    },
                ),
                None => None,
            }
        } else {
            None
        }
    } else {
        None
    }
}

/// A definition at `pos`: `def`, one space, a name, a list of names, `:` and
/// a block that ends with `#enddef`.
pub open spec fn def_at(s: Seq<char>, pos: nat) -> Option<Taken<Stmt>>
    decreases remaining(s, pos), 1nat,
{
    if has_tag(s, pos, "def "@) {
        let start = pos + "def "@.len();
        let len = name_len(s, start);
        match names_at(s, start + len) {
            Some(parameters) => {
                let colon = start + len + parameters.len;
                if has_tag(s, colon, ":"@) {
                    proof {
                        reveal_strlit("def ");
                    }
                    match block_at(s, colon + ":"@.len(), "#enddef"@) {
                        Some(body) => Some(
                            Taken {
                                value: Stmt::Def {
                                    name: name_at(s, start),
                                    parameters: parameters.value,
                                    body: body.value,
                                },
                                len: "def "@.len() + len + parameters.len + ":"@.len() + body.len,
                            },
                        ),
                        None => None,
                    }
                } else {
                    None
                }
            },
            None => None,
        }
    } else {
        None
    }
}

/// The statement proper at `pos`: the first of an increment, a decrement, a
/// return, a call, a loop and a definition that the text holds there.
pub open spec fn core_at(s: Seq<char>, pos: nat) -> Option<Taken<Stmt>>
    decreases remaining(s, pos), 2nat,
{
    if incr_at(s, pos) is Some {
        incr_at(s, pos)
    } else if decr_at(s, pos) is Some {
        decr_at(s, pos)
    } else if return_at(s, pos) is Some {
        return_at(s, pos)
    } else if assign_at(s, pos) is Some {
        assign_at(s, pos)
    } else if while_at(s, pos) is Some {
        while_at(s, pos)
    } else {
        def_at(s, pos)
    }
}

/// The statement at `pos`, with the blanks and comments before and after it.
pub open spec fn stmt_at(s: Seq<char>, pos: nat) -> Option<Taken<Stmt>>
    decreases remaining(s, pos), 3nat,
{
    let start = pos + skip_len(s, pos, false);
    match core_at(s, start) {
        Some(core) => {
            let end = start + core.len;
            Some(Taken { value: core.value, len: (end + skip_len(s, end, false) - pos) as nat })
        },
        None => None,
    }
}

/// The statements that follow the first one of a sequence, from `pos` on:
/// each after a separator and white space. The sequence ends before a
/// separator that no statement follows.
pub open spec fn more_stmts(s: Seq<char>, pos: nat) -> Taken<Seq<Stmt>>
    decreases remaining(s, pos), 4nat,
{
    if pos < s.len() && is_separator(s[pos as int]) {
        let start = pos + 1 + skip_len(s, pos + 1, true);
        match stmt_at(s, start) {
            Some(stmt) => {
                let rest = more_stmts(s, start + stmt.len);
                Taken {
                    value: seq![stmt.value] + rest.value,
                    len: (start + stmt.len + rest.len - pos) as nat,
                }
            },
            None => Taken { value: Seq::empty(), len: 0 },
        }
    } else {
        Taken { value: Seq::empty(), len: 0 }
    }
}

/// The sequence of statements at `pos`: as many statements as the text holds
/// there, and one separator after them if there is one. It may be empty.
pub open spec fn body_at(s: Seq<char>, pos: nat) -> Taken<Seq<Stmt>>
    decreases remaining(s, pos), 5nat,
{
    let stmts = match stmt_at(s, pos) {
        Some(first) => {
            let rest = more_stmts(s, pos + first.len);
            Taken { value: seq![first.value] + rest.value, len: first.len + rest.len }
        },
        None => Taken { value: Seq::empty(), len: 0 },
    };
    let end = pos + stmts.len;
    if end < s.len() && is_separator(s[end as int]) {
        Taken { value: stmts.value, len: stmts.len + 1 }
    } else {
        stmts
    }
}

/// The program that a text holds: its sequence of statements, where that
/// sequence takes the whole text.
pub open spec fn program_of(s: Seq<char>) -> Option<Seq<Stmt>> {
    if body_at(s, 0).len == s.len() {
        Some(body_at(s, 0).value)
    } else {
        None
    }
}

/// What an interactive script declares: the variables whose values are asked
/// for, in order; the variable whose value is the result; and the program.
pub struct Script {
    pub inputs: Seq<Name>,
    pub output: Name,
    pub program: Seq<Stmt>,
}

/// What a text lacks to be an interactive script.
#[derive(Debug, PartialEq, Eq, Clone, Copy)]
pub enum Missing {
    /// The word `input`, at the start.
    Input,
    /// The list of the input variables, after `input`.
    Names,
    /// The word `output` and a space, after the statements.
    Output,
    /// The end of the text, after the output variable.
    End,
}

/// The interactive script that a text holds, or the position at which the
/// text lacks something, and what it lacks there. A script is the word
/// `input` and a list of names, a sequence of statements, and the word
/// `output`, a space and a name; white space and comments may stand before
/// and after each of the three.
pub open spec fn script_of(s: Seq<char>) -> Result<Script, (nat, Missing)> {
    let start = skip_len(s, 0, true);
    if !has_tag(s, start, "input"@) {
        Err((start, Missing::Input))
    } else {
        let list = start + "input"@.len();
        match names_at(s, list) {
            None => Err((list, Missing::Names)),
            Some(inputs) => {
                let first = list + inputs.len + skip_len(s, list + inputs.len, true);
                let body = body_at(s, first);
                let word = first + body.len + skip_len(s, first + body.len, true);
                if !has_tag(s, word, "output "@) {
                    Err((word, Missing::Output))
                } else {
                    let name = word + "output "@.len();
                    let last = name + name_len(s, name);
                    let end = last + skip_len(s, last, true);
                    if end == s.len() {
                        Ok(
                            Script {
                                inputs: inputs.value,
                                output: name_at(s, name),
                                program: body.value,
                            },
                        )
                    } else {
                        Err((end, Missing::End))
                    }
                }
            },
        }
    }
}

} // verus!
