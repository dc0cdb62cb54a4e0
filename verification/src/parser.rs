use crate::ast::{names_of, stmts_of, Ast, Name, Stmt};
use crate::grammar::{
    assign_at, block_at, body_at, comment_len, comment_text_len, core_at, decr_at, def_at,
    has_tag, incr_at, is_separator, more_names, more_stmts, name_at, name_len, names_at,
    program_of, return_at, script_of, skip_len, stmt_at, while_at, Missing, Script, Taken,
};
use crate::decimal::{digits_of, write_count};
use crate::text::{is_alphanumeric, is_whitespace, push_char};
use vstd::prelude::*;
use vstd::string::*;

verus! {

/// Why a text is not a program: it reads as statements up to `position` and
/// no further, and there, where the text should end, stands `found`.
#[derive(Debug, PartialEq, Eq, Clone, Copy)]
pub struct ParseError {
    pub position: usize,
    pub found: char,
}

/// A parse error in words.
pub open spec fn parse_error_text(error: ParseError) -> Seq<char> {
    ("Mismatch at "@ + digits_of(error.position as nat) + ": expect end of input, found: "@).push(
        error.found,
    )
}

impl ParseError {
    /// The error in words.
    pub fn to_text(&self) -> (text: String)
        ensures
            text@ == parse_error_text(*self),
    {
        let mut text = String::new();
        text.append("Mismatch at ");
        write_count(self.position, &mut text);
        text.append(": expect end of input, found: ");
        push_char(&mut text, self.found);
        assert(text@ =~= parse_error_text(*self));
        text
    }
}

/// The position after `tag`, if the text holds `tag` at `pos`.
fn tag_end(input: &[char], pos: usize, tag: &str) -> (end: Option<usize>)
    requires
        pos <= input.len(),
    ensures
        match end {
            Some(end) => has_tag(input@, pos as nat, tag@) && end == pos + tag@.len(),
            None => !has_tag(input@, pos as nat, tag@),
        },
{
    let len = tag.unicode_len();
    if len > input.len() - pos {
        return None;
    }
    let mut i: usize = 0;
    while i < len
        invariant
            i <= len,
            len == tag@.len(),
            pos + len <= input.len(),
            forall|j: int| 0 <= j < i ==> input@[pos + j] == tag@[j],
        decreases len - i,
    {
        if input[pos + i] != tag.get_char(i) {
            return None;
        }
        i += 1;
    }
    Some(pos + len)
}

/// The characters of the text from `start` up to `end`, as a string.
fn text_between(input: &[char], start: usize, end: usize) -> (text: String)
    requires
        start <= end <= input.len(),
    ensures
        text@ == input@.subrange(start as int, end as int),
{
    let mut text = String::new();
    let mut i: usize = start;
    while i < end
        invariant
            start <= i <= end <= input.len(),
            text@ == input@.subrange(start as int, i as int),
        decreases end - i,
    {
        push_char(&mut text, input[i]);
        assert(input@.subrange(start as int, i + 1) == input@.subrange(start as int, i as int).push(
            input@[i as int],
        ));
        i += 1;
    }
    text
}

/// The position after the name at `pos`.
fn name_end(input: &[char], pos: usize) -> (end: usize)
    requires
        pos <= input.len(),
    ensures
        end == pos + name_len(input@, pos as nat),
        end <= input.len(),
{
    let mut end: usize = pos;
    while end < input.len() && is_alphanumeric(input[end])
        invariant
            pos <= end <= input.len(),
            name_len(input@, pos as nat) == (end - pos) + name_len(input@, end as nat),
        decreases input.len() - end,
    {
        end += 1;
    }
    end
}

/// The name at `pos` and the position after it.
fn var_name(input: &[char], pos: usize) -> (name: (String, usize))
    requires
        pos <= input.len(),
    ensures
        name.0@ == name_at(input@, pos as nat),
        name.1 == pos + name_len(input@, pos as nat),
        name.1 <= input.len(),
{
    let end = name_end(input, pos);
    (text_between(input, pos, end), end)
}

/// The position after the comment at `pos`, if there is one.
fn comment(input: &[char], pos: usize) -> (end: Option<usize>)
    requires
        pos <= input.len(),
    ensures
        match comment_len(input@, pos as nat) {
            Some(len) => end == Some((pos + len) as usize) && pos + len <= input.len(),
            None => end is None,
        },
{
    if pos >= input.len() || input[pos] != '#' {
        return None;
    }
    let start: usize = pos + 1;
    let mut end: usize = start;
    while end < input.len() && input[end] != '\r' && input[end] != '\n' && input[end] != ';'
        invariant
            start <= end <= input.len(),
            comment_text_len(input@, start as nat) == (end - start) + comment_text_len(
                input@,
                end as nat,
            ),
        decreases input.len() - end,
    {
        end += 1;
    }
    let closes_loop = match tag_end(input, start, "endwhile") {
        Some(after) => after == end,
        None => false,
    };
    let closes_def = match tag_end(input, start, "enddef") {
        Some(after) => after == end,
        None => false,
    };
    if closes_loop || closes_def {
        None
    } else {
        Some(end)
    }
}

/// The position after what is skipped at `pos`: characters that can be
/// skipped, and comments.
fn skip(input: &[char], pos: usize, across_lines: bool) -> (end: usize)
    requires
        pos <= input.len(),
    ensures
        end == pos + skip_len(input@, pos as nat, across_lines),
        end <= input.len(),
{
    let mut end: usize = pos;
    loop
        invariant
            pos <= end <= input.len(),
            skip_len(input@, pos as nat, across_lines) == (end - pos) + skip_len(
                input@,
                end as nat,
                across_lines,
            ),
        decreases input.len() - end,
    {
        let skipped = end < input.len() && if across_lines {
            is_whitespace(input[end])
        } else {
            input[end] == ' ' || input[end] == '\t' || input[end] == '\r'
        };
        if skipped {
            end += 1;
        } else {
            match comment(input, end) {
                Some(after) => {
                    end = after;
                },
                None => {
                    return end;
                },
            }
        }
    }
}

/// The position after the blanks and comments at `pos`.
fn spaces(input: &[char], pos: usize) -> (end: usize)
    requires
        pos <= input.len(),
    ensures
        end == pos + skip_len(input@, pos as nat, false),
        end <= input.len(),
{
    skip(input, pos, false)
}

/// The position after the white space and comments at `pos`.
fn whitespace(input: &[char], pos: usize) -> (end: usize)
    requires
        pos <= input.len(),
    ensures
        end == pos + skip_len(input@, pos as nat, true),
        end <= input.len(),
{
    skip(input, pos, true)
}

/// The position after the separator at `pos`, if there is one.
fn separator(input: &[char], pos: usize) -> (end: Option<usize>)
    requires
        pos <= input.len(),
    ensures
        match end {
            Some(end) => pos < input.len() && is_separator(input@[pos as int]) && end == pos + 1,
            None => !(pos < input.len() && is_separator(input@[pos as int])),
        },
{
    if pos < input.len() && (input[pos] == ';' || input[pos] == '\n') {
        Some(pos + 1)
    } else {
        None
    }
}

/// The names of a vector that has grown by one string.
proof fn lemma_names_of_push(names: Seq<String>, name: String)
    ensures
        names_of(names.push(name)) == names_of(names).push(name@),
{
    assert(names_of(names.push(name)) =~= names_of(names).push(name@));
}

/// The statements of a vector that has grown by one tree.
proof fn lemma_stmts_of_push(trees: Seq<Ast>, tree: Ast)
    ensures
        stmts_of(trees.push(tree)) == stmts_of(trees).push(tree@),
{
    assert(stmts_of(trees.push(tree)) =~= stmts_of(trees).push(tree@));
}

/// The increment at `pos`, if there is one, and the position after it.
fn incr(input: &[char], pos: usize) -> (found: Option<(Ast, usize)>)
    requires
        pos <= input.len(),
    ensures
        parsed(found, incr_at(input@, pos as nat), input@, pos),
{
    let name = name_end(input, pos);
    match tag_end(input, name, "+=1") {
        Some(end) => Some((Ast::Incr { var_name: text_between(input, pos, name) }, end)),
        None => None,
    }
}

/// The decrement at `pos`, if there is one, and the position after it.
fn decr(input: &[char], pos: usize) -> (found: Option<(Ast, usize)>)
    requires
        pos <= input.len(),
    ensures
        parsed(found, decr_at(input@, pos as nat), input@, pos),
{
    let name = name_end(input, pos);
    match tag_end(input, name, "-=1") {
        Some(end) => Some((Ast::Decr { var_name: text_between(input, pos, name) }, end)),
        None => None,
    }
}

/// The return at `pos`, if there is one, and the position after it.
fn return_expr(input: &[char], pos: usize) -> (found: Option<(Ast, usize)>)
    requires
        pos <= input.len(),
    ensures
        parsed(found, return_at(input@, pos as nat), input@, pos),
{
    match tag_end(input, pos, "return ") {
        Some(start) => {
            let (name, end) = var_name(input, start);
            Some((Ast::Return { name }, end))
        },
        None => None,
    }
}

/// The list of names in parentheses at `pos`, if there is one, and the
/// position after it.
fn args(input: &[char], pos: usize) -> (list: Option<(Vec<String>, usize)>)
    requires
        pos <= input.len(),
    ensures
        match names_at(input@, pos as nat) {
            Some(taken) => list matches Some((names, end)) && names_of(names@) == taken.value
                && end == pos + taken.len && end <= input.len(),
            None => list is None,
        },
{
    if pos >= input.len() || input[pos] != '(' {
        return None;
    }
    let start = whitespace(input, pos + 1);
    let (first, first_end) = var_name(input, start);
    let ghost goal = more_names(input@, first_end as nat);
    let ghost head = seq![name_at(input@, start as nat)];
    let mut names: Vec<String> = Vec::new();
    names.push(first);
    assert(names_of(names@) =~= head);
    let mut at: usize = first_end;
    while at < input.len() && input[at] == ','
        invariant
            first_end <= at <= input.len(),
            names_of(names@) + more_names(input@, at as nat).value == head + goal.value,
            (at - first_end) + more_names(input@, at as nat).len == goal.len,
        decreases input.len() - at,
    {
        let ghost before = names_of(names@);
        let ghost rest = more_names(input@, at as nat);
        let start = whitespace(input, at + 1);
        let (name, end) = var_name(input, start);
        proof {
            lemma_names_of_push(names@, name);
            let after = more_names(input@, end as nat);
            assert(rest.value == seq![name@] + after.value);
            assert(before.push(name@) + after.value =~= before + (seq![name@] + after.value));
        }
        names.push(name);
        at = end;
    }
    assert(more_names(input@, at as nat).value =~= Seq::<Name>::empty());
    assert(names_of(names@) + Seq::<Name>::empty() =~= names_of(names@));
    if at < input.len() && input[at] == ')' {
        Some((names, at + 1))
    } else {
        None
    }
}

/// The call at `pos`, if there is one, and the position after it.
fn assign(input: &[char], pos: usize) -> (found: Option<(Ast, usize)>)
    requires
        pos <= input.len(),
    ensures
        parsed(found, assign_at(input@, pos as nat), input@, pos),
{
    let target = name_end(input, pos);
    let start = match tag_end(input, target, "=") {
        Some(start) => start,
        None => {
            return None;
        },
    };
    let (fun_name, callee) = var_name(input, start);
    match args(input, callee) {
        Some((arguments, end)) => Some(
            (
                Ast::Assign {
                    var_name: text_between(input, pos, target),
                    fun_name,
                    args: arguments,
                },
                end,
            ),
        ),
        None => None,
    }
}

/// What a rule found says what the grammar says: nothing where the grammar
/// has nothing at `pos`; else the tree of the grammar's statement and the
/// position after the characters that it took, within the text.
spec fn parsed(
    found: Option<(Ast, usize)>,
    rule: Option<Taken<Stmt>>,
    s: Seq<char>,
    pos: usize,
) -> bool {
    match rule {
        Some(taken) => found matches Some((tree, end)) && tree@ == taken.value && end == pos
            + taken.len && end <= s.len(),
        None => found is None,
    }
}

/// The block at `pos` that ends with `close`, if there is one: its
/// statements, and the position after it.
fn block(input: &[char], pos: usize, close: &str) -> (found: Option<(Vec<Ast>, usize)>)
    requires
        pos <= input.len(),
    ensures
        match block_at(input@, pos as nat, close@) {
            Some(taken) => found matches Some((trees, end)) && stmts_of(trees@) == taken.value
                && end == pos + taken.len && end <= input.len(),
            None => found is None,
        },
    decreases input.len() - pos, 6nat,
{
    let start = whitespace(input, pos);
    let (trees, end) = body(input, start);
    let end = whitespace(input, end);
    match tag_end(input, end, close) {
        Some(end) => Some((trees, end)),
        None => None,
    }
}

/// The loop at `pos`, if there is one, and the position after it.
fn while_expr(input: &[char], pos: usize) -> (found: Option<(Ast, usize)>)
    requires
        pos <= input.len(),
    ensures
        parsed(found, while_at(input@, pos as nat), input@, pos),
    decreases input.len() - pos, 1nat,
{
    let start = match tag_end(input, pos, "while ") {
        Some(start) => start,
        None => {
            return None;
        },
    };
    let (cond_var, end) = var_name(input, start);
    let inner = match tag_end(input, end, "!=0:") {
        Some(inner) => inner,
        None => {
            return None;
        },
    };
    proof {
        reveal_strlit("while ");
    }
    match block(input, inner, "#endwhile") {
        Some((body, end)) => Some((Ast::While { cond_var, body }, end)),
        None => None,
    }
}

/// The definition at `pos`, if there is one, and the position after it.
fn def_expr(input: &[char], pos: usize) -> (found: Option<(Ast, usize)>)
    requires
        pos <= input.len(),
    ensures
        parsed(found, def_at(input@, pos as nat), input@, pos),
    decreases input.len() - pos, 1nat,
{
    let start = match tag_end(input, pos, "def ") {
        Some(start) => start,
        None => {
            return None;
        },
    };
    let (name, end) = var_name(input, start);
    let (parameters, colon) = match args(input, end) {
        Some(list) => list,
        None => {
            return None;
        },
    };
    let inner = match tag_end(input, colon, ":") {
        Some(inner) => inner,
        None => {
            return None;
        },
    };
    proof {
        reveal_strlit("def ");
    }
    match block(input, inner, "#enddef") {
        Some((body, end)) => Some((Ast::Def { name, parameters, body }, end)),
        None => None,
    }
}

/// The statement proper at `pos`, if there is one, and the position after
/// it: the first of the six kinds of statement that the text holds there.
fn statement(input: &[char], pos: usize) -> (found: Option<(Ast, usize)>)
    requires
        pos <= input.len(),
    ensures
        parsed(found, core_at(input@, pos as nat), input@, pos),
    decreases input.len() - pos, 2nat,
{
    match incr(input, pos) {
        Some(found) => {
            return Some(found);
        },
        None => {},
    }
    match decr(input, pos) {
        Some(found) => {
            return Some(found);
        },
        None => {},
    }
    match return_expr(input, pos) {
        Some(found) => {
            return Some(found);
        },
        None => {},
    }
    match assign(input, pos) {
        Some(found) => {
            return Some(found);
        },
        None => {},
    }
    match while_expr(input, pos) {
        Some(found) => {
            return Some(found);
        },
        None => {},
    }
    def_expr(input, pos)
}

/// The statement at `pos`, with the blanks and comments before and after
/// it, if there is one, and the position after it.
fn expression(input: &[char], pos: usize) -> (found: Option<(Ast, usize)>)
    requires
        pos <= input.len(),
    ensures
        parsed(found, stmt_at(input@, pos as nat), input@, pos),
    decreases input.len() - pos, 3nat,
{
    let start = spaces(input, pos);
    match statement(input, start) {
        Some((tree, end)) => Some((tree, spaces(input, end))),
        None => None,
    }
}

/// The sequence of statements at `pos`, and the position after it.
fn body(input: &[char], pos: usize) -> (found: (Vec<Ast>, usize))
    requires
        pos <= input.len(),
    ensures
        stmts_of(found.0@) == body_at(input@, pos as nat).value,
        found.1 == pos + body_at(input@, pos as nat).len,
        found.1 <= input.len(),
    decreases input.len() - pos, 5nat,
{
    let mut trees: Vec<Ast> = Vec::new();
    let mut at: usize = pos;
    assert(stmts_of(trees@) =~= Seq::<Stmt>::empty());
    match expression(input, pos) {
        Some((first, first_end)) => {
            let ghost goal = more_stmts(input@, first_end as nat);
            let ghost head = seq![first@];
            proof {
                lemma_stmts_of_push(trees@, first);
            }
            trees.push(first);
            assert(stmts_of(trees@) =~= head);
            at = first_end;
            loop
                invariant
                    pos <= first_end <= at <= input.len(),
                    stmts_of(trees@) + more_stmts(input@, at as nat).value == head + goal.value,
                    (at - first_end) + more_stmts(input@, at as nat).len == goal.len,
                ensures
                    pos <= at <= input.len(),
                    stmts_of(trees@) == head + goal.value,
                    at - first_end == goal.len,
                decreases input.len() - at,
            {
                let ghost before = stmts_of(trees@);
                let ghost rest = more_stmts(input@, at as nat);
                let start = match separator(input, at) {
                    Some(after) => whitespace(input, after),
                    None => {
                        assert(before + Seq::<Stmt>::empty() =~= before);
                        break ;
                    },
                };
                match expression(input, start) {
                    Some((tree, end)) => {
                        proof {
                            lemma_stmts_of_push(trees@, tree);
                            let after = more_stmts(input@, end as nat);
                            assert(rest.value == seq![tree@] + after.value);
                            assert(before.push(tree@) + after.value =~= before + (seq![tree@]
                                + after.value));
                        }
                        trees.push(tree);
                        at = end;
                    },
                    None => {
                        assert(before + Seq::<Stmt>::empty() =~= before);
                        break ;
                    },
                }
            }
        },
        None => {},
    }
    match separator(input, at) {
        Some(end) => (trees, end),
        None => (trees, at),
    }
}

/// Reads a program: the statements that the text holds, where they take the
/// whole text; else the position at which they end, and the character there.
pub fn program(input: &[char]) -> (result: Result<Vec<Ast>, ParseError>)
    ensures
        match program_of(input@) {
            Some(stmts) => result matches Ok(trees) && stmts_of(trees@) == stmts,
            None => result matches Err(error) && error.position == body_at(input@, 0).len
                && error.position < input.len() && error.found == input@[error.position as int],
        },
{
    let (trees, end) = body(input, 0);
    if end < input.len() {
        Err(ParseError { position: end, found: input[end] })
    } else {
        Ok(trees)
    }
}

/// An interactive script: the variables whose values are asked for, in
/// order; the variable whose value is the result; and the program.
#[derive(Debug, PartialEq, Eq)]
pub struct InteractiveProgram {
    pub inputs: Vec<String>,
    pub output: String,
    pub program: Vec<Ast>,
}

impl View for InteractiveProgram {
    type V = Script;

    open spec fn view(&self) -> Script {
        Script {
            inputs: names_of(self.inputs@),
            output: self.output@,
            program: stmts_of(self.program@),
        }
    }
}

/// Why a text is not an interactive script: what it lacks, and where.
#[derive(Debug, PartialEq, Eq, Clone, Copy)]
pub struct ScriptError {
    pub position: usize,
    pub missing: Missing,
}

/// What a text lacks, in words.
pub open spec fn missing_text(missing: Missing) -> Seq<char> {
    match missing {
        Missing::Input => "input"@,
        Missing::Names => "the input variables"@,
        Missing::Output => "output"@,
        Missing::End => "end of input"@,
    }
}

/// A script error in words.
pub open spec fn script_error_text(error: ScriptError) -> Seq<char> {
    "Mismatch at "@ + digits_of(error.position as nat) + ": expect "@ + missing_text(error.missing)
}

impl ScriptError {
    /// The error in words.
    pub fn to_text(&self) -> (text: String)
        ensures
            text@ == script_error_text(*self),
    {
        let mut text = String::new();
        text.append("Mismatch at ");
        write_count(self.position, &mut text);
        text.append(": expect ");
        match self.missing {
            Missing::Input => text.append("input"),
            Missing::Names => text.append("the input variables"),
            Missing::Output => text.append("output"),
            Missing::End => text.append("end of input"),
        }
        assert(text@ =~= script_error_text(*self));
        text
    }
}

/// Reads an interactive script: its input variables, its program and its
/// output variable; else the position at which the text lacks something,
/// and what it lacks there.
pub fn interactive_program(input: &[char]) -> (result: Result<InteractiveProgram, ScriptError>)
    ensures
        match script_of(input@) {
            Ok(script) => result matches Ok(found) && found@ == script,
            Err((position, missing)) => result matches Err(error) && error.position == position
                && error.missing == missing,
        },
{
    let start = whitespace(input, 0);
    let list = match tag_end(input, start, "input") {
        Some(list) => list,
        None => {
            return Err(ScriptError { position: start, missing: Missing::Input });
        },
    };
    let (inputs, after) = match args(input, list) {
        Some(found) => found,
        None => {
            return Err(ScriptError { position: list, missing: Missing::Names });
        },
    };
    let first = whitespace(input, after);
    let (trees, end) = body(input, first);
    let word = whitespace(input, end);
    let name = match tag_end(input, word, "output ") {
        Some(name) => name,
        None => {
            return Err(ScriptError { position: word, missing: Missing::Output });
        },
    };
    let (output, last) = var_name(input, name);
    let end = whitespace(input, last);
    if end < input.len() {
        Err(ScriptError { position: end, missing: Missing::End })
    } else {
        Ok(InteractiveProgram { inputs, output, program: trees })
    }
}

} // verus!
