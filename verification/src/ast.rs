use vstd::prelude::*;
use vstd::string::*;

verus! {

/// A statement of the language, as the parser builds it and the interpreter
/// walks it.
#[derive(Debug, PartialEq, Eq)]
pub enum Ast {
    Def { name: String, parameters: Vec<String>, body: Vec<Ast> },
    Return { name: String },
    While { cond_var: String, body: Vec<Ast> },
    Assign { var_name: String, fun_name: String, args: Vec<String> },
    Incr { var_name: String },
    Decr { var_name: String },
}

/// A name, as the sequence of its characters. The empty sequence is a name.
pub type Name = Seq<char>;

/// The mathematical form of a statement: what an `Ast` stands for.
pub enum Stmt {
    Def { name: Name, parameters: Seq<Name>, body: Seq<Stmt> },
    Return { name: Name },
    While { cond_var: Name, body: Seq<Stmt> },
    Assign { var_name: Name, fun_name: Name, args: Seq<Name> },
    Incr { var_name: Name },
    Decr { var_name: Name },
}

/// The names that a vector of strings holds, in order.
pub open spec fn names_of(v: Seq<String>) -> Seq<Name> {
    Seq::new(v.len(), |i: int| v[i]@)
}

/// The statement that a tree stands for.
pub open spec fn stmt_of(a: Ast) -> Stmt
    decreases a,
{
    match a {
        Ast::Def { name, parameters, body } => Stmt::Def {
            name: name@,
            parameters: names_of(parameters@),
            body: stmts_of(body@),
        },
        Ast::Return { name } => Stmt::Return { name: name@ },
        Ast::While { cond_var, body } => Stmt::While { cond_var: cond_var@, body: stmts_of(body@) },
        Ast::Assign { var_name, fun_name, args } => Stmt::Assign {
            var_name: var_name@,
            fun_name: fun_name@,
            args: names_of(args@),
        },
        Ast::Incr { var_name } => Stmt::Incr { var_name: var_name@ },
        Ast::Decr { var_name } => Stmt::Decr { var_name: var_name@ },
    }
}

/// The statements that a sequence of trees stands for, in order.
pub open spec fn stmts_of(v: Seq<Ast>) -> Seq<Stmt>
    decreases v,
{
    Seq::new(v.len(), |i: int| if 0 <= i < v.len() { stmt_of(v[i]) } else { arbitrary() })
}

/// The parts of a sequence, one after another, with `sep` between each two.
pub open spec fn joined(parts: Seq<Seq<char>>, sep: Seq<char>) -> Seq<char>
    decreases parts.len(),
{
    if parts.len() == 0 {
        Seq::empty()
    } else if parts.len() == 1 {
        parts[0]
    } else {
        joined(parts.drop_last(), sep) + sep + parts.last()
    }
}

/// A statement as text, on one line. The body of a loop or of a definition
/// follows its head, and nothing marks its end.
pub open spec fn text_of(s: Stmt) -> Seq<char>
    decreases s,
{
    match s {
        Stmt::Def { name, parameters, body } => "def "@ + name + "("@ + joined(parameters, ", "@)
            + "): "@ + joined(texts_of(body), "; "@),
        Stmt::Return { name } => "return "@ + name,
        Stmt::While { cond_var, body } => "while "@ + cond_var + "!=0: "@ + joined(
            texts_of(body),
            "; "@,
        ),
        Stmt::Assign { var_name, fun_name, args } => var_name + "="@ + fun_name + "("@ + joined(
            args,
            ", "@,
        ) + ")"@,
        Stmt::Incr { var_name } => var_name + "+=1"@,
        Stmt::Decr { var_name } => var_name + "-=1"@,
    }
}

/// The statements of a sequence as texts, in order.
pub open spec fn texts_of(stmts: Seq<Stmt>) -> Seq<Seq<char>>
    decreases stmts,
{
    Seq::new(
        stmts.len(),
        |i: int|
            if 0 <= i < stmts.len() {
                text_of(stmts[i])
            } else {
                arbitrary()
            },
    )
}

/// Adds to `out` the names of `names`, with `, ` between each two.
fn write_names(names: &Vec<String>, out: &mut String)
    ensures
        final(out)@ == old(out)@ + joined(names_of(names@), ", "@),
{
    let ghost parts = names_of(names@);
    let mut i: usize = 0;
    assert(parts.take(0) =~= Seq::<Name>::empty());
    assert(out@ =~= old(out)@ + joined(parts.take(0), ", "@));
    while i < names.len()
        invariant
            i <= names.len(),
            parts == names_of(names@),
            out@ == old(out)@ + joined(parts.take(i as int), ", "@),
        decreases names.len() - i,
    {
        if i > 0 {
            out.append(", ");
        }
        out.append(names[i].as_str());
        proof {
            let longer = parts.take(i + 1);
            assert(longer.drop_last() =~= parts.take(i as int));
            assert(longer.last() == names@[i as int]@);
            if i > 0 {
                assert(out@ =~= old(out)@ + (joined(parts.take(i as int), ", "@) + ", "@
                    + longer.last()));
            } else {
                assert(joined(parts.take(0), ", "@) =~= Seq::<char>::empty());
                assert(out@ =~= old(out)@ + longer[0]);
            }
        }
        i += 1;
    }
    assert(parts.take(i as int) =~= parts);
}

impl Ast {
    /// Adds to `out` the statements of `body` as text, with `; ` between
    /// each two.
    fn write_body(body: &Vec<Ast>, out: &mut String)
        ensures
            final(out)@ == old(out)@ + joined(texts_of(stmts_of(body@)), "; "@),
        decreases body, 0nat,
    {
        let ghost parts = texts_of(stmts_of(body@));
        let mut i: usize = 0;
        assert(parts.take(0) =~= Seq::<Seq<char>>::empty());
        assert(out@ =~= old(out)@ + joined(parts.take(0), "; "@));
        while i < body.len()
            invariant
                i <= body.len(),
                parts == texts_of(stmts_of(body@)),
                out@ == old(out)@ + joined(parts.take(i as int), "; "@),
            decreases body.len() - i,
        {
            if i > 0 {
                out.append("; ");
            }
            body[i].write_text(out);
            proof {
                let longer = parts.take(i + 1);
                assert(longer.drop_last() =~= parts.take(i as int));
                assert(longer.last() == text_of(body@[i as int]@));
                if i > 0 {
                    assert(out@ =~= old(out)@ + (joined(parts.take(i as int), "; "@) + "; "@
                        + longer.last()));
                } else {
                    assert(joined(parts.take(0), "; "@) =~= Seq::<char>::empty());
                    assert(out@ =~= old(out)@ + longer[0]);
                }
            }
            i += 1;
        }
        assert(parts.take(i as int) =~= parts);
    }

    /// Adds the statement to `out`, as text.
    pub fn write_text(&self, out: &mut String)
        ensures
            final(out)@ == old(out)@ + text_of(self@),
        decreases self, 1nat,
    {
        match self {
            Ast::Def { name, parameters, body } => {
                out.append("def ");
                out.append(name.as_str());
                out.append("(");
                write_names(parameters, out);
                out.append("): ");
                Ast::write_body(body, out);
                assert(out@ =~= old(out)@ + text_of(self@));
            },
            Ast::Return { name } => {
                out.append("return ");
                out.append(name.as_str());
                assert(out@ =~= old(out)@ + text_of(self@));
            },
            Ast::While { cond_var, body } => {
                out.append("while ");
                out.append(cond_var.as_str());
                out.append("!=0: ");
                Ast::write_body(body, out);
                assert(out@ =~= old(out)@ + text_of(self@));
            },
            Ast::Assign { var_name, fun_name, args } => {
                out.append(var_name.as_str());
                out.append("=");
                out.append(fun_name.as_str());
                out.append("(");
                write_names(args, out);
                out.append(")");
                assert(out@ =~= old(out)@ + text_of(self@));
            },
            Ast::Incr { var_name } => {
                out.append(var_name.as_str());
                out.append("+=1");
                assert(out@ =~= old(out)@ + text_of(self@));
            },
            Ast::Decr { var_name } => {
                out.append(var_name.as_str());
                out.append("-=1");
                assert(out@ =~= old(out)@ + text_of(self@));
            },
        }
    }

    /// The statement as text.
    pub fn to_text(&self) -> (text: String)
        ensures
            text@ == text_of(self@),
    {
        let mut text = String::new();
        self.write_text(&mut text);
        assert(text@ =~= text_of(self@));
        text
    }
}

impl View for Ast {
    type V = Stmt;

    open spec fn view(&self) -> Stmt {
        stmt_of(*self)
    }
}

} // verus!
