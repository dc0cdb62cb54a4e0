use crate::ast::{joined, names_of, stmts_of, Ast, Name};
use crate::bindings::{
    bound_order, bound_values, map_clone, map_entries, map_get, map_insert,
};
use crate::decimal::{decimal, write_decimal};
use crate::error::EvalError;
use crate::semantics::{Fault, FuncModel, State};
use crate::text::same_text;
use indexmap::IndexMap;
use vstd::prelude::*;
use vstd::string::*;

verus! {

/// A defined function: its body and its parameter names, both borrowed from
/// the `Def` statement that defined it.
#[derive(Debug, PartialEq, Eq, Clone, Copy)]
pub struct Func<'a> {
    body: &'a Vec<Ast>,
    parameters: &'a Vec<String>,
}

impl<'a> View for Func<'a> {
    type V = FuncModel;

    closed spec fn view(&self) -> FuncModel {
        FuncModel { parameters: names_of(self.parameters@), body: stmts_of(self.body@) }
    }
}

impl<'a> Func<'a> {
    /// The function with this body and these parameters.
    pub fn new(body: &'a Vec<Ast>, parameters: &'a Vec<String>) -> (f: Self)
        ensures
            f@.body == stmts_of(body@),
            f@.parameters == names_of(parameters@),
    {
        Func { body, parameters }
    }

    /// The statements of the function's body.
    pub fn body(&self) -> (body: &'a Vec<Ast>)
        ensures
            stmts_of(body@) == self@.body,
    {
        self.body
    }

    /// The names of the function's parameters.
    pub fn parameters(&self) -> (parameters: &'a Vec<String>)
        ensures
            names_of(parameters@) == self@.parameters,
    {
        self.parameters
    }
}

/// The functions that a table of entries defines: of two entries with one
/// name, the earlier one counts.
spec fn defined(entries: Seq<(Name, FuncModel)>) -> Map<Name, FuncModel>
    decreases entries.len(),
{
    if entries.len() == 0 {
        Map::empty()
    } else {
        defined(entries.drop_first()).insert(entries[0].0, entries[0].1)
    }
}

/// A name in a table is found at the first entry that bears it.
proof fn lemma_defined_first(entries: Seq<(Name, FuncModel)>, name: Name, i: int)
    requires
        0 <= i < entries.len(),
        entries[i].0 == name,
        forall|j: int| 0 <= j < i ==> entries[j].0 != name,
    ensures
        defined(entries).contains_key(name),
        defined(entries)[name] == entries[i].1,
    decreases entries.len(),
{
    if i > 0 {
        lemma_defined_first(entries.drop_first(), name, i - 1);
    }
}

/// A name that no entry bears is not defined.
proof fn lemma_defined_absent(entries: Seq<(Name, FuncModel)>, name: Name)
    requires
        forall|j: int| 0 <= j < entries.len() ==> entries[j].0 != name,
    ensures
        !defined(entries).contains_key(name),
    decreases entries.len(),
{
    if entries.len() > 0 {
        lemma_defined_absent(entries.drop_first(), name);
    }
}

/// Replacing the first entry that bears a name redefines that name and
/// nothing else.
proof fn lemma_defined_update(
    entries: Seq<(Name, FuncModel)>,
    name: Name,
    f: FuncModel,
    i: int,
)
    requires
        0 <= i < entries.len(),
        entries[i].0 == name,
        forall|j: int| 0 <= j < i ==> entries[j].0 != name,
    ensures
        defined(entries.update(i, (name, f))) == defined(entries).insert(name, f),
    decreases entries.len(),
{
    let changed = entries.update(i, (name, f));
    if i == 0 {
        assert(changed.drop_first() == entries.drop_first());
        assert(defined(changed) == defined(entries).insert(name, f));
    } else {
        lemma_defined_update(entries.drop_first(), name, f, i - 1);
        assert(changed.drop_first() == entries.drop_first().update(i - 1, (name, f)));
        assert(defined(changed) == defined(entries).insert(name, f));
    }
}

/// Adding an entry for a name that no entry bears defines that name and
/// nothing else.
proof fn lemma_defined_push(entries: Seq<(Name, FuncModel)>, name: Name, f: FuncModel)
    requires
        forall|j: int| 0 <= j < entries.len() ==> entries[j].0 != name,
    ensures
        defined(entries.push((name, f))) == defined(entries).insert(name, f),
    decreases entries.len(),
{
    let longer = entries.push((name, f));
    if entries.len() == 0 {
        assert(longer.drop_first() == entries);
    } else {
        lemma_defined_push(entries.drop_first(), name, f);
        assert(longer.drop_first() == entries.drop_first().push((name, f)));
        assert(defined(longer) == defined(entries).insert(name, f));
    }
}

/// The functions defined so far, by name. A name is defined at most once: a
/// second definition takes the place of the first.
pub struct FuncTable<'a> {
    entries: Vec<(&'a str, Func<'a>)>,
}

impl<'a> FuncTable<'a> {
    /// The entries of the table as names and function models.
    spec fn entries(&self) -> Seq<(Name, FuncModel)> {
        Seq::new(self.entries@.len(), |i: int| (self.entries@[i].0@, self.entries@[i].1@))
    }

    /// No two entries bear one name.
    #[verifier::type_invariant]
    spec fn no_name_twice(&self) -> bool {
        forall|i: int, j: int|
            0 <= i < j < self.entries@.len() ==> self.entries@[i].0@ != self.entries@[j].0@
    }
}

impl<'a> View for FuncTable<'a> {
    type V = Map<Name, FuncModel>;

    closed spec fn view(&self) -> Map<Name, FuncModel> {
        defined(self.entries())
    }
}

impl<'a> FuncTable<'a> {
    /// A table that defines nothing.
    pub fn new() -> (table: Self)
        ensures
            table@ == Map::<Name, FuncModel>::empty(),
    {
        FuncTable { entries: Vec::new() }
    }

    /// The index of the first entry that bears `name`, if there is one.
    fn position(&self, name: &str) -> (at: Option<usize>)
        ensures
            match at {
                Some(i) => i < self.entries().len() && self.entries()[i as int].0 == name@
                    && forall|j: int| 0 <= j < i ==> self.entries()[j].0 != name@,
                None => forall|j: int| 0 <= j < self.entries().len() ==> self.entries()[j].0 != name@,
            },
    {
        let mut i: usize = 0;
        while i < self.entries.len()
            invariant
                i <= self.entries.len(),
                self.entries().len() == self.entries.len(),
                forall|j: int| 0 <= j < i ==> self.entries()[j].0 != name@,
            decreases self.entries.len() - i,
        {
            if same_text(self.entries[i].0, name) {
                return Some(i);
            }
            i += 1;
        }
        None
    }

    /// The function defined under `name`, if there is one.
    pub fn get(&self, name: &str) -> (found: Option<&Func<'a>>)
        ensures
            found is Some <==> self@.contains_key(name@),
            found is Some ==> found->0@ == self@[name@],
    {
        match self.position(name) {
            Some(i) => {
                proof {
                    lemma_defined_first(self.entries(), name@, i as int);
                }
                Some(&self.entries[i].1)
            },
            None => {
                proof {
                    lemma_defined_absent(self.entries(), name@);
                }
                None
            },
        }
    }

    /// Defines `name` as `func`, in place of an earlier definition if there
    /// is one.
    pub fn insert(&mut self, name: &'a str, func: Func<'a>)
        ensures
            final(self)@ == old(self)@.insert(name@, func@),
    {
        proof {
            use_type_invariant(&*self);
        }
        let at = self.position(name);
        let ghost before = self.entries();
        let mut entries: Vec<(&'a str, Func<'a>)> = Vec::new();
        core::mem::swap(&mut self.entries, &mut entries);
        match at {
            Some(i) => {
                proof {
                    lemma_defined_update(before, name@, func@, i as int);
                }
                entries.set(i, (name, func));
                self.entries = entries;
                assert(self.entries() == before.update(i as int, (name@, func@)));
            },
            None => {
                proof {
                    lemma_defined_push(before, name@, func@);
                }
                entries.push((name, func));
                assert forall|i: int, j: int| 0 <= i < j < entries@.len() implies entries@[i].0@
                    != entries@[j].0@ by {
                    assert(before[i].0 == entries@[i].0@);
                }
                self.entries = entries;
                assert(self.entries() == before.push((name@, func@)));
            },
        }
    }

    /// A table with the same definitions. The bodies are shared, not copied.
    pub fn copy(&self) -> (table: Self)
        ensures
            table@ == self@,
    {
        proof {
            use_type_invariant(self);
        }
        let mut entries: Vec<(&'a str, Func<'a>)> = Vec::new();
        let mut i: usize = 0;
        while i < self.entries.len()
            invariant
                i <= self.entries.len(),
                entries@ == self.entries@.take(i as int),
            decreases self.entries.len() - i,
        {
            let entry = self.entries[i];
            entries.push(entry);
            assert(self.entries@.take(i + 1) == self.entries@.take(i as int).push(
                self.entries@[i as int],
            ));
            i += 1;
        }
        assert(self.entries@.take(i as int) == self.entries@);
        FuncTable { entries }
    }
}

/// The values of a map of bindings, as integers.
pub open spec fn as_ints(values: Map<Name, i64>) -> Map<Name, int> {
    Map::new(|k: Name| values.contains_key(k), |k: Name| values[k] as int)
}

/// The variables of a state as texts, in their order: each a name, `: ` and
/// the value in decimal.
pub open spec fn binding_texts(st: State) -> Seq<Seq<char>> {
    Seq::new(st.order.len(), |i: int| st.order[i] + ": "@ + decimal(st.values[st.order[i]]))
}

/// The variables of a state as one text: in brackets, with `, ` between each
/// two.
pub open spec fn bindings_text(st: State) -> Seq<char> {
    "["@ + joined(binding_texts(st), ", "@) + "]"@
}

/// An environment: the variables with their values, in the order in which
/// they were first bound; the functions defined so far; and the name of the
/// result variable, once a `Return` has designated one.
pub struct Env<'a> {
    context: IndexMap<&'a str, i64>,
    functions: FuncTable<'a>,
    result_name: Option<&'a str>,
}

impl<'a> View for Env<'a> {
    type V = State;

    closed spec fn view(&self) -> State {
        State {
            values: as_ints(bound_values(self.context)),
            order: bound_order(self.context),
            functions: self.functions@,
            result_name: match self.result_name {
                Some(name) => Some(name@),
                None => None,
            },
        }
    }
}

impl<'a> Env<'a> {
    /// An environment with the bindings of `initial`, no function and no
    /// result name.
    pub fn new(initial: &IndexMap<&'a str, i64>) -> (env: Self)
        ensures
            env@.values == as_ints(bound_values(*initial)),
            env@.order == bound_order(*initial),
            env@.functions == Map::<Name, FuncModel>::empty(),
            env@.result_name is None,
    {
        Env { context: map_clone(initial), functions: FuncTable::new(), result_name: None }
    }

    /// The environment of a call: the given bindings and functions, and no
    /// result name.
    pub fn from_parent(context: IndexMap<&'a str, i64>, functions: FuncTable<'a>) -> (env: Self)
        ensures
            env@.values == as_ints(bound_values(context)),
            env@.order == bound_order(context),
            env@.functions == functions@,
            env@.result_name is None,
    {
        Env { context, functions, result_name: None }
    }

    /// Reads `var`: its value, or 0 for a variable that is not bound, which
    /// is then bound to 0.
    pub fn get_or_create(&mut self, var: &'a str) -> (value: i64)
        ensures
            value == old(self)@.value_of(var@),
            !old(self)@.values.contains_key(var@) ==> value == 0,
            final(self)@ == old(self)@.touch(var@),
    {
        match map_get(&self.context, var) {
            None => {
                map_insert(&mut self.context, var, 0);
                assert(as_ints(bound_values(self.context)) == as_ints(
                    bound_values(old(self).context),
                ).insert(var@, 0));
                0
            },
            Some(value) => *value,
        }
    }

    /// Reads the result variable, as `get_or_create` does, if a `Return` has
    /// designated one.
    pub fn get_result(&mut self) -> (value: Option<i64>)
        ensures
            match old(self)@.result_name {
                Some(name) => value is Some && value->0 == old(self)@.value_of(name)
                    && final(self)@ == old(self)@.touch(name),
                None => value is None && final(self)@ == old(self)@,
            },
    {
        match self.result_name {
            Some(name) => Some(self.get_or_create(name)),
            None => None,
        }
    }

    /// The value of `var`, if it is bound. Binds nothing.
    pub fn try_get(&self, var: &'a str) -> (value: Option<&i64>)
        ensures
            value is Some <==> self@.values.contains_key(var@),
            value is Some ==> *value->0 == self@.values[var@],
    {
        map_get(&self.context, var)
    }

    /// Designates `name` as the result variable.
    pub fn set_result(&mut self, name: &'a str)
        ensures
            final(self)@ == old(self)@.designate(name@),
    {
        self.result_name = Some(name);
    }

    /// Binds `var` to `value`.
    pub fn set(&mut self, var: &'a str, value: i64)
        ensures
            final(self)@ == old(self)@.bind(var@, value as int),
    {
        map_insert(&mut self.context, var, value);
        assert(as_ints(bound_values(self.context)) == as_ints(
            bound_values(old(self).context),
        ).insert(var@, value as int));
    }

    /// Defines function `name` as `func`, in place of an earlier definition
    /// if there is one.
    pub fn set_function(&mut self, name: &'a str, func: Func<'a>)
        ensures
            final(self)@ == old(self)@.define(name@, func@),
    {
        self.functions.insert(name, func);
    }

    /// The function defined under `name`; `FunctionNotFound` if there is
    /// none.
    pub fn get_function(&self, name: &'a str) -> (found: Result<&Func<'a>, EvalError>)
        ensures
            match found {
                Ok(func) => self@.functions.contains_key(name@) && func@ == self@.functions[name@],
                Err(error) => !self@.functions.contains_key(name@) && error@ == (
                Fault::FunctionNotFound { name: name@ }),
            },
    {
        match self.functions.get(name) {
            Some(func) => Ok(func),
            None => Err(EvalError::FunctionNotFound { name: name.to_owned() }),
        }
    }

    /// A copy of the table of functions, for the frame of a call.
    pub fn function_table(&self) -> (table: FuncTable<'a>)
        ensures
            table@ == self@.functions,
    {
        self.functions.copy()
    }

    /// The variables and their values as text, in the order in which they
    /// were first bound.
    pub fn to_text(&self) -> (text: String)
        ensures
            text@ == bindings_text(self@),
    {
        let ghost parts = binding_texts(self@);
        let entries = map_entries(&self.context);
        let mut text = String::new();
        text.append("[");
        assert(parts.take(0) =~= Seq::<Seq<char>>::empty());
        assert(text@ =~= "["@ + joined(parts.take(0), ", "@));
        let mut i: usize = 0;
        while i < entries.len()
            invariant
                i <= entries.len(),
                parts == binding_texts(self@),
                parts.len() == entries@.len(),
                forall|j: int|
                    0 <= j < entries@.len() ==> parts[j] == (#[trigger] entries@[j]).0@ + ": "@
                        + decimal(entries@[j].1 as int),
                text@ == "["@ + joined(parts.take(i as int), ", "@),
            decreases entries.len() - i,
        {
            if i > 0 {
                text.append(", ");
            }
            text.append(entries[i].0);
            text.append(": ");
            write_decimal(entries[i].1, &mut text);
            proof {
                let longer = parts.take(i + 1);
                assert(longer.drop_last() =~= parts.take(i as int));
                assert(longer.last() == parts[i as int]);
                if i > 0 {
                    assert(text@ =~= "["@ + (joined(parts.take(i as int), ", "@) + ", "@
                        + longer.last()));
                } else {
                    assert(joined(parts.take(0), ", "@) =~= Seq::<char>::empty());
                    assert(text@ =~= "["@ + longer[0]);
                }
            }
            i += 1;
        }
        assert(parts.take(i as int) =~= parts);
        text.append("]");
        text
    }

    /// Whether `steps` steps can run from this environment with every value
    /// still within 64 bits.
    pub fn has_room(&self, steps: u64) -> (room: bool)
        ensures
            room == self@.has_room(steps as nat),
    {
        if steps > i64::MAX as u64 {
            return false;
        }
        let ceiling: i64 = i64::MAX - (steps as i64);
        let entries = map_entries(&self.context);
        let mut i: usize = 0;
        while i < entries.len()
            invariant
                i <= entries.len(),
                ceiling == i64::MAX - steps,
                forall|j: int| 0 <= j < i ==> (#[trigger] entries@[j]).1 <= ceiling,
                forall|j: int|
                    0 <= j < entries@.len() ==> bound_values(self.context).contains_key(
                        (#[trigger] entries@[j]).0@,
                    ) && entries@[j].1 == bound_values(self.context)[entries@[j].0@],
            decreases entries.len() - i,
        {
            if entries[i].1 > ceiling {
                assert(self@.values.contains_key(entries@[i as int].0@));
                return false;
            }
            i += 1;
        }
        assert forall|v: Name| #[trigger] self@.values.contains_key(v) implies i64::MIN
            <= self@.values[v] && self@.values[v] + steps <= i64::MAX by {
            assert(bound_values(self.context).contains_key(v));
            let j = choose|j: int| 0 <= j < entries@.len() && (#[trigger] entries@[j]).0@ == v;
            assert(entries@[j].1 <= ceiling);
        }
        true
    }
}

} // verus!
