//! Command line arguments: flags, and options that take the next argument
//! as their value.

use crate::string_map::{assoc_index, assoc_insert, Pair, StringMap};
use crate::text::texts;
use vstd::prelude::*;
use vstd::string::*;

verus! {

/// An argument that the program understands.
#[derive(Debug)]
pub struct ArgDefinition {
    /// The long form, as it is written on the command line.
    pub name: String,
    /// The short form, if there is one.
    pub shorthand: Option<String>,
    /// Whether the argument that follows is its value.
    pub has_value: bool,
}

/// A definition as mathematical values.
pub struct ArgDefinitionView {
    pub name: Seq<char>,
    pub shorthand: Option<Seq<char>>,
    pub has_value: bool,
}

impl View for ArgDefinition {
    type V = ArgDefinitionView;

    open spec fn view(&self) -> ArgDefinitionView {
        ArgDefinitionView {
            name: self.name@,
            shorthand: match self.shorthand {
                Some(s) => Some(s@),
                None => None,
            },
            has_value: self.has_value,
        }
    }
}

/// The definitions as mathematical values.
pub open spec fn definitions_view(definitions: Seq<ArgDefinition>) -> Seq<ArgDefinitionView> {
    definitions.map_values(|d: ArgDefinition| d@)
}

/// Whether `arg` is the long or the short form of `definition`.
pub open spec fn names(definition: ArgDefinitionView, arg: Seq<char>) -> bool {
    definition.name == arg || definition.shorthand == Some(arg)
}

/// Position of the first definition at or after `from` that `arg` names.
pub open spec fn definition_of(
    definitions: Seq<ArgDefinitionView>,
    arg: Seq<char>,
    from: int,
) -> Option<int>
    decreases definitions.len() - from,
{
    if from < 0 || from >= definitions.len() {
        None
    } else if names(definitions[from], arg) {
        Some(from)
    } else {
        definition_of(definitions, arg, from + 1)
    }
}

/// What has been read so far: the values, and the option that waits for its
/// value.
pub struct ArgState {
    pub values: Seq<Pair>,
    pub pending: Option<Seq<char>>,
}

/// The state after one argument, or the complaint about it. An argument that
/// names a definition is refused while an option waits for its value, and
/// where it was given before; a flag is recorded as `true`, an option waits
/// for the next argument. Any other argument is the value of the option that
/// waits, and is refused where none does.
pub open spec fn args_step(
    definitions: Seq<ArgDefinitionView>,
    state: ArgState,
    arg: Seq<char>,
) -> Result<ArgState, Seq<char>> {
    match definition_of(definitions, arg, 0) {
        Some(i) => {
            let definition = definitions[i];
            if state.pending is Some {
                Err("No value provided for argument "@ + arg)
            } else if assoc_index(state.values, definition.name) is Some {
                Err("Argument "@ + arg + " already provided"@)
            } else if !definition.has_value {
                Ok(
                    ArgState {
                        values: assoc_insert(state.values, definition.name, "true"@),
                        pending: None,
                    },
                )
            } else {
                Ok(ArgState { values: state.values, pending: Some(definition.name) })
            }
        },
        None => match state.pending {
            Some(name) => Ok(
                ArgState { values: assoc_insert(state.values, name, arg), pending: None },
            ),
            None => Err("Unknown argument "@ + arg),
        },
    }
}

/// The state after the arguments at positions `1` to `n`, or the complaint
/// about the first that is refused. The argument at position `0` is the name
/// of the program.
pub open spec fn args_read(
    definitions: Seq<ArgDefinitionView>,
    args: Seq<Seq<char>>,
    n: nat,
) -> Result<ArgState, Seq<char>>
    decreases n,
{
    if n == 0 || n >= args.len() {
        Ok(ArgState { values: Seq::empty(), pending: None })
    } else {
        match args_read(definitions, args, (n - 1) as nat) {
            Ok(state) => args_step(definitions, state, args[n as int]),
            Err(e) => Err(e),
        }
    }
}

/// The values that the arguments give, or the complaint about them. An
/// option that still waits for its value at the end is refused.
pub open spec fn args_parsed(definitions: Seq<ArgDefinitionView>, args: Seq<Seq<char>>) -> Result<
    Seq<Pair>,
    Seq<char>,
> {
    if args.len() <= 1 {
        Ok(Seq::empty())
    } else {
        match args_read(definitions, args, (args.len() - 1) as nat) {
            Ok(state) => match state.pending {
                Some(name) => Err("No value provided for argument "@ + name),
                None => Ok(state.values),
            },
            Err(e) => Err(e),
        }
    }
}

/// What a result of `parse_args` stands for.
pub open spec fn args_result(r: Result<StringMap, String>) -> Result<Seq<Pair>, Seq<char>> {
    match r {
        Ok(values) => Ok(values.entries()),
        Err(e) => Err(e@),
    }
}

fn find_definition(definitions: &Vec<ArgDefinition>, arg: &String) -> (r: Option<usize>)
    ensures
        r is Some <==> definition_of(definitions_view(definitions@), arg@, 0) is Some,
        r matches Some(i) ==> i < definitions@.len() && definition_of(
            definitions_view(definitions@),
            arg@,
            0,
        ) == Some(i as int),
{
    let mut i: usize = 0;
    while i < definitions.len()
        invariant
            i <= definitions.len(),
            definition_of(definitions_view(definitions@), arg@, 0) == definition_of(
                definitions_view(definitions@),
                arg@,
                i as int,
            ),
        decreases definitions.len() - i,
    {
        let def = &definitions[i];
        assert(definitions_view(definitions@)[i as int] == def@);
        let short = match &def.shorthand {
            Some(s) => *s == *arg,
            None => false,
        };
        if def.name == *arg || short {
            return Some(i);
        }
        i = i + 1;
    }
    None
}

fn complaint(before: &str, arg: &str) -> (r: String)
    ensures
        r@ == before@ + arg@,
{
    let mut r = String::new();
    r.append(before);
    r.append(arg);
    assert(r@ =~= before@ + arg@);
    r
}

/// Reads the command line. `args[0]` is the name of the program.
pub fn parse_args(args: &Vec<String>, definitions: &Vec<ArgDefinition>) -> (r: Result<
    StringMap,
    String,
>)
    ensures
        args_result(r) == args_parsed(definitions_view(definitions@), texts(args@)),
{
    let mut values = StringMap::new();
    let mut current: Option<usize> = None;
    if args.len() <= 1 {
        return Ok(values);
    }
    let ghost defs = definitions_view(definitions@);
    let ghost all = texts(args@);
    let mut n: usize = 1;
    while n < args.len()
        invariant
            1 <= n <= args.len(),
            defs == definitions_view(definitions@),
            all == texts(args@),
            current matches Some(c) ==> c < definitions@.len(),
            args_read(defs, all, (n - 1) as nat) == Ok::<ArgState, Seq<char>>(
                ArgState {
                    values: values.entries(),
                    pending: match current {
                        Some(c) => Some(defs[c as int].name),
                        None => None,
                    },
                },
            ),
        decreases args.len() - n,
    {
        let arg = &args[n];
        assert(all[n as int] == arg@);
        match find_definition(definitions, arg) {
            Some(i) => {
                let def = &definitions[i];
                assert(defs[i as int] == def@);
                if current.is_some() {
                    let e = complaint("No value provided for argument ", arg.as_str());
                    proof {
                        lemma_refused(defs, all, n as nat, e@);
                    }
                    return Err(e);
                }
                if values.contains_key(def.name.as_str()) {
                    let mut e = complaint("Argument ", arg.as_str());
                    e.append(" already provided");
                    proof {
                        lemma_refused(defs, all, n as nat, e@);
                    }
                    return Err(e);
                }
                if !def.has_value {
                    values.insert(def.name.clone(), "true".to_owned());
                } else {
                    current = Some(i);
                }
            },
            None => {
                match current {
                    Some(c) => {
                        assert(defs[c as int] == definitions@[c as int]@);
                        values.insert(definitions[c].name.clone(), arg.clone());
                        current = None;
                    },
                    None => {
                        let e = complaint("Unknown argument ", arg.as_str());
                        proof {
                            lemma_refused(defs, all, n as nat, e@);
                        }
                        return Err(e);
                    },
                }
            },
        }
        n = n + 1;
    }
    match current {
        Some(c) => {
            assert(defs[c as int] == definitions@[c as int]@);
            let e = complaint("No value provided for argument ", definitions[c].name.as_str());
            Err(e)
        },
        None => Ok(values),
    }
}

/// Once an argument is refused, the complaint about it stands to the end.
pub proof fn lemma_refused(
    definitions: Seq<ArgDefinitionView>,
    args: Seq<Seq<char>>,
    n: nat,
    e: Seq<char>,
)
    requires
        1 <= n < args.len(),
        args_read(definitions, args, n) == Err::<ArgState, Seq<char>>(e),
    ensures
        args_parsed(definitions, args) == Err::<Seq<Pair>, Seq<char>>(e),
{
    lemma_refused_upto(definitions, args, n, (args.len() - 1) as nat, e);
}

/// Once an argument is refused, the complaint about it stands from then on.
pub proof fn lemma_refused_upto(
    definitions: Seq<ArgDefinitionView>,
    args: Seq<Seq<char>>,
    n: nat,
    m: nat,
    e: Seq<char>,
)
    requires
        1 <= n <= m < args.len(),
        args_read(definitions, args, n) == Err::<ArgState, Seq<char>>(e),
    ensures
        args_read(definitions, args, m) == Err::<ArgState, Seq<char>>(e),
    decreases m - n,
{
    if n < m {
        lemma_refused_upto(definitions, args, n, (m - 1) as nat, e);
    }
}

} // verus!
