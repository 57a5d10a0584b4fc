//! The commands that a workspace declares: how they are listed, described and
//! expanded.

use vstd::prelude::*;

use crate::input;
use crate::input::lines_of;
use crate::ordering;
use crate::ordering::{stable_sort, Ranked};
use crate::position;
use crate::position::trim_part;
use crate::project_query::{ProjectQuery, QueryParameterType};
use crate::text;

verus! {

/// What a query command is asked to do.
#[derive(Debug, PartialEq, Eq)]
pub enum QueryAction {
    List,
    Describe(String),
    Run(String),
    /// The arguments fit no form.
    Misused,
}

/// Reads the arguments of a query command: `list`, `describe NAME` or `NAME`.
pub fn query_action(args: &[String]) -> (result: QueryAction)
    ensures
        if args@.len() == 1 && args@[0]@ == "list"@ {
            result is List
        } else if args@.len() == 2 && args@[0]@ == "describe"@ {
            result == QueryAction::Describe(args@[1])
        } else if args@.len() == 1 {
            result == QueryAction::Run(args@[0])
        } else {
            result is Misused
        },
{
    if args.len() == 1 {
        if text::same_text(args[0].as_str(), "list") {
            QueryAction::List
        } else {
            QueryAction::Run(args[0].clone())
        }
    } else if args.len() == 2 && text::same_text(args[0].as_str(), "describe") {
        QueryAction::Describe(args[1].clone())
    } else {
        QueryAction::Misused
    }
}

/// A file that declares a command.
#[derive(Debug, PartialEq, Eq)]
pub struct QueryFile {
    pub name: String,
    pub path: String,
}

impl Ranked for QueryFile {
    open spec fn ranks_before(&self, other: &Self) -> bool {
        text::text_lt(self.name@, other.name@)
    }

    proof fn lemma_rank_asymmetric(a: &Self, b: &Self) {
        text::lemma_text_lt_asymmetric(a.name@, b.name@);
    }

    proof fn lemma_rank_negatively_transitive(a: &Self, b: &Self, c: &Self) {
        text::lemma_text_lt_negatively_transitive(a.name@, b.name@, c.name@);
    }

    fn is_before(&self, other: &Self) -> (result: bool) {
        text::text_before(self.name.as_str(), other.name.as_str())
    }
}

/// The commands of a workspace in the order of their names.
pub fn list_commands(files: Vec<QueryFile>) -> (result: Vec<QueryFile>)
    ensures
        result@ == ordering::stable_sorted(files@),
{
    stable_sort(files)
}

/// The position of the first command with a name.
pub fn find_command(commands: &[QueryFile], name: &str) -> (result: Option<usize>)
    ensures
        match result {
            Some(i) => {
                &&& i < commands@.len()
                &&& commands@[i as int].name@ == name@
                &&& forall|j: int| 0 <= j < i ==> (#[trigger] commands@[j]).name@ != name@
            },
            None => forall|j: int|
                0 <= j < commands@.len() ==> (#[trigger] commands@[j]).name@ != name@,
        },
{
    let mut i: usize = 0;
    while i < commands.len()
        invariant
            i <= commands@.len(),
            forall|j: int| 0 <= j < i ==> (#[trigger] commands@[j]).name@ != name@,
        decreases commands@.len() - i,
    {
        if text::same_text(commands[i].name.as_str(), name) {
            return Some(i);
        }
        i = i + 1;
    }
    None
}

/// The name of a parameter type in a description.
pub open spec fn type_text(ty: QueryParameterType) -> Seq<char> {
    match ty {
        QueryParameterType::SymbolId => "SymbolId"@,
        QueryParameterType::QualifiedSymbol => "QualifiedSymbol"@,
        QueryParameterType::ComponentId => "ComponentId"@,
        QueryParameterType::String => "String"@,
        QueryParameterType::Integer => "Integer"@,
    }
}

fn name_of_type(ty: QueryParameterType) -> (result: &'static str)
    ensures
        result@ == type_text(ty),
{
    match ty {
        QueryParameterType::SymbolId => "SymbolId",
        QueryParameterType::QualifiedSymbol => "QualifiedSymbol",
        QueryParameterType::ComponentId => "ComponentId",
        QueryParameterType::String => "String",
        QueryParameterType::Integer => "Integer",
    }
}

/// The parameters of a command, each as its name, a separator and its type.
pub fn describe_parameters(query: &ProjectQuery, separator: &str) -> (result: Vec<String>)
    ensures
        result@.len() == query.parameters@.len(),
        forall|i: int|
            0 <= i < result@.len() ==> (#[trigger] result@[i])@ == query.parameters@[i].name@
                + separator@ + type_text(query.parameters@[i].ty),
{
    let mut result: Vec<String> = Vec::new();
    let mut i: usize = 0;
    while i < query.parameters.len()
        invariant
            i <= query.parameters@.len(),
            result@.len() == i,
            forall|j: int|
                0 <= j < i ==> (#[trigger] result@[j])@ == query.parameters@[j].name@ + separator@
                    + type_text(query.parameters@[j].ty),
        decreases query.parameters@.len() - i,
    {
        let parameter = &query.parameters[i];
        let mut described = text::join_text(parameter.name.as_str(), separator);
        described.append(name_of_type(parameter.ty));
        result.push(described);
        i = i + 1;
    }
    result
}

/// The macro that a line calls.
pub open spec fn called_macro(line: Seq<char>) -> Option<Seq<char>> {
    text::enclosed(position::trimmed(line), "from "@, "()"@)
}

/// Computes `called_macro`.
pub fn macro_call(line: &str) -> (result: Option<String>)
    ensures
        match called_macro(line@) {
            Some(name) => result is Some && result->Some_0@ == name,
            None => result is None,
        },
{
    let chars = text::chars_of(line);
    let len: usize = chars.len();
    assert(chars@.subrange(0, len as int) =~= line@);
    let trimmed = trim_part(chars.as_slice(), 0, len);
    text::strip_around(trimmed.as_str(), "from ", "()")
}

/// The macros that the first `n` lines call, in their order.
pub open spec fn calls_of(lines: Seq<Seq<char>>, n: int) -> Seq<Seq<char>>
    decreases n,
{
    if n <= 0 {
        Seq::empty()
    } else {
        match called_macro(lines[n - 1]) {
            Some(name) => calls_of(lines, n - 1).push(name),
            None => calls_of(lines, n - 1),
        }
    }
}

/// The macros that a command calls, in their order.
pub fn macro_calls(value: &str) -> (result: Vec<String>)
    ensures
        ({
            let lines = input::text_lines(value@);
            text::texts(result@) == calls_of(lines, lines.len() as int)
        }),
{
    let lines = lines_of(value);
    let ghost all = input::text_lines(value@);
    assert(text::texts(lines@).len() == lines@.len());
    let mut result: Vec<String> = Vec::new();
    let mut i: usize = 0;
    assert(text::texts(result@) =~= Seq::<Seq<char>>::empty());
    while i < lines.len()
        invariant
            text::texts(lines@) == all,
            all.len() == lines@.len(),
            i <= lines@.len(),
            text::texts(result@) == calls_of(all, i as int),
        decreases lines@.len() - i,
    {
        assert(text::texts(lines@)[i as int] == lines@[i as int]@);
        let ghost before = text::texts(result@);
        if let Some(name) = macro_call(lines[i].as_str()) {
            result.push(name);
            assert(text::texts(result@) =~= before.push(name@));
        }
        i = i + 1;
    }
    result
}

/// The text of a command with the bodies of its first `n` lines' macros in the
/// place of their calls.
pub open spec fn expansion(lines: Seq<Seq<char>>, bodies: Seq<Seq<char>>, n: int) -> Seq<char>
    decreases n,
{
    if n <= 0 {
        Seq::empty()
    } else {
        let before = expansion(lines, bodies, n - 1);
        match called_macro(lines[n - 1]) {
            Some(_) => before + bodies[calls_of(lines, n - 1).len() as int] + "\n"@,
            None => before + lines[n - 1] + "\n"@,
        }
    }
}

proof fn lemma_calls_grow(lines: Seq<Seq<char>>, i: int, n: int)
    requires
        0 <= i <= n <= lines.len(),
    ensures
        calls_of(lines, i).len() <= calls_of(lines, n).len(),
    decreases n,
{
    if i < n {
        lemma_calls_grow(lines, i, n - 1);
    }
}

/// Puts the bodies of the called macros, in the order of the calls, in the
/// place of the calls.
pub fn expand_macros(value: &str, bodies: &[String]) -> (result: String)
    requires
        ({
            let lines = input::text_lines(value@);
            bodies@.len() == calls_of(lines, lines.len() as int).len()
        }),
    ensures
        ({
            let lines = input::text_lines(value@);
            result@ == expansion(lines, text::texts(bodies@), lines.len() as int)
        }),
{
    let lines = lines_of(value);
    let ghost all = input::text_lines(value@);
    assert(text::texts(lines@).len() == lines@.len());
    let mut result: String = "".to_owned();
    let mut called: usize = 0;
    let mut i: usize = 0;
    proof {
        reveal_strlit("");
        assert(result@ =~= Seq::<char>::empty());
    }
    while i < lines.len()
        invariant
            text::texts(lines@) == all,
            all.len() == lines@.len(),
            bodies@.len() == calls_of(all, all.len() as int).len(),
            i <= lines@.len(),
            called == calls_of(all, i as int).len(),
            result@ == expansion(all, text::texts(bodies@), i as int),
        decreases lines@.len() - i,
    {
        assert(text::texts(lines@)[i as int] == lines@[i as int]@);
        proof {
            lemma_calls_grow(all, i + 1, all.len() as int);
        }
        match macro_call(lines[i].as_str()) {
            Some(_) => {
                assert(text::texts(bodies@)[called as int] == bodies@[called as int]@);
                result.append(bodies[called].as_str());
                called = called + 1;
            },
            None => {
                result.append(lines[i].as_str());
            },
        }
        result.append("\n");
        i = i + 1;
    }
    result
}

/// Where the body of an exported macro lies below the directory of its package.
pub open spec fn body_path(export: Seq<char>) -> Seq<char> {
    "queries/"@ + Seq::new(
        export.len(),
        |i: int|
            if export[i] == '.' {
                '/'
            } else {
                export[i]
            },
    ) + ".kql"@
}

/// Computes `body_path`.
pub fn macro_body_path(export: &str) -> (result: String)
    ensures
        result@ == body_path(export@),
{
    let chars = text::chars_of(export);
    let mut kept: Vec<char> = Vec::new();
    let mut i: usize = 0;
    while i < chars.len()
        invariant
            chars@ == export@,
            i <= chars@.len(),
            kept@.len() == i,
            forall|j: int|
                0 <= j < i ==> #[trigger] kept@[j] == (if export@[j] == '.' {
                    '/'
                } else {
                    export@[j]
                }),
        decreases chars@.len() - i,
    {
        if chars[i] == '.' {
            kept.push('/');
        } else {
            kept.push(chars[i]);
        }
        i = i + 1;
    }
    assert(kept@ =~= Seq::new(
        export@.len(),
        |i: int|
            if export@[i] == '.' {
                '/'
            } else {
                export@[i]
            },
    ));
    let mut result = text::join_text("queries/", text::text_of(kept.as_slice()).as_str());
    result.append(".kql");
    result
}

/// `list` lists, `describe NAME` describes that command, any other single
/// argument is the command to run, and everything else is misuse.
pub proof fn law_actions_follow_the_arguments(args: &[String], action: QueryAction)
    requires
        call_ensures(query_action, (args,), action),
    ensures
        action is List <==> args@.len() == 1 && args@[0]@ == "list"@,
        action is Run <==> args@.len() == 1 && args@[0]@ != "list"@,
        action is Run ==> action->Run_0@ == args@[0]@,
        action is Describe <==> args@.len() == 2 && args@[0]@ == "describe"@,
        action is Describe ==> action->Describe_0@ == args@[1]@,
{
}

/// The commands are listed in the order of their names, none missing and none
/// added.
pub proof fn law_commands_are_listed_in_order(
    files: Vec<QueryFile>,
    listed: Vec<QueryFile>,
    file: QueryFile,
    i: int,
    j: int,
)
    requires
        call_ensures(list_commands, (files,), listed),
        0 <= i < j < listed@.len(),
    ensures
        listed@.len() == files@.len(),
        listed@.contains(file) <==> files@.contains(file),
        !text::text_lt(listed@[j].name@, listed@[i].name@),
{
    ordering::lemma_stable_sorted_in_order(files@);
    ordering::lemma_stable_sorted_contains(files@, file);
    assert(!listed@[j].ranks_before(&listed@[i]));
}

/// A line calls a macro exactly where, without the white space around it, it
/// reads `from NAME()`.
pub proof fn law_macro_calls_are_written_from(
    line: &str,
    result: Option<String>,
    name: Seq<char>,
)
    requires
        call_ensures(macro_call, (line,), result),
        position::trimmed(line@) == "from "@ + name + "()"@,
    ensures
        result is Some,
        result->0@ == name,
{
    text::lemma_enclosed(position::trimmed(line@), "from "@, name, "()"@);
}

/// A text whose lines call nothing is expanded to its own lines.
pub proof fn law_lines_without_calls_stay(
    value: &str,
    bodies: &[String],
    expanded: String,
    n: int,
)
    requires
        call_ensures(expand_macros, (value, bodies), expanded),
        n == input::text_lines(value@).len(),
        forall|i: int|
            0 <= i < n ==> !"from "@.is_prefix_of(
                position::trimmed(#[trigger] input::text_lines(value@)[i]),
            ),
    ensures
        n == 0 ==> expanded@.len() == 0,
        n == 1 ==> expanded@ == input::text_lines(value@)[0] + seq!['\n'],
        n == 2 ==> expanded@ == input::text_lines(value@)[0] + seq!['\n'] + input::text_lines(
            value@,
        )[1] + seq!['\n'],
{
    let lines = input::text_lines(value@);
    reveal_strlit("\n");
    assert("\n"@ =~= seq!['\n']);
    assert forall|i: int| 0 <= i < n implies called_macro(#[trigger] lines[i]) is None by {
        let s = position::trimmed(lines[i]);
        if text::begins_with(s, "from "@) {
            assert(s.take("from "@.len() as int) =~= s.subrange(0, "from "@.len() as int));
        }
    }
    reveal_with_fuel(expansion, 3);
    if n >= 1 {
        assert(called_macro(lines[0]) is None);
        assert(expansion(lines, text::texts(bodies@), 1) =~= lines[0] + seq!['\n']);
    }
    if n == 2 {
        assert(called_macro(lines[1]) is None);
    }
}

/// The body of an exported macro lies below `queries/`, in a file named like the
/// export with a directory for each dot.
pub proof fn law_macro_bodies_lie_below_queries(export: &str, path: String, i: int)
    requires
        call_ensures(macro_body_path, (export,), path),
        0 <= i < export@.len(),
    ensures
        path@.len() == export@.len() + 12,
        "queries/"@.is_prefix_of(path@),
        path@.subrange(path@.len() - 4, path@.len() as int) == ".kql"@,
        path@[8 + i] == (if export@[i] == '.' { '/' } else { export@[i] }),
{
    reveal_strlit("queries/");
    reveal_strlit(".kql");
    assert(path@.subrange(0, 8) =~= "queries/"@);
    assert(path@.subrange(path@.len() - 4, path@.len() as int) =~= ".kql"@);
}

} // verus!
