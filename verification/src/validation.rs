//! Validation of a declared command tree.
//!
//! A tree is valid when no node of it has a defect. `validate` reports the
//! first defect of a tree in a fixed order: within a node by kind, in the
//! order of the variants of `SchemaError`, and within a kind by the position
//! of the argument; after the node itself come its subcommands in order.

use crate::schema::{flag, nodes_of, ArgumentRule, CliArg, CliConfig, CommandNode};
use crate::scan::{least, lemma_least, lemma_least_is};
use vstd::prelude::*;

verus! {

/// A structural defect of a declaration, as a mathematical value.
pub enum Defect {
    /// The name is held by two arguments of one node.
    DuplicateName(Seq<char>),
    /// The named argument repeats the short alias of an earlier argument.
    DuplicateShort(Seq<char>, char),
    /// The named argument repeats the positional index of an earlier argument.
    DuplicateIndex(Seq<char>, u64),
    /// The named argument takes multiple values at a position that is not the last.
    InvalidMultiplePosition(Seq<char>),
    /// The named argument mentions a name that no other argument of the node has.
    DanglingReference(Seq<char>, Seq<char>),
    /// The named argument asks for more values at least than at most.
    InvalidValueBounds(Seq<char>),
}

/// A structural defect of a declaration.
#[derive(Debug, PartialEq, Eq, Clone)]
pub enum SchemaError {
    /// The name is held by two arguments of one node.
    DuplicateName(String),
    /// The named argument repeats the short alias of an earlier argument.
    DuplicateShort(String, char),
    /// The named argument repeats the positional index of an earlier argument.
    DuplicateIndex(String, u64),
    /// The named argument takes multiple values at a position that is not the last.
    InvalidMultiplePosition(String),
    /// The named argument mentions a name that no other argument of the node has.
    DanglingReference(String, String),
    /// The named argument asks for more values at least than at most.
    InvalidValueBounds(String),
}

impl View for SchemaError {
    type V = Defect;

    open spec fn view(&self) -> Defect {
        match self {
            SchemaError::DuplicateName(name) => Defect::DuplicateName(name@),
            SchemaError::DuplicateShort(name, short) => Defect::DuplicateShort(name@, *short),
            SchemaError::DuplicateIndex(name, index) => Defect::DuplicateIndex(name@, *index),
            SchemaError::InvalidMultiplePosition(name) => Defect::InvalidMultiplePosition(name@),
            SchemaError::DanglingReference(name, target) => Defect::DanglingReference(
                name@,
                target@,
            ),
            SchemaError::InvalidValueBounds(name) => Defect::InvalidValueBounds(name@),
        }
    }
}

/// The outcome of a validation, as a mathematical value.
pub open spec fn outcome_of(outcome: Result<(), SchemaError>) -> Option<Defect> {
    match outcome {
        Ok(_) => None,
        Err(e) => Some(e@),
    }
}

/// The rule at `at` has the name of an earlier rule.
pub open spec fn repeats_name(rules: Seq<ArgumentRule>, at: int) -> bool {
    exists|i: int| 0 <= i < at && (#[trigger] rules[i]).name == rules[at].name
}

/// The rule at `at` has the short alias of an earlier rule.
pub open spec fn repeats_short(rules: Seq<ArgumentRule>, at: int) -> bool {
    rules[at].short is Some && exists|i: int|
        0 <= i < at && (#[trigger] rules[i]).short == rules[at].short
}

/// The rule at `at` has the positional index of an earlier rule.
pub open spec fn repeats_index(rules: Seq<ArgumentRule>, at: int) -> bool {
    rules[at].index is Some && exists|i: int|
        0 <= i < at && (#[trigger] rules[i]).index == rules[at].index
}

/// The rule at `at` takes multiple values at a positional index below that of
/// another rule.
pub open spec fn misplaced_multiple(rules: Seq<ArgumentRule>, at: int) -> bool {
    rules[at].multiple && rules[at].index is Some && exists|i: int|
        0 <= i < rules.len() && (#[trigger] rules[i]).index is Some && rules[i].index->0
            > rules[at].index->0
}

/// `name` is the name of a rule other than the one at `at`.
pub open spec fn names_sibling(rules: Seq<ArgumentRule>, at: int, name: Seq<char>) -> bool {
    exists|i: int| 0 <= i < rules.len() && i != at && (#[trigger] rules[i]).name == name
}

/// The reference at `k` of the rule at `at` names no other rule.
pub open spec fn dangles(rules: Seq<ArgumentRule>, at: int, k: int) -> bool {
    !names_sibling(rules, at, rules[at].references()[k])
}

/// The position of the first reference of the rule at `at` that names no
/// other rule, or the number of its references.
pub open spec fn first_dangling(rules: Seq<ArgumentRule>, at: int) -> int {
    least(rules[at].references().len() as int, |k: int| dangles(rules, at, k))
}

/// Some reference of the rule at `at` names no other rule.
pub open spec fn has_dangling(rules: Seq<ArgumentRule>, at: int) -> bool {
    exists|k: int| 0 <= k < rules[at].references().len() && #[trigger] dangles(rules, at, k)
}

/// The rule at `at` asks for more values at least than at most.
pub open spec fn inverted_bounds(rules: Seq<ArgumentRule>, at: int) -> bool {
    rules[at].min_values is Some && rules[at].max_values is Some && rules[at].min_values->0
        > rules[at].max_values->0
}

/// The position of the first rule that repeats a name, or the number of rules.
pub open spec fn first_repeated_name(rules: Seq<ArgumentRule>) -> int {
    least(rules.len() as int, |at: int| repeats_name(rules, at))
}

/// The position of the first rule that repeats a short alias, or the number
/// of rules.
pub open spec fn first_repeated_short(rules: Seq<ArgumentRule>) -> int {
    least(rules.len() as int, |at: int| repeats_short(rules, at))
}

/// The position of the first rule that repeats a positional index, or the
/// number of rules.
pub open spec fn first_repeated_index(rules: Seq<ArgumentRule>) -> int {
    least(rules.len() as int, |at: int| repeats_index(rules, at))
}

/// The position of the first rule with multiple values at a position that is
/// not the last, or the number of rules.
pub open spec fn first_misplaced_multiple(rules: Seq<ArgumentRule>) -> int {
    least(rules.len() as int, |at: int| misplaced_multiple(rules, at))
}

/// The position of the first rule with a dangling reference, or the number of
/// rules.
pub open spec fn first_with_dangling(rules: Seq<ArgumentRule>) -> int {
    least(rules.len() as int, |at: int| has_dangling(rules, at))
}

/// The position of the first rule with inverted value bounds, or the number
/// of rules.
pub open spec fn first_inverted_bounds(rules: Seq<ArgumentRule>) -> int {
    least(rules.len() as int, |at: int| inverted_bounds(rules, at))
}

/// The first defect among the arguments of one node.
pub open spec fn node_defect(rules: Seq<ArgumentRule>) -> Option<Defect> {
    let n = rules.len() as int;
    let name = first_repeated_name(rules);
    let short = first_repeated_short(rules);
    let index = first_repeated_index(rules);
    let multiple = first_misplaced_multiple(rules);
    let dangling = first_with_dangling(rules);
    let bounds = first_inverted_bounds(rules);
    if name < n {
        Some(Defect::DuplicateName(rules[name].name))
    } else if short < n {
        Some(Defect::DuplicateShort(rules[short].name, rules[short].short->0))
    } else if index < n {
        Some(Defect::DuplicateIndex(rules[index].name, rules[index].index->0))
    } else if multiple < n {
        Some(Defect::InvalidMultiplePosition(rules[multiple].name))
    } else if dangling < n {
        Some(
            Defect::DanglingReference(
                rules[dangling].name,
                rules[dangling].references()[first_dangling(rules, dangling)],
            ),
        )
    } else if bounds < n {
        Some(Defect::InvalidValueBounds(rules[bounds].name))
    } else {
        None
    }
}

/// The first defect of a tree: that of the node itself, or else that of the
/// first subcommand that has one.
pub open spec fn tree_defect(node: CommandNode) -> Option<Defect>
    decreases node, 0nat,
{
    match node_defect(node.args) {
        Some(defect) => Some(defect),
        None => children_defect(node.subcommands, 0),
    }
}

/// The first defect of the subcommands from position `from` on.
pub open spec fn children_defect(
    subcommands: Seq<(Seq<char>, CommandNode)>,
    from: int,
) -> Option<Defect>
    decreases subcommands, subcommands.len() - from,
{
    if 0 <= from < subcommands.len() {
        match tree_defect(subcommands[from].1) {
            Some(defect) => Some(defect),
            None => children_defect(subcommands, from + 1),
        }
    } else {
        None
    }
}

/// The rule at `at` has no defect.
pub open spec fn rule_valid(rules: Seq<ArgumentRule>, at: int) -> bool {
    &&& !repeats_name(rules, at)
    &&& !repeats_short(rules, at)
    &&& !repeats_index(rules, at)
    &&& !misplaced_multiple(rules, at)
    &&& !has_dangling(rules, at)
    &&& !inverted_bounds(rules, at)
}

/// No argument of the node has a defect.
pub open spec fn node_valid(rules: Seq<ArgumentRule>) -> bool {
    forall|at: int| 0 <= at < rules.len() ==> #[trigger] rule_valid(rules, at)
}

/// No node of the tree has a defect.
pub open spec fn tree_valid(node: CommandNode) -> bool
    decreases node,
{
    &&& node_valid(node.args)
    &&& forall|i: int|
        0 <= i < node.subcommands.len() ==> tree_valid((#[trigger] node.subcommands[i]).1)
}

/// The position of the first argument that repeats a name, or the number of
/// arguments.
fn find_repeated_name(args: &Vec<CliArg>) -> (at: usize)
    ensures
        at == first_repeated_name(args.deep_view()),
        at <= args.len(),
{
    let ghost rules = args.deep_view();
    let mut at: usize = 0;
    while at < args.len()
        invariant
            at <= args.len(),
            rules == args.deep_view(),
            forall|j: int| 0 <= j < at ==> !repeats_name(rules, j),
        decreases args.len() - at,
    {
        let mut i: usize = 0;
        while i < at
            invariant
                i <= at < args.len(),
                rules == args.deep_view(),
                forall|j: int| 0 <= j < at ==> !repeats_name(rules, j),
                forall|j: int| 0 <= j < i ==> (#[trigger] rules[j]).name != rules[at as int].name,
            decreases at - i,
        {
            if args[i].name == args[at].name {
                proof {
                    assert(rules[i as int].name == rules[at as int].name);
                    lemma_least_is(
                        rules.len() as int,
                        |at: int| repeats_name(rules, at),
                        at as int,
                    );
                }
                return at;
            }
            i += 1;
        }
        at += 1;
    }
    proof {
        lemma_least_is(rules.len() as int, |at: int| repeats_name(rules, at), at as int);
    }
    at
}

/// The position of the first argument that repeats a short alias, or the
/// number of arguments.
fn find_repeated_short(args: &Vec<CliArg>) -> (at: usize)
    ensures
        at == first_repeated_short(args.deep_view()),
        at <= args.len(),
{
    let ghost rules = args.deep_view();
    let mut at: usize = 0;
    while at < args.len()
        invariant
            at <= args.len(),
            rules == args.deep_view(),
            forall|j: int| 0 <= j < at ==> !repeats_short(rules, j),
        decreases args.len() - at,
    {
        match args[at].resolved_short() {
            Some(short) => {
                let mut i: usize = 0;
                while i < at
                    invariant
                        i <= at < args.len(),
                        rules == args.deep_view(),
                        rules[at as int].short == Some(short),
                        forall|j: int| 0 <= j < at ==> !repeats_short(rules, j),
                        forall|j: int|
                            0 <= j < i ==> (#[trigger] rules[j]).short != rules[at as int].short,
                    decreases at - i,
                {
                    match args[i].resolved_short() {
                        Some(other) => {
                            if other == short {
                                proof {
                                    assert(rules[i as int].short == rules[at as int].short);
                                    lemma_least_is(
                                        rules.len() as int,
                                        |at: int| repeats_short(rules, at),
                                        at as int,
                                    );
                                }
                                return at;
                            }
                        },
                        None => {},
                    }
                    i += 1;
                }
            },
            None => {},
        }
        at += 1;
    }
    proof {
        lemma_least_is(rules.len() as int, |at: int| repeats_short(rules, at), at as int);
    }
    at
}

/// The position of the first argument that repeats a positional index, or the
/// number of arguments.
fn find_repeated_index(args: &Vec<CliArg>) -> (at: usize)
    ensures
        at == first_repeated_index(args.deep_view()),
        at <= args.len(),
{
    let ghost rules = args.deep_view();
    let mut at: usize = 0;
    while at < args.len()
        invariant
            at <= args.len(),
            rules == args.deep_view(),
            forall|j: int| 0 <= j < at ==> !repeats_index(rules, j),
        decreases args.len() - at,
    {
        match args[at].index {
            Some(index) => {
                let mut i: usize = 0;
                while i < at
                    invariant
                        i <= at < args.len(),
                        rules == args.deep_view(),
                        rules[at as int].index == Some(index),
                        forall|j: int| 0 <= j < at ==> !repeats_index(rules, j),
                        forall|j: int|
                            0 <= j < i ==> (#[trigger] rules[j]).index != rules[at as int].index,
                    decreases at - i,
                {
                    match args[i].index {
                        Some(other) => {
                            if other == index {
                                proof {
                                    assert(rules[i as int].index == rules[at as int].index);
                                    lemma_least_is(
                                        rules.len() as int,
                                        |at: int| repeats_index(rules, at),
                                        at as int,
                                    );
                                }
                                return at;
                            }
                        },
                        None => {},
                    }
                    i += 1;
                }
            },
            None => {},
        }
        at += 1;
    }
    proof {
        lemma_least_is(rules.len() as int, |at: int| repeats_index(rules, at), at as int);
    }
    at
}

/// Whether an optional flag is set.
fn is_set(value: &Option<bool>) -> (set: bool)
    ensures
        set == flag(*value),
{
    match value {
        Some(b) => *b,
        None => false,
    }
}

/// The position of the first argument that takes multiple values at a
/// positional index that is not the highest, or the number of arguments.
fn find_misplaced_multiple(args: &Vec<CliArg>) -> (at: usize)
    ensures
        at == first_misplaced_multiple(args.deep_view()),
        at <= args.len(),
{
    let ghost rules = args.deep_view();
    let mut at: usize = 0;
    while at < args.len()
        invariant
            at <= args.len(),
            rules == args.deep_view(),
            forall|j: int| 0 <= j < at ==> !misplaced_multiple(rules, j),
        decreases args.len() - at,
    {
        match args[at].index {
            Some(index) => {
                if is_set(&args[at].multiple) {
                    let mut i: usize = 0;
                    while i < args.len()
                        invariant
                            i <= args.len(),
                            at < args.len(),
                            rules == args.deep_view(),
                            rules[at as int].index == Some(index),
                            rules[at as int].multiple,
                            forall|j: int| 0 <= j < at ==> !misplaced_multiple(rules, j),
                            forall|j: int|
                                0 <= j < i ==> !((#[trigger] rules[j]).index is Some
                                    && rules[j].index->0 > index),
                        decreases args.len() - i,
                    {
                        match args[i].index {
                            Some(other) => {
                                if other > index {
                                    proof {
                                        assert(rules[i as int].index is Some && rules[i as int].index->0
                                            > index);
                                        lemma_least_is(
                                            rules.len() as int,
                                            |at: int| misplaced_multiple(rules, at),
                                            at as int,
                                        );
                                    }
                                    return at;
                                }
                            },
                            None => {},
                        }
                        i += 1;
                    }
                }
            },
            None => {},
        }
        at += 1;
    }
    proof {
        lemma_least_is(rules.len() as int, |at: int| misplaced_multiple(rules, at), at as int);
    }
    at
}

/// Whether `name` is the name of an argument other than the one at `at`.
fn is_sibling_name(args: &Vec<CliArg>, at: usize, name: &String) -> (found: bool)
    ensures
        found == names_sibling(args.deep_view(), at as int, name@),
{
    let ghost rules = args.deep_view();
    let mut i: usize = 0;
    while i < args.len()
        invariant
            i <= args.len(),
            rules == args.deep_view(),
            forall|j: int| 0 <= j < i && j != at ==> (#[trigger] rules[j]).name != name@,
        decreases args.len() - i,
    {
        if i != at && args[i].name == *name {
            assert(rules[i as int].name == name@);
            return true;
        }
        i += 1;
    }
    false
}

/// The first reference of the argument at `at` that names no other argument.
fn find_dangling_reference(args: &Vec<CliArg>, at: usize) -> (dangling: Option<String>)
    requires
        at < args.len(),
    ensures
        match dangling {
            Some(name) => has_dangling(args.deep_view(), at as int) && name@
                == args.deep_view()[at as int].references()[first_dangling(
                args.deep_view(),
                at as int,
            )],
            None => !has_dangling(args.deep_view(), at as int),
        },
{
    let ghost rules = args.deep_view();
    let references = args[at].references();
    let ghost names = rules[at as int].references();
    let mut k: usize = 0;
    while k < references.len()
        invariant
            k <= references.len(),
            at < args.len(),
            rules == args.deep_view(),
            names == rules[at as int].references(),
            references.deep_view() == names,
            forall|j: int| 0 <= j < k ==> !dangles(rules, at as int, j),
        decreases references.len() - k,
    {
        assert(references[k as int]@ == names[k as int]);
        if !is_sibling_name(args, at, references[k]) {
            proof {
                lemma_least_is(names.len() as int, |k: int| dangles(rules, at as int, k), k as int);
            }
            return Some(references[k].clone());
        }
        k += 1;
    }
    proof {
        lemma_least_is(names.len() as int, |k: int| dangles(rules, at as int, k), k as int);
    }
    None
}

/// The first argument with a dangling reference, and that reference.
fn find_dangling(args: &Vec<CliArg>) -> (found: Option<(usize, String)>)
    ensures
        match found {
            Some((at, name)) => {
                &&& at == first_with_dangling(args.deep_view())
                &&& at < args.len()
                &&& name@ == args.deep_view()[at as int].references()[first_dangling(
                    args.deep_view(),
                    at as int,
                )]
            },
            None => first_with_dangling(args.deep_view()) == args.len(),
        },
{
    let ghost rules = args.deep_view();
    let mut at: usize = 0;
    while at < args.len()
        invariant
            at <= args.len(),
            rules == args.deep_view(),
            forall|j: int| 0 <= j < at ==> !has_dangling(rules, j),
        decreases args.len() - at,
    {
        match find_dangling_reference(args, at) {
            Some(name) => {
                proof {
                    lemma_least_is(
                        rules.len() as int,
                        |at: int| has_dangling(rules, at),
                        at as int,
                    );
                }
                return Some((at, name));
            },
            None => {},
        }
        at += 1;
    }
    proof {
        lemma_least_is(rules.len() as int, |at: int| has_dangling(rules, at), at as int);
    }
    None
}

/// The position of the first argument that asks for more values at least than
/// at most, or the number of arguments.
fn find_inverted_bounds(args: &Vec<CliArg>) -> (at: usize)
    ensures
        at == first_inverted_bounds(args.deep_view()),
        at <= args.len(),
{
    let ghost rules = args.deep_view();
    let mut at: usize = 0;
    while at < args.len()
        invariant
            at <= args.len(),
            rules == args.deep_view(),
            forall|j: int| 0 <= j < at ==> !inverted_bounds(rules, j),
        decreases args.len() - at,
    {
        let inverted = match (args[at].min_values, args[at].max_values) {
            (Some(min), Some(max)) => min > max,
            _ => false,
        };
        if inverted {
            proof {
                lemma_least_is(
                    rules.len() as int,
                    |at: int| inverted_bounds(rules, at),
                    at as int,
                );
            }
            return at;
        }
        at += 1;
    }
    proof {
        lemma_least_is(rules.len() as int, |at: int| inverted_bounds(rules, at), at as int);
    }
    at
}

/// Checks the arguments of one node and reports their first defect.
fn validate_args(args: &Vec<CliArg>) -> (outcome: Result<(), SchemaError>)
    ensures
        outcome_of(outcome) == node_defect(args.deep_view()),
{
    let ghost rules = args.deep_view();
    let at = find_repeated_name(args);
    if at < args.len() {
        return Err(SchemaError::DuplicateName(args[at].name.clone()));
    }
    let at = find_repeated_short(args);
    if at < args.len() {
        proof {
            lemma_least(rules.len() as int, |at: int| repeats_short(rules, at));
        }
        match args[at].resolved_short() {
            Some(short) => {
                return Err(SchemaError::DuplicateShort(args[at].name.clone(), short));
            },
            None => {},
        }
    }
    let at = find_repeated_index(args);
    if at < args.len() {
        proof {
            lemma_least(rules.len() as int, |at: int| repeats_index(rules, at));
        }
        match args[at].index {
            Some(index) => {
                return Err(SchemaError::DuplicateIndex(args[at].name.clone(), index));
            },
            None => {},
        }
    }
    let at = find_misplaced_multiple(args);
    if at < args.len() {
        return Err(SchemaError::InvalidMultiplePosition(args[at].name.clone()));
    }
    match find_dangling(args) {
        Some((at, name)) => {
            return Err(SchemaError::DanglingReference(args[at].name.clone(), name));
        },
        None => {},
    }
    let at = find_inverted_bounds(args);
    if at < args.len() {
        return Err(SchemaError::InvalidValueBounds(args[at].name.clone()));
    }
    Ok(())
}

/// Whether `outcome` is what validation makes of `node`: its first defect, or
/// success where it has none.
pub open spec fn is_outcome(node: CommandNode, outcome: Option<Defect>) -> bool {
    outcome == tree_defect(node)
}

/// Two rules of the node share a name.
pub open spec fn has_repeated_name(rules: Seq<ArgumentRule>) -> bool {
    exists|i: int, j: int|
        0 <= i < j < rules.len() && (#[trigger] rules[i]).name == (#[trigger] rules[j]).name
}

/// Two rules of the node share a short alias.
pub open spec fn has_repeated_short(rules: Seq<ArgumentRule>) -> bool {
    exists|i: int, j: int|
        0 <= i < j < rules.len() && (#[trigger] rules[i]).short is Some && rules[i].short == (
        #[trigger] rules[j]).short
}

/// Two rules of the node share a positional index.
pub open spec fn has_repeated_index(rules: Seq<ArgumentRule>) -> bool {
    exists|i: int, j: int|
        0 <= i < j < rules.len() && (#[trigger] rules[i]).index is Some && rules[i].index == (
        #[trigger] rules[j]).index
}

/// A node in which two arguments share a name has `DuplicateName` as its
/// first defect.
pub proof fn lemma_repeated_name_is_reported(rules: Seq<ArgumentRule>)
    requires
        has_repeated_name(rules),
    ensures
        node_defect(rules) is Some,
        node_defect(rules)->0 is DuplicateName,
{
    let (i, j) = choose|i: int, j: int|
        0 <= i < j < rules.len() && (#[trigger] rules[i]).name == (#[trigger] rules[j]).name;
    let name = |at: int| repeats_name(rules, at);
    assert(name(j));
    lemma_least(rules.len() as int, name);
}

/// A node in which two arguments share a positional index, but none a name
/// or a short alias, has `DuplicateIndex` as its first defect.
pub proof fn lemma_repeated_index_is_reported(rules: Seq<ArgumentRule>)
    requires
        has_repeated_index(rules),
        !has_repeated_name(rules),
        !has_repeated_short(rules),
    ensures
        node_defect(rules) is Some,
        node_defect(rules)->0 is DuplicateIndex,
{
    let (i, j) = choose|i: int, j: int|
        0 <= i < j < rules.len() && (#[trigger] rules[i]).index is Some && rules[i].index == (
        #[trigger] rules[j]).index;
    let name = |at: int| repeats_name(rules, at);
    let short = |at: int| repeats_short(rules, at);
    let index = |at: int| repeats_index(rules, at);
    assert(index(j));
    lemma_least(rules.len() as int, name);
    lemma_least(rules.len() as int, short);
    lemma_least(rules.len() as int, index);
    let first_name = least(rules.len() as int, name);
    if first_name < rules.len() {
        assert(name(first_name));
        let k = choose|k: int|
            0 <= k < first_name && (#[trigger] rules[k]).name == rules[first_name].name;
        assert(rules[k].name == rules[first_name].name);
    }
    let first_short = least(rules.len() as int, short);
    if first_short < rules.len() {
        assert(short(first_short));
        let k = choose|k: int|
            0 <= k < first_short && (#[trigger] rules[k]).short == rules[first_short].short;
        assert(rules[k].short is Some && rules[k].short == rules[first_short].short);
    }
}

/// The arguments of a node have no defect exactly when they are valid.
pub proof fn lemma_node_defect_none(rules: Seq<ArgumentRule>)
    ensures
        node_defect(rules) is None <==> node_valid(rules),
{
    let n = rules.len() as int;
    let name = |at: int| repeats_name(rules, at);
    let short = |at: int| repeats_short(rules, at);
    let index = |at: int| repeats_index(rules, at);
    let multiple = |at: int| misplaced_multiple(rules, at);
    let dangling = |at: int| has_dangling(rules, at);
    let bounds = |at: int| inverted_bounds(rules, at);
    lemma_least(n, name);
    lemma_least(n, short);
    lemma_least(n, index);
    lemma_least(n, multiple);
    lemma_least(n, dangling);
    lemma_least(n, bounds);
    if node_defect(rules) is None {
        assert forall|at: int| 0 <= at < n implies #[trigger] rule_valid(rules, at) by {
            assert(!name(at));
            assert(!short(at));
            assert(!index(at));
            assert(!multiple(at));
            assert(!dangling(at));
            assert(!bounds(at));
        }
    }
    if node_valid(rules) {
        assert(least(n, name) < n ==> name(least(n, name)) && rule_valid(rules, least(n, name)));
        assert(least(n, short) < n ==> short(least(n, short)) && rule_valid(
            rules,
            least(n, short),
        ));
        assert(least(n, index) < n ==> index(least(n, index)) && rule_valid(
            rules,
            least(n, index),
        ));
        assert(least(n, multiple) < n ==> multiple(least(n, multiple)) && rule_valid(
            rules,
            least(n, multiple),
        ));
        assert(least(n, dangling) < n ==> dangling(least(n, dangling)) && rule_valid(
            rules,
            least(n, dangling),
        ));
        assert(least(n, bounds) < n ==> bounds(least(n, bounds)) && rule_valid(
            rules,
            least(n, bounds),
        ));
    }
}

/// A tree has no defect exactly when it is valid: as long as any node of it
/// has a defect, validation fails.
pub proof fn lemma_tree_defect_none(node: CommandNode)
    ensures
        tree_defect(node) is None <==> tree_valid(node),
    decreases node, 0nat,
{
    lemma_node_defect_none(node.args);
    lemma_children_defect_none(node.subcommands, 0);
}

/// The subcommands from `from` on have no defect exactly when each of them
/// is valid.
pub proof fn lemma_children_defect_none(subcommands: Seq<(Seq<char>, CommandNode)>, from: int)
    requires
        0 <= from,
    ensures
        children_defect(subcommands, from) is None <==> forall|i: int|
            from <= i < subcommands.len() ==> tree_valid((#[trigger] subcommands[i]).1),
    decreases subcommands, subcommands.len() - from,
{
    if from < subcommands.len() {
        lemma_tree_defect_none(subcommands[from].1);
        lemma_children_defect_none(subcommands, from + 1);
        if children_defect(subcommands, from) is None {
            assert forall|i: int| from <= i < subcommands.len() implies tree_valid(
                (#[trigger] subcommands[i]).1,
            ) by {
                if i > from {
                }
            }
        }
    }
}

/// Validation is a function of the tree: what it makes of one tree at one
/// time it makes of that tree at any other.
pub proof fn lemma_validation_repeats(
    node: CommandNode,
    first: Option<Defect>,
    second: Option<Defect>,
)
    requires
        is_outcome(node, first),
        is_outcome(node, second),
    ensures
        first == second,
{
}

/// Checks a command tree and reports its first defect.
///
/// The outcome is `Ok` exactly when no node of the tree has a defect. A node
/// in which two arguments share a name is reported as `DuplicateName`
/// whatever else is wrong with it; one in which two share a positional
/// index, as `DuplicateIndex`, unless two share a name or a short alias.
pub fn validate(node: &CliConfig) -> (outcome: Result<(), SchemaError>)
    ensures
        is_outcome(node@, outcome_of(outcome)),
        outcome is Ok <==> tree_valid(node@),
        has_repeated_name(node@.args) ==> outcome is Err && outcome->Err_0 is DuplicateName,
        has_repeated_index(node@.args) && !has_repeated_name(node@.args) && !has_repeated_short(
            node@.args,
        ) ==> outcome is Err && outcome->Err_0 is DuplicateIndex,
    decreases node@,
{
    proof {
        lemma_tree_defect_none(node@);
        if has_repeated_name(node@.args) {
            lemma_repeated_name_is_reported(node@.args);
        } else if has_repeated_index(node@.args) && !has_repeated_short(node@.args) {
            lemma_repeated_index_is_reported(node@.args);
        }
    }
    match node.args() {
        Some(args) => {
            match validate_args(args) {
                Ok(_) => {},
                Err(e) => {
                    return Err(e);
                },
            }
        },
        None => {
            proof {
                lemma_node_defect_none(node@.args);
            }
        },
    }
    let ghost children = node@.subcommands;
    match node.subcommands() {
        Some(subcommands) => {
            let mut i: usize = 0;
            while i < subcommands.len()
                invariant
                    i <= subcommands.len(),
                    children == node@.subcommands,
                    nodes_of(Some(*subcommands)) == children,
                    node_defect(node@.args) is None,
                    children_defect(children, 0) == children_defect(children, i as int),
                decreases subcommands.len() - i,
            {
                assert(node@.subcommands[i as int].1 == subcommands[i as int].1@);
                match validate(&subcommands[i].1) {
                    Ok(_) => {},
                    Err(e) => {
                        proof {
                            if has_repeated_name(node@.args) {
                                lemma_repeated_name_is_reported(node@.args);
                            } else if has_repeated_index(node@.args) && !has_repeated_short(
                                node@.args,
                            ) {
                                lemma_repeated_index_is_reported(node@.args);
                            }
                        }
                        return Err(e);
                    },
                }
                i += 1;
            }
        },
        None => {},
    }
    Ok(())
}

} // verus!
