//! The declared command-line schema: argument rules and the command tree.
//!
//! The executable types `CliArg` and `CliConfig` hold what a declaration
//! document says. Their views, `ArgumentRule` and `CommandNode`, are the
//! mathematical values that validation and resolution are stated over.

use vstd::prelude::*;

verus! {

/// An absent flag counts as `false`.
pub open spec fn flag(value: Option<bool>) -> bool {
    value == Some(true)
}

/// The short alias that a declared character stands for: a dash is stripped
/// and leaves nothing behind.
pub open spec fn resolved_short(short: Option<char>) -> Option<char> {
    match short {
        Some(c) => if c == '-' {
            None
        } else {
            Some(c)
        },
        None => None,
    }
}

/// The argument name and the value of a condition list `[argument, value]`.
/// A list with fewer than two entries states no condition; entries after the
/// second are not read.
pub open spec fn condition_of(list: Option<Vec<String>>) -> Option<(Seq<char>, Seq<char>)> {
    match list {
        Some(l) => if l@.len() >= 2 {
            Some((l@[0]@, l@[1]@))
        } else {
            None
        },
        None => None,
    }
}

/// The names that an optional single name contributes to a list of names.
pub open spec fn single(name: Option<Seq<char>>) -> Seq<Seq<char>> {
    match name {
        Some(n) => seq![n],
        None => Seq::empty(),
    }
}

/// The names of an optional list; an absent list has none.
pub open spec fn listed(names: Option<Seq<Seq<char>>>) -> Seq<Seq<char>> {
    match names {
        Some(l) => l,
        None => Seq::empty(),
    }
}

/// The argument that an optional condition `[argument, value]` names.
pub open spec fn subject(condition: Option<(Seq<char>, Seq<char>)>) -> Seq<Seq<char>> {
    match condition {
        Some(c) => seq![c.0],
        None => Seq::empty(),
    }
}

/// One declared argument, as a mathematical value.
pub struct ArgumentRule {
    pub short: Option<char>,
    pub name: Seq<char>,
    pub description: Option<Seq<char>>,
    pub long_description: Option<Seq<char>>,
    pub takes_value: bool,
    pub multiple: bool,
    pub multiple_occurrences: bool,
    pub number_of_values: Option<u64>,
    pub possible_values: Option<Seq<Seq<char>>>,
    pub min_values: Option<u64>,
    pub max_values: Option<u64>,
    pub required: bool,
    pub required_unless_present: Option<Seq<char>>,
    pub required_unless_present_all: Option<Seq<Seq<char>>>,
    pub required_unless_present_any: Option<Seq<Seq<char>>>,
    pub conflicts_with: Option<Seq<char>>,
    pub conflicts_with_all: Option<Seq<Seq<char>>>,
    pub requires: Option<Seq<char>>,
    pub requires_all: Option<Seq<Seq<char>>>,
    pub requires_if: Option<(Seq<char>, Seq<char>)>,
    pub required_if_eq: Option<(Seq<char>, Seq<char>)>,
    pub require_equals: bool,
    pub index: Option<u64>,
}

impl ArgumentRule {
    /// The arguments that this one excludes, in declaration order.
    pub open spec fn conflict_targets(self) -> Seq<Seq<char>> {
        single(self.conflicts_with) + listed(self.conflicts_with_all)
    }

    /// The arguments that must accompany this one, in declaration order.
    pub open spec fn dependencies(self) -> Seq<Seq<char>> {
        single(self.requires) + listed(self.requires_all)
    }

    /// The arguments whose presence can lift the requirement of this one.
    pub open spec fn unless_targets(self) -> Seq<Seq<char>> {
        single(self.required_unless_present) + listed(self.required_unless_present_all) + listed(
            self.required_unless_present_any,
        )
    }

    /// Every sibling name that this rule mentions, in the order in which the
    /// constraints are read.
    pub open spec fn references(self) -> Seq<Seq<char>> {
        self.conflict_targets() + self.dependencies() + self.unless_targets() + subject(
            self.requires_if,
        ) + subject(self.required_if_eq)
    }
}

/// A CLI argument definition.
#[derive(Debug, PartialEq)]
pub struct CliArg {
    /// The short version of the argument, without the preceding -.
    ///
    /// Any leading - characters will be stripped, and only the first non -
    /// character will be used as the short version.
    pub short: Option<char>,
    /// The unique argument name.
    pub name: String,
    /// The argument description which will be shown on the help information.
    pub description: Option<String>,
    /// The argument long description which will be shown on the help information.
    pub long_description: Option<String>,
    /// Specifies that the argument takes a value at run time.
    pub takes_value: Option<bool>,
    /// Specifies that the argument may appear more than once.
    pub multiple: Option<bool>,
    /// Specifies that the argument may appear more than once.
    pub multiple_occurrences: Option<bool>,
    /// The exact number of values that the argument takes.
    pub number_of_values: Option<u64>,
    /// The values that the argument accepts.
    pub possible_values: Option<Vec<String>>,
    /// The minimum number of values for this argument.
    pub min_values: Option<u64>,
    /// The maximum number of values for this argument.
    pub max_values: Option<u64>,
    /// Whether the argument is required by default.
    pub required: Option<bool>,
    /// An argument whose presence lifts the requirement of this one.
    pub required_unless_present: Option<String>,
    /// Arguments whose joint presence lifts the requirement of this one.
    pub required_unless_present_all: Option<Vec<String>>,
    /// Arguments of which one present lifts the requirement of this one.
    pub required_unless_present_any: Option<Vec<String>>,
    /// An argument that cannot be present together with this one.
    pub conflicts_with: Option<String>,
    /// Arguments that cannot be present together with this one.
    pub conflicts_with_all: Option<Vec<String>>,
    /// An argument that must be present when this one is.
    pub requires: Option<String>,
    /// Arguments that must be present when this one is.
    pub requires_all: Option<Vec<String>>,
    /// A conditional requirement with the signature `[arg, value]`.
    pub requires_if: Option<Vec<String>>,
    /// A conditional requiredness with the signature `[arg, value]`.
    pub required_if_eq: Option<Vec<String>>,
    /// Requires that options use the `--option=val` syntax.
    pub require_equals: Option<bool>,
    /// The positional argument index, starting at 1.
    pub index: Option<u64>,
}

impl View for CliArg {
    type V = ArgumentRule;

    open spec fn view(&self) -> ArgumentRule {
        ArgumentRule {
            short: resolved_short(self.short),
            name: self.name@,
            description: self.description.deep_view(),
            long_description: self.long_description.deep_view(),
            takes_value: flag(self.takes_value),
            multiple: flag(self.multiple),
            multiple_occurrences: flag(self.multiple_occurrences),
            number_of_values: self.number_of_values,
            possible_values: self.possible_values.deep_view(),
            min_values: self.min_values,
            max_values: self.max_values,
            required: flag(self.required),
            required_unless_present: self.required_unless_present.deep_view(),
            required_unless_present_all: self.required_unless_present_all.deep_view(),
            required_unless_present_any: self.required_unless_present_any.deep_view(),
            conflicts_with: self.conflicts_with.deep_view(),
            conflicts_with_all: self.conflicts_with_all.deep_view(),
            requires: self.requires.deep_view(),
            requires_all: self.requires_all.deep_view(),
            requires_if: condition_of(self.requires_if),
            required_if_eq: condition_of(self.required_if_eq),
            require_equals: flag(self.require_equals),
            index: self.index,
        }
    }
}

impl Clone for CliArg {
    /// A copy that declares what the argument declares.
    fn clone(&self) -> (copy: CliArg)
        ensures
            copy@ == self@,
    {
        let copy = CliArg {
            short: self.short,
            name: self.name.clone(),
            description: self.description.clone(),
            long_description: self.long_description.clone(),
            takes_value: self.takes_value,
            multiple: self.multiple,
            multiple_occurrences: self.multiple_occurrences,
            number_of_values: self.number_of_values,
            possible_values: self.possible_values.clone(),
            min_values: self.min_values,
            max_values: self.max_values,
            required: self.required,
            required_unless_present: self.required_unless_present.clone(),
            required_unless_present_all: self.required_unless_present_all.clone(),
            required_unless_present_any: self.required_unless_present_any.clone(),
            conflicts_with: self.conflicts_with.clone(),
            conflicts_with_all: self.conflicts_with_all.clone(),
            requires: self.requires.clone(),
            requires_all: self.requires_all.clone(),
            requires_if: self.requires_if.clone(),
            required_if_eq: self.required_if_eq.clone(),
            require_equals: self.require_equals,
            index: self.index,
        };
        copy
    }
}

impl DeepView for CliArg {
    type V = ArgumentRule;

    open spec fn deep_view(&self) -> ArgumentRule {
        self@
    }
}

impl CliArg {
    /// An argument of the given name with no alias, no value shape and no
    /// constraint.
    pub fn new(name: String) -> (arg: CliArg)
        ensures
            arg == (CliArg {
                short: None,
                name,
                description: None,
                long_description: None,
                takes_value: None,
                multiple: None,
                multiple_occurrences: None,
                number_of_values: None,
                possible_values: None,
                min_values: None,
                max_values: None,
                required: None,
                required_unless_present: None,
                required_unless_present_all: None,
                required_unless_present_any: None,
                conflicts_with: None,
                conflicts_with_all: None,
                requires: None,
                requires_all: None,
                requires_if: None,
                required_if_eq: None,
                require_equals: None,
                index: None,
            }),
    {
        CliArg {
            short: None,
            name,
            description: None,
            long_description: None,
            takes_value: None,
            multiple: None,
            multiple_occurrences: None,
            number_of_values: None,
            possible_values: None,
            min_values: None,
            max_values: None,
            required: None,
            required_unless_present: None,
            required_unless_present_all: None,
            required_unless_present_any: None,
            conflicts_with: None,
            conflicts_with_all: None,
            requires: None,
            requires_all: None,
            requires_if: None,
            required_if_eq: None,
            require_equals: None,
            index: None,
        }
    }
}

/// Appends the name that `name` holds, if it holds one.
fn push_name<'a>(out: &mut Vec<&'a String>, name: &'a Option<String>)
    ensures
        final(out).deep_view() == old(out).deep_view() + single(name.deep_view()),
{
    match name {
        Some(n) => {
            out.push(n);
        },
        None => {},
    }
    assert(out.deep_view() =~= old(out).deep_view() + single(name.deep_view()));
}

/// Appends the names that `names` lists, in order.
fn push_names<'a>(out: &mut Vec<&'a String>, names: &'a Option<Vec<String>>)
    ensures
        final(out).deep_view() == old(out).deep_view() + listed(names.deep_view()),
{
    match names {
        Some(list) => {
            let mut i: usize = 0;
            while i < list.len()
                invariant
                    i <= list.len(),
                    out.deep_view() == old(out).deep_view() + list.deep_view().take(i as int),
                decreases list.len() - i,
            {
                let ghost before = out.deep_view();
                out.push(&list[i]);
                assert(out.deep_view() =~= before.push(list[i as int]@));
                assert(list.deep_view().take(i + 1) =~= list.deep_view().take(i as int).push(
                    list[i as int]@,
                ));
                i += 1;
            }
            assert(list.deep_view().take(i as int) =~= list.deep_view());
        },
        None => {},
    }
    assert(out.deep_view() =~= old(out).deep_view() + listed(names.deep_view()));
}

/// Appends the argument that the condition list names, if it states a
/// condition.
fn push_subject<'a>(out: &mut Vec<&'a String>, condition: &'a Option<Vec<String>>)
    ensures
        final(out).deep_view() == old(out).deep_view() + subject(condition_of(*condition)),
{
    match condition {
        Some(list) => {
            if list.len() >= 2 {
                out.push(&list[0]);
            }
        },
        None => {},
    }
    assert(out.deep_view() =~= old(out).deep_view() + subject(condition_of(*condition)));
}

impl CliArg {
    /// The short alias of the argument: a declared dash stands for none.
    pub fn resolved_short(&self) -> (short: Option<char>)
        ensures
            short == self@.short,
    {
        match self.short {
            Some(c) => if c == '-' {
                None
            } else {
                Some(c)
            },
            None => None,
        }
    }

    /// The arguments that this one excludes, in declaration order.
    pub fn conflict_targets(&self) -> (names: Vec<&String>)
        ensures
            names.deep_view() == self@.conflict_targets(),
    {
        let mut names: Vec<&String> = Vec::new();
        assert(names.deep_view() =~= Seq::empty());
        push_name(&mut names, &self.conflicts_with);
        push_names(&mut names, &self.conflicts_with_all);
        assert(names.deep_view() =~= self@.conflict_targets());
        names
    }

    /// The arguments that must accompany this one, in declaration order.
    pub fn dependencies(&self) -> (names: Vec<&String>)
        ensures
            names.deep_view() == self@.dependencies(),
    {
        let mut names: Vec<&String> = Vec::new();
        assert(names.deep_view() =~= Seq::empty());
        push_name(&mut names, &self.requires);
        push_names(&mut names, &self.requires_all);
        assert(names.deep_view() =~= self@.dependencies());
        names
    }

    /// Every sibling name that this argument mentions, in the order in which
    /// the constraints are read.
    pub fn references(&self) -> (names: Vec<&String>)
        ensures
            names.deep_view() == self@.references(),
    {
        let mut names: Vec<&String> = Vec::new();
        assert(names.deep_view() =~= Seq::empty());
        push_name(&mut names, &self.conflicts_with);
        push_names(&mut names, &self.conflicts_with_all);
        push_name(&mut names, &self.requires);
        push_names(&mut names, &self.requires_all);
        push_name(&mut names, &self.required_unless_present);
        push_names(&mut names, &self.required_unless_present_all);
        push_names(&mut names, &self.required_unless_present_any);
        push_subject(&mut names, &self.requires_if);
        push_subject(&mut names, &self.required_if_eq);
        assert(names.deep_view() =~= self@.references());
        names
    }
}

/// A command or subcommand, as a mathematical value. The subcommands are a
/// mapping kept in insertion order: no name occurs twice in it.
pub struct CommandNode {
    pub description: Option<Seq<char>>,
    pub long_description: Option<Seq<char>>,
    pub before_help: Option<Seq<char>>,
    pub after_help: Option<Seq<char>>,
    pub args: Seq<ArgumentRule>,
    pub subcommands: Seq<(Seq<char>, CommandNode)>,
}

/// The position of the first entry of `subcommands` under `name`, or the
/// length of `subcommands` where there is none.
pub open spec fn subcommand_position(
    subcommands: Seq<(Seq<char>, CommandNode)>,
    name: Seq<char>,
) -> int
    decreases subcommands.len(),
{
    if subcommands.len() == 0 {
        0
    } else if subcommands[0].0 == name {
        0
    } else {
        1 + subcommand_position(subcommands.drop_first(), name)
    }
}

/// `subcommand_position` is the least position that holds `name`.
pub proof fn lemma_subcommand_position(subcommands: Seq<(Seq<char>, CommandNode)>, name: Seq<char>)
    ensures
        0 <= subcommand_position(subcommands, name) <= subcommands.len(),
        subcommand_position(subcommands, name) < subcommands.len() ==> subcommands[subcommand_position(
            subcommands,
            name,
        )].0 == name,
        forall|i: int|
            0 <= i < subcommand_position(subcommands, name) ==> (#[trigger] subcommands[i]).0
                != name,
    decreases subcommands.len(),
{
    if subcommands.len() > 0 && subcommands[0].0 != name {
        let rest = subcommands.drop_first();
        lemma_subcommand_position(rest, name);
        assert forall|i: int| 0 <= i < subcommand_position(subcommands, name) implies (
        #[trigger] subcommands[i]).0 != name by {
            if i > 0 {
                assert(subcommands[i] == rest[i - 1]);
            }
        }
    }
}

impl CommandNode {
    /// No two subcommands share a name.
    pub open spec fn subcommand_names_distinct(self) -> bool {
        forall|i: int, j: int|
            0 <= i < j < self.subcommands.len() ==> (#[trigger] self.subcommands[i]).0 != (
            #[trigger] self.subcommands[j]).0
    }

    /// The subcommand declared under `name`, if there is one.
    pub open spec fn subcommand(self, name: Seq<char>) -> Option<CommandNode> {
        let at = subcommand_position(self.subcommands, name);
        if at < self.subcommands.len() {
            Some(self.subcommands[at].1)
        } else {
            None
        }
    }

    /// The subcommands after `child` has been put under `name`: in place of
    /// the entry of that name, or at the end where there was none.
    pub open spec fn put(self, name: Seq<char>, child: CommandNode) -> Seq<(Seq<char>, CommandNode)> {
        let at = subcommand_position(self.subcommands, name);
        if at < self.subcommands.len() {
            self.subcommands.update(at, (name, child))
        } else {
            self.subcommands.push((name, child))
        }
    }
}

/// The rules of an optional list of arguments; an absent list has none.
pub open spec fn rules_of(args: Option<Vec<CliArg>>) -> Seq<ArgumentRule> {
    match args {
        Some(l) => l.deep_view(),
        None => Seq::empty(),
    }
}

/// Describes a CLI configuration: a command with its arguments and its
/// subcommands.
#[derive(Debug, PartialEq)]
pub struct CliConfig {
    /// Command description which will be shown on the help information.
    description: Option<String>,
    /// Command long description which will be shown on the help information.
    long_description: Option<String>,
    /// Help information displayed before the generated help.
    before_help: Option<String>,
    /// Help information displayed after the generated help.
    after_help: Option<String>,
    /// List of args for the command.
    args: Option<Vec<CliArg>>,
    /// The subcommands of this command by name, in insertion order.
    subcommands: Option<Vec<(String, CliConfig)>>,
}

impl View for CliConfig {
    type V = CommandNode;

    closed spec fn view(&self) -> CommandNode
        decreases self,
    {
        CommandNode {
            description: self.description.deep_view(),
            long_description: self.long_description.deep_view(),
            before_help: self.before_help.deep_view(),
            after_help: self.after_help.deep_view(),
            args: rules_of(self.args),
            subcommands: match self.subcommands {
                Some(l) => Seq::new(
                    l@.len(),
                    |i: int|
                        if 0 <= i < l@.len() {
                            (l[i].0@, l[i].1.view())
                        } else {
                            (Seq::empty(), arbitrary())
                        },
                ),
                None => Seq::empty(),
            },
        }
    }
}

impl Clone for CliConfig {
    /// A copy of the command and of every command under it.
    fn clone(&self) -> (copy: CliConfig)
        ensures
            copy@ == self@,
        decreases self@,
    {
        proof {
            use_type_invariant(self);
            reveal_with_fuel(<CliConfig as View>::view, 2);
        }
        let subcommands = match &self.subcommands {
            Some(list) => {
                let mut copies: Vec<(String, CliConfig)> = Vec::new();
                let mut i: usize = 0;
                while i < list.len()
                    invariant
                        i <= list.len(),
                        nodes_of(Some(*list)) == self@.subcommands,
                        copies@.len() == i,
                        forall|j: int|
                            0 <= j < i ==> (#[trigger] copies@[j]).0@ == list@[j].0@ && copies@[j].1@
                                == list@[j].1@,
                    decreases list.len() - i,
                {
                    assert(self@.subcommands[i as int].1 == list[i as int].1@);
                    let name = list[i].0.clone();
                    let child = list[i].1.clone();
                    copies.push((name, child));
                    i += 1;
                }
                Some(copies)
            },
            None => None,
        };
        let args = self.args.clone();
        assert(rules_of(args) =~= rules_of(self.args));
        let copy = CliConfig {
            description: self.description.clone(),
            long_description: self.long_description.clone(),
            before_help: self.before_help.clone(),
            after_help: self.after_help.clone(),
            args,
            subcommands,
        };
        assert(copy@.subcommands =~= self@.subcommands);
        copy
    }
}

impl DeepView for CliConfig {
    type V = CommandNode;

    open spec fn deep_view(&self) -> CommandNode {
        self@
    }
}

/// The named nodes of an optional list of subcommands; an absent list has
/// none.
pub open spec fn nodes_of(subcommands: Option<Vec<(String, CliConfig)>>) -> Seq<
    (Seq<char>, CommandNode),
> {
    match subcommands {
        Some(l) => Seq::new(l@.len(), |i: int| (l@[i].0@, l@[i].1@)),
        None => Seq::empty(),
    }
}

impl CliConfig {
    #[verifier::type_invariant]
    spec fn names_distinct(self) -> bool {
        match self.subcommands {
            Some(l) => forall|i: int, j: int|
                0 <= i < j < l@.len() ==> (#[trigger] l@[i]).0@ != (#[trigger] l@[j]).0@,
            None => true,
        }
    }

    /// A command with the given texts and arguments and no subcommand.
    pub fn new(
        description: Option<String>,
        long_description: Option<String>,
        before_help: Option<String>,
        after_help: Option<String>,
        args: Option<Vec<CliArg>>,
    ) -> (node: CliConfig)
        ensures
            node@ == (CommandNode {
                description: description.deep_view(),
                long_description: long_description.deep_view(),
                before_help: before_help.deep_view(),
                after_help: after_help.deep_view(),
                args: rules_of(args),
                subcommands: Seq::empty(),
            }),
    {
        CliConfig { description, long_description, before_help, after_help, args, subcommands: None }
    }

    /// The command description.
    pub fn description(&self) -> (text: &Option<String>)
        ensures
            text.deep_view() == self@.description,
    {
        &self.description
    }

    /// The long command description.
    pub fn long_description(&self) -> (text: &Option<String>)
        ensures
            text.deep_view() == self@.long_description,
    {
        &self.long_description
    }

    /// The text shown before the generated help.
    pub fn before_help(&self) -> (text: &Option<String>)
        ensures
            text.deep_view() == self@.before_help,
    {
        &self.before_help
    }

    /// The text shown after the generated help.
    pub fn after_help(&self) -> (text: &Option<String>)
        ensures
            text.deep_view() == self@.after_help,
    {
        &self.after_help
    }

    /// The declared arguments.
    pub fn args(&self) -> (args: &Option<Vec<CliArg>>)
        ensures
            rules_of(*args) == self@.args,
    {
        &self.args
    }

    /// The declared subcommands, each with its name. No name occurs twice.
    pub fn subcommands(&self) -> (subcommands: &Option<Vec<(String, CliConfig)>>)
        ensures
            nodes_of(*subcommands) == self@.subcommands,
            self@.subcommand_names_distinct(),
    {
        proof {
            use_type_invariant(self);
            reveal_with_fuel(<CliConfig as View>::view, 2);
            assert(nodes_of(self.subcommands) =~= self@.subcommands);
        }
        &self.subcommands
    }

    /// The subcommand declared under `name`, if there is one.
    pub fn subcommand(&self, name: &String) -> (found: Option<&CliConfig>)
        ensures
            match found {
                Some(child) => self@.subcommand(name@) == Some(child@),
                None => self@.subcommand(name@) is None,
            },
    {
        let ghost model = self@.subcommands;
        match self.subcommands() {
            Some(list) => {
                let mut i: usize = 0;
                while i < list.len()
                    invariant
                        i <= list.len(),
                        model == self@.subcommands,
                        nodes_of(Some(*list)) == model,
                        forall|j: int| 0 <= j < i ==> (#[trigger] model[j]).0 != name@,
                    decreases list.len() - i,
                {
                    assert(model[i as int] == (list[i as int].0@, list[i as int].1@));
                    if list[i].0 == *name {
                        proof {
                            lemma_subcommand_position(model, name@);
                        }
                        return Some(&list[i].1);
                    }
                    i += 1;
                }
                proof {
                    lemma_subcommand_position(model, name@);
                }
                None
            },
            None => {
                proof {
                    lemma_subcommand_position(model, name@);
                }
                None
            },
        }
    }

    /// This command with `child` put under `name`: in place of the subcommand
    /// of that name, or as a new last subcommand where there was none.
    pub fn with_subcommand(self, name: String, child: CliConfig) -> (node: CliConfig)
        ensures
            node@ == (CommandNode {
                description: self@.description,
                long_description: self@.long_description,
                before_help: self@.before_help,
                after_help: self@.after_help,
                args: self@.args,
                subcommands: self@.put(name@, child@),
            }),
    {
        proof {
            use_type_invariant(&self);
            reveal_with_fuel(<CliConfig as View>::view, 2);
        }
        let ghost before = self@;
        assert(nodes_of(self.subcommands) =~= before.subcommands);
        let CliConfig { description, long_description, before_help, after_help, args, subcommands } =
            self;
        let mut list = match subcommands {
            Some(l) => l,
            None => Vec::new(),
        };
        assert(nodes_of(Some(list)) =~= before.subcommands);
        let mut i: usize = 0;
        let mut found = false;
        while !found && i < list.len()
            invariant
                i <= list.len(),
                nodes_of(Some(list)) == before.subcommands,
                forall|j: int| 0 <= j < i ==> (#[trigger] list@[j]).0@ != name@,
                found ==> i < list.len() && list@[i as int].0@ == name@,
            decreases list.len() - i + if found { 0int } else { 1int },
        {
            if list[i].0 == name {
                found = true;
            } else {
                i += 1;
            }
        }
        proof {
            lemma_subcommand_position(before.subcommands, name@);
            assert forall|j: int| 0 <= j < i implies (#[trigger] before.subcommands[j]).0
                != name@ by {
                assert(before.subcommands[j] == (list@[j].0@, list@[j].1@));
            }
            if i < list.len() {
                assert(before.subcommands[i as int] == (list@[i as int].0@, list@[i as int].1@));
            }
            assert(subcommand_position(before.subcommands, name@) == i);
        }
        let ghost old_list = list@;
        if i < list.len() {
            list.set(i, (name, child));
        } else {
            list.push((name, child));
        }
        let node = CliConfig {
            description,
            long_description,
            before_help,
            after_help,
            args,
            subcommands: Some(list),
        };
        proof {
            assert forall|a: int, b: int| 0 <= a < b < list@.len() implies (#[trigger] list@[a]).0@
                != (#[trigger] list@[b]).0@ by {
                if a != i && b != i {
                    assert(old_list[a].0@ != old_list[b].0@);
                } else if a == i {
                    if b < old_list.len() {
                        assert(old_list[a].0@ != old_list[b].0@);
                    }
                } else {
                    assert(old_list[a].0@ != name@);
                }
            }
            assert(node@.subcommands =~= before.put(name@, child@));
        }
        node
    }
}

} // verus!
