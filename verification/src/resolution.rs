//! Resolution of a declared command against the arguments of one invocation.
//!
//! Every rule of the invoked command is examined in declaration order, and
//! every constraint that the observed arguments break is reported: the
//! outcome is the whole list, never only its first entry.
//!
//! An argument is present when the invocation supplied a value for it or
//! recorded an occurrence of it, which is how a flag is marked present. An
//! argument equals a value when that value is all that was supplied for it.
//! A conflict between two arguments is reported once, by the first rule that
//! declares it, whichever of the two that is.

use crate::schema::{ArgumentRule, CliArg, CliConfig, CommandNode, condition_of};
use crate::laws::lemma_resolution_is_complete;
use crate::scan::{gather, least, lemma_least_is, tally};
use vstd::prelude::*;

verus! {

/// What one invocation supplied for one argument, as a mathematical value.
pub struct Observation {
    /// The supplied values, in order.
    pub values: Seq<Seq<char>>,
    /// One entry for each time the argument occurred: whether it was written
    /// as `name=value`.
    pub occurrences: Seq<bool>,
}

impl Observation {
    /// The argument was supplied: with a value, or as a flag that occurred.
    pub open spec fn is_present(self) -> bool {
        self.values.len() > 0 || self.occurrences.len() > 0
    }
}

/// What one invocation supplied, as a mathematical value: a mapping from
/// argument names to what was supplied for them, and the invoked subcommand
/// with what was supplied to it.
pub struct Observed {
    pub args: Map<Seq<char>, Observation>,
    pub subcommand: Option<(Seq<char>, Box<Observed>)>,
}

/// What one invocation supplied for one argument.
#[derive(Debug, PartialEq, Eq, Clone)]
pub struct ObservedArg {
    /// The name of the argument.
    pub name: String,
    /// The supplied values, in order.
    pub values: Vec<String>,
    /// One entry for each time the argument occurred: whether it was written
    /// as `name=value`. A flag is marked present by an occurrence.
    pub occurrences: Vec<bool>,
}

impl View for ObservedArg {
    type V = Observation;

    open spec fn view(&self) -> Observation {
        Observation { values: self.values.deep_view(), occurrences: self.occurrences@ }
    }
}

/// The position of the first entry of `list` for `name`, or the length of
/// `list`.
pub open spec fn entry_position(list: Seq<ObservedArg>, name: Seq<char>) -> int {
    least(list.len() as int, |i: int| list[i].name@ == name)
}

/// The mapping that a list of observed arguments stands for. Where a name
/// occurs twice, its first entry counts.
pub open spec fn observations(list: Seq<ObservedArg>) -> Map<Seq<char>, Observation> {
    Map::new(
        |name: Seq<char>| entry_position(list, name) < list.len(),
        |name: Seq<char>| list[entry_position(list, name)]@,
    )
}

/// What one invocation supplied: the observed arguments of the invoked
/// command and, where a subcommand was invoked, its name and what was
/// supplied to it.
#[derive(Debug, PartialEq, Eq)]
pub struct Invocation {
    /// The observed arguments. Where a name occurs twice, its first entry
    /// counts.
    pub args: Vec<ObservedArg>,
    /// The invoked subcommand and what was supplied to it.
    pub subcommand: Option<(String, Box<Invocation>)>,
}

impl View for Invocation {
    type V = Observed;

    open spec fn view(&self) -> Observed
        decreases self,
    {
        Observed {
            args: observations(self.args@),
            subcommand: match self.subcommand {
                Some((name, inner)) => Some((name@, Box::new((*inner).view()))),
                None => None,
            },
        }
    }
}

/// A constraint that an invocation breaks, as a mathematical value.
pub enum Violation {
    /// The named argument is required and absent.
    MissingRequired(Seq<char>),
    /// The two named arguments exclude each other and are both present.
    ConflictingArguments(Seq<char>, Seq<char>),
    /// The first argument is present without the second, which it requires.
    MissingDependency(Seq<char>, Seq<char>),
    /// The first argument is absent though the second has the value that
    /// calls for it.
    MissingConditionalDependency(Seq<char>, Seq<char>),
    /// The named argument was given a value outside its possible values.
    InvalidValue(Seq<char>, Seq<char>),
    /// The named argument was given a number of values outside its bounds.
    ValueCountOutOfRange(Seq<char>),
}

/// A constraint that an invocation breaks.
#[derive(Debug, PartialEq, Eq, Clone)]
pub enum ConstraintViolation {
    /// The named argument is required and absent.
    MissingRequired(String),
    /// The two named arguments exclude each other and are both present.
    ConflictingArguments(String, String),
    /// The first argument is present without the second, which it requires.
    MissingDependency(String, String),
    /// The first argument is absent though the second has the value that
    /// calls for it.
    MissingConditionalDependency(String, String),
    /// The named argument was given a value outside its possible values.
    InvalidValue(String, String),
    /// The named argument was given a number of values outside its bounds.
    ValueCountOutOfRange(String),
}

impl View for ConstraintViolation {
    type V = Violation;

    open spec fn view(&self) -> Violation {
        match self {
            ConstraintViolation::MissingRequired(name) => Violation::MissingRequired(name@),
            ConstraintViolation::ConflictingArguments(name, other) => {
                Violation::ConflictingArguments(name@, other@)
            },
            ConstraintViolation::MissingDependency(name, other) => Violation::MissingDependency(
                name@,
                other@,
            ),
            ConstraintViolation::MissingConditionalDependency(name, other) => {
                Violation::MissingConditionalDependency(name@, other@)
            },
            ConstraintViolation::InvalidValue(name, value) => Violation::InvalidValue(
                name@,
                value@,
            ),
            ConstraintViolation::ValueCountOutOfRange(name) => Violation::ValueCountOutOfRange(
                name@,
            ),
        }
    }
}

impl DeepView for ConstraintViolation {
    type V = Violation;

    open spec fn deep_view(&self) -> Violation {
        self@
    }
}

/// The argument `name` was supplied.
pub open spec fn is_present(observed: Map<Seq<char>, Observation>, name: Seq<char>) -> bool {
    observed.contains_key(name) && observed[name].is_present()
}

/// The values supplied for the argument `name`; none where it was not
/// observed.
pub open spec fn values_of(observed: Map<Seq<char>, Observation>, name: Seq<char>) -> Seq<
    Seq<char>,
> {
    if observed.contains_key(name) {
        observed[name].values
    } else {
        Seq::empty()
    }
}

/// What was supplied for the argument `name` is the one value `value`.
pub open spec fn has_value(
    observed: Map<Seq<char>, Observation>,
    name: Seq<char>,
    value: Seq<char>,
) -> bool {
    values_of(observed, name).len() == 1 && values_of(observed, name)[0] == value
}

/// Every one of `names` was supplied.
pub open spec fn all_present(observed: Map<Seq<char>, Observation>, names: Seq<Seq<char>>) -> bool {
    forall|i: int| 0 <= i < names.len() ==> is_present(observed, #[trigger] names[i])
}

/// At least one of `names` was supplied.
pub open spec fn any_present(observed: Map<Seq<char>, Observation>, names: Seq<Seq<char>>) -> bool {
    exists|i: int| 0 <= i < names.len() && is_present(observed, #[trigger] names[i])
}

/// The condition `[argument, value]` is stated and holds of what was
/// supplied.
pub open spec fn condition_holds(
    observed: Map<Seq<char>, Observation>,
    condition: Option<(Seq<char>, Seq<char>)>,
) -> bool {
    match condition {
        Some(c) => has_value(observed, c.0, c.1),
        None => false,
    }
}

/// The argument that the condition `[argument, value]` names; the empty name
/// where none is stated.
pub open spec fn condition_name(condition: Option<(Seq<char>, Seq<char>)>) -> Seq<char> {
    match condition {
        Some(c) => c.0,
        None => Seq::empty(),
    }
}

/// One of the rule's clauses that lift its requirement applies.
pub open spec fn requirement_lifted(
    rule: ArgumentRule,
    observed: Map<Seq<char>, Observation>,
) -> bool {
    ||| rule.required_unless_present is Some && is_present(
        observed,
        rule.required_unless_present->0,
    )
    ||| rule.required_unless_present_all is Some && all_present(
        observed,
        rule.required_unless_present_all->0,
    )
    ||| rule.required_unless_present_any is Some && any_present(
        observed,
        rule.required_unless_present_any->0,
    )
}

/// Whether the invocation has to supply the argument: its declared flag
/// stands unless a lifting clause applies, and a condition on another
/// argument's value that holds requires it in any case.
pub open spec fn is_required(rule: ArgumentRule, observed: Map<Seq<char>, Observation>) -> bool {
    condition_holds(observed, rule.required_if_eq) || (rule.required && !requirement_lifted(
        rule,
        observed,
    ))
}

/// The two pairs hold the same two names, in either order.
pub open spec fn same_pair(a: Seq<char>, b: Seq<char>, c: Seq<char>, d: Seq<char>) -> bool {
    (a == c && b == d) || (a == d && b == c)
}

/// An earlier declaration names the same two arguments as the conflict
/// target at `k` of the rule at `at`: an earlier rule, or an earlier target
/// of the same rule.
pub open spec fn declared_before(rules: Seq<ArgumentRule>, at: int, k: int) -> bool {
    exists|j: int, m: int|
        0 <= j <= at && 0 <= m < rules[j].conflict_targets().len() && (j < at || m < k)
            && same_pair(
            rules[j].name,
            #[trigger] rules[j].conflict_targets()[m],
            rules[at].name,
            rules[at].conflict_targets()[k],
        )
}

/// The conflict target at `k` of the rule at `at` is reported: both arguments
/// are present, and no earlier declaration names the same two.
pub open spec fn reports_conflict(
    rules: Seq<ArgumentRule>,
    observed: Map<Seq<char>, Observation>,
    at: int,
    k: int,
) -> bool {
    &&& is_present(observed, rules[at].name)
    &&& is_present(observed, rules[at].conflict_targets()[k])
    &&& !declared_before(rules, at, k)
}

/// The dependency at `k` of the rule at `at` is reported: the argument is
/// present and the one that it requires is not.
pub open spec fn reports_dependency(
    rule: ArgumentRule,
    observed: Map<Seq<char>, Observation>,
    k: int,
) -> bool {
    is_present(observed, rule.name) && !is_present(observed, rule.dependencies()[k])
}

/// The supplied value at `k` is reported: the rule lists its possible values
/// and this is none of them.
pub open spec fn reports_value(
    rule: ArgumentRule,
    observed: Map<Seq<char>, Observation>,
    k: int,
) -> bool {
    rule.possible_values is Some && !rule.possible_values->0.contains(
        values_of(observed, rule.name)[k],
    )
}

/// The number of supplied values is what the rule asks for: the exact number
/// where it states one, and else within its bounds, an absent bound being
/// none.
pub open spec fn count_in_range(rule: ArgumentRule, count: nat) -> bool {
    match rule.number_of_values {
        Some(n) => count == n,
        None => {
            &&& rule.min_values is Some ==> rule.min_values->0 <= count
            &&& rule.max_values is Some ==> count <= rule.max_values->0
        },
    }
}

/// The argument is required and absent.
pub open spec fn missing_required(rule: ArgumentRule, observed: Map<Seq<char>, Observation>) -> bool {
    is_required(rule, observed) && !is_present(observed, rule.name)
}

/// The argument is absent though its condition on another argument holds.
pub open spec fn missing_conditional(
    rule: ArgumentRule,
    observed: Map<Seq<char>, Observation>,
) -> bool {
    condition_holds(observed, rule.requires_if) && !is_present(observed, rule.name)
}

/// At most the one entry `entry`, where `reported` holds.
pub open spec fn entry_if(reported: bool, entry: Violation) -> Seq<Violation> {
    if reported {
        seq![entry]
    } else {
        Seq::empty()
    }
}

/// The conflicts reported for the first `n` targets of the rule at `at`.
pub open spec fn conflicts(
    rules: Seq<ArgumentRule>,
    observed: Map<Seq<char>, Observation>,
    at: int,
    n: int,
) -> Seq<Violation> {
    gather(
        n,
        |k: int| reports_conflict(rules, observed, at, k),
        |k: int| Violation::ConflictingArguments(rules[at].name, rules[at].conflict_targets()[k]),
    )
}

/// The missing dependencies reported for the first `n` dependencies of the
/// rule.
pub open spec fn missing_dependencies(
    rule: ArgumentRule,
    observed: Map<Seq<char>, Observation>,
    n: int,
) -> Seq<Violation> {
    gather(
        n,
        |k: int| reports_dependency(rule, observed, k),
        |k: int| Violation::MissingDependency(rule.name, rule.dependencies()[k]),
    )
}

/// The invalid values reported among the first `n` values supplied for the
/// rule.
pub open spec fn invalid_values(
    rule: ArgumentRule,
    observed: Map<Seq<char>, Observation>,
    n: int,
) -> Seq<Violation> {
    gather(
        n,
        |k: int| reports_value(rule, observed, k),
        |k: int| Violation::InvalidValue(rule.name, values_of(observed, rule.name)[k]),
    )
}

/// The violations of the rule at `at`, in the order in which its constraints
/// are examined: requiredness, conflicts, dependencies, the conditional
/// dependency, the possible values, the number of values. An argument that
/// was not supplied has no value: none of its values can be invalid, and
/// their number, zero, is held to the rule's bounds like any other.
pub open spec fn rule_violations(
    rules: Seq<ArgumentRule>,
    observed: Map<Seq<char>, Observation>,
    at: int,
) -> Seq<Violation> {
    let rule = rules[at];
    entry_if(missing_required(rule, observed), Violation::MissingRequired(rule.name)) + conflicts(
        rules,
        observed,
        at,
        rule.conflict_targets().len() as int,
    ) + missing_dependencies(rule, observed, rule.dependencies().len() as int) + entry_if(
        missing_conditional(rule, observed),
        Violation::MissingConditionalDependency(rule.name, condition_name(rule.requires_if)),
    ) + invalid_values(rule, observed, values_of(observed, rule.name).len() as int) + entry_if(
        !count_in_range(rule, values_of(observed, rule.name).len()),
        Violation::ValueCountOutOfRange(rule.name),
    )
}

/// The violations of the first `n` rules, rule by rule.
pub open spec fn violations_upto(
    rules: Seq<ArgumentRule>,
    observed: Map<Seq<char>, Observation>,
    n: int,
) -> Seq<Violation>
    decreases n,
{
    if n <= 0 {
        Seq::empty()
    } else {
        violations_upto(rules, observed, n - 1) + rule_violations(rules, observed, n - 1)
    }
}

/// The violations of the rules of one node.
pub open spec fn node_violations(
    rules: Seq<ArgumentRule>,
    observed: Map<Seq<char>, Observation>,
) -> Seq<Violation> {
    violations_upto(rules, observed, rules.len() as int)
}

/// The violations of an invocation: those of the invoked command, then those
/// of the invoked subcommand against what was supplied to it. The arguments
/// of a command are resolved whether or not a subcommand was invoked; a
/// subcommand that the command does not declare has nothing to resolve.
pub open spec fn violations(node: CommandNode, observed: Observed) -> Seq<Violation>
    decreases observed,
{
    node_violations(node.args, observed.args) + match observed.subcommand {
        Some((name, inner)) => match node.subcommand(name) {
            Some(child) => violations(child, *inner),
            None => Seq::empty(),
        },
        None => Seq::empty(),
    }
}

/// One, where `reported` holds, and else none.
pub open spec fn one_if(reported: bool) -> nat {
    if reported {
        1
    } else {
        0
    }
}

/// The number of constraints that the invocation breaks of the rule at `at`:
/// each constraint is counted by its own condition.
pub open spec fn broken_constraints(
    rules: Seq<ArgumentRule>,
    observed: Map<Seq<char>, Observation>,
    at: int,
) -> nat {
    let rule = rules[at];
    one_if(missing_required(rule, observed)) + tally(
        rule.conflict_targets().len() as int,
        |k: int| reports_conflict(rules, observed, at, k),
    ) + tally(rule.dependencies().len() as int, |k: int| reports_dependency(rule, observed, k))
        + one_if(missing_conditional(rule, observed)) + tally(
        values_of(observed, rule.name).len() as int,
        |k: int| reports_value(rule, observed, k),
    ) + one_if(!count_in_range(rule, values_of(observed, rule.name).len()))
}

/// The number of constraints that the invocation breaks of the first `n`
/// rules.
pub open spec fn broken_upto(
    rules: Seq<ArgumentRule>,
    observed: Map<Seq<char>, Observation>,
    n: int,
) -> nat
    decreases n,
{
    if n <= 0 {
        0
    } else {
        broken_upto(rules, observed, n - 1) + broken_constraints(rules, observed, n - 1)
    }
}

/// The number of constraints that the invocation breaks of a command and of
/// its invoked subcommand.
pub open spec fn broken_total(node: CommandNode, observed: Observed) -> nat
    decreases observed,
{
    broken_upto(node.args, observed.args, node.args.len() as int) + match observed.subcommand {
        Some((name, inner)) => match node.subcommand(name) {
            Some(child) => broken_total(child, *inner),
            None => 0,
        },
        None => 0,
    }
}

/// The first entry of `observed` for `name`, if there is one.
fn find_observed<'a>(observed: &'a Vec<ObservedArg>, name: &String) -> (found: Option<
    &'a ObservedArg,
>)
    ensures
        match found {
            Some(entry) => observations(observed@).contains_key(name@) && observations(
                observed@,
            )[name@] == entry@,
            None => !observations(observed@).contains_key(name@),
        },
{
    let mut i: usize = 0;
    while i < observed.len()
        invariant
            i <= observed.len(),
            forall|j: int| 0 <= j < i ==> (#[trigger] observed@[j]).name@ != name@,
        decreases observed.len() - i,
    {
        if observed[i].name == *name {
            proof {
                lemma_least_is(
                    observed@.len() as int,
                    |i: int| observed@[i].name@ == name@,
                    i as int,
                );
            }
            return Some(&observed[i]);
        }
        i += 1;
    }
    proof {
        lemma_least_is(observed@.len() as int, |i: int| observed@[i].name@ == name@, i as int);
    }
    None
}

/// Whether the argument `name` was supplied.
fn is_supplied(observed: &Vec<ObservedArg>, name: &String) -> (supplied: bool)
    ensures
        supplied == is_present(observations(observed@), name@),
{
    match find_observed(observed, name) {
        Some(entry) => entry.values.len() > 0 || entry.occurrences.len() > 0,
        None => false,
    }
}

/// Whether what was supplied for the argument `name` is the one value
/// `value`.
fn holds_value(observed: &Vec<ObservedArg>, name: &String, value: &String) -> (holds: bool)
    ensures
        holds == has_value(observations(observed@), name@, value@),
{
    match find_observed(observed, name) {
        Some(entry) => {
            if entry.values.len() == 1 {
                assert(entry@.values[0] == entry.values@[0]@);
                entry.values[0] == *value
            } else {
                false
            }
        },
        None => false,
    }
}

/// Whether every one of `names` was supplied.
fn all_supplied(observed: &Vec<ObservedArg>, names: &Vec<String>) -> (all: bool)
    ensures
        all == all_present(observations(observed@), names.deep_view()),
{
    let ghost map = observations(observed@);
    let mut i: usize = 0;
    while i < names.len()
        invariant
            i <= names.len(),
            map == observations(observed@),
            forall|j: int| 0 <= j < i ==> is_present(map, #[trigger] names.deep_view()[j]),
        decreases names.len() - i,
    {
        assert(names.deep_view()[i as int] == names@[i as int]@);
        if !is_supplied(observed, &names[i]) {
            return false;
        }
        i += 1;
    }
    true
}

/// Whether at least one of `names` was supplied.
fn any_supplied(observed: &Vec<ObservedArg>, names: &Vec<String>) -> (any: bool)
    ensures
        any == any_present(observations(observed@), names.deep_view()),
{
    let ghost map = observations(observed@);
    let mut i: usize = 0;
    while i < names.len()
        invariant
            i <= names.len(),
            map == observations(observed@),
            forall|j: int| 0 <= j < i ==> !is_present(map, #[trigger] names.deep_view()[j]),
        decreases names.len() - i,
    {
        assert(names.deep_view()[i as int] == names@[i as int]@);
        if is_supplied(observed, &names[i]) {
            return true;
        }
        i += 1;
    }
    false
}

/// Whether the condition list states a condition that holds of what was
/// supplied.
fn condition_met(observed: &Vec<ObservedArg>, condition: &Option<Vec<String>>) -> (met: bool)
    ensures
        met == condition_holds(observations(observed@), condition_of(*condition)),
{
    match condition {
        Some(list) => {
            if list.len() >= 2 {
                holds_value(observed, &list[0], &list[1])
            } else {
                false
            }
        },
        None => false,
    }
}

/// Whether one of the argument's clauses that lift its requirement applies.
fn is_lifted(arg: &CliArg, observed: &Vec<ObservedArg>) -> (lifted: bool)
    ensures
        lifted == requirement_lifted(arg@, observations(observed@)),
{
    let by_one = match &arg.required_unless_present {
        Some(name) => is_supplied(observed, name),
        None => false,
    };
    let by_all = match &arg.required_unless_present_all {
        Some(names) => all_supplied(observed, names),
        None => false,
    };
    let by_any = match &arg.required_unless_present_any {
        Some(names) => any_supplied(observed, names),
        None => false,
    };
    by_one || by_all || by_any
}

/// Whether the invocation has to supply the argument.
fn must_be_supplied(arg: &CliArg, observed: &Vec<ObservedArg>) -> (required: bool)
    ensures
        required == is_required(arg@, observations(observed@)),
{
    if condition_met(observed, &arg.required_if_eq) {
        true
    } else {
        let declared = match arg.required {
            Some(b) => b,
            None => false,
        };
        declared && !is_lifted(arg, observed)
    }
}

/// Appends one violation.
fn report(out: &mut Vec<ConstraintViolation>, violation: ConstraintViolation)
    ensures
        final(out).deep_view() == old(out).deep_view().push(violation@),
{
    out.push(violation);
    assert(out.deep_view() =~= old(out).deep_view().push(violation@));
}

/// Whether an earlier declaration names the same two arguments as the
/// conflict target at `k` of the argument at `at`.
fn is_declared_before(args: &Vec<CliArg>, at: usize, k: usize, target: &String) -> (before: bool)
    requires
        at < args.len(),
        k < args.deep_view()[at as int].conflict_targets().len(),
        target@ == args.deep_view()[at as int].conflict_targets()[k as int],
    ensures
        before == declared_before(args.deep_view(), at as int, k as int),
{
    let ghost rules = args.deep_view();
    let mut j: usize = 0;
    while j <= at
        invariant
            j <= at + 1,
            at < args.len(),
            rules == args.deep_view(),
            k < rules[at as int].conflict_targets().len(),
            target@ == rules[at as int].conflict_targets()[k as int],
            forall|i: int, m: int|
                0 <= i < j && 0 <= m < rules[i].conflict_targets().len() && (i < at || m < k)
                    ==> !same_pair(
                    rules[i].name,
                    #[trigger] rules[i].conflict_targets()[m],
                    rules[at as int].name,
                    target@,
                ),
        decreases at + 1 - j,
    {
        let targets = args[j].conflict_targets();
        let limit = if j < at {
            targets.len()
        } else {
            k
        };
        let mut m: usize = 0;
        while m < limit
            invariant
                m <= limit <= targets.len(),
                j <= at < args.len(),
                limit == (if j < at {
                    targets.len()
                } else {
                    k
                }),
                rules == args.deep_view(),
                targets.deep_view() == rules[j as int].conflict_targets(),
                k < rules[at as int].conflict_targets().len(),
                target@ == rules[at as int].conflict_targets()[k as int],
                forall|i: int, m: int|
                    0 <= i < j && 0 <= m < rules[i].conflict_targets().len() && (i < at || m < k)
                        ==> !same_pair(
                        rules[i].name,
                        #[trigger] rules[i].conflict_targets()[m],
                        rules[at as int].name,
                        target@,
                    ),
                forall|n: int|
                    0 <= n < m ==> !same_pair(
                        rules[j as int].name,
                        #[trigger] rules[j as int].conflict_targets()[n],
                        rules[at as int].name,
                        target@,
                    ),
            decreases limit - m,
        {
            assert(targets[m as int]@ == rules[j as int].conflict_targets()[m as int]);
            let straight = args[j].name == args[at].name && *targets[m] == *target;
            let crossed = args[j].name == *target && *targets[m] == args[at].name;
            if straight || crossed {
                assert(same_pair(
                    rules[j as int].name,
                    rules[j as int].conflict_targets()[m as int],
                    rules[at as int].name,
                    rules[at as int].conflict_targets()[k as int],
                ));
                return true;
            }
            m += 1;
        }
        j += 1;
    }
    false
}

/// Reports the argument at `at` where it is required and absent.
fn report_missing_required(
    args: &Vec<CliArg>,
    observed: &Vec<ObservedArg>,
    at: usize,
    out: &mut Vec<ConstraintViolation>,
)
    requires
        at < args.len(),
    ensures
        final(out).deep_view() == old(out).deep_view() + entry_if(
            missing_required(args.deep_view()[at as int], observations(observed@)),
            Violation::MissingRequired(args.deep_view()[at as int].name),
        ),
{
    if must_be_supplied(&args[at], observed) && !is_supplied(observed, &args[at].name) {
        report(out, ConstraintViolation::MissingRequired(args[at].name.clone()));
    }
    assert(out.deep_view() =~= old(out).deep_view() + entry_if(
        missing_required(args.deep_view()[at as int], observations(observed@)),
        Violation::MissingRequired(args.deep_view()[at as int].name),
    ));
}

/// Reports the conflicts of the argument at `at`.
fn report_conflicts(
    args: &Vec<CliArg>,
    observed: &Vec<ObservedArg>,
    at: usize,
    out: &mut Vec<ConstraintViolation>,
)
    requires
        at < args.len(),
    ensures
        final(out).deep_view() == old(out).deep_view() + conflicts(
            args.deep_view(),
            observations(observed@),
            at as int,
            args.deep_view()[at as int].conflict_targets().len() as int,
        ),
{
    let ghost rules = args.deep_view();
    let ghost map = observations(observed@);
    let targets = args[at].conflict_targets();
    let present = is_supplied(observed, &args[at].name);
    let mut k: usize = 0;
    assert(out.deep_view() =~= old(out).deep_view() + conflicts(rules, map, at as int, 0));
    while k < targets.len()
        invariant
            k <= targets.len(),
            at < args.len(),
            rules == args.deep_view(),
            map == observations(observed@),
            targets.deep_view() == rules[at as int].conflict_targets(),
            present == is_present(map, rules[at as int].name),
            out.deep_view() == old(out).deep_view() + conflicts(rules, map, at as int, k as int),
        decreases targets.len() - k,
    {
        let ghost before = out.deep_view();
        assert(targets[k as int]@ == rules[at as int].conflict_targets()[k as int]);
        if present && is_supplied(observed, targets[k]) && !is_declared_before(
            args,
            at,
            k,
            targets[k],
        ) {
            report(
                out,
                ConstraintViolation::ConflictingArguments(
                    args[at].name.clone(),
                    targets[k].clone(),
                ),
            );
        }
        assert(out.deep_view() =~= old(out).deep_view() + conflicts(
            rules,
            map,
            at as int,
            k + 1,
        ));
        k += 1;
    }
}

/// Reports the dependencies of the argument at `at` that are not met.
fn report_dependencies(
    args: &Vec<CliArg>,
    observed: &Vec<ObservedArg>,
    at: usize,
    out: &mut Vec<ConstraintViolation>,
)
    requires
        at < args.len(),
    ensures
        final(out).deep_view() == old(out).deep_view() + missing_dependencies(
            args.deep_view()[at as int],
            observations(observed@),
            args.deep_view()[at as int].dependencies().len() as int,
        ),
{
    let ghost rule = args.deep_view()[at as int];
    let ghost map = observations(observed@);
    let names = args[at].dependencies();
    let present = is_supplied(observed, &args[at].name);
    let mut k: usize = 0;
    assert(out.deep_view() =~= old(out).deep_view() + missing_dependencies(rule, map, 0));
    while k < names.len()
        invariant
            k <= names.len(),
            at < args.len(),
            rule == args.deep_view()[at as int],
            map == observations(observed@),
            names.deep_view() == rule.dependencies(),
            present == is_present(map, rule.name),
            out.deep_view() == old(out).deep_view() + missing_dependencies(rule, map, k as int),
        decreases names.len() - k,
    {
        assert(names[k as int]@ == rule.dependencies()[k as int]);
        if present && !is_supplied(observed, names[k]) {
            report(
                out,
                ConstraintViolation::MissingDependency(args[at].name.clone(), names[k].clone()),
            );
        }
        assert(out.deep_view() =~= old(out).deep_view() + missing_dependencies(rule, map, k + 1));
        k += 1;
    }
}

/// Reports the argument at `at` where it is absent though its condition on
/// another argument holds.
fn report_missing_conditional(
    args: &Vec<CliArg>,
    observed: &Vec<ObservedArg>,
    at: usize,
    out: &mut Vec<ConstraintViolation>,
)
    requires
        at < args.len(),
    ensures
        final(out).deep_view() == old(out).deep_view() + entry_if(
            missing_conditional(args.deep_view()[at as int], observations(observed@)),
            Violation::MissingConditionalDependency(
                args.deep_view()[at as int].name,
                condition_name(args.deep_view()[at as int].requires_if),
            ),
        ),
{
    if condition_met(observed, &args[at].requires_if) && !is_supplied(observed, &args[at].name) {
        match &args[at].requires_if {
            Some(list) => {
                if list.len() >= 2 {
                    report(
                        out,
                        ConstraintViolation::MissingConditionalDependency(
                            args[at].name.clone(),
                            list[0].clone(),
                        ),
                    );
                }
            },
            None => {},
        }
    }
    assert(out.deep_view() =~= old(out).deep_view() + entry_if(
        missing_conditional(args.deep_view()[at as int], observations(observed@)),
        Violation::MissingConditionalDependency(
            args.deep_view()[at as int].name,
            condition_name(args.deep_view()[at as int].requires_if),
        ),
    ));
}

/// Whether `value` is one of `allowed`.
fn is_listed(allowed: &Vec<String>, value: &String) -> (listed: bool)
    ensures
        listed == allowed.deep_view().contains(value@),
{
    let mut i: usize = 0;
    while i < allowed.len()
        invariant
            i <= allowed.len(),
            forall|j: int| 0 <= j < i ==> allowed.deep_view()[j] != value@,
        decreases allowed.len() - i,
    {
        assert(allowed.deep_view()[i as int] == allowed@[i as int]@);
        if allowed[i] == *value {
            return true;
        }
        i += 1;
    }
    false
}

/// Reports the values supplied for the argument at `at` that are none of its
/// possible values.
fn report_invalid_values(
    args: &Vec<CliArg>,
    observed: &Vec<ObservedArg>,
    at: usize,
    out: &mut Vec<ConstraintViolation>,
)
    requires
        at < args.len(),
    ensures
        final(out).deep_view() == old(out).deep_view() + invalid_values(
            args.deep_view()[at as int],
            observations(observed@),
            values_of(observations(observed@), args.deep_view()[at as int].name).len() as int,
        ),
{
    let ghost rule = args.deep_view()[at as int];
    let ghost map = observations(observed@);
    assert(out.deep_view() =~= old(out).deep_view() + invalid_values(rule, map, 0));
    match find_observed(observed, &args[at].name) {
        Some(entry) => {
            let mut k: usize = 0;
            while k < entry.values.len()
                invariant
                    k <= entry.values.len(),
                    at < args.len(),
                    rule == args.deep_view()[at as int],
                    map == observations(observed@),
                    values_of(map, rule.name) == entry.values.deep_view(),
                    out.deep_view() == old(out).deep_view() + invalid_values(rule, map, k as int),
                decreases entry.values.len() - k,
            {
                assert(entry.values.deep_view()[k as int] == entry.values@[k as int]@);
                let invalid = match &args[at].possible_values {
                    Some(allowed) => !is_listed(allowed, &entry.values[k]),
                    None => false,
                };
                if invalid {
                    report(
                        out,
                        ConstraintViolation::InvalidValue(
                            args[at].name.clone(),
                            entry.values[k].clone(),
                        ),
                    );
                }
                assert(out.deep_view() =~= old(out).deep_view() + invalid_values(
                    rule,
                    map,
                    k + 1,
                ));
                k += 1;
            }
        },
        None => {},
    }
}

/// Whether `count` values are what the argument asks for.
fn is_count_in_range(arg: &CliArg, count: usize) -> (within: bool)
    ensures
        within == count_in_range(arg@, count as nat),
{
    let count = count as u64;
    match arg.number_of_values {
        Some(n) => count == n,
        None => {
            let above = match arg.min_values {
                Some(min) => min <= count,
                None => true,
            };
            let below = match arg.max_values {
                Some(max) => count <= max,
                None => true,
            };
            above && below
        },
    }
}

/// Reports the argument at `at` where the number of its values is not what
/// it asks for.
fn report_value_count(
    args: &Vec<CliArg>,
    observed: &Vec<ObservedArg>,
    at: usize,
    out: &mut Vec<ConstraintViolation>,
)
    requires
        at < args.len(),
    ensures
        final(out).deep_view() == old(out).deep_view() + entry_if(
            !count_in_range(
                args.deep_view()[at as int],
                values_of(observations(observed@), args.deep_view()[at as int].name).len(),
            ),
            Violation::ValueCountOutOfRange(args.deep_view()[at as int].name),
        ),
{
    let count = match find_observed(observed, &args[at].name) {
        Some(entry) => entry.values.len(),
        None => 0,
    };
    if !is_count_in_range(&args[at], count) {
        report(out, ConstraintViolation::ValueCountOutOfRange(args[at].name.clone()));
    }
    assert(out.deep_view() =~= old(out).deep_view() + entry_if(
        !count_in_range(
            args.deep_view()[at as int],
            values_of(observations(observed@), args.deep_view()[at as int].name).len(),
        ),
        Violation::ValueCountOutOfRange(args.deep_view()[at as int].name),
    ));
}

/// Examines the arguments of one command and appends their violations.
fn resolve_args(
    args: &Vec<CliArg>,
    observed: &Vec<ObservedArg>,
    out: &mut Vec<ConstraintViolation>,
)
    ensures
        final(out).deep_view() == old(out).deep_view() + node_violations(
            args.deep_view(),
            observations(observed@),
        ),
{
    let ghost rules = args.deep_view();
    let ghost map = observations(observed@);
    let mut at: usize = 0;
    assert(out.deep_view() =~= old(out).deep_view() + violations_upto(rules, map, 0));
    while at < args.len()
        invariant
            at <= args.len(),
            rules == args.deep_view(),
            map == observations(observed@),
            out.deep_view() == old(out).deep_view() + violations_upto(rules, map, at as int),
        decreases args.len() - at,
    {
        report_missing_required(args, observed, at, out);
        report_conflicts(args, observed, at, out);
        report_dependencies(args, observed, at, out);
        report_missing_conditional(args, observed, at, out);
        report_invalid_values(args, observed, at, out);
        report_value_count(args, observed, at, out);
        assert(out.deep_view() =~= old(out).deep_view() + violations_upto(rules, map, at + 1));
        at += 1;
    }
}

/// Examines a command and, where one was invoked, its subcommand, and
/// appends their violations.
fn resolve_into(node: &CliConfig, observed: &Invocation, out: &mut Vec<ConstraintViolation>)
    ensures
        final(out).deep_view() == old(out).deep_view() + violations(node@, observed@),
    decreases observed,
{
    match node.args() {
        Some(args) => {
            resolve_args(args, &observed.args, out);
        },
        None => {},
    }
    assert(out.deep_view() =~= old(out).deep_view() + node_violations(
        node@.args,
        observed@.args,
    ));
    match &observed.subcommand {
        Some((name, inner)) => {
            match node.subcommand(name) {
                Some(child) => {
                    resolve_into(child, inner, out);
                },
                None => {},
            }
        },
        None => {},
    }
    assert(out.deep_view() =~= old(out).deep_view() + violations(node@, observed@));
}

/// The occurrences are written as the rule asks: where it requires the
/// equals syntax of an argument that takes a value, every occurrence was
/// written as `name=value`.
pub open spec fn respects_equals_syntax(rule: ArgumentRule, observation: Observation) -> bool {
    rule.require_equals && rule.takes_value ==> forall|i: int|
        0 <= i < observation.occurrences.len() ==> observation.occurrences[i]
}

/// The argument occurred as often as the rule allows: more than once only
/// where it may appear more than once.
pub open spec fn respects_occurrences(rule: ArgumentRule, observation: Observation) -> bool {
    rule.multiple || rule.multiple_occurrences || observation.occurrences.len() <= 1
}

/// Whether the observed occurrences of an argument are written as its rule
/// asks. How an occurrence was written is taken from the flag recorded with
/// it, not derived from any text.
pub fn uses_equals_syntax(arg: &CliArg, observed: &ObservedArg) -> (respected: bool)
    ensures
        respected == respects_equals_syntax(arg@, observed@),
{
    let asked = match (arg.require_equals, arg.takes_value) {
        (Some(equals), Some(takes)) => equals && takes,
        _ => false,
    };
    if !asked {
        return true;
    }
    let mut i: usize = 0;
    while i < observed.occurrences.len()
        invariant
            i <= observed.occurrences.len(),
            arg@.require_equals && arg@.takes_value,
            forall|j: int| 0 <= j < i ==> observed.occurrences@[j],
        decreases observed.occurrences.len() - i,
    {
        if !observed.occurrences[i] {
            assert(!observed@.occurrences[i as int]);
            return false;
        }
        i += 1;
    }
    true
}

/// Whether an argument occurred as often as its rule allows.
pub fn occurs_as_allowed(arg: &CliArg, observed: &ObservedArg) -> (respected: bool)
    ensures
        respected == respects_occurrences(arg@, observed@),
{
    let multiple = match arg.multiple {
        Some(b) => b,
        None => false,
    };
    let repeated = match arg.multiple_occurrences {
        Some(b) => b,
        None => false,
    };
    multiple || repeated || observed.occurrences.len() <= 1
}

/// Resolves a command against what one invocation supplied.
///
/// Every rule of the command is examined, and every rule of the invoked
/// subcommand against what was supplied to it. The outcome is `Ok` where no
/// constraint is broken, and else the list of all violations, in the order
/// of the rules and, within a rule, of its constraints: one entry for each
/// constraint that is broken, however many are.
pub fn resolve(node: &CliConfig, observed: &Invocation) -> (outcome: Result<
    (),
    Vec<ConstraintViolation>,
>)
    ensures
        match outcome {
            Ok(_) => violations(node@, observed@).len() == 0,
            Err(list) => list.len() > 0 && list.deep_view() == violations(node@, observed@),
        },
        match outcome {
            Ok(_) => broken_total(node@, observed@) == 0,
            Err(list) => list.len() == broken_total(node@, observed@),
        },
{
    proof {
        lemma_resolution_is_complete(node@, observed@);
    }
    let mut out: Vec<ConstraintViolation> = Vec::new();
    assert(out.deep_view() =~= Seq::empty());
    resolve_into(node, observed, &mut out);
    assert(out.deep_view() =~= violations(node@, observed@));
    if out.len() == 0 {
        Ok(())
    } else {
        Err(out)
    }
}

} // verus!
