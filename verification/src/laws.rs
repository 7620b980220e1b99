//! What holds of every resolution: nothing that is broken goes unreported,
//! nothing is reported twice, and requiredness follows its clauses in their
//! fixed order.

use crate::resolution::{
    any_present, broken_constraints, broken_total, broken_upto, condition_holds, condition_name,
    conflicts, count_in_range, declared_before, entry_if, invalid_values, is_present,
    missing_conditional, missing_dependencies, missing_required, node_violations, one_if,
    reports_conflict, reports_dependency, reports_value, requirement_lifted, rule_violations,
    same_pair, values_of, violations, violations_upto, Observation, Observed, Violation,
};
use crate::schema::{ArgumentRule, CommandNode};
use crate::scan::{lemma_gather_contains, lemma_gather_len};
use crate::validation::has_repeated_name;
use vstd::prelude::*;

verus! {

/// An entry of a concatenation is an entry of one of its parts.
proof fn lemma_add_contains<T>(s: Seq<T>, t: Seq<T>, entry: T)
    ensures
        (s + t).contains(entry) <==> s.contains(entry) || t.contains(entry),
{
    if (s + t).contains(entry) {
        let k = choose|k: int| 0 <= k < (s + t).len() && (s + t)[k] == entry;
        if k < s.len() {
            assert(s[k] == entry);
        } else {
            assert(t[k - s.len()] == entry);
        }
    }
    if s.contains(entry) {
        let k = choose|k: int| 0 <= k < s.len() && s[k] == entry;
        assert((s + t)[k] == entry);
    }
    if t.contains(entry) {
        let k = choose|k: int| 0 <= k < t.len() && t[k] == entry;
        assert((s + t)[k + s.len()] == entry);
    }
}

/// The one possible entry of `entry_if` is its only entry.
proof fn lemma_entry_if_contains(reported: bool, made: Violation, entry: Violation)
    ensures
        entry_if(reported, made).contains(entry) <==> reported && made == entry,
{
    if reported {
        assert(entry_if(reported, made)[0] == made);
    }
}

/// A violation is reported for a node exactly when it is one of the
/// violations of one of the first `n` rules.
pub proof fn lemma_violations_upto_contains(
    rules: Seq<ArgumentRule>,
    observed: Map<Seq<char>, Observation>,
    n: int,
    entry: Violation,
)
    ensures
        violations_upto(rules, observed, n).contains(entry) <==> exists|at: int|
            0 <= at < n && (#[trigger] rule_violations(rules, observed, at)).contains(entry),
    decreases n,
{
    if n > 0 {
        lemma_violations_upto_contains(rules, observed, n - 1, entry);
        lemma_add_contains(
            violations_upto(rules, observed, n - 1),
            rule_violations(rules, observed, n - 1),
            entry,
        );
        if violations_upto(rules, observed, n).contains(entry) {
            if !violations_upto(rules, observed, n - 1).contains(entry) {
                assert(rule_violations(rules, observed, n - 1).contains(entry));
            }
        }
    } else {
        assert(!violations_upto(rules, observed, n).contains(entry));
    }
}

/// What is reported for the invoked command is part of the outcome, whatever
/// subcommand was invoked.
pub proof fn lemma_node_violations_are_reported(
    node: CommandNode,
    observed: Observed,
    entry: Violation,
)
    requires
        node_violations(node.args, observed.args).contains(entry),
    ensures
        violations(node, observed).contains(entry),
{
    let rest = match observed.subcommand {
        Some((name, inner)) => match node.subcommand(name) {
            Some(child) => violations(child, *inner),
            None => Seq::empty(),
        },
        None => Seq::empty(),
    };
    lemma_add_contains(node_violations(node.args, observed.args), rest, entry);
}

/// A rule reports `MissingRequired` of a name exactly when the name is its
/// own and the argument is required and absent.
pub proof fn lemma_rule_reports_missing_required(
    rules: Seq<ArgumentRule>,
    observed: Map<Seq<char>, Observation>,
    at: int,
    name: Seq<char>,
)
    ensures
        rule_violations(rules, observed, at).contains(Violation::MissingRequired(name)) <==> (
        rules[at].name == name && missing_required(rules[at], observed)),
{
    let rule = rules[at];
    let entry = Violation::MissingRequired(name);
    let a = entry_if(missing_required(rule, observed), Violation::MissingRequired(rule.name));
    let b = conflicts(rules, observed, at, rule.conflict_targets().len() as int);
    let c = missing_dependencies(rule, observed, rule.dependencies().len() as int);
    let d = entry_if(
        missing_conditional(rule, observed),
        Violation::MissingConditionalDependency(
            rule.name,
            condition_name(rule.requires_if),
        ),
    );
    let e = invalid_values(rule, observed, values_of(observed, rule.name).len() as int);
    let f = entry_if(
        !count_in_range(rule, values_of(observed, rule.name).len()),
        Violation::ValueCountOutOfRange(rule.name),
    );
    lemma_add_contains(a, b, entry);
    lemma_add_contains(a + b, c, entry);
    lemma_add_contains(a + b + c, d, entry);
    lemma_add_contains(a + b + c + d, e, entry);
    lemma_add_contains(a + b + c + d + e, f, entry);
    lemma_entry_if_contains(
        missing_required(rule, observed),
        Violation::MissingRequired(rule.name),
        entry,
    );
    lemma_entry_if_contains(
        missing_conditional(rule, observed),
        Violation::MissingConditionalDependency(
            rule.name,
            condition_name(rule.requires_if),
        ),
        entry,
    );
    lemma_entry_if_contains(
        !count_in_range(rule, values_of(observed, rule.name).len()),
        Violation::ValueCountOutOfRange(rule.name),
        entry,
    );
    lemma_gather_contains(
        rule.conflict_targets().len() as int,
        |k: int| reports_conflict(rules, observed, at, k),
        |k: int| Violation::ConflictingArguments(rules[at].name, rules[at].conflict_targets()[k]),
        entry,
    );
    lemma_gather_contains(
        rule.dependencies().len() as int,
        |k: int| reports_dependency(rule, observed, k),
        |k: int| Violation::MissingDependency(rule.name, rule.dependencies()[k]),
        entry,
    );
    lemma_gather_contains(
        values_of(observed, rule.name).len() as int,
        |k: int| reports_value(rule, observed, k),
        |k: int| Violation::InvalidValue(rule.name, values_of(observed, rule.name)[k]),
        entry,
    );
}

/// Completeness, for required arguments: every argument that is required and
/// absent is reported, whatever else is reported.
pub proof fn lemma_missing_required_is_reported(
    rules: Seq<ArgumentRule>,
    observed: Map<Seq<char>, Observation>,
    at: int,
)
    requires
        0 <= at < rules.len(),
        missing_required(rules[at], observed),
    ensures
        node_violations(rules, observed).contains(Violation::MissingRequired(rules[at].name)),
{
    let entry = Violation::MissingRequired(rules[at].name);
    lemma_rule_reports_missing_required(rules, observed, at, rules[at].name);
    lemma_violations_upto_contains(rules, observed, rules.len() as int, entry);
    assert(rule_violations(rules, observed, at).contains(entry));
}

/// `MissingRequired` is reported of a name only where a rule of that name is
/// required and absent.
pub proof fn lemma_missing_required_is_founded(
    rules: Seq<ArgumentRule>,
    observed: Map<Seq<char>, Observation>,
    name: Seq<char>,
)
    requires
        node_violations(rules, observed).contains(Violation::MissingRequired(name)),
    ensures
        exists|at: int|
            0 <= at < rules.len() && (#[trigger] rules[at]).name == name && missing_required(
                rules[at],
                observed,
            ),
{
    let entry = Violation::MissingRequired(name);
    lemma_violations_upto_contains(rules, observed, rules.len() as int, entry);
    let at = choose|at: int|
        0 <= at < rules.len() && (#[trigger] rule_violations(rules, observed, at)).contains(entry);
    lemma_rule_reports_missing_required(rules, observed, at, name);
    assert(rules[at].name == name && missing_required(rules[at], observed));
}

/// Conditional clearing, the requirement standing: an argument that is
/// declared required, and whose one lifting clause lists arguments of which
/// none is present, is reported when it is absent.
pub proof fn lemma_unless_any_stands(
    rules: Seq<ArgumentRule>,
    observed: Map<Seq<char>, Observation>,
    at: int,
)
    requires
        0 <= at < rules.len(),
        rules[at].required,
        rules[at].required_unless_present is None,
        rules[at].required_unless_present_all is None,
        rules[at].required_unless_present_any is Some,
        !any_present(observed, rules[at].required_unless_present_any->0),
        !is_present(observed, rules[at].name),
    ensures
        node_violations(rules, observed).contains(Violation::MissingRequired(rules[at].name)),
{
    lemma_missing_required_is_reported(rules, observed, at);
}

/// Conditional clearing, the requirement lifted: where one of the arguments
/// that the clause lists is present, and no condition on another argument's
/// value requires the argument, it is not reported as missing.
pub proof fn lemma_unless_any_lifts(
    rules: Seq<ArgumentRule>,
    observed: Map<Seq<char>, Observation>,
    at: int,
)
    requires
        0 <= at < rules.len(),
        !has_repeated_name(rules),
        rules[at].required_unless_present_any is Some,
        any_present(observed, rules[at].required_unless_present_any->0),
        !condition_holds(observed, rules[at].required_if_eq),
    ensures
        !node_violations(rules, observed).contains(Violation::MissingRequired(rules[at].name)),
{
    if node_violations(rules, observed).contains(Violation::MissingRequired(rules[at].name)) {
        lemma_missing_required_is_founded(rules, observed, rules[at].name);
        let other = choose|other: int|
            0 <= other < rules.len() && (#[trigger] rules[other]).name == rules[at].name
                && missing_required(rules[other], observed);
        if other < at {
            assert(rules[other].name == rules[at].name);
        } else if at < other {
            assert(rules[at].name == rules[other].name);
        }
        assert(requirement_lifted(rules[at], observed));
    }
}

/// Conditional override: an argument whose condition on another argument's
/// value holds is reported when it is absent, whether or not it is declared
/// required and whatever lifts its requirement.
pub proof fn lemma_condition_requires(
    rules: Seq<ArgumentRule>,
    observed: Map<Seq<char>, Observation>,
    at: int,
)
    requires
        0 <= at < rules.len(),
        condition_holds(observed, rules[at].required_if_eq),
        !is_present(observed, rules[at].name),
    ensures
        node_violations(rules, observed).contains(Violation::MissingRequired(rules[at].name)),
{
    lemma_missing_required_is_reported(rules, observed, at);
}

/// A rule has one violation for each constraint that is broken of it.
pub proof fn lemma_rule_violations_len(
    rules: Seq<ArgumentRule>,
    observed: Map<Seq<char>, Observation>,
    at: int,
)
    ensures
        rule_violations(rules, observed, at).len() == broken_constraints(rules, observed, at),
{
    let rule = rules[at];
    lemma_gather_len(
        rule.conflict_targets().len() as int,
        |k: int| reports_conflict(rules, observed, at, k),
        |k: int| Violation::ConflictingArguments(rules[at].name, rules[at].conflict_targets()[k]),
    );
    lemma_gather_len(
        rule.dependencies().len() as int,
        |k: int| reports_dependency(rule, observed, k),
        |k: int| Violation::MissingDependency(rule.name, rule.dependencies()[k]),
    );
    lemma_gather_len(
        values_of(observed, rule.name).len() as int,
        |k: int| reports_value(rule, observed, k),
        |k: int| Violation::InvalidValue(rule.name, values_of(observed, rule.name)[k]),
    );
}

/// The first `n` rules have one violation for each constraint that is broken
/// of them.
pub proof fn lemma_violations_upto_len(
    rules: Seq<ArgumentRule>,
    observed: Map<Seq<char>, Observation>,
    n: int,
)
    ensures
        violations_upto(rules, observed, n).len() == broken_upto(rules, observed, n),
    decreases n,
{
    if n > 0 {
        lemma_violations_upto_len(rules, observed, n - 1);
        lemma_rule_violations_len(rules, observed, n - 1);
    }
}

/// Completeness: the outcome of a resolution has exactly one entry for each
/// constraint that the invocation breaks, of whatever rule and however many
/// others are broken.
pub proof fn lemma_resolution_is_complete(node: CommandNode, observed: Observed)
    ensures
        violations(node, observed).len() == broken_total(node, observed),
    decreases observed,
{
    lemma_violations_upto_len(node.args, observed.args, node.args.len() as int);
    match observed.subcommand {
        Some((name, inner)) => match node.subcommand(name) {
            Some(child) => {
                lemma_resolution_is_complete(child, *inner);
            },
            None => {},
        },
        None => {},
    }
}

/// The violation is a conflict between the two names, in either order.
pub open spec fn is_conflict_between(entry: Violation, a: Seq<char>, b: Seq<char>) -> bool {
    entry == Violation::ConflictingArguments(a, b) || entry == Violation::ConflictingArguments(
        b,
        a,
    )
}

/// The number of entries of `list` that are a conflict between the two
/// names.
pub open spec fn conflicts_between(list: Seq<Violation>, a: Seq<char>, b: Seq<char>) -> nat
    decreases list.len(),
{
    if list.len() == 0 {
        0
    } else {
        conflicts_between(list.drop_last(), a, b) + one_if(
            is_conflict_between(list.last(), a, b),
        )
    }
}

/// One of the first `n` conflict targets of the rule at `at` makes, with the
/// rule's name, the two names.
pub open spec fn declared_within(
    rules: Seq<ArgumentRule>,
    at: int,
    n: int,
    a: Seq<char>,
    b: Seq<char>,
) -> bool {
    exists|m: int|
        0 <= m < n && same_pair(rules[at].name, #[trigger] rules[at].conflict_targets()[m], a, b)
}

/// One of the first `n` rules declares a conflict between the two names.
pub open spec fn declared_among(rules: Seq<ArgumentRule>, n: int, a: Seq<char>, b: Seq<char>) -> bool {
    exists|j: int|
        0 <= j < n && #[trigger] declared_within(
            rules,
            j,
            rules[j].conflict_targets().len() as int,
            a,
            b,
        )
}

/// The count of a list with one more entry.
proof fn lemma_conflicts_between_push(list: Seq<Violation>, entry: Violation, a: Seq<char>, b: Seq<char>)
    ensures
        conflicts_between(list.push(entry), a, b) == conflicts_between(list, a, b) + one_if(
            is_conflict_between(entry, a, b),
        ),
{
    assert(list.push(entry).drop_last() =~= list);
}

/// The count of a concatenation is the sum of the counts of its parts.
proof fn lemma_conflicts_between_add(s: Seq<Violation>, t: Seq<Violation>, a: Seq<char>, b: Seq<char>)
    ensures
        conflicts_between(s + t, a, b) == conflicts_between(s, a, b) + conflicts_between(t, a, b),
    decreases t.len(),
{
    if t.len() == 0 {
        assert(s + t =~= s);
    } else {
        lemma_conflicts_between_add(s, t.drop_last(), a, b);
        assert((s + t).drop_last() =~= s + t.drop_last());
    }
}

/// A list without conflicts has none between the two names.
proof fn lemma_conflicts_between_none(list: Seq<Violation>, a: Seq<char>, b: Seq<char>)
    requires
        forall|i: int| 0 <= i < list.len() ==> !((#[trigger] list[i]) is ConflictingArguments),
    ensures
        conflicts_between(list, a, b) == 0,
    decreases list.len(),
{
    if list.len() > 0 {
        assert(!(list[list.len() - 1] is ConflictingArguments));
        lemma_conflicts_between_none(list.drop_last(), a, b);
    }
}

/// The conflicts reported for the first `n` targets of a rule hold one
/// between the two names where the rule is the first to declare it, and else
/// none.
proof fn lemma_conflicts_between_targets(
    rules: Seq<ArgumentRule>,
    observed: Map<Seq<char>, Observation>,
    at: int,
    n: int,
    a: Seq<char>,
    b: Seq<char>,
)
    requires
        0 <= at < rules.len(),
        0 <= n <= rules[at].conflict_targets().len(),
        is_present(observed, a),
        is_present(observed, b),
    ensures
        conflicts_between(conflicts(rules, observed, at, n), a, b) == one_if(
            !declared_among(rules, at, a, b) && declared_within(rules, at, n, a, b),
        ),
    decreases n,
{
    let keep = |k: int| reports_conflict(rules, observed, at, k);
    let make = |k: int|
        Violation::ConflictingArguments(rules[at].name, rules[at].conflict_targets()[k]);
    if n > 0 {
        lemma_conflicts_between_targets(rules, observed, at, n - 1, a, b);
        let before = conflicts(rules, observed, at, n - 1);
        let target = rules[at].conflict_targets()[n - 1];
        let names = same_pair(rules[at].name, target, a, b);
        assert(is_conflict_between(make(n - 1), a, b) <==> names);
        if keep(n - 1) {
            lemma_conflicts_between_push(before, make(n - 1), a, b);
            assert(conflicts(rules, observed, at, n) == before.push(make(n - 1)));
        } else {
            assert(conflicts(rules, observed, at, n) == before);
        }
        if names {
            if declared_among(rules, at, a, b) {
                let j = choose|j: int|
                    0 <= j < at && #[trigger] declared_within(
                        rules,
                        j,
                        rules[j].conflict_targets().len() as int,
                        a,
                        b,
                    );
                let m = choose|m: int|
                    0 <= m < rules[j].conflict_targets().len() && same_pair(
                        rules[j].name,
                        #[trigger] rules[j].conflict_targets()[m],
                        a,
                        b,
                    );
                assert(same_pair(
                    rules[j].name,
                    rules[j].conflict_targets()[m],
                    rules[at].name,
                    target,
                ));
                assert(declared_before(rules, at, n - 1));
            }
            if declared_within(rules, at, n - 1, a, b) {
                let m = choose|m: int|
                    0 <= m < n - 1 && same_pair(
                        rules[at].name,
                        #[trigger] rules[at].conflict_targets()[m],
                        a,
                        b,
                    );
                assert(same_pair(
                    rules[at].name,
                    rules[at].conflict_targets()[m],
                    rules[at].name,
                    target,
                ));
                assert(declared_before(rules, at, n - 1));
            }
            if declared_before(rules, at, n - 1) {
                let (j, m) = choose|j: int, m: int|
                    0 <= j <= at && 0 <= m < rules[j].conflict_targets().len() && (j < at || m < n
                        - 1) && same_pair(
                        rules[j].name,
                        #[trigger] rules[j].conflict_targets()[m],
                        rules[at].name,
                        target,
                    );
                assert(same_pair(rules[j].name, rules[j].conflict_targets()[m], a, b));
                if j < at {
                    assert(declared_within(
                        rules,
                        j,
                        rules[j].conflict_targets().len() as int,
                        a,
                        b,
                    ));
                    assert(declared_among(rules, at, a, b));
                } else {
                    assert(declared_within(rules, at, n - 1, a, b));
                }
            }
            assert(same_pair(rules[at].name, rules[at].conflict_targets()[n - 1], a, b));
            assert(declared_within(rules, at, n, a, b));
        } else {
            if declared_within(rules, at, n, a, b) {
                let m = choose|m: int|
                    0 <= m < n && same_pair(
                        rules[at].name,
                        #[trigger] rules[at].conflict_targets()[m],
                        a,
                        b,
                    );
                assert(m < n - 1);
                assert(declared_within(rules, at, n - 1, a, b));
            }
            if declared_within(rules, at, n - 1, a, b) {
                let m = choose|m: int|
                    0 <= m < n - 1 && same_pair(
                        rules[at].name,
                        #[trigger] rules[at].conflict_targets()[m],
                        a,
                        b,
                    );
                assert(declared_within(rules, at, n, a, b));
            }
        }
    } else {
        assert(conflicts(rules, observed, at, n) =~= Seq::empty());
    }
}

/// The violations of a rule hold one conflict between the two names where
/// the rule is the first to declare it, and else none.
proof fn lemma_conflicts_between_rule(
    rules: Seq<ArgumentRule>,
    observed: Map<Seq<char>, Observation>,
    at: int,
    a: Seq<char>,
    b: Seq<char>,
)
    requires
        0 <= at < rules.len(),
        is_present(observed, a),
        is_present(observed, b),
    ensures
        conflicts_between(rule_violations(rules, observed, at), a, b) == one_if(
            !declared_among(rules, at, a, b) && declared_within(
                rules,
                at,
                rules[at].conflict_targets().len() as int,
                a,
                b,
            ),
        ),
{
    let rule = rules[at];
    let required = entry_if(missing_required(rule, observed), Violation::MissingRequired(rule.name));
    let conflicting = conflicts(rules, observed, at, rule.conflict_targets().len() as int);
    let dependent = missing_dependencies(rule, observed, rule.dependencies().len() as int);
    let conditional = entry_if(
        missing_conditional(rule, observed),
        Violation::MissingConditionalDependency(rule.name, condition_name(rule.requires_if)),
    );
    let invalid = invalid_values(rule, observed, values_of(observed, rule.name).len() as int);
    let counted = entry_if(
        !count_in_range(rule, values_of(observed, rule.name).len()),
        Violation::ValueCountOutOfRange(rule.name),
    );
    lemma_conflicts_between_add(required, conflicting, a, b);
    lemma_conflicts_between_add(required + conflicting, dependent, a, b);
    lemma_conflicts_between_add(required + conflicting + dependent, conditional, a, b);
    lemma_conflicts_between_add(required + conflicting + dependent + conditional, invalid, a, b);
    lemma_conflicts_between_add(required + conflicting + dependent + conditional + invalid, counted, a, b);
    lemma_conflicts_between_none(required, a, b);
    lemma_conflicts_between_none(conditional, a, b);
    lemma_conflicts_between_none(counted, a, b);
    assert forall|i: int| 0 <= i < dependent.len() implies !((#[trigger] dependent[i]) is ConflictingArguments) by {
        lemma_gather_contains(
            rule.dependencies().len() as int,
            |k: int| reports_dependency(rule, observed, k),
            |k: int| Violation::MissingDependency(rule.name, rule.dependencies()[k]),
            dependent[i],
        );
        assert(dependent.contains(dependent[i]));
    }
    lemma_conflicts_between_none(dependent, a, b);
    assert forall|i: int| 0 <= i < invalid.len() implies !((#[trigger] invalid[i]) is ConflictingArguments) by {
        lemma_gather_contains(
            values_of(observed, rule.name).len() as int,
            |k: int| reports_value(rule, observed, k),
            |k: int| Violation::InvalidValue(rule.name, values_of(observed, rule.name)[k]),
            invalid[i],
        );
        assert(invalid.contains(invalid[i]));
    }
    lemma_conflicts_between_none(invalid, a, b);
    lemma_conflicts_between_targets(
        rules,
        observed,
        at,
        rule.conflict_targets().len() as int,
        a,
        b,
    );
}

/// The violations of the first `n` rules hold one conflict between the two
/// names where one of these rules declares it, and else none.
proof fn lemma_conflicts_between_upto(
    rules: Seq<ArgumentRule>,
    observed: Map<Seq<char>, Observation>,
    n: int,
    a: Seq<char>,
    b: Seq<char>,
)
    requires
        0 <= n <= rules.len(),
        is_present(observed, a),
        is_present(observed, b),
    ensures
        conflicts_between(violations_upto(rules, observed, n), a, b) == one_if(
            declared_among(rules, n, a, b),
        ),
    decreases n,
{
    if n > 0 {
        lemma_conflicts_between_upto(rules, observed, n - 1, a, b);
        lemma_conflicts_between_rule(rules, observed, n - 1, a, b);
        lemma_conflicts_between_add(
            violations_upto(rules, observed, n - 1),
            rule_violations(rules, observed, n - 1),
            a,
            b,
        );
        let last = declared_within(
            rules,
            n - 1,
            rules[n - 1].conflict_targets().len() as int,
            a,
            b,
        );
        if declared_among(rules, n, a, b) {
            let j = choose|j: int|
                0 <= j < n && #[trigger] declared_within(
                    rules,
                    j,
                    rules[j].conflict_targets().len() as int,
                    a,
                    b,
                );
            if j < n - 1 {
                assert(declared_among(rules, n - 1, a, b));
            }
        }
        if declared_among(rules, n - 1, a, b) {
            let j = choose|j: int|
                0 <= j < n - 1 && #[trigger] declared_within(
                    rules,
                    j,
                    rules[j].conflict_targets().len() as int,
                    a,
                    b,
                );
            assert(declared_among(rules, n, a, b));
        }
        if last {
            assert(declared_among(rules, n, a, b));
        }
    }
}

/// Conflict symmetry: a conflict that a rule declares between two arguments
/// that are both present is reported exactly once, whether one of the two
/// declares it, or both, or one of them more than once.
pub proof fn lemma_conflict_is_reported_once(
    rules: Seq<ArgumentRule>,
    observed: Map<Seq<char>, Observation>,
    at: int,
    k: int,
)
    requires
        0 <= at < rules.len(),
        0 <= k < rules[at].conflict_targets().len(),
        is_present(observed, rules[at].name),
        is_present(observed, rules[at].conflict_targets()[k]),
    ensures
        conflicts_between(
            node_violations(rules, observed),
            rules[at].name,
            rules[at].conflict_targets()[k],
        ) == 1,
{
    let a = rules[at].name;
    let b = rules[at].conflict_targets()[k];
    lemma_conflicts_between_upto(rules, observed, rules.len() as int, a, b);
    assert(same_pair(rules[at].name, rules[at].conflict_targets()[k], a, b));
    assert(declared_within(rules, at, rules[at].conflict_targets().len() as int, a, b));
    assert(declared_among(rules, rules.len() as int, a, b));
}

} // verus!
