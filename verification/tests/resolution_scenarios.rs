use cli_schema::resolution::{
    occurs_as_allowed, resolve, uses_equals_syntax, ConstraintViolation, Invocation, ObservedArg,
};
use cli_schema::schema::{CliArg, CliConfig};

fn arg(name: &str) -> CliArg {
    CliArg::new(name.to_string())
}

fn names(list: &[&str]) -> Vec<String> {
    list.iter().map(|n| n.to_string()).collect()
}

fn command(args: Vec<CliArg>) -> CliConfig {
    CliConfig::new(None, None, None, None, Some(args))
}

fn flag(name: &str) -> ObservedArg {
    ObservedArg { name: name.to_string(), values: vec![], occurrences: vec![false] }
}

fn valued(name: &str, values: &[&str]) -> ObservedArg {
    ObservedArg { name: name.to_string(), values: names(values), occurrences: vec![false] }
}

fn invocation(args: Vec<ObservedArg>) -> Invocation {
    Invocation { args, subcommand: None }
}

fn missing(name: &str) -> ConstraintViolation {
    ConstraintViolation::MissingRequired(name.to_string())
}

#[test]
fn required_argument_absent_is_reported() {
    let mut port = arg("port");
    port.required = Some(true);
    let node = command(vec![port]);
    assert_eq!(resolve(&node, &invocation(vec![])), Err(vec![missing("port")]));
}

#[test]
fn required_argument_present_is_accepted() {
    let mut port = arg("port");
    port.required = Some(true);
    let node = command(vec![port]);
    assert_eq!(resolve(&node, &invocation(vec![valued("port", &["80"])])), Ok(()));
    assert_eq!(resolve(&node, &invocation(vec![flag("port")])), Ok(()));
}

#[test]
fn entry_without_value_or_occurrence_is_absent() {
    let mut port = arg("port");
    port.required = Some(true);
    let node = command(vec![port]);
    let empty = ObservedArg { name: "port".to_string(), values: vec![], occurrences: vec![] };
    assert_eq!(resolve(&node, &invocation(vec![empty])), Err(vec![missing("port")]));
}

#[test]
fn conflicting_flags_are_reported_once() {
    let mut verbose = arg("verbose");
    verbose.conflicts_with = Some("quiet".to_string());
    let node = command(vec![verbose, arg("quiet")]);
    assert_eq!(
        resolve(&node, &invocation(vec![flag("verbose"), flag("quiet")])),
        Err(vec![ConstraintViolation::ConflictingArguments(
            "verbose".to_string(),
            "quiet".to_string()
        )])
    );
}

#[test]
fn conflict_declared_from_both_sides_is_reported_once() {
    let mut verbose = arg("verbose");
    verbose.conflicts_with = Some("quiet".to_string());
    verbose.conflicts_with_all = Some(names(&["quiet"]));
    let mut quiet = arg("quiet");
    quiet.conflicts_with_all = Some(names(&["verbose"]));
    let node = command(vec![verbose, quiet]);
    assert_eq!(
        resolve(&node, &invocation(vec![flag("quiet"), flag("verbose")])),
        Err(vec![ConstraintViolation::ConflictingArguments(
            "verbose".to_string(),
            "quiet".to_string()
        )])
    );
}

#[test]
fn conflict_needs_both_arguments_present() {
    let mut verbose = arg("verbose");
    verbose.conflicts_with = Some("quiet".to_string());
    let node = command(vec![verbose, arg("quiet")]);
    assert_eq!(resolve(&node, &invocation(vec![flag("verbose")])), Ok(()));
    assert_eq!(resolve(&node, &invocation(vec![flag("quiet")])), Ok(()));
}

#[test]
fn value_outside_possible_values_is_reported() {
    let mut file = arg("file");
    file.possible_values = Some(names(&["a", "b"]));
    let node = command(vec![file]);
    assert_eq!(
        resolve(&node, &invocation(vec![valued("file", &["c"])])),
        Err(vec![ConstraintViolation::InvalidValue("file".to_string(), "c".to_string())])
    );
    assert_eq!(resolve(&node, &invocation(vec![valued("file", &["b"])])), Ok(()));
}

#[test]
fn each_invalid_value_is_reported_in_order() {
    let mut file = arg("file");
    file.possible_values = Some(names(&["a", "b"]));
    let node = command(vec![file]);
    assert_eq!(
        resolve(&node, &invocation(vec![valued("file", &["x", "a", "y"])])),
        Err(vec![
            ConstraintViolation::InvalidValue("file".to_string(), "x".to_string()),
            ConstraintViolation::InvalidValue("file".to_string(), "y".to_string()),
        ])
    );
}

#[test]
fn value_count_is_held_to_its_bounds() {
    let mut f = arg("f");
    f.min_values = Some(2);
    f.max_values = Some(3);
    let node = command(vec![f]);
    let out_of_range = Err(vec![ConstraintViolation::ValueCountOutOfRange("f".to_string())]);
    assert_eq!(resolve(&node, &invocation(vec![valued("f", &["x"])])), out_of_range);
    assert_eq!(resolve(&node, &invocation(vec![valued("f", &["x", "y"])])), Ok(()));
    assert_eq!(resolve(&node, &invocation(vec![valued("f", &["x", "y", "z"])])), Ok(()));
    assert_eq!(resolve(&node, &invocation(vec![valued("f", &["x", "y", "z", "w"])])), out_of_range);
}

#[test]
fn absent_bound_is_no_bound() {
    let mut at_least = arg("f");
    at_least.min_values = Some(1);
    let node = command(vec![at_least]);
    assert_eq!(resolve(&node, &invocation(vec![valued("f", &["a", "b", "c", "d", "e"])])), Ok(()));
    let mut at_most = arg("g");
    at_most.max_values = Some(1);
    let node = command(vec![at_most]);
    assert_eq!(resolve(&node, &invocation(vec![])), Ok(()));
    assert_eq!(
        resolve(&node, &invocation(vec![valued("g", &["a", "b"])])),
        Err(vec![ConstraintViolation::ValueCountOutOfRange("g".to_string())])
    );
}

#[test]
fn exact_number_of_values_overrides_the_bounds() {
    let mut f = arg("f");
    f.number_of_values = Some(2);
    f.min_values = Some(0);
    f.max_values = Some(9);
    let node = command(vec![f]);
    assert_eq!(resolve(&node, &invocation(vec![valued("f", &["x", "y"])])), Ok(()));
    assert_eq!(
        resolve(&node, &invocation(vec![valued("f", &["x", "y", "z"])])),
        Err(vec![ConstraintViolation::ValueCountOutOfRange("f".to_string())])
    );
}

#[test]
fn every_missing_required_argument_is_reported() {
    let mut first = arg("first");
    first.required = Some(true);
    let mut second = arg("second");
    second.required = Some(true);
    let node = command(vec![first, arg("other"), second]);
    assert_eq!(
        resolve(&node, &invocation(vec![])),
        Err(vec![missing("first"), missing("second")])
    );
}

#[test]
fn violations_of_one_rule_come_in_the_order_of_its_constraints() {
    let mut a = arg("a");
    a.conflicts_with = Some("b".to_string());
    a.requires = Some("c".to_string());
    a.possible_values = Some(names(&["ok"]));
    a.number_of_values = Some(2);
    let node = command(vec![a, arg("b"), arg("c")]);
    assert_eq!(
        resolve(&node, &invocation(vec![valued("a", &["bad"]), flag("b")])),
        Err(vec![
            ConstraintViolation::ConflictingArguments("a".to_string(), "b".to_string()),
            ConstraintViolation::MissingDependency("a".to_string(), "c".to_string()),
            ConstraintViolation::InvalidValue("a".to_string(), "bad".to_string()),
            ConstraintViolation::ValueCountOutOfRange("a".to_string()),
        ])
    );
}

#[test]
fn requirement_stands_while_none_of_the_listed_is_present() {
    let mut a = arg("a");
    a.required = Some(true);
    a.required_unless_present_any = Some(names(&["b", "c"]));
    let node = command(vec![a, arg("b"), arg("c")]);
    assert_eq!(resolve(&node, &invocation(vec![])), Err(vec![missing("a")]));
    assert_eq!(resolve(&node, &invocation(vec![flag("b")])), Ok(()));
    assert_eq!(resolve(&node, &invocation(vec![flag("c")])), Ok(()));
}

#[test]
fn lifting_clause_alone_requires_nothing() {
    let mut a = arg("a");
    a.required_unless_present_any = Some(names(&["b", "c"]));
    let node = command(vec![a, arg("b"), arg("c")]);
    assert_eq!(resolve(&node, &invocation(vec![])), Ok(()));
}

#[test]
fn requirement_is_lifted_by_the_one_named_argument() {
    let mut a = arg("a");
    a.required = Some(true);
    a.required_unless_present = Some("b".to_string());
    let node = command(vec![a, arg("b")]);
    assert_eq!(resolve(&node, &invocation(vec![])), Err(vec![missing("a")]));
    assert_eq!(resolve(&node, &invocation(vec![flag("b")])), Ok(()));
}

#[test]
fn requirement_is_lifted_only_by_all_of_the_listed() {
    let mut a = arg("a");
    a.required = Some(true);
    a.required_unless_present_all = Some(names(&["b", "c"]));
    let node = command(vec![a, arg("b"), arg("c")]);
    assert_eq!(resolve(&node, &invocation(vec![flag("b")])), Err(vec![missing("a")]));
    assert_eq!(resolve(&node, &invocation(vec![flag("b"), flag("c")])), Ok(()));
}

#[test]
fn condition_on_a_value_requires_the_argument() {
    let mut a = arg("a");
    a.required_if_eq = Some(names(&["b", "x"]));
    let node = command(vec![a, arg("b")]);
    assert_eq!(
        resolve(&node, &invocation(vec![valued("b", &["x"])])),
        Err(vec![missing("a")])
    );
    assert_eq!(resolve(&node, &invocation(vec![valued("b", &["y"])])), Ok(()));
    assert_eq!(resolve(&node, &invocation(vec![valued("b", &["x", "x"])])), Ok(()));
    assert_eq!(resolve(&node, &invocation(vec![])), Ok(()));
}

#[test]
fn condition_on_a_value_overrides_a_lifted_requirement() {
    let mut a = arg("a");
    a.required = Some(true);
    a.required_unless_present = Some("c".to_string());
    a.required_if_eq = Some(names(&["b", "x"]));
    let node = command(vec![a, arg("b"), arg("c")]);
    assert_eq!(resolve(&node, &invocation(vec![flag("c")])), Ok(()));
    assert_eq!(
        resolve(&node, &invocation(vec![flag("c"), valued("b", &["x"])])),
        Err(vec![missing("a")])
    );
}

#[test]
fn condition_list_with_one_entry_states_nothing() {
    let mut a = arg("a");
    a.required_if_eq = Some(names(&["b"]));
    a.requires_if = Some(names(&["b"]));
    let node = command(vec![a, arg("b")]);
    assert_eq!(resolve(&node, &invocation(vec![valued("b", &["x"])])), Ok(()));
}

#[test]
fn missing_dependency_is_reported_for_each_absent_one() {
    let mut a = arg("a");
    a.requires = Some("b".to_string());
    a.requires_all = Some(names(&["c", "d"]));
    let node = command(vec![a, arg("b"), arg("c"), arg("d")]);
    assert_eq!(
        resolve(&node, &invocation(vec![flag("a"), flag("c")])),
        Err(vec![
            ConstraintViolation::MissingDependency("a".to_string(), "b".to_string()),
            ConstraintViolation::MissingDependency("a".to_string(), "d".to_string()),
        ])
    );
    assert_eq!(resolve(&node, &invocation(vec![])), Ok(()));
}

#[test]
fn conditional_dependency_is_reported_when_its_condition_holds() {
    let mut a = arg("a");
    a.requires_if = Some(names(&["mode", "fast"]));
    let node = command(vec![a, arg("mode")]);
    assert_eq!(
        resolve(&node, &invocation(vec![valued("mode", &["fast"])])),
        Err(vec![ConstraintViolation::MissingConditionalDependency(
            "a".to_string(),
            "mode".to_string()
        )])
    );
    assert_eq!(resolve(&node, &invocation(vec![valued("mode", &["fast"]), flag("a")])), Ok(()));
    assert_eq!(resolve(&node, &invocation(vec![valued("mode", &["slow"])])), Ok(()));
}

#[test]
fn first_entry_of_a_name_counts() {
    let mut file = arg("file");
    file.possible_values = Some(names(&["a"]));
    let node = command(vec![file]);
    assert_eq!(
        resolve(&node, &invocation(vec![valued("file", &["a"]), valued("file", &["z"])])),
        Ok(())
    );
}

#[test]
fn undeclared_observed_argument_is_passed_over() {
    let node = command(vec![arg("a")]);
    assert_eq!(resolve(&node, &invocation(vec![valued("zzz", &["1"])])), Ok(()));
}

#[test]
fn command_without_arguments_has_no_violation() {
    let node = CliConfig::new(None, None, None, None, None);
    assert_eq!(resolve(&node, &invocation(vec![flag("a")])), Ok(()));
}

#[test]
fn invoked_subcommand_is_resolved_with_its_own_arguments() {
    let mut target = arg("target");
    target.required = Some(true);
    let mut level = arg("level");
    level.required = Some(true);
    let node = command(vec![level]).with_subcommand("build".to_string(), command(vec![target]));
    let inner = invocation(vec![]);
    let observed = Invocation {
        args: vec![],
        subcommand: Some(("build".to_string(), Box::new(inner))),
    };
    assert_eq!(resolve(&node, &observed), Err(vec![missing("level"), missing("target")]));
    let inner = invocation(vec![valued("target", &["x"])]);
    let observed = Invocation {
        args: vec![flag("level")],
        subcommand: Some(("build".to_string(), Box::new(inner))),
    };
    assert_eq!(resolve(&node, &observed), Ok(()));
}

#[test]
fn subcommand_that_was_not_invoked_is_not_resolved() {
    let mut target = arg("target");
    target.required = Some(true);
    let node = command(vec![]).with_subcommand("build".to_string(), command(vec![target]));
    assert_eq!(resolve(&node, &invocation(vec![])), Ok(()));
    let observed = Invocation {
        args: vec![],
        subcommand: Some(("test".to_string(), Box::new(invocation(vec![])))),
    };
    assert_eq!(resolve(&node, &observed), Ok(()));
}

#[test]
fn parent_arguments_are_scoped_to_the_parent() {
    let mut target = arg("target");
    target.required = Some(true);
    let node = command(vec![]).with_subcommand("build".to_string(), command(vec![target]));
    let observed = Invocation {
        args: vec![valued("target", &["x"])],
        subcommand: Some(("build".to_string(), Box::new(invocation(vec![])))),
    };
    assert_eq!(resolve(&node, &observed), Err(vec![missing("target")]));
}

#[test]
fn resolving_twice_gives_the_same_outcome() {
    let mut a = arg("a");
    a.required = Some(true);
    a.conflicts_with = Some("b".to_string());
    let node = command(vec![a, arg("b")]);
    let observed = invocation(vec![flag("b")]);
    assert_eq!(resolve(&node, &observed), resolve(&node, &observed));
}

#[test]
fn equals_syntax_is_read_from_the_recorded_occurrences() {
    let mut opt = arg("opt");
    opt.takes_value = Some(true);
    opt.require_equals = Some(true);
    let with_equals =
        ObservedArg { name: "opt".to_string(), values: names(&["1"]), occurrences: vec![true] };
    let mixed = ObservedArg {
        name: "opt".to_string(),
        values: names(&["1", "2"]),
        occurrences: vec![true, false],
    };
    assert!(uses_equals_syntax(&opt, &with_equals));
    assert!(!uses_equals_syntax(&opt, &mixed));
    opt.require_equals = None;
    assert!(uses_equals_syntax(&opt, &mixed));
    opt.require_equals = Some(true);
    opt.takes_value = None;
    assert!(uses_equals_syntax(&opt, &mixed));
}

#[test]
fn repeated_occurrence_needs_a_rule_that_allows_it() {
    let mut opt = arg("opt");
    let once = flag("opt");
    let twice =
        ObservedArg { name: "opt".to_string(), values: vec![], occurrences: vec![false, false] };
    assert!(occurs_as_allowed(&opt, &once));
    assert!(!occurs_as_allowed(&opt, &twice));
    opt.multiple_occurrences = Some(true);
    assert!(occurs_as_allowed(&opt, &twice));
    opt.multiple_occurrences = Some(false);
    opt.multiple = Some(true);
    assert!(occurs_as_allowed(&opt, &twice));
}
