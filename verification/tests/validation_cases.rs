use cli_schema::schema::{CliArg, CliConfig};
use cli_schema::validation::{validate, SchemaError};

fn arg(name: &str) -> CliArg {
    CliArg::new(name.to_string())
}

fn names(list: &[&str]) -> Vec<String> {
    list.iter().map(|n| n.to_string()).collect()
}

fn command(args: Vec<CliArg>) -> CliConfig {
    CliConfig::new(None, None, None, None, Some(args))
}

#[test]
fn tree_without_defect_is_valid() {
    let mut input = arg("input");
    input.short = Some('i');
    input.index = Some(1);
    input.requires = Some("output".to_string());
    let mut output = arg("output");
    output.short = Some('o');
    output.index = Some(2);
    output.multiple = Some(true);
    output.min_values = Some(1);
    output.max_values = Some(1);
    let node = command(vec![input, output]).with_subcommand("sub".to_string(), command(vec![]));
    assert_eq!(validate(&node), Ok(()));
}

#[test]
fn command_without_arguments_is_valid() {
    assert_eq!(validate(&CliConfig::new(None, None, None, None, None)), Ok(()));
}

#[test]
fn repeated_name_is_rejected() {
    let node = command(vec![arg("a"), arg("b"), arg("a")]);
    assert_eq!(validate(&node), Err(SchemaError::DuplicateName("a".to_string())));
}

#[test]
fn repeated_name_comes_before_any_other_defect() {
    let mut first = arg("first");
    first.min_values = Some(3);
    first.max_values = Some(1);
    first.index = Some(1);
    let mut second = arg("a");
    second.index = Some(1);
    second.conflicts_with = Some("nobody".to_string());
    let node = command(vec![first, second, arg("a")]);
    assert_eq!(validate(&node), Err(SchemaError::DuplicateName("a".to_string())));
}

#[test]
fn repeated_short_is_rejected() {
    let mut a = arg("a");
    a.short = Some('x');
    let mut b = arg("b");
    b.short = Some('x');
    let node = command(vec![a, b]);
    assert_eq!(validate(&node), Err(SchemaError::DuplicateShort("b".to_string(), 'x')));
}

#[test]
fn dash_is_no_short() {
    let mut a = arg("a");
    a.short = Some('-');
    let mut b = arg("b");
    b.short = Some('-');
    assert_eq!(a.resolved_short(), None);
    assert_eq!(validate(&command(vec![a, b])), Ok(()));
}

#[test]
fn repeated_index_is_rejected() {
    let mut a = arg("a");
    a.index = Some(1);
    let mut b = arg("b");
    b.index = Some(2);
    let mut c = arg("c");
    c.index = Some(1);
    let node = command(vec![a, b, c]);
    assert_eq!(validate(&node), Err(SchemaError::DuplicateIndex("c".to_string(), 1)));
}

#[test]
fn repeated_short_comes_before_repeated_index() {
    let mut a = arg("a");
    a.index = Some(1);
    a.short = Some('s');
    let mut b = arg("b");
    b.index = Some(1);
    let mut c = arg("c");
    c.short = Some('s');
    let node = command(vec![a, b, c]);
    assert_eq!(validate(&node), Err(SchemaError::DuplicateShort("c".to_string(), 's')));
}

#[test]
fn multiple_below_the_highest_index_is_rejected() {
    let mut a = arg("a");
    a.index = Some(1);
    a.multiple = Some(true);
    let mut b = arg("b");
    b.index = Some(2);
    let node = command(vec![a, b]);
    assert_eq!(validate(&node), Err(SchemaError::InvalidMultiplePosition("a".to_string())));
}

#[test]
fn multiple_at_the_highest_index_is_accepted() {
    let mut a = arg("a");
    a.index = Some(1);
    let mut b = arg("b");
    b.index = Some(2);
    b.multiple = Some(true);
    let mut named = arg("named");
    named.multiple = Some(true);
    assert_eq!(validate(&command(vec![a, b, named])), Ok(()));
}

#[test]
fn reference_to_no_argument_is_rejected() {
    let mut a = arg("a");
    a.conflicts_with = Some("b".to_string());
    a.requires_all = Some(names(&["b", "ghost"]));
    let node = command(vec![a, arg("b")]);
    assert_eq!(
        validate(&node),
        Err(SchemaError::DanglingReference("a".to_string(), "ghost".to_string()))
    );
}

#[test]
fn every_kind_of_reference_is_followed() {
    let fields: Vec<fn(&mut CliArg)> = vec![
        |a| a.conflicts_with = Some("ghost".to_string()),
        |a| a.conflicts_with_all = Some(vec!["b".to_string(), "ghost".to_string()]),
        |a| a.requires = Some("ghost".to_string()),
        |a| a.requires_all = Some(vec!["ghost".to_string()]),
        |a| a.required_unless_present = Some("ghost".to_string()),
        |a| a.required_unless_present_all = Some(vec!["ghost".to_string()]),
        |a| a.required_unless_present_any = Some(vec!["ghost".to_string()]),
        |a| a.requires_if = Some(vec!["ghost".to_string(), "v".to_string()]),
        |a| a.required_if_eq = Some(vec!["ghost".to_string(), "v".to_string()]),
    ];
    for set in fields {
        let mut a = arg("a");
        set(&mut a);
        let node = command(vec![a, arg("b")]);
        assert_eq!(
            validate(&node),
            Err(SchemaError::DanglingReference("a".to_string(), "ghost".to_string()))
        );
    }
}

#[test]
fn reference_to_the_argument_itself_is_rejected() {
    let mut a = arg("a");
    a.conflicts_with = Some("a".to_string());
    let node = command(vec![a, arg("b")]);
    assert_eq!(
        validate(&node),
        Err(SchemaError::DanglingReference("a".to_string(), "a".to_string()))
    );
}

#[test]
fn value_of_a_condition_is_no_reference() {
    let mut a = arg("a");
    a.requires_if = Some(names(&["b", "ghost"]));
    a.required_if_eq = Some(names(&["b", "ghost"]));
    assert_eq!(validate(&command(vec![a, arg("b")])), Ok(()));
}

#[test]
fn inverted_value_bounds_are_rejected() {
    let mut a = arg("a");
    a.min_values = Some(3);
    a.max_values = Some(2);
    assert_eq!(validate(&command(vec![a])), Err(SchemaError::InvalidValueBounds("a".to_string())));
}

#[test]
fn equal_value_bounds_are_accepted() {
    let mut a = arg("a");
    a.min_values = Some(2);
    a.max_values = Some(2);
    let mut b = arg("b");
    b.min_values = Some(5);
    assert_eq!(validate(&command(vec![a, b])), Ok(()));
}

#[test]
fn defect_of_a_subcommand_is_found() {
    let deep = command(vec![arg("x"), arg("x")]);
    let middle = command(vec![arg("m")]).with_subcommand("deep".to_string(), deep);
    let node = command(vec![arg("a")])
        .with_subcommand("first".to_string(), command(vec![arg("x")]))
        .with_subcommand("middle".to_string(), middle);
    assert_eq!(validate(&node), Err(SchemaError::DuplicateName("x".to_string())));
}

#[test]
fn defect_of_the_node_comes_before_that_of_a_subcommand() {
    let mut bounds = arg("bounds");
    bounds.min_values = Some(2);
    bounds.max_values = Some(1);
    let node = command(vec![bounds])
        .with_subcommand("sub".to_string(), command(vec![arg("x"), arg("x")]));
    assert_eq!(validate(&node), Err(SchemaError::InvalidValueBounds("bounds".to_string())));
}

#[test]
fn first_subcommand_with_a_defect_is_reported() {
    let mut bounds = arg("bounds");
    bounds.min_values = Some(2);
    bounds.max_values = Some(1);
    let node = command(vec![])
        .with_subcommand("one".to_string(), command(vec![arg("x"), arg("x")]))
        .with_subcommand("two".to_string(), command(vec![bounds]));
    assert_eq!(validate(&node), Err(SchemaError::DuplicateName("x".to_string())));
}

#[test]
fn same_name_in_different_nodes_is_no_defect() {
    let node = command(vec![arg("x")]).with_subcommand("sub".to_string(), command(vec![arg("x")]));
    assert_eq!(validate(&node), Ok(()));
}

#[test]
fn validating_twice_gives_the_same_outcome() {
    let mut a = arg("a");
    a.index = Some(1);
    let mut b = arg("b");
    b.index = Some(1);
    let node = command(vec![a, b]);
    let first = validate(&node);
    assert_eq!(first, Err(SchemaError::DuplicateIndex("b".to_string(), 1)));
    assert_eq!(validate(&node), first);
    let valid = command(vec![arg("a")]);
    assert_eq!(validate(&valid), validate(&valid));
}

#[test]
fn each_defect_is_reported_until_none_is_left() {
    let mut a = arg("a");
    a.min_values = Some(2);
    a.max_values = Some(1);
    a.requires = Some("ghost".to_string());
    let node = command(vec![a.clone(), arg("b")]);
    assert_eq!(
        validate(&node),
        Err(SchemaError::DanglingReference("a".to_string(), "ghost".to_string()))
    );
    a.requires = Some("b".to_string());
    let node = command(vec![a.clone(), arg("b")]);
    assert_eq!(validate(&node), Err(SchemaError::InvalidValueBounds("a".to_string())));
    a.max_values = Some(2);
    let node = command(vec![a, arg("b")]);
    assert_eq!(validate(&node), Ok(()));
}
