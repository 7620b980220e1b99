use cli_schema::schema::{CliArg, CliConfig};

fn arg(name: &str) -> CliArg {
    CliArg::new(name.to_string())
}

fn text(s: &str) -> Option<String> {
    Some(s.to_string())
}

#[test]
fn new_argument_declares_nothing_but_its_name() {
    let a = arg("verbose");
    assert_eq!(a.name, "verbose");
    assert_eq!(a.short, None);
    assert_eq!(a.required, None);
    assert_eq!(a.index, None);
    assert_eq!(a.possible_values, None);
    assert!(a.references().is_empty());
}

#[test]
fn references_come_in_the_order_of_the_constraints() {
    let mut a = arg("a");
    a.required_if_eq = Some(vec!["i".to_string(), "value".to_string()]);
    a.requires_if = Some(vec!["h".to_string(), "value".to_string()]);
    a.required_unless_present_any = Some(vec!["g".to_string()]);
    a.required_unless_present_all = Some(vec!["f".to_string()]);
    a.required_unless_present = text("e");
    a.requires_all = Some(vec!["d".to_string()]);
    a.requires = text("c");
    a.conflicts_with_all = Some(vec!["b1".to_string(), "b2".to_string()]);
    a.conflicts_with = text("a0");
    let listed: Vec<&str> = a.references().iter().map(|s| s.as_str()).collect();
    assert_eq!(listed, vec!["a0", "b1", "b2", "c", "d", "e", "f", "g", "h", "i"]);
    let conflicts: Vec<&str> = a.conflict_targets().iter().map(|s| s.as_str()).collect();
    assert_eq!(conflicts, vec!["a0", "b1", "b2"]);
    let dependencies: Vec<&str> = a.dependencies().iter().map(|s| s.as_str()).collect();
    assert_eq!(dependencies, vec!["c", "d"]);
}

#[test]
fn short_alias_is_resolved() {
    let mut a = arg("a");
    assert_eq!(a.resolved_short(), None);
    a.short = Some('v');
    assert_eq!(a.resolved_short(), Some('v'));
    a.short = Some('-');
    assert_eq!(a.resolved_short(), None);
}

#[test]
fn new_command_holds_what_it_was_given() {
    let node = CliConfig::new(
        text("about"),
        text("long about"),
        text("before"),
        text("after"),
        Some(vec![arg("a")]),
    );
    assert_eq!(node.description(), &text("about"));
    assert_eq!(node.long_description(), &text("long about"));
    assert_eq!(node.before_help(), &text("before"));
    assert_eq!(node.after_help(), &text("after"));
    assert_eq!(node.args(), &Some(vec![arg("a")]));
    assert_eq!(node.subcommands(), &None);
    assert!(node.subcommand(&"any".to_string()).is_none());
}

#[test]
fn subcommands_keep_their_insertion_order() {
    let node = CliConfig::new(None, None, None, None, None)
        .with_subcommand("one".to_string(), CliConfig::new(text("1"), None, None, None, None))
        .with_subcommand("two".to_string(), CliConfig::new(text("2"), None, None, None, None));
    let list = node.subcommands().as_ref().unwrap();
    assert_eq!(list.len(), 2);
    assert_eq!(list[0].0, "one");
    assert_eq!(list[1].0, "two");
    assert_eq!(node.subcommand(&"two".to_string()).unwrap().description(), &text("2"));
    assert!(node.subcommand(&"three".to_string()).is_none());
}

#[test]
fn subcommand_of_a_held_name_is_replaced_in_place() {
    let node = CliConfig::new(None, None, None, None, None)
        .with_subcommand("one".to_string(), CliConfig::new(text("old"), None, None, None, None))
        .with_subcommand("two".to_string(), CliConfig::new(text("2"), None, None, None, None))
        .with_subcommand("one".to_string(), CliConfig::new(text("new"), None, None, None, None));
    let list = node.subcommands().as_ref().unwrap();
    assert_eq!(list.len(), 2);
    assert_eq!(list[0].0, "one");
    assert_eq!(list[0].1.description(), &text("new"));
    assert_eq!(list[1].0, "two");
}

#[test]
fn copy_of_a_command_is_equal_to_it() {
    let child = CliConfig::new(text("child"), None, None, None, Some(vec![arg("x")]));
    let node = CliConfig::new(text("root"), None, None, text("after"), Some(vec![arg("a")]))
        .with_subcommand("child".to_string(), child);
    assert_eq!(node.clone(), node);
}
