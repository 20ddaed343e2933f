use hyperion_command::dsl::{cmd, cmd_with, CommandScope};
use hyperion_command::tree::{CommandTree, NodeData, Parser, TreeError, MAX_CHILDREN};

#[test]
fn test_add_command() {
    let mut tree: CommandTree<&'static str> = CommandTree::new();

    cmd_with(&mut tree, "test", |mut scope: CommandScope<&'static str>| {
        scope.literal("example").unwrap();
        scope.executor("Executing example command");
        scope
    })
    .unwrap();

    assert_eq!(tree.len(), 3);
    let test = tree.node(0).children[0];
    assert_eq!(tree.node(test).structure.data, NodeData::Literal { name: "test".to_string() });
    assert_eq!(tree.node(test).executor, Some("Executing example command"));
    let example = tree.node(test).children[0];
    assert_eq!(tree.node(example).structure.data, NodeData::Literal { name: "example".to_string() });
    assert_eq!(tree.node(example).parent, Some(test));
}

#[test]
fn sixty_fifth_child_is_refused() {
    let mut scope: CommandScope<u8> = CommandScope::new(CommandTree::new());
    for i in 0..MAX_CHILDREN {
        let r = if i % 2 == 0 {
            scope.literal(&format!("l{i}"))
        } else {
            scope.argument(&format!("a{i}"), Parser::String)
        };
        assert_eq!(r, Ok(i + 1));
    }
    assert_eq!(scope.literal("extra"), Err(TreeError::CapacityExceeded));
    assert_eq!(scope.argument("extra", Parser::String), Err(TreeError::CapacityExceeded));
    let mut ran = false;
    let r = scope.literal_with("extra", |s| {
        ran = true;
        s
    });
    assert_eq!(r, Err(TreeError::CapacityExceeded));
    assert!(!ran);
    let tree = scope.into_tree();
    assert_eq!(tree.len(), MAX_CHILDREN + 1);
    assert_eq!(tree.node(0).children.len(), MAX_CHILDREN);
}

#[test]
fn nested_scope_returns_to_its_node() {
    let mut scope: CommandScope<u8> = CommandScope::new(CommandTree::new());
    let a = scope
        .literal_with("a", |mut s: CommandScope<u8>| {
            let b = s.literal_with("b", |mut s: CommandScope<u8>| {
                s.executor(2);
                s
            });
            assert_eq!(b, Ok(2));
            s.executor(1);
            s
        })
        .unwrap();
    assert_eq!(scope.current(), 0);
    let c = scope.literal("c").unwrap();
    let tree = scope.into_tree();
    assert_eq!(tree.node(0).children, vec![a, c]);
    assert_eq!(tree.node(a).executor, Some(1));
    assert_eq!(tree.node(2).executor, Some(2));
    assert_eq!(tree.node(c).parent, Some(0));
}

#[test]
fn end_leaves_the_entered_node() {
    let mut scope: CommandScope<u8> = CommandScope::new(CommandTree::new());
    scope
        .literal_with("a", |mut s: CommandScope<u8>| {
            assert_eq!(s.current(), 1);
            s.end();
            assert_eq!(s.current(), 0);
            s.end();
            assert_eq!(s.current(), 0);
            s
        })
        .unwrap();
    assert_eq!(scope.current(), 0);
}

#[test]
fn second_executor_replaces_first() {
    let mut tree: CommandTree<u8> = CommandTree::new();
    cmd_with(&mut tree, "x", |mut s: CommandScope<u8>| {
        s.executor(1);
        s.executor(2);
        s
    })
    .unwrap();
    assert_eq!(tree.node(1).executor, Some(2));
}

#[test]
fn cmd_adds_a_bare_command() {
    let mut tree: CommandTree<u8> = CommandTree::new();
    assert_eq!(cmd(&mut tree, "help"), Ok(1));
    assert_eq!(tree.node(1).structure.data, NodeData::Literal { name: "help".to_string() });
    assert_eq!(tree.node(1).executor, None);
}

#[test]
fn range_gives_integer_parser() {
    assert_eq!(Parser::from(0..20), Parser::Integer { min: Some(0), max: Some(20) });
    let p: Parser = (-5..5).into();
    assert_eq!(p, Parser::Integer { min: Some(-5), max: Some(5) });
    assert_eq!(Parser::from(0_i32..), Parser::Integer { min: Some(0), max: None });
}
