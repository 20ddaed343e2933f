use hyperion_command::execute::MAX_DEPTH;
use hyperion_command::packet::get_command_packet;
use hyperion_command::tree::{add_command, add_executor, CommandTree, NodeData, Parser, Structure};

#[test]
fn test_empty_command_tree() {
    let tree: CommandTree<u8> = CommandTree::new();

    let packet = get_command_packet(&tree);

    assert_eq!(packet.commands.len(), 1);
    assert_eq!(packet.root_index, 0);
    assert_eq!(packet.commands[0].data, NodeData::Root);
    assert!(packet.commands[0].children.is_empty());
}

#[test]
fn test_single_command() {
    let mut tree: CommandTree<u8> = CommandTree::new();
    add_command(&mut tree, Structure::literal("test"), 0).unwrap();

    let packet = get_command_packet(&tree);

    assert_eq!(packet.commands.len(), 2);
    assert_eq!(packet.root_index, 0);
    assert_eq!(packet.commands[0].children, vec![1]);
    assert_eq!(packet.commands[1].data, NodeData::Literal { name: "test".to_string() });
}

#[test]
fn test_nested_commands() {
    let mut tree: CommandTree<u8> = CommandTree::new();
    let parent = add_command(&mut tree, Structure::literal("parent"), 0).unwrap();
    let _child = add_command(&mut tree, Structure::literal("child"), parent).unwrap();

    let packet = get_command_packet(&tree);

    assert_eq!(packet.commands.len(), 3);
    assert_eq!(packet.root_index, 0);
    assert_eq!(packet.commands[0].children, vec![1]);
    assert_eq!(packet.commands[1].children, vec![2]);
    assert_eq!(packet.commands[1].data, NodeData::Literal { name: "parent".to_string() });
    assert_eq!(packet.commands[2].data, NodeData::Literal { name: "child".to_string() });
}

#[test]
fn test_max_depth() {
    let mut tree: CommandTree<u8> = CommandTree::new();
    let mut parent = 0;
    for i in 0..=MAX_DEPTH {
        parent = add_command(&mut tree, Structure::literal(&format!("command_{i}")), parent).unwrap();
    }

    let packet = get_command_packet(&tree);

    assert_eq!(packet.commands.len(), MAX_DEPTH + 1);
}

#[test]
fn packet_links_are_consistent() {
    let mut tree: CommandTree<u8> = CommandTree::new();
    let a = add_command(&mut tree, Structure::literal("a"), 0).unwrap();
    let b = add_command(&mut tree, Structure::literal("b"), 0).unwrap();
    let x = add_command(&mut tree, Structure::argument("x", Parser::Bool), a).unwrap();
    add_command(&mut tree, Structure::argument("y", Parser::Long { min: None, max: Some(9) }), a).unwrap();
    add_command(&mut tree, Structure::literal("c"), b).unwrap();
    add_executor(&mut tree, 7, x);

    let packet = get_command_packet(&tree);
    assert_eq!(packet.commands.len(), 6);
    assert_eq!(packet.commands[0].data, NodeData::Root);
    assert_eq!(packet.commands[0].parent, None);
    for (k, entry) in packet.commands.iter().enumerate() {
        for &c in &entry.children {
            assert!(c < packet.commands.len());
            assert_eq!(packet.commands[c].parent, Some(k));
        }
        if let Some(p) = entry.parent {
            assert!(packet.commands[p].children.contains(&k));
        }
    }
    let executable: Vec<bool> = packet.commands.iter().map(|e| e.executable).collect();
    assert_eq!(executable.iter().filter(|e| **e).count(), 1);
    let x_entry = packet
        .commands
        .iter()
        .find(|e| e.data == NodeData::Argument { name: "x".to_string(), parser: Parser::Bool })
        .unwrap();
    assert!(x_entry.executable);
}

#[test]
fn packet_is_the_same_on_each_call() {
    let mut tree: CommandTree<u8> = CommandTree::new();
    let a = add_command(&mut tree, Structure::literal("a"), 0).unwrap();
    add_command(&mut tree, Structure::literal("b"), 0).unwrap();
    add_command(&mut tree, Structure::argument("x", Parser::String), a).unwrap();
    add_command(&mut tree, Structure::literal("y"), a).unwrap();
    let first = get_command_packet(&tree);
    let second = get_command_packet(&tree);
    assert_eq!(first.commands.len(), second.commands.len());
    for (p, q) in first.commands.iter().zip(second.commands.iter()) {
        assert_eq!(p.data, q.data);
        assert_eq!(p.parent, q.parent);
        assert_eq!(p.children, q.children);
        assert_eq!(p.executable, q.executable);
    }
    assert_eq!(first.commands[0].children, vec![1, 2]);
    assert_eq!(first.commands[1].children, vec![3, 4]);
    assert_eq!(first.commands[3].data, NodeData::Argument { name: "x".to_string(), parser: Parser::String });
}
