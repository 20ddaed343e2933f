use hyperion_command::dsl::{cmd_with, CommandScope};
use hyperion_command::listing::command_tree_lines;
use hyperion_command::tree::{add_command, CommandTree, Parser, Structure};

#[test]
fn outline_of_a_tree() {
    let mut tree: CommandTree<u8> = CommandTree::new();
    cmd_with(&mut tree, "time", |mut s: CommandScope<u8>| {
        s.literal_with("set", |mut s: CommandScope<u8>| {
            s.argument_with("value", Parser::Integer { min: Some(0), max: None }, |mut s: CommandScope<u8>| {
                s.executor(1);
                s
            })
            .unwrap();
            s
        })
        .unwrap();
        s.argument("speed", Parser::Float).unwrap();
        s
    })
    .unwrap();
    assert_eq!(
        command_tree_lines(&tree),
        vec!["ROOT", "  time", "    set", "      <value: Integer>*", "    <speed: Float>"]
    );
}

#[test]
fn outline_stops_at_max_depth() {
    let mut tree: CommandTree<u8> = CommandTree::new();
    let mut parent = 0;
    for _ in 0..70 {
        parent = add_command(&mut tree, Structure::literal("x"), parent).unwrap();
    }
    let lines = command_tree_lines(&tree);
    assert_eq!(lines.len(), 64);
    assert_eq!(lines[63], format!("{}x", "  ".repeat(63)));
}
