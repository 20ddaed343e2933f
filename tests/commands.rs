use hyperion_command::context::{CommandContext, CommandContextError};
use hyperion_command::dsl::{cmd_with, CommandScope};
use hyperion_command::execute::{execute, DispatchError};
use hyperion_command::tree::{CommandTree, Parser};

type Handler = fn(&CommandContext) -> Result<&'static str, CommandContextError>;

fn run(h: &Handler, ctx: &CommandContext) -> Result<&'static str, CommandContextError> {
    h(ctx)
}

fn gamemode(ctx: &CommandContext) -> Result<&'static str, CommandContextError> {
    let mode = ctx.get_str("mode")?;
    assert_eq!(mode, "creative");
    Ok("gamemode")
}

fn gamemode_player(ctx: &CommandContext) -> Result<&'static str, CommandContextError> {
    let mode = ctx.get_str("mode")?;
    let player = ctx.get_str("player")?;
    assert_eq!(mode, "creative");
    assert_eq!(player, "player");
    Ok("gamemode player")
}

fn tp(ctx: &CommandContext) -> Result<&'static str, CommandContextError> {
    let target = ctx.get_str("target")?;
    assert_eq!(target, "target");
    Ok("tp")
}

fn tp_destination(ctx: &CommandContext) -> Result<&'static str, CommandContextError> {
    let target = ctx.get_str("target")?;
    let destination = ctx.get_str("destination")?;
    assert_eq!(target, "target");
    assert_eq!(destination, "destination");
    Ok("tp destination")
}

fn time_set(ctx: &CommandContext) -> Result<&'static str, CommandContextError> {
    let value = ctx.get_int("value")?;
    assert_eq!(value, 6000);
    assert_eq!(value / 20, 300);
    Ok("time set")
}

fn build_complex() -> CommandTree<Handler> {
    let mut tree: CommandTree<Handler> = CommandTree::new();

    cmd_with(&mut tree, "gamemode", |mut scope: CommandScope<Handler>| {
        scope
            .argument_with("mode", Parser::String, |mut scope: CommandScope<Handler>| {
                scope.executor(gamemode);
                scope
                    .argument_with("player", Parser::String, |mut scope: CommandScope<Handler>| {
                        scope.executor(gamemode_player);
                        scope
                    })
                    .unwrap();
                scope
            })
            .unwrap();
        scope
    })
    .unwrap();

    cmd_with(&mut tree, "tp", |mut scope: CommandScope<Handler>| {
        scope
            .argument_with("target", Parser::String, |mut scope: CommandScope<Handler>| {
                scope.executor(tp);
                scope
                    .argument_with("destination", Parser::String, |mut scope: CommandScope<Handler>| {
                        scope.executor(tp_destination);
                        scope
                    })
                    .unwrap();
                scope
            })
            .unwrap();
        scope
    })
    .unwrap();

    cmd_with(&mut tree, "time", |mut scope: CommandScope<Handler>| {
        scope
            .literal_with("set", |mut scope: CommandScope<Handler>| {
                scope
                    .argument_with(
                        "value",
                        Parser::from(0_i32..),
                        |mut scope: CommandScope<Handler>| {
                            scope.executor(time_set);
                            scope
                        },
                    )
                    .unwrap();
                scope
            })
            .unwrap();
        scope
    })
    .unwrap();

    tree
}

#[test]
fn test_complex_command() {
    let tree = build_complex();

    let r = execute(&tree, "gamemode creative", run);
    assert_eq!(r, Ok(Ok("gamemode")));

    let r = execute(&tree, "tp target destination", run);
    assert_eq!(r, Ok(Ok("tp destination")));

    let r = execute(&tree, "time set 6000", run);
    assert_eq!(r, Ok(Ok("time set")));
}

#[test]
fn gamemode_binds_mode() {
    let mut tree: CommandTree<Handler> = CommandTree::new();
    cmd_with(&mut tree, "gamemode", |mut scope: CommandScope<Handler>| {
        scope
            .argument_with("mode", Parser::String, |mut scope: CommandScope<Handler>| {
                scope.executor(|ctx| {
                    assert_eq!(ctx.len(), 1);
                    assert_eq!(ctx.get_str("mode")?, "creative");
                    Ok("echo")
                });
                scope
            })
            .unwrap();
        scope
    })
    .unwrap();
    assert_eq!(execute(&tree, "gamemode creative", run), Ok(Ok("echo")));
}

fn shallow(ctx: &CommandContext) -> Result<&'static str, CommandContextError> {
    assert_eq!(ctx.len(), 1);
    assert_eq!(ctx.get_str("mode")?, "creative");
    assert_eq!(
        ctx.get_str("player"),
        Err(CommandContextError::ArgumentNotFound { name: "player".to_string() })
    );
    Ok("shallow")
}

fn deep(ctx: &CommandContext) -> Result<&'static str, CommandContextError> {
    assert_eq!(ctx.len(), 2);
    assert_eq!(ctx.get_str("mode")?, "creative");
    assert_eq!(ctx.get_str("player")?, "Bob");
    Ok("deep")
}

#[test]
fn shallow_and_deep_handlers() {
    let mut tree: CommandTree<Handler> = CommandTree::new();
    cmd_with(&mut tree, "gamemode", |mut scope: CommandScope<Handler>| {
        scope
            .argument_with("mode", Parser::String, |mut scope: CommandScope<Handler>| {
                scope.executor(shallow);
                scope
                    .argument_with("player", Parser::String, |mut scope: CommandScope<Handler>| {
                        scope.executor(deep);
                        scope
                    })
                    .unwrap();
                scope
            })
            .unwrap();
        scope
    })
    .unwrap();
    assert_eq!(execute(&tree, "gamemode creative", run), Ok(Ok("shallow")));
    assert_eq!(execute(&tree, "gamemode creative Bob", run), Ok(Ok("deep")));
}

#[test]
fn integer_argument_binds_and_rejects() {
    let tree = build_complex();
    let value_node = {
        let time = tree.node(0).children[2];
        let set = tree.node(time).children[0];
        tree.node(set).children[0]
    };
    let set_node = tree.node(tree.node(0).children[2]).children[0];
    assert_eq!(tree.node(value_node).parent, Some(set_node));

    assert_eq!(execute(&tree, "time set 6000", run), Ok(Ok("time set")));
    assert_eq!(
        execute(&tree, "time set abc", run),
        Err(DispatchError::NoMatchingChild { at: set_node, token: "abc".to_string() })
    );
}

#[test]
fn unknown_top_level_token() {
    let tree = build_complex();
    assert_eq!(
        execute(&tree, "foo", run),
        Err(DispatchError::NoMatchingChild { at: 0, token: "foo".to_string() })
    );
    let empty: CommandTree<Handler> = CommandTree::new();
    assert_eq!(
        execute(&empty, "foo", run),
        Err(DispatchError::NoMatchingChild { at: 0, token: "foo".to_string() })
    );
}

#[test]
fn literal_matches_any_case() {
    let mut tree: CommandTree<Handler> = CommandTree::new();
    cmd_with(&mut tree, "Set", |mut scope: CommandScope<Handler>| {
        scope.executor(|_| Ok("set"));
        scope
    })
    .unwrap();
    for input in ["set", "SET", "sEt", "Set"] {
        assert_eq!(execute(&tree, input, run), Ok(Ok("set")));
    }
    assert_eq!(
        execute(&tree, "sets", run),
        Err(DispatchError::NoMatchingChild { at: 0, token: "sets".to_string() })
    );
}

#[test]
fn dispatch_twice_gives_same_result() {
    let tree = build_complex();
    let before = tree.len();
    let a = execute(&tree, "time set abc", run);
    let b = execute(&tree, "time set abc", run);
    assert_eq!(a, b);
    let a = execute(&tree, "  tp   target  ", run);
    let b = execute(&tree, "  tp   target  ", run);
    assert_eq!(a, b);
    assert_eq!(a, Ok(Ok("tp")));
    assert_eq!(tree.len(), before);
}

#[test]
fn incomplete_command_has_no_handler() {
    let tree = build_complex();
    let time = tree.node(0).children[2];
    assert_eq!(execute(&tree, "time", run), Err(DispatchError::NoHandlerAtPath { at: time }));
    assert_eq!(execute(&tree, "", run), Err(DispatchError::NoHandlerAtPath { at: 0 }));
    assert_eq!(execute(&tree, " \t\n", run), Err(DispatchError::NoHandlerAtPath { at: 0 }));
}

#[test]
fn depth_guard_stops_deep_input() {
    let mut tree: CommandTree<Handler> = CommandTree::new();
    let mut parent = 0;
    for _ in 0..70 {
        parent = hyperion_command::tree::add_command(
            &mut tree,
            hyperion_command::tree::Structure::literal("x"),
            parent,
        )
        .unwrap();
    }
    hyperion_command::tree::add_executor(&mut tree, |_| Ok("deep"), parent);
    let input = vec!["x"; 70].join(" ");
    assert_eq!(execute(&tree, &input, run), Err(DispatchError::DepthExceeded));
    let input = vec!["x"; 64].join(" ");
    assert_eq!(execute(&tree, &input, run), Err(DispatchError::NoHandlerAtPath { at: 64 }));
}

#[test]
fn literal_wins_over_argument() {
    let mut tree: CommandTree<Handler> = CommandTree::new();
    cmd_with(&mut tree, "tp", |mut scope: CommandScope<Handler>| {
        scope
            .argument_with("target", Parser::String, |mut s: CommandScope<Handler>| {
                s.executor(|_| Ok("argument"));
                s
            })
            .unwrap();
        scope
            .literal_with("here", |mut s: CommandScope<Handler>| {
                s.executor(|_| Ok("literal"));
                s
            })
            .unwrap();
        scope
    })
    .unwrap();
    assert_eq!(execute(&tree, "tp HERE", run), Ok(Ok("literal")));
    assert_eq!(execute(&tree, "tp there", run), Ok(Ok("argument")));
}

#[test]
fn failed_parse_tries_next_argument() {
    let mut tree: CommandTree<Handler> = CommandTree::new();
    cmd_with(&mut tree, "give", |mut scope: CommandScope<Handler>| {
        scope
            .argument_with("n", Parser::Integer { min: None, max: None }, |mut s: CommandScope<Handler>| {
                s.executor(|c| {
                    assert_eq!(c.get_int("N")?, 5);
                    Ok("int")
                });
                s
            })
            .unwrap();
        scope
            .argument_with("flag", Parser::Bool, |mut s: CommandScope<Handler>| {
                s.executor(|c| {
                    assert_eq!(c.get_bool("flag")?, true);
                    Ok("bool")
                });
                s
            })
            .unwrap();
        scope
    })
    .unwrap();
    assert_eq!(execute(&tree, "give 5", run), Ok(Ok("int")));
    assert_eq!(execute(&tree, "give true", run), Ok(Ok("bool")));
    assert_eq!(
        execute(&tree, "give maybe", run),
        Err(DispatchError::NoMatchingChild { at: 1, token: "maybe".to_string() })
    );
}
