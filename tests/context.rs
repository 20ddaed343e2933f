use hyperion_command::context::{CommandContext, CommandContextError, Value, MAX_BINDINGS};
use hyperion_command::execute::read_token;
use hyperion_command::tree::Parser;

#[test]
fn lookup_ignores_case_and_takes_first() {
    let mut ctx = CommandContext::new();
    ctx.push("Mode".to_string(), Value::Text("creative".to_string())).unwrap();
    ctx.push("mode".to_string(), Value::Int(3)).unwrap();
    ctx.push("count".to_string(), Value::Int(5)).unwrap();
    assert_eq!(ctx.len(), 3);
    assert_eq!(ctx.get("MODE"), Ok(&Value::Text("creative".to_string())));
    assert_eq!(ctx.get_str("mode"), Ok("creative"));
    assert_eq!(ctx.get_int("COUNT"), Ok(5));
    assert_eq!(ctx.binding(1).value, Value::Int(3));
}

#[test]
fn lookup_errors() {
    let mut ctx = CommandContext::new();
    ctx.push("count".to_string(), Value::Int(5)).unwrap();
    assert_eq!(
        ctx.get("missing"),
        Err(CommandContextError::ArgumentNotFound { name: "missing".to_string() })
    );
    assert_eq!(
        ctx.get_str("count"),
        Err(CommandContextError::TypeMismatch { name: "count".to_string() })
    );
    assert_eq!(
        ctx.get_bool("count"),
        Err(CommandContextError::TypeMismatch { name: "count".to_string() })
    );
    assert_eq!(
        ctx.get_long("count"),
        Err(CommandContextError::TypeMismatch { name: "count".to_string() })
    );
    assert_eq!(
        ctx.get_float("nothing"),
        Err(CommandContextError::ArgumentNotFound { name: "nothing".to_string() })
    );
}

#[test]
fn store_refuses_past_capacity() {
    let mut ctx = CommandContext::new();
    for i in 0..MAX_BINDINGS {
        assert_eq!(ctx.push(format!("a{i}"), Value::Long(i as i64)), Ok(()));
    }
    assert_eq!(
        ctx.push("extra".to_string(), Value::Bool(true)),
        Err(CommandContextError::CapacityExceeded)
    );
    assert_eq!(ctx.len(), MAX_BINDINGS);
    assert_eq!(ctx.get_long("a63"), Ok(63));
    assert!(ctx.get("extra").is_err());
}

#[test]
fn integer_tokens() {
    let int = Parser::Integer { min: None, max: None };
    assert_eq!(read_token(int, "6000"), Some(Value::Int(6000)));
    assert_eq!(read_token(int, "-17"), Some(Value::Int(-17)));
    assert_eq!(read_token(int, "0"), Some(Value::Int(0)));
    assert_eq!(read_token(int, "2147483647"), Some(Value::Int(i32::MAX)));
    assert_eq!(read_token(int, "-2147483648"), Some(Value::Int(i32::MIN)));
    assert_eq!(read_token(int, "2147483648"), None);
    assert_eq!(read_token(int, "007"), None);
    assert_eq!(read_token(int, "-0"), None);
    assert_eq!(read_token(int, "1.0"), None);
    assert_eq!(read_token(int, "1e3"), None);
    assert_eq!(read_token(int, "+5"), None);
    assert_eq!(read_token(int, "abc"), None);
    assert_eq!(read_token(int, ""), None);
}

#[test]
fn long_tokens() {
    let long = Parser::Long { min: Some(0), max: None };
    assert_eq!(read_token(long, "2147483648"), Some(Value::Long(2147483648)));
    assert_eq!(read_token(long, "-9223372036854775808"), Some(Value::Long(i64::MIN)));
    assert_eq!(read_token(long, "9223372036854775808"), None);
}

#[test]
fn bool_tokens() {
    assert_eq!(read_token(Parser::Bool, "true"), Some(Value::Bool(true)));
    assert_eq!(read_token(Parser::Bool, "false"), Some(Value::Bool(false)));
    assert_eq!(read_token(Parser::Bool, "True"), None);
    assert_eq!(read_token(Parser::Bool, "1"), None);
}

#[test]
fn float_tokens_keep_their_text() {
    assert_eq!(read_token(Parser::Float, "1.5"), Some(Value::Float("1.5".to_string())));
    assert_eq!(read_token(Parser::Double, "-2e3"), Some(Value::Double("-2e3".to_string())));
    assert_eq!(read_token(Parser::Float, "7"), Some(Value::Float("7".to_string())));
    assert_eq!(read_token(Parser::Float, "1."), None);
    assert_eq!(read_token(Parser::Double, "1e400"), None);
    assert_eq!(read_token(Parser::Double, "nan"), None);
    let text = "1.5";
    let v: f32 = text.parse().unwrap();
    assert_eq!(v, 1.5);
}

#[test]
fn string_and_unsupported_tokens() {
    assert_eq!(read_token(Parser::String, "Bob"), Some(Value::Text("Bob".to_string())));
    assert_eq!(read_token(Parser::Unsupported { tag: 3 }, "Bob"), None);
}
