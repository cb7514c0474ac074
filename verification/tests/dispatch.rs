use quartz::command::executor::{
    after, executor, float, float_default, integer, integer_default, literal, string, string_default,
    Action, Argument, CommandContext, CommandExecutor, CommandNode,
};

fn tree() -> CommandExecutor {
    let mut ex = CommandExecutor::new();
    ex.register(literal("stop").executes(0));
    ex.register(literal("tp").then(literal("here").executes(1)).then(integer_default("x", 5).executes(2)));
    ex.register(literal("give").then(literal("item").executes(3)));
    ex.register(after(vec![literal("a"), literal("b")], executor(4)));
    ex
}

fn message(a: &Action) -> &str {
    match a {
        Action::Message(m) => m.as_str(),
        _ => panic!("expected a message"),
    }
}

fn executed(a: &Action) -> (usize, Vec<(String, i64)>) {
    match a {
        Action::Execute(e, args) => (
            *e,
            args.iter()
                .map(|(n, v)| (n.clone(), match v {
                    Argument::Integer(i) => *i,
                    _ => -1,
                }))
                .collect(),
        ),
        _ => panic!("expected an execution"),
    }
}

#[test]
fn runs_a_plain_command() {
    let acts = tree().dispatch("stop").unwrap();
    assert_eq!(acts.len(), 1);
    assert_eq!(executed(&acts[0]), (0, vec![]));
}

#[test]
fn unknown_commands_are_reported() {
    let acts = tree().dispatch("STOP").unwrap();
    assert_eq!(acts.len(), 1);
    assert_eq!(message(&acts[0]), "No command found named \"STOP\"");
    assert!(tree().dispatch("").unwrap().is_empty());
}

#[test]
fn literals_match_without_case() {
    let acts = tree().dispatch("tp HERE").unwrap();
    assert_eq!(acts.len(), 1);
    assert_eq!(executed(&acts[0]), (1, vec![]));
}

#[test]
fn defaults_fill_missing_arguments() {
    let acts = tree().dispatch("tp").unwrap();
    assert_eq!(acts.len(), 1);
    assert_eq!(executed(&acts[0]), (2, vec![("x".to_string(), 5)]));
}

#[test]
fn unmatched_arguments_list_the_choices() {
    let acts = tree().dispatch("tp 7").unwrap();
    assert_eq!(acts.len(), 2);
    assert_eq!(message(&acts[0]), "Expected one of the following arguments: here, x");
    assert_eq!(executed(&acts[1]), (2, vec![("x".to_string(), 5)]));
}

#[test]
fn extra_arguments_are_ignored() {
    let acts = tree().dispatch("stop now please").unwrap();
    assert_eq!(acts.len(), 2);
    assert_eq!(message(&acts[0]), "Ignoring the following arguments: \"now please\"");
    assert_eq!(executed(&acts[1]), (0, vec![]));
}

#[test]
fn missing_values_are_reported() {
    let acts = tree().dispatch("give").unwrap();
    assert_eq!(acts.len(), 1);
    assert_eq!(message(&acts[0]), "Expected value for argument \"item\"");
    let acts = tree().dispatch("give x").unwrap();
    assert_eq!(acts.len(), 2);
    assert_eq!(message(&acts[0]), "Invalid value for argument \"item\": \"x\"");
    assert_eq!(message(&acts[1]), "Expected value for argument \"item\"");
}

#[test]
fn chained_nodes() {
    let acts = tree().dispatch("a b anything").unwrap();
    assert_eq!(acts.len(), 1);
    assert_eq!(executed(&acts[0]), (4, vec![]));
}

#[test]
fn re_registering_replaces() {
    let mut ex = tree();
    ex.register(literal("stop").executes(9));
    let acts = ex.dispatch("stop").unwrap();
    assert_eq!(executed(&acts[0]), (9, vec![]));
    ex.register(integer("ignored"));
    assert_eq!(message(&ex.dispatch("ignored").unwrap()[0]), "No command found named \"ignored\"");
}

#[test]
fn argument_matching() {
    assert!(Argument::Any.matches("whatever"));
    assert!(Argument::Literal("Tp".to_string()).matches("tP"));
    assert!(!Argument::Literal("tp".to_string()).matches("tpx"));
    assert!(!Argument::Integer(3).matches("3"));
    let mut ctx = CommandContext::new();
    assert!(Argument::Any.apply(&mut ctx, "n", "x").is_ok());
}

#[test]
fn context_values() {
    let mut ctx = CommandContext::new();
    ctx.set("n".to_string(), Argument::Integer(3));
    ctx.set("s".to_string(), Argument::String("hi".to_string()));
    ctx.set("l".to_string(), Argument::Literal("lit".to_string()));
    ctx.set("f".to_string(), Argument::FloatingPoint(1.5f64.to_bits()));
    ctx.set("n".to_string(), Argument::Integer(4));
    assert_eq!(ctx.arguments.len(), 4);
    assert_eq!(ctx.get_integer("n"), 4);
    assert_eq!(ctx.get_string("s"), "hi");
    assert_eq!(ctx.get_literal("l"), "lit");
    assert_eq!(f64::from_bits(ctx.get_float("f")), 1.5);
    assert_eq!(ctx.get_integer("s"), 0);
    assert_eq!(ctx.get_string("missing"), "");
    assert_eq!(ctx.get_float("missing"), 0);
}

#[test]
fn node_builders() {
    let n = CommandNode::new("root", Argument::Any);
    assert_eq!(n.execute(), None);
    assert_eq!(n.executes(3).execute(), Some(3));
    assert!(integer_default("d", 1).default);
    assert!(matches!(float("f").argument, Argument::Integer(0)));
    assert!(matches!(float_default("f", 7).argument, Argument::FloatingPoint(7)));
    assert!(matches!(string("s").argument, Argument::String(ref t) if t.is_empty()));
    assert!(string_default("s", "v".to_string()).default);
    let chain = after(vec![literal("x")], executor(1));
    assert_eq!(chain.children.len(), 1);
    assert_eq!(chain.children[0].executor, Some(1));
}
