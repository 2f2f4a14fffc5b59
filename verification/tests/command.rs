use seahorse::{Command, Context, Dispatch, Flag, FlagType};

type Action = fn(&Context<()>);

fn strings(v: &[&str]) -> Vec<String> {
    v.iter().map(|s| s.to_string()).collect()
}

#[test]
fn command_test() {
    let a: Action = |c: &Context<()>| println!("Hello, {:?}", c.args);
    let c = Command::new("hello")
        .description("usre command")
        .usage("test hello user")
        .alias("c")
        .action(a)
        .flag(Flag::new("t", FlagType::Bool));

    assert_eq!(c.name, "hello".to_string());
    assert_eq!(c.usage, Some("test hello user".to_string()));
}

#[test]
fn sub_command_test() {
    let a: Action = |c: &Context<()>| println!("Hello, {:?}", c.args);
    let sub = Command::new("world")
        .description("user command")
        .usage("test hello world user")
        .alias("w")
        .action(a)
        .flag(Flag::new("t", FlagType::Bool));
    let c = Command::new("hello")
        .description("user command")
        .usage("test hello user")
        .alias("h")
        .action(a)
        .flag(Flag::new("t", FlagType::Bool))
        .command(sub);

    assert_eq!(c.name, "hello".to_string());
    assert_eq!(c.usage, Some("test hello user".to_string()));
}

#[test]
fn command_extentions_test() {
    let a: fn(&Context<String>) = |c: &Context<String>| {
        println!("❗️ app-data: {:#?}", c.extensions);
        println!("Hello, {:?}", c.args)
    };

    let extensions = "some data passed to action! 👀".to_string();

    let mut c = Command::new_with_extensions("hello", String::new())
        .description("user command")
        .usage("test hello user")
        .alias("h")
        .action(a)
        .flag(Flag::new("t", FlagType::Bool));
    c.extensions = extensions;

    match c.run(vec!["hello".to_string()]) {
        Dispatch::Invoke { path, args } => {
            let target = c.at(&path);
            let ctx = target.context(args, c.extensions.clone());
            assert_eq!(ctx.extensions, "some data passed to action! 👀".to_string());
            (target.action.unwrap())(&ctx);
        }
        Dispatch::ShowHelp { path } => panic!("unexpected help for {:?}", path),
    }

    assert_eq!(c.name, "hello".to_string());
    assert_eq!(c.usage, Some("test hello user".to_string()));
}

#[test]
fn builders_set_each_field() {
    let a: Action = |_c: &Context<()>| {};
    let c = Command::new("cmd")
        .description("d")
        .usage("u")
        .alias("x")
        .alias("y")
        .action(a)
        .flag(Flag::new("one", FlagType::Int))
        .flag(Flag::new("two", FlagType::String));
    assert_eq!(c.name, "cmd");
    assert_eq!(c.description, Some("d".to_string()));
    assert_eq!(c.usage, Some("u".to_string()));
    assert_eq!(c.alias, Some(strings(&["x", "y"])));
    assert!(c.action.is_some());
    let names: Vec<String> = c.flags.as_ref().unwrap().iter().map(|f| f.name.clone()).collect();
    assert_eq!(names, strings(&["one", "two"]));
    assert!(c.commands.is_none());
    let fresh: Command<Action> = Command::new("n");
    assert!(fresh.description.is_none() && fresh.usage.is_none() && fresh.action.is_none());
    assert!(fresh.flags.is_none() && fresh.alias.is_none() && fresh.commands.is_none());
}

#[test]
fn command_adds_sub_commands_in_order() {
    let c: Command<Action> = Command::new("top")
        .command(Command::new("a"))
        .command(Command::new("b"));
    let names: Vec<String> = c.commands.as_ref().unwrap().iter().map(|s| s.name.clone()).collect();
    assert_eq!(names, strings(&["a", "b"]));
}

fn tree() -> Command<Action> {
    let a: Action = |_c: &Context<()>| {};
    let world = Command::new("world").alias("w").action(a);
    let quiet = Command::new("quiet");
    Command::new("hello")
        .action(a)
        .flag(Flag::new("name", FlagType::String))
        .command(world)
        .command(quiet)
}

#[test]
fn run_invokes_own_action_with_normalized_args() {
    let c = tree();
    match c.run(strings(&["--name=joe", "x"])) {
        Dispatch::Invoke { path, args } => {
            assert!(path.is_empty());
            assert_eq!(args, strings(&["--name", "joe", "x"]));
        }
        Dispatch::ShowHelp { .. } => panic!("expected the action"),
    }
}

#[test]
fn run_reaches_sub_command_by_name_and_alias() {
    let c = tree();
    match c.run(strings(&["world", "a=b", "-k=v=w"])) {
        Dispatch::Invoke { path, args } => {
            assert_eq!(path, vec![0]);
            assert_eq!(args, strings(&["a=b", "-k", "v=w"]));
        }
        Dispatch::ShowHelp { .. } => panic!("expected the action"),
    }
    match c.run(strings(&["w"])) {
        Dispatch::Invoke { path, args } => {
            assert_eq!(path, vec![0]);
            assert!(args.is_empty());
        }
        Dispatch::ShowHelp { .. } => panic!("expected the action"),
    }
}

#[test]
fn run_normalizes_at_each_level() {
    // "-x=-y=z" splits into "-x", "-y=z" at the top, and "-y=z" splits again
    // when the sub command normalizes its own arguments.
    let c = tree();
    match c.run(strings(&["-x=-y=z"])) {
        Dispatch::Invoke { path, args } => {
            assert!(path.is_empty());
            assert_eq!(args, strings(&["-x", "-y=z"]));
        }
        Dispatch::ShowHelp { .. } => panic!("expected the action"),
    }
    match c.run(strings(&["world", "-x=-y=z"])) {
        Dispatch::Invoke { args, .. } => assert_eq!(args, strings(&["-x", "-y", "z"])),
        Dispatch::ShowHelp { .. } => panic!("expected the action"),
    }
    match c.run(strings(&["world=-y=z"])) {
        Dispatch::Invoke { path, args } => {
            assert!(path.is_empty());
            assert_eq!(args, strings(&["world=-y=z"]));
        }
        Dispatch::ShowHelp { .. } => panic!("expected the action"),
    }
}

#[test]
fn run_shows_help_when_asked_or_without_action() {
    let c = tree();
    match c.run(strings(&["x", "-h"])) {
        Dispatch::ShowHelp { path } => assert!(path.is_empty()),
        Dispatch::Invoke { .. } => panic!("expected help"),
    }
    match c.run(strings(&["world", "--help"])) {
        Dispatch::ShowHelp { path } => assert_eq!(path, vec![0]),
        Dispatch::Invoke { .. } => panic!("expected help"),
    }
    match c.run(strings(&["quiet", "a"])) {
        Dispatch::ShowHelp { path } => assert_eq!(path, vec![1]),
        Dispatch::Invoke { .. } => panic!("expected help"),
    }
    let bare: Command<Action> = Command::new("bare");
    match bare.run(vec![]) {
        Dispatch::ShowHelp { path } => assert!(path.is_empty()),
        Dispatch::Invoke { .. } => panic!("expected help"),
    }
}

#[test]
fn run_with_no_args_invokes_action() {
    let c = tree();
    match c.run(vec![]) {
        Dispatch::Invoke { path, args } => {
            assert!(path.is_empty());
            assert!(args.is_empty());
        }
        Dispatch::ShowHelp { .. } => panic!("expected the action"),
    }
}

#[test]
fn at_follows_the_path() {
    let c = tree();
    assert_eq!(c.at(&vec![]).name, "hello");
    assert_eq!(c.at(&vec![1]).name, "quiet");
}

#[test]
fn first_matching_sub_command_wins() {
    let a: Action = |_c: &Context<()>| {};
    let c = Command::new("top")
        .command(Command::new("one").alias("dup").action(a))
        .command(Command::new("dup").action(a));
    match c.run(strings(&["dup"])) {
        Dispatch::Invoke { path, .. } => assert_eq!(path, vec![0]),
        Dispatch::ShowHelp { .. } => panic!("expected the action"),
    }
}

#[test]
fn default_and_data_carrying_commands() {
    let d: Command<Action, u32> = Command::default();
    assert_eq!(d.name, "");
    assert!(d.description.is_none() && d.usage.is_none() && d.action.is_none());
    assert!(d.flags.is_none() && d.alias.is_none() && d.commands.is_none());
    assert_eq!(d.extensions, 0);
    let e: Command<Action, u32> = Command::new_with_extensions("e", 5).usage("u").alias("x");
    assert_eq!(e.name, "e");
    assert_eq!(e.extensions, 5);
    assert_eq!(e.usage, Some("u".to_string()));
}
