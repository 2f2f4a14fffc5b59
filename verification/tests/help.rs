use seahorse::{Command, Context, Flag, FlagType};

type Action = fn(&Context<()>);

#[test]
fn help_text_full() {
    let c: Command<Action> = Command::new("cli")
        .description("desc")
        .usage("cli [args]")
        .flag(Flag::new("bye", FlagType::Bool).description("say bye").alias("b"))
        .flag(Flag::new("age", FlagType::Int))
        .command(Command::new("hello").alias("h").description("greet"));
    assert_eq!(
        c.help_text(),
        "Description:\n\tdesc\n\nUsage:\n\tcli [args]\n\nFlags:\n\t-b, --bye   : say bye\n\t--age <int>\n\t-h, --help  : Show help\n\nCommands:\n\th, hello : greet\n"
    );
}

#[test]
fn help_text_minimal() {
    let c: Command<Action> = Command::new("cli");
    assert_eq!(c.help_text(), "Flags:\n\t-h, --help : Show help\n");
}

#[test]
fn help_text_pads_by_bytes() {
    let mut x = Flag::new("x", FlagType::Bool).description("ex");
    x.alias = Some(vec![]);
    let mut b: Command<Action> = Command::new("b").description("bee");
    b.alias = Some(vec![]);
    let c: Command<Action> = Command::new("cli")
        .flag(Flag::new("größe", FlagType::String).description("size"))
        .flag(x)
        .flag(Flag::new("f", FlagType::Float).alias("ß").alias("q"))
        .command(Command::new("wörld"))
        .command(b);
    assert_eq!(
        c.help_text(),
        "Flags:\n\t--größe <string>   : size\n\t--x                  : ex\n\t-ß, -q, --f <float>\n\t-h, --help           : Show help\n\nCommands:\n\twörld : \n\t, b    : bee\n"
    );
}

#[test]
fn context_carries_args_flags_help() {
    let c: Command<Action> = Command::new("cli").flag(Flag::new("n", FlagType::Int).alias("x"));
    let ctx = c.context(vec!["a".to_string()], 7u8);
    assert_eq!(ctx.args, vec!["a".to_string()]);
    let flags = ctx.flags.unwrap();
    assert_eq!(flags.len(), 1);
    assert_eq!(flags[0].name, "n");
    assert_eq!(flags[0].flag_type, FlagType::Int);
    assert_eq!(flags[0].alias, Some(vec!["x".to_string()]));
    assert_eq!(ctx.help_text, c.help_text());
    assert_eq!(ctx.extensions, 7u8);
}
