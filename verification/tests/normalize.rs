use seahorse::{Command, Context, Dispatch};

type Action = fn(&Context<()>);

fn run_args(raw: &[&str]) -> Vec<String> {
    let a: Action = |_c: &Context<()>| {};
    let c = Command::new("n").action(a);
    match c.run(raw.iter().map(|s| s.to_string()).collect()) {
        Dispatch::Invoke { args, .. } => args,
        Dispatch::ShowHelp { .. } => panic!("expected the action"),
    }
}

#[test]
fn flag_with_value_splits_at_first_equals() {
    assert_eq!(run_args(&["--a=b=c"]), vec!["--a", "b=c"]);
    assert_eq!(run_args(&["-=x"]), vec!["-", "x"]);
    assert_eq!(run_args(&["--e="]), vec!["--e", ""]);
}

#[test]
fn other_arguments_stay() {
    assert_eq!(run_args(&["a=b", "--plain", "", "-"]), vec!["a=b", "--plain", "", "-"]);
}

#[test]
fn unicode_arguments_split_by_characters() {
    assert_eq!(run_args(&["-ü=ß"]), vec!["-ü", "ß"]);
}
