use subcommands::levenshtein_distance;
use subcommands::CommandResult;
use subcommands::CommandRunner;
use subcommands::Commands;

type Handler = fn(Vec<String>) -> CommandResult;

fn registry(args: &[&str]) -> Commands<Handler> {
    Commands::new(args.iter().map(|s| s.to_string()).collect())
}

fn usage_block(prog: &str, entries: &[(&str, &str)]) -> Vec<String> {
    let mut v = vec![
        format!("Usage: {} <command> [options]", prog),
        "Commands:".to_string(),
    ];
    for (name, desc) in entries {
        v.push(format!("    {:<12} {}", name, desc));
    }
    v
}

#[test]
fn test_commands() {
    let mut commands = registry(&["program"]);

    commands.create("cmd1", "Description 1", |args| {
        println!("Command 1 executed with args: {:?}", args);
        Ok(0)
    });

    commands.create("cmd2", "Description 2", |args| {
        println!("Command 2 executed with args: {:?}", args);
        Ok(0)
    });

    // Test usage
    commands.usage();

    // Test help
    commands.args.push("help".to_string());
    commands.help();

    // Test running a command
    commands.args = vec![
        "program".to_string(),
        "cmd1".to_string(),
        "arg1".to_string(),
    ];
    commands.run();

    // Test running an unknown command
    commands.args = vec!["program".to_string(), "unknown_cmd".to_string()];
    commands.run();

    // Test running a command with insufficient arguments
    commands.args = vec!["program".to_string(), "cmd1".to_string()];
    commands.run();
}

#[test]
fn distance_kitten_sitting() {
    assert_eq!(levenshtein_distance("kitten", "sitting"), 3);
}

#[test]
fn distance_identity() {
    assert_eq!(levenshtein_distance("abc", "abc"), 0);
    assert_eq!(levenshtein_distance("", ""), 0);
}

#[test]
fn distance_symmetry() {
    assert_eq!(
        levenshtein_distance("flaw", "lawn"),
        levenshtein_distance("lawn", "flaw")
    );
    assert_eq!(levenshtein_distance("flaw", "lawn"), 2);
}

#[test]
fn distance_empty_is_length() {
    assert_eq!(levenshtein_distance("", "xyz"), 3);
    assert_eq!(levenshtein_distance("xyz", ""), 3);
}

#[test]
fn distance_unicode_code_points() {
    // One substitution over code points, not bytes.
    assert_eq!(levenshtein_distance("caf\u{e9}", "cafe"), 1);
}

#[test]
fn register_then_lookup() {
    let mut commands = registry(&["prog"]);
    commands.create("foo", "does foo", |_args| Ok(0));
    assert_eq!(
        commands.command_usage("foo"),
        vec!["Usage: foo - does foo".to_string()]
    );
}

#[test]
fn reregister_overwrites_without_growing() {
    let mut commands = registry(&["prog"]);
    commands.create("foo", "does foo", |_args| Ok(0));
    let before = commands.commands.len();
    commands.create("foo", "does foo differently", |_args| Ok(0));
    assert_eq!(commands.commands.len(), before);
    assert_eq!(
        commands.command_usage("foo"),
        vec!["Usage: foo - does foo differently".to_string()]
    );
}

#[test]
fn lookup_unknown_reports_not_found_and_usage() {
    let mut commands = registry(&["prog"]);
    commands.create("foo", "does foo", |_args| Ok(0));
    let mut expected = vec!["Command not found: bar".to_string()];
    expected.extend(usage_block(
        "prog",
        &[("foo", "does foo"), ("help", "Print help")],
    ));
    assert_eq!(commands.command_usage("bar"), expected);
}

#[test]
fn run_without_subcommand_prints_usage_only() {
    let mut commands = registry(&["prog"]);
    commands.create("boom", "always fails", |_args| Err("exploded".to_string()));
    let out = commands.run();
    let expected = usage_block("prog", &[("boom", "always fails"), ("help", "Print help")]);
    assert_eq!(out, expected);
    assert!(out.iter().all(|l| !l.starts_with("Error:")));
}

#[test]
fn run_forwards_exactly_the_remaining_args() {
    let mut commands = registry(&["prog", "echo", "a", "b"]);
    commands.create("echo", "echoes", |args| Err(format!("got {:?}", args)));
    let out = commands.run();
    assert_eq!(
        out,
        vec![
            "Usage: echo - echoes".to_string(),
            "Error: got [\"a\", \"b\"]".to_string(),
        ]
    );
}

#[test]
fn run_discards_successful_result() {
    let mut commands = registry(&["prog", "quiet", "a", "b"]);
    commands.create("quiet", "succeeds silently", |_args| Ok(7));
    let out = commands.run();
    assert!(out.is_empty());
}

#[test]
fn run_suggests_single_near_match() {
    let mut commands = registry(&["prog", "prin"]);
    commands.create("print", "prints things", |_args| Ok(0));
    let out = commands.run();
    assert_eq!(
        out,
        vec!["May you mean:".to_string(), "    print".to_string()]
    );
    assert!(out.iter().all(|l| !l.starts_with("Command not found")));
}

#[test]
fn run_reports_not_found_when_no_near_match() {
    let mut commands = registry(&["prog", "zzz"]);
    commands.create("print", "prints things", |_args| Ok(0));
    let out = commands.run();
    let mut expected = vec!["Command not found: zzz".to_string()];
    expected.extend(usage_block(
        "prog",
        &[("help", "Print help"), ("print", "prints things")],
    ));
    assert_eq!(out, expected);
}

#[test]
fn usage_sorted_regardless_of_registration_order() {
    let mut commands = registry(&["prog"]);
    commands.create("charlie", "third", |_args| Ok(0));
    commands.create("alpha", "first", |_args| Ok(0));
    commands.create("bravo", "second", |_args| Ok(0));
    let out = commands.usage();
    let expected = usage_block(
        "prog",
        &[
            ("alpha", "first"),
            ("bravo", "second"),
            ("charlie", "third"),
            ("help", "Print help"),
        ],
    );
    assert_eq!(out, expected);
}

#[test]
fn usage_does_not_pad_long_names() {
    let mut commands = registry(&["prog"]);
    commands.create("averylongcommandname", "long", |_args| Ok(0));
    let out = commands.usage();
    assert_eq!(out[2], "    averylongcommandname long".to_string());
}

#[test]
fn helo_suggests_hello() {
    let mut commands = registry(&["prog", "helo"]);
    commands.create("hello", "Prints hello world", |_args| Ok(0));
    commands.create("foo", "Prints foo", |_args| Ok(0));
    let out = commands.run();
    // Both `hello` and `help` are within distance 1, in registry order.
    assert_eq!(
        out,
        vec![
            "May you mean:".to_string(),
            "    hello".to_string(),
            "    help".to_string(),
        ]
    );
}

#[test]
fn help_without_topics_is_usage() {
    let mut commands = registry(&["prog", "help"]);
    commands.create("foo", "Does foo", |_args| Ok(0));
    let out = commands.run();
    let expected = usage_block("prog", &[("foo", "Does foo"), ("help", "Print help")]);
    assert_eq!(out, expected);
}

#[test]
fn help_with_topics_reports_each_one() {
    let mut commands = registry(&["prog", "help", "foo", "nope"]);
    commands.create("foo", "Does foo", |_args| Ok(0));
    let out = commands.run();
    let mut expected = vec![
        "Usage: foo - Does foo".to_string(),
        "Command not found: nope".to_string(),
    ];
    expected.extend(usage_block("prog", &[("foo", "Does foo"), ("help", "Print help")]));
    assert_eq!(out, expected);
}

#[test]
fn registered_help_handler_is_never_invoked() {
    let mut commands = registry(&["prog", "help"]);
    commands.create("help", "custom help", |_args| {
        Err("handler must not run".to_string())
    });
    let out = commands.run();
    let expected = usage_block("prog", &[("help", "custom help")]);
    assert_eq!(out, expected);
}

#[test]
fn empty_name_is_legal() {
    let mut commands = registry(&["prog"]);
    commands.create("", "nameless", |_args| Ok(0));
    assert_eq!(
        commands.command_usage(""),
        vec!["Usage:  - nameless".to_string()]
    );
}
