use teloxide_macros::attr::{parse_attrs, Attr};
use teloxide_macros::command::{
    rename_by_rule, select_strategy, Command, CommandEnum, FieldShape, ParserKind, RenameRule,
    SpecError, Strategy, Variant,
};
use teloxide_macros::command_set::{compile, CommandSet};
use teloxide_macros::parse::{Arguments, ParseError, Parsed};

fn attr(name: &str, value: &str) -> Attr {
    Attr { name: name.to_string(), value: value.to_string() }
}

fn variant(ident: &str, attrs: Vec<Attr>, shape: FieldShape) -> Variant {
    Variant { ident: ident.to_string(), attrs, doc: vec![], shape }
}

fn start_and_help() -> CommandSet {
    let variants = vec![
        variant("Start", vec![], FieldShape::Unit),
        variant("Help", vec![attr("description", "show help")], FieldShape::Unit),
    ];
    compile(&vec![], &variants).unwrap()
}

fn index_of(r: Result<Parsed, ParseError>) -> usize {
    r.unwrap().index
}

#[test]
fn start_and_help_parse() {
    let set = start_and_help();
    let start = set.parse("/start", "mybot").unwrap();
    assert_eq!(start.index, 0);
    assert!(matches!(start.args, Arguments::Empty));
    let help = set.parse("/help extra", "mybot").unwrap();
    assert_eq!(help.index, 1);
    assert!(matches!(help.args, Arguments::Empty));
}

#[test]
fn unknown_command_is_reported_with_its_text() {
    let set = start_and_help();
    match set.parse("/unknown", "mybot") {
        Err(ParseError::UnknownCommand(c)) => assert_eq!(c, "/unknown"),
        other => panic!("{:?}", other),
    }
}

#[test]
fn mention_of_another_bot_is_refused() {
    let set = start_and_help();
    match set.parse("/start@otherbot", "mybot") {
        Err(ParseError::WrongBotName(n)) => assert_eq!(n, "otherbot"),
        other => panic!("{:?}", other),
    }
}

#[test]
fn mention_of_this_bot_ignores_case() {
    let set = start_and_help();
    assert_eq!(index_of(set.parse("/start@mybot", "mybot")), 0);
    assert_eq!(index_of(set.parse("/start@MyBot", "mybot")), 0);
}

#[test]
fn first_whitespace_run_separates_arguments() {
    let variants = vec![variant("Echo", vec![], FieldShape::Unnamed(1))];
    let set = compile(&vec![], &variants).unwrap();
    match set.parse("/echo \t hi", "bot").unwrap().args {
        Arguments::Split(v) => assert_eq!(v, vec!["hi"]),
        other => panic!("{:?}", other),
    }
}

fn pair_set() -> CommandSet {
    let variants = vec![variant("Pair", vec![], FieldShape::Unnamed(2))];
    compile(&vec![], &variants).unwrap()
}

#[test]
fn two_fields_split_on_space() {
    match pair_set().parse("/pair a b", "bot").unwrap().args {
        Arguments::Split(v) => assert_eq!(v, vec!["a", "b"]),
        other => panic!("{:?}", other),
    }
}

#[test]
fn too_few_arguments() {
    match pair_set().parse("/pair a", "bot") {
        Err(ParseError::TooFewArguments { expected, found }) => {
            assert_eq!(expected, 2);
            assert_eq!(found, 1);
        },
        other => panic!("{:?}", other),
    }
}

#[test]
fn too_many_arguments() {
    match pair_set().parse("/pair a b c", "bot") {
        Err(ParseError::TooManyArguments { expected, found }) => {
            assert_eq!(expected, 2);
            assert_eq!(found, 3);
        },
        other => panic!("{:?}", other),
    }
}

#[test]
fn named_fields_split_with_custom_separator() {
    let variants = vec![variant("SetAge", vec![], FieldShape::Named(2))];
    let set = compile(&vec![attr("separator", ",")], &variants).unwrap();
    match set.parse("/set_age bob,42", "bot").unwrap().args {
        Arguments::Split(v) => assert_eq!(v, vec!["bob", "42"]),
        other => panic!("{:?}", other),
    }
}

#[test]
fn custom_parser_gets_the_whole_text() {
    let variants = vec![variant(
        "Roll",
        vec![attr("parser", "parse_dice")],
        FieldShape::Unnamed(2),
    )];
    let set = compile(&vec![], &variants).unwrap();
    match set.parse("/roll 2d6 + 3", "bot").unwrap().args {
        Arguments::Custom { parser, text } => {
            assert_eq!(parser, "parse_dice");
            assert_eq!(text, "2d6 + 3");
        },
        other => panic!("{:?}", other),
    }
}

#[test]
fn local_split_overrides_global_custom_parser() {
    let variants = vec![
        variant("A", vec![], FieldShape::Unnamed(1)),
        variant("B", vec![attr("parser", "split")], FieldShape::Unnamed(1)),
    ];
    let set = compile(&vec![attr("parser", "global_fn")], &variants).unwrap();
    assert!(matches!(set.parse("/a x", "bot").unwrap().args, Arguments::Custom { .. }));
    assert!(matches!(set.parse("/b x", "bot").unwrap().args, Arguments::Split(_)));
}

fn ordered_set() -> CommandSet {
    let variants = vec![
        variant("Zeta", vec![attr("description", "last letter")], FieldShape::Unit),
        variant("Alpha", vec![attr("description", "first letter")], FieldShape::Unit),
        variant("Secret", vec![attr("description", "off")], FieldShape::Unit),
        variant("Mid", vec![attr("hide", "")], FieldShape::Unit),
        variant("Beta", vec![], FieldShape::Unit),
    ];
    compile(&vec![attr("description", "All commands:")], &variants).unwrap()
}

#[test]
fn descriptions_keep_declaration_order() {
    let d = ordered_set().descriptions();
    let rows: Vec<(String, String, String)> = d
        .descriptions
        .iter()
        .map(|r| (r.prefix.clone(), r.command.clone(), r.description.clone()))
        .collect();
    assert_eq!(
        rows,
        vec![
            ("/".to_string(), "zeta".to_string(), "last letter".to_string()),
            ("/".to_string(), "alpha".to_string(), "first letter".to_string()),
            ("/".to_string(), "beta".to_string(), "".to_string()),
        ]
    );
    assert_eq!(d.global_description.as_deref(), Some("All commands:"));
}

#[test]
fn command_list_keeps_declaration_order() {
    let list: Vec<(String, String)> = ordered_set()
        .bot_commands()
        .into_iter()
        .map(|c| (c.command, c.description))
        .collect();
    assert_eq!(
        list,
        vec![
            ("/zeta".to_string(), "last letter".to_string()),
            ("/alpha".to_string(), "first letter".to_string()),
            ("/beta".to_string(), "".to_string()),
        ]
    );
}

#[test]
fn hidden_commands_still_parse() {
    let set = ordered_set();
    assert_eq!(index_of(set.parse("/secret", "bot")), 2);
    assert_eq!(index_of(set.parse("/mid", "bot")), 3);
    assert!(set.commands[2].hidden);
    assert!(set.commands[3].hidden);
    assert_eq!(set.commands[2].description, "");
}

#[test]
fn doc_comment_becomes_description() {
    let mut v = variant("Start", vec![], FieldShape::Unit);
    v.doc = vec![" Starts the bot.".to_string()];
    let mut w = variant("Stop", vec![attr("description", "explicit")], FieldShape::Unit);
    w.doc = vec![" ignored".to_string()];
    let set = compile(&vec![], &vec![v, w]).unwrap();
    assert_eq!(set.commands[0].description, "Starts the bot.");
    assert_eq!(set.commands[1].description, "explicit");
}

#[test]
fn prefix_and_rename_overrides() {
    let variants = vec![
        variant("Start", vec![attr("prefix", "!")], FieldShape::Unit),
        variant("Help", vec![attr("rename", "h")], FieldShape::Unit),
    ];
    let set = compile(&vec![attr("prefix", "#")], &variants).unwrap();
    let list: Vec<String> = set.bot_commands().into_iter().map(|c| c.command).collect();
    assert_eq!(list, vec!["!start", "#h"]);
    assert_eq!(index_of(set.parse("#h", "bot")), 1);
}

#[test]
fn enumeration_rename_rule_applies_to_every_variant() {
    let variants = vec![variant("GetUserName", vec![], FieldShape::Unit)];
    let set = compile(&vec![attr("rename", "camelCase")], &variants).unwrap();
    assert_eq!(set.commands[0].token, "getUserName");
}

#[test]
fn rename_rules() {
    assert_eq!(rename_by_rule("HelloWorld", RenameRule::Lowercase), "helloworld");
    assert_eq!(rename_by_rule("HelloWorld", RenameRule::Uppercase), "HELLOWORLD");
    assert_eq!(rename_by_rule("hello_world", RenameRule::PascalCase), "HelloWorld");
    assert_eq!(rename_by_rule("HelloWorld", RenameRule::CamelCase), "helloWorld");
    assert_eq!(rename_by_rule("HelloWorld", RenameRule::SnakeCase), "hello_world");
    assert_eq!(rename_by_rule("HelloWorld", RenameRule::KebabCase), "hello-world");
    assert_eq!(rename_by_rule("HelloWorld", RenameRule::ScreamingSnakeCase), "HELLO_WORLD");
    assert_eq!(rename_by_rule("HelloWorld", RenameRule::ScreamingKebabCase), "HELLO-WORLD");
}

#[test]
fn global_defaults() {
    let g = CommandEnum::try_from(&vec![]).unwrap();
    assert_eq!(g.prefix, "/");
    assert_eq!(g.separator, " ");
    assert!(matches!(g.parser, ParserKind::Split));
    assert!(g.description.is_none());
    assert_eq!(g.rename_rule, RenameRule::SnakeCase);
}

#[test]
fn later_attribute_wins() {
    let set = parse_attrs(&vec![attr("prefix", "!"), attr("prefix", "?")]).unwrap();
    assert_eq!(set.prefix.as_deref(), Some("?"));
    assert!(!set.hide);
}

#[test]
fn unrecognized_attribute_is_named() {
    match parse_attrs(&vec![attr("prefix", "!"), attr("descripton", "x"), attr("bad", "")]) {
        Err(name) => assert_eq!(name, "descripton"),
        Ok(_) => panic!("accepted"),
    }
}

fn errors_of(enum_attrs: Vec<Attr>, variants: Vec<Variant>) -> Vec<SpecError> {
    match compile(&enum_attrs, &variants) {
        Err(es) => es,
        Ok(_) => panic!("accepted"),
    }
}

#[test]
fn enumeration_errors() {
    let one = || vec![variant("Start", vec![], FieldShape::Unit)];
    let es = errors_of(vec![attr("prefx", "/")], one());
    assert!(matches!(&es[..], [SpecError::UnrecognizedAttribute(n)] if n == "prefx"));
    let es = errors_of(vec![attr("rename", "Title Case")], one());
    assert!(matches!(&es[..], [SpecError::UnknownRenameRule(n)] if n == "Title Case"));
    let es = errors_of(vec![attr("separator", "")], one());
    assert!(matches!(&es[..], [SpecError::EmptySeparator]));
    let es = errors_of(vec![], vec![]);
    assert!(matches!(&es[..], [SpecError::NoVariants]));
}

#[test]
fn every_variant_error_is_reported() {
    let variants = vec![
        variant("A", vec![attr("nope", "")], FieldShape::Unit),
        variant("B", vec![], FieldShape::Unit),
        variant("C", vec![attr("separator", "")], FieldShape::Unit),
    ];
    let es = errors_of(vec![], variants);
    assert_eq!(es.len(), 2);
    assert!(matches!(&es[0], SpecError::UnrecognizedAttribute(n) if n == "nope"));
    assert!(matches!(&es[1], SpecError::EmptySeparator));
}

#[test]
fn duplicate_command_text_is_refused() {
    let variants = vec![
        variant("Start", vec![], FieldShape::Unit),
        variant("Begin", vec![attr("rename", "start")], FieldShape::Unit),
    ];
    let es = errors_of(vec![], variants);
    assert!(matches!(&es[..], [SpecError::DuplicateCommand(m)] if m == "/start"));
}

#[test]
fn strategy_selection() {
    assert!(matches!(select_strategy(FieldShape::Unit, &ParserKind::Split, " "), Strategy::NoArguments));
    assert!(matches!(
        select_strategy(FieldShape::Named(0), &ParserKind::Custom("f".to_string()), " "),
        Strategy::NoArguments
    ));
    match select_strategy(FieldShape::Unnamed(3), &ParserKind::Split, ";") {
        Strategy::SplitOnSeparator { arity, separator } => {
            assert_eq!(arity, 3);
            assert_eq!(separator, ";");
        },
        other => panic!("{:?}", other),
    }
    match select_strategy(FieldShape::Named(1), &ParserKind::Custom("f".to_string()), " ") {
        Strategy::CustomParser(f) => assert_eq!(f, "f"),
        other => panic!("{:?}", other),
    }
}

#[test]
fn resolve_single_command() {
    let g = CommandEnum::try_from(&vec![]).unwrap();
    let c: Command = Command::resolve(&g, &variant("ShowAll", vec![], FieldShape::Unit)).unwrap();
    assert_eq!(c.ident, "ShowAll");
    assert_eq!(c.token, "show_all");
    assert_eq!(c.prefix, "/");
    assert!(!c.hidden);
}
