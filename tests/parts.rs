use teloxide_macros::doc::{is_blank, process_doc_comment};
use teloxide_macros::parts::Parts;

fn fragments(input: &str) -> Vec<String> {
    (*Parts::from(input)).clone()
}

#[test]
fn test_parts_from_str() {
    let expected = ["hello", "world"];

    assert_eq!(*Parts::from("HelloWorld"), &expected[..]);
    assert_eq!(*Parts::from("helloWorld"), &expected[..]);
    assert_eq!(*Parts::from("HELLOWORLD"), ["helloworld"].as_slice());
    assert_eq!(*Parts::from("helloworld"), ["helloworld"].as_slice());
    assert_eq!(*Parts::from("HelLo_WoRld"), &expected[..]);
    assert_eq!(*Parts::from("hello_world"), &expected[..]);
    assert_eq!(*Parts::from("HELLO_WORLD"), &expected[..]);
    assert_eq!(*Parts::from("Hello_World"), &expected[..]);
    assert_eq!(*Parts::from("hello-world"), &expected[..]);
    assert_eq!(*Parts::from("HELLO-WORLD"), &expected[..]);
    assert_eq!(*Parts::from("Hello-World"), &expected[..]);
}

#[test]
fn mixed_and_delimited_names_give_two_words() {
    for name in ["HelloWorld", "helloWorld", "Hello_World", "hello-world", "HELLO_WORLD"] {
        assert_eq!(fragments(name), vec!["hello", "world"], "{}", name);
    }
}

#[test]
fn all_caps_and_all_small_give_one_word() {
    assert_eq!(fragments("HELLOWORLD"), vec!["helloworld"]);
    assert_eq!(fragments("helloworld"), vec!["helloworld"]);
}

#[test]
fn empty_name_gives_one_empty_fragment() {
    assert_eq!(fragments(""), vec![""]);
}

#[test]
fn delimiters_alone_give_no_fragment() {
    assert_eq!(fragments("__"), Vec::<String>::new());
    assert_eq!(fragments("-"), Vec::<String>::new());
}

#[test]
fn trailing_and_repeated_delimiters_are_dropped() {
    assert_eq!(fragments("hello__world_"), vec!["hello", "world"]);
    assert_eq!(fragments("_start"), vec!["start"]);
}

#[test]
fn digits_stay_in_their_word() {
    assert_eq!(fragments("Start2Go"), vec!["start2", "go"]);
}

#[test]
fn from_ident_agrees_with_from() {
    assert_eq!(*Parts::from_ident("GetUserName"), *Parts::from("GetUserName"));
    assert_eq!(fragments("GetUserName"), vec!["get", "user", "name"]);
}

#[test]
fn renderings_of_hello_world() {
    let p = Parts::from("hello_world");
    assert_eq!(p.to_pascalcase(), "HelloWorld");
    assert_eq!(p.to_camelcase(), "helloWorld");
    assert_eq!(p.to_snakecase(), "hello_world");
    assert_eq!(p.to_kebabcase(), "hello-world");
    assert_eq!(p.to_screaming_snakecase(), "HELLO_WORLD");
    assert_eq!(p.to_screaming_kebabcase(), "HELLO-WORLD");
}

#[test]
fn renderings_of_nothing_are_empty() {
    let p = Parts::from("_");
    assert_eq!(p.to_pascalcase(), "");
    assert_eq!(p.to_camelcase(), "");
    assert_eq!(p.to_snakecase(), "");
    assert_eq!(p.to_kebabcase(), "");
    assert_eq!(p.to_screaming_snakecase(), "");
    assert_eq!(p.to_screaming_kebabcase(), "");
}

#[test]
fn renderings_of_three_words() {
    let p = Parts::from("getUserName");
    assert_eq!(p.to_pascalcase(), "GetUserName");
    assert_eq!(p.to_camelcase(), "getUserName");
    assert_eq!(p.to_snakecase(), "get_user_name");
    assert_eq!(p.to_screaming_kebabcase(), "GET-USER-NAME");
}

#[test]
fn screaming_uses_full_unicode_uppercase() {
    let p = Parts::from("straße_x");
    assert_eq!(p.to_screaming_snakecase(), "STRASSE_X");
}

#[test]
fn snake_case_round_trip_keeps_fragments() {
    for name in ["HelloWorld", "hello_World", "A", "ABC_def", "x-Y-z", "aBcD", ""] {
        let first = fragments(name);
        let snake = Parts::from(name).to_snakecase();
        assert_eq!(fragments(&snake), first, "{}", name);
    }
}

#[test]
fn doc_comment_lines_are_trimmed_and_joined() {
    let lines = vec![
        "".to_string(),
        "  ".to_string(),
        " First line.".to_string(),
        "  indented".to_string(),
        " ".to_string(),
        "".to_string(),
    ];
    assert_eq!(process_doc_comment(lines), "First line.\n indented");
}

#[test]
fn doc_comment_blocks_are_cut_at_line_feeds() {
    let lines = vec!["\n one\n two\n".to_string()];
    assert_eq!(process_doc_comment(lines), "one\ntwo");
}

#[test]
fn doc_comment_keeps_inner_blank_lines() {
    let lines = vec![" a".to_string(), "".to_string(), " b".to_string()];
    assert_eq!(process_doc_comment(lines), "a\n\nb");
}

#[test]
fn empty_doc_comment_gives_empty_text() {
    assert_eq!(process_doc_comment(vec![]), "");
    assert_eq!(process_doc_comment(vec![" ".to_string()]), "");
}

#[test]
fn blank_lines() {
    assert!(is_blank(""));
    assert!(is_blank(" \t\u{3000}"));
    assert!(!is_blank(" x "));
}
