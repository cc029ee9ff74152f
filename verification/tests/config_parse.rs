use catapult::config::{parse_config, ProcessorDecl};
use catapult::grammar::Failure;

fn param<'a>(decl: &'a ProcessorDecl, name: &str) -> Option<&'a str> {
    decl.params.as_ref().and_then(|p| p.get(name)).map(|s| s.as_str())
}

fn names(decls: &[ProcessorDecl]) -> Vec<&str> {
    decls.iter().map(|d| d.name.as_str()).collect()
}

#[test]
fn single_input_without_parameters() {
    let src = b"input { stdin }";
    let (pos, c) = parse_config(src).unwrap();
    assert_eq!(pos, src.len());
    assert_eq!(names(&c.inputs), vec!["stdin"]);
    assert!(c.inputs[0].params.is_none());
    assert!(c.outputs.is_empty());
}

#[test]
fn documented_network_input() {
    let src = b"input {\n  network {\n    listenPort = 6667\n  }\n}\n";
    let (pos, c) = parse_config(src).unwrap();
    assert_eq!(pos, src.len());
    assert_eq!(names(&c.inputs), vec!["network"]);
    assert_eq!(param(&c.inputs[0], "listenPort"), Some("6667"));
    assert!(c.outputs.is_empty());
}

#[test]
fn documented_file_output() {
    let src = b"output {\n\tfile {\n\t\tdirectory = \"./logs/\"\n\t}\n}\n";
    let (pos, c) = parse_config(src).unwrap();
    assert_eq!(pos, src.len());
    assert!(c.inputs.is_empty());
    assert_eq!(names(&c.outputs), vec!["file"]);
    assert_eq!(param(&c.outputs[0], "directory"), Some("./logs/"));
}

#[test]
fn documented_stdout_output() {
    let src = b"output {\n  stdout\n}\n";
    let (pos, c) = parse_config(src).unwrap();
    assert_eq!(pos, src.len());
    assert_eq!(names(&c.outputs), vec!["stdout"]);
    assert!(c.outputs[0].params.is_none());
}

#[test]
fn inputs_and_outputs_together() {
    let src = b"input {\n  random {\n    fieldlist = \"a:string\"\n    rate = 10\n  }\n}\noutput {\n  stdout\n}\ninput { stdin }\n";
    let (pos, c) = parse_config(src).unwrap();
    assert_eq!(pos, src.len());
    assert_eq!(names(&c.inputs), vec!["random", "stdin"]);
    assert_eq!(names(&c.outputs), vec!["stdout"]);
    assert_eq!(param(&c.inputs[0], "fieldlist"), Some("a:string"));
    assert_eq!(param(&c.inputs[0], "rate"), Some("10"));
}

#[test]
fn quoted_value_keeps_spaces_and_hashes() {
    let src = b"input {\n file {\n path = \"/var/log # x\"\n }\n}\n";
    let (_, c) = parse_config(src).unwrap();
    assert_eq!(param(&c.inputs[0], "path"), Some("/var/log # x"));
}

#[test]
fn later_parameter_with_same_name_wins() {
    let src = b"input {\n stdin {\n a = 1\n b=2\n a = 3\n }\n}\n";
    let (_, c) = parse_config(src).unwrap();
    assert_eq!(param(&c.inputs[0], "a"), Some("3"));
    assert_eq!(param(&c.inputs[0], "b"), Some("2"));
    assert_eq!(c.inputs[0].params.as_ref().unwrap().as_pairs().len(), 2);
}

#[test]
fn unquoted_value_stops_at_comment() {
    let src = b"input {\n stdin {\n a = 1 # the first\n }\n}\n";
    let (pos, c) = parse_config(src).unwrap();
    assert_eq!(pos, src.len());
    assert_eq!(param(&c.inputs[0], "a"), Some("1 "));
}

#[test]
fn several_processors_in_order() {
    let src = b"input {\n stdin\n none\n file {\n p = x\n }\n in2\n}\n";
    let (_, c) = parse_config(src).unwrap();
    assert_eq!(names(&c.inputs), vec!["stdin", "none", "file", "in2"]);
    assert_eq!(param(&c.inputs[2], "p"), Some("x"));
}

#[test]
fn empty_section() {
    let (pos, c) = parse_config(b"input{}").unwrap();
    assert_eq!(pos, 7);
    assert!(c.inputs.is_empty() && c.outputs.is_empty());
}

#[test]
fn reading_stops_after_the_last_section() {
    let src = b"input { stdin }\nfilters { x }";
    let (pos, c) = parse_config(src).unwrap();
    assert_eq!(pos, 16);
    assert_eq!(c.inputs.len(), 1);
}

#[test]
fn line_and_paragraph_separators_are_blank_space() {
    let src = "input\u{2028}{\u{2029}stdin }".as_bytes();
    let (pos, c) = parse_config(src).unwrap();
    assert_eq!(pos, src.len());
    assert_eq!(names(&c.inputs), vec!["stdin"]);
}

#[test]
fn comment_between_processors() {
    let src = b"input {\n # the console\n stdin\n}\n";
    let (pos, c) = parse_config(src).unwrap();
    assert_eq!(pos, src.len());
    assert_eq!(c.inputs.len(), 1);
}

#[test]
fn trailing_comment_without_newline_is_incomplete() {
    assert_eq!(parse_config(b"input { stdin } # end").err(), Some(Failure::Incomplete));
}

#[test]
fn truncated_keyword_is_incomplete() {
    assert_eq!(parse_config(b"inp").err(), Some(Failure::Incomplete));
    assert_eq!(parse_config(b"outp").err(), Some(Failure::Incomplete));
    assert_eq!(parse_config(b"").err(), Some(Failure::Incomplete));
}

#[test]
fn missing_closing_brace_is_incomplete() {
    assert_eq!(parse_config(b"input {").err(), Some(Failure::Incomplete));
    assert_eq!(parse_config(b"input { stdin").err(), Some(Failure::Incomplete));
}

#[test]
fn unknown_section_is_an_error() {
    assert_eq!(parse_config(b"filters { x }").err(), Some(Failure::Error));
}

#[test]
fn unquoted_value_at_end_of_file_is_an_error() {
    assert_eq!(parse_config(b"input { file { path = /var/log } }").err(), Some(Failure::Error));
}

#[test]
fn invalid_utf8_value_is_an_error() {
    assert_eq!(parse_config(b"input {\n stdin {\n a = \xff\n }\n}\n").err(), Some(Failure::Error));
}

#[test]
fn carriage_return_line_endings() {
    let src = b"input {\r\n stdin {\r\n a = 1\r\n }\r\n}\r\n";
    let (pos, c) = parse_config(src).unwrap();
    assert_eq!(pos, src.len());
    assert_eq!(param(&c.inputs[0], "a"), Some("1"));
}

#[test]
fn parameter_names_are_letters_and_digits() {
    assert_eq!(parse_config(b"input {\n stdin {\n a-b = 1\n }\n}\n").err(), Some(Failure::Error));
    let src = b"input {\n stdin {\n Ab9 = 1\n x2=\"y\"\n }\n}\n";
    let (_, c) = parse_config(src).unwrap();
    for (k, _) in c.inputs[0].params.as_ref().unwrap().as_pairs() {
        assert!(!k.is_empty() && k.chars().all(|ch| ch.is_ascii_alphanumeric()));
    }
    assert_eq!(c.inputs[0].params.as_ref().unwrap().as_pairs().len(), 2);
}

#[test]
fn nothing_may_come_before_the_first_section() {
    assert_eq!(parse_config(b"\ninput{}").err(), Some(Failure::Error));
    assert_eq!(parse_config(b"# c\ninput { stdin }").err(), Some(Failure::Error));
    assert_eq!(parse_config(b" output { stdout }").err(), Some(Failure::Error));
}
