use json_print::env::{MetaVarEnv, NodeMatch};
use json_print::node::Node;
use json_print::printer::JSONPrinter;

fn node(text: &str, start_byte: usize, line: usize, column: usize) -> Node {
    Node {
        text: text.to_string(),
        start_byte,
        end_byte: start_byte + text.len(),
        start_pos: (line, column),
        end_pos: (line, column + text.len()),
    }
}

fn empty_env() -> MetaVarEnv {
    MetaVarEnv { variables: vec![], single: vec![], multi: vec![], labels: vec![] }
}

fn plain_match(text: &str, start_byte: usize, line: usize, column: usize) -> NodeMatch {
    NodeMatch {
        node: node(text, start_byte, line, column),
        language: "JavaScript".to_string(),
        env: empty_env(),
    }
}

fn text_of(printer: &JSONPrinter) -> String {
    String::from_utf8(printer.output().clone()).unwrap()
}

#[test]
fn one_match_prints_one_record() {
    let mut printer = JSONPrinter::new(Vec::new());
    printer.before_print();
    let result = printer.print_matches(vec![plain_match("foo", 4, 1, 2)], "src/a.js");
    assert_eq!(result, Ok(()));
    printer.after_print();
    println!("{}", text_of(&printer));
    let expected = "[\n{\n  \"text\": \"foo\",\n  \"range\": {\n    \"byteOffset\": [\n      4,\n      7\n    ],\n    \"start\": {\n      \"line\": 1,\n      \"column\": 2\n    },\n    \"end\": {\n      \"line\": 1,\n      \"column\": 5\n    }\n  },\n  \"file\": \"src/a.js\",\n  \"language\": \"JavaScript\"\n}\n]\n";
    assert_eq!(text_of(&printer), expected);
}

fn bytes(text: &str) -> Vec<u8> {
    text.as_bytes().to_vec()
}

#[test]
fn nothing_printed_gives_empty_array() {
    let mut printer = JSONPrinter::new(Vec::new());
    printer.before_print();
    assert_eq!(printer.print_matches(vec![], "a.js"), Ok(()));
    assert_eq!(printer.print_diffs(vec![], "b.js"), Ok(()));
    printer.print_rendered(&vec![]);
    assert_eq!(printer.print_docs(vec![]), Ok(()));
    assert!(!printer.matched());
    printer.after_print();
    assert_eq!(text_of(&printer), "[]\n");
    let parsed: serde_json::Value = serde_json::from_slice(printer.output()).unwrap();
    assert_eq!(parsed, serde_json::Value::Array(vec![]));
}

#[test]
fn empty_batch_between_two_records() {
    let mut printer = JSONPrinter::new(Vec::new());
    printer.before_print();
    printer.print_rendered(&vec![bytes("{\"m\": 1}")]);
    printer.print_rendered(&vec![]);
    printer.print_rendered(&vec![bytes("{\"m\": 2}")]);
    printer.after_print();
    assert_eq!(text_of(&printer), "[\n{\"m\": 1},\n{\"m\": 2}\n]\n");
}

#[test]
fn empty_batch_between_two_matches() {
    let mut printer = JSONPrinter::new(Vec::new());
    printer.before_print();
    assert_eq!(printer.print_matches(vec![plain_match("m1", 0, 0, 0)], "a.js"), Ok(()));
    let after_first = text_of(&printer);
    assert_eq!(printer.print_matches(vec![], "b.js"), Ok(()));
    assert_eq!(text_of(&printer), after_first);
    assert_eq!(printer.print_matches(vec![plain_match("m2", 9, 3, 1)], "c.js"), Ok(()));
    printer.after_print();

    let mut first = JSONPrinter::new(Vec::new());
    first.print_matches(vec![plain_match("m1", 0, 0, 0)], "a.js").unwrap();
    let mut second = JSONPrinter::new(Vec::new());
    second.print_matches(vec![plain_match("m2", 9, 3, 1)], "c.js").unwrap();
    let record_1 = text_of(&first);
    let record_2 = text_of(&second);
    assert!(record_1.starts_with("\n{"));
    assert!(record_2.starts_with("\n{"));
    let expected = format!("[{},{}\n]\n", record_1, record_2);
    assert_eq!(text_of(&printer), expected);
}

#[test]
fn batch_of_three_is_separated_by_commas() {
    let mut printer = JSONPrinter::new(Vec::new());
    printer.print_rendered(&vec![bytes("1"), bytes("2"), bytes("3")]);
    assert!(printer.matched());
    assert_eq!(text_of(&printer), "\n1,\n2,\n3");
    printer.print_rendered(&vec![bytes("4"), bytes("5")]);
    assert_eq!(text_of(&printer), "\n1,\n2,\n3,\n4,\n5");
}

#[test]
fn printer_writes_behind_what_the_sink_holds() {
    let mut printer = JSONPrinter::new(bytes("head "));
    assert!(!printer.matched());
    printer.before_print();
    printer.print_rendered(&vec![bytes("true")]);
    printer.after_print();
    assert_eq!(text_of(&printer), "head [\ntrue\n]\n");
}

#[test]
fn closing_without_records_writes_no_blank_line() {
    let mut printer = JSONPrinter::new(Vec::new());
    printer.after_print();
    assert_eq!(text_of(&printer), "]\n");
    let mut printed = JSONPrinter::new(Vec::new());
    printed.print_rendered(&vec![bytes("0")]);
    printed.after_print();
    assert_eq!(text_of(&printed), "\n0\n]\n");
}

#[test]
fn taking_the_output_keeps_the_state() {
    let mut printer = JSONPrinter::new(Vec::new());
    printer.before_print();
    printer.print_rendered(&vec![bytes("1")]);
    let mut written = printer.take_output();
    assert_eq!(written, bytes("[\n1"));
    assert!(printer.output().is_empty());
    assert!(printer.matched());
    printer.print_rendered(&vec![bytes("2")]);
    written.extend(printer.take_output());
    printer.after_print();
    written.extend(printer.take_output());
    assert_eq!(String::from_utf8(written).unwrap(), "[\n1,\n2\n]\n");
}

#[test]
fn two_batches_in_either_order_parse_as_one_array() {
    let batch_1 = || vec![plain_match("a1", 0, 0, 0), plain_match("a2", 5, 1, 0)];
    let batch_2 = || vec![plain_match("b1", 2, 0, 2), plain_match("b2", 7, 1, 2), plain_match("b3", 9, 2, 0)];
    let texts = |parsed: &serde_json::Value| -> Vec<String> {
        parsed
            .as_array()
            .unwrap()
            .iter()
            .map(|record| record["text"].as_str().unwrap().to_string())
            .collect()
    };

    let mut printer = JSONPrinter::new(Vec::new());
    printer.before_print();
    printer.print_matches(batch_1(), "a.js").unwrap();
    printer.print_matches(batch_2(), "b.js").unwrap();
    printer.after_print();
    let parsed: serde_json::Value = serde_json::from_slice(printer.output()).unwrap();
    assert_eq!(texts(&parsed), vec!["a1", "a2", "b1", "b2", "b3"]);

    let mut printer = JSONPrinter::new(Vec::new());
    printer.before_print();
    printer.print_matches(batch_2(), "b.js").unwrap();
    printer.print_matches(batch_1(), "a.js").unwrap();
    printer.after_print();
    let parsed: serde_json::Value = serde_json::from_slice(printer.output()).unwrap();
    assert_eq!(texts(&parsed), vec!["b1", "b2", "b3", "a1", "a2"]);
}

#[test]
fn test_invariant() {
    let mut printer = JSONPrinter::new(Vec::new());
    printer.before_print();
    for file in ["a.js", "b.js", "c.js", "d.js"] {
        let batch = if file == "b.js" { vec![] } else { vec![plain_match("x", 1, 0, 1), plain_match("y", 3, 0, 3)] };
        printer.print_matches(batch, file).unwrap();
    }
    printer.after_print();
    let text = text_of(&printer);
    assert!(text.starts_with("[\n{"));
    assert!(text.ends_with("}\n]\n"));
    assert_eq!(text.matches("},\n{").count(), 5);
    let parsed: serde_json::Value = serde_json::from_slice(printer.output()).unwrap();
    assert_eq!(parsed.as_array().unwrap().len(), 6);
}
