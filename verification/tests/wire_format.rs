use json_print::env::{Diff, MetaVarEnv, MetaVariable, NodeMatch};
use json_print::node::{ByteOffset, Node, Position, Range};
use json_print::printer::{render, JSONPrinter};
use json_print::record::{MatchJSON, MatchNode, MetaVariables, RuleMatchJSON};
use json_print::rule::{RuleConfig, RuleDiff, RuleMatch, Severity};
use json_print::wire::{
    match_value, meta_variables_value, node_value, nodes_value, position_value, range_value,
    rule_match_value, severity_name,
};

fn node(text: &str, start_byte: usize, line: usize, column: usize) -> Node {
    Node {
        text: text.to_string(),
        start_byte,
        end_byte: start_byte + text.len(),
        start_pos: (line, column),
        end_pos: (line, column + text.len()),
    }
}

fn call_match() -> NodeMatch {
    NodeMatch {
        node: node("log(foo, 1)", 10, 2, 4),
        language: "TypeScript".to_string(),
        env: MetaVarEnv {
            variables: vec![
                MetaVariable::Named("A".to_string()),
                MetaVariable::NamedEllipsis("REST".to_string()),
            ],
            single: vec![("A".to_string(), node("foo", 14, 2, 8))],
            multi: vec![("REST".to_string(), vec![node("1", 19, 2, 13)])],
            labels: vec![("secondary".to_string(), vec![node("log", 10, 2, 4)])],
        },
    }
}

fn plain_match() -> NodeMatch {
    NodeMatch {
        node: node("x", 0, 0, 0),
        language: "Rust".to_string(),
        env: MetaVarEnv { variables: vec![], single: vec![], multi: vec![], labels: vec![] },
    }
}

fn printed(printer: &JSONPrinter) -> serde_json::Value {
    serde_json::from_slice(printer.output()).unwrap()
}

fn keys(value: &serde_json::Value) -> Vec<String> {
    value.as_object().unwrap().keys().cloned().collect()
}

#[test]
fn position_is_an_object_of_line_and_column() {
    let value = position_value(&Position { line: 3, column: 14 });
    assert_eq!(String::from_utf8(render(&value).unwrap()).unwrap(), "{\n  \"line\": 3,\n  \"column\": 14\n}");
}

#[test]
fn range_holds_offsets_and_positions() {
    let range = Range {
        byte_offset: ByteOffset { start: 5, end: 9 },
        start: Position { line: 0, column: 5 },
        end: Position { line: 1, column: 2 },
    };
    let value = range_value(&range);
    assert_eq!(keys(&value), vec!["byteOffset", "start", "end"]);
    assert_eq!(value["byteOffset"][0], 5);
    assert_eq!(value["byteOffset"][1], 9);
    assert_eq!(value["byteOffset"].as_array().unwrap().len(), 2);
    assert_eq!(value["start"]["line"], 0);
    assert_eq!(value["start"]["column"], 5);
    assert_eq!(value["end"]["line"], 1);
    assert_eq!(value["end"]["column"], 2);
}

#[test]
fn largest_offsets_are_written_exactly() {
    let value = position_value(&Position { line: usize::MAX, column: 0 });
    assert_eq!(value["line"].as_u64(), Some(usize::MAX as u64));
}

#[test]
fn snippet_is_text_and_range() {
    let snippet = MatchNode {
        text: "a \"quoted\"\nline".to_string(),
        range: Range {
            byte_offset: ByteOffset { start: 0, end: 15 },
            start: Position { line: 0, column: 0 },
            end: Position { line: 1, column: 4 },
        },
    };
    let value = node_value(&snippet);
    assert_eq!(keys(&value), vec!["text", "range"]);
    assert_eq!(value["text"], "a \"quoted\"\nline");
    assert_eq!(value["range"], range_value(&snippet.range));
    let list = nodes_value(&vec![]);
    assert_eq!(String::from_utf8(render(&list).unwrap()).unwrap(), "[]");
}

#[test]
fn variable_table_has_two_objects() {
    let vars = MetaVariables { single: vec![], multi: vec![] };
    let value = meta_variables_value(&vars);
    assert_eq!(
        String::from_utf8(render(&value).unwrap()).unwrap(),
        "{\n  \"single\": {},\n  \"multi\": {}\n}"
    );
}

#[test]
fn plain_match_has_no_optional_members() {
    let record = MatchJSON::new(plain_match(), "lib.rs");
    let value = match_value(&record);
    assert_eq!(keys(&value), vec!["text", "range", "file", "language"]);
    assert!(value.get("metaVariables").is_none());
    assert!(value.get("replacement").is_none());
    assert_eq!(value["text"], "x");
    assert_eq!(value["file"], "lib.rs");
    assert_eq!(value["language"], "Rust");
}

#[test]
fn bound_variables_are_written() {
    let record = MatchJSON::new(call_match(), "src/app.ts");
    let value = match_value(&record);
    assert_eq!(keys(&value), vec!["text", "range", "file", "language", "metaVariables"]);
    assert_eq!(value["metaVariables"]["single"]["A"]["text"], "foo");
    assert_eq!(value["metaVariables"]["single"]["A"]["range"]["byteOffset"][0], 14);
    assert_eq!(value["metaVariables"]["multi"]["REST"][0]["text"], "1");
    assert_eq!(value["metaVariables"]["multi"]["REST"].as_array().unwrap().len(), 1);
}

#[test]
fn diff_has_replacement_before_language() {
    let diff = Diff { node_match: plain_match(), replacement: "y".to_string() };
    let value = match_value(&MatchJSON::from_diff(diff, "lib.rs"));
    assert_eq!(keys(&value), vec!["text", "range", "file", "replacement", "language"]);
    assert_eq!(value["replacement"], "y");
}

#[test]
fn rule_match_is_flat() {
    let rule = RuleConfig { id: "no-log".to_string(), severity: Severity::Warning };
    let record = RuleMatchJSON::new(call_match(), "src/app.ts", &rule, "no log".to_string());
    let value = rule_match_value(&record);
    assert_eq!(
        keys(&value),
        vec!["text", "range", "file", "language", "metaVariables", "ruleId", "severity", "message", "labels"]
    );
    assert!(value.get("matched").is_none());
    assert_eq!(value["ruleId"], "no-log");
    assert_eq!(value["severity"], "warning");
    assert_eq!(value["message"], "no log");
    assert_eq!(value["labels"][0]["text"], "log");
    let base = match_value(&MatchJSON::new(call_match(), "src/app.ts"));
    for key in keys(&base) {
        assert_eq!(value[&key], base[&key]);
    }
}

#[test]
fn rule_match_without_labels_has_no_labels_member() {
    let rule = RuleConfig { id: "r".to_string(), severity: Severity::Hint };
    let record = RuleMatchJSON::new(plain_match(), "lib.rs", &rule, String::new());
    let value = rule_match_value(&record);
    assert_eq!(keys(&value), vec!["text", "range", "file", "language", "ruleId", "severity", "message"]);
    assert_eq!(value["message"], "");
}

#[test]
fn severities_are_written_in_lower_case() {
    assert_eq!(severity_name(Severity::Hint), "hint");
    assert_eq!(severity_name(Severity::Info), "info");
    assert_eq!(severity_name(Severity::Warning), "warning");
    assert_eq!(severity_name(Severity::Error), "error");
}

#[test]
fn print_rule_writes_each_finding() {
    let rule = RuleConfig { id: "no-log".to_string(), severity: Severity::Error };
    let mut printer = JSONPrinter::new(Vec::new());
    printer.before_print();
    let findings = vec![
        RuleMatch { node_match: call_match(), message: "first".to_string() },
        RuleMatch { node_match: plain_match(), message: "second".to_string() },
    ];
    assert_eq!(printer.print_rule(findings, "src/app.ts", &rule), Ok(()));
    printer.after_print();
    let array = printed(&printer);
    let array = array.as_array().unwrap();
    assert_eq!(array.len(), 2);
    assert_eq!(array[0]["message"], "first");
    assert_eq!(array[1]["message"], "second");
    assert_eq!(array[0]["severity"], "error");
    assert_eq!(array[1]["file"], "src/app.ts");
    assert!(array[0].get("replacement").is_none());
    assert!(array[1].get("labels").is_none());
}

#[test]
fn print_diffs_writes_replacements() {
    let mut printer = JSONPrinter::new(Vec::new());
    printer.before_print();
    let diffs = vec![
        Diff { node_match: plain_match(), replacement: "one".to_string() },
        Diff { node_match: call_match(), replacement: "two".to_string() },
    ];
    assert_eq!(printer.print_diffs(diffs, "lib.rs"), Ok(()));
    printer.after_print();
    let array = printed(&printer);
    assert_eq!(array[0]["replacement"], "one");
    assert_eq!(array[1]["replacement"], "two");
    assert_eq!(array[1]["text"], "log(foo, 1)");
    assert_eq!(array.as_array().unwrap().len(), 2);
}

#[test]
fn print_rule_diffs_writes_both() {
    let rule = RuleConfig { id: "fix".to_string(), severity: Severity::Info };
    let mut printer = JSONPrinter::new(Vec::new());
    printer.before_print();
    let diffs = vec![RuleDiff {
        diff: Diff { node_match: call_match(), replacement: "warn(foo)".to_string() },
        message: "use warn".to_string(),
    }];
    assert_eq!(printer.print_rule_diffs(diffs, "src/app.ts", &rule), Ok(()));
    assert_eq!(printer.print_rule_diffs(vec![], "src/none.ts", &rule), Ok(()));
    printer.after_print();
    let array = printed(&printer);
    assert_eq!(array.as_array().unwrap().len(), 1);
    assert_eq!(array[0]["replacement"], "warn(foo)");
    assert_eq!(array[0]["ruleId"], "fix");
    assert_eq!(array[0]["severity"], "info");
    assert_eq!(array[0]["message"], "use warn");
    assert_eq!(array[0]["labels"][0]["range"]["start"]["column"], 4);
}

#[test]
fn print_docs_renders_each_value() {
    let mut printer = JSONPrinter::new(Vec::new());
    printer.before_print();
    let docs = vec![
        position_value(&Position { line: 1, column: 2 }),
        position_value(&Position { line: 3, column: 4 }),
    ];
    assert_eq!(printer.print_docs(docs), Ok(()));
    printer.after_print();
    assert_eq!(
        String::from_utf8(printer.output().clone()).unwrap(),
        "[\n{\n  \"line\": 1,\n  \"column\": 2\n},\n{\n  \"line\": 3,\n  \"column\": 4\n}\n]\n"
    );
}
