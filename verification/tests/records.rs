use json_print::env::{Diff, MetaVarEnv, MetaVariable, NodeMatch};
use json_print::node::{get_range, ByteOffset, Node, Position, Range};
use json_print::record::{from_env, get_labels, MatchJSON, MatchNode, RuleMatchJSON};
use json_print::rule::{RuleConfig, Severity};

fn node(text: &str, start_byte: usize, line: usize, column: usize) -> Node {
    Node {
        text: text.to_string(),
        start_byte,
        end_byte: start_byte + text.len(),
        start_pos: (line, column),
        end_pos: (line, column + text.len()),
    }
}

fn range(start_byte: usize, len: usize, line: usize, column: usize) -> Range {
    Range {
        byte_offset: ByteOffset { start: start_byte, end: start_byte + len },
        start: Position { line, column },
        end: Position { line, column: column + len },
    }
}

fn snippet(text: &str, start_byte: usize, line: usize, column: usize) -> MatchNode {
    MatchNode { text: text.to_string(), range: range(start_byte, text.len(), line, column) }
}

fn empty_env() -> MetaVarEnv {
    MetaVarEnv { variables: vec![], single: vec![], multi: vec![], labels: vec![] }
}

fn call_match() -> NodeMatch {
    NodeMatch {
        node: node("log(foo, 1, 2)", 10, 2, 4),
        language: "TypeScript".to_string(),
        env: MetaVarEnv {
            variables: vec![
                MetaVariable::Named("A".to_string()),
                MetaVariable::Anonymous,
                MetaVariable::NamedEllipsis("REST".to_string()),
            ],
            single: vec![("A".to_string(), node("foo", 14, 2, 8))],
            multi: vec![("REST".to_string(), vec![node("1", 19, 2, 13), node("2", 22, 2, 16)])],
            labels: vec![],
        },
    }
}

#[test]
fn range_takes_location_over() {
    let n = Node {
        text: "a\nbc".to_string(),
        start_byte: 7,
        end_byte: 11,
        start_pos: (3, 5),
        end_pos: (4, 2),
    };
    let r = get_range(&n);
    assert_eq!(r.byte_offset, ByteOffset { start: 7, end: 11 });
    assert_eq!(r.start, Position { line: 3, column: 5 });
    assert_eq!(r.end, Position { line: 4, column: 2 });
}

#[test]
fn range_of_empty_node() {
    let r = get_range(&node("", 0, 0, 0));
    assert_eq!(r, range(0, 0, 0, 0));
}

#[test]
fn no_variables_no_table() {
    let nm = NodeMatch { node: node("x", 0, 0, 0), language: "Rust".to_string(), env: empty_env() };
    assert_eq!(from_env(&nm), None);
}

#[test]
fn variables_are_sorted_into_two_tables() {
    let vars = from_env(&call_match()).unwrap();
    assert_eq!(vars.single, vec![("A".to_string(), snippet("foo", 14, 2, 8))]);
    assert_eq!(
        vars.multi,
        vec![("REST".to_string(), vec![snippet("1", 19, 2, 13), snippet("2", 22, 2, 16)])]
    );
}

#[test]
fn bound_variable_keeps_node_text() {
    let nm = NodeMatch {
        node: node("f(foo)", 0, 0, 0),
        language: "JavaScript".to_string(),
        env: MetaVarEnv {
            variables: vec![MetaVariable::Named("x".to_string())],
            single: vec![("x".to_string(), node("foo", 2, 0, 2))],
            multi: vec![],
            labels: vec![],
        },
    };
    let vars = from_env(&nm).unwrap();
    assert_eq!(vars.single.len(), 1);
    assert_eq!(vars.single[0].0, "x");
    assert_eq!(vars.single[0].1.text, "foo");
    assert!(vars.multi.is_empty());
}

#[test]
fn anonymous_variables_are_skipped() {
    let nm = NodeMatch {
        node: node("f(foo)", 0, 0, 0),
        language: "JavaScript".to_string(),
        env: MetaVarEnv {
            variables: vec![MetaVariable::Anonymous, MetaVariable::Anonymous],
            single: vec![],
            multi: vec![],
            labels: vec![],
        },
    };
    let vars = from_env(&nm).unwrap();
    assert!(vars.single.is_empty());
    assert!(vars.multi.is_empty());
}

#[test]
fn repeated_names_are_kept_once() {
    let nm = NodeMatch {
        node: node("a + a", 0, 0, 0),
        language: "JavaScript".to_string(),
        env: MetaVarEnv {
            variables: vec![
                MetaVariable::Named("A".to_string()),
                MetaVariable::Named("B".to_string()),
                MetaVariable::Named("A".to_string()),
                MetaVariable::NamedEllipsis("R".to_string()),
                MetaVariable::NamedEllipsis("R".to_string()),
            ],
            single: vec![
                ("A".to_string(), node("a", 0, 0, 0)),
                ("B".to_string(), node("+", 2, 0, 2)),
                ("A".to_string(), node("zzz", 4, 0, 4)),
            ],
            multi: vec![],
            labels: vec![],
        },
    };
    let vars = from_env(&nm).unwrap();
    assert_eq!(
        vars.single,
        vec![("A".to_string(), snippet("a", 0, 0, 0)), ("B".to_string(), snippet("+", 2, 0, 2))]
    );
    assert_eq!(vars.multi, vec![("R".to_string(), vec![])]);
}

#[test]
fn multi_variable_without_nodes_is_empty() {
    let nm = NodeMatch {
        node: node("f()", 0, 0, 0),
        language: "JavaScript".to_string(),
        env: MetaVarEnv {
            variables: vec![MetaVariable::NamedEllipsis("ARGS".to_string())],
            single: vec![],
            multi: vec![("ARGS".to_string(), vec![])],
            labels: vec![],
        },
    };
    let vars = from_env(&nm).unwrap();
    assert!(vars.single.is_empty());
    assert_eq!(vars.multi, vec![("ARGS".to_string(), vec![])]);
}

#[test]
fn lookups_take_first_entry() {
    let env = MetaVarEnv {
        variables: vec![],
        single: vec![("A".to_string(), node("one", 0, 0, 0)), ("A".to_string(), node("two", 4, 0, 4))],
        multi: vec![("M".to_string(), vec![node("m", 8, 0, 8)])],
        labels: vec![("secondary".to_string(), vec![node("l", 9, 0, 9)])],
    };
    assert_eq!(env.get_match("A").unwrap().text, "one");
    assert!(env.get_match("B").is_none());
    assert_eq!(env.get_multiple_matches("M").unwrap().len(), 1);
    assert!(env.get_multiple_matches("A").is_none());
    assert_eq!(env.get_labels("secondary").unwrap()[0].text, "l");
    assert!(env.get_labels("primary").is_none());
}

#[test]
fn completeness_of_environment() {
    let mut nm = call_match();
    assert!(nm.env.binds_all_named());
    nm.env.single.clear();
    assert!(!nm.env.binds_all_named());
    nm.env.variables.remove(0);
    assert!(nm.env.binds_all_named());
    assert!(empty_env().binds_all_named());
}

#[test]
fn labels_absent_without_category() {
    let mut nm = call_match();
    assert_eq!(get_labels(&nm), None);
    nm.env.labels = vec![("primary".to_string(), vec![node("x", 0, 0, 0)])];
    assert_eq!(get_labels(&nm), None);
}

#[test]
fn labels_keep_their_order() {
    let mut nm = call_match();
    nm.env.labels = vec![
        ("other".to_string(), vec![node("o", 1, 0, 1)]),
        ("secondary".to_string(), vec![node("zz", 30, 5, 0), node("aa", 3, 0, 3)]),
    ];
    assert_eq!(get_labels(&nm), Some(vec![snippet("zz", 30, 5, 0), snippet("aa", 3, 0, 3)]));
    nm.env.labels = vec![("secondary".to_string(), vec![])];
    assert_eq!(get_labels(&nm), Some(vec![]));
}

#[test]
fn match_record_takes_fields_over() {
    let record = MatchJSON::new(call_match(), "src/app.ts");
    assert_eq!(record.text, "log(foo, 1, 2)");
    assert_eq!(record.range, range(10, 14, 2, 4));
    assert_eq!(record.file, "src/app.ts");
    assert_eq!(record.language, "TypeScript");
    assert_eq!(record.replacement, None);
    assert_eq!(record.meta_variables, from_env(&call_match()));
}

#[test]
fn diff_record_carries_replacement() {
    let diff = Diff { node_match: call_match(), replacement: "warn(foo)".to_string() };
    let record = MatchJSON::from_diff(diff, "src/app.ts");
    assert_eq!(record.replacement, Some("warn(foo)".to_string()));
    let mut plain = MatchJSON::new(call_match(), "src/app.ts");
    assert_eq!(plain.replacement, None);
    plain.replacement = Some("warn(foo)".to_string());
    assert_eq!(record, plain);
}

#[test]
fn rule_record_takes_rule_over() {
    let rule = RuleConfig { id: "no-log".to_string(), severity: Severity::Warning };
    let mut nm = call_match();
    nm.env.labels = vec![("secondary".to_string(), vec![node("foo", 14, 2, 8)])];
    let record = RuleMatchJSON::new(nm, "src/app.ts", &rule, "Do not log foo".to_string());
    assert_eq!(record.rule_id, "no-log");
    assert_eq!(record.severity, Severity::Warning);
    assert_eq!(record.message, "Do not log foo");
    assert_eq!(record.labels, Some(vec![snippet("foo", 14, 2, 8)]));
    assert_eq!(record.matched, MatchJSON::new(call_match(), "src/app.ts"));
}

#[test]
fn rule_diff_record_carries_replacement() {
    let rule = RuleConfig { id: "no-log".to_string(), severity: Severity::Error };
    let diff = Diff { node_match: call_match(), replacement: String::new() };
    let record = RuleMatchJSON::from_diff(diff, "a.ts", &rule, "m".to_string());
    assert_eq!(record.matched.replacement, Some(String::new()));
    assert_eq!(record.severity, Severity::Error);
    assert_eq!(record.labels, None);
    let plain = RuleMatchJSON::new(call_match(), "a.ts", &rule, "m".to_string());
    assert_eq!(plain.matched.replacement, None);
}
