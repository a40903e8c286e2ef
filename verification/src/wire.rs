//! The wire format: which JSON object stands for which record.
//!
//! Member names are in camel case. A member whose value is absent is left
//! out altogether.

use vstd::prelude::*;
use crate::json::{entry_docs, item_docs, json_of, list_value, number_value, object_value, text_value, Json};
use crate::node::{Position, Range};
use crate::env::{DiffView, NodeMatchView};
use crate::record::{diff_record, lemma_bound_single_variable, lists_single, match_node, match_record, MatchJSON, MatchJSONView, MatchNode, MatchNodeView, MetaVariables, MetaVariablesView, RuleMatchJSON, RuleMatchJSONView};
use crate::rule::Severity;
use crate::table::{distinct_keys, find, lemma_find, lemma_find_entry};

verus! {

/// A position as an object: its line and its column.
pub open spec fn position_json(position: Position) -> Json {
    Json::Object(
        seq![
            ("line"@, Json::Number(position.line as nat)),
            ("column"@, Json::Number(position.column as nat)),
        ],
    )
}

/// A range as an object: the two byte offsets as an array, then the start
/// and the end position.
pub open spec fn range_json(range: Range) -> Json {
    Json::Object(
        seq![
            (
                "byteOffset"@,
                Json::List(
                    seq![
                        Json::Number(range.byte_offset.start as nat),
                        Json::Number(range.byte_offset.end as nat),
                    ],
                ),
            ),
            ("start"@, position_json(range.start)),
            ("end"@, position_json(range.end)),
        ],
    )
}

/// A snippet as an object: its text and its range.
pub open spec fn node_json(node: MatchNodeView) -> Json {
    Json::Object(seq![("text"@, Json::Text(node.text)), ("range"@, range_json(node.range))])
}

/// A list of snippets as an array, in the same order.
pub open spec fn nodes_json(nodes: Seq<MatchNodeView>) -> Json {
    Json::List(nodes.map_values(|node: MatchNodeView| node_json(node)))
}

/// The single variables as the members of an object: each name with its
/// snippet.
pub open spec fn single_members(table: Seq<(Seq<char>, MatchNodeView)>) -> Seq<(Seq<char>, Json)> {
    table.map_values(|entry: (Seq<char>, MatchNodeView)| (entry.0, node_json(entry.1)))
}

/// The multiple variables as the members of an object: each name with the
/// array of its snippets.
pub open spec fn multi_members(table: Seq<(Seq<char>, Seq<MatchNodeView>)>) -> Seq<
    (Seq<char>, Json),
> {
    table.map_values(|entry: (Seq<char>, Seq<MatchNodeView>)| (entry.0, nodes_json(entry.1)))
}

/// A variable table as an object with two members, one object for the
/// single and one for the multiple variables.
pub open spec fn meta_variables_json(vars: MetaVariablesView) -> Json {
    Json::Object(
        seq![
            ("single"@, Json::Object(single_members(vars.single))),
            ("multi"@, Json::Object(multi_members(vars.multi))),
        ],
    )
}

/// The members that stand for a match record: text, range and file, the
/// replacement if there is one, the language, and the variables if there
/// are any.
pub open spec fn match_members(record: MatchJSONView) -> Seq<(Seq<char>, Json)> {
    seq![
        ("text"@, Json::Text(record.text)),
        ("range"@, range_json(record.range)),
        ("file"@, Json::Text(record.file)),
    ] + (match record.replacement {
        Some(replacement) => seq![("replacement"@, Json::Text(replacement))],
        None => Seq::empty(),
    }) + seq![("language"@, Json::Text(record.language))] + (match record.meta_variables {
        Some(vars) => seq![("metaVariables"@, meta_variables_json(vars))],
        None => Seq::empty(),
    })
}

/// A match record as an object.
pub open spec fn match_json(record: MatchJSONView) -> Json {
    Json::Object(match_members(record))
}

/// The name under which a severity is written.
pub open spec fn severity_text(severity: Severity) -> Seq<char> {
    match severity {
        Severity::Hint => "hint"@,
        Severity::Info => "info"@,
        Severity::Warning => "warning"@,
        Severity::Error => "error"@,
    }
}

/// The members that stand for a rule's finding: those of the match record,
/// not nested, then the rule's identifier, the severity, the message, and
/// the labels if there are any.
pub open spec fn rule_match_members(record: RuleMatchJSONView) -> Seq<(Seq<char>, Json)> {
    match_members(record.matched) + seq![
        ("ruleId"@, Json::Text(record.rule_id)),
        ("severity"@, Json::Text(severity_text(record.severity))),
        ("message"@, Json::Text(record.message)),
    ] + (match record.labels {
        Some(labels) => seq![("labels"@, nodes_json(labels))],
        None => Seq::empty(),
    })
}

/// The record of a rule's finding as an object.
pub open spec fn rule_match_json(record: RuleMatchJSONView) -> Json {
    Json::Object(rule_match_members(record))
}

/// The length of a name and its first character: enough to tell the member
/// names of records apart.
pub open spec fn initial(name: Seq<char>) -> (nat, char) {
    (name.len(), name[0])
}

/// The length and the first character of each member name.
pub proof fn lemma_member_names()
    ensures
        initial("text"@) == (4nat, 't'),
        initial("range"@) == (5nat, 'r'),
        initial("file"@) == (4nat, 'f'),
        initial("replacement"@) == (11nat, 'r'),
        initial("language"@) == (8nat, 'l'),
        initial("metaVariables"@) == (13nat, 'm'),
        initial("ruleId"@) == (6nat, 'r'),
        initial("severity"@) == (8nat, 's'),
        initial("message"@) == (7nat, 'm'),
        initial("labels"@) == (6nat, 'l'),
        initial("line"@) == (4nat, 'l'),
        initial("column"@) == (6nat, 'c'),
        initial("single"@) == (6nat, 's'),
        initial("multi"@) == (5nat, 'm'),
        initial("byteOffset"@) == (10nat, 'b'),
        initial("start"@) == (5nat, 's'),
        initial("end"@) == (3nat, 'e'),
{
    reveal_strlit("text");
    reveal_strlit("range");
    reveal_strlit("file");
    reveal_strlit("replacement");
    reveal_strlit("language");
    reveal_strlit("metaVariables");
    reveal_strlit("ruleId");
    reveal_strlit("severity");
    reveal_strlit("message");
    reveal_strlit("labels");
    reveal_strlit("line");
    reveal_strlit("column");
    reveal_strlit("single");
    reveal_strlit("multi");
    reveal_strlit("byteOffset");
    reveal_strlit("start");
    reveal_strlit("end");
}

/// No member name occurs twice in the object of a match record.
pub proof fn lemma_match_members_distinct(record: MatchJSONView)
    ensures
        distinct_keys(match_members(record)),
{
    lemma_member_names();
}

/// No member name occurs twice in the object of a rule's finding.
pub proof fn lemma_rule_match_members_distinct(record: RuleMatchJSONView)
    ensures
        distinct_keys(rule_match_members(record)),
{
    lemma_member_names();
}

/// What the object of a match record holds: text, range, file and language
/// under their names; a replacement exactly when the record has one, and
/// then that one; the variables exactly when the record has a table of
/// them.
pub proof fn lemma_match_members(record: MatchJSONView)
    ensures
        find(match_members(record), "text"@) == Some(Json::Text(record.text)),
        find(match_members(record), "range"@) == Some(range_json(record.range)),
        find(match_members(record), "file"@) == Some(Json::Text(record.file)),
        find(match_members(record), "language"@) == Some(Json::Text(record.language)),
        find(match_members(record), "replacement"@) == match record.replacement {
            Some(replacement) => Some(Json::Text(replacement)),
            None => None,
        },
        find(match_members(record), "metaVariables"@) == match record.meta_variables {
            Some(vars) => Some(meta_variables_json(vars)),
            None => None,
        },
{
    let members = match_members(record);
    lemma_member_names();
    lemma_match_members_distinct(record);
    lemma_find_entry(members, 0);
    lemma_find_entry(members, 1);
    lemma_find_entry(members, 2);
    lemma_find(members, "replacement"@);
    lemma_find(members, "metaVariables"@);
    if record.replacement is Some {
        lemma_find_entry(members, 3);
        lemma_find_entry(members, 4);
        if record.meta_variables is Some {
            lemma_find_entry(members, 5);
        }
    } else {
        lemma_find_entry(members, 3);
        if record.meta_variables is Some {
            lemma_find_entry(members, 4);
        }
    }
}

/// What the object of a rule's finding holds: every member of the object of
/// its match record, with the same value; the rule's identifier, the
/// severity and the message under their names; labels exactly when the
/// record has them.
pub proof fn lemma_rule_match_members(record: RuleMatchJSONView)
    ensures
        forall|i: int|
            0 <= i < match_members(record.matched).len() ==> rule_match_members(record)[i]
                == #[trigger] match_members(record.matched)[i],
        find(rule_match_members(record), "ruleId"@) == Some(Json::Text(record.rule_id)),
        find(rule_match_members(record), "severity"@) == Some(
            Json::Text(severity_text(record.severity)),
        ),
        find(rule_match_members(record), "message"@) == Some(Json::Text(record.message)),
        find(rule_match_members(record), "labels"@) == match record.labels {
            Some(labels) => Some(nodes_json(labels)),
            None => None,
        },
{
    let members = rule_match_members(record);
    let base = match_members(record.matched).len() as int;
    lemma_member_names();
    lemma_rule_match_members_distinct(record);
    lemma_find_entry(members, base);
    lemma_find_entry(members, base + 1);
    lemma_find_entry(members, base + 2);
    lemma_find(members, "labels"@);
    if record.labels is Some {
        lemma_find_entry(members, base + 3);
    }
}

/// A single variable is a member of the object of single variables exactly
/// when it is in the table, and its value is then the object of its snippet.
pub proof fn lemma_single_members(table: Seq<(Seq<char>, MatchNodeView)>, name: Seq<char>)
    ensures
        find(single_members(table), name) == match find(table, name) {
            Some(node) => Some(node_json(node)),
            None => None,
        },
    decreases table.len(),
{
    if table.len() > 0 {
        assert(single_members(table).drop_first() =~= single_members(table.drop_first()));
        lemma_single_members(table.drop_first(), name);
    }
}

/// A multiple variable is a member of the object of multiple variables
/// exactly when it is in the table, and its value is then the array of its
/// snippets.
pub proof fn lemma_multi_members(table: Seq<(Seq<char>, Seq<MatchNodeView>)>, name: Seq<char>)
    ensures
        find(multi_members(table), name) == match find(table, name) {
            Some(nodes) => Some(nodes_json(nodes)),
            None => None,
        },
    decreases table.len(),
{
    if table.len() > 0 {
        assert(multi_members(table).drop_first() =~= multi_members(table.drop_first()));
        lemma_multi_members(table.drop_first(), name);
    }
}

/// The object of a plain match has a member `metaVariables` exactly when
/// the match's environment lists a variable, and it never has a member
/// `replacement`. The object of a match with a replacement has that
/// replacement as its member `replacement`.
pub proof fn lemma_optional_members(diff: DiffView, path: Seq<char>)
    ensures
        match_json(match_record(diff.node_match, path)).member("metaVariables"@) is Some
            <==> diff.node_match.env.variables.len() > 0,
        match_json(match_record(diff.node_match, path)).member("replacement"@) is None,
        match_json(diff_record(diff, path)).member("replacement"@) == Some(
            Json::Text(diff.replacement),
        ),
{
    lemma_match_members(match_record(diff.node_match, path));
    lemma_match_members(diff_record(diff, path));
}

/// Where a match bound the single variable `name` to a node, the object of
/// the match holds, under `metaVariables`, `single` and the variable's name,
/// an object whose member `text` is the text of that node.
pub proof fn lemma_single_variable_member(nm: NodeMatchView, path: Seq<char>, name: Seq<char>)
    requires
        lists_single(nm.env, nm.env.variables.len() as int, name),
        nm.env.get_match(name) is Some,
    ensures
        match_json(match_record(nm, path)).member("metaVariables"@) is Some,
        match_json(match_record(nm, path)).member("metaVariables"@)->0.member("single"@) is Some,
        match_json(match_record(nm, path)).member("metaVariables"@)->0.member("single"@)->0.member(
            name,
        ) is Some,
        match_json(match_record(nm, path)).member("metaVariables"@)->0.member("single"@)->0.member(
            name,
        )->0.member("text"@) == Some(Json::Text(nm.env.get_match(name)->0.text)),
{
    let record = match_record(nm, path);
    lemma_bound_single_variable(nm.env, name);
    lemma_match_members(record);
    let vars = record.meta_variables->0;
    lemma_member_names();
    let table = meta_variables_json(vars);
    assert(table.member("single"@) == Some(Json::Object(single_members(vars.single)))) by {
        reveal_with_fuel(find, 2);
    }
    lemma_single_members(vars.single, name);
    let snippet = match_node(nm.env.get_match(name)->0);
    assert(node_json(snippet).member("text"@) == Some(Json::Text(snippet.text))) by {
        reveal_with_fuel(find, 2);
    }
}

/// A name with its value, as a member of an object under construction.
fn member(name: &str, value: serde_json::Value) -> (entry: (String, serde_json::Value))
    ensures
        entry.0@ == name@,
        entry.1 == value,
{
    (name.to_owned(), value)
}

/// The JSON value of a position.
pub fn position_value(position: &Position) -> (value: serde_json::Value)
    ensures
        json_of(value) == position_json(*position),
{
    let mut entries: Vec<(String, serde_json::Value)> = Vec::new();
    entries.push(member("line", number_value(position.line)));
    entries.push(member("column", number_value(position.column)));
    proof {
        lemma_member_names();
        assert(entry_docs(entries@) =~= seq![
            ("line"@, Json::Number(position.line as nat)),
            ("column"@, Json::Number(position.column as nat)),
        ]);
    }
    object_value(entries)
}

/// The JSON value of a range.
pub fn range_value(range: &Range) -> (value: serde_json::Value)
    ensures
        json_of(value) == range_json(*range),
{
    let mut offsets: Vec<serde_json::Value> = Vec::new();
    offsets.push(number_value(range.byte_offset.start));
    offsets.push(number_value(range.byte_offset.end));
    assert(item_docs(offsets@) =~= seq![
        Json::Number(range.byte_offset.start as nat),
        Json::Number(range.byte_offset.end as nat),
    ]);
    let mut entries: Vec<(String, serde_json::Value)> = Vec::new();
    entries.push(member("byteOffset", list_value(offsets)));
    entries.push(member("start", position_value(&range.start)));
    entries.push(member("end", position_value(&range.end)));
    proof {
        lemma_member_names();
        assert(entry_docs(entries@) =~= seq![
            (
                "byteOffset"@,
                Json::List(
                    seq![
                        Json::Number(range.byte_offset.start as nat),
                        Json::Number(range.byte_offset.end as nat),
                    ],
                ),
            ),
            ("start"@, position_json(range.start)),
            ("end"@, position_json(range.end)),
        ]);
    }
    object_value(entries)
}

/// The JSON value of a snippet.
pub fn node_value(node: &MatchNode) -> (value: serde_json::Value)
    ensures
        json_of(value) == node_json(node@),
{
    let mut entries: Vec<(String, serde_json::Value)> = Vec::new();
    entries.push(member("text", text_value(node.text.as_str())));
    entries.push(member("range", range_value(&node.range)));
    proof {
        lemma_member_names();
        assert(entry_docs(entries@) =~= seq![
            ("text"@, Json::Text(node.text@)),
            ("range"@, range_json(node.range)),
        ]);
    }
    object_value(entries)
}

/// The JSON value of a list of snippets.
pub fn nodes_value(nodes: &Vec<MatchNode>) -> (value: serde_json::Value)
    ensures
        json_of(value) == nodes_json(nodes.deep_view()),
{
    let ghost docs = nodes.deep_view().map_values(|node: MatchNodeView| node_json(node));
    let mut items: Vec<serde_json::Value> = Vec::new();
    let mut i: usize = 0;
    while i < nodes.len()
        invariant
            i <= nodes.len(),
            docs == nodes.deep_view().map_values(|node: MatchNodeView| node_json(node)),
            item_docs(items@) == docs.take(i as int),
        decreases nodes.len() - i,
    {
        let ghost before = item_docs(items@);
        items.push(node_value(&nodes[i]));
        assert(item_docs(items@) =~= before.push(node_json(nodes[i as int]@)));
        i += 1;
    }
    assert(docs.take(i as int) =~= docs);
    list_value(items)
}

/// The JSON value of a variable table.
pub fn meta_variables_value(vars: &MetaVariables) -> (value: serde_json::Value)
    requires
        vars@.well_formed(),
    ensures
        json_of(value) == meta_variables_json(vars@),
{
    let ghost single_docs = single_members(vars@.single);
    let mut single: Vec<(String, serde_json::Value)> = Vec::new();
    let mut i: usize = 0;
    while i < vars.single.len()
        invariant
            i <= vars.single.len(),
            single_docs == single_members(vars@.single),
            entry_docs(single@) == single_docs.take(i as int),
        decreases vars.single.len() - i,
    {
        let ghost before = entry_docs(single@);
        single.push((vars.single[i].0.clone(), node_value(&vars.single[i].1)));
        assert(entry_docs(single@) =~= before.push(single_docs[i as int]));
        i += 1;
    }
    assert(single_docs.take(i as int) =~= single_docs);
    let ghost multi_docs = multi_members(vars@.multi);
    let mut multi: Vec<(String, serde_json::Value)> = Vec::new();
    let mut j: usize = 0;
    while j < vars.multi.len()
        invariant
            j <= vars.multi.len(),
            multi_docs == multi_members(vars@.multi),
            entry_docs(multi@) == multi_docs.take(j as int),
        decreases vars.multi.len() - j,
    {
        let ghost before = entry_docs(multi@);
        multi.push((vars.multi[j].0.clone(), nodes_value(&vars.multi[j].1)));
        assert(entry_docs(multi@) =~= before.push(multi_docs[j as int]));
        j += 1;
    }
    assert(multi_docs.take(j as int) =~= multi_docs);
    let mut entries: Vec<(String, serde_json::Value)> = Vec::new();
    entries.push(member("single", object_value(single)));
    entries.push(member("multi", object_value(multi)));
    proof {
        lemma_member_names();
        assert(entry_docs(entries@) =~= seq![
            ("single"@, Json::Object(single_members(vars@.single))),
            ("multi"@, Json::Object(multi_members(vars@.multi))),
        ]);
    }
    object_value(entries)
}

/// The members of the object of a match record, in order.
fn match_entries(record: &MatchJSON) -> (entries: Vec<(String, serde_json::Value)>)
    requires
        record@.well_formed(),
    ensures
        entry_docs(entries@) == match_members(record@),
{
    let mut entries: Vec<(String, serde_json::Value)> = Vec::new();
    entries.push(member("text", text_value(record.text.as_str())));
    entries.push(member("range", range_value(&record.range)));
    entries.push(member("file", text_value(record.file.as_str())));
    match &record.replacement {
        Some(replacement) => {
            entries.push(member("replacement", text_value(replacement.as_str())));
        },
        None => {},
    }
    entries.push(member("language", text_value(record.language.as_str())));
    match &record.meta_variables {
        Some(vars) => {
            entries.push(member("metaVariables", meta_variables_value(vars)));
        },
        None => {},
    }
    assert(entry_docs(entries@) =~= match_members(record@));
    entries
}

/// The JSON value of a match record.
pub fn match_value(record: &MatchJSON) -> (value: serde_json::Value)
    requires
        record@.well_formed(),
    ensures
        json_of(value) == match_json(record@),
{
    let entries = match_entries(record);
    proof {
        lemma_match_members_distinct(record@);
    }
    object_value(entries)
}

/// The name under which a severity is written.
pub fn severity_name(severity: Severity) -> (name: &'static str)
    ensures
        name@ == severity_text(severity),
{
    match severity {
        Severity::Hint => "hint",
        Severity::Info => "info",
        Severity::Warning => "warning",
        Severity::Error => "error",
    }
}

/// The JSON value of the record of a rule's finding.
pub fn rule_match_value(record: &RuleMatchJSON) -> (value: serde_json::Value)
    requires
        record@.matched.well_formed(),
    ensures
        json_of(value) == rule_match_json(record@),
{
    let mut entries = match_entries(&record.matched);
    entries.push(member("ruleId", text_value(record.rule_id.as_str())));
    entries.push(member("severity", text_value(severity_name(record.severity))));
    entries.push(member("message", text_value(record.message.as_str())));
    match &record.labels {
        Some(labels) => {
            entries.push(member("labels", nodes_value(labels)));
        },
        None => {},
    }
    proof {
        assert(entry_docs(entries@) =~= rule_match_members(record@));
        lemma_rule_match_members_distinct(record@);
    }
    object_value(entries)
}

} // verus!
