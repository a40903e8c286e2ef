//! The records that are printed: one per match, built from what the engine
//! reports.

use vstd::prelude::*;
use crate::env::{Diff, DiffView, MetaVarEnvView, MetaVariable, MetaVariableView, NodeMatch, NodeMatchView};
use crate::rule::{RuleConfig, RuleConfigView, Severity};
use crate::node::{get_range, Node, NodeView, Range};
use crate::table::{distinct_keys, find, has_key, lemma_find, lemma_find_entry, lookup};

verus! {

/// A located snippet: its text and where it lies.
#[derive(Debug, PartialEq, Eq)]
pub struct MatchNode {
    pub text: String,
    pub range: Range,
}

/// The mathematical value of a [`MatchNode`].
pub struct MatchNodeView {
    pub text: Seq<char>,
    pub range: Range,
}

impl View for MatchNode {
    type V = MatchNodeView;

    open spec fn view(&self) -> MatchNodeView {
        MatchNodeView { text: self.text@, range: self.range }
    }
}

impl DeepView for MatchNode {
    type V = MatchNodeView;

    open spec fn deep_view(&self) -> MatchNodeView {
        self@
    }
}

/// The snippet that stands for a node: the node's own text and range.
pub open spec fn match_node(node: NodeView) -> MatchNodeView {
    MatchNodeView { text: node.text, range: node.range() }
}

/// The snippets that stand for a list of nodes, in the same order.
pub open spec fn match_nodes(nodes: Seq<NodeView>) -> Seq<MatchNodeView> {
    nodes.map_values(|node: NodeView| match_node(node))
}

impl MatchNode {
    /// The snippet that stands for `node`.
    pub fn from_node(node: &Node) -> (snippet: MatchNode)
        ensures
            snippet@ == match_node(node@),
    {
        MatchNode { text: node.text.clone(), range: get_range(node) }
    }

    /// The snippets that stand for `nodes`, in the same order.
    pub fn from_nodes(nodes: &Vec<Node>) -> (snippets: Vec<MatchNode>)
        ensures
            snippets.deep_view() == match_nodes(nodes.deep_view()),
    {
        let mut snippets: Vec<MatchNode> = Vec::new();
        let mut i: usize = 0;
        while i < nodes.len()
            invariant
                i <= nodes.len(),
                snippets.deep_view() == match_nodes(nodes.deep_view()).take(i as int),
            decreases nodes.len() - i,
        {
            let ghost before = snippets.deep_view();
            snippets.push(MatchNode::from_node(&nodes[i]));
            assert(snippets.deep_view() =~= before.push(match_node(nodes[i as int]@)));
            i += 1;
        }
        assert(match_nodes(nodes.deep_view()).take(i as int) =~= match_nodes(nodes.deep_view()));
        snippets
    }
}

/// The variables of a match with what they were bound to: single variables
/// with one snippet each, multiple variables with a list of snippets each.
/// No name occurs twice in either table.
#[derive(Debug, PartialEq, Eq)]
pub struct MetaVariables {
    pub single: Vec<(String, MatchNode)>,
    pub multi: Vec<(String, Vec<MatchNode>)>,
}

/// The mathematical value of a [`MetaVariables`].
pub struct MetaVariablesView {
    pub single: Seq<(Seq<char>, MatchNodeView)>,
    pub multi: Seq<(Seq<char>, Seq<MatchNodeView>)>,
}

impl View for MetaVariables {
    type V = MetaVariablesView;

    open spec fn view(&self) -> MetaVariablesView {
        MetaVariablesView { single: self.single.deep_view(), multi: self.multi.deep_view() }
    }
}

impl DeepView for MetaVariables {
    type V = MetaVariablesView;

    open spec fn deep_view(&self) -> MetaVariablesView {
        self@
    }
}

impl MetaVariablesView {
    /// No name occurs twice among the single variables, nor among the
    /// multiple ones.
    pub open spec fn well_formed(self) -> bool {
        distinct_keys(self.single) && distinct_keys(self.multi)
    }
}

/// The single variables among the first `count` listed ones, each under its
/// name with the snippet of its node, in the order in which the names first
/// occur.
pub open spec fn single_bindings(env: MetaVarEnvView, count: int) -> Seq<(Seq<char>, MatchNodeView)>
    decreases count,
{
    if count <= 0 {
        Seq::empty()
    } else {
        let earlier = single_bindings(env, count - 1);
        match env.variables[count - 1] {
            MetaVariableView::Named(name) => match env.get_match(name) {
                Some(node) => if has_key(earlier, name) {
                    earlier
                } else {
                    earlier.push((name, match_node(node)))
                },
                None => earlier,
            },
            _ => earlier,
        }
    }
}

/// The multiple variables among the first `count` listed ones, each under
/// its name with the snippets of its nodes, in the order in which the names
/// first occur.
pub open spec fn multi_bindings(env: MetaVarEnvView, count: int) -> Seq<
    (Seq<char>, Seq<MatchNodeView>),
>
    decreases count,
{
    if count <= 0 {
        Seq::empty()
    } else {
        let earlier = multi_bindings(env, count - 1);
        match env.variables[count - 1] {
            MetaVariableView::NamedEllipsis(name) => if has_key(earlier, name) {
                earlier
            } else {
                earlier.push((name, match_nodes(env.get_multiple_matches(name))))
            },
            _ => earlier,
        }
    }
}

/// The variable table of a match: absent where the environment lists no
/// variable at all, else the single and the multiple variables it lists.
/// Variables without a name are left out.
pub open spec fn bound_variables(env: MetaVarEnvView) -> Option<MetaVariablesView> {
    if env.variables.len() == 0 {
        None
    } else {
        Some(
            MetaVariablesView {
                single: single_bindings(env, env.variables.len() as int),
                multi: multi_bindings(env, env.variables.len() as int),
            },
        )
    }
}

/// The single variables collected from an environment never repeat a name.
pub proof fn lemma_single_bindings_distinct(env: MetaVarEnvView, count: int)
    ensures
        distinct_keys(single_bindings(env, count)),
    decreases count,
{
    if count > 0 {
        lemma_single_bindings_distinct(env, count - 1);
    }
}

/// The multiple variables collected from an environment never repeat a
/// name.
pub proof fn lemma_multi_bindings_distinct(env: MetaVarEnvView, count: int)
    ensures
        distinct_keys(multi_bindings(env, count)),
    decreases count,
{
    if count > 0 {
        lemma_multi_bindings_distinct(env, count - 1);
    }
}

/// Whether the single variable `name` is among the first `count` listed
/// variables.
pub open spec fn lists_single(env: MetaVarEnvView, count: int, name: Seq<char>) -> bool {
    exists|i: int|
        0 <= i < count && i < env.variables.len() && #[trigger] env.variables[i]
            == MetaVariableView::Named(name)
}

/// Whether the multiple variable `name` is among the first `count` listed
/// variables.
pub open spec fn lists_multi(env: MetaVarEnvView, count: int, name: Seq<char>) -> bool {
    exists|i: int|
        0 <= i < count && i < env.variables.len() && #[trigger] env.variables[i]
            == MetaVariableView::NamedEllipsis(name)
}

/// A name stands among the collected single variables exactly when the
/// environment lists it as single and has a node for it, and it stands
/// there with the snippet of that node.
pub proof fn lemma_single_bindings(env: MetaVarEnvView, count: int, name: Seq<char>)
    requires
        count <= env.variables.len(),
    ensures
        has_key(single_bindings(env, count), name) <==> lists_single(env, count, name)
            && env.get_match(name) is Some,
        has_key(single_bindings(env, count), name) ==> find(single_bindings(env, count), name)
            == Some(match_node(env.get_match(name)->0)),
    decreases count,
{
    let now = single_bindings(env, count);
    lemma_find(now, name);
    if count > 0 {
        let earlier = single_bindings(env, count - 1);
        lemma_single_bindings(env, count - 1, name);
        lemma_find(earlier, name);
        lemma_single_bindings_distinct(env, count);
        lemma_single_bindings_distinct(env, count - 1);
        if lists_single(env, count - 1, name) {
            let i = choose|i: int|
                0 <= i < count - 1 && i < env.variables.len() && #[trigger] env.variables[i]
                    == MetaVariableView::Named(name);
            assert(0 <= i < count && env.variables[i] == MetaVariableView::Named(name));
        }
        if has_key(earlier, name) {
            let k = choose|k: int| 0 <= k < earlier.len() && (#[trigger] earlier[k]).0 == name;
            assert(now[k] == earlier[k]);
            lemma_find_entry(now, k);
            lemma_find_entry(earlier, k);
        } else if now.len() > earlier.len() {
            let pushed = now.len() - 1;
            assert(now[pushed] == now.last());
            if now[pushed].0 == name {
                assert(env.variables[count - 1] == MetaVariableView::Named(name));
                lemma_find_entry(now, pushed);
            } else if has_key(now, name) {
                let k = choose|k: int| 0 <= k < now.len() && (#[trigger] now[k]).0 == name;
                assert(earlier[k] == now[k]);
            }
        }
        if lists_single(env, count, name) && env.get_match(name) is Some && !lists_single(
            env,
            count - 1,
            name,
        ) {
            let i = choose|i: int|
                0 <= i < count && i < env.variables.len() && #[trigger] env.variables[i]
                    == MetaVariableView::Named(name);
            assert(i == count - 1);
            assert(now.last().0 == name);
            assert(now[now.len() - 1] == now.last());
        }
    }
}

/// A name stands among the collected multiple variables exactly when the
/// environment lists it as multiple, and it stands there with the snippets
/// of its nodes.
pub proof fn lemma_multi_bindings(env: MetaVarEnvView, count: int, name: Seq<char>)
    requires
        count <= env.variables.len(),
    ensures
        has_key(multi_bindings(env, count), name) <==> lists_multi(env, count, name),
        has_key(multi_bindings(env, count), name) ==> find(multi_bindings(env, count), name)
            == Some(match_nodes(env.get_multiple_matches(name))),
    decreases count,
{
    let now = multi_bindings(env, count);
    lemma_find(now, name);
    if count > 0 {
        let earlier = multi_bindings(env, count - 1);
        lemma_multi_bindings(env, count - 1, name);
        lemma_find(earlier, name);
        lemma_multi_bindings_distinct(env, count);
        lemma_multi_bindings_distinct(env, count - 1);
        if lists_multi(env, count - 1, name) {
            let i = choose|i: int|
                0 <= i < count - 1 && i < env.variables.len() && #[trigger] env.variables[i]
                    == MetaVariableView::NamedEllipsis(name);
            assert(0 <= i < count && env.variables[i] == MetaVariableView::NamedEllipsis(name));
        }
        if has_key(earlier, name) {
            let k = choose|k: int| 0 <= k < earlier.len() && (#[trigger] earlier[k]).0 == name;
            assert(now[k] == earlier[k]);
            lemma_find_entry(now, k);
            lemma_find_entry(earlier, k);
        } else if now.len() > earlier.len() {
            let pushed = now.len() - 1;
            assert(now[pushed] == now.last());
            if now[pushed].0 == name {
                assert(env.variables[count - 1] == MetaVariableView::NamedEllipsis(name));
                lemma_find_entry(now, pushed);
            } else if has_key(now, name) {
                let k = choose|k: int| 0 <= k < now.len() && (#[trigger] now[k]).0 == name;
                assert(earlier[k] == now[k]);
            }
        }
        if lists_multi(env, count, name) && !lists_multi(env, count - 1, name) {
            let i = choose|i: int|
                0 <= i < count && i < env.variables.len() && #[trigger] env.variables[i]
                    == MetaVariableView::NamedEllipsis(name);
            assert(i == count - 1);
            assert(now.last().0 == name);
            assert(now[now.len() - 1] == now.last());
        }
    }
}

/// The variable table of an environment, where it has one, is well formed.
pub proof fn lemma_bound_variables_well_formed(env: MetaVarEnvView)
    ensures
        bound_variables(env) matches Some(vars) ==> vars.well_formed(),
{
    lemma_single_bindings_distinct(env, env.variables.len() as int);
    lemma_multi_bindings_distinct(env, env.variables.len() as int);
}

/// A variable table is there exactly when the environment lists a
/// variable.
pub proof fn lemma_variables_present(env: MetaVarEnvView)
    ensures
        bound_variables(env) is Some <==> env.variables.len() > 0,
{
}

/// Unless an environment lists variables that are all without a name, its
/// variable table is there exactly when it lists a variable with a name.
pub proof fn lemma_variables_absent_unless_named(env: MetaVarEnvView)
    requires
        env.variables.len() > 0 ==> exists|i: int|
            0 <= i < env.variables.len() && #[trigger] env.variables[i]
                != MetaVariableView::Anonymous,
    ensures
        bound_variables(env) is Some <==> exists|i: int|
            0 <= i < env.variables.len() && #[trigger] env.variables[i]
                != MetaVariableView::Anonymous,
{
}

/// A single variable that the environment lists and has a node for stands
/// in the variable table under its name, with the text and the range of
/// that node.
pub proof fn lemma_bound_single_variable(env: MetaVarEnvView, name: Seq<char>)
    requires
        lists_single(env, env.variables.len() as int, name),
        env.get_match(name) is Some,
    ensures
        bound_variables(env) is Some,
        find(bound_variables(env)->0.single, name) == Some(match_node(env.get_match(name)->0)),
        match_node(env.get_match(name)->0).text == env.get_match(name)->0.text,
{
    lemma_single_bindings(env, env.variables.len() as int, name);
}

/// A multiple variable that the environment lists stands in the variable
/// table under its name, with the snippets of its nodes in their order.
pub proof fn lemma_bound_multi_variable(env: MetaVarEnvView, name: Seq<char>)
    requires
        lists_multi(env, env.variables.len() as int, name),
    ensures
        bound_variables(env) is Some,
        find(bound_variables(env)->0.multi, name) == Some(
            match_nodes(env.get_multiple_matches(name)),
        ),
{
    lemma_multi_bindings(env, env.variables.len() as int, name);
}

/// Where the environment lists no name both as single and as multiple, no
/// name stands in both tables.
pub proof fn lemma_names_apart(env: MetaVarEnvView, name: Seq<char>)
    requires
        !(lists_single(env, env.variables.len() as int, name) && lists_multi(
            env,
            env.variables.len() as int,
            name,
        )),
    ensures
        bound_variables(env) matches Some(vars) ==> !(has_key(vars.single, name) && has_key(
            vars.multi,
            name,
        )),
{
    lemma_single_bindings(env, env.variables.len() as int, name);
    lemma_multi_bindings(env, env.variables.len() as int, name);
}

/// Collects the variables that a match bound.
pub fn from_env(nm: &NodeMatch) -> (vars: Option<MetaVariables>)
    requires
        nm@.env.binds_all_named(),
    ensures
        vars.deep_view() == bound_variables(nm@.env),
        vars matches Some(table) ==> table@.well_formed(),
{
    proof {
        lemma_bound_variables_well_formed(nm@.env);
    }
    let env = &nm.env;
    let count = env.variables.len();
    if count == 0 {
        return None;
    }
    let mut single: Vec<(String, MatchNode)> = Vec::new();
    let mut multi: Vec<(String, Vec<MatchNode>)> = Vec::new();
    let mut i: usize = 0;
    while i < count
        invariant
            i <= count == env.variables.len(),
            env@ == nm@.env,
            env@.binds_all_named(),
            single.deep_view() == single_bindings(env@, i as int),
            multi.deep_view() == multi_bindings(env@, i as int),
        decreases count - i,
    {
        let ghost single_before = single.deep_view();
        let ghost multi_before = multi.deep_view();
        assert(env@.variables[i as int] == env.variables[i as int]@);
        match &env.variables[i] {
            MetaVariable::Named(name) => {
                proof {
                    lemma_find(single_before, name@);
                    lemma_find(env@.single, name@);
                }
                if lookup(&single, name).is_none() {
                    match lookup(&env.single, name) {
                        Some(node) => {
                            single.push((name.clone(), MatchNode::from_node(node)));
                            assert(single.deep_view() =~= single_before.push(
                                (name@, match_node(node@)),
                            ));
                        },
                        None => {
                            assert(false);
                        },
                    }
                }
            },
            MetaVariable::NamedEllipsis(name) => {
                proof {
                    lemma_find(multi_before, name@);
                }
                if lookup(&multi, name).is_none() {
                    let snippets = match lookup(&env.multi, name) {
                        Some(nodes) => MatchNode::from_nodes(nodes),
                        None => Vec::new(),
                    };
                    assert(snippets.deep_view() =~= match_nodes(
                        env@.get_multiple_matches(name@),
                    ));
                    multi.push((name.clone(), snippets));
                    assert(multi.deep_view() =~= multi_before.push(
                        (name@, match_nodes(env@.get_multiple_matches(name@))),
                    ));
                }
            },
            MetaVariable::Anonymous => {},
        }
        i += 1;
    }
    Some(MetaVariables { single, multi })
}

/// The snippets labelled as secondary: absent where the environment has no
/// such category, else the labelled nodes in their order.
pub open spec fn secondary_labels(env: MetaVarEnvView) -> Option<Seq<MatchNodeView>> {
    match env.get_labels("secondary"@) {
        Some(nodes) => Some(match_nodes(nodes)),
        None => None,
    }
}

/// Collects the secondary labels of a match.
pub fn get_labels(nm: &NodeMatch) -> (labels: Option<Vec<MatchNode>>)
    ensures
        labels.deep_view() == secondary_labels(nm@.env),
{
    let env = &nm.env;
    match env.get_labels("secondary") {
        Some(nodes) => Some(MatchNode::from_nodes(nodes)),
        None => None,
    }
}

/// The record of one match.
#[derive(Debug, PartialEq, Eq)]
pub struct MatchJSON {
    pub text: String,
    pub range: Range,
    pub file: String,
    pub replacement: Option<String>,
    pub language: String,
    pub meta_variables: Option<MetaVariables>,
}

/// The mathematical value of a [`MatchJSON`].
pub struct MatchJSONView {
    pub text: Seq<char>,
    pub range: Range,
    pub file: Seq<char>,
    pub replacement: Option<Seq<char>>,
    pub language: Seq<char>,
    pub meta_variables: Option<MetaVariablesView>,
}

impl View for MatchJSON {
    type V = MatchJSONView;

    open spec fn view(&self) -> MatchJSONView {
        MatchJSONView {
            text: self.text@,
            range: self.range,
            file: self.file@,
            replacement: self.replacement.deep_view(),
            language: self.language@,
            meta_variables: self.meta_variables.deep_view(),
        }
    }
}

impl DeepView for MatchJSON {
    type V = MatchJSONView;

    open spec fn deep_view(&self) -> MatchJSONView {
        self@
    }
}

impl MatchJSONView {
    /// The variable table, where there is one, repeats no name.
    pub open spec fn well_formed(self) -> bool {
        self.meta_variables matches Some(vars) ==> vars.well_formed()
    }
}

/// The record of a match found in the file `path`: the match's own text,
/// range and language, its variables, and no replacement.
pub open spec fn match_record(nm: NodeMatchView, path: Seq<char>) -> MatchJSONView {
    MatchJSONView {
        text: nm.node.text,
        range: nm.node.range(),
        file: path,
        replacement: None,
        language: nm.language,
        meta_variables: bound_variables(nm.env),
    }
}

/// The record of a match that comes with a replacement: that of the match,
/// with the replacement text added.
pub open spec fn diff_record(diff: DiffView, path: Seq<char>) -> MatchJSONView {
    MatchJSONView { replacement: Some(diff.replacement), ..match_record(diff.node_match, path) }
}

/// The record of a match takes the match's text, range and language and the
/// file's path over unchanged, and has no replacement. The record of a match
/// with a replacement differs in the replacement alone, which is the one
/// proposed.
pub proof fn lemma_match_record_fields(diff: DiffView, path: Seq<char>)
    ensures
        match_record(diff.node_match, path).text == diff.node_match.node.text,
        match_record(diff.node_match, path).range == diff.node_match.node.range(),
        match_record(diff.node_match, path).file == path,
        match_record(diff.node_match, path).language == diff.node_match.language,
        match_record(diff.node_match, path).replacement is None,
        diff_record(diff, path).replacement == Some(diff.replacement),
        diff_record(diff, path) == (MatchJSONView {
            replacement: Some(diff.replacement),
            ..match_record(diff.node_match, path)
        }),
{
}

impl MatchJSON {
    /// The record of the match `nm`, found in the file `path`.
    pub fn new(nm: NodeMatch, path: &str) -> (record: MatchJSON)
        requires
            nm@.env.binds_all_named(),
        ensures
            record@ == match_record(nm@, path@),
            record@.well_formed(),
    {
        proof {
            lemma_bound_variables_well_formed(nm@.env);
        }
        let meta_variables = from_env(&nm);
        let range = get_range(&nm.node);
        let NodeMatch { node, language, env: _ } = nm;
        MatchJSON {
            file: path.to_owned(),
            text: node.text,
            language,
            replacement: None,
            range,
            meta_variables,
        }
    }

    /// The record of the match in `diff`, found in the file `path`, with the
    /// replacement that `diff` proposes.
    pub fn from_diff(diff: Diff, path: &str) -> (record: MatchJSON)
        requires
            diff@.node_match.env.binds_all_named(),
        ensures
            record@ == diff_record(diff@, path@),
            record@.well_formed(),
    {
        let Diff { node_match, replacement } = diff;
        let mut record = MatchJSON::new(node_match, path);
        record.replacement = Some(replacement);
        record
    }
}

/// The record of one finding of a rule: the record of the match, and what
/// the rule says of it.
#[derive(Debug, PartialEq, Eq)]
pub struct RuleMatchJSON {
    pub matched: MatchJSON,
    pub rule_id: String,
    pub severity: Severity,
    pub message: String,
    pub labels: Option<Vec<MatchNode>>,
}

/// The mathematical value of a [`RuleMatchJSON`].
pub struct RuleMatchJSONView {
    pub matched: MatchJSONView,
    pub rule_id: Seq<char>,
    pub severity: Severity,
    pub message: Seq<char>,
    pub labels: Option<Seq<MatchNodeView>>,
}

impl View for RuleMatchJSON {
    type V = RuleMatchJSONView;

    open spec fn view(&self) -> RuleMatchJSONView {
        RuleMatchJSONView {
            matched: self.matched@,
            rule_id: self.rule_id@,
            severity: self.severity,
            message: self.message@,
            labels: self.labels.deep_view(),
        }
    }
}

impl DeepView for RuleMatchJSON {
    type V = RuleMatchJSONView;

    open spec fn deep_view(&self) -> RuleMatchJSONView {
        self@
    }
}

/// The record of a finding: the record of the match, the rule's identifier
/// and severity, the message rendered for this match, and the secondary
/// labels of the match.
pub open spec fn rule_record(
    nm: NodeMatchView,
    path: Seq<char>,
    rule: RuleConfigView,
    message: Seq<char>,
) -> RuleMatchJSONView {
    RuleMatchJSONView {
        matched: match_record(nm, path),
        rule_id: rule.id,
        severity: rule.severity,
        message,
        labels: secondary_labels(nm.env),
    }
}

/// The record of a finding that comes with a replacement: that of the
/// finding, with the replacement text added to the record of the match.
pub open spec fn rule_diff_record(
    diff: DiffView,
    path: Seq<char>,
    rule: RuleConfigView,
    message: Seq<char>,
) -> RuleMatchJSONView {
    RuleMatchJSONView {
        matched: diff_record(diff, path),
        ..rule_record(diff.node_match, path, rule, message)
    }
}

/// The record of a finding has the rule's identifier and severity and the
/// message rendered for the match, and its match record is the one that the
/// match has without the rule. With a replacement, the match record is the
/// one that the match has with that replacement.
pub proof fn lemma_rule_record_fields(
    diff: DiffView,
    path: Seq<char>,
    rule: RuleConfigView,
    message: Seq<char>,
)
    ensures
        rule_record(diff.node_match, path, rule, message).rule_id == rule.id,
        rule_record(diff.node_match, path, rule, message).severity == rule.severity,
        rule_record(diff.node_match, path, rule, message).message == message,
        rule_record(diff.node_match, path, rule, message).matched == match_record(
            diff.node_match,
            path,
        ),
        rule_record(diff.node_match, path, rule, message).matched.replacement is None,
        rule_diff_record(diff, path, rule, message).matched == diff_record(diff, path),
        rule_diff_record(diff, path, rule, message).matched.replacement == Some(diff.replacement),
        rule_diff_record(diff, path, rule, message).severity == rule.severity,
        rule_diff_record(diff, path, rule, message).message == message,
{
}

impl RuleMatchJSON {
    /// The record of the finding `nm` of `rule` in the file `path`, where
    /// `message` is what the rule says of this match.
    pub fn new(nm: NodeMatch, path: &str, rule: &RuleConfig, message: String) -> (record:
        RuleMatchJSON)
        requires
            nm@.env.binds_all_named(),
        ensures
            record@ == rule_record(nm@, path@, rule@, message@),
            record@.matched.well_formed(),
    {
        let labels = get_labels(&nm);
        let matched = MatchJSON::new(nm, path);
        RuleMatchJSON {
            matched,
            rule_id: rule.id.clone(),
            severity: rule.severity,
            message,
            labels,
        }
    }

    /// The record of the finding in `diff`, with the replacement that `diff`
    /// proposes.
    pub fn from_diff(diff: Diff, path: &str, rule: &RuleConfig, message: String) -> (record:
        RuleMatchJSON)
        requires
            diff@.node_match.env.binds_all_named(),
        ensures
            record@ == rule_diff_record(diff@, path@, rule@, message@),
            record@.matched.well_formed(),
    {
        let Diff { node_match, replacement } = diff;
        let mut record = RuleMatchJSON::new(node_match, path, rule, message);
        record.matched.replacement = Some(replacement);
        record
    }
}

} // verus!
