//! Matches as the search engine reports them, with their binding
//! environments: which pattern variables were bound, and to which nodes.

use vstd::prelude::*;
use crate::node::{Node, NodeView};
use crate::table::{find, has_key, lemma_find, lookup};

verus! {

/// A pattern variable as the engine lists it once a match is found.
#[derive(Debug, PartialEq, Eq)]
pub enum MetaVariable {
    /// A variable that captures one node under a name.
    Named(String),
    /// A variable that captures a run of nodes under a name.
    NamedEllipsis(String),
    /// A variable without a name; what it matched is not kept.
    Anonymous,
}

/// The mathematical value of a [`MetaVariable`].
pub enum MetaVariableView {
    Named(Seq<char>),
    NamedEllipsis(Seq<char>),
    Anonymous,
}

impl View for MetaVariable {
    type V = MetaVariableView;

    open spec fn view(&self) -> MetaVariableView {
        match self {
            MetaVariable::Named(name) => MetaVariableView::Named(name@),
            MetaVariable::NamedEllipsis(name) => MetaVariableView::NamedEllipsis(name@),
            MetaVariable::Anonymous => MetaVariableView::Anonymous,
        }
    }
}

impl DeepView for MetaVariable {
    type V = MetaVariableView;

    open spec fn deep_view(&self) -> MetaVariableView {
        self@
    }
}

impl Clone for MetaVariable {
    fn clone(&self) -> (copy: Self)
        ensures
            copy@ == self@,
    {
        match self {
            MetaVariable::Named(name) => MetaVariable::Named(name.clone()),
            MetaVariable::NamedEllipsis(name) => MetaVariable::NamedEllipsis(name.clone()),
            MetaVariable::Anonymous => MetaVariable::Anonymous,
        }
    }
}

/// What a match bound: the variables in the order the engine lists them, the
/// node behind each single variable, the nodes behind each multiple variable,
/// and the labelled nodes of each label category.
///
/// The three tables are lists of entries. A lookup takes the first entry
/// with the name asked for.
#[derive(Debug, PartialEq, Eq)]
pub struct MetaVarEnv {
    pub variables: Vec<MetaVariable>,
    pub single: Vec<(String, Node)>,
    pub multi: Vec<(String, Vec<Node>)>,
    pub labels: Vec<(String, Vec<Node>)>,
}

/// The mathematical value of a [`MetaVarEnv`].
pub struct MetaVarEnvView {
    pub variables: Seq<MetaVariableView>,
    pub single: Seq<(Seq<char>, NodeView)>,
    pub multi: Seq<(Seq<char>, Seq<NodeView>)>,
    pub labels: Seq<(Seq<char>, Seq<NodeView>)>,
}

impl View for MetaVarEnv {
    type V = MetaVarEnvView;

    open spec fn view(&self) -> MetaVarEnvView {
        MetaVarEnvView {
            variables: self.variables.deep_view(),
            single: self.single.deep_view(),
            multi: self.multi.deep_view(),
            labels: self.labels.deep_view(),
        }
    }
}

impl DeepView for MetaVarEnv {
    type V = MetaVarEnvView;

    open spec fn deep_view(&self) -> MetaVarEnvView {
        self@
    }
}

impl MetaVarEnvView {
    /// The node bound to the single variable `var`.
    pub open spec fn get_match(self, var: Seq<char>) -> Option<NodeView> {
        find(self.single, var)
    }

    /// The nodes bound to the multiple variable `var`; none where the
    /// variable has no entry.
    pub open spec fn get_multiple_matches(self, var: Seq<char>) -> Seq<NodeView> {
        match find(self.multi, var) {
            Some(nodes) => nodes,
            None => Seq::empty(),
        }
    }

    /// The nodes labelled under the category `label`.
    pub open spec fn get_labels(self, label: Seq<char>) -> Option<Seq<NodeView>> {
        find(self.labels, label)
    }

    /// Every variable listed as single has a node in the table of single
    /// nodes.
    pub open spec fn binds_all_named(self) -> bool {
        forall|i: int|
            0 <= i < self.variables.len() ==> (#[trigger] self.variables[i] matches MetaVariableView::Named(
                name,
            ) ==> has_key(self.single, name))
    }
}

impl MetaVarEnv {
    /// Whether every variable listed as single has a node.
    pub fn binds_all_named(&self) -> (complete: bool)
        ensures
            complete == self@.binds_all_named(),
    {
        let mut i: usize = 0;
        while i < self.variables.len()
            invariant
                i <= self.variables.len(),
                forall|k: int|
                    0 <= k < i ==> (#[trigger] self@.variables[k] matches MetaVariableView::Named(name)
                        ==> has_key(self@.single, name)),
            decreases self.variables.len() - i,
        {
            assert(self@.variables[i as int] == self.variables[i as int]@);
            match &self.variables[i] {
                MetaVariable::Named(name) => {
                    proof {
                        lemma_find(self@.single, name@);
                    }
                    if lookup(&self.single, name).is_none() {
                        return false;
                    }
                },
                _ => {},
            }
            i += 1;
        }
        true
    }

    /// The node bound to the single variable `var`, if there is one.
    pub fn get_match(&self, var: &str) -> (found: Option<&Node>)
        ensures
            found.deep_view() == self@.get_match(var@),
    {
        let key = var.to_owned();
        lookup(&self.single, &key)
    }

    /// The nodes bound to the multiple variable `var`, if it has an entry.
    pub fn get_multiple_matches(&self, var: &str) -> (found: Option<&Vec<Node>>)
        ensures
            match found {
                Some(nodes) => self@.get_multiple_matches(var@) == nodes.deep_view(),
                None => self@.get_multiple_matches(var@) == Seq::<NodeView>::empty(),
            },
            found is Some <==> has_key(self@.multi, var@),
    {
        let key = var.to_owned();
        proof {
            lemma_find(self@.multi, var@);
        }
        lookup(&self.multi, &key)
    }

    /// The nodes labelled under the category `label`, if the category is
    /// there.
    pub fn get_labels(&self, label: &str) -> (found: Option<&Vec<Node>>)
        ensures
            found.deep_view() == self@.get_labels(label@),
    {
        let key = label.to_owned();
        lookup(&self.labels, &key)
    }
}

/// One match: the matched node, the language of its source, and what the
/// pattern's variables were bound to.
#[derive(Debug, PartialEq, Eq)]
pub struct NodeMatch {
    pub node: Node,
    pub language: String,
    pub env: MetaVarEnv,
}

/// The mathematical value of a [`NodeMatch`].
pub struct NodeMatchView {
    pub node: NodeView,
    pub language: Seq<char>,
    pub env: MetaVarEnvView,
}

impl View for NodeMatch {
    type V = NodeMatchView;

    open spec fn view(&self) -> NodeMatchView {
        NodeMatchView { node: self.node@, language: self.language@, env: self.env@ }
    }
}

impl DeepView for NodeMatch {
    type V = NodeMatchView;

    open spec fn deep_view(&self) -> NodeMatchView {
        self@
    }
}

/// A match together with the text that is to replace it.
#[derive(Debug, PartialEq, Eq)]
pub struct Diff {
    pub node_match: NodeMatch,
    pub replacement: String,
}

/// The mathematical value of a [`Diff`].
pub struct DiffView {
    pub node_match: NodeMatchView,
    pub replacement: Seq<char>,
}

impl View for Diff {
    type V = DiffView;

    open spec fn view(&self) -> DiffView {
        DiffView { node_match: self.node_match@, replacement: self.replacement@ }
    }
}

impl DeepView for Diff {
    type V = DiffView;

    open spec fn deep_view(&self) -> DiffView {
        self@
    }
}

} // verus!
