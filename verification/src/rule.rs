//! What a rule contributes to the records of its findings.

use vstd::prelude::*;
use crate::env::{Diff, DiffView, NodeMatch, NodeMatchView};

verus! {

/// How serious a rule's findings are.
#[derive(Clone, Copy, Debug, PartialEq, Eq, Structural)]
pub enum Severity {
    Hint,
    Info,
    Warning,
    Error,
}

/// A rule: its identifier and the severity of its findings.
#[derive(Debug, PartialEq, Eq)]
pub struct RuleConfig {
    pub id: String,
    pub severity: Severity,
}

/// The mathematical value of a [`RuleConfig`].
pub struct RuleConfigView {
    pub id: Seq<char>,
    pub severity: Severity,
}

impl View for RuleConfig {
    type V = RuleConfigView;

    open spec fn view(&self) -> RuleConfigView {
        RuleConfigView { id: self.id@, severity: self.severity }
    }
}

impl DeepView for RuleConfig {
    type V = RuleConfigView;

    open spec fn deep_view(&self) -> RuleConfigView {
        self@
    }
}

/// One finding of a rule: a match, and the message that the rule renders
/// for this match.
#[derive(Debug, PartialEq, Eq)]
pub struct RuleMatch {
    pub node_match: NodeMatch,
    pub message: String,
}

/// The mathematical value of a [`RuleMatch`].
pub struct RuleMatchView {
    pub node_match: NodeMatchView,
    pub message: Seq<char>,
}

impl View for RuleMatch {
    type V = RuleMatchView;

    open spec fn view(&self) -> RuleMatchView {
        RuleMatchView { node_match: self.node_match@, message: self.message@ }
    }
}

impl DeepView for RuleMatch {
    type V = RuleMatchView;

    open spec fn deep_view(&self) -> RuleMatchView {
        self@
    }
}

/// One finding of a rule that comes with a replacement, and the message
/// that the rule renders for the match.
#[derive(Debug, PartialEq, Eq)]
pub struct RuleDiff {
    pub diff: Diff,
    pub message: String,
}

/// The mathematical value of a [`RuleDiff`].
pub struct RuleDiffView {
    pub diff: DiffView,
    pub message: Seq<char>,
}

impl View for RuleDiff {
    type V = RuleDiffView;

    open spec fn view(&self) -> RuleDiffView {
        RuleDiffView { diff: self.diff@, message: self.message@ }
    }
}

impl DeepView for RuleDiff {
    type V = RuleDiffView;

    open spec fn deep_view(&self) -> RuleDiffView {
        self@
    }
}

} // verus!
