//! The streaming printer: it frames rendered records so that everything
//! written between the opening and the closing bracket is one JSON array.
//!
//! A printer is used by one caller at a time. Callers that share one between
//! threads keep it behind a lock and hold the lock for a whole batch; every
//! run is then some sequence of batches, and what is proved here of every
//! sequence holds of every run.

use vstd::prelude::*;
use crate::env::{Diff, DiffView, NodeMatch, NodeMatchView};
use crate::json::{item_docs, json_of, pretty_text, to_vec_pretty, Json};
use crate::record::{diff_record, match_record, rule_diff_record, rule_record, MatchJSON, RuleMatchJSON};
use crate::rule::{RuleConfig, RuleConfigView, RuleDiff, RuleDiffView, RuleMatch, RuleMatchView};
use crate::wire::{match_json, match_value, rule_match_json, rule_match_value};

verus! {

/// The byte of a line feed.
pub const NEWLINE: u8 = 0x0a;

/// The byte of a comma.
pub const COMMA: u8 = 0x2c;

/// The byte of an opening square bracket.
pub const OPEN_BRACKET: u8 = 0x5b;

/// The byte of a closing square bracket.
pub const CLOSE_BRACKET: u8 = 0x5d;

/// What separates two records: a comma and a line feed.
pub open spec fn separator() -> Seq<u8> {
    seq![COMMA, NEWLINE]
}

/// What stands before the first record of a batch: a separator where the
/// array holds a record already, a line feed where it holds none.
pub open spec fn lead(matched: bool) -> Seq<u8> {
    if matched {
        separator()
    } else {
        seq![NEWLINE]
    }
}

/// The records of `docs`, each but the first preceded by a separator.
pub open spec fn joined(docs: Seq<Seq<u8>>) -> Seq<u8>
    decreases docs.len(),
{
    if docs.len() == 0 {
        Seq::empty()
    } else if docs.len() == 1 {
        docs[0]
    } else {
        joined(docs.drop_last()) + separator() + docs.last()
    }
}

/// A whole array of records as text: the brackets alone where there is no
/// record, else each record on lines of its own between the brackets.
pub open spec fn array_text(docs: Seq<Seq<u8>>) -> Seq<u8> {
    if docs.len() == 0 {
        seq![OPEN_BRACKET, CLOSE_BRACKET, NEWLINE]
    } else {
        seq![OPEN_BRACKET, NEWLINE] + joined(docs) + seq![NEWLINE, CLOSE_BRACKET, NEWLINE]
    }
}

/// The records of all the batches, in the order of the batches.
pub open spec fn all_docs(batches: Seq<Seq<Seq<u8>>>) -> Seq<Seq<u8>>
    decreases batches.len(),
{
    if batches.len() == 0 {
        Seq::empty()
    } else {
        all_docs(batches.drop_last()) + batches.last()
    }
}

/// The contents of rendered records.
pub open spec fn doc_bytes(docs: Seq<Vec<u8>>) -> Seq<Seq<u8>> {
    docs.map_values(|doc: Vec<u8>| doc@)
}

/// What rendering makes of each document, in order.
pub open spec fn outcomes(docs: Seq<Json>) -> Seq<Option<Seq<u8>>> {
    docs.map_values(|doc: Json| pretty_text(doc))
}

/// What is written for a batch whose records render as `outcomes`, one
/// record after the other: before each record what separates it from the one
/// before, then its text. The first record that cannot be rendered ends the
/// batch, after its separator was written.
pub open spec fn batch_text(matched: bool, outcomes: Seq<Option<Seq<u8>>>) -> Seq<u8>
    decreases outcomes.len(),
{
    if outcomes.len() == 0 {
        Seq::empty()
    } else {
        match outcomes[0] {
            Some(text) => lead(matched) + text + batch_text(true, outcomes.drop_first()),
            None => lead(matched),
        }
    }
}

/// Every one of the documents can be rendered.
pub open spec fn all_render(docs: Seq<Json>) -> bool {
    forall|i: int| 0 <= i < docs.len() ==> pretty_text(#[trigger] docs[i]) is Some
}

/// The rendered text of each document, in order.
pub open spec fn rendered(docs: Seq<Json>) -> Seq<Seq<u8>> {
    docs.map_values(|doc: Json| pretty_text(doc)->0)
}

/// The documents of a batch of matches found in the file `path`.
pub open spec fn match_docs(matches: Seq<NodeMatchView>, path: Seq<char>) -> Seq<Json> {
    matches.map_values(|nm: NodeMatchView| match_json(match_record(nm, path)))
}

/// The documents of a batch of matches with replacements, found in the file
/// `path`.
pub open spec fn diff_docs(diffs: Seq<DiffView>, path: Seq<char>) -> Seq<Json> {
    diffs.map_values(|diff: DiffView| match_json(diff_record(diff, path)))
}

/// The documents of a batch of findings of `rule` in the file `path`.
pub open spec fn rule_docs(findings: Seq<RuleMatchView>, path: Seq<char>, rule: RuleConfigView) -> Seq<
    Json,
> {
    findings.map_values(
        |finding: RuleMatchView|
            rule_match_json(rule_record(finding.node_match, path, rule, finding.message)),
    )
}

/// The documents of a batch of findings of `rule` with replacements, in the
/// file `path`.
pub open spec fn rule_diff_docs(
    findings: Seq<RuleDiffView>,
    path: Seq<char>,
    rule: RuleConfigView,
) -> Seq<Json> {
    findings.map_values(
        |finding: RuleDiffView|
            rule_match_json(rule_diff_record(finding.diff, path, rule, finding.message)),
    )
}

/// Why a batch was not printed.
#[derive(Clone, Copy, Debug, PartialEq, Eq, Structural)]
pub enum PrintError {
    /// One of the records could not be rendered as JSON text.
    Render,
}

/// A printer writes into a sink of bytes and remembers whether it has
/// written any record yet.
pub struct JSONPrinter {
    output: Vec<u8>,
    matched: bool,
}

/// The mathematical value of a [`JSONPrinter`]: the bytes in its sink and
/// whether a record is among them.
pub struct PrinterView {
    pub output: Seq<u8>,
    pub matched: bool,
}

impl View for JSONPrinter {
    type V = PrinterView;

    closed spec fn view(&self) -> PrinterView {
        PrinterView { output: self.output@, matched: self.matched }
    }
}

impl PrinterView {
    /// A printer that has written nothing yet to a sink that holds `output`.
    pub open spec fn fresh(output: Seq<u8>) -> PrinterView {
        PrinterView { output, matched: false }
    }

    /// The printer after its sink was emptied.
    pub open spec fn drained(self) -> PrinterView {
        PrinterView { output: Seq::empty(), ..self }
    }

    /// The printer after the array was opened.
    pub open spec fn before_print(self) -> PrinterView {
        PrinterView { output: self.output.push(OPEN_BRACKET), ..self }
    }

    /// The printer after one batch of rendered records was printed. An empty
    /// batch changes nothing. Otherwise the batch is written in one piece:
    /// a line feed if it holds the first record of the array, else a
    /// separator, and then its records, separated.
    pub open spec fn print_batch(self, docs: Seq<Seq<u8>>) -> PrinterView {
        if docs.len() == 0 {
            self
        } else {
            PrinterView { output: self.output + lead(self.matched) + joined(docs), matched: true }
        }
    }

    /// The printer after one batch of documents was printed. An empty batch
    /// changes nothing. Otherwise the printer has written a record from now
    /// on, and the documents were rendered and written one after the other,
    /// up to the first that could not be rendered.
    pub open spec fn print_docs(self, docs: Seq<Json>) -> PrinterView {
        if docs.len() == 0 {
            self
        } else {
            PrinterView {
                output: self.output + batch_text(self.matched, outcomes(docs)),
                matched: true,
            }
        }
    }

    /// The printer after several batches were printed one after the other.
    pub open spec fn print_batches(self, batches: Seq<Seq<Seq<u8>>>) -> PrinterView
        decreases batches.len(),
    {
        if batches.len() == 0 {
            self
        } else {
            self.print_batches(batches.drop_last()).print_batch(batches.last())
        }
    }

    /// The printer after the array was closed: a line feed if there is a
    /// record to end, then the closing bracket and a line feed.
    pub open spec fn after_print(self) -> PrinterView {
        PrinterView {
            output: self.output + (if self.matched {
                seq![NEWLINE]
            } else {
                Seq::empty()
            }) + seq![CLOSE_BRACKET, NEWLINE],
            ..self
        }
    }
}

impl JSONPrinter {
    /// A printer that writes behind what `output` already holds.
    pub fn new(output: Vec<u8>) -> (printer: Self)
        ensures
            printer@ == PrinterView::fresh(output@),
    {
        // no match happened yet
        JSONPrinter { output, matched: false }
    }

    /// The bytes written so far.
    pub fn output(&self) -> (bytes: &Vec<u8>)
        ensures
            bytes@ == self@.output,
    {
        &self.output
    }

    /// Whether a record has been written.
    pub fn matched(&self) -> (matched: bool)
        ensures
            matched == self@.matched,
    {
        self.matched
    }

    /// Hands out the bytes written so far and empties the sink. The printer
    /// still knows whether a record has been written.
    pub fn take_output(&mut self) -> (bytes: Vec<u8>)
        ensures
            bytes@ == old(self)@.output,
            final(self)@ == old(self)@.drained(),
    {
        let mut bytes: Vec<u8> = Vec::new();
        bytes.append(&mut self.output);
        bytes
    }

    /// Prints one batch of rendered records.
    pub fn print_rendered(&mut self, docs: &Vec<Vec<u8>>)
        ensures
            final(self)@ == old(self)@.print_batch(doc_bytes(docs@)),
    {
        if docs.len() == 0 {
            return ;
        }
        let ghost texts = doc_bytes(docs@);
        let ghost lead = lead(self.matched);
        let matched = self.matched;
        self.matched = true;
        let mut i: usize = 0;
        if !matched {
            self.output.push(NEWLINE);
            append(&mut self.output, &docs[0]);
            i = 1;
            assert(texts.take(1) =~= seq![texts[0]]);
        }
        while i < docs.len()
            invariant
                i <= docs.len(),
                texts == doc_bytes(docs@),
                self.matched,
                i == 0 ==> matched && self.output@ == old(self).output@,
                i > 0 ==> self.output@ == old(self).output@ + lead + joined(texts.take(i as int)),
                lead == self::lead(matched),
            decreases docs.len() - i,
        {
            let ghost before = self.output@;
            self.output.push(COMMA);
            self.output.push(NEWLINE);
            append(&mut self.output, &docs[i]);
            proof {
                assert(self.output@ =~= before + separator() + texts[i as int]);
                let next = texts.take(i + 1);
                if i == 0 {
                    assert(next =~= seq![texts[0]]);
                    assert(self.output@ =~= old(self).output@ + lead + joined(next));
                } else {
                    assert(next.drop_last() =~= texts.take(i as int));
                    assert(next.last() == texts[i as int]);
                    assert(self.output@ =~= old(self).output@ + lead + joined(next));
                }
            }
            i += 1;
        }
        assert(texts.take(i as int) =~= texts);
    }

    /// Prints one batch of documents: renders and writes them one after the
    /// other. The first document that cannot be rendered ends the batch with
    /// an error; what was written before it stays.
    pub fn print_docs(&mut self, docs: Vec<serde_json::Value>) -> (result: Result<(), PrintError>)
        ensures
            final(self)@ == old(self)@.print_docs(item_docs(docs@)),
            result is Ok <==> all_render(item_docs(docs@)),
    {
        if docs.len() == 0 {
            return Ok(());
        }
        let ghost all = item_docs(docs@);
        let ghost whole = old(self).output@ + batch_text(old(self).matched, outcomes(all));
        let matched = self.matched;
        self.matched = true;
        let mut i: usize = 0;
        assert(outcomes(all).skip(0) =~= outcomes(all));
        if !matched {
            self.output.push(NEWLINE);
            match render(&docs[0]) {
                Ok(text) => {
                    append(&mut self.output, &text);
                    assert(self.output@ =~= old(self).output@ + lead(false) + text@);
                },
                Err(error) => {
                    assert(self.output@ =~= old(self).output@ + lead(false));
                    return Err(error);
                },
            }
            i = 1;
            assert(outcomes(all).drop_first() =~= outcomes(all).skip(1));
            assert(whole =~= self.output@ + batch_text(true, outcomes(all).skip(1)));
            assert(all.take(1) =~= seq![all[0]]);
        }
        while i < docs.len()
            invariant
                i <= docs.len(),
                all == item_docs(docs@),
                self.matched,
                i == 0 ==> matched,
                all_render(all.take(i as int)),
                whole == old(self).output@ + batch_text(old(self).matched, outcomes(all)),
                whole == self.output@ + batch_text(
                    i > 0 || matched,
                    outcomes(all).skip(i as int),
                ),
            decreases docs.len() - i,
        {
            let ghost before = self.output@;
            let ghost rest = outcomes(all).skip(i as int);
            assert(rest[0] == pretty_text(all[i as int]));
            assert(rest.drop_first() =~= outcomes(all).skip(i + 1));
            self.output.push(COMMA);
            self.output.push(NEWLINE);
            assert(self.output@ =~= before + lead(true));
            match render(&docs[i]) {
                Ok(text) => {
                    append(&mut self.output, &text);
                    assert(self.output@ =~= before + lead(true) + text@);
                    assert(all.take(i + 1).drop_last() =~= all.take(i as int));
                },
                Err(error) => {
                    assert(batch_text(true, rest) == lead(true));
                    return Err(error);
                },
            }
            i += 1;
        }
        assert(all.take(i as int) =~= all);
        Ok(())
    }

    /// Prints the findings of a rule in one file as one batch.
    pub fn print_rule(&mut self, matches: Vec<RuleMatch>, file: &str, rule: &RuleConfig) -> (result:
        Result<(), PrintError>)
        requires
            forall|i: int|
                0 <= i < matches.len() ==> (#[trigger] matches[i])@.node_match.env.binds_all_named(),
        ensures
            final(self)@ == old(self)@.print_docs(rule_docs(matches.deep_view(), file@, rule@)),
            result is Ok <==> all_render(rule_docs(matches.deep_view(), file@, rule@)),
    {
        let ghost all = matches@;
        let ghost docs = rule_docs(matches.deep_view(), file@, rule@);
        let mut jsons: Vec<serde_json::Value> = Vec::new();
        for finding in iter: matches
            invariant
                iter.seq() == all,
                forall|i: int|
                    0 <= i < all.len() ==> (#[trigger] all[i])@.node_match.env.binds_all_named(),
                docs.len() == all.len(),
                forall|i: int|
                    0 <= i < all.len() ==> #[trigger] docs[i] == rule_match_json(
                        rule_record(all[i]@.node_match, file@, rule@, all[i]@.message),
                    ),
                item_docs(jsons@) == docs.take(iter.index()),
        {
            let ghost before = item_docs(jsons@);
            let ghost index = iter.index();
            let RuleMatch { node_match, message } = finding;
            let record = RuleMatchJSON::new(node_match, file, rule, message);
            jsons.push(rule_match_value(&record));
            assert(item_docs(jsons@) =~= before.push(docs[index]));
            assert(docs.take(index + 1) =~= docs.take(index).push(docs[index]));
        }
        assert(docs.take(all.len() as int) =~= docs);
        self.print_docs(jsons)
    }

    /// Prints the matches found in one file as one batch.
    pub fn print_matches(&mut self, matches: Vec<NodeMatch>, path: &str) -> (result: Result<
        (),
        PrintError,
    >)
        requires
            forall|i: int| 0 <= i < matches.len() ==> (#[trigger] matches[i])@.env.binds_all_named(),
        ensures
            final(self)@ == old(self)@.print_docs(match_docs(matches.deep_view(), path@)),
            result is Ok <==> all_render(match_docs(matches.deep_view(), path@)),
    {
        let ghost all = matches@;
        let ghost docs = match_docs(matches.deep_view(), path@);
        let mut jsons: Vec<serde_json::Value> = Vec::new();
        for nm in iter: matches
            invariant
                iter.seq() == all,
                forall|i: int| 0 <= i < all.len() ==> (#[trigger] all[i])@.env.binds_all_named(),
                docs.len() == all.len(),
                forall|i: int|
                    0 <= i < all.len() ==> #[trigger] docs[i] == match_json(
                        match_record(all[i]@, path@),
                    ),
                item_docs(jsons@) == docs.take(iter.index()),
        {
            let ghost before = item_docs(jsons@);
            let ghost index = iter.index();
            let record = MatchJSON::new(nm, path);
            jsons.push(match_value(&record));
            assert(item_docs(jsons@) =~= before.push(docs[index]));
            assert(docs.take(index + 1) =~= docs.take(index).push(docs[index]));
        }
        assert(docs.take(all.len() as int) =~= docs);
        self.print_docs(jsons)
    }

    /// Prints the matches with replacements found in one file as one batch.
    pub fn print_diffs(&mut self, diffs: Vec<Diff>, path: &str) -> (result: Result<(), PrintError>)
        requires
            forall|i: int|
                0 <= i < diffs.len() ==> (#[trigger] diffs[i])@.node_match.env.binds_all_named(),
        ensures
            final(self)@ == old(self)@.print_docs(diff_docs(diffs.deep_view(), path@)),
            result is Ok <==> all_render(diff_docs(diffs.deep_view(), path@)),
    {
        let ghost all = diffs@;
        let ghost docs = diff_docs(diffs.deep_view(), path@);
        let mut jsons: Vec<serde_json::Value> = Vec::new();
        for diff in iter: diffs
            invariant
                iter.seq() == all,
                forall|i: int|
                    0 <= i < all.len() ==> (#[trigger] all[i])@.node_match.env.binds_all_named(),
                docs.len() == all.len(),
                forall|i: int|
                    0 <= i < all.len() ==> #[trigger] docs[i] == match_json(
                        diff_record(all[i]@, path@),
                    ),
                item_docs(jsons@) == docs.take(iter.index()),
        {
            let ghost before = item_docs(jsons@);
            let ghost index = iter.index();
            let record = MatchJSON::from_diff(diff, path);
            jsons.push(match_value(&record));
            assert(item_docs(jsons@) =~= before.push(docs[index]));
            assert(docs.take(index + 1) =~= docs.take(index).push(docs[index]));
        }
        assert(docs.take(all.len() as int) =~= docs);
        self.print_docs(jsons)
    }

    /// Prints the findings of a rule with replacements in one file as one
    /// batch.
    pub fn print_rule_diffs(&mut self, diffs: Vec<RuleDiff>, path: &str, rule: &RuleConfig) -> (result:
        Result<(), PrintError>)
        requires
            forall|i: int|
                0 <= i < diffs.len() ==> (#[trigger] diffs[i])@.diff.node_match.env.binds_all_named(),
        ensures
            final(self)@ == old(self)@.print_docs(rule_diff_docs(diffs.deep_view(), path@, rule@)),
            result is Ok <==> all_render(rule_diff_docs(diffs.deep_view(), path@, rule@)),
    {
        let ghost all = diffs@;
        let ghost docs = rule_diff_docs(diffs.deep_view(), path@, rule@);
        let mut jsons: Vec<serde_json::Value> = Vec::new();
        for finding in iter: diffs
            invariant
                iter.seq() == all,
                forall|i: int|
                    0 <= i < all.len() ==> (
                    #[trigger] all[i])@.diff.node_match.env.binds_all_named(),
                docs.len() == all.len(),
                forall|i: int|
                    0 <= i < all.len() ==> #[trigger] docs[i] == rule_match_json(
                        rule_diff_record(all[i]@.diff, path@, rule@, all[i]@.message),
                    ),
                item_docs(jsons@) == docs.take(iter.index()),
        {
            let ghost before = item_docs(jsons@);
            let ghost index = iter.index();
            let RuleDiff { diff, message } = finding;
            let record = RuleMatchJSON::from_diff(diff, path, rule, message);
            jsons.push(rule_match_value(&record));
            assert(item_docs(jsons@) =~= before.push(docs[index]));
            assert(docs.take(index + 1) =~= docs.take(index).push(docs[index]));
        }
        assert(docs.take(all.len() as int) =~= docs);
        self.print_docs(jsons)
    }

    /// Opens the array.
    pub fn before_print(&mut self)
        ensures
            final(self)@ == old(self)@.before_print(),
    {
        self.output.push(OPEN_BRACKET);
    }

    /// Closes the array.
    pub fn after_print(&mut self)
        ensures
            final(self)@ == old(self)@.after_print(),
    {
        let ghost before = self.output@;
        let matched = self.matched;
        if matched {
            self.output.push(NEWLINE);
        }
        self.output.push(CLOSE_BRACKET);
        self.output.push(NEWLINE);
        assert(self.output@ =~= before + (if matched {
            seq![NEWLINE]
        } else {
            Seq::empty()
        }) + seq![CLOSE_BRACKET, NEWLINE]);
    }
}

/// Joining two runs of records that both hold a record is joining each and
/// putting a separator between them.
pub proof fn lemma_joined_concat(first: Seq<Seq<u8>>, second: Seq<Seq<u8>>)
    requires
        first.len() > 0,
        second.len() > 0,
    ensures
        joined(first + second) == joined(first) + separator() + joined(second),
    decreases second.len(),
{
    let both = first + second;
    assert(both.drop_last() =~= first + second.drop_last());
    assert(both.last() == second.last());
    if second.len() == 1 {
        assert(first + second.drop_last() =~= first);
        assert(joined(both) =~= joined(first) + separator() + joined(second));
    } else {
        lemma_joined_concat(first, second.drop_last());
        assert(joined(both) =~= joined(first) + separator() + joined(second));
    }
}

/// Two batches printed one after the other leave what the one batch of
/// their records, in that order, leaves.
pub proof fn lemma_print_batch_twice(state: PrinterView, first: Seq<Seq<u8>>, second: Seq<Seq<u8>>)
    ensures
        state.print_batch(first).print_batch(second) == state.print_batch(first + second),
{
    if first.len() == 0 {
        assert(first + second =~= second);
    } else if second.len() == 0 {
        assert(first + second =~= first);
    } else {
        lemma_joined_concat(first, second);
        assert(state.print_batch(first).print_batch(second).output =~= state.print_batch(
            first + second,
        ).output);
    }
}

/// Batches printed one after the other leave what the one batch of all
/// their records leaves: where one batch ends and the next begins does not
/// show in the output.
pub proof fn lemma_print_batches(state: PrinterView, batches: Seq<Seq<Seq<u8>>>)
    ensures
        state.print_batches(batches) == state.print_batch(all_docs(batches)),
    decreases batches.len(),
{
    if batches.len() > 0 {
        lemma_print_batches(state, batches.drop_last());
        lemma_print_batch_twice(state, all_docs(batches.drop_last()), batches.last());
    }
}

/// Where every record of a batch is rendered, what is written for the batch
/// is what stands before its first record and then its records, separated.
pub proof fn lemma_batch_text_rendered(matched: bool, docs: Seq<Json>)
    requires
        all_render(docs),
        docs.len() > 0,
    ensures
        batch_text(matched, outcomes(docs)) == lead(matched) + joined(rendered(docs)),
    decreases docs.len(),
{
    let rest = docs.drop_first();
    assert(outcomes(docs).drop_first() =~= outcomes(rest));
    assert(outcomes(docs)[0] == pretty_text(docs[0]));
    if rest.len() == 0 {
        assert(batch_text(true, outcomes(rest)) =~= Seq::<u8>::empty());
        assert(batch_text(matched, outcomes(docs)) =~= lead(matched) + rendered(docs)[0]);
    } else {
        assert forall|i: int| 0 <= i < rest.len() implies pretty_text(#[trigger] rest[i]) is Some by {
            assert(rest[i] == docs[i + 1]);
        }
        lemma_batch_text_rendered(true, rest);
        assert(rendered(docs) =~= seq![rendered(docs)[0]] + rendered(rest));
        lemma_joined_concat(seq![rendered(docs)[0]], rendered(rest));
        assert(batch_text(matched, outcomes(docs)) =~= lead(matched) + joined(rendered(docs)));
    }
}

/// A batch of documents that can all be rendered is printed as the batch of
/// their rendered texts.
pub proof fn lemma_print_docs_rendered(state: PrinterView, docs: Seq<Json>)
    requires
        all_render(docs),
    ensures
        state.print_docs(docs) == state.print_batch(rendered(docs)),
{
    if docs.len() > 0 {
        lemma_batch_text_rendered(state.matched, docs);
        assert(state.print_docs(docs).output =~= state.print_batch(rendered(docs)).output);
    }
}

/// Two batches of documents that can all be rendered, printed one after the
/// other, leave what the one batch of all of them leaves.
pub proof fn lemma_print_docs_twice(state: PrinterView, first: Seq<Json>, second: Seq<Json>)
    requires
        all_render(first),
        all_render(second),
    ensures
        all_render(first + second),
        state.print_docs(first).print_docs(second) == state.print_docs(first + second),
{
    assert(rendered(first + second) =~= rendered(first) + rendered(second));
    lemma_print_docs_rendered(state, first);
    lemma_print_docs_rendered(state.print_docs(first), second);
    lemma_print_docs_rendered(state, first + second);
    lemma_print_batch_twice(state, rendered(first), rendered(second));
}

/// Whether a record has been written is never forgotten: opening and
/// closing leave it as it is, and a batch sets it exactly when the batch
/// holds a record, whether or not all of its records could be rendered. So
/// the batch after one that failed starts with a separator.
pub proof fn lemma_matched(
    state: PrinterView,
    batches: Seq<Seq<Seq<u8>>>,
    docs: Seq<Seq<u8>>,
    jsons: Seq<Json>,
)
    ensures
        state.before_print().matched == state.matched,
        state.after_print().matched == state.matched,
        state.print_batch(docs).matched == (state.matched || docs.len() > 0),
        state.print_docs(jsons).matched == (state.matched || jsons.len() > 0),
        state.print_batches(batches).matched == (state.matched || all_docs(batches).len() > 0),
        jsons.len() > 0 && docs.len() > 0 ==> state.print_docs(jsons).print_batch(docs).output
            == state.print_docs(jsons).output + separator() + joined(docs),
{
    lemma_print_batches(state, batches);
}

/// What a step writes does not depend on what the sink holds: each step
/// leaves what the sink held, and behind it what the same step writes into an
/// emptied sink. So the sink may be emptied between any two steps, and the
/// pieces taken out, put together, are what an untouched sink would hold.
pub proof fn lemma_steps_append(state: PrinterView, docs: Seq<Seq<u8>>, jsons: Seq<Json>)
    ensures
        state.before_print().output == state.output + state.drained().before_print().output,
        state.print_batch(docs).output == state.output + state.drained().print_batch(docs).output,
        state.print_docs(jsons).output == state.output + state.drained().print_docs(jsons).output,
        state.after_print().output == state.output + state.drained().after_print().output,
        state.before_print().drained() == state.drained().before_print().drained(),
        state.print_batch(docs).drained() == state.drained().print_batch(docs).drained(),
        state.print_docs(jsons).drained() == state.drained().print_docs(jsons).drained(),
        state.after_print().drained() == state.drained().after_print().drained(),
{
    assert(state.before_print().output =~= state.output + state.drained().before_print().output);
    assert(state.print_batch(docs).output =~= state.output + state.drained().print_batch(
        docs,
    ).output);
    assert(state.print_docs(jsons).output =~= state.output + state.drained().print_docs(
        jsons,
    ).output);
    assert(state.after_print().output =~= state.output + state.drained().after_print().output);
}

/// A whole run writes one array. Open the array, print any batches one after
/// the other, close the array: behind what the sink held before stands the
/// array of all the records, batch after batch, each batch in its own order
/// and in one piece.
pub proof fn lemma_run_writes_array(start: Seq<u8>, batches: Seq<Seq<Seq<u8>>>)
    ensures
        PrinterView::fresh(start).before_print().print_batches(batches).after_print().output
            == start + array_text(all_docs(batches)),
{
    let opened = PrinterView::fresh(start).before_print();
    lemma_print_batches(opened, batches);
    assert(opened.print_batch(all_docs(batches)).after_print().output =~= start + array_text(
        all_docs(batches),
    ));
}

/// Two batches that each hold a record, printed between one opening and one
/// closing of the array, give the array of the records of the batch that
/// was printed first followed by those of the other. Whichever of two
/// callers gets hold of the printer first is `first` here.
pub proof fn lemma_two_batches(start: Seq<u8>, first: Seq<Seq<u8>>, second: Seq<Seq<u8>>)
    requires
        first.len() > 0,
        second.len() > 0,
    ensures
        PrinterView::fresh(start).before_print().print_batch(first).print_batch(second).after_print().output
            == start + array_text(first + second),
        array_text(first + second) == seq![OPEN_BRACKET, NEWLINE] + joined(first) + separator()
            + joined(second) + seq![NEWLINE, CLOSE_BRACKET, NEWLINE],
{
    let batches = seq![first, second];
    assert(batches.drop_last() =~= seq![first]);
    assert(seq![first].drop_last() =~= Seq::<Seq<Seq<u8>>>::empty());
    assert(all_docs(seq![first]) =~= first) by {
        reveal_with_fuel(all_docs, 2);
    }
    assert(all_docs(batches) =~= first + second);
    let opened = PrinterView::fresh(start).before_print();
    assert(opened.print_batches(batches) == opened.print_batch(first).print_batch(second)) by {
        reveal_with_fuel(PrinterView::print_batches, 3);
    }
    lemma_run_writes_array(start, batches);
    lemma_joined_concat(first, second);
}

/// A run in which every batch is empty writes the two brackets with nothing
/// between them, and a line feed.
pub proof fn lemma_empty_run(start: Seq<u8>, batches: Seq<Seq<Seq<u8>>>)
    requires
        forall|i: int| 0 <= i < batches.len() ==> (#[trigger] batches[i]).len() == 0,
    ensures
        PrinterView::fresh(start).before_print().print_batches(batches).after_print().output
            == start + seq![OPEN_BRACKET, CLOSE_BRACKET, NEWLINE],
{
    lemma_run_writes_array(start, batches);
    lemma_all_docs_empty(batches);
}

/// Batches without records hold no records between them.
proof fn lemma_all_docs_empty(batches: Seq<Seq<Seq<u8>>>)
    requires
        forall|i: int| 0 <= i < batches.len() ==> (#[trigger] batches[i]).len() == 0,
    ensures
        all_docs(batches).len() == 0,
    decreases batches.len(),
{
    if batches.len() > 0 {
        lemma_all_docs_empty(batches.drop_last());
    }
}

/// A run that prints exactly one record writes the opening bracket, a line
/// feed, the record, a line feed, the closing bracket and a line feed.
pub proof fn lemma_single_record(start: Seq<u8>, doc: Seq<u8>)
    ensures
        PrinterView::fresh(start).before_print().print_batch(seq![doc]).after_print().output
            == start + seq![OPEN_BRACKET, NEWLINE] + doc + seq![NEWLINE, CLOSE_BRACKET, NEWLINE],
{
    let opened = PrinterView::fresh(start).before_print();
    assert(opened.print_batch(seq![doc]).after_print().output =~= start + seq![
        OPEN_BRACKET,
        NEWLINE,
    ] + doc + seq![NEWLINE, CLOSE_BRACKET, NEWLINE]);
}

/// Renders one document as pretty-printed JSON text.
pub fn render(doc: &serde_json::Value) -> (result: Result<Vec<u8>, PrintError>)
    ensures
        match result {
            Ok(text) => pretty_text(json_of(*doc)) == Some(text@),
            Err(_) => pretty_text(json_of(*doc)) is None,
        },
{
    match to_vec_pretty(doc) {
        Ok(text) => Ok(text),
        Err(_) => Err(PrintError::Render),
    }
}

/// Writes `bytes` behind what `output` holds.
fn append(output: &mut Vec<u8>, bytes: &Vec<u8>)
    ensures
        final(output)@ == old(output)@ + bytes@,
{
    output.extend_from_slice(bytes.as_slice());
    assert(output@ =~= old(output)@ + bytes@);
}

} // verus!
