//! The engine: a rule set compiled once, then asked for decisions.

use crate::backend::{
    accepts_line, backend_accepts, backend_verdict, check_request, compile_list, engine_list,
    string_of,
};
use crate::decision::{resolve, resolve_spec, Decision};
use crate::parser::{parse_chars, parse_spec, LineView, ParseError, ParsedLine};
use crate::request::{source_url_spec, RequestContext, RequestView};
use crate::rule::{render, rule_views, well_formed, Rule, RuleView};
use crate::text::{split, split_chars, to_chars, trim, trimmed, views};
use vstd::prelude::*;
use vstd::string::*;

verus! {

/// Why a line that holds a rule did not enter the rule set.
#[derive(Clone, Copy, Debug, PartialEq, Eq, Hash, Structural)]
pub enum RejectReason {
    /// No pattern stands before the options.
    EmptyPattern,
    /// The option string is not a list of well-formed options.
    MalformedOptions,
    /// The rule is well formed, but the matcher does not take it.
    Unsupported,
}

/// One build-time failure: the line, without the blank space around it, and
/// why it was rejected.
#[derive(Clone, Debug, PartialEq, Eq)]
pub struct Diagnostic {
    pub line: String,
    pub reason: RejectReason,
}

/// The view of a [`Diagnostic`].
pub struct DiagnosticView {
    pub line: Seq<char>,
    pub reason: RejectReason,
}

impl View for Diagnostic {
    type V = DiagnosticView;

    open spec fn view(&self) -> DiagnosticView {
        DiagnosticView { line: self.line@, reason: self.reason }
    }
}

/// The views of a sequence of diagnostics.
pub open spec fn diagnostic_views(diagnostics: Seq<Diagnostic>) -> Seq<DiagnosticView> {
    Seq::new(diagnostics.len(), |i: int| diagnostics[i]@)
}

/// The views of a sequence of strings.
pub open spec fn text_views(texts: Seq<String>) -> Seq<Seq<char>> {
    Seq::new(texts.len(), |i: int| texts[i]@)
}

/// What becomes of one line at build time.
pub enum Admission {
    /// It holds no network rule, and nothing is wrong with it.
    Skipped,
    /// It holds this rule, which enters the rule set.
    Accepted(RuleView),
    /// It is rejected, for this reason.
    Rejected(RejectReason),
}

/// What becomes of `line` at build time: a rule that parses enters the rule
/// set if the matcher takes its canonical spelling.
pub open spec fn admission(line: Seq<char>) -> Admission {
    match parse_spec(line) {
        LineView::Skipped(_) => Admission::Skipped,
        LineView::Malformed(ParseError::EmptyPattern) => Admission::Rejected(
            RejectReason::EmptyPattern,
        ),
        LineView::Malformed(ParseError::MalformedOptions) => Admission::Rejected(
            RejectReason::MalformedOptions,
        ),
        LineView::Rule(rule) => if backend_accepts(render(rule)) {
            Admission::Accepted(rule)
        } else {
            Admission::Rejected(RejectReason::Unsupported)
        },
    }
}

/// The rules that `lines` bring into the rule set, in the order of the lines.
pub open spec fn accepted(lines: Seq<Seq<char>>) -> Seq<RuleView>
    decreases lines.len(),
{
    if lines.len() == 0 {
        Seq::empty()
    } else {
        let before = accepted(lines.drop_last());
        match admission(lines.last()) {
            Admission::Accepted(rule) => before.push(rule),
            _ => before,
        }
    }
}

/// The failures among `lines`, in the order of the lines.
pub open spec fn rejected(lines: Seq<Seq<char>>) -> Seq<DiagnosticView>
    decreases lines.len(),
{
    if lines.len() == 0 {
        Seq::empty()
    } else {
        let before = rejected(lines.drop_last());
        match admission(lines.last()) {
            Admission::Rejected(reason) => before.push(
                DiagnosticView { line: trim(lines.last()), reason },
            ),
            _ => before,
        }
    }
}

/// The lines of several filter lists, taken as one list: each text is cut at
/// its line feeds, and the texts follow each other.
pub open spec fn lines_of(texts: Seq<Seq<char>>) -> Seq<Seq<char>>
    decreases texts.len(),
{
    if texts.len() == 0 {
        Seq::empty()
    } else {
        lines_of(texts.drop_last()) + split(texts.last(), '\n')
    }
}

/// The filter list that the matcher is given for `rules`: the canonical
/// spelling of each rule, each followed by a line feed.
pub open spec fn list_text(rules: Seq<RuleView>) -> Seq<char>
    decreases rules.len(),
{
    if rules.len() == 0 {
        Seq::empty()
    } else {
        list_text(rules.drop_last()) + render(rules.last()) + "\n"@
    }
}

/// The decision of a rule set for a request.
///
/// An empty rule set allows everything. Otherwise the matcher is asked; a
/// URL that it cannot read is allowed, and what it finds is resolved with
/// exceptions first.
pub open spec fn verdict(rules: Seq<RuleView>, request: RequestView) -> Decision {
    if rules.len() == 0 {
        Decision::Allow
    } else {
        match backend_verdict(
            list_text(rules),
            request.url,
            source_url_spec(request.source_domain),
            request.resource_type.tag_spec(),
        ) {
            Some(found) => resolve_spec(found),
            None => Decision::Allow,
        }
    }
}

/// A compiled rule set. It does not change once it is built.
pub struct FilterEngine {
    compiled: adblock::Engine,
    rules: Vec<Rule>,
    diagnostics: Vec<Diagnostic>,
}

/// The view of an [`FilterEngine`]: its rules in parse order, and the failures
/// of its build.
pub struct EngineView {
    pub rules: Seq<RuleView>,
    pub diagnostics: Seq<DiagnosticView>,
}

impl View for FilterEngine {
    type V = EngineView;

    closed spec fn view(&self) -> EngineView {
        EngineView {
            rules: rule_views(self.rules@),
            diagnostics: diagnostic_views(self.diagnostics@),
        }
    }
}

/// Whether every rule of `rules` is well formed.
pub open spec fn all_well_formed(rules: Seq<RuleView>) -> bool {
    forall|i: int| 0 <= i < rules.len() ==> well_formed(#[trigger] rules[i])
}

/// The lines of `texts`, as character vectors.
fn collect_lines(texts: &Vec<String>) -> (lines: Vec<Vec<char>>)
    ensures
        views(lines@) == lines_of(text_views(texts@)),
{
    let ghost all = text_views(texts@);
    let mut lines: Vec<Vec<char>> = Vec::new();
    let mut i: usize = 0;
    assert(all.take(0) =~= Seq::empty());
    while i < texts.len()
        invariant
            i <= texts.len(),
            all == text_views(texts@),
            views(lines@) == lines_of(all.take(i as int)),
        decreases texts.len() - i,
    {
        let chars = to_chars(texts[i].as_str());
        let mut parts = split_chars(&chars, '\n');
        let ghost before = lines@;
        let ghost added = parts@;
        lines.append(&mut parts);
        proof {
            assert(all.take(i as int + 1).drop_last() =~= all.take(i as int));
            assert(all.take(i as int + 1).last() == texts@[i as int]@);
            assert(views(before + added) =~= views(before) + views(added));
        }
        i += 1;
    }
    assert(all.take(i as int) =~= all);
    lines
}

impl FilterEngine {
    #[verifier::type_invariant]
    spec fn compiled_from_rules(self) -> bool {
        engine_list(self.compiled) == list_text(rule_views(self.rules@))
    }

    /// Compiles the rules that `lines` hold.
    fn from_lines(lines: &Vec<Vec<char>>) -> (engine: FilterEngine)
        ensures
            engine@.rules == accepted(views(lines@)),
            engine@.diagnostics == rejected(views(lines@)),
            all_well_formed(engine@.rules),
    {
        let ghost all = views(lines@);
        let mut rules: Vec<Rule> = Vec::new();
        let mut diagnostics: Vec<Diagnostic> = Vec::new();
        let mut list = String::new();
        let mut i: usize = 0;
        assert(all.take(0) =~= Seq::empty());
        assert(rule_views(rules@) =~= Seq::empty());
        assert(diagnostic_views(diagnostics@) =~= Seq::empty());
        while i < lines.len()
            invariant
                i <= lines.len(),
                all == views(lines@),
                rule_views(rules@) == accepted(all.take(i as int)),
                diagnostic_views(diagnostics@) == rejected(all.take(i as int)),
                list@ == list_text(rule_views(rules@)),
                all_well_formed(rule_views(rules@)),
            decreases lines.len() - i,
        {
            let line = &lines[i];
            proof {
                assert(all.take(i as int + 1).drop_last() =~= all.take(i as int));
                assert(all.take(i as int + 1).last() == line@);
            }
            let ghost old_rules = rule_views(rules@);
            let ghost old_diagnostics = diagnostic_views(diagnostics@);
            let rejection: Option<RejectReason> = match parse_chars(line) {
                ParsedLine::Skipped(_) => None,
                ParsedLine::Malformed(ParseError::EmptyPattern) => Some(
                    RejectReason::EmptyPattern,
                ),
                ParsedLine::Malformed(ParseError::MalformedOptions) => Some(
                    RejectReason::MalformedOptions,
                ),
                ParsedLine::Rule(rule) => {
                    let spelling = rule.canonical_text();
                    if accepts_line(spelling.as_str()) {
                        list.append(spelling.as_str());
                        list.append("\n");
                        rules.push(rule);
                        proof {
                            assert(rule_views(rules@) =~= old_rules.push(rule@));
                            assert(rule_views(rules@).drop_last() =~= old_rules);
                        }
                        None
                    } else {
                        Some(RejectReason::Unsupported)
                    }
                },
            };
            if let Some(reason) = rejection {
                let text = trimmed(line);
                let entry = Diagnostic { line: string_of(&text), reason };
                diagnostics.push(entry);
                assert(diagnostic_views(diagnostics@) =~= old_diagnostics.push(entry@));
            }
            i += 1;
        }
        assert(all.take(i as int) =~= all);
        FilterEngine { compiled: compile_list(list), rules, diagnostics }
    }

    /// Builds an engine from filter lists. Each text is one list, a rule to a
    /// line; the lists count as one. A line that cannot be taken is left out
    /// and recorded, and the build goes on: it never fails.
    pub fn build(texts: &Vec<String>) -> (engine: FilterEngine)
        ensures
            engine@.rules == accepted(lines_of(text_views(texts@))),
            engine@.diagnostics == rejected(lines_of(text_views(texts@))),
            all_well_formed(engine@.rules),
    {
        let lines = collect_lines(texts);
        FilterEngine::from_lines(&lines)
    }

    /// Builds an engine from one filter list.
    pub fn from_text(text: &str) -> (engine: FilterEngine)
        ensures
            engine@.rules == accepted(split(text@, '\n')),
            engine@.diagnostics == rejected(split(text@, '\n')),
            all_well_formed(engine@.rules),
    {
        let chars = to_chars(text);
        let lines = split_chars(&chars, '\n');
        FilterEngine::from_lines(&lines)
    }

    /// The decision for `request`.
    pub fn decide(&self, request: &RequestContext) -> (d: Decision)
        ensures
            d == verdict(self@.rules, request@),
            self@.rules.len() == 0 ==> d == Decision::Allow,
    {
        proof {
            use_type_invariant(self);
        }
        if self.rules.len() == 0 {
            return Decision::Allow;
        }
        let source = request.source_url();
        let found = check_request(
            &self.compiled,
            request.url.as_str(),
            source.as_str(),
            request.resource_type.tag(),
        );
        match found {
            Some(outcome) => resolve(outcome),
            None => Decision::Allow,
        }
    }

    /// The rules of this engine, in parse order.
    pub fn rules(&self) -> (rules: &Vec<Rule>)
        ensures
            rule_views(rules@) == self@.rules,
    {
        &self.rules
    }

    /// The failures of the build, in the order of the lines.
    pub fn diagnostics(&self) -> (diagnostics: &Vec<Diagnostic>)
        ensures
            diagnostic_views(diagnostics@) == self@.diagnostics,
    {
        &self.diagnostics
    }
}

} // verus!
