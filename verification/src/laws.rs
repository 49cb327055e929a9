//! What holds of the engine as a whole, stated over the spec functions that
//! the contracts of its functions use.

use crate::backend::{backend_accepts, backend_verdict};
use crate::decision::{resolve_spec, Decision, MatchOutcome};
use crate::engine::{
    accepted, admission, lines_of, list_text, rejected, verdict, Admission, DiagnosticView,
    FilterEngine,
};
use crate::parser::{parse_spec, LineView};
use crate::request::{source_url_spec, RequestView};
use crate::rule::{render, well_formed, RuleView};
use crate::spelling::{
    is_single_line, lemma_parsed_rule_is_well_formed, lemma_spelling_is_single_line,
    lemma_spelling_parses_back,
};
use crate::text::{join, lemma_join_push, lemma_split_fields, lemma_split_join, split, trim};
use vstd::prelude::*;

verus! {

/// An empty rule set allows every request.
pub proof fn law_empty_rule_set_allows(request: RequestView)
    ensures
        verdict(Seq::empty(), request) == Decision::Allow,
{
}

/// Lines of which none brings a rule make an engine that allows every
/// request.
pub proof fn law_no_valid_rule_allows(engine: FilterEngine, texts: Seq<Seq<char>>, request: RequestView)
    requires
        engine@.rules == accepted(lines_of(texts)),
        accepted(lines_of(texts)).len() == 0,
    ensures
        verdict(engine@.rules, request) == Decision::Allow,
{
}

/// A request with a URL that the matcher cannot read is allowed, whatever
/// the rules: the engine fails open.
pub proof fn law_unreadable_url_is_allowed(rules: Seq<RuleView>, request: RequestView)
    requires
        backend_verdict(
            list_text(rules),
            request.url,
            source_url_spec(request.source_domain),
            request.resource_type.tag_spec(),
        ) is None,
    ensures
        verdict(rules, request) == Decision::Allow,
{
}

/// A matching exception allows the request, however many blocking rules
/// match; a request is blocked exactly where a blocking rule matches and no
/// exception does.
pub proof fn law_exception_wins(found: MatchOutcome)
    ensures
        found.excepted ==> resolve_spec(found) == Decision::Allow,
        resolve_spec(found) == Decision::Block <==> found.blocked && !found.excepted,
{
}

/// Two engines built from the same texts hold the same rules and the same
/// failures, and decide every request alike.
pub proof fn law_rebuild_decides_alike(
    first: FilterEngine,
    second: FilterEngine,
    texts: Seq<Seq<char>>,
    request: RequestView,
)
    requires
        first@.rules == accepted(lines_of(texts)),
        first@.diagnostics == rejected(lines_of(texts)),
        second@.rules == accepted(lines_of(texts)),
        second@.diagnostics == rejected(lines_of(texts)),
    ensures
        first@ == second@,
        verdict(first@.rules, request) == verdict(second@.rules, request),
{
}

/// A blank line, a comment and a cosmetic rule change neither the rules nor
/// the failures.
pub proof fn law_skipped_line_changes_nothing(lines: Seq<Seq<char>>, line: Seq<char>)
    requires
        parse_spec(line) is Skipped,
    ensures
        accepted(lines.push(line)) == accepted(lines),
        rejected(lines.push(line)) == rejected(lines),
{
    assert(lines.push(line).drop_last() =~= lines);
}

/// Lines that follow each other bring the rules of the first, then the rules
/// of the second; the failures likewise.
pub proof fn law_lines_add_up(first: Seq<Seq<char>>, second: Seq<Seq<char>>)
    ensures
        accepted(first + second) == accepted(first) + accepted(second),
        rejected(first + second) == rejected(first) + rejected(second),
    decreases second.len(),
{
    if second.len() == 0 {
        assert(first + second =~= first);
        assert(accepted(first) + accepted(second) =~= accepted(first));
        assert(rejected(first) + rejected(second) =~= rejected(first));
    } else {
        let all = first + second;
        assert(all.drop_last() =~= first + second.drop_last());
        assert(all.last() == second.last());
        law_lines_add_up(first, second.drop_last());
        assert(accepted(all) =~= accepted(first) + accepted(second));
        assert(rejected(all) =~= rejected(first) + rejected(second));
    }
}

/// Several filter lists count as one: the lines of texts that follow each
/// other are the lines of the first texts, then those of the others.
pub proof fn law_texts_add_up(first: Seq<Seq<char>>, second: Seq<Seq<char>>)
    ensures
        lines_of(first + second) == lines_of(first) + lines_of(second),
        accepted(lines_of(first + second)) == accepted(lines_of(first)) + accepted(
            lines_of(second),
        ),
        rejected(lines_of(first + second)) == rejected(lines_of(first)) + rejected(
            lines_of(second),
        ),
    decreases second.len(),
{
    if second.len() == 0 {
        assert(first + second =~= first);
        assert(lines_of(first) + lines_of(second) =~= lines_of(first));
    } else {
        let all = first + second;
        assert(all.drop_last() =~= first + second.drop_last());
        assert(all.last() == second.last());
        law_texts_add_up(first, second.drop_last());
        assert(lines_of(all) =~= lines_of(first) + lines_of(second));
    }
    law_lines_add_up(lines_of(first), lines_of(second));
}

/// No line is lost: a line that holds a rule which the matcher takes has
/// that rule in the rule set, and every other line that is not skipped has
/// its failure recorded.
pub proof fn law_every_line_is_accounted_for(lines: Seq<Seq<char>>, i: int)
    requires
        0 <= i < lines.len(),
    ensures
        match admission(lines[i]) {
            Admission::Skipped => parse_spec(lines[i]) is Skipped,
            Admission::Accepted(rule) => accepted(lines).contains(rule),
            Admission::Rejected(reason) => rejected(lines).contains(
                DiagnosticView { line: trim(lines[i]), reason },
            ),
        },
    decreases lines.len(),
{
    let before = lines.drop_last();
    if i == lines.len() - 1 {
        match admission(lines[i]) {
            Admission::Skipped => {},
            Admission::Accepted(rule) => {
                assert(accepted(lines) == accepted(before).push(rule));
                assert(accepted(lines).last() == rule);
            },
            Admission::Rejected(reason) => {
                let entry = DiagnosticView { line: trim(lines[i]), reason };
                assert(rejected(lines) == rejected(before).push(entry));
                assert(rejected(lines).last() == entry);
            },
        }
    } else {
        assert(before[i] == lines[i]);
        law_every_line_is_accounted_for(before, i);
        match admission(lines[i]) {
            Admission::Skipped => {},
            Admission::Accepted(rule) => {
                let k = choose|k: int| 0 <= k < accepted(before).len() && accepted(before)[k] == rule;
                assert(accepted(lines)[k] == rule);
            },
            Admission::Rejected(reason) => {
                let entry = DiagnosticView { line: trim(lines[i]), reason };
                let k = choose|k: int| 0 <= k < rejected(before).len() && rejected(before)[k] == entry;
                assert(rejected(lines)[k] == entry);
            },
        }
    }
}

/// Every rule of the rule set comes from a line that holds it: it is well
/// formed, the matcher takes its spelling, and that spelling holds the rule.
/// A line with an empty pattern or a malformed option string brings no rule.
pub proof fn law_rules_are_sound(lines: Seq<Seq<char>>, k: int)
    requires
        0 <= k < accepted(lines).len(),
    ensures
        well_formed(accepted(lines)[k]),
        backend_accepts(render(accepted(lines)[k])),
        parse_spec(render(accepted(lines)[k])) == LineView::Rule(accepted(lines)[k]),
        exists|i: int|
            0 <= i < lines.len() && parse_spec(#[trigger] lines[i]) == LineView::Rule(
                accepted(lines)[k],
            ),
    decreases lines.len(),
{
    let before = lines.drop_last();
    let rule = accepted(lines)[k];
    if k < accepted(before).len() {
        assert(accepted(before)[k] == rule);
        law_rules_are_sound(before, k);
        let i = choose|i: int|
            0 <= i < before.len() && parse_spec(#[trigger] before[i]) == LineView::Rule(rule);
        assert(lines[i] == before[i]);
    } else {
        assert(admission(lines.last()) == Admission::Accepted(rule));
        assert(parse_spec(lines[lines.len() - 1]) == LineView::Rule(rule));
        lemma_parsed_rule_is_well_formed(lines.last());
    }
    lemma_spelling_parses_back(rule);
}

/// The spellings of `rules`, in order.
pub open spec fn spellings(rules: Seq<RuleView>) -> Seq<Seq<char>> {
    Seq::new(rules.len(), |i: int| render(rules[i]))
}

/// The list for the matcher is the spellings of the rules, a line feed after
/// each.
proof fn lemma_list_is_a_join(rules: Seq<RuleView>)
    ensures
        list_text(rules) == join(spellings(rules).push(Seq::empty()), "\n"@),
    decreases rules.len(),
{
    let lines = spellings(rules);
    if rules.len() == 0 {
        assert(lines.push(Seq::empty()) =~= seq![Seq::<char>::empty()]);
    } else {
        let before = rules.drop_last();
        let first = spellings(before);
        lemma_list_is_a_join(before);
        assert(lines =~= first.push(render(rules.last())));
        lemma_join_push(lines, "\n"@, Seq::empty());
        if before.len() == 0 {
            assert(first.push(Seq::empty()) =~= seq![Seq::<char>::empty()]);
            assert(lines =~= seq![render(rules.last())]);
            assert(list_text(rules) =~= render(rules.last()) + "\n"@);
            assert(join(lines, "\n"@) + "\n"@ + Seq::<char>::empty() =~= render(rules.last())
                + "\n"@);
        } else {
            lemma_join_push(first, "\n"@, Seq::empty());
            lemma_join_push(first, "\n"@, render(rules.last()));
            assert(list_text(rules) =~= join(first, "\n"@) + "\n"@ + render(rules.last())
                + "\n"@);
            assert(join(lines, "\n"@) + "\n"@ + Seq::<char>::empty() =~= join(first, "\n"@)
                + "\n"@ + render(rules.last()) + "\n"@);
        }
    }
}

/// The rules that single lines bring are spelled as single lines.
proof fn lemma_spellings_are_single_lines(lines: Seq<Seq<char>>)
    requires
        forall|i: int| 0 <= i < lines.len() ==> is_single_line(#[trigger] lines[i]),
    ensures
        forall|k: int|
            0 <= k < accepted(lines).len() ==> is_single_line(
                #[trigger] render(accepted(lines)[k]),
            ),
    decreases lines.len(),
{
    if lines.len() > 0 {
        let before = lines.drop_last();
        assert forall|i: int| 0 <= i < before.len() implies is_single_line(
            #[trigger] before[i],
        ) by {
            assert(before[i] == lines[i]);
        }
        lemma_spellings_are_single_lines(before);
        assert(is_single_line(lines[lines.len() - 1]));
        lemma_spelling_is_single_line(lines.last());
        assert forall|k: int| 0 <= k < accepted(lines).len() implies is_single_line(
            #[trigger] render(accepted(lines)[k]),
        ) by {
            if k < accepted(before).len() {
                assert(accepted(lines)[k] == accepted(before)[k]);
            }
        }
    }
}

/// The lines of texts are single lines.
proof fn lemma_lines_are_single(texts: Seq<Seq<char>>)
    ensures
        forall|i: int|
            0 <= i < lines_of(texts).len() ==> is_single_line(#[trigger] lines_of(texts)[i]),
    decreases texts.len(),
{
    if texts.len() > 0 {
        let before = lines_of(texts.drop_last());
        let last = split(texts.last(), '\n');
        lemma_lines_are_single(texts.drop_last());
        lemma_split_fields(texts.last(), '\n');
        assert forall|i: int| 0 <= i < lines_of(texts).len() implies is_single_line(
            #[trigger] lines_of(texts)[i],
        ) by {
            if i < before.len() {
                assert(lines_of(texts)[i] == before[i]);
            } else {
                let field = last[i - before.len()];
                assert(lines_of(texts)[i] == field);
                assert forall|j: int| 0 <= j < field.len() implies #[trigger] field[j]
                    != '\n' by {
                    assert(last[i - before.len()][j] != '\n');
                }
            }
        }
    }
}

/// What the matcher is given, read line by line, is the spelling of each
/// rule of the engine, in parse order, and an empty line after the last.
pub proof fn law_list_is_a_line_per_rule(texts: Seq<Seq<char>>)
    ensures
        split(list_text(accepted(lines_of(texts))), '\n') == spellings(
            accepted(lines_of(texts)),
        ).push(Seq::empty()),
{
    reveal_strlit("\n");
    assert("\n"@ =~= seq!['\n']);
    let rules = accepted(lines_of(texts));
    let fields = spellings(rules).push(Seq::empty());
    lemma_list_is_a_join(rules);
    lemma_lines_are_single(texts);
    lemma_spellings_are_single_lines(lines_of(texts));
    assert forall|i: int, j: int| 0 <= i < fields.len() && 0 <= j < fields[i].len() implies (
    #[trigger] fields[i][j]) != '\n' by {
        assert(fields[i] == render(rules[i]));
        assert(is_single_line(render(accepted(lines_of(texts))[i])));
    }
    lemma_split_join(fields, '\n');
}

} // verus!
