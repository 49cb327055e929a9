//! The rule parser: one line of a filter list to a structured rule.

use crate::backend::string_of;
use crate::resource::ResourceType;
use crate::rule::{
    domain_views, is_domain_char, is_domain_name, option_views, well_formed, DomainEntry,
    DomainView, OptionView, Rule, RuleOption, RuleView,
};
use crate::spelling::lemma_parsed_rule_is_well_formed;
use crate::text::{
    begins_with, contains, find_from, holds, index_of, is_space_char, slice_chars, spells, split,
    split_chars, starts_with, to_chars, trim, trimmed, views,
};
use vstd::prelude::*;

verus! {

/// Why a line holds no network rule though nothing is wrong with it.
#[derive(Clone, Copy, Debug, PartialEq, Eq, Hash, Structural)]
pub enum SkipReason {
    /// Nothing but blank space.
    Blank,
    /// A comment: the line starts with `!`.
    Comment,
    /// A cosmetic rule: the line holds `##` or `#@#`.
    Cosmetic,
}

/// Why a line that should hold a network rule holds none.
#[derive(Clone, Copy, Debug, PartialEq, Eq, Hash, Structural)]
pub enum ParseError {
    /// No pattern stands before the options.
    EmptyPattern,
    /// The option string is not a list of well-formed options.
    MalformedOptions,
}

/// What one line of a filter list holds.
#[derive(Clone, Debug, PartialEq, Eq)]
pub enum ParsedLine {
    Skipped(SkipReason),
    Rule(Rule),
    Malformed(ParseError),
}

/// The view of a [`ParsedLine`].
pub enum LineView {
    Skipped(SkipReason),
    Rule(RuleView),
    Malformed(ParseError),
}

impl View for ParsedLine {
    type V = LineView;

    open spec fn view(&self) -> LineView {
        match *self {
            ParsedLine::Skipped(reason) => LineView::Skipped(reason),
            ParsedLine::Rule(rule) => LineView::Rule(rule@),
            ParsedLine::Malformed(error) => LineView::Malformed(error),
        }
    }
}

/// What one item of an option string holds.
pub enum ItemView {
    /// An option of one of the known kinds.
    Known(OptionView),
    /// An option with a key that is not known: it is passed over.
    Ignored,
    /// Not an option: no key, a known key in a form it does not have, or a
    /// domain list with a bad entry.
    Malformed,
}

/// The entry that one field of a `domain=` list holds: a domain name, with
/// `~` before it where the entry is negated.
pub open spec fn domain_spec(field: Seq<char>) -> Option<DomainView> {
    let negated = field.len() > 0 && field[0] == '~';
    let name = if negated {
        field.skip(1)
    } else {
        field
    };
    if is_domain_name(name) {
        Some(DomainView { name, negated })
    } else {
        None
    }
}

/// The entries of a `domain=` list: its fields between `|`, each of them an
/// entry. One bad field spoils the list.
pub open spec fn domains_spec(value: Seq<char>) -> Option<Seq<DomainView>> {
    let fields = split(value, '|');
    if forall|i: int| 0 <= i < fields.len() ==> (#[trigger] domain_spec(fields[i])) is Some {
        Some(Seq::new(fields.len(), |i: int| domain_spec(fields[i])->0))
    } else {
        None
    }
}

/// Whether an item of an option string is negated: it begins with `~`.
pub open spec fn item_negated(item: Seq<char>) -> bool {
    item.len() > 0 && item[0] == '~'
}

/// An item without the `~` that negates it.
pub open spec fn item_body(item: Seq<char>) -> Seq<char> {
    if item_negated(item) {
        item.skip(1)
    } else {
        item
    }
}

/// The key of an item: what stands before the first `=`.
pub open spec fn item_key(item: Seq<char>) -> Seq<char> {
    item_body(item).take(index_of(item_body(item), '='))
}

/// Whether an item has a value: it holds `=`.
pub open spec fn item_has_value(item: Seq<char>) -> bool {
    index_of(item_body(item), '=') < item_body(item).len()
}

/// The value of an item: what follows the first `=`.
pub open spec fn item_value(item: Seq<char>) -> Seq<char> {
    item_body(item).skip(index_of(item_body(item), '=') + 1)
}

/// What one item of an option string holds.
///
/// `domain` takes a value, a list of domains, and no negation. `third-party`
/// and the tag of a resource type take no value and may be negated.
/// `match-case` takes neither. An item with another key is ignored, whatever
/// else it holds; one without a key is malformed.
pub open spec fn item_spec(item: Seq<char>) -> ItemView {
    let negated = item_negated(item);
    let key = item_key(item);
    let has_value = item_has_value(item);
    if key.len() == 0 {
        ItemView::Malformed
    } else if key == "domain"@ {
        if negated || !has_value {
            ItemView::Malformed
        } else {
            match domains_spec(item_value(item)) {
                Some(entries) => ItemView::Known(OptionView::Domains(entries)),
                None => ItemView::Malformed,
            }
        }
    } else if key == "third-party"@ {
        if has_value {
            ItemView::Malformed
        } else {
            ItemView::Known(OptionView::ThirdParty { negated })
        }
    } else if key == "match-case"@ {
        if has_value || negated {
            ItemView::Malformed
        } else {
            ItemView::Known(OptionView::MatchCase)
        }
    } else {
        match ResourceType::named(key) {
            Some(kind) => if has_value {
                ItemView::Malformed
            } else {
                ItemView::Known(OptionView::Type { kind, negated })
            },
            None => ItemView::Ignored,
        }
    }
}

/// The options that the items hold, in order, the ignored items left out.
pub open spec fn known_options(items: Seq<Seq<char>>) -> Seq<OptionView>
    decreases items.len(),
{
    if items.len() == 0 {
        Seq::empty()
    } else {
        let before = known_options(items.drop_last());
        match item_spec(items.last()) {
            ItemView::Known(option) => before.push(option),
            _ => before,
        }
    }
}

/// The options of an option string: its items between commas. One malformed
/// item spoils the whole string.
pub open spec fn options_spec(text: Seq<char>) -> Option<Seq<OptionView>> {
    let items = split(text, ',');
    if exists|i: int| 0 <= i < items.len() && (#[trigger] item_spec(items[i])) is Malformed {
        None
    } else {
        Some(known_options(items))
    }
}

/// What a line of a filter list holds.
///
/// The line is read without the blank space around it. A blank line, a
/// comment and a cosmetic rule are skipped. Of the rest, `@@` in front marks
/// an exception; the pattern is what stands before the first `$`, without
/// the blank space around it, and the option string is what follows that `$`.
pub open spec fn parse_spec(line: Seq<char>) -> LineView {
    let t = trim(line);
    if t.len() == 0 {
        LineView::Skipped(SkipReason::Blank)
    } else if t[0] == '!' {
        LineView::Skipped(SkipReason::Comment)
    } else if contains(t, "##"@) || contains(t, "#@#"@) {
        LineView::Skipped(SkipReason::Cosmetic)
    } else {
        let is_exception = starts_with(t, "@@"@);
        let body = if is_exception {
            t.skip(2)
        } else {
            t
        };
        let cut = index_of(body, '$');
        let pattern = trim(body.take(cut));
        if pattern.len() == 0 {
            LineView::Malformed(ParseError::EmptyPattern)
        } else if cut < body.len() {
            match options_spec(body.skip(cut + 1)) {
                Some(options) => LineView::Rule(RuleView { pattern, is_exception, options }),
                None => LineView::Malformed(ParseError::MalformedOptions),
            }
        } else {
            LineView::Rule(RuleView { pattern, is_exception, options: Seq::empty() })
        }
    }
}

/// Whether `name` is a domain name of a `domain=` list.
fn check_domain_name(name: &Vec<char>) -> (ok: bool)
    ensures
        ok == is_domain_name(name@),
{
    if name.len() == 0 {
        return false;
    }
    let mut i: usize = 0;
    while i < name.len()
        invariant
            i <= name.len(),
            forall|k: int| 0 <= k < i ==> is_domain_char(#[trigger] name@[k]),
        decreases name.len() - i,
    {
        let c = name[i];
        if is_space_char(c) || c == '|' || c == ',' || c == '$' || c == '~' || c == '#' {
            assert(!is_domain_char(name@[i as int]));
            return false;
        }
        i += 1;
    }
    true
}

/// A copy of `s` without its first character where `drop` is set.
fn without_mark(s: &Vec<char>, drop: bool) -> (r: Vec<char>)
    requires
        drop ==> s.len() > 0,
    ensures
        r@ == if drop {
            s@.skip(1)
        } else {
            s@
        },
{
    let from: usize = if drop {
        1
    } else {
        0
    };
    let r = slice_chars(s, from, s.len());
    assert(s@.subrange(from as int, s.len() as int) =~= s@.skip(from as int));
    assert(s@.skip(0) =~= s@);
    r
}

/// The entry that one field of a `domain=` list holds.
pub fn parse_domain(field: &Vec<char>) -> (r: Option<DomainEntry>)
    ensures
        match r {
            Some(entry) => domain_spec(field@) == Some(entry@),
            None => domain_spec(field@) is None,
        },
{
    let negated = field.len() > 0 && field[0] == '~';
    let name = without_mark(field, negated);
    if check_domain_name(&name) {
        Some(DomainEntry { name: string_of(&name), negated })
    } else {
        None
    }
}

/// The entries of a `domain=` list.
pub fn parse_domains(value: &Vec<char>) -> (r: Option<Vec<DomainEntry>>)
    ensures
        match r {
            Some(entries) => domains_spec(value@) == Some(domain_views(entries@)),
            None => domains_spec(value@) is None,
        },
{
    let fields = split_chars(value, '|');
    let ghost all = split(value@, '|');
    let mut entries: Vec<DomainEntry> = Vec::new();
    let mut i: usize = 0;
    while i < fields.len()
        invariant
            i <= fields.len(),
            views(fields@) == all,
            all == split(value@, '|'),
            entries.len() == i,
            forall|k: int| 0 <= k < i ==> (#[trigger] domain_spec(all[k])) == Some(entries@[k]@),
        decreases fields.len() - i,
    {
        assert(fields@[i as int]@ == all[i as int]);
        match parse_domain(&fields[i]) {
            Some(entry) => {
                entries.push(entry);
            },
            None => {
                assert(domain_spec(all[i as int]) is None);
                return None;
            },
        }
        i += 1;
    }
    assert(domain_views(entries@) =~= Seq::new(all.len(), |k: int| domain_spec(all[k])->0));
    Some(entries)
}

/// What one item of an option string holds, as an executable value.
pub enum Item {
    Known(RuleOption),
    Ignored,
    Malformed,
}

impl View for Item {
    type V = ItemView;

    open spec fn view(&self) -> ItemView {
        match *self {
            Item::Known(option) => ItemView::Known(option@),
            Item::Ignored => ItemView::Ignored,
            Item::Malformed => ItemView::Malformed,
        }
    }
}

/// What one item of an option string holds.
pub fn parse_item(item: &Vec<char>) -> (r: Item)
    ensures
        r@ == item_spec(item@),
{
    let negated = item.len() > 0 && item[0] == '~';
    let body = without_mark(item, negated);
    let cut = find_from(&body, '=', 0);
    assert(body@.skip(0) =~= body@);
    let key = slice_chars(&body, 0, cut);
    assert(key@ =~= body@.take(cut as int));
    let has_value = cut < body.len();
    if key.len() == 0 {
        Item::Malformed
    } else if spells(&key, "domain") {
        if negated || !has_value {
            Item::Malformed
        } else {
            let value = slice_chars(&body, cut + 1, body.len());
            assert(value@ =~= body@.skip(cut + 1));
            match parse_domains(&value) {
                Some(entries) => Item::Known(RuleOption::Domains(entries)),
                None => Item::Malformed,
            }
        }
    } else if spells(&key, "third-party") {
        if has_value {
            Item::Malformed
        } else {
            Item::Known(RuleOption::ThirdParty { negated })
        }
    } else if spells(&key, "match-case") {
        if has_value || negated {
            Item::Malformed
        } else {
            Item::Known(RuleOption::MatchCase)
        }
    } else {
        match ResourceType::lookup(&key) {
            Some(kind) => if has_value {
                Item::Malformed
            } else {
                Item::Known(RuleOption::Type { kind, negated })
            },
            None => Item::Ignored,
        }
    }
}

/// The options of an option string.
pub fn parse_options(text: &Vec<char>) -> (r: Option<Vec<RuleOption>>)
    ensures
        match r {
            Some(options) => options_spec(text@) == Some(option_views(options@)),
            None => options_spec(text@) is None,
        },
{
    let items = split_chars(text, ',');
    let ghost all = split(text@, ',');
    let mut options: Vec<RuleOption> = Vec::new();
    let mut i: usize = 0;
    assert(all.take(0) =~= Seq::empty());
    while i < items.len()
        invariant
            i <= items.len(),
            views(items@) == all,
            all == split(text@, ','),
            forall|k: int| 0 <= k < i ==> !((#[trigger] item_spec(all[k])) is Malformed),
            option_views(options@) == known_options(all.take(i as int)),
        decreases items.len() - i,
    {
        assert(items@[i as int]@ == all[i as int]);
        assert(all.take(i as int + 1).drop_last() =~= all.take(i as int));
        let ghost before = option_views(options@);
        match parse_item(&items[i]) {
            Item::Known(option) => {
                options.push(option);
                assert(option_views(options@) =~= before.push(option@));
            },
            Item::Ignored => {},
            Item::Malformed => {
                return None;
            },
        }
        i += 1;
    }
    assert(all.take(i as int) =~= all);
    Some(options)
}

/// What the characters of one line hold.
pub fn parse_chars(line: &Vec<char>) -> (r: ParsedLine)
    ensures
        r@ == parse_spec(line@),
        r@ matches LineView::Rule(rule) ==> well_formed(rule),
{
    proof {
        lemma_parsed_rule_is_well_formed(line@);
    }
    let t = trimmed(line);
    if t.len() == 0 {
        return ParsedLine::Skipped(SkipReason::Blank);
    }
    if t[0] == '!' {
        return ParsedLine::Skipped(SkipReason::Comment);
    }
    if holds(&t, "##") || holds(&t, "#@#") {
        return ParsedLine::Skipped(SkipReason::Cosmetic);
    }
    let is_exception = begins_with(&t, "@@");
    proof {
        reveal_strlit("@@");
    }
    let from: usize = if is_exception {
        2
    } else {
        0
    };
    let body = slice_chars(&t, from, t.len());
    assert(t@.subrange(from as int, t.len() as int) =~= t@.skip(from as int));
    assert(t@.skip(0) =~= t@);
    let cut = find_from(&body, '$', 0);
    assert(body@.skip(0) =~= body@);
    let before = slice_chars(&body, 0, cut);
    assert(before@ =~= body@.take(cut as int));
    let pattern = trimmed(&before);
    if pattern.len() == 0 {
        return ParsedLine::Malformed(ParseError::EmptyPattern);
    }
    if cut < body.len() {
        let text = slice_chars(&body, cut + 1, body.len());
        assert(text@ =~= body@.skip(cut + 1));
        match parse_options(&text) {
            Some(options) => ParsedLine::Rule(
                Rule { pattern: string_of(&pattern), is_exception, options },
            ),
            None => ParsedLine::Malformed(ParseError::MalformedOptions),
        }
    } else {
        let options: Vec<RuleOption> = Vec::new();
        assert(option_views(options@) =~= Seq::empty());
        ParsedLine::Rule(Rule { pattern: string_of(&pattern), is_exception, options })
    }
}

/// What one line of a filter list holds.
pub fn parse_line(line: &str) -> (r: ParsedLine)
    ensures
        r@ == parse_spec(line@),
        r@ matches LineView::Rule(rule) ==> well_formed(rule),
{
    let chars = to_chars(line);
    parse_chars(&chars)
}

} // verus!
