//! Well-formed rules, and the round trip between a rule and its spelling.
//!
//! A rule that the parser gives is well formed, and the canonical spelling of
//! a well-formed rule parses back to that rule. So the matcher is handed text
//! that means, by the grammar of this library, exactly the rule that the
//! engine holds.

use crate::parser::{
    domain_spec, domains_spec, item_body, item_has_value, item_key, item_negated, item_spec,
    item_value, known_options, options_spec, parse_spec, ItemView, LineView,
};
use crate::resource::{lemma_tag_names_type, ResourceType};
use crate::rule::{
    is_domain_char, is_domain_name, render, render_domain, render_domains, render_option,
    render_options, spelled_options, tilde, well_formed, well_formed_option, DomainView,
    OptionView, RuleView,
};
use crate::text::{
    contains, index_of, is_space, join, lemma_contains_in_stretch, lemma_index_of,
    lemma_index_of_unique, lemma_join_chars, lemma_join_last, lemma_split_join,
    lemma_split_nonempty, lemma_trim, lemma_trim_untouched, occurs_at, split, starts_with, trim,
};
use vstd::prelude::*;

verus! {

/// Whether `part` stands in `whole` as one stretch.
pub open spec fn is_stretch_of(part: Seq<char>, whole: Seq<char>) -> bool {
    exists|from: int|
        0 <= from && from + part.len() <= whole.len() && part == #[trigger] whole.subrange(
            from,
            from + part.len(),
        )
}

/// Whether `s` holds no line feed.
pub open spec fn is_single_line(s: Seq<char>) -> bool {
    forall|i: int| 0 <= i < s.len() ==> #[trigger] s[i] != '\n'
}

/// A character that can stand in a key.
pub open spec fn is_key_char(c: char) -> bool {
    is_domain_char(c) && c != '='
}

/// A key: not empty, and made of such characters.
pub open spec fn is_word(s: Seq<char>) -> bool {
    s.len() > 0 && forall|i: int| 0 <= i < s.len() ==> is_key_char(#[trigger] s[i])
}

/// A character that the spelling of an option can hold.
pub open spec fn is_item_char(c: char) -> bool {
    !is_space(c) && c != '#' && c != '$' && c != ','
}

/// A character that the option string of a spelling can hold.
pub open spec fn is_tame(c: char) -> bool {
    !is_space(c) && c != '#' && c != '$'
}

/// The spelling of one item of an option string: not empty, not malformed,
/// and made of characters that an item can hold.
pub open spec fn is_sound_item(item: Seq<char>) -> bool {
    &&& item.len() > 0
    &&& !(item_spec(item) is Malformed)
    &&& forall|j: int| 0 <= j < item.len() ==> is_item_char(#[trigger] item[j])
}

/// The marks of the grammar, character by character.
proof fn lemma_marks()
    ensures
        "~"@ == seq!['~'],
        "|"@ == seq!['|'],
        ","@ == seq![','],
        "$"@ == seq!['$'],
        "@@"@ == seq!['@', '@'],
        "##"@ == seq!['#', '#'],
        "#@#"@ == seq!['#', '@', '#'],
{
    reveal_strlit("~");
    reveal_strlit("|");
    reveal_strlit(",");
    reveal_strlit("$");
    reveal_strlit("@@");
    reveal_strlit("##");
    reveal_strlit("#@#");
    assert("~"@ =~= seq!['~']);
    assert("|"@ =~= seq!['|']);
    assert(","@ =~= seq![',']);
    assert("$"@ =~= seq!['$']);
    assert("@@"@ =~= seq!['@', '@']);
    assert("##"@ =~= seq!['#', '#']);
    assert("#@#"@ =~= seq!['#', '@', '#']);
}

/// The keys of the grammar are words, and no two of them are the same.
proof fn lemma_keys()
    ensures
        is_word("domain"@),
        is_word("third-party"@),
        is_word("match-case"@),
        is_word("all"@),
        "domain"@.len() == 6,
        "domain="@ == "domain"@.push('='),
        "third-party"@ != "domain"@,
        "match-case"@ != "domain"@,
        "match-case"@ != "third-party"@,
        "all"@ != "domain"@,
        "all"@ != "third-party"@,
        "all"@ != "match-case"@,
        ResourceType::named("all"@) is None,
{
    reveal_strlit("domain");
    reveal_strlit("domain=");
    reveal_strlit("third-party");
    reveal_strlit("match-case");
    reveal_strlit("all");
    reveal_strlit("document");
    reveal_strlit("script");
    reveal_strlit("image");
    reveal_strlit("stylesheet");
    reveal_strlit("object");
    reveal_strlit("xhr");
    reveal_strlit("font");
    reveal_strlit("media");
    reveal_strlit("websocket");
    reveal_strlit("other");
    assert("domain="@ =~= "domain"@.push('='));
    assert("domain"@.len() == 6 && "third-party"@.len() == 11 && "match-case"@.len() == 10);
    assert("all"@.len() == 3 && "xhr"@.len() == 3 && "all"@[0] == 'a' && "xhr"@[0] == 'x');
    assert("document"@.len() == 8 && "script"@.len() == 6 && "image"@.len() == 5);
    assert("stylesheet"@.len() == 10 && "object"@.len() == 6 && "font"@.len() == 4);
    assert("media"@.len() == 5 && "websocket"@.len() == 9 && "other"@.len() == 5);
}

/// The tag of a resource type is a word, and none of the other keys.
proof fn lemma_tag_is_word(kind: ResourceType)
    ensures
        is_word(kind.tag_spec()),
        kind.tag_spec() != "domain"@,
        kind.tag_spec() != "third-party"@,
        kind.tag_spec() != "match-case"@,
{
    reveal_strlit("domain");
    reveal_strlit("third-party");
    reveal_strlit("match-case");
    reveal_strlit("document");
    reveal_strlit("script");
    reveal_strlit("image");
    reveal_strlit("stylesheet");
    reveal_strlit("object");
    reveal_strlit("xhr");
    reveal_strlit("font");
    reveal_strlit("media");
    reveal_strlit("websocket");
    reveal_strlit("other");
    assert("domain"@.len() == 6 && "third-party"@.len() == 11 && "match-case"@.len() == 10);
    assert("domain"@[0] == 'd' && "match-case"@[0] == 'm');
    let tag = kind.tag_spec();
    match kind {
        ResourceType::Document => {
            assert(tag.len() == 8);
        },
        ResourceType::Script => {
            assert(tag.len() == 6 && tag[0] == 's');
        },
        ResourceType::Image => {
            assert(tag.len() == 5);
        },
        ResourceType::Stylesheet => {
            assert(tag.len() == 10 && tag[0] == 's');
        },
        ResourceType::Object => {
            assert(tag.len() == 6 && tag[0] == 'o');
        },
        ResourceType::Xhr => {
            assert(tag.len() == 3);
        },
        ResourceType::Font => {
            assert(tag.len() == 4);
        },
        ResourceType::Media => {
            assert(tag.len() == 5);
        },
        ResourceType::Websocket => {
            assert(tag.len() == 9);
        },
        ResourceType::Other => {
            assert(tag.len() == 5);
        },
    }
}

/// A word, negated or not, is an item with that word as its key and without
/// a value.
proof fn lemma_flag_item(word: Seq<char>, negated: bool)
    requires
        is_word(word),
    ensures
        item_negated(tilde(negated) + word) == negated,
        item_key(tilde(negated) + word) == word,
        !item_has_value(tilde(negated) + word),
{
    lemma_marks();
    let item = tilde(negated) + word;
    assert(is_key_char(word[0]));
    if negated {
        assert(item[0] == '~');
        assert(item.skip(1) =~= word);
    } else {
        assert(item =~= word);
    }
    assert(item_body(item) == word);
    assert forall|k: int| 0 <= k < word.len() implies word[k] != '=' by {
        assert(is_key_char(word[k]));
    }
    lemma_index_of_unique(word, '=', word.len() as int);
    assert(word.take(word.len() as int) =~= word);
}

/// The spelling of a domain entry parses back to the entry.
proof fn lemma_entry_parses_back(entry: DomainView)
    requires
        is_domain_name(entry.name),
    ensures
        domain_spec(render_domain(entry)) == Some(entry),
        forall|j: int|
            0 <= j < render_domain(entry).len() ==> #[trigger] render_domain(entry)[j] != '|'
                && is_item_char(render_domain(entry)[j]),
        render_domain(entry).len() > 0,
{
    lemma_marks();
    let field = render_domain(entry);
    assert(is_domain_char(entry.name[0]));
    if entry.negated {
        assert(field[0] == '~');
        assert(field.skip(1) =~= entry.name);
    } else {
        assert(field =~= entry.name);
    }
    assert forall|j: int| 0 <= j < field.len() implies #[trigger] field[j] != '|' && is_item_char(
        field[j],
    ) by {
        if entry.negated {
            if j > 0 {
                assert(field[j] == entry.name[j - 1]);
                assert(is_domain_char(entry.name[j - 1]));
            }
        } else {
            assert(is_domain_char(entry.name[j]));
        }
    }
}

/// The spelling of a domain list parses back to the list.
proof fn lemma_domains_parse_back(entries: Seq<DomainView>)
    requires
        well_formed_option(OptionView::Domains(entries)),
    ensures
        domains_spec(join(render_domains(entries), "|"@)) == Some(entries),
        forall|j: int|
            0 <= j < join(render_domains(entries), "|"@).len() ==> is_item_char(
                #[trigger] join(render_domains(entries), "|"@)[j],
            ),
{
    lemma_marks();
    let fields = render_domains(entries);
    assert forall|i: int, j: int| 0 <= i < fields.len() && 0 <= j < fields[i].len() implies (
    #[trigger] fields[i][j]) != '|' && is_item_char(fields[i][j]) by {
        lemma_entry_parses_back(entries[i]);
        assert(render_domain(entries[i])[j] != '|');
    }
    lemma_split_join(fields, '|');
    lemma_join_chars(fields, "|"@, |c: char| is_item_char(c));
    let value = join(fields, "|"@);
    assert forall|i: int| 0 <= i < fields.len() implies (#[trigger] domain_spec(fields[i]))
        == Some(entries[i]) by {
        lemma_entry_parses_back(entries[i]);
    }
    assert(Seq::new(fields.len(), |i: int| domain_spec(fields[i])->0) =~= entries);
}

/// The spelling of a well-formed option is an item that holds the option.
pub proof fn lemma_option_parses_back(option: OptionView)
    requires
        well_formed_option(option),
    ensures
        item_spec(render_option(option)) == ItemView::Known(option),
        render_option(option).len() > 0,
        forall|j: int|
            0 <= j < render_option(option).len() ==> is_item_char(
                #[trigger] render_option(option)[j],
            ),
{
    lemma_marks();
    lemma_keys();
    let item = render_option(option);
    match option {
        OptionView::Domains(entries) => {
            let value = join(render_domains(entries), "|"@);
            lemma_domains_parse_back(entries);
            assert(item == "domain"@.push('=') + value);
            assert(is_key_char("domain"@[0]));
            assert(item[0] == "domain"@[0]);
            assert(!item_negated(item));
            assert forall|k: int| 0 <= k < 6 implies item[k] != '=' by {
                assert(item[k] == "domain"@[k]);
                assert(is_key_char("domain"@[k]));
            }
            assert(item[6] == '=');
            lemma_index_of_unique(item, '=', 6);
            assert(item.take(6) =~= "domain"@);
            assert(item.skip(7) =~= value);
            assert forall|j: int| 0 <= j < item.len() implies is_item_char(#[trigger] item[j]) by {
                if j < 6 {
                    assert(item[j] == "domain"@[j]);
                    assert(is_key_char("domain"@[j]));
                } else if j > 6 {
                    assert(item[j] == value[j - 7]);
                }
            }
        },
        OptionView::Type { kind, negated } => {
            lemma_tag_is_word(kind);
            lemma_tag_names_type(kind);
            lemma_flag_item(kind.tag_spec(), negated);
            lemma_flag_chars(kind.tag_spec(), negated);
        },
        OptionView::ThirdParty { negated } => {
            lemma_flag_item("third-party"@, negated);
            lemma_flag_chars("third-party"@, negated);
        },
        OptionView::MatchCase => {
            lemma_flag_item("match-case"@, false);
            lemma_flag_chars("match-case"@, false);
            assert(tilde(false) + "match-case"@ =~= "match-case"@);
        },
    }
}

/// A word, negated or not, is made of characters that an item can hold.
proof fn lemma_flag_chars(word: Seq<char>, negated: bool)
    requires
        is_word(word),
    ensures
        (tilde(negated) + word).len() > 0,
        forall|j: int|
            0 <= j < (tilde(negated) + word).len() ==> is_item_char(
                #[trigger] (tilde(negated) + word)[j],
            ),
{
    lemma_marks();
    let item = tilde(negated) + word;
    assert forall|j: int| 0 <= j < item.len() implies is_item_char(#[trigger] item[j]) by {
        if negated {
            if j > 0 {
                assert(item[j] == word[j - 1]);
                assert(is_key_char(word[j - 1]));
            }
        } else {
            assert(item[j] == word[j]);
            assert(is_key_char(word[j]));
        }
    }
}

/// The spellings of well-formed options hold those options, one each.
proof fn lemma_options_parse_back(options: Seq<OptionView>)
    requires
        forall|i: int| 0 <= i < options.len() ==> well_formed_option(#[trigger] options[i]),
    ensures
        known_options(render_options(options)) == options,
        known_options(render_options(options).push("all"@)) == options,
    decreases options.len(),
{
    lemma_keys();
    let items = render_options(options);
    if options.len() > 0 {
        let before = options.drop_last();
        assert(items.drop_last() =~= render_options(before));
        lemma_options_parse_back(before);
        lemma_option_parses_back(options.last());
        assert(items.last() == render_option(options.last()));
        assert(before.push(options.last()) =~= options);
    }
    lemma_flag_item("all"@, false);
    assert(tilde(false) + "all"@ =~= "all"@);
    assert(item_spec("all"@) == ItemView::Ignored);
    assert(items.push("all"@).drop_last() =~= items);
}

/// The option string of a well-formed rule parses back to its options.
proof fn lemma_option_string_parses_back(options: Seq<OptionView>)
    requires
        forall|i: int| 0 <= i < options.len() ==> well_formed_option(#[trigger] options[i]),
    ensures
        options_spec(join(spelled_options(options), ","@)) == Some(options),
        join(spelled_options(options), ","@).len() > 0,
        forall|j: int|
            0 <= j < join(spelled_options(options), ","@).len() ==> is_tame(
                #[trigger] join(spelled_options(options), ","@)[j],
            ),
{
    lemma_marks();
    lemma_keys();
    let items = spelled_options(options);
    let text = join(items, ","@);
    lemma_flag_item("all"@, false);
    lemma_flag_chars("all"@, false);
    assert(tilde(false) + "all"@ =~= "all"@);
    assert(item_spec("all"@) == ItemView::Ignored);
    assert forall|i: int| 0 <= i < items.len() implies is_sound_item(#[trigger] items[i]) by {
        if i < options.len() {
            lemma_option_parses_back(options[i]);
            assert(items[i] == render_option(options[i]));
        } else {
            assert(items[i] == "all"@);
        }
    }
    assert forall|i: int, j: int| 0 <= i < items.len() && 0 <= j < items[i].len() implies (
    #[trigger] items[i][j]) != ',' by {
        assert(is_sound_item(items[i]));
        assert(is_item_char(items[i][j]));
    }
    lemma_split_join(items, ',');
    assert forall|i: int, j: int| 0 <= i < items.len() && 0 <= j < items[i].len() implies is_tame(
        #[trigger] items[i][j],
    ) by {
        assert(is_sound_item(items[i]));
        assert(is_item_char(items[i][j]));
    }
    assert forall|i: int| 0 <= i < items.len() implies !((#[trigger] item_spec(items[i]))
        is Malformed) by {
        assert(is_sound_item(items[i]));
    }
    assert(is_sound_item(items.last()));
    lemma_join_chars(items, ","@, |c: char| is_tame(c));
    lemma_join_last(items, ","@);
    lemma_options_parse_back(options);
}

/// Where `before` and `after` hold no `#`, the marks of a cosmetic rule can
/// stand in `before + middle + after` only where they stand in `middle`.
proof fn lemma_hashes_stay_inside(before: Seq<char>, middle: Seq<char>, after: Seq<char>)
    requires
        forall|i: int| 0 <= i < before.len() ==> #[trigger] before[i] != '#',
        forall|i: int| 0 <= i < after.len() ==> #[trigger] after[i] != '#',
        !contains(middle, "##"@),
        !contains(middle, "#@#"@),
    ensures
        !contains(before + middle + after, "##"@),
        !contains(before + middle + after, "#@#"@),
{
    lemma_marks();
    let t = before + middle + after;
    let lo = before.len() as int;
    let hi = lo + middle.len();
    assert forall|k: int| 0 <= k < t.len() && t[k] == '#' implies lo <= k < hi by {
        if k < lo {
            assert(t[k] == before[k]);
        } else if k >= hi {
            assert(t[k] == after[k - hi]);
        }
    }
    assert forall|at: int| !occurs_at(t, "##"@, at) by {
        if occurs_at(t, "##"@, at) {
            let w = t.subrange(at, at + 2);
            assert(w[0] == '#' && w[1] == '#');
            assert(t[at] == '#' && t[at + 1] == '#');
            assert(middle.subrange(at - lo, at - lo + 2) =~= "##"@);
            assert(occurs_at(middle, "##"@, at - lo));
        }
    }
    assert forall|at: int| !occurs_at(t, "#@#"@, at) by {
        if occurs_at(t, "#@#"@, at) {
            let w = t.subrange(at, at + 3);
            assert(w[0] == '#' && w[1] == '@' && w[2] == '#');
            assert(t[at] == '#' && t[at + 1] == '@' && t[at + 2] == '#');
            assert(middle.subrange(at - lo, at - lo + 3) =~= "#@#"@);
            assert(occurs_at(middle, "#@#"@, at - lo));
        }
    }
}

/// The canonical spelling of a well-formed rule parses back to the rule.
pub proof fn lemma_spelling_parses_back(rule: RuleView)
    requires
        well_formed(rule),
    ensures
        parse_spec(render(rule)) == LineView::Rule(rule),
{
    lemma_marks();
    let mark = if rule.is_exception {
        "@@"@
    } else {
        Seq::<char>::empty()
    };
    let text = join(spelled_options(rule.options), ","@);
    let tail = "$"@ + text;
    let t = mark + rule.pattern + tail;
    lemma_option_string_parses_back(rule.options);
    assert(render(rule) =~= t);
    assert(t.len() > 0);
    assert(t[0] == if rule.is_exception {
        '@'
    } else {
        rule.pattern[0]
    });
    assert(t.last() == text.last());
    assert(is_tame(text[text.len() - 1]));
    lemma_trim_untouched(t);
    assert forall|i: int| 0 <= i < tail.len() implies #[trigger] tail[i] != '#' by {
        if i > 0 {
            assert(tail[i] == text[i - 1]);
            assert(is_tame(text[i - 1]));
        }
    }
    lemma_hashes_stay_inside(mark, rule.pattern, tail);
    if rule.is_exception {
        assert(t.subrange(0, 2) =~= "@@"@);
    } else {
        if starts_with(t, "@@"@) {
            let w = t.subrange(0, 2);
            assert(w[0] == '@' && w[1] == '@');
            if rule.pattern.len() >= 2 {
                assert(rule.pattern.subrange(0, 2) =~= "@@"@);
            } else {
                assert(t[1] == tail[0]);
            }
        }
    }
    let body = rule.pattern + tail;
    assert(body =~= if rule.is_exception {
        t.skip(2)
    } else {
        t
    });
    let cut = rule.pattern.len() as int;
    assert(body[cut] == '$');
    assert forall|k: int| 0 <= k < cut implies body[k] != '$' by {
        assert(body[k] == rule.pattern[k]);
    }
    lemma_index_of_unique(body, '$', cut);
    assert(body.take(cut) =~= rule.pattern);
    lemma_trim_untouched(rule.pattern);
    assert(body.skip(cut + 1) =~= text);
}

/// An option that an item holds is well formed.
proof fn lemma_item_is_well_formed(item: Seq<char>)
    ensures
        item_spec(item) matches ItemView::Known(option) ==> well_formed_option(option),
{
    match item_spec(item) {
        ItemView::Known(OptionView::Domains(entries)) => {
            let fields = split(item_value(item), '|');
            lemma_split_nonempty(item_value(item), '|');
            assert(domains_spec(item_value(item)) == Some(entries));
            assert forall|i: int| 0 <= i < entries.len() implies is_domain_name(
                #[trigger] entries[i].name,
            ) by {
                assert(domain_spec(fields[i]) is Some);
            }
        },
        _ => {},
    }
}

/// The options that items hold are well formed.
proof fn lemma_known_options_are_well_formed(items: Seq<Seq<char>>)
    ensures
        forall|i: int|
            0 <= i < known_options(items).len() ==> well_formed_option(
                #[trigger] known_options(items)[i],
            ),
    decreases items.len(),
{
    if items.len() > 0 {
        let before = known_options(items.drop_last());
        lemma_known_options_are_well_formed(items.drop_last());
        lemma_item_is_well_formed(items.last());
        assert forall|i: int| 0 <= i < known_options(items).len() implies well_formed_option(
            #[trigger] known_options(items)[i],
        ) by {
            if i < before.len() {
                assert(known_options(items)[i] == before[i]);
            }
        }
    }
}

/// A rule that the parser gives is well formed.
pub proof fn lemma_parsed_rule_is_well_formed(line: Seq<char>)
    ensures
        parse_spec(line) matches LineView::Rule(rule) ==> well_formed(rule) && is_stretch_of(
            rule.pattern,
            line,
        ),
{
    match parse_spec(line) {
        LineView::Rule(rule) => {
            lemma_marks();
            let t = trim(line);
            lemma_trim(line);
            let from: int = if rule.is_exception {
                2
            } else {
                0
            };
            assert(rule.is_exception ==> t.len() >= 2);
            let body = t.skip(from);
            assert(t.skip(0) =~= t);
            let cut = index_of(body, '$');
            lemma_index_of(body, '$');
            let span = body.take(cut);
            lemma_trim(span);
            let a = crate::text::lead(span);
            let b = a + rule.pattern.len();
            assert(rule.pattern == span.subrange(a, b));
            assert forall|i: int| 0 <= i < rule.pattern.len() implies #[trigger] rule.pattern[i]
                != '$' by {
                assert(rule.pattern[i] == body[a + i]);
            }
            assert(span.subrange(a, b) =~= t.subrange(from + a, from + b));
            let start = crate::text::lead(line) + from + a;
            assert(rule.pattern =~= line.subrange(start, start + rule.pattern.len()));
            if contains(rule.pattern, "##"@) {
                lemma_contains_in_stretch(t, from + a, from + b, "##"@);
            }
            if contains(rule.pattern, "#@#"@) {
                lemma_contains_in_stretch(t, from + a, from + b, "#@#"@);
            }
            if !rule.is_exception {
                assert(span[0] == t[0]);
                assert(a == 0);
                assert(rule.pattern[0] == t[0]);
                if starts_with(rule.pattern, "@@"@) {
                    assert(t.subrange(0, 2) =~= rule.pattern.subrange(0, 2));
                }
            }
            if cut < body.len() {
                lemma_known_options_are_well_formed(split(body.skip(cut + 1), ','));
            }
        },
        _ => {},
    }
}

/// The spelling of a rule that a single line holds is a single line.
pub proof fn lemma_spelling_is_single_line(line: Seq<char>)
    requires
        is_single_line(line),
    ensures
        parse_spec(line) matches LineView::Rule(rule) ==> is_single_line(render(rule)),
{
    match parse_spec(line) {
        LineView::Rule(rule) => {
            lemma_marks();
            lemma_parsed_rule_is_well_formed(line);
            lemma_option_string_parses_back(rule.options);
            let from = choose|from: int|
                0 <= from && from + rule.pattern.len() <= line.len() && rule.pattern
                    == #[trigger] line.subrange(from, from + rule.pattern.len());
            let mark = if rule.is_exception {
                "@@"@
            } else {
                Seq::<char>::empty()
            };
            let text = join(spelled_options(rule.options), ","@);
            let t = mark + rule.pattern + "$"@ + text;
            assert(render(rule) =~= t);
            assert forall|i: int| 0 <= i < t.len() implies #[trigger] t[i] != '\n' by {
                let p = mark.len() as int;
                let q = p + rule.pattern.len();
                if i < p {
                } else if i < q {
                    assert(t[i] == line[from + (i - p)]);
                } else if i > q {
                    assert(t[i] == text[i - q - 1]);
                    assert(is_tame(text[i - q - 1]));
                }
            }
        },
        _ => {},
    }
}

/// The round trip: where a line holds a rule, the canonical spelling of that
/// rule is a line that holds the same rule.
pub proof fn law_spelling_round_trip(line: Seq<char>)
    requires
        parse_spec(line) is Rule,
    ensures
        parse_spec(render(parse_spec(line)->Rule_0)) == parse_spec(line),
{
    lemma_parsed_rule_is_well_formed(line);
    lemma_spelling_parses_back(parse_spec(line)->Rule_0);
}

} // verus!
