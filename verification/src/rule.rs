//! Structured rules, their mathematical views and their canonical spelling.

use crate::resource::ResourceType;
use crate::text::{contains, is_space, join, lemma_join_push, starts_with};
use vstd::prelude::*;
use vstd::string::*;

verus! {

/// One entry of a `domain=` list: a domain name, negated where the list
/// excludes it.
#[derive(Clone, Debug, PartialEq, Eq)]
pub struct DomainEntry {
    pub name: String,
    pub negated: bool,
}

/// One constraint of a rule. The set of kinds is closed: an option key that
/// is none of these never reaches a rule.
#[derive(Clone, Debug, PartialEq, Eq)]
pub enum RuleOption {
    /// `domain=a.com|~b.com`: the pages on which the rule applies.
    Domains(Vec<DomainEntry>),
    /// `script`, `~image`, ...: a resource type that the rule is for, or,
    /// negated, one that it is not for.
    Type { kind: ResourceType, negated: bool },
    /// `third-party`, or negated `~third-party`.
    ThirdParty { negated: bool },
    /// `match-case`.
    MatchCase,
}

/// One parsed filter-list entry.
#[derive(Clone, Debug, PartialEq, Eq)]
pub struct Rule {
    /// The URL pattern, anchors and wildcards included, as written.
    pub pattern: String,
    /// Whether the rule allows what it matches.
    pub is_exception: bool,
    /// The constraints, in the order in which the rule gives them.
    pub options: Vec<RuleOption>,
}

/// The view of a [`DomainEntry`].
pub struct DomainView {
    pub name: Seq<char>,
    pub negated: bool,
}

/// The view of a [`RuleOption`].
pub enum OptionView {
    Domains(Seq<DomainView>),
    Type { kind: ResourceType, negated: bool },
    ThirdParty { negated: bool },
    MatchCase,
}

/// The view of a [`Rule`].
pub struct RuleView {
    pub pattern: Seq<char>,
    pub is_exception: bool,
    pub options: Seq<OptionView>,
}

impl View for DomainEntry {
    type V = DomainView;

    open spec fn view(&self) -> DomainView {
        DomainView { name: self.name@, negated: self.negated }
    }
}

/// The views of a sequence of domain entries.
pub open spec fn domain_views(entries: Seq<DomainEntry>) -> Seq<DomainView> {
    Seq::new(entries.len(), |i: int| entries[i]@)
}

impl View for RuleOption {
    type V = OptionView;

    open spec fn view(&self) -> OptionView {
        match *self {
            RuleOption::Domains(entries) => OptionView::Domains(domain_views(entries@)),
            RuleOption::Type { kind, negated } => OptionView::Type { kind, negated },
            RuleOption::ThirdParty { negated } => OptionView::ThirdParty { negated },
            RuleOption::MatchCase => OptionView::MatchCase,
        }
    }
}

/// The views of a sequence of options.
pub open spec fn option_views(options: Seq<RuleOption>) -> Seq<OptionView> {
    Seq::new(options.len(), |i: int| options[i]@)
}

impl View for Rule {
    type V = RuleView;

    open spec fn view(&self) -> RuleView {
        RuleView {
            pattern: self.pattern@,
            is_exception: self.is_exception,
            options: option_views(self.options@),
        }
    }
}

/// The views of a sequence of rules.
pub open spec fn rule_views(rules: Seq<Rule>) -> Seq<RuleView> {
    Seq::new(rules.len(), |i: int| rules[i]@)
}

/// A character that can stand in a domain name of a `domain=` list.
pub open spec fn is_domain_char(c: char) -> bool {
    !is_space(c) && c != '|' && c != ',' && c != '$' && c != '~' && c != '#'
}

/// A domain name of a `domain=` list: not empty, and made of such characters.
pub open spec fn is_domain_name(name: Seq<char>) -> bool {
    name.len() > 0 && forall|i: int| 0 <= i < name.len() ==> is_domain_char(#[trigger] name[i])
}

/// An option as the parser gives it: a domain list has at least one entry,
/// and each entry a domain name.
pub open spec fn well_formed_option(option: OptionView) -> bool {
    match option {
        OptionView::Domains(entries) => entries.len() > 0 && forall|i: int|
            0 <= i < entries.len() ==> is_domain_name(#[trigger] entries[i].name),
        _ => true,
    }
}

/// A rule as the parser gives it. The pattern is not empty, neither begins
/// nor ends with blank space, and holds no `$`, `##` or `#@#`; the pattern of
/// a blocking rule begins with neither `!` nor `@@`; the options are well
/// formed.
pub open spec fn well_formed(rule: RuleView) -> bool {
    &&& rule.pattern.len() > 0
    &&& !is_space(rule.pattern[0])
    &&& !is_space(rule.pattern.last())
    &&& forall|i: int| 0 <= i < rule.pattern.len() ==> #[trigger] rule.pattern[i] != '$'
    &&& !contains(rule.pattern, "##"@)
    &&& !contains(rule.pattern, "#@#"@)
    &&& (!rule.is_exception ==> rule.pattern[0] != '!' && !starts_with(rule.pattern, "@@"@))
    &&& forall|i: int|
        0 <= i < rule.options.len() ==> well_formed_option(#[trigger] rule.options[i])
}

/// `~` where `negated`, nothing otherwise.
pub open spec fn tilde(negated: bool) -> Seq<char> {
    if negated {
        "~"@
    } else {
        Seq::empty()
    }
}

/// The spelling of one domain entry.
pub open spec fn render_domain(entry: DomainView) -> Seq<char> {
    tilde(entry.negated) + entry.name
}

/// The spellings of the entries of a domain list.
pub open spec fn render_domains(entries: Seq<DomainView>) -> Seq<Seq<char>> {
    Seq::new(entries.len(), |i: int| render_domain(entries[i]))
}

/// The spelling of one option.
pub open spec fn render_option(option: OptionView) -> Seq<char> {
    match option {
        OptionView::Domains(entries) => "domain="@ + join(render_domains(entries), "|"@),
        OptionView::Type { kind, negated } => tilde(negated) + kind.tag_spec(),
        OptionView::ThirdParty { negated } => tilde(negated) + "third-party"@,
        OptionView::MatchCase => "match-case"@,
    }
}

/// The spellings of the options of a rule.
pub open spec fn render_options(options: Seq<OptionView>) -> Seq<Seq<char>> {
    Seq::new(options.len(), |i: int| render_option(options[i]))
}

/// Whether `option` names a resource type that the rule is for.
pub open spec fn is_type_choice(option: OptionView) -> bool {
    option matches OptionView::Type { negated, .. } && !negated
}

/// Whether one of the options names a resource type that the rule is for.
pub open spec fn names_type(options: Seq<OptionView>) -> bool {
    exists|i: int| 0 <= i < options.len() && is_type_choice(#[trigger] options[i])
}

/// The items of the option string of a rule: the spellings of its options,
/// and `all` after them where none of them names a resource type that the
/// rule is for. Such a rule is for requests of every type, and the matcher
/// takes it so only where the rule says `all`.
pub open spec fn spelled_options(options: Seq<OptionView>) -> Seq<Seq<char>> {
    if names_type(options) {
        render_options(options)
    } else {
        render_options(options).push("all"@)
    }
}

/// The canonical spelling of a rule: `@@` for an exception, the pattern, `$`
/// and the items of the option string with commas between them.
pub open spec fn render(rule: RuleView) -> Seq<char> {
    let head = if rule.is_exception {
        "@@"@ + rule.pattern
    } else {
        rule.pattern
    };
    head + "$"@ + join(spelled_options(rule.options), ","@)
}

impl DomainEntry {
    /// The spelling of this entry.
    pub fn canonical_text(&self) -> (s: String)
        ensures
            s@ == render_domain(self@),
    {
        let mut s = String::new();
        if self.negated {
            s.append("~");
        }
        s.append(self.name.as_str());
        s
    }
}

impl RuleOption {
    /// The spelling of this option.
    pub fn canonical_text(&self) -> (s: String)
        ensures
            s@ == render_option(self@),
    {
        match self {
            RuleOption::Domains(entries) => {
                let mut s = String::from_str("domain=");
                let ghost parts = render_domains(domain_views(entries@));
                let mut i: usize = 0;
                while i < entries.len()
                    invariant
                        i <= entries.len(),
                        parts == render_domains(domain_views(entries@)),
                        s@ == "domain="@ + join(parts.take(i as int), "|"@),
                    decreases entries.len() - i,
                {
                    let piece = entries[i].canonical_text();
                    proof {
                        assert(parts.take(i as int + 1) =~= parts.take(i as int).push(piece@));
                        if i > 0 {
                            lemma_join_push(parts.take(i as int), "|"@, piece@);
                        }
                    }
                    if i > 0 {
                        s.append("|");
                    }
                    s.append(piece.as_str());
                    i += 1;
                }
                assert(parts.take(i as int) =~= parts);
                s
            },
            RuleOption::Type { kind, negated } => {
                let mut s = String::new();
                if *negated {
                    s.append("~");
                }
                s.append(kind.tag());
                s
            },
            RuleOption::ThirdParty { negated } => {
                let mut s = String::new();
                if *negated {
                    s.append("~");
                }
                s.append("third-party");
                s
            },
            RuleOption::MatchCase => String::from_str("match-case"),
        }
    }
}

impl Rule {
    /// Whether one of the options names a resource type that the rule is for.
    pub fn names_type(&self) -> (r: bool)
        ensures
            r == names_type(self@.options),
    {
        let mut i: usize = 0;
        while i < self.options.len()
            invariant
                i <= self.options.len(),
                forall|k: int| 0 <= k < i ==> !is_type_choice(#[trigger] self@.options[k]),
            decreases self.options.len() - i,
        {
            match &self.options[i] {
                RuleOption::Type { negated, .. } => {
                    if !*negated {
                        assert(is_type_choice(self@.options[i as int]));
                        return true;
                    }
                },
                _ => {},
            }
            i += 1;
        }
        false
    }

    /// The canonical spelling of this rule.
    pub fn canonical_text(&self) -> (s: String)
        ensures
            s@ == render(self@),
    {
        let mut s = String::new();
        if self.is_exception {
            s.append("@@");
        }
        s.append(self.pattern.as_str());
        s.append("$");
        let ghost head = s@;
        let ghost parts = render_options(self@.options);
        let mut i: usize = 0;
        while i < self.options.len()
            invariant
                i <= self.options.len(),
                parts == render_options(self@.options),
                s@ == head + join(parts.take(i as int), ","@),
            decreases self.options.len() - i,
        {
            let piece = self.options[i].canonical_text();
            proof {
                assert(parts.take(i as int + 1) =~= parts.take(i as int).push(piece@));
                if i > 0 {
                    lemma_join_push(parts.take(i as int), ","@, piece@);
                }
            }
            if i > 0 {
                s.append(",");
            }
            s.append(piece.as_str());
            i += 1;
        }
        assert(parts.take(i as int) =~= parts);
        if !self.names_type() {
            proof {
                if i > 0 {
                    lemma_join_push(parts, ","@, "all"@);
                }
            }
            if i > 0 {
                s.append(",");
            }
            s.append("all");
        }
        s
    }
}

} // verus!
