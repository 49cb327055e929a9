use filter_engine::parser::{
    parse_domain, parse_domains, parse_line, parse_options, ParseError, ParsedLine, SkipReason,
};
use filter_engine::resource::ResourceType;
use filter_engine::rule::{DomainEntry, Rule, RuleOption};

fn chars(s: &str) -> Vec<char> {
    s.chars().collect()
}

fn rule(pattern: &str, is_exception: bool, options: Vec<RuleOption>) -> ParsedLine {
    ParsedLine::Rule(Rule { pattern: pattern.to_string(), is_exception, options })
}

fn entry(name: &str, negated: bool) -> DomainEntry {
    DomainEntry { name: name.to_string(), negated }
}

#[test]
fn blank_lines_are_skipped() {
    assert_eq!(parse_line(""), ParsedLine::Skipped(SkipReason::Blank));
    assert_eq!(parse_line("   \t\r"), ParsedLine::Skipped(SkipReason::Blank));
}

#[test]
fn comments_are_skipped() {
    assert_eq!(parse_line("! Title: a list"), ParsedLine::Skipped(SkipReason::Comment));
    assert_eq!(parse_line("  !||example.com^"), ParsedLine::Skipped(SkipReason::Comment));
    assert_eq!(parse_line("!"), ParsedLine::Skipped(SkipReason::Comment));
}

#[test]
fn cosmetic_rules_are_skipped() {
    assert_eq!(parse_line("example.com##.banner"), ParsedLine::Skipped(SkipReason::Cosmetic));
    assert_eq!(parse_line("##.banner"), ParsedLine::Skipped(SkipReason::Cosmetic));
    assert_eq!(parse_line("example.com#@#.banner"), ParsedLine::Skipped(SkipReason::Cosmetic));
    assert_eq!(parse_line("@@||example.com^$script##"), ParsedLine::Skipped(SkipReason::Cosmetic));
}

#[test]
fn plain_rule() {
    assert_eq!(parse_line("||ads.example.com^"), rule("||ads.example.com^", false, vec![]));
    assert_eq!(parse_line("  /banner/*  \r"), rule("/banner/*", false, vec![]));
    assert_eq!(parse_line("a#b"), rule("a#b", false, vec![]));
}

#[test]
fn exception_marker_sets_the_flag() {
    assert_eq!(parse_line("@@||example.com/allowed^"), rule("||example.com/allowed^", true, vec![]));
    assert_eq!(parse_line("@@@@x"), rule("@@x", true, vec![]));
    assert_eq!(parse_line("@||example.com^"), rule("@||example.com^", false, vec![]));
}

#[test]
fn options_are_typed() {
    assert_eq!(
        parse_line("||example.com^$script,~image,third-party,match-case,domain=a.com|~b.com"),
        rule(
            "||example.com^",
            false,
            vec![
                RuleOption::Type { kind: ResourceType::Script, negated: false },
                RuleOption::Type { kind: ResourceType::Image, negated: true },
                RuleOption::ThirdParty { negated: false },
                RuleOption::MatchCase,
                RuleOption::Domains(vec![entry("a.com", false), entry("b.com", true)]),
            ],
        )
    );
    assert_eq!(
        parse_line("@@ads$~third-party"),
        rule("ads", true, vec![RuleOption::ThirdParty { negated: true }])
    );
}

#[test]
fn every_type_tag_is_an_option() {
    for kind in [
        ResourceType::Document,
        ResourceType::Script,
        ResourceType::Image,
        ResourceType::Stylesheet,
        ResourceType::Object,
        ResourceType::Xhr,
        ResourceType::Font,
        ResourceType::Media,
        ResourceType::Websocket,
        ResourceType::Other,
    ] {
        let line = format!("ads${}", kind.tag());
        assert_eq!(parse_line(&line), rule("ads", false, vec![RuleOption::Type { kind, negated: false }]));
        let line = format!("ads$~{}", kind.tag());
        assert_eq!(parse_line(&line), rule("ads", false, vec![RuleOption::Type { kind, negated: true }]));
    }
}

#[test]
fn unknown_option_keys_are_ignored() {
    assert_eq!(parse_line("ads$frobnicate"), rule("ads", false, vec![]));
    assert_eq!(
        parse_line("ads$important,script,redirect=noop.js,~popup"),
        rule("ads", false, vec![RuleOption::Type { kind: ResourceType::Script, negated: false }])
    );
    assert_eq!(parse_line("ads$Script"), rule("ads", false, vec![]));
    assert_eq!(parse_line("ads$ script"), rule("ads", false, vec![]));
}

#[test]
fn pattern_ends_at_the_first_dollar() {
    assert_eq!(
        parse_line("ads$csp=a$b,script"),
        rule("ads", false, vec![RuleOption::Type { kind: ResourceType::Script, negated: false }])
    );
    assert_eq!(parse_line("ads $script").clone(), rule("ads", false, vec![RuleOption::Type { kind: ResourceType::Script, negated: false }]));
}

#[test]
fn empty_pattern_is_rejected() {
    assert_eq!(parse_line("$script"), ParsedLine::Malformed(ParseError::EmptyPattern));
    assert_eq!(parse_line("@@"), ParsedLine::Malformed(ParseError::EmptyPattern));
    assert_eq!(parse_line("@@  $script"), ParsedLine::Malformed(ParseError::EmptyPattern));
    assert_eq!(parse_line("$"), ParsedLine::Malformed(ParseError::EmptyPattern));
    assert_eq!(parse_line("$,,"), ParsedLine::Malformed(ParseError::EmptyPattern));
}

#[test]
fn malformed_options_reject_the_whole_rule() {
    for line in [
        "ads$",
        "ads$script,",
        "ads$,script",
        "ads$script,,image",
        "ads$~",
        "ads$=x",
        "ads$domain",
        "ads$domain=",
        "ads$domain=a.com|",
        "ads$domain=|a.com",
        "ads$domain=a.com||b.com",
        "ads$domain=~",
        "ads$domain=a.com|~~b.com",
        "ads$domain=a com",
        "ads$~domain=a.com",
        "ads$script=1",
        "ads$third-party=1",
        "ads$match-case=1",
        "ads$~match-case",
        "ads$frobnicate,domain=",
    ] {
        assert_eq!(parse_line(line), ParsedLine::Malformed(ParseError::MalformedOptions), "{}", line);
    }
}

#[test]
fn option_string_pieces() {
    assert_eq!(parse_options(&chars("script")), Some(vec![RuleOption::Type { kind: ResourceType::Script, negated: false }]));
    assert_eq!(parse_options(&chars("x,y=z")), Some(vec![]));
    assert_eq!(parse_options(&chars("")), None);
    assert_eq!(parse_domains(&chars("a.com|~b.com")), Some(vec![entry("a.com", false), entry("b.com", true)]));
    assert_eq!(parse_domains(&chars("")), None);
    assert_eq!(parse_domain(&chars("~b.com")), Some(entry("b.com", true)));
    assert_eq!(parse_domain(&chars("b.com")), Some(entry("b.com", false)));
    assert_eq!(parse_domain(&chars("~")), None);
    assert_eq!(parse_domain(&chars("b,com")), None);
}

#[test]
fn canonical_spelling() {
    let cases = [
        ("||ads.example.com^", "||ads.example.com^$all"),
        ("  @@||example.com/allowed^  ", "@@||example.com/allowed^$all"),
        ("ads$script", "ads$script"),
        ("ads$~script", "ads$~script,all"),
        ("ads$frobnicate,image,important", "ads$image"),
        ("ads$domain=a.com|~b.com", "ads$domain=a.com|~b.com,all"),
        ("ads $ third-party,xhr,~third-party,match-case", "ads$xhr,~third-party,match-case"),
        ("@@ads$domain=a.com,script,domain=~c.org", "@@ads$domain=a.com,script,domain=~c.org"),
    ];
    for (line, spelling) in cases {
        match parse_line(line) {
            ParsedLine::Rule(rule) => {
                assert_eq!(rule.canonical_text(), spelling);
                assert_eq!(parse_line(&rule.canonical_text()), ParsedLine::Rule(rule));
            }
            other => panic!("{} gave {:?}", line, other),
        }
    }
}

#[test]
fn option_and_entry_spellings() {
    assert_eq!(entry("a.com", false).canonical_text(), "a.com");
    assert_eq!(entry("a.com", true).canonical_text(), "~a.com");
    assert_eq!(RuleOption::MatchCase.canonical_text(), "match-case");
    assert_eq!(RuleOption::ThirdParty { negated: true }.canonical_text(), "~third-party");
    assert_eq!(RuleOption::Type { kind: ResourceType::Xhr, negated: false }.canonical_text(), "xhr");
    assert_eq!(RuleOption::Domains(vec![entry("a.com", false)]).canonical_text(), "domain=a.com");
    let typed = Rule {
        pattern: "ads".to_string(),
        is_exception: false,
        options: vec![RuleOption::Type { kind: ResourceType::Font, negated: false }],
    };
    assert!(typed.names_type());
    let untyped = Rule {
        pattern: "ads".to_string(),
        is_exception: false,
        options: vec![RuleOption::Type { kind: ResourceType::Font, negated: true }],
    };
    assert!(!untyped.names_type());
}
