use filter_engine::decision::Decision;
use filter_engine::engine::FilterEngine;
use filter_engine::parser::{parse_line, ParsedLine};
use filter_engine::request::RequestContext;

/// A small generator of repeatable pseudo-random numbers.
struct Numbers(u64);

impl Numbers {
    fn next(&mut self, bound: usize) -> usize {
        self.0 = self.0.wrapping_mul(6364136223846793005).wrapping_add(1442695040888963407);
        ((self.0 >> 33) as usize) % bound
    }
}

const PIECES: [&str; 48] = [
    "a", "b", "example", ".com", ".", "/", "//", ":", "https://", "http://", "ws://", "|", "||",
    "^", "*", "$", ",", "~", "=", "@@", "@", "!", "#", "##", "#@#", "domain=", "script", "image",
    "third-party", "match-case", "important", "all", "document", " ", "\t", "\r", "?", "&", "%",
    "%zz", "é", "ü.de", "日本", "\u{1F600}", "xn--", "[", "]", "\\",
];

fn text(numbers: &mut Numbers, most: usize) -> String {
    let count = numbers.next(most + 1);
    let mut out = String::new();
    for _ in 0..count {
        out.push_str(PIECES[numbers.next(PIECES.len())]);
    }
    out
}

#[test]
fn odd_rules_and_urls_are_decided() {
    let mut numbers = Numbers(7);
    for round in 0..60 {
        let lines: Vec<String> = (0..40).map(|_| text(&mut numbers, 8)).collect();
        let engine = FilterEngine::build(&lines);
        assert!(engine.rules().len() + engine.diagnostics().len() <= lines.len(), "round {}", round);
        for _ in 0..40 {
            let url = text(&mut numbers, 8);
            let source = text(&mut numbers, 3);
            let tag = text(&mut numbers, 2);
            let request = RequestContext::new(&url, &source, &tag);
            let first = engine.decide(&request);
            let second = engine.decide(&request);
            assert_eq!(first, second);
        }
    }
}

#[test]
fn odd_rules_on_plain_urls_are_decided() {
    let mut numbers = Numbers(11);
    let urls = [
        "https://example.com/a/b?c=d&e=%20f#g",
        "http://a.b.example.com:8080/",
        "wss://example.com/socket",
        "https://xn--mller-kva.de/é",
        "https://ü.de/日本",
        "https://192.168.0.1/a",
        "https://[::1]/a",
    ];
    for _ in 0..60 {
        let lines: Vec<String> = (0..40).map(|_| text(&mut numbers, 6)).collect();
        let engine = FilterEngine::build(&lines);
        for url in urls {
            for source in ["", "example.com", "a.b.example.com", "ü.de", "a b", "::"] {
                for tag in ["script", "document", "image", "other"] {
                    let request = RequestContext::new(url, source, tag);
                    assert_eq!(engine.decide(&request), engine.decide(&request));
                }
            }
        }
    }
}

#[test]
fn spelling_of_odd_rules_parses_back() {
    let mut numbers = Numbers(13);
    let mut rules = 0;
    for _ in 0..20000 {
        let line = text(&mut numbers, 7);
        if let ParsedLine::Rule(rule) = parse_line(&line) {
            rules += 1;
            assert_eq!(parse_line(&rule.canonical_text()), ParsedLine::Rule(rule), "{:?}", line);
        }
    }
    assert!(rules > 1000);
}

#[test]
fn an_engine_without_rules_allows_odd_requests() {
    let mut numbers = Numbers(17);
    let engine = FilterEngine::build(&vec!["! nothing".to_string(), "a##b".to_string()]);
    for _ in 0..2000 {
        let request = RequestContext::new(
            &text(&mut numbers, 8),
            &text(&mut numbers, 3),
            &text(&mut numbers, 2),
        );
        assert_eq!(engine.decide(&request), Decision::Allow);
    }
}
