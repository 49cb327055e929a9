use filter_engine::decision::{resolve, Decision, MatchOutcome};
use filter_engine::engine::FilterEngine;
use filter_engine::request::RequestContext;
use filter_engine::resource::ResourceType;
use filter_engine::{init_adblock_engine, should_block_url};

fn engine_of(lines: &[&str]) -> FilterEngine {
    let texts: Vec<String> = lines.iter().map(|line| line.to_string()).collect();
    FilterEngine::build(&texts)
}

fn decide(engine: &FilterEngine, url: &str, source: &str, tag: &str) -> Decision {
    engine.decide(&RequestContext::new(url, source, tag))
}

#[test]
fn empty_rule_set_allows_everything() {
    let engine = engine_of(&[]);
    assert_eq!(engine.rules().len(), 0);
    for url in ["https://ads.example.com/x", "http://example.com/", "https://a.b.c/d?e=f"] {
        for tag in ["document", "script", "image", "other"] {
            assert_eq!(decide(&engine, url, "", tag), Decision::Allow);
            assert_eq!(decide(&engine, url, "example.org", tag), Decision::Allow);
        }
    }
}

#[test]
fn rule_set_of_comments_allows_everything() {
    let engine = engine_of(&["! a comment", "", "   ", "example.com##.banner"]);
    assert_eq!(engine.rules().len(), 0);
    assert_eq!(engine.diagnostics().len(), 0);
    assert_eq!(decide(&engine, "https://example.com/", "", "script"), Decision::Allow);
}

#[test]
fn host_anchor_respects_the_label_boundary() {
    let engine = engine_of(&["||ads.example.com^"]);
    assert_eq!(decide(&engine, "https://ads.example.com/x", "", "other"), Decision::Block);
    assert_eq!(decide(&engine, "https://notads.example.com/x", "", "other"), Decision::Allow);
}

#[test]
fn host_anchor_matches_subdomains() {
    let engine = engine_of(&["||example.com^"]);
    assert_eq!(decide(&engine, "https://sub.example.com/x", "", "image"), Decision::Block);
    assert_eq!(decide(&engine, "https://example.com.evil.org/x", "", "image"), Decision::Allow);
}

#[test]
fn exception_overrides_block() {
    let engine = engine_of(&["||example.com^", "@@||example.com/allowed^"]);
    assert_eq!(decide(&engine, "https://example.com/allowed", "", "other"), Decision::Allow);
    assert_eq!(decide(&engine, "https://example.com/other", "", "other"), Decision::Block);
}

#[test]
fn exception_wins_whatever_the_order_of_the_rules() {
    let engine = engine_of(&["@@||example.com/allowed^", "||example.com^", "/allowed"]);
    assert_eq!(decide(&engine, "https://example.com/allowed", "", "script"), Decision::Allow);
    assert_eq!(decide(&engine, "https://example.com/other", "", "script"), Decision::Block);
}

#[test]
fn exception_wins_over_a_rule_marked_important() {
    let engine = engine_of(&["||example.com^$important", "@@||example.com^"]);
    assert_eq!(engine.rules().len(), 2);
    assert_eq!(decide(&engine, "https://example.com/x", "", "script"), Decision::Allow);
}

#[test]
fn domain_option_limits_the_rule_to_its_pages() {
    let engine = engine_of(&["||example.com^$domain=a.com"]);
    assert_eq!(decide(&engine, "https://example.com/x", "a.com", "script"), Decision::Block);
    assert_eq!(decide(&engine, "https://example.com/x", "b.com", "script"), Decision::Allow);
    assert_eq!(decide(&engine, "https://example.com/x", "", "script"), Decision::Allow);
}

#[test]
fn domain_option_covers_subdomains_of_the_page() {
    let engine = engine_of(&["||example.com^$domain=a.com|~shop.a.com"]);
    assert_eq!(decide(&engine, "https://example.com/x", "www.a.com", "image"), Decision::Block);
    assert_eq!(decide(&engine, "https://example.com/x", "shop.a.com", "image"), Decision::Allow);
}

#[test]
fn negated_domain_alone_allows_only_that_page() {
    let engine = engine_of(&["||example.com^$domain=~b.com"]);
    assert_eq!(decide(&engine, "https://example.com/x", "a.com", "image"), Decision::Block);
    assert_eq!(decide(&engine, "https://example.com/x", "b.com", "image"), Decision::Allow);
}

#[test]
fn type_option_limits_the_rule_to_its_type() {
    let engine = engine_of(&["||example.com^$script"]);
    assert_eq!(decide(&engine, "https://example.com/a.js", "", "image"), Decision::Allow);
    assert_eq!(decide(&engine, "https://example.com/a.js", "", "script"), Decision::Block);
}

#[test]
fn negated_type_option_leaves_that_type_out() {
    let engine = engine_of(&["||example.com^$~image"]);
    assert_eq!(decide(&engine, "https://example.com/a", "", "image"), Decision::Allow);
    assert_eq!(decide(&engine, "https://example.com/a", "", "script"), Decision::Block);
    assert_eq!(decide(&engine, "https://example.com/a", "", "document"), Decision::Block);
}

#[test]
fn rule_without_type_is_for_every_type() {
    let engine = engine_of(&["/banner/"]);
    for tag in [
        "document", "script", "image", "stylesheet", "object", "xhr", "font", "media", "other",
    ] {
        assert_eq!(decide(&engine, "https://example.com/banner/1", "", tag), Decision::Block);
    }
}

#[test]
fn unknown_type_tag_counts_as_other() {
    let engine = engine_of(&["||example.com^$other"]);
    assert_eq!(decide(&engine, "https://example.com/a", "", "hologram"), Decision::Block);
    assert_eq!(decide(&engine, "https://example.com/a", "", "other"), Decision::Block);
    assert_eq!(decide(&engine, "https://example.com/a", "", "script"), Decision::Allow);
}

#[test]
fn third_party_option_compares_registrable_domains() {
    let engine = engine_of(&["||tracker.com^$third-party"]);
    assert_eq!(decide(&engine, "https://tracker.com/p", "site.org", "script"), Decision::Block);
    assert_eq!(decide(&engine, "https://tracker.com/p", "tracker.com", "script"), Decision::Allow);
    assert_eq!(decide(&engine, "https://cdn.tracker.com/p", "www.tracker.com", "script"), Decision::Allow);
    assert_eq!(decide(&engine, "https://tracker.com/p", "", "script"), Decision::Block);
}

#[test]
fn negated_third_party_option_is_first_party_only() {
    let engine = engine_of(&["||tracker.com^$~third-party"]);
    assert_eq!(decide(&engine, "https://tracker.com/p", "site.org", "script"), Decision::Allow);
    assert_eq!(decide(&engine, "https://tracker.com/p", "tracker.com", "script"), Decision::Block);
}

#[test]
fn unknown_option_is_ignored() {
    let engine = engine_of(&["||example.com^$frobnicate,script"]);
    assert_eq!(engine.rules().len(), 1);
    assert_eq!(engine.diagnostics().len(), 0);
    assert_eq!(decide(&engine, "https://example.com/a.js", "", "script"), Decision::Block);
    assert_eq!(decide(&engine, "https://example.com/a.js", "", "image"), Decision::Allow);
}

#[test]
fn plain_pattern_matches_anywhere_in_the_url() {
    let engine = engine_of(&["adframe"]);
    assert_eq!(decide(&engine, "https://example.com/x/adframe/y", "", "image"), Decision::Block);
    assert_eq!(decide(&engine, "https://adframe.example.com/", "", "image"), Decision::Block);
    assert_eq!(decide(&engine, "https://example.com/x/frame/y", "", "image"), Decision::Allow);
}

#[test]
fn wildcard_matches_any_run_of_characters() {
    let engine = engine_of(&["/ads/*/banner"]);
    assert_eq!(decide(&engine, "https://example.com/ads/2024/q1/banner.png", "", "image"), Decision::Block);
    assert_eq!(decide(&engine, "https://example.com/ads//banner", "", "image"), Decision::Block);
    assert_eq!(decide(&engine, "https://example.com/banner/ads/", "", "image"), Decision::Allow);
}

#[test]
fn separator_matches_a_delimiter_or_the_end() {
    let engine = engine_of(&["/track^"]);
    assert_eq!(decide(&engine, "https://example.com/track?id=1", "", "image"), Decision::Block);
    assert_eq!(decide(&engine, "https://example.com/track", "", "image"), Decision::Block);
    assert_eq!(decide(&engine, "https://example.com/tracker", "", "image"), Decision::Allow);
}

#[test]
fn start_and_end_anchors_are_exact() {
    let engine = engine_of(&["|https://example.com/a|"]);
    assert_eq!(decide(&engine, "https://example.com/a", "", "image"), Decision::Block);
    assert_eq!(decide(&engine, "https://example.com/ab", "", "image"), Decision::Allow);
    assert_eq!(decide(&engine, "https://other.org/?u=https://example.com/a", "", "image"), Decision::Allow);
}

#[test]
fn malformed_url_is_allowed() {
    let engine = engine_of(&["adframe"]);
    assert_eq!(decide(&engine, "https://example.com/adframe", "", "image"), Decision::Block);
    assert_eq!(decide(&engine, "adframe", "", "image"), Decision::Allow);
    assert_eq!(decide(&engine, "", "", "image"), Decision::Allow);
    assert_eq!(decide(&engine, "://adframe", "", "image"), Decision::Allow);
}

#[test]
fn rebuilding_gives_the_same_decisions() {
    let lines = ["||example.com^", "@@||example.com/allowed^", "/banner/$image", "bad$domain="];
    let first = engine_of(&lines);
    let second = engine_of(&lines);
    assert_eq!(first.rules(), second.rules());
    assert_eq!(first.diagnostics(), second.diagnostics());
    for url in [
        "https://example.com/allowed",
        "https://example.com/other",
        "https://other.org/banner/1",
        "https://other.org/",
    ] {
        for tag in ["image", "script", "document"] {
            assert_eq!(decide(&first, url, "a.com", tag), decide(&second, url, "a.com", tag));
        }
    }
}

#[test]
fn resolve_puts_exceptions_first() {
    assert_eq!(resolve(MatchOutcome { blocked: false, excepted: false }), Decision::Allow);
    assert_eq!(resolve(MatchOutcome { blocked: true, excepted: false }), Decision::Block);
    assert_eq!(resolve(MatchOutcome { blocked: true, excepted: true }), Decision::Allow);
    assert_eq!(resolve(MatchOutcome { blocked: false, excepted: true }), Decision::Allow);
    assert!(Decision::Block.should_block());
    assert!(!Decision::Allow.should_block());
}

#[test]
fn request_context_reads_the_type_tag() {
    let request = RequestContext::new("https://example.com/", "a.com", "xhr");
    assert_eq!(request.url, "https://example.com/");
    assert_eq!(request.source_domain, "a.com");
    assert_eq!(request.resource_type, ResourceType::Xhr);
    assert_eq!(request.source_url(), "https://a.com");
    let top = RequestContext::new("https://example.com/", "", "XHR");
    assert_eq!(top.resource_type, ResourceType::Other);
    assert_eq!(top.source_url(), "");
}

#[test]
fn resource_type_tags() {
    let all = [
        (ResourceType::Document, "document"),
        (ResourceType::Script, "script"),
        (ResourceType::Image, "image"),
        (ResourceType::Stylesheet, "stylesheet"),
        (ResourceType::Object, "object"),
        (ResourceType::Xhr, "xhr"),
        (ResourceType::Font, "font"),
        (ResourceType::Media, "media"),
        (ResourceType::Websocket, "websocket"),
        (ResourceType::Other, "other"),
    ];
    for (kind, tag) in all {
        assert_eq!(kind.tag(), tag);
        assert_eq!(ResourceType::from_tag(tag), kind);
        let chars: Vec<char> = tag.chars().collect();
        assert_eq!(ResourceType::lookup(&chars), Some(kind));
    }
    assert_eq!(ResourceType::from_tag("Script"), ResourceType::Other);
    assert_eq!(ResourceType::from_tag(""), ResourceType::Other);
    assert_eq!(ResourceType::from_tag("xmlhttprequest"), ResourceType::Other);
    let chars: Vec<char> = "subdocument".chars().collect();
    assert_eq!(ResourceType::lookup(&chars), None);
}

#[test]
fn without_an_engine_nothing_is_blocked() {
    assert!(!should_block_url(None, "https://ads.example.com/x"));
}

#[test]
fn initialised_engine_blocks_by_url() {
    let engine = (init_adblock_engine("! list\n||ads.example.com^\n@@||ads.example.com/ok^\n"));
    assert!(should_block_url(Some(&engine), "https://ads.example.com/x"));
    assert!(!should_block_url(Some(&engine), "https://ads.example.com/ok"));
    assert!(!should_block_url(Some(&engine), "https://example.com/x"));
    assert!(!should_block_url(Some(&engine), ""));
    let empty = init_adblock_engine("");
    assert!(!should_block_url(Some(&empty), "https://ads.example.com/x"));
}

#[test]
fn literal_pattern_blocks_a_url_that_holds_it() {
    let patterns = ["adframe", "/banner_", "tracking.js", "promo-2024", "a1b2c3", "ads"];
    let texts: Vec<String> = patterns.iter().map(|p| p.to_string()).collect();
    for (i, pattern) in patterns.iter().enumerate() {
        let engine = FilterEngine::build(&texts[i..i + 1].to_vec());
        assert_eq!(engine.rules().len(), 1);
        let url = format!("https://example.com/{}", pattern);
        assert_eq!(decide(&engine, &url, "", "image"), Decision::Block, "{}", pattern);
        let url = format!("https://example.com/x/{}/y?z", pattern);
        assert_eq!(decide(&engine, &url, "", "image"), Decision::Block, "{}", pattern);
        assert_eq!(decide(&engine, "https://example.com/", "", "image"), Decision::Allow);
    }
}

#[test]
fn pattern_matching_ignores_case_unless_told() {
    let engine = engine_of(&["/AdFrame/"]);
    assert_eq!(decide(&engine, "https://example.com/adframe/", "", "image"), Decision::Block);
    assert_eq!(decide(&engine, "https://example.com/ADFRAME/", "", "image"), Decision::Block);
}
