//! The `adblock` crate as the matcher behind the engine.
//!
//! Nothing in this file is proved. Each item states what the `adblock` crate
//! is taken to do; the rest of the library is verified against these
//! statements.

use crate::decision::MatchOutcome;
use vstd::prelude::*;

verus! {

/// `adblock::Engine`, a compiled rule set. Its inside is not visible here.
#[verifier::external_type_specification]
#[verifier::external_body]
pub struct ExEngine(adblock::Engine);

/// The filter list text that an `adblock::Engine` was compiled from.
pub uninterp spec fn engine_list(engine: adblock::Engine) -> Seq<char>;

/// Whether `adblock::lists::parse_filter`, reading network rules only, takes
/// the line `line` as a rule.
pub uninterp spec fn backend_accepts(line: Seq<char>) -> bool;

/// What `adblock::Engine::check_network_request` finds for a request to `url`
/// made from the page `source_url` for a resource of the type `tag`, on an
/// engine compiled from the filter list `list`: `None` where
/// `adblock::request::Request::new` refuses the URL, else what its result
/// says of a matching blocking rule and of a matching exception.
pub uninterp spec fn backend_verdict(
    list: Seq<char>,
    url: Seq<char>,
    source_url: Seq<char>,
    tag: Seq<char>,
) -> Option<MatchOutcome>;

/// Calls `adblock::lists::parse_filter` on one line, in the standard format
/// and for network rules only, and tells whether it returned `Ok`. The answer
/// depends on the line alone.
#[verifier::external_body]
pub(crate) fn accepts_line(line: &str) -> (ok: bool)
    ensures
        ok == backend_accepts(line@),
{
    let options = adblock::lists::ParseOptions {
        rule_types: adblock::lists::RuleTypes::NetworkOnly,
        ..Default::default()
    };
    adblock::lists::parse_filter(line, false, options).is_ok()
}

/// Compiles a filter list with `adblock::FilterSet::add_filter_list` and
/// `adblock::Engine::new_with_filter_set`, for network rules only. The
/// contract records the text that the engine was compiled from.
#[verifier::external_body]
pub(crate) fn compile_list(list: String) -> (engine: adblock::Engine)
    ensures
        engine_list(engine) == list@,
{
    let options = adblock::lists::ParseOptions {
        rule_types: adblock::lists::RuleTypes::NetworkOnly,
        ..Default::default()
    };
    let mut set = adblock::FilterSet::new(false);
    set.add_filter_list(list, options);
    adblock::Engine::new_with_filter_set(set)
}

/// Builds the request with `adblock::request::Request::new` (no method given)
/// and checks it with `adblock::Engine::check_network_request`. A URL that
/// the crate cannot parse gives `None`. Otherwise `blocked` is whether the
/// result names a matching blocking rule (its field `filter`), and `excepted`
/// whether it names a matching exception (its field `exception`), which the
/// crate looks for where a blocking rule matched. The answer depends on the
/// list that the engine was compiled from and on the three strings alone: the
/// engine is given no tags and no resources, and what it keeps between
/// queries is a cache of compiled expressions.
#[verifier::external_body]
pub(crate) fn check_request(
    engine: &adblock::Engine,
    url: &str,
    source_url: &str,
    tag: &str,
) -> (found: Option<MatchOutcome>)
    ensures
        found == backend_verdict(engine_list(*engine), url@, source_url@, tag@),
{
    match adblock::request::Request::new(url, source_url, tag, "") {
        Ok(request) => {
            let result = engine.check_network_request(&request);
            Some(MatchOutcome { blocked: result.filter.is_some(), excepted: result.exception.is_some() })
        },
        Err(_) => None,
    }
}

/// Collects characters into a `String` with `String::from_iter`.
#[verifier::external_body]
pub(crate) fn string_of(chars: &Vec<char>) -> (s: String)
    ensures
        s@ == chars@,
{
    String::from_iter(chars.iter())
}

} // verus!
