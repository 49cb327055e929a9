//! A request filter for filter lists written in the Adblock Plus grammar.
//!
//! A filter list is read line by line. Each line that holds a network rule is
//! parsed into a structured rule ([`parser`], [`rule`]); comments, blank lines
//! and cosmetic rules are skipped, and a line that cannot be taken is
//! recorded with the reason. The rules are handed, each in its canonical
//! spelling, to the `adblock` crate, which compiles and matches them
//! ([`backend`]). For a request the engine ([`engine`]) asks the matcher and
//! resolves what it finds with a fixed precedence ([`decision`]): a matching
//! exception always wins, an empty rule set allows everything, and a URL that
//! cannot be read is allowed.
//!
//! What holds of the whole is stated and proved in [`laws`] and [`spelling`].

pub mod backend;
pub mod decision;
pub mod engine;
pub mod laws;
pub mod parser;
pub mod request;
pub mod resource;
pub mod rule;
pub mod spelling;
pub mod text;

use crate::decision::Decision;
use crate::engine::{accepted, all_well_formed, rejected, verdict, FilterEngine};
use crate::request::{RequestContext, RequestView};
use crate::resource::ResourceType;
use crate::text::split;
use vstd::prelude::*;

verus! {

/// The request that stands for a bare URL: no requesting page, and a
/// resource of no particular type.
pub open spec fn bare_request(url: Seq<char>) -> RequestView {
    RequestView { url, source_domain: Seq::empty(), resource_type: ResourceType::Other }
}

/// Builds the engine for the filter list `filter_data`, a rule to a line.
pub fn init_adblock_engine(filter_data: &str) -> (engine: FilterEngine)
    ensures
        engine@.rules == accepted(split(filter_data@, '\n')),
        engine@.diagnostics == rejected(split(filter_data@, '\n')),
        all_well_formed(engine@.rules),
{
    FilterEngine::from_text(filter_data)
}

/// Whether `url` is to be blocked. Without an engine nothing is blocked.
pub fn should_block_url(engine: Option<&FilterEngine>, url: &str) -> (blocked: bool)
    ensures
        blocked == match engine {
            Some(built) => verdict(built@.rules, bare_request(url@)) == Decision::Block,
            None => false,
        },
{
    match engine {
        Some(built) => {
            let request = RequestContext::new(url, "", "other");
            proof {
                reveal_strlit("");
                crate::resource::lemma_tag_names_type(ResourceType::Other);
                assert(request@.source_domain =~= Seq::empty());
                assert(request@ == bare_request(url@));
            }
            built.decide(&request).should_block()
        },
        None => false,
    }
}

} // verus!
