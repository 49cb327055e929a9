//! The request that a decision is asked for.

use crate::resource::ResourceType;
use vstd::prelude::*;
use vstd::string::*;

verus! {

/// One decision query: the URL requested, the domain of the page that asks
/// for it (empty for a top-level navigation) and the kind of resource.
#[derive(Clone, Debug, PartialEq, Eq)]
pub struct RequestContext {
    pub url: String,
    pub source_domain: String,
    pub resource_type: ResourceType,
}

/// The view of a [`RequestContext`].
pub struct RequestView {
    pub url: Seq<char>,
    pub source_domain: Seq<char>,
    pub resource_type: ResourceType,
}

impl View for RequestContext {
    type V = RequestView;

    open spec fn view(&self) -> RequestView {
        RequestView {
            url: self.url@,
            source_domain: self.source_domain@,
            resource_type: self.resource_type,
        }
    }
}

/// The URL that stands for the requesting page: none for an empty domain,
/// else the domain as an `https` origin.
pub open spec fn source_url_spec(source_domain: Seq<char>) -> Seq<char> {
    if source_domain.len() == 0 {
        Seq::empty()
    } else {
        "https://"@ + source_domain
    }
}

impl RequestContext {
    /// A request for `url`, made from a page of `source_domain`, for a
    /// resource of the type that `type_tag` names. A tag that names no type
    /// stands for `Other`.
    pub fn new(url: &str, source_domain: &str, type_tag: &str) -> (request: RequestContext)
        ensures
            request@.url == url@,
            request@.source_domain == source_domain@,
            request@.resource_type == ResourceType::from_tag_spec(type_tag@),
    {
        RequestContext {
            url: String::from_str(url),
            source_domain: String::from_str(source_domain),
            resource_type: ResourceType::from_tag(type_tag),
        }
    }

    /// The URL that stands for the requesting page.
    pub fn source_url(&self) -> (s: String)
        ensures
            s@ == source_url_spec(self@.source_domain),
    {
        let mut s = String::new();
        if self.source_domain.as_str().unicode_len() > 0 {
            s.append("https://");
            s.append(self.source_domain.as_str());
        }
        s
    }
}

} // verus!
