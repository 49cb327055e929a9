//! The kinds of resource that a request can be for.

use crate::text::spells;
use vstd::prelude::*;

verus! {

/// The category of content that a request is for.
#[derive(Clone, Copy, Debug, PartialEq, Eq, Hash, Structural)]
pub enum ResourceType {
    Document,
    Script,
    Image,
    Stylesheet,
    Object,
    Xhr,
    Font,
    Media,
    Websocket,
    Other,
}

impl ResourceType {
    /// The tag that names this type, in queries and in rule options alike.
    pub open spec fn tag_spec(self) -> Seq<char> {
        match self {
            ResourceType::Document => "document"@,
            ResourceType::Script => "script"@,
            ResourceType::Image => "image"@,
            ResourceType::Stylesheet => "stylesheet"@,
            ResourceType::Object => "object"@,
            ResourceType::Xhr => "xhr"@,
            ResourceType::Font => "font"@,
            ResourceType::Media => "media"@,
            ResourceType::Websocket => "websocket"@,
            ResourceType::Other => "other"@,
        }
    }

    /// The type that `tag` names, if it names one.
    pub open spec fn named(tag: Seq<char>) -> Option<ResourceType> {
        if tag == "document"@ {
            Some(ResourceType::Document)
        } else if tag == "script"@ {
            Some(ResourceType::Script)
        } else if tag == "image"@ {
            Some(ResourceType::Image)
        } else if tag == "stylesheet"@ {
            Some(ResourceType::Stylesheet)
        } else if tag == "object"@ {
            Some(ResourceType::Object)
        } else if tag == "xhr"@ {
            Some(ResourceType::Xhr)
        } else if tag == "font"@ {
            Some(ResourceType::Font)
        } else if tag == "media"@ {
            Some(ResourceType::Media)
        } else if tag == "websocket"@ {
            Some(ResourceType::Websocket)
        } else if tag == "other"@ {
            Some(ResourceType::Other)
        } else {
            None
        }
    }

    /// The type for a query's tag: the type that the tag names, and `Other`
    /// for every tag that names none.
    pub open spec fn from_tag_spec(tag: Seq<char>) -> ResourceType {
        match Self::named(tag) {
            Some(kind) => kind,
            None => ResourceType::Other,
        }
    }

    /// The tag that names this type.
    pub fn tag(self) -> (s: &'static str)
        ensures
            s@ == self.tag_spec(),
    {
        match self {
            ResourceType::Document => "document",
            ResourceType::Script => "script",
            ResourceType::Image => "image",
            ResourceType::Stylesheet => "stylesheet",
            ResourceType::Object => "object",
            ResourceType::Xhr => "xhr",
            ResourceType::Font => "font",
            ResourceType::Media => "media",
            ResourceType::Websocket => "websocket",
            ResourceType::Other => "other",
        }
    }

    /// The type that the characters `tag` name, if they name one.
    pub fn lookup(tag: &Vec<char>) -> (r: Option<ResourceType>)
        ensures
            r == Self::named(tag@),
    {
        if spells(tag, "document") {
            Some(ResourceType::Document)
        } else if spells(tag, "script") {
            Some(ResourceType::Script)
        } else if spells(tag, "image") {
            Some(ResourceType::Image)
        } else if spells(tag, "stylesheet") {
            Some(ResourceType::Stylesheet)
        } else if spells(tag, "object") {
            Some(ResourceType::Object)
        } else if spells(tag, "xhr") {
            Some(ResourceType::Xhr)
        } else if spells(tag, "font") {
            Some(ResourceType::Font)
        } else if spells(tag, "media") {
            Some(ResourceType::Media)
        } else if spells(tag, "websocket") {
            Some(ResourceType::Websocket)
        } else if spells(tag, "other") {
            Some(ResourceType::Other)
        } else {
            None
        }
    }

    /// The type for a query's tag. A tag that names no type gives `Other`.
    pub fn from_tag(tag: &str) -> (r: ResourceType)
        ensures
            r == Self::from_tag_spec(tag@),
    {
        let chars = crate::text::to_chars(tag);
        match Self::lookup(&chars) {
            Some(kind) => kind,
            None => ResourceType::Other,
        }
    }
}

/// Every type is the one that its own tag names.
pub proof fn lemma_tag_names_type(kind: ResourceType)
    ensures
        ResourceType::named(kind.tag_spec()) == Some(kind),
        ResourceType::from_tag_spec(kind.tag_spec()) == kind,
{
    reveal_strlit("document");
    reveal_strlit("script");
    reveal_strlit("image");
    reveal_strlit("stylesheet");
    reveal_strlit("object");
    reveal_strlit("xhr");
    reveal_strlit("font");
    reveal_strlit("media");
    reveal_strlit("websocket");
    reveal_strlit("other");
    assert("document"@.len() == 8 && "script"@.len() == 6 && "image"@.len() == 5);
    assert("stylesheet"@.len() == 10 && "object"@.len() == 6 && "xhr"@.len() == 3);
    assert("font"@.len() == 4 && "media"@.len() == 5 && "websocket"@.len() == 9);
    assert("other"@.len() == 5);
    assert("script"@[0] == 's' && "object"@[0] == 'o');
    assert("image"@[0] == 'i' && "media"@[0] == 'm' && "other"@[0] == 'o');
}

} // verus!
