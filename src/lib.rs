//! A small static blog generator: markdown entries with metadata directives,
//! feed membership, `$KEY$` templates, HTML pages and RSS feeds.
use vstd::prelude::*;

pub mod text;
pub mod feeds;
pub mod template;
pub mod date;
pub mod markdown;
pub mod page;
pub mod site;
pub mod layout;

verus! {

/// A metadata attribute every document must declare.
#[derive(Clone, Copy, Debug, PartialEq, Eq, Structural)]
pub enum Attribute {
    Title,
    Description,
    Date,
}

impl Attribute {
    /// The directive label of the attribute.
    pub fn name(&self) -> (r: &'static str)
        ensures
            *self == Attribute::Title ==> r@ == "title"@,
            *self == Attribute::Description ==> r@ == "description"@,
            *self == Attribute::Date ==> r@ == "date"@,
    {
        match self {
            Attribute::Title => "title",
            Attribute::Description => "description",
            Attribute::Date => "date",
        }
    }
}

/// Why compiling a document or assembling the site stopped.
#[derive(Debug, PartialEq, Eq)]
pub enum BlogError {
    /// A template names a key for which no value was given.
    MissingTemplateKey { key: String },
    /// A document lacks a required attribute.
    MissingAttribute { attribute: Attribute },
    /// A document's date does not parse; chrono's reason.
    InvalidDate { reason: String },
    /// A document's date lies outside the years 0 to 9999.
    DateOutOfRange,
    /// Feed ids would no longer fit in 32 bits.
    TooManyFeeds,
    /// A markdown file of an entry is not named `content.md`.
    MisnamedMarkdown,
}

} // verus!
