//! The structural event vocabulary shared by the tokenizer and the normalizer.

use vstd::prelude::*;

verus! {

/// The kind of region that a `Start` or `End` event opens or closes.
#[derive(Debug, PartialEq, Eq)]
pub enum Tag {
    Paragraph,
    Rule,
    Header(i32),
    BlockQuote,
    CodeBlock(String),
    /// A list; `Some(n)` for an ordered list that starts at `n`.
    List(Option<usize>),
    Item,
    Emphasis,
    Strong,
    Code,
    /// A link: destination and title.
    Link(String, String),
    /// An image: source and title.
    Image(String, String),
}

/// One structural event of a document.
#[derive(Debug, PartialEq, Eq)]
pub enum Event {
    Start(Tag),
    End(Tag),
    Text(String),
    Html(String),
    InlineHtml(String),
    SoftBreak,
    HardBreak,
}

/// A `Start` event of a list or a block quote: it opens a scope.
pub open spec fn opens_scope(e: Event) -> bool {
    e matches Event::Start(Tag::List(_)) || e matches Event::Start(Tag::BlockQuote)
}

/// An `End` event of a list or a block quote: it closes a scope.
pub open spec fn closes_scope(e: Event) -> bool {
    e matches Event::End(Tag::List(_)) || e matches Event::End(Tag::BlockQuote)
}

/// A `Start` or `End` event of a paragraph.
pub open spec fn is_paragraph_marker(e: Event) -> bool {
    e matches Event::Start(Tag::Paragraph) || e matches Event::End(Tag::Paragraph)
}

} // verus!
