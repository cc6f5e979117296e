//! The boundary with the Markdown parser.
//!
//! Parsing is total and deterministic: any text yields a document tree,
//! and malformed constructs degrade to plain text nodes rather than
//! failing.  The tree is handed over as its pre-order event walk; what
//! that walk is for a given text is named by `parsed_events` and taken on
//! trust from the parser.

use crate::events::{EventStep, MdEvent};
use comrak::arena_tree::NodeEdge;
use comrak::nodes::NodeValue;
use vstd::prelude::*;

verus! {

/// The pre-order event walk of the document tree that the parser builds
/// from `text`, with tables and autolinking enabled.
pub uninterp spec fn parsed_events(text: Seq<char>) -> Seq<EventStep>;

/// Relies on comrak::parse_document (with the table and autolink
/// extensions on) and comrak::arena_tree::Node::traverse: parsing never
/// fails, and the tree and its pre-order walk depend on the document text
/// alone.
#[verifier::external_body]
pub(crate) fn parse_markdown(text: &str) -> (events: Vec<MdEvent>)
    ensures
        events.deep_view() == parsed_events(text@),
{
    let arena = comrak::Arena::new();
    let mut options = comrak::Options::default();
    options.extension.table = true;
    options.extension.autolink = true;
    let mut events: Vec<MdEvent> = Vec::new();
    for edge in comrak::parse_document(&arena, text, &options).traverse() {
        events.push(match edge {
            NodeEdge::End(_) => MdEvent::Exit,
            NodeEdge::Start(n) => match &n.data().value {
                NodeValue::Link(l) => MdEvent::Enter { link_url: Some(l.url.clone()) },
                _ => MdEvent::Enter { link_url: None },
            },
        });
    }
    events
}

} // verus!
