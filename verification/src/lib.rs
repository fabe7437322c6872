//! A forgiving HTML parser that builds a flat document tree over the source
//! bytes and looks elements up by `id` and by class name.

pub mod bytes;
pub mod grammar;
pub mod index;
pub mod node;
pub mod parser;
pub mod stream;
pub mod text;
pub mod theorems;
pub mod util;
pub mod vdom;

pub use crate::bytes::Span;
pub use crate::node::{Attributes, HTMLTag, HTMLVersion, Node, NodeHandle};
pub use crate::parser::{Parser, ParserOptions};
pub use crate::stream::Source;
pub use crate::util::AsBytes;
pub use crate::vdom::{VDom, VDomGuard};

use vstd::prelude::*;
use vstd::string::StringSliceAdditionalSpecFns;
use vstd::utf8::encode_utf8;

verus! {

/// Parses `input` into a document that borrows it.
pub fn parse<'a>(input: &'a str, options: ParserOptions) -> (dom: VDom<'a>)
    ensures
        dom.wf(),
        dom.source() == input.spec_bytes(),
        dom.parser_view().config() == options,
{
    VDom::from(Parser::new(input, options).parse())
}

/// Parses the bytes `input`, which need not be valid UTF-8, into a document
/// that borrows them.
pub fn parse_bytes<'a>(input: &'a [u8], options: ParserOptions) -> (dom: VDom<'a>)
    ensures
        dom.wf(),
        dom.source() == input@,
        dom.parser_view().config() == options,
{
    VDom::from(Parser::from_source(Source::Borrowed(input), options).parse())
}

/// Parses `input` into a document that owns it.
pub fn parse_owned(input: String, options: ParserOptions) -> (guard: VDomGuard)
    ensures
        guard.dom_view().wf(),
        guard.dom_view().source() == encode_utf8(input@),
        guard.dom_view().parser_view().config() == options,
{
    VDomGuard::parse(input, options)
}

} // verus!
