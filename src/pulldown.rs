//! pulldown-cmark's event types, declared so that verified code can read them.
use vstd::prelude::*;

verus! {

#[verifier::external_type_specification]
#[verifier::external_body]
pub struct ExInlineStr(pulldown_cmark::InlineStr);

#[verifier::external_type_specification]
pub struct ExCowStr<'a>(pulldown_cmark::CowStr<'a>);

#[verifier::external_type_specification]
pub struct ExAlignment(pulldown_cmark::Alignment);

#[verifier::external_type_specification]
pub struct ExLinkType(pulldown_cmark::LinkType);

#[verifier::external_type_specification]
pub struct ExCodeBlockKind<'a>(pulldown_cmark::CodeBlockKind<'a>);

#[verifier::external_type_specification]
pub struct ExTag<'a>(pulldown_cmark::Tag<'a>);

#[verifier::external_type_specification]
pub struct ExEvent<'a>(pulldown_cmark::Event<'a>);

} // verus!
