//! Loading of desktop-gadget packages: a tree query facility shared by the
//! manifest reader and the HTML rewriter, a byte-order-mark aware text
//! decoder, the HTML rewriter itself and the package metadata loader.
use vstd::prelude::*;

pub mod decode;
pub mod gadget;
pub mod html;
pub mod query;
pub mod rewrite;
pub mod text;

verus! {

} // verus!
