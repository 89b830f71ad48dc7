//! The pages of the built-in front end, each with the kind of content it is
//! served as.

use vstd::prelude::*;

verus! {

/// What kind of content an asset is.
#[derive(Clone, Copy, Debug, PartialEq, Eq, Structural)]
pub enum ContentKind {
    Html,
    JavaScript,
    Css,
}

/// A static asset: its text and the kind of content it is served as.
#[derive(Clone, Copy, Debug)]
pub struct Asset<'a> {
    pub kind: ContentKind,
    pub body: &'a str,
}

/// The start page, served as HTML.
pub fn index<'a>(page: &'a str) -> (asset: Asset<'a>)
    ensures
        asset.kind == ContentKind::Html,
        asset.body@ == page@,
{
    Asset { kind: ContentKind::Html, body: page }
}

/// The script of the start page, served as JavaScript.
pub fn main_js<'a>(script: &'a str) -> (asset: Asset<'a>)
    ensures
        asset.kind == ContentKind::JavaScript,
        asset.body@ == script@,
{
    Asset { kind: ContentKind::JavaScript, body: script }
}

/// The style sheet of the start page, served as CSS.
pub fn main_css<'a>(sheet: &'a str) -> (asset: Asset<'a>)
    ensures
        asset.kind == ContentKind::Css,
        asset.body@ == sheet@,
{
    Asset { kind: ContentKind::Css, body: sheet }
}

} // verus!
