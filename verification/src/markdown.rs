//! Markdown rendering: an article body becomes HTML, with footnotes and
//! highlighted code fences, and intra-site links written as `.md"` are
//! rewritten to point at the generated `.html"` pages.

use crate::text::replace_all;
use crate::text::replace_all_str;
use vstd::prelude::*;

verus! {

/// What rendering a Markdown body to HTML yields.
pub uninterp spec fn markdown_html(md: Seq<char>) -> Seq<char>;

/// Relies on `comrak::markdown_to_html_with_plugins`, called with
/// footnotes enabled and fenced code blocks highlighted by syntect under
/// the fixed `base16-mocha.dark` theme: the rendered HTML depends on the
/// Markdown text alone.
#[verifier::external_body]
fn markdown_to_html(md: &str) -> (r: String)
    ensures
        r@ == markdown_html(md@),
{
    let adapter = comrak::plugins::syntect::SyntectAdapter::new(Some("base16-mocha.dark"));
    let mut plugins = comrak::options::Plugins::default();
    plugins.render.codefence_syntax_highlighter = Some(&adapter);
    let mut options = comrak::Options::default();
    options.extension.footnotes = true;
    comrak::markdown_to_html_with_plugins(md, &options, &plugins)
}

/// The link text that marks a Markdown-relative target, `.md"`.
pub open spec fn md_link_pat() -> Seq<char> {
    seq!['.', 'm', 'd', '"']
}

/// Its replacement, `.html"`.
pub open spec fn html_link_rep() -> Seq<char> {
    seq!['.', 'h', 't', 'm', 'l', '"']
}

/// A rendered article body: the Markdown HTML with every literal
/// occurrence of `.md"` rewritten to `.html"`, wherever it stands —
/// inside code spans included.
pub open spec fn rendered_body(md: Seq<char>) -> Seq<char> {
    replace_all(markdown_html(md), md_link_pat(), html_link_rep())
}

/// Renders a Markdown body and rewrites intra-site links, exactly as
/// [`rendered_body`] describes it.  The rewrite is a blunt textual
/// substitution, deliberately: downstream content depends on it.
pub fn render_article_body(md: &str) -> (r: String)
    ensures
        r@ == rendered_body(md@),
{
    let html = markdown_to_html(md);
    let pat = ".md\"";
    let rep = ".html\"";
    proof {
        reveal_strlit(".md\"");
        reveal_strlit(".html\"");
        assert(pat@ =~= md_link_pat());
        assert(rep@ =~= html_link_rep());
    }
    replace_all_str(html.as_str(), pat, rep)
}

} // verus!
