//! The render entry point: a named template's source, an optional base
//! template's source, and a context go in; a response envelope comes out.
//!
//! Looking sources up by name is the calling layer's job: it reads the child
//! template's text, asks `base_template_of` whether a base is needed, reads
//! that too, and hands both here. A missing child yields the not-found
//! response; a missing base degrades to a fixed fallback text that is parsed
//! in its place, and rendering continues.
use vstd::prelude::*;
use crate::router::{html_headers, Response};
use crate::template::blocks::{
    collect_blocks_sp, collect_top_level, find_extends_sp, merge_blocks, merge_sp,
};
use crate::template::node::{nodes_view, Node, NodeView};
use crate::template::parse::{parse_sp, parse_tokens};
use crate::template::render::{render_nodes, render_sp};
use crate::template::token::{spec_tokenize, tokenize_template};
use crate::template::value::{Context, Val};

verus! {

/// The tree a template source parses to: its token stream parsed with no
/// terminators active.
pub open spec fn spec_parse_source(src: Seq<char>) -> Seq<NodeView> {
    parse_sp(spec_tokenize(src), 0, Seq::empty()).0
}

/// The fallback text standing in for a template that could not be found.
pub open spec fn missing_template_text(name: Seq<char>) -> Seq<char> {
    "Template '"@ + name + "' not found"@
}

/// The body a render call produces from the child source, the base source
/// (where one was found) and the context: the child's top-level blocks are
/// collected; with an extends target, the base source — or, if none was
/// found, the fallback text for that target — is parsed and merged against
/// those blocks; without one, the child's own tree is; the merged tree is
/// then rendered.
pub open spec fn spec_rendered_body(
    child: Seq<char>,
    base: Option<Seq<char>>,
    ctx: Map<Seq<char>, Val>,
) -> Seq<char> {
    let child_nodes = spec_parse_source(child);
    let blocks = collect_blocks_sp(child_nodes);
    match find_extends_sp(child_nodes) {
        Some(bname) => {
            let btext = match base {
                Some(b) => b,
                None => missing_template_text(bname),
            };
            render_sp(merge_sp(spec_parse_source(btext), blocks), ctx)
        },
        None => render_sp(merge_sp(child_nodes, blocks), ctx),
    }
}

/// The view of an optional borrowed source text.
pub open spec fn opt_str_view(s: Option<&str>) -> Option<Seq<char>> {
    match s {
        Some(t) => Some(t@),
        None => None,
    }
}

/// Tokenizes and parses one template source into its tree.
pub fn parse_template(source: &str) -> (r: Vec<Node>)
    ensures
        nodes_view(r@) == spec_parse_source(source@),
{
    let tokens = tokenize_template(source);
    parse_tokens(&tokens)
}

/// The base template a child source extends, if any: the argument of its
/// last top-level `extends` tag.
pub fn base_template_of(child_source: &str) -> (r: Option<String>)
    ensures
        match r {
            Some(b) => find_extends_sp(spec_parse_source(child_source@)) == Some(b@),
            None => find_extends_sp(spec_parse_source(child_source@)) is None,
        },
{
    let nodes = parse_template(child_source);
    let (_blocks, base) = collect_top_level(&nodes);
    base
}

/// The fallback text for a template that could not be found.
fn missing_text(name: &str) -> (r: String)
    ensures
        r@ == missing_template_text(name@),
{
    let mut s = "Template '".to_owned();
    s.append(name);
    s.append("' not found");
    proof {
        assert(("Template '"@ + name@) + "' not found"@ =~= "Template '"@ + name@
            + "' not found"@);
    }
    s
}

/// Main entry: renders a template against a context into a response.
///
/// `child_source` is the text found for `template_name` (nothing if the
/// lookup failed, which yields the not-found response naming the template);
/// `base_source` is the text found for the child's extends target (nothing
/// if there is no such target or its lookup failed, which falls back to the
/// fixed substitute text).
pub fn render_template(
    template_name: &str,
    child_source: Option<&str>,
    base_source: Option<&str>,
    context: &Context,
) -> (r: Response)
    ensures
        child_source is None ==> r.status_code == 404 && r.body@ == missing_template_text(
            template_name@,
        ),
        child_source matches Some(src) ==> r.status_code == 200 && r.body@ == spec_rendered_body(
            src@,
            opt_str_view(base_source),
            context@,
        ),
        r.headers@ == html_headers(),
{
    match child_source {
        None => {
            let msg = missing_text(template_name);
            Response::html(msg.as_str()).with_status(404)
        },
        Some(src) => {
            let child_nodes = parse_template(src);
            let (blocks, base_t) = collect_top_level(&child_nodes);
            let html: String;
            match base_t {
                Some(bname) => {
                    let base_text: String = match base_source {
                        Some(b) => b.to_owned(),
                        None => missing_text(bname.as_str()),
                    };
                    let base_nodes = parse_template(base_text.as_str());
                    let merged = merge_blocks(&base_nodes, &blocks);
                    html = render_nodes(&merged, context);
                },
                None => {
                    let merged = merge_blocks(&child_nodes, &blocks);
                    html = render_nodes(&merged, context);
                },
            }
            Response::html(html.as_str())
        },
    }
}

} // verus!
