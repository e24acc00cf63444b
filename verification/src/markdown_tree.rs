//! The links of a Markdown document: where and what they are.

use vstd::prelude::*;
use markdown::mdast::Node;
use vstd::string::StringSliceAdditionalSpecFns;
use markdown::{Constructs, ParseOptions};

verus! {

/// A node of a parsed Markdown document, as far as links are concerned.
#[derive(Debug)]
pub enum MarkdownNode {
    /// A link `[text](url)`: where the node ends in the source, in bytes, and its target.
    Link { end: Option<usize>, url: String },
    /// An image `![text](url)`: where the node ends in the source, in bytes, and its target.
    Image { end: Option<usize>, url: String },
    /// Any other node that has children.
    Parent(Vec<MarkdownNode>),
    /// Any other node.
    Leaf,
}

/// A link or image target in a Markdown document: the bytes `start..end` of
/// the source hold `url`.
#[derive(Debug)]
pub struct DocumentLink {
    pub start: usize,
    pub end: usize,
    pub url: String,
}

/// A `DocumentLink` as contracts see it.
pub struct LinkView {
    pub start: int,
    pub end: int,
    pub url: Seq<char>,
}

impl View for DocumentLink {
    type V = LinkView;

    open spec fn view(&self) -> LinkView {
        LinkView { start: self.start as int, end: self.end as int, url: self.url@ }
    }
}

/// The views of a list of links.
pub open spec fn link_views(links: Seq<DocumentLink>) -> Seq<LinkView> {
    links.map_values(|l: DocumentLink| l@)
}

/// Where the target of a link or image stands: it ends one byte before the
/// node does, at the closing parenthesis, and starts as many bytes before that
/// as the target is long. There is no such place where the node has no
/// position or is too short.
pub open spec fn target_span(end: Option<usize>, url_len: int) -> Option<(int, int)> {
    match end {
        Some(e) => if e >= 1 + url_len {
            Some((e - 1 - url_len, e - 1))
        } else {
            None
        },
        None => None,
    }
}

/// The links of a node in document order. What stands inside a link or an
/// image is not looked at.
pub open spec fn links_of(node: MarkdownNode) -> Seq<LinkView>
    decreases node,
{
    match node {
        MarkdownNode::Link { end, url } => link_of(end, url),
        MarkdownNode::Image { end, url } => link_of(end, url),
        MarkdownNode::Parent(children) => links_of_all(children@, children@.len() as int),
        MarkdownNode::Leaf => Seq::empty(),
    }
}

/// The link of a link or image node, if its target has a place in the source.
pub open spec fn link_of(end: Option<usize>, url: String) -> Seq<LinkView> {
    match target_span(end, vstd::utf8::encode_utf8(url@).len() as int) {
        Some((start, end)) => seq![LinkView { start, end, url: url@ }],
        None => Seq::empty(),
    }
}

/// The links of the first `n` of some nodes.
pub open spec fn links_of_all(nodes: Seq<MarkdownNode>, n: int) -> Seq<LinkView>
    decreases nodes, n,
{
    if n <= 0 || n > nodes.len() {
        Seq::empty()
    } else {
        links_of_all(nodes, n - 1) + links_of(nodes[n - 1])
    }
}

/// The syntax tree of the `markdown` crate.
#[verifier::external_type_specification]
#[verifier::external_body]
pub struct ExNode(Node);

/// The tree that the `markdown` crate parses a document into, front matter
/// recognized, reduced to what links need.
pub uninterp spec fn parsed_markdown(contents: Seq<char>) -> Option<MarkdownNode>;

/// Reduces a node of the `markdown` crate's tree to a node of the library:
/// a link or an image keeps the offset at which it ends and its target, any
/// other node keeps its children.
#[verifier::external_body]
fn reduce_node(node: &Node) -> MarkdownNode {
    match node {
        Node::Link(l) => MarkdownNode::Link {
            end: l.position.as_ref().map(|p| p.end.offset),
            url: l.url.clone(),
        },
        Node::Image(i) => MarkdownNode::Image {
            end: i.position.as_ref().map(|p| p.end.offset),
            url: i.url.clone(),
        },
        other => match other.children() {
            Some(children) => MarkdownNode::Parent(children.iter().map(reduce_node).collect()),
            None => MarkdownNode::Leaf,
        },
    }
}

/// `markdown::to_mdast` with front matter switched on: the tree of the
/// document, or nothing where the crate reports an error.
#[verifier::external_body]
fn parse_markdown(contents: &str) -> (tree: Option<MarkdownNode>)
    ensures
        tree == parsed_markdown(contents@),
{
    let constructs = Constructs { frontmatter: true, ..Constructs::default() };
    let options = ParseOptions { constructs, ..ParseOptions::default() };
    match markdown::to_mdast(contents, &options) {
        Ok(root) => Some(reduce_node(&root)),
        Err(_) => None,
    }
}

/// Adds the link of a link or image node to `out`, if its target has a place.
fn push_link(end: &Option<usize>, url: &String, out: &mut Vec<DocumentLink>)
    ensures
        link_views(final(out)@) == link_views(old(out)@) + link_of(*end, *url),
{
    let ghost before = link_views(out@);
    let len = url.as_str().as_bytes().len();
    match end {
        Some(e) => {
            if len < usize::MAX && *e >= 1 + len {
                out.push(DocumentLink { start: *e - 1 - len, end: *e - 1, url: url.clone() });
                assert(link_views(out@) =~= before + link_of(*end, *url));
            } else {
                assert(link_views(out@) =~= before + link_of(*end, *url));
            }
        },
        None => {
            assert(link_views(out@) =~= before + link_of(*end, *url));
        },
    }
}

/// Collects the links of a node in document order.
pub fn collect_links(node: &MarkdownNode, out: &mut Vec<DocumentLink>)
    ensures
        link_views(final(out)@) == link_views(old(out)@) + links_of(*node),
    decreases node, 0int,
{
    let ghost before = link_views(out@);
    match node {
        MarkdownNode::Link { end, url } => push_link(end, url, out),
        MarkdownNode::Image { end, url } => push_link(end, url, out),
        MarkdownNode::Parent(children) => collect_links_of_all(children, children.len(), out),
        MarkdownNode::Leaf => {
            assert(link_views(out@) =~= before + links_of(*node));
        },
    }
}

/// Collects the links of the first `n` of some nodes in document order.
fn collect_links_of_all(nodes: &Vec<MarkdownNode>, n: usize, out: &mut Vec<DocumentLink>)
    requires
        n <= nodes.len(),
    ensures
        link_views(final(out)@) == link_views(old(out)@) + links_of_all(nodes@, n as int),
    decreases nodes, n,
{
    let ghost before = link_views(out@);
    if n == 0 {
        assert(link_views(out@) =~= before + links_of_all(nodes@, 0));
    } else {
        collect_links_of_all(nodes, n - 1, out);
        proof {
            vstd::std_specs::vec::axiom_vec_index_decreases(*nodes, n - 1);
        }
        collect_links(&nodes[n - 1], out);
        assert(link_views(out@) =~= before + links_of_all(nodes@, n as int));
    }
}

/// Finds the link and image targets of a Markdown document, in document order.
pub fn find_links(contents: &str) -> (links: Vec<DocumentLink>)
    ensures
        link_views(links@) == match parsed_markdown(contents@) {
            Some(tree) => links_of(tree),
            None => Seq::empty(),
        },
{
    let mut links: Vec<DocumentLink> = Vec::new();
    assert(link_views(links@) =~= Seq::<LinkView>::empty());
    match parse_markdown(contents) {
        Some(tree) => {
            collect_links(&tree, &mut links);
            assert(Seq::<LinkView>::empty() + links_of(tree) =~= links_of(tree));
        },
        None => {},
    }
    links
}

} // verus!
