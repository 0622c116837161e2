//! A listing page as the server sends it: its nodes, and the rows of the
//! listing among them.

use crate::text::same_text;
use select::predicate::Any;
use vstd::prelude::*;

verus! {

/// One node of a parsed page, in page order. Only what the listing rules read
/// is kept: where the node hangs, the tag of an element, and three of its
/// attributes.
#[derive(Debug, PartialEq, Eq)]
pub struct PageNode {
    /// Position of the parent node in the page; a node at the top has none.
    pub parent: Option<usize>,
    /// Tag of an element; nothing for text and comments.
    pub name: Option<String>,
    /// Value of the attribute `id`.
    pub id: Option<String>,
    /// Value of the attribute `title`.
    pub title: Option<String>,
    /// Value of the attribute `href`.
    pub href: Option<String>,
}

/// What a `PageNode` stands for.
pub struct PageNodeView {
    pub parent: Option<int>,
    pub name: Option<Seq<char>>,
    pub id: Option<Seq<char>>,
    pub title: Option<Seq<char>>,
    pub href: Option<Seq<char>>,
}

impl View for PageNode {
    type V = PageNodeView;

    open spec fn view(&self) -> PageNodeView {
        PageNodeView {
            parent: match self.parent {
                Some(p) => Some(p as int),
                None => None,
            },
            name: self.name.deep_view(),
            id: self.id.deep_view(),
            title: self.title.deep_view(),
            href: self.href.deep_view(),
        }
    }
}

impl DeepView for PageNode {
    type V = PageNodeView;

    open spec fn deep_view(&self) -> PageNodeView {
        self@
    }
}

/// The first link of a table row, with the attributes it bears.
#[derive(Debug, PartialEq, Eq)]
pub struct Anchor {
    pub title: Option<String>,
    pub href: Option<String>,
}

/// What an `Anchor` stands for.
pub struct AnchorView {
    pub title: Option<Seq<char>>,
    pub href: Option<Seq<char>>,
}

impl View for Anchor {
    type V = AnchorView;

    open spec fn view(&self) -> AnchorView {
        AnchorView { title: self.title.deep_view(), href: self.href.deep_view() }
    }
}

impl DeepView for Anchor {
    type V = AnchorView;

    open spec fn deep_view(&self) -> AnchorView {
        self@
    }
}

/// The nodes that `select` reads out of a page, in page order.
pub uninterp spec fn page_nodes(html: Seq<char>) -> Seq<PageNodeView>;

/// Parses a page with `select::document::Document::from` and copies out of
/// every node, as `Document::find` hands them out in page order, the index of
/// its parent, its tag as `Node::name` gives it, and its attributes `id`,
/// `title` and `href` as `Node::attr` gives them. Not proved: that the outcome
/// depends on the characters of `html` alone.
#[verifier::external_body]
fn parse_page(html: &str) -> (nodes: Vec<PageNode>)
    ensures
        nodes.deep_view() == page_nodes(html@),
{
    let page = select::document::Document::from(html);
    page.find(Any).map(|n| PageNode {
        parent: n.parent().map(|p| p.index()),
        name: n.name().map(String::from),
        id: n.attr("id").map(String::from),
        title: n.attr("title").map(String::from),
        href: n.attr("href").map(String::from),
    }).collect()
}

/// Node `i` lies below node `top`: `top` is its parent, or its parent's
/// parent, and so on. Parents stand before their children.
pub open spec fn lies_below(nodes: Seq<PageNodeView>, i: int, top: int) -> bool
    decreases i,
{
    &&& 0 <= i < nodes.len()
    &&& nodes[i].parent matches Some(p)
    &&& 0 <= p < i
    &&& (p == top || lies_below(nodes, p, top))
}

/// Node `i` lies below an element whose `id` is `list`.
pub open spec fn in_listing(nodes: Seq<PageNodeView>, i: int) -> bool
    decreases i,
{
    &&& 0 <= i < nodes.len()
    &&& nodes[i].parent matches Some(p)
    &&& 0 <= p < i
    &&& (nodes[p].id == Some("list"@) || in_listing(nodes, p))
}

/// Node `i` is a row of the listing: a `tr` below the element whose `id` is
/// `list`.
pub open spec fn is_row(nodes: Seq<PageNodeView>, i: int) -> bool {
    0 <= i < nodes.len() && nodes[i].name == Some("tr"@) && in_listing(nodes, i)
}

/// The first `a` among the nodes of a row, looked for from `from` on. The
/// nodes of a row follow it on the page, up to the first node that does not
/// lie below it.
pub open spec fn first_link(nodes: Seq<PageNodeView>, row: int, from: int) -> Option<int>
    decreases nodes.len() - from,
{
    if from < 0 || from >= nodes.len() || !lies_below(nodes, from, row) {
        None
    } else if nodes[from].name == Some("a"@) {
        Some(from)
    } else {
        first_link(nodes, row, from + 1)
    }
}

/// What a row shows of its first link.
pub open spec fn anchor_of(nodes: Seq<PageNodeView>, row: int) -> Option<AnchorView> {
    match first_link(nodes, row, row + 1) {
        Some(link) => Some(AnchorView { title: nodes[link].title, href: nodes[link].href }),
        None => None,
    }
}

/// For each row of the listing among the first `upto` nodes, in page order,
/// the first link in the row, if the row has one.
pub open spec fn rows_upto(nodes: Seq<PageNodeView>, upto: int) -> Seq<Option<AnchorView>>
    decreases upto,
{
    if upto <= 0 {
        Seq::empty()
    } else if is_row(nodes, upto - 1) {
        rows_upto(nodes, upto - 1).push(anchor_of(nodes, upto - 1))
    } else {
        rows_upto(nodes, upto - 1)
    }
}

/// For each row of the listing, in page order, the first link in the row, if
/// the row has one.
pub open spec fn listing_rows(nodes: Seq<PageNodeView>) -> Seq<Option<AnchorView>> {
    rows_upto(nodes, nodes.len() as int)
}

/// The rows of the listing on a page.
pub open spec fn listing_anchors(html: Seq<char>) -> Seq<Option<AnchorView>> {
    listing_rows(page_nodes(html))
}

fn holds(value: &Option<String>, text: &str) -> (r: bool)
    ensures
        r == (value.deep_view() == Some(text@)),
{
    match value {
        Some(v) => same_text(v.as_str(), text),
        None => false,
    }
}

fn node_lies_below(nodes: &Vec<PageNode>, i: usize, top: usize) -> (r: bool)
    requires
        i < nodes.len(),
    ensures
        r == lies_below(nodes.deep_view(), i as int, top as int),
{
    let ghost view = nodes.deep_view();
    let mut at: usize = i;
    loop
        invariant
            at < nodes.len(),
            view == nodes.deep_view(),
            lies_below(view, i as int, top as int) == lies_below(view, at as int, top as int),
        decreases at,
    {
        assert(view[at as int] == nodes[at as int]@);
        match nodes[at].parent {
            Some(p) => {
                if p >= at {
                    return false;
                }
                if p == top {
                    return true;
                }
                at = p;
            },
            None => {
                return false;
            },
        }
    }
}

fn node_in_listing(nodes: &Vec<PageNode>, i: usize) -> (r: bool)
    requires
        i < nodes.len(),
    ensures
        r == in_listing(nodes.deep_view(), i as int),
{
    let ghost view = nodes.deep_view();
    let mut at: usize = i;
    loop
        invariant
            at < nodes.len(),
            view == nodes.deep_view(),
            in_listing(view, i as int) == in_listing(view, at as int),
        decreases at,
    {
        assert(view[at as int] == nodes[at as int]@);
        match nodes[at].parent {
            Some(p) => {
                if p >= at {
                    return false;
                }
                assert(view[p as int] == nodes[p as int]@);
                if holds(&nodes[p].id, "list") {
                    return true;
                }
                at = p;
            },
            None => {
                return false;
            },
        }
    }
}

fn row_link(nodes: &Vec<PageNode>, row: usize) -> (link: Option<usize>)
    requires
        row < nodes.len(),
    ensures
        link matches Some(j) ==> j < nodes.len(),
        (match link {
            Some(j) => first_link(nodes.deep_view(), row as int, row + 1) == Some(j as int),
            None => first_link(nodes.deep_view(), row as int, row + 1) is None,
        }),
{
    let ghost view = nodes.deep_view();
    let mut j: usize = row + 1;
    while j < nodes.len()
        invariant
            row < j <= nodes.len(),
            view == nodes.deep_view(),
            first_link(view, row as int, row + 1) == first_link(view, row as int, j as int),
        decreases nodes.len() - j,
    {
        assert(view[j as int] == nodes[j as int]@);
        if !node_lies_below(nodes, j, row) {
            return None;
        }
        if holds(&nodes[j].name, "a") {
            return Some(j);
        }
        j = j + 1;
    }
    None
}

/// Picks the rows of the listing out of the nodes of a page: every `tr` below
/// the element whose `id` is `list`, each with its first link.
pub fn listing_rows_of(nodes: &Vec<PageNode>) -> (rows: Vec<Option<Anchor>>)
    ensures
        rows.deep_view() == listing_rows(nodes.deep_view()),
{
    let ghost view = nodes.deep_view();
    let mut rows: Vec<Option<Anchor>> = Vec::new();
    let mut i: usize = 0;
    assert(rows.deep_view() =~= rows_upto(view, 0));
    while i < nodes.len()
        invariant
            i <= nodes.len(),
            view == nodes.deep_view(),
            rows.deep_view() == rows_upto(view, i as int),
        decreases nodes.len() - i,
    {
        assert(view[i as int] == nodes[i as int]@);
        if holds(&nodes[i].name, "tr") && node_in_listing(nodes, i) {
            let ghost before = rows.deep_view();
            let row = match row_link(nodes, i) {
                Some(j) => {
                    assert(view[j as int] == nodes[j as int]@);
                    Some(Anchor { title: nodes[j].title.clone(), href: nodes[j].href.clone() })
                },
                None => None,
            };
            rows.push(row);
            assert(rows.deep_view() =~= before.push(row.deep_view()));
        }
        i = i + 1;
    }
    rows
}

/// Reads the rows of the listing out of a page.
pub fn page_rows(html: &str) -> (rows: Vec<Option<Anchor>>)
    ensures
        rows.deep_view() == listing_anchors(html@),
{
    let nodes = parse_page(html);
    listing_rows_of(&nodes)
}

} // verus!
