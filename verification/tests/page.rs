use myrient_bulk::page::{listing_rows_of, page_rows, Anchor, PageNode};
use select::document::Document;
use select::predicate::{Attr, Name, Predicate};

const PAGES: [&str; 12] = [
    "",
    "plain text",
    "<table id=\"list\"></table>",
    "<table id=\"list\"><tr><td><a href=\"a/\" title=\"A\">A</a></td></tr></table>",
    "<table id=\"list\"><thead><tr><th><a href=\"?C=N\">Name</a></th></tr></thead>\
     <tbody><tr><td>none</td></tr><tr><td><span><a title=\"deep\" href=\"d/\">d</a></span>\
     <a title=\"second\" href=\"s/\">s</a></td></tr></tbody></table>",
    "<div id=\"list\"><table><tr><td><a href=\"x\" title=\"X\">x</a></td></tr></table></div>\
     <table><tr><td><a href=\"y\" title=\"Y\">y</a></td></tr></table>",
    "<table id=\"list\"><tr><td><table><tr><td><a href=\"in\" title=\"In\">in</a></td></tr></table></td>\
     <td><a href=\"out\" title=\"Out\">out</a></td></tr><tr><td>last</td></tr></table>",
    "<table id=\"list\"><tr><td><a href=\"1\">no title</a></td></tr>\
     <tr><td><a title=\"no href\">2</a></td></tr><tr><td><a>bare</a></td></tr></table>",
    "<table id=\"list\"><tr><td>row</td></tr></table><a href=\"after\" title=\"After\">after</a>",
    "<table id=\"LIST\"><tr><td><a href=\"a\" title=\"A\">a</a></td></tr></table>",
    "<ul id=\"list\"><li><a href=\"a\" title=\"A\">a</a></li></ul>",
    "<table id=\"list\"><tr><td><a href=\"a\" title=\"A\">a</a><tr><td><a href=\"b\" title=\"B\">b\
     </table><table id=\"list\"><tr><td><a href=\"c\" title=\"C\">c</a></td></tr></table>",
];

fn anchor(title: Option<&str>, href: Option<&str>) -> Anchor {
    Anchor { title: title.map(String::from), href: href.map(String::from) }
}

fn node(parent: Option<usize>, name: Option<&str>, id: Option<&str>) -> PageNode {
    PageNode {
        parent,
        name: name.map(String::from),
        id: id.map(String::from),
        title: None,
        href: None,
    }
}

fn link(parent: usize, title: &str, href: &str) -> PageNode {
    PageNode {
        parent: Some(parent),
        name: Some("a".to_string()),
        id: None,
        title: Some(title.to_string()),
        href: Some(href.to_string()),
    }
}

fn rows_by_select(html: &str) -> Vec<Option<Anchor>> {
    Document::from(html)
        .find(Attr("id", "list").descendant(Name("tr")))
        .map(|row| {
            row.find(Name("a")).next().map(|a| Anchor {
                title: a.attr("title").map(String::from),
                href: a.attr("href").map(String::from),
            })
        })
        .collect()
}

#[test]
fn rows_agree_with_the_selectors_of_select() {
    for page in PAGES {
        assert_eq!(page_rows(page), rows_by_select(page), "rows of {:?}", page);
    }
}

#[test]
fn rows_of_a_small_page() {
    assert_eq!(
        page_rows(PAGES[4]),
        vec![Some(anchor(None, Some("?C=N"))), None, Some(anchor(Some("deep"), Some("d/")))]
    );
}

#[test]
fn rows_outside_the_list_do_not_count() {
    assert_eq!(page_rows(PAGES[5]), vec![Some(anchor(Some("X"), Some("x")))]);
    assert_eq!(page_rows(PAGES[9]), vec![]);
    assert_eq!(page_rows(PAGES[10]), vec![]);
}

#[test]
fn a_row_takes_the_first_link_below_it() {
    assert_eq!(
        page_rows(PAGES[6]),
        vec![
            Some(anchor(Some("In"), Some("in"))),
            Some(anchor(Some("In"), Some("in"))),
            None
        ]
    );
}

#[test]
fn a_link_after_the_row_is_not_its_own() {
    assert_eq!(page_rows(PAGES[8]), vec![None]);
}

#[test]
fn rows_of_nodes_written_by_hand() {
    let nodes = vec![
        node(None, Some("html"), None),
        node(Some(0), Some("table"), Some("list")),
        node(Some(1), Some("tr"), None),
        node(Some(2), Some("td"), None),
        link(3, "First", "first/"),
        link(3, "Second", "second/"),
        node(Some(1), Some("tr"), None),
        node(Some(6), Some("td"), None),
        node(Some(7), None, None),
        node(Some(0), Some("tr"), None),
        link(9, "Outside", "outside/"),
    ];
    assert_eq!(
        listing_rows_of(&nodes),
        vec![Some(anchor(Some("First"), Some("first/"))), None]
    );
}

#[test]
fn rows_need_parents_that_stand_before_them() {
    let nodes = vec![
        node(Some(1), Some("tr"), None),
        node(None, Some("table"), Some("list")),
        node(Some(2), Some("tr"), None),
        node(Some(7), Some("tr"), None),
    ];
    assert_eq!(listing_rows_of(&nodes), vec![]);
    assert_eq!(listing_rows_of(&vec![]), vec![]);
}
