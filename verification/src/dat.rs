//! The manifest: a DAT file, read as XML, that names the wanted files.

use crate::constants::{catalog_for_url, catalog_of, RETOOL_POSTFIX};
use crate::text::{
    file_stem, file_stem_of, lemma_stem_is_not_empty, position_of, same_text, strip_suffix, text_of,
    without_suffix,
};
use vstd::prelude::*;

verus! {

/// One node of a parsed document, in document order. Only what the manifest
/// rules read is kept: where the node hangs, whether it is an element, its tag,
/// its `name` attribute and its text.
#[derive(Debug, PartialEq, Eq)]
pub struct Node {
    /// Position of the parent node in the document; the root node has none.
    pub parent: Option<usize>,
    /// Whether the node is an element (and not text, a comment or the root).
    pub element: bool,
    /// Local tag name; empty for anything but an element.
    pub tag: String,
    /// Value of the attribute `name`, where the node has one.
    pub name: Option<String>,
    /// For an element, its text where it starts with text.
    pub text: Option<String>,
}

/// What a `Node` stands for.
pub struct NodeView {
    pub parent: Option<int>,
    pub element: bool,
    pub tag: Seq<char>,
    pub name: Option<Seq<char>>,
    pub text: Option<Seq<char>>,
}

impl View for Node {
    type V = NodeView;

    open spec fn view(&self) -> NodeView {
        NodeView {
            parent: match self.parent {
                Some(p) => Some(p as int),
                None => None,
            },
            element: self.element,
            tag: self.tag@,
            name: self.name.deep_view(),
            text: self.text.deep_view(),
        }
    }
}

impl DeepView for Node {
    type V = NodeView;

    open spec fn deep_view(&self) -> NodeView {
        self@
    }
}

/// A parsed manifest: its nodes in document order, the root node first.
#[derive(Debug, PartialEq, Eq)]
pub struct Document {
    pub nodes: Vec<Node>,
}

impl View for Document {
    type V = Seq<NodeView>;

    open spec fn view(&self) -> Seq<NodeView> {
        self.nodes.deep_view()
    }
}

/// The manifest is not well-formed XML.
#[derive(Debug, PartialEq, Eq, Structural)]
pub struct ManifestInvalid;

#[verifier::external_type_specification]
#[verifier::external_body]
pub struct ExXmlError(roxmltree::Error);

/// The nodes that `roxmltree` reads out of `text`, in document order, or
/// nothing where it rejects the text.
pub uninterp spec fn xml_nodes(text: Seq<char>) -> Option<Seq<NodeView>>;

/// Calls `roxmltree::Document::parse_with_options`, with DTDs allowed, and
/// copies out of every node of `Document::descendants` its parent's id, whether
/// it is an element, its local tag name, its attribute `name` and its text.
/// Not proved: that the outcome depends on the characters of `text` alone.
#[verifier::external_body]
fn parse_xml(text: &str) -> (r: Result<Vec<Node>, roxmltree::Error>)
    ensures
        r is Ok <==> xml_nodes(text@) is Some,
        r matches Ok(nodes) ==> xml_nodes(text@) == Some(nodes.deep_view()),
{
    let mut options = roxmltree::ParsingOptions::default();
    options.allow_dtd = true;
    let doc = roxmltree::Document::parse_with_options(text, options)?;
    Ok(doc.descendants().map(|n| Node {
        parent: n.parent().map(|p| p.id().get_usize()),
        element: n.is_element(),
        tag: n.tag_name().name().to_string(),
        name: n.attribute("name").map(String::from),
        text: n.text().map(String::from),
    }).collect())
}

/// Reads a manifest. Fails exactly when the text is not well-formed XML.
pub fn parse(dat_str: &str) -> (r: Result<Document, ManifestInvalid>)
    ensures
        (match r {
            Ok(doc) => xml_nodes(dat_str@) == Some(doc@),
            Err(_) => xml_nodes(dat_str@) is None,
        }),
{
    match parse_xml(dat_str) {
        Ok(nodes) => Ok(Document { nodes }),
        Err(_) => Err(ManifestInvalid),
    }
}

/// Node `i` is an element that hangs directly under node `parent` and, where
/// `tag` is given, bears that tag.
pub open spec fn is_child(
    nodes: Seq<NodeView>,
    i: int,
    parent: int,
    tag: Option<Seq<char>>,
) -> bool {
    &&& 0 <= i < nodes.len()
    &&& nodes[i].element
    &&& nodes[i].parent == Some(parent)
    &&& tag matches Some(t) ==> nodes[i].tag == t
}

/// The first position from `from` on whose node is such a child, if any.
pub open spec fn first_child(
    nodes: Seq<NodeView>,
    parent: int,
    tag: Option<Seq<char>>,
    from: int,
) -> Option<int>
    decreases nodes.len() - from,
{
    if from < 0 || from >= nodes.len() {
        None
    } else if is_child(nodes, from, parent, tag) {
        Some(from)
    } else {
        first_child(nodes, parent, tag, from + 1)
    }
}

/// The document element: the first element under the root node.
pub open spec fn root_element(nodes: Seq<NodeView>) -> Option<int> {
    first_child(nodes, 0, None, 0)
}

/// Node `i` is a `rom` element in a `game` element of the document element.
pub open spec fn is_rom(nodes: Seq<NodeView>, i: int) -> bool {
    &&& 0 <= i < nodes.len()
    &&& nodes[i].parent matches Some(game)
    &&& is_child(nodes, i, game, Some("rom"@))
    &&& root_element(nodes) matches Some(root)
    &&& is_child(nodes, game, root, Some("game"@))
}

/// The `name` attributes of the `rom` nodes among the first `upto` nodes, in
/// document order. A `rom` without the attribute gives nothing.
pub open spec fn rom_names_upto(nodes: Seq<NodeView>, upto: int) -> Seq<Seq<char>>
    decreases upto,
{
    if upto <= 0 {
        Seq::empty()
    } else {
        let before = rom_names_upto(nodes, upto - 1);
        if is_rom(nodes, upto - 1) && nodes[upto - 1].name is Some {
            before.push(nodes[upto - 1].name->0)
        } else {
            before
        }
    }
}

/// The `name` attributes of all `rom` nodes, in document order.
pub open spec fn rom_names(nodes: Seq<NodeView>) -> Seq<Seq<char>> {
    rom_names_upto(nodes, nodes.len() as int)
}

/// The stems of the names that name a file, in their order.
pub open spec fn stems(names: Seq<Seq<char>>) -> Seq<Seq<char>> {
    names.filter_map(|name: Seq<char>| file_stem_of(name))
}

/// `keys` without repetitions: each key once, at the place of its first
/// occurrence.
pub open spec fn unique(keys: Seq<Seq<char>>) -> Seq<Seq<char>>
    decreases keys.len(),
{
    if keys.len() == 0 {
        Seq::empty()
    } else {
        let before = unique(keys.drop_last());
        if before.contains(keys.last()) {
            before
        } else {
            before.push(keys.last())
        }
    }
}

/// The wanted set of a manifest: the stems of its `rom` names, each once, in
/// manifest order.
pub open spec fn wanted_keys(nodes: Seq<NodeView>) -> Seq<Seq<char>> {
    unique(stems(rom_names(nodes)))
}

fn node_is_child(nodes: &Vec<Node>, i: usize, parent: usize, tag: Option<&str>) -> (r: bool)
    requires
        i < nodes.len(),
    ensures
        r == is_child(nodes.deep_view(), i as int, parent as int, text_of(tag)),
{
    let node = &nodes[i];
    assert(nodes.deep_view()[i as int] == node@);
    if !node.element {
        return false;
    }
    match node.parent {
        None => false,
        Some(p) => p == parent && match tag {
            Some(t) => same_text(node.tag.as_str(), t),
            None => true,
        },
    }
}

fn find_child(nodes: &Vec<Node>, parent: usize, tag: Option<&str>) -> (r: Option<usize>)
    ensures
        position_of(r) == first_child(nodes.deep_view(), parent as int, text_of(tag), 0),
        r matches Some(i) ==> i < nodes.len(),
{
    let ghost view = nodes.deep_view();
    let mut i: usize = 0;
    while i < nodes.len()
        invariant
            i <= nodes.len(),
            view == nodes.deep_view(),
            first_child(view, parent as int, text_of(tag), 0) == first_child(
                view,
                parent as int,
                text_of(tag),
                i as int,
            ),
        decreases nodes.len() - i,
    {
        if node_is_child(nodes, i, parent, tag) {
            return Some(i);
        }
        i = i + 1;
    }
    None
}

fn node_is_rom(nodes: &Vec<Node>, root: Option<usize>, i: usize) -> (r: bool)
    requires
        i < nodes.len(),
        position_of(root) == root_element(nodes.deep_view()),
    ensures
        r == is_rom(nodes.deep_view(), i as int),
{
    assert(nodes.deep_view()[i as int] == nodes[i as int]@);
    match (nodes[i].parent, root) {
        (Some(game), Some(root)) => {
            game < nodes.len() && node_is_child(nodes, i, game, Some("rom")) && node_is_child(
                nodes,
                game,
                root,
                Some("game"),
            )
        },
        _ => false,
    }
}

/// The `name` attributes of the `rom` nodes of a manifest, in manifest order.
pub fn rom_names_of(dat: &Document) -> (names: Vec<String>)
    ensures
        names.deep_view() == rom_names(dat@),
{
    let root = find_child(&dat.nodes, 0, None);
    let mut names: Vec<String> = Vec::new();
    let mut i: usize = 0;
    assert(names.deep_view() =~= rom_names_upto(dat@, 0));
    while i < dat.nodes.len()
        invariant
            i <= dat.nodes.len(),
            position_of(root) == root_element(dat@),
            names.deep_view() == rom_names_upto(dat@, i as int),
        decreases dat.nodes.len() - i,
    {
        let ghost before = names.deep_view();
        if node_is_rom(&dat.nodes, root, i) {
            assert(dat@[i as int] == dat.nodes[i as int]@);
            match &dat.nodes[i].name {
                Some(name) => {
                    names.push(name.clone());
                    assert(names.deep_view() =~= before.push(name@));
                },
                None => {},
            }
        }
        i = i + 1;
    }
    names
}

/// The stems of the names that name a file, in their order.
pub fn stems_of(names: &Vec<String>) -> (found: Vec<String>)
    ensures
        found.deep_view() == stems(names.deep_view()),
{
    let mut found: Vec<String> = Vec::new();
    let ghost stem = |name: Seq<char>| file_stem_of(name);
    let ghost all = names.deep_view();
    let mut i: usize = 0;
    assert(all.take(0).filter_map(stem) =~= Seq::empty());
    while i < names.len()
        invariant
            i <= names.len(),
            all == names.deep_view(),
            stem == |name: Seq<char>| file_stem_of(name),
            found.deep_view() == all.take(i as int).filter_map(stem),
        decreases names.len() - i,
    {
        let ghost before = found.deep_view();
        proof {
            all.lemma_filter_map_take_succ(stem, i as int);
            assert(all[i as int] == names[i as int]@);
        }
        match file_stem(names[i].as_str()) {
            Some(key) => {
                found.push(key);
                assert(found.deep_view() =~= before + seq![key@]);
            },
            None => {
                assert(before + Seq::<Seq<char>>::empty() =~= before);
            },
        }
        i = i + 1;
    }
    assert(all.take(names.len() as int) =~= all);
    found
}

/// Drops the repetitions from `keys`: each key stays once, at the place of its
/// first occurrence.
pub fn unique_keys(keys: &Vec<String>) -> (kept: Vec<String>)
    ensures
        kept.deep_view() == unique(keys.deep_view()),
{
    let mut kept: Vec<String> = Vec::new();
    let ghost all = keys.deep_view();
    let mut i: usize = 0;
    assert(all.take(0) =~= Seq::empty());
    assert(kept.deep_view() =~= unique(all.take(0)));
    while i < keys.len()
        invariant
            i <= keys.len(),
            all == keys.deep_view(),
            kept.deep_view() == unique(all.take(i as int)),
        decreases keys.len() - i,
    {
        let ghost before = kept.deep_view();
        proof {
            assert(all.take(i + 1).drop_last() =~= all.take(i as int));
            assert(all.take(i + 1).last() == keys[i as int]@);
        }
        if !holds_key(&kept, &keys[i]) {
            let key = keys[i].clone();
            kept.push(key);
            assert(kept.deep_view() =~= before.push(key@));
        }
        i = i + 1;
    }
    assert(all.take(keys.len() as int) =~= all);
    kept
}

/// Tells whether `key` is among `keys`.
pub fn holds_key(keys: &Vec<String>, key: &String) -> (r: bool)
    ensures
        r == keys.deep_view().contains(key@),
{
    let mut i: usize = 0;
    while i < keys.len()
        invariant
            i <= keys.len(),
            forall|k: int| 0 <= k < i ==> keys.deep_view()[k] != key@,
        decreases keys.len() - i,
    {
        if keys[i] == *key {
            assert(keys.deep_view()[i as int] == key@);
            return true;
        }
        i = i + 1;
    }
    false
}

/// The wanted set of a manifest: the stem of the `name` of every `rom` in a
/// `game` of the document element, each stem once, in manifest order. A `rom`
/// without `name`, or whose name names no file, is passed over.
pub fn get_wanted_roms(dat: &Document) -> (wanted: Vec<String>)
    ensures
        wanted.deep_view() == wanted_keys(dat@),
{
    unique_keys(&stems_of(&rom_names_of(dat)))
}

/// The header of a manifest: the first `header` element of the document
/// element.
pub open spec fn header(nodes: Seq<NodeView>) -> Option<int> {
    match root_element(nodes) {
        Some(root) => first_child(nodes, root, Some("header"@), 0),
        None => None,
    }
}

/// The system that the first `upto` nodes name for header `h`: the text of its
/// last `name` element that has text, without the postfix of curated
/// manifests; empty where there is no such element.
pub open spec fn system_upto(nodes: Seq<NodeView>, h: int, upto: int) -> Seq<char>
    decreases upto,
{
    if upto <= 0 {
        Seq::empty()
    } else if is_child(nodes, upto - 1, h, Some("name"@)) && nodes[upto - 1].text is Some {
        without_suffix(nodes[upto - 1].text->0, RETOOL_POSTFIX@)
    } else {
        system_upto(nodes, h, upto - 1)
    }
}

/// The catalog that the first `upto` nodes name for header `h`: that of its
/// last `url` element whose text is the address of a known catalog.
pub open spec fn catalog_upto(nodes: Seq<NodeView>, h: int, upto: int) -> Option<Seq<char>>
    decreases upto,
{
    if upto <= 0 {
        None
    } else if is_child(nodes, upto - 1, h, Some("url"@)) && nodes[upto - 1].text is Some
        && catalog_of(nodes[upto - 1].text->0) is Some {
        catalog_of(nodes[upto - 1].text->0)
    } else {
        catalog_upto(nodes, h, upto - 1)
    }
}

/// System and catalog of a manifest. Both are missing where the manifest has
/// no header; with a header the system is always given, if only as empty.
pub open spec fn header_data(nodes: Seq<NodeView>) -> (Option<Seq<char>>, Option<Seq<char>>) {
    match header(nodes) {
        Some(h) => (
            Some(system_upto(nodes, h, nodes.len() as int)),
            catalog_upto(nodes, h, nodes.len() as int),
        ),
        None => (None, None),
    }
}

fn system_of(nodes: &Vec<Node>, h: usize) -> (system: String)
    ensures
        system@ == system_upto(nodes.deep_view(), h as int, nodes.len() as int),
{
    let mut i: usize = nodes.len();
    while i > 0
        invariant
            i <= nodes.len(),
            system_upto(nodes.deep_view(), h as int, nodes.len() as int) == system_upto(
                nodes.deep_view(),
                h as int,
                i as int,
            ),
        decreases i,
    {
        assert(nodes.deep_view()[i - 1] == nodes[i - 1]@);
        if node_is_child(nodes, i - 1, h, Some("name")) {
            match &nodes[i - 1].text {
                Some(text) => {
                    return strip_suffix(text.as_str(), RETOOL_POSTFIX);
                },
                None => {},
            }
        }
        i = i - 1;
    }
    String::new()
}

fn catalog_named(nodes: &Vec<Node>, h: usize) -> (catalog: Option<String>)
    ensures
        catalog.deep_view() == catalog_upto(nodes.deep_view(), h as int, nodes.len() as int),
{
    let mut i: usize = nodes.len();
    while i > 0
        invariant
            i <= nodes.len(),
            catalog_upto(nodes.deep_view(), h as int, nodes.len() as int) == catalog_upto(
                nodes.deep_view(),
                h as int,
                i as int,
            ),
        decreases i,
    {
        assert(nodes.deep_view()[i - 1] == nodes[i - 1]@);
        if node_is_child(nodes, i - 1, h, Some("url")) {
            match &nodes[i - 1].text {
                Some(text) => {
                    let found = catalog_for_url(text.as_str());
                    if found.is_some() {
                        return found;
                    }
                },
                None => {},
            }
        }
        i = i - 1;
    }
    None
}

/// Reads system and catalog out of the header of a manifest: the system's
/// name without the postfix of curated manifests, and the catalog whose
/// address the header gives. A manifest without header gives neither.
pub fn get_header_data(dat: &Document) -> (data: (Option<String>, Option<String>))
    ensures
        (data.0.deep_view(), data.1.deep_view()) == header_data(dat@),
{
    let found = match find_child(&dat.nodes, 0, None) {
        Some(root) => find_child(&dat.nodes, root, Some("header")),
        None => None,
    };
    match found {
        Some(h) => (Some(system_of(&dat.nodes, h)), catalog_named(&dat.nodes, h)),
        None => (None, None),
    }
}

/// The stems of the `rom` names of a manifest, as a set.
pub open spec fn distinct_stems(nodes: Seq<NodeView>) -> Set<Seq<char>> {
    Set::new(
        |key: Seq<char>|
            exists|i: int|
                is_rom(nodes, i) && nodes[i].name is Some && file_stem_of(nodes[i].name->0)
                    == Some(key),
    )
}

proof fn lemma_unique(keys: Seq<Seq<char>>)
    ensures
        unique(keys).no_duplicates(),
        forall|key: Seq<char>|
            #![trigger unique(keys).contains(key)]
            #![trigger keys.contains(key)]
            unique(keys).contains(key) <==> keys.contains(key),
    decreases keys.len(),
{
    if keys.len() > 0 {
        let front = keys.drop_last();
        let before = unique(front);
        lemma_unique(front);
        let after = unique(keys);
        assert forall|key: Seq<char>| after.contains(key) implies keys.contains(key) by {
            if before.contains(key) {
                let j = choose|j: int| 0 <= j < front.len() && front[j] == key;
                assert(keys[j] == key);
            } else {
                let k = choose|k: int| 0 <= k < after.len() && after[k] == key;
                assert(k == before.len());
                assert(keys[keys.len() - 1] == key);
            }
        }
        assert forall|key: Seq<char>| keys.contains(key) implies after.contains(key) by {
            let j = choose|j: int| 0 <= j < keys.len() && keys[j] == key;
            if j < front.len() {
                assert(front[j] == key);
                assert(front.contains(key));
                let k = choose|k: int| 0 <= k < before.len() && before[k] == key;
                assert(after[k] == key);
            } else if before.contains(key) {
                let k = choose|k: int| 0 <= k < before.len() && before[k] == key;
                assert(after[k] == key);
            } else {
                assert(after[before.len() as int] == key);
            }
        }
    }
}

proof fn lemma_stems(names: Seq<Seq<char>>)
    ensures
        forall|key: Seq<char>|
            stems(names).contains(key) <==> exists|j: int|
                0 <= j < names.len() && file_stem_of(names[j]) == Some(key),
    decreases names.len(),
{
    if names.len() > 0 {
        let front = names.drop_last();
        lemma_stems(front);
        let before = stems(front);
        let after = stems(names);
        assert(after == match file_stem_of(names.last()) {
            Some(key) => before + seq![key],
            None => before,
        });
        assert forall|key: Seq<char>| after.contains(key) implies exists|j: int|
            0 <= j < names.len() && file_stem_of(names[j]) == Some(key) by {
            if before.contains(key) {
                let j = choose|j: int| 0 <= j < front.len() && file_stem_of(front[j]) == Some(key);
                assert(names[j] == front[j]);
            } else {
                let k = choose|k: int| 0 <= k < after.len() && after[k] == key;
                assert(k == before.len());
                assert(file_stem_of(names[names.len() - 1]) == Some(key));
            }
        }
        assert forall|key: Seq<char>|
            (exists|j: int| 0 <= j < names.len() && file_stem_of(names[j]) == Some(key))
                implies after.contains(key) by {
            let j = choose|j: int| 0 <= j < names.len() && file_stem_of(names[j]) == Some(key);
            if j < front.len() {
                assert(file_stem_of(front[j]) == Some(key));
                assert(before.contains(key));
                let k = choose|k: int| 0 <= k < before.len() && before[k] == key;
                assert(after[k] == key);
            } else {
                assert(after[before.len() as int] == key);
            }
        }
    }
}

proof fn lemma_rom_names(nodes: Seq<NodeView>, upto: int)
    requires
        upto <= nodes.len(),
    ensures
        forall|name: Seq<char>|
            rom_names_upto(nodes, upto).contains(name) <==> exists|i: int|
                0 <= i < upto && is_rom(nodes, i) && nodes[i].name == Some(name),
    decreases upto,
{
    if upto > 0 {
        let before = rom_names_upto(nodes, upto - 1);
        let after = rom_names_upto(nodes, upto);
        lemma_rom_names(nodes, upto - 1);
        assert forall|name: Seq<char>| after.contains(name) implies exists|i: int|
            0 <= i < upto && is_rom(nodes, i) && nodes[i].name == Some(name) by {
            if before.contains(name) {
                let i = choose|i: int|
                    0 <= i < upto - 1 && is_rom(nodes, i) && nodes[i].name == Some(name);
                assert(0 <= i < upto);
            } else {
                let k = choose|k: int| 0 <= k < after.len() && after[k] == name;
                assert(k == before.len());
                assert(is_rom(nodes, upto - 1) && nodes[upto - 1].name == Some(name));
            }
        }
        assert forall|name: Seq<char>|
            (exists|i: int| 0 <= i < upto && is_rom(nodes, i) && nodes[i].name == Some(name))
                implies after.contains(name) by {
            let i = choose|i: int| 0 <= i < upto && is_rom(nodes, i) && nodes[i].name == Some(name);
            if i < upto - 1 {
                assert(before.contains(name));
                let k = choose|k: int| 0 <= k < before.len() && before[k] == name;
                assert(after[k] == name);
            } else {
                assert(after[before.len() as int] == name);
            }
        }
    }
}

/// The wanted set holds each stem of the manifest once: it has as many
/// entries as the `rom` names have distinct stems, and none of them is empty.
pub proof fn lemma_wanted_counts_distinct_stems(nodes: Seq<NodeView>)
    ensures
        wanted_keys(nodes).no_duplicates(),
        wanted_keys(nodes).to_set() == distinct_stems(nodes),
        distinct_stems(nodes).finite(),
        wanted_keys(nodes).len() == distinct_stems(nodes).len(),
        forall|i: int| 0 <= i < wanted_keys(nodes).len() ==> wanted_keys(nodes)[i].len() > 0,
{
    let names = rom_names(nodes);
    let found = stems(names);
    lemma_unique(found);
    lemma_stems(names);
    lemma_rom_names(nodes, nodes.len() as int);
    let wanted = wanted_keys(nodes);
    assert forall|key: Seq<char>| wanted.to_set().contains(key) <==> distinct_stems(
        nodes,
    ).contains(key) by {
        if wanted.contains(key) {
            assert(found.contains(key));
            let j = choose|j: int| 0 <= j < names.len() && file_stem_of(names[j]) == Some(key);
            assert(names.contains(names[j]));
            let i = choose|i: int|
                0 <= i < nodes.len() && is_rom(nodes, i) && nodes[i].name == Some(names[j]);
            assert(is_rom(nodes, i) && nodes[i].name is Some && file_stem_of(nodes[i].name->0)
                == Some(key));
        }
        if distinct_stems(nodes).contains(key) {
            let i = choose|i: int|
                is_rom(nodes, i) && nodes[i].name is Some && file_stem_of(nodes[i].name->0)
                    == Some(key);
            let name = nodes[i].name->0;
            assert(names.contains(name));
            let j = choose|j: int| 0 <= j < names.len() && names[j] == name;
            assert(found.contains(key));
        }
    }
    assert(wanted.to_set() =~= distinct_stems(nodes));
    wanted.unique_seq_to_set();
    assert forall|i: int| 0 <= i < wanted.len() implies wanted[i].len() > 0 by {
        assert(wanted.contains(wanted[i]));
        let j = choose|j: int| 0 <= j < names.len() && file_stem_of(names[j]) == Some(wanted[i]);
        lemma_stem_is_not_empty(names[j]);
    }
}

} // verus!
