//! Directory listings of the file server: what a listing page offers, and the
//! requests that bring one.

use crate::constants::{ACCEPT, MYRIENT_HTTP_ADDR, USER_AGENT};
use crate::inventory::{index_of, RomIndex};
use crate::page::{listing_anchors, page_rows, Anchor, AnchorView};
use crate::text::{contains, contains_text, file_stem, file_stem_of};
use vstd::prelude::*;

verus! {

/// A titled link, as specifications see it.
pub struct LinkView {
    pub title: Seq<char>,
    pub url: Seq<char>,
}

/// One row of a listing: a label, often the file's name, and the relative
/// link to follow.
#[derive(Debug, PartialEq, Eq)]
pub struct DirectoryEntry {
    pub title: String,
    pub href: String,
}

impl View for DirectoryEntry {
    type V = LinkView;

    open spec fn view(&self) -> LinkView {
        LinkView { title: self.title@, url: self.href@ }
    }
}

impl DeepView for DirectoryEntry {
    type V = LinkView;

    open spec fn deep_view(&self) -> LinkView {
        self@
    }
}

/// A catalog: one entry of the server's root listing.
#[derive(Debug, PartialEq, Eq)]
pub struct Catalog {
    pub title: String,
    pub url: String,
}

impl View for Catalog {
    type V = LinkView;

    open spec fn view(&self) -> LinkView {
        LinkView { title: self.title@, url: self.url@ }
    }
}

impl DeepView for Catalog {
    type V = LinkView;

    open spec fn deep_view(&self) -> LinkView {
        self@
    }
}

/// A collection: one entry of a catalog's listing, a group of files.
#[derive(Debug, PartialEq, Eq)]
pub struct Collection {
    pub title: String,
    pub url: String,
}

impl View for Collection {
    type V = LinkView;

    open spec fn view(&self) -> LinkView {
        LinkView { title: self.title@, url: self.url@ }
    }
}

impl DeepView for Collection {
    type V = LinkView;

    open spec fn deep_view(&self) -> LinkView {
        self@
    }
}

impl Clone for Collection {
    fn clone(&self) -> (copy: Self)
        ensures
            copy == *self,
    {
        Collection { title: self.title.clone(), url: self.url.clone() }
    }
}

/// A file that a collection offers.
#[derive(Debug, PartialEq, Eq)]
pub struct Rom {
    /// Identity key: the stem of `file`.
    pub name: String,
    /// Name of the file as the listing shows it.
    pub file: String,
    /// Relative link to the file.
    pub url: String,
}

/// What a `Rom` stands for.
pub struct RomView {
    pub name: Seq<char>,
    pub file: Seq<char>,
    pub url: Seq<char>,
}

impl View for Rom {
    type V = RomView;

    open spec fn view(&self) -> RomView {
        RomView { name: self.name@, file: self.file@, url: self.url@ }
    }
}

impl DeepView for Rom {
    type V = RomView;

    open spec fn deep_view(&self) -> RomView {
        self@
    }
}

impl Clone for Rom {
    fn clone(&self) -> (copy: Self)
        ensures
            copy == *self,
    {
        Rom { name: self.name.clone(), file: self.file.clone(), url: self.url.clone() }
    }
}

/// The entry that a row gives: its first link, where that bears both a title
/// and an address.
pub open spec fn entry_of(row: Option<AnchorView>) -> Option<LinkView> {
    match row {
        Some(anchor) => match (anchor.title, anchor.href) {
            (Some(title), Some(href)) => Some(LinkView { title, url: href }),
            _ => None,
        },
        None => None,
    }
}

/// The entries of a listing, in page order. Rows without a usable link (a
/// header, a link without title) give none.
pub open spec fn entries_of(rows: Seq<Option<AnchorView>>) -> Seq<LinkView> {
    rows.filter_map(|row: Option<AnchorView>| entry_of(row))
}

/// Picks the usable entries out of the rows of a listing.
pub fn listing_entries(rows: &Vec<Option<Anchor>>) -> (entries: Vec<DirectoryEntry>)
    ensures
        entries.deep_view() == entries_of(rows.deep_view()),
{
    let mut entries: Vec<DirectoryEntry> = Vec::new();
    let ghost pick = |row: Option<AnchorView>| entry_of(row);
    let mut i: usize = 0;
    assert(entries.deep_view() =~= rows.deep_view().take(0).filter_map(pick));
    while i < rows.len()
        invariant
            i <= rows.len(),
            pick == |row: Option<AnchorView>| entry_of(row),
            entries.deep_view() == rows.deep_view().take(i as int).filter_map(pick),
        decreases rows.len() - i,
    {
        let ghost before = entries.deep_view();
        proof {
            rows.deep_view().lemma_filter_map_take_succ(pick, i as int);
            assert(rows.deep_view()[i as int] == rows[i as int].deep_view());
        }
        match &rows[i] {
            Some(anchor) => match (&anchor.title, &anchor.href) {
                (Some(title), Some(href)) => {
                    let entry = DirectoryEntry { title: title.clone(), href: href.clone() };
                    entries.push(entry);
                    assert(entries.deep_view() =~= before + seq![entry@]);
                },
                _ => {},
            },
            None => {},
        }
        i = i + 1;
    }
    assert(rows.deep_view().take(rows.len() as int) =~= rows.deep_view());
    entries
}

/// Reads the entries out of a listing page.
pub fn parse_listing(html: &str) -> (entries: Vec<DirectoryEntry>)
    ensures
        entries.deep_view() == entries_of(listing_anchors(html@)),
{
    let rows = page_rows(html);
    listing_entries(&rows)
}

/// The entries whose title holds `name`, in page order.
pub open spec fn titled(entries: Seq<LinkView>, name: Seq<char>) -> Seq<LinkView> {
    entries.filter(|entry: LinkView| contains_text(entry.title, name))
}

/// The address of the first of `entries`, if there is one.
pub open spec fn first_url(entries: Seq<LinkView>) -> Option<Seq<char>> {
    if entries.len() > 0 {
        Some(entries[0].url)
    } else {
        None
    }
}

/// The address of the first entry whose title holds `name`. An empty `name`
/// is held by every title.
pub fn find_titled(entries: &Vec<DirectoryEntry>, name: &str) -> (url: Option<String>)
    ensures
        url.deep_view() == first_url(titled(entries.deep_view(), name@)),
{
    let ghost held = |entry: LinkView| contains_text(entry.title, name@);
    let ghost all = entries.deep_view();
    let mut i: usize = 0;
    while i < entries.len()
        invariant
            i <= entries.len(),
            all == entries.deep_view(),
            held == |entry: LinkView| contains_text(entry.title, name@),
            forall|k: int| 0 <= k < i ==> !held(all[k]),
        decreases entries.len() - i,
    {
        assert(all[i as int] == entries[i as int]@);
        if contains(entries[i].title.as_str(), name) {
            proof {
                let front = all.take(i as int);
                let back = all.skip(i as int);
                let rest = back.drop_first();
                assert(back =~= seq![all[i as int]] + rest);
                assert(all =~= front + back);
                front.lemma_all_neg_filter_empty(held);
                Seq::filter_distributes_over_add(front, back, held);
                rest.lemma_filter_prepend(all[i as int], held);
                assert(all.filter(held)[0] == all[i as int]);
            }
            return Some(entries[i].href.clone());
        }
        i = i + 1;
    }
    proof {
        all.lemma_all_neg_filter_empty(held);
    }
    None
}

/// Finds a catalog by name in the server's root listing: the address of the
/// first entry whose title holds `catalog_name`.
pub fn get_catalog_url_by_name(html: &String, catalog_name: &str) -> (url: Option<String>)
    ensures
        url.deep_view() == first_url(titled(entries_of(listing_anchors(html@)), catalog_name@)),
{
    let entries = parse_listing(html.as_str());
    find_titled(&entries, catalog_name)
}

/// The catalogs that the server's root listing offers, in page order.
pub fn get_catalogs(html: &String) -> (catalogs: Vec<Catalog>)
    ensures
        catalogs.deep_view() == entries_of(listing_anchors(html@)),
{
    let entries = parse_listing(html.as_str());
    let mut catalogs: Vec<Catalog> = Vec::new();
    let mut i: usize = 0;
    while i < entries.len()
        invariant
            i <= entries.len(),
            catalogs.deep_view() == entries.deep_view().take(i as int),
        decreases entries.len() - i,
    {
        let ghost before = catalogs.deep_view();
        let catalog = Catalog { title: entries[i].title.clone(), url: entries[i].href.clone() };
        assert(catalog@ == entries.deep_view()[i as int]);
        catalogs.push(catalog);
        assert(catalogs.deep_view() =~= before.push(catalog@));
        assert(catalogs.deep_view() =~= entries.deep_view().take(i + 1));
        i = i + 1;
    }
    assert(entries.deep_view().take(entries.len() as int) =~= entries.deep_view());
    catalogs
}

/// The collections that a catalog's listing offers, in page order.
pub fn get_collections(html: &String) -> (collections: Vec<Collection>)
    ensures
        collections.deep_view() == entries_of(listing_anchors(html@)),
{
    let entries = parse_listing(html.as_str());
    let mut collections: Vec<Collection> = Vec::new();
    let mut i: usize = 0;
    while i < entries.len()
        invariant
            i <= entries.len(),
            collections.deep_view() == entries.deep_view().take(i as int),
        decreases entries.len() - i,
    {
        let ghost before = collections.deep_view();
        let collection = Collection {
            title: entries[i].title.clone(),
            url: entries[i].href.clone(),
        };
        assert(collection@ == entries.deep_view()[i as int]);
        collections.push(collection);
        assert(collections.deep_view() =~= before.push(collection@));
        assert(collections.deep_view() =~= entries.deep_view().take(i + 1));
        i = i + 1;
    }
    assert(entries.deep_view().take(entries.len() as int) =~= entries.deep_view());
    collections
}

/// The file that an entry offers: the title is its file name, and the stem of
/// the title its identity key. An entry whose title names no file offers none.
pub open spec fn rom_of(entry: LinkView) -> Option<RomView> {
    match file_stem_of(entry.title) {
        Some(key) => Some(RomView { name: key, file: entry.title, url: entry.url }),
        None => None,
    }
}

/// The files that the entries of a listing offer, in page order.
pub open spec fn roms_of(entries: Seq<LinkView>) -> Seq<RomView> {
    entries.filter_map(|entry: LinkView| rom_of(entry))
}

/// Makes the file that an entry offers.
pub fn rom_from_entry(entry: &DirectoryEntry) -> (rom: Option<Rom>)
    ensures
        rom.deep_view() == rom_of(entry@),
{
    match file_stem(entry.title.as_str()) {
        Some(name) => Some(Rom { name, file: entry.title.clone(), url: entry.href.clone() }),
        None => None,
    }
}

/// The inventory of a collection: every file that its listing offers, under
/// the stem of its name. Of two files with the same stem the later one stays.
pub fn get_roms_for_collection(html: &String) -> (roms: RomIndex)
    ensures
        roms@ == index_of(roms_of(entries_of(listing_anchors(html@)))),
{
    let entries = parse_listing(html.as_str());
    let mut roms = RomIndex::new();
    let ghost offer = |entry: LinkView| rom_of(entry);
    let ghost all = entries.deep_view();
    let mut i: usize = 0;
    assert(all.take(0).filter_map(offer) =~= Seq::empty());
    while i < entries.len()
        invariant
            i <= entries.len(),
            all == entries.deep_view(),
            offer == |entry: LinkView| rom_of(entry),
            roms@ == index_of(all.take(i as int).filter_map(offer)),
        decreases entries.len() - i,
    {
        proof {
            all.lemma_filter_map_take_succ(offer, i as int);
            assert(all[i as int] == entries[i as int]@);
        }
        let ghost before = all.take(i as int).filter_map(offer);
        match rom_from_entry(&entries[i]) {
            Some(rom) => {
                assert((before + seq![rom@]).drop_last() =~= before);
                roms.insert(rom);
            },
            None => {
                assert(before + Seq::<RomView>::empty() =~= before);
            },
        }
        i = i + 1;
    }
    assert(all.take(entries.len() as int) =~= all);
    roms
}

/// How a request asks: for the content, or for its description alone.
#[derive(Debug, Clone, Copy, PartialEq, Eq, Structural)]
pub enum Method {
    Get,
    Head,
}

/// One header line of a request.
#[derive(Debug, PartialEq, Eq)]
pub struct Header {
    pub name: String,
    pub value: String,
}

impl View for Header {
    type V = (Seq<char>, Seq<char>);

    open spec fn view(&self) -> (Seq<char>, Seq<char>) {
        (self.name@, self.value@)
    }
}

impl DeepView for Header {
    type V = (Seq<char>, Seq<char>);

    open spec fn deep_view(&self) -> (Seq<char>, Seq<char>) {
        self@
    }
}

/// A request to the file server, for the caller to send.
#[derive(Debug, PartialEq, Eq)]
pub struct Request {
    pub method: Method,
    pub url: String,
    pub headers: Vec<Header>,
}

/// What a `Request` stands for.
pub struct RequestView {
    pub method: Method,
    pub url: Seq<char>,
    pub headers: Seq<(Seq<char>, Seq<char>)>,
}

impl View for Request {
    type V = RequestView;

    open spec fn view(&self) -> RequestView {
        RequestView { method: self.method, url: self.url@, headers: self.headers.deep_view() }
    }
}

/// The headers that every request bears.
pub open spec fn browser_headers() -> Seq<(Seq<char>, Seq<char>)> {
    seq![("User-Agent"@, USER_AGENT@), ("Accept"@, ACCEPT@)]
}

/// The request for what lies under `path` on the server.
pub open spec fn request_for(method: Method, path: Seq<char>) -> RequestView {
    RequestView { method, url: MYRIENT_HTTP_ADDR@ + path, headers: browser_headers() }
}

/// The address of what lies under `path` on the server.
pub fn address(path: &str) -> (url: String)
    ensures
        url@ == MYRIENT_HTTP_ADDR@ + path@,
{
    String::from_str(MYRIENT_HTTP_ADDR).concat(path)
}

/// Makes a request to `url` that bears the headers of a browser and no others.
pub fn request(method: Method, url: String) -> (req: Request)
    ensures
        req@ == (RequestView { method, url: url@, headers: browser_headers() }),
{
    let mut headers: Vec<Header> = Vec::new();
    headers.push(
        Header { name: String::from_str("User-Agent"), value: String::from_str(USER_AGENT) },
    );
    headers.push(Header { name: String::from_str("Accept"), value: String::from_str(ACCEPT) });
    assert(headers.deep_view() =~= browser_headers());
    Request { method, url, headers }
}

/// The request that brings the listing page under `path`: a GET to the
/// server's root followed by `path`, with the headers of a browser.
pub fn fetch(path: &String) -> (req: Request)
    ensures
        req@ == request_for(Method::Get, path@),
{
    request(Method::Get, address(path.as_str()))
}

/// Why no listing came back.
#[derive(Debug, PartialEq, Eq)]
pub enum FetchFailed {
    /// The request did not get through; the text says why.
    Transport(String),
    /// The server answered with a status outside 200 to 299.
    Status(u16),
}

/// The page that an answer brings: its body, where the status is one of
/// success (200 to 299).
pub fn listing_from_response(status: u16, body: String) -> (page: Result<String, FetchFailed>)
    ensures
        (page == if 200 <= status <= 299 {
            Ok::<String, FetchFailed>(body)
        } else {
            Err::<String, FetchFailed>(FetchFailed::Status(status))
        }),
{
    if 200 <= status && status <= 299 {
        Ok(body)
    } else {
        Err(FetchFailed::Status(status))
    }
}

} // verus!
