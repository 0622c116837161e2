//! Resolving a manifest to a place on the server: first the catalog that
//! published it, then the collection of its system. Each is found by name
//! where the name singles it out, and else chosen from a numbered list.

use crate::myrient::{
    entries_of, first_url, get_catalog_url_by_name, get_catalogs, get_collections, titled, Catalog,
    Collection, LinkView,
};
use crate::page::listing_anchors;
use crate::text::{contains, contains_text, numeral_value, parse_decimal, trim, trimmed};
use vstd::prelude::*;

verus! {

/// How a stage of the resolution ended.
#[derive(Debug, PartialEq, Eq)]
pub enum Resolution<T> {
    /// The name singled out one entry; this is its address.
    Automatic(String),
    /// One of these entries is to be chosen. They are shown numbered from one,
    /// in this order. `narrowed` tells that they are only those entries of the
    /// listing that the name brought up.
    Interactive { options: Vec<T>, narrowed: bool },
}

/// What a `Resolution` stands for.
pub enum ResolutionView {
    Automatic(Seq<char>),
    Interactive { options: Seq<LinkView>, narrowed: bool },
}

impl<T: DeepView<V = LinkView>> View for Resolution<T> {
    type V = ResolutionView;

    open spec fn view(&self) -> ResolutionView {
        match self {
            Resolution::Automatic(url) => ResolutionView::Automatic(url@),
            Resolution::Interactive { options, narrowed } => ResolutionView::Interactive {
                options: options.deep_view(),
                narrowed: *narrowed,
            },
        }
    }
}

/// The catalog stage. The catalog is the first entry of the root listing whose
/// title holds the manifest's catalog name. Where the manifest names none,
/// where no title holds the name, or where the choice is to be made by hand,
/// the whole listing is offered.
pub open spec fn catalog_resolution(
    entries: Seq<LinkView>,
    name: Seq<char>,
    manual: bool,
) -> ResolutionView {
    if !manual && name.len() > 0 && first_url(titled(entries, name)) is Some {
        ResolutionView::Automatic(first_url(titled(entries, name))->0)
    } else {
        ResolutionView::Interactive { options: entries, narrowed: false }
    }
}

/// The entries that the name of a system brings up: those whose title holds
/// it, and none for an empty name.
pub open spec fn system_matches(entries: Seq<LinkView>, name: Seq<char>) -> Seq<LinkView> {
    if name.len() > 0 {
        titled(entries, name)
    } else {
        Seq::empty()
    }
}

/// The collection stage. Where exactly one entry of the catalog's listing
/// holds the system's name in its title, and the choice is not to be made by
/// hand, that entry is taken. Else a list is offered: the entries that hold
/// the name, where they are several and the choice was not asked to be made by
/// hand; the whole listing otherwise.
pub open spec fn collection_resolution(
    entries: Seq<LinkView>,
    name: Seq<char>,
    manual: bool,
) -> ResolutionView {
    let matches = system_matches(entries, name);
    if matches.len() == 1 && !manual {
        ResolutionView::Automatic(matches[0].url)
    } else if matches.len() > 1 && !manual {
        ResolutionView::Interactive { options: matches, narrowed: true }
    } else {
        ResolutionView::Interactive { options: entries, narrowed: false }
    }
}

/// Resolves the catalog of a manifest against the root listing `html`.
pub fn get_catalog_url(html: &String, catalog_name: &String, select_catalog: bool) -> (found:
    Resolution<Catalog>)
    ensures
        found@ == catalog_resolution(
            entries_of(listing_anchors(html@)),
            catalog_name@,
            select_catalog,
        ),
{
    if !select_catalog && !catalog_name.as_str().is_empty() {
        match get_catalog_url_by_name(html, catalog_name.as_str()) {
            Some(url) => {
                return Resolution::Automatic(url);
            },
            None => {},
        }
    }
    Resolution::Interactive { options: get_catalogs(html), narrowed: false }
}

/// The collections whose title holds `name`, in their order.
pub fn collections_titled(collections: &Vec<Collection>, name: &str) -> (matches: Vec<Collection>)
    ensures
        matches.deep_view() == titled(collections.deep_view(), name@),
{
    let mut matches: Vec<Collection> = Vec::new();
    let ghost all = collections.deep_view();
    let ghost held = |entry: LinkView| contains_text(entry.title, name@);
    let mut i: usize = 0;
    proof {
        reveal(Seq::filter);
        assert(all.take(0).filter(held) =~= Seq::empty());
    }
    while i < collections.len()
        invariant
            i <= collections.len(),
            all == collections.deep_view(),
            held == |entry: LinkView| contains_text(entry.title, name@),
            matches.deep_view() == all.take(i as int).filter(held),
        decreases collections.len() - i,
    {
        proof {
            assert(all.take(i + 1) =~= all.take(i as int).push(all[i as int]));
            all.take(i as int).lemma_filter_push(all[i as int], held);
            assert(all[i as int] == collections[i as int]@);
        }
        if contains(collections[i].title.as_str(), name) {
            let ghost before = matches.deep_view();
            let collection = collections[i].clone();
            matches.push(collection);
            assert(matches.deep_view() =~= before.push(collection@));
        }
        i = i + 1;
    }
    assert(all.take(collections.len() as int) =~= all);
    matches
}

/// Resolves the collection of a system among `collections`.
pub fn resolve_collection(
    collections: Vec<Collection>,
    system_name: &str,
    select_system: bool,
) -> (found: Resolution<Collection>)
    ensures
        found@ == collection_resolution(collections.deep_view(), system_name@, select_system),
{
    let matches = if system_name.is_empty() {
        let none: Vec<Collection> = Vec::new();
        assert(none.deep_view() =~= Seq::empty());
        none
    } else {
        collections_titled(&collections, system_name)
    };
    if matches.len() == 1 && !select_system {
        assert(matches.deep_view()[0] == matches[0]@);
        Resolution::Automatic(matches[0].url.clone())
    } else if matches.len() > 1 && !select_system {
        Resolution::Interactive { options: matches, narrowed: true }
    } else {
        Resolution::Interactive { options: collections, narrowed: false }
    }
}

/// Resolves the collection of a manifest's system against the listing `html`
/// of its catalog.
pub fn get_collection_url(html: &String, system_name: &String, select_system: bool) -> (found:
    Resolution<Collection>)
    ensures
        found@ == collection_resolution(
            entries_of(listing_anchors(html@)),
            system_name@,
            select_system,
        ),
{
    resolve_collection(get_collections(html), system_name.as_str(), select_system)
}

/// Why an answer chooses nothing.
#[derive(Debug, Clone, Copy, PartialEq, Eq, Structural)]
pub enum ChoiceError {
    /// The answer is no number.
    NotANumber,
    /// The answer is a number, but none of the list.
    OutOfRange,
}

/// The position that an answer chooses in a list of `count` entries, which
/// are numbered from one. A numeral too long for the machine is no number.
pub open spec fn choice_of(answer: Seq<char>, count: nat) -> Result<nat, ChoiceError> {
    match numeral_value(answer) {
        Some(n) => if n > usize::MAX {
            Err(ChoiceError::NotANumber)
        } else if 1 <= n <= count {
            Ok((n - 1) as nat)
        } else {
            Err(ChoiceError::OutOfRange)
        },
        None => Err(ChoiceError::NotANumber),
    }
}

/// Reads an answer that is free of surrounding white space.
pub fn choice_from(answer: &str, count: usize) -> (choice: Result<usize, ChoiceError>)
    ensures
        (match choice {
            Ok(at) => choice_of(answer@, count as nat) == Ok::<nat, ChoiceError>(at as nat) && at
                < count,
            Err(error) => choice_of(answer@, count as nat) == Err::<nat, ChoiceError>(error),
        }),
{
    match parse_decimal(answer, usize::MAX as u64) {
        Some(n) => {
            if 1 <= n && n <= count as u64 {
                Ok((n - 1) as usize)
            } else {
                Err(ChoiceError::OutOfRange)
            }
        },
        None => Err(ChoiceError::NotANumber),
    }
}

/// Reads the answer to a numbered list of `count` entries from a line of
/// input. White space around the number is passed over.
pub fn read_choice(line: &str, count: usize) -> (choice: Result<usize, ChoiceError>)
    ensures
        (match choice {
            Ok(at) => choice_of(trimmed(line@), count as nat) == Ok::<nat, ChoiceError>(at as nat)
                && at < count,
            Err(error) => choice_of(trimmed(line@), count as nat) == Err::<nat, ChoiceError>(
                error,
            ),
        }),
{
    choice_from(trim(line), count)
}

} // verus!
