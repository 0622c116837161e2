//! The remote inventory of a collection, and its reconciliation with the
//! wanted set of a manifest.

use crate::myrient::{Rom, RomView};
use vstd::prelude::*;

verus! {

/// The inventory that a run of files makes: each file under its name, a later
/// file taking the place of an earlier one of the same name.
pub open spec fn index_of(items: Seq<RomView>) -> Map<Seq<char>, RomView>
    decreases items.len(),
{
    if items.len() == 0 {
        Map::empty()
    } else {
        index_of(items.drop_last()).insert(items.last().name, items.last())
    }
}

/// Every file of the inventory is filed under its own name.
pub open spec fn keyed_by_name(index: Map<Seq<char>, RomView>) -> bool {
    forall|key: Seq<char>| #[trigger] index.contains_key(key) ==> index[key].name == key
}

/// No two of `items` bear the same name.
pub open spec fn distinct_names(items: Seq<RomView>) -> bool {
    forall|i: int, j: int| 0 <= i < j < items.len() ==> items[i].name != items[j].name
}

/// An inventory files every item under its name and nothing else.
pub proof fn lemma_index_keys(items: Seq<RomView>)
    ensures
        keyed_by_name(index_of(items)),
        index_of(items).dom().finite(),
        forall|key: Seq<char>|
            index_of(items).contains_key(key) <==> exists|i: int|
                0 <= i < items.len() && items[i].name == key,
    decreases items.len(),
{
    if items.len() > 0 {
        let front = items.drop_last();
        lemma_index_keys(front);
        assert forall|key: Seq<char>| index_of(items).contains_key(key) implies exists|i: int|
            0 <= i < items.len() && items[i].name == key by {
            if key == items.last().name {
                assert(items[items.len() - 1].name == key);
            } else {
                let i = choose|i: int| 0 <= i < front.len() && front[i].name == key;
                assert(items[i].name == key);
            }
        }
        assert forall|key: Seq<char>|
            (exists|i: int| 0 <= i < items.len() && items[i].name == key) implies index_of(
            items,
        ).contains_key(key) by {
            let i = choose|i: int| 0 <= i < items.len() && items[i].name == key;
            if i < front.len() {
                assert(front[i].name == key);
            }
        }
    }
}

/// Where no two items share a name, the inventory holds each item as it is,
/// and as many files as there are items.
proof fn lemma_index_distinct(items: Seq<RomView>)
    requires
        distinct_names(items),
    ensures
        forall|i: int|
            0 <= i < items.len() ==> index_of(items)[#[trigger] items[i].name] == items[i],
        index_of(items).dom().len() == items.len(),
    decreases items.len(),
{
    lemma_index_keys(items);
    if items.len() > 0 {
        let front = items.drop_last();
        assert(distinct_names(front)) by {
            assert forall|i: int, j: int| 0 <= i < j < front.len() implies front[i].name
                != front[j].name by {
                assert(items[i].name != items[j].name);
            }
        }
        lemma_index_distinct(front);
        lemma_index_keys(front);
        assert forall|i: int| 0 <= i < items.len() implies index_of(items)[#[trigger] items[i].name]
            == items[i] by {
            if i < front.len() {
                assert(front[i] == items[i]);
                assert(items[i].name != items[items.len() - 1].name);
            }
        }
        assert(!index_of(front).contains_key(items.last().name)) by {
            if index_of(front).contains_key(items.last().name) {
                let i = choose|i: int| 0 <= i < front.len() && front[i].name == items.last().name;
                assert(items[i].name != items[items.len() - 1].name);
            }
        }
    }
}

/// Putting an item in the place of one that bears the same name changes the
/// inventory as filing it does.
proof fn lemma_index_update(before: Seq<RomView>, i: int, entry: RomView)
    requires
        distinct_names(before),
        0 <= i < before.len(),
        before[i].name == entry.name,
    ensures
        distinct_names(before.update(i, entry)),
        index_of(before.update(i, entry)) == index_of(before).insert(entry.name, entry),
{
    let after = before.update(i, entry);
    assert(distinct_names(after)) by {
        assert forall|a: int, b: int| 0 <= a < b < after.len() implies after[a].name
            != after[b].name by {
            assert(before[a].name != before[b].name);
        }
    }
    lemma_index_distinct(before);
    lemma_index_distinct(after);
    lemma_index_keys(before);
    lemma_index_keys(after);
    let filed = index_of(before).insert(entry.name, entry);
    assert forall|key: Seq<char>| index_of(after).contains_key(key) <==> filed.contains_key(
        key,
    ) by {
        if index_of(after).contains_key(key) {
            let k = choose|k: int| 0 <= k < after.len() && after[k].name == key;
            assert(before[k].name == key);
        }
        if index_of(before).contains_key(key) {
            let k = choose|k: int| 0 <= k < before.len() && before[k].name == key;
            assert(after[k].name == key);
        }
        if key == entry.name {
            assert(after[i].name == key);
        }
    }
    assert forall|key: Seq<char>| index_of(after).contains_key(key) implies index_of(after)[key]
        == filed[key] by {
        let k = choose|k: int| 0 <= k < after.len() && after[k].name == key;
        assert(index_of(after)[after[k].name] == after[k]);
        if k != i {
            assert(index_of(before)[before[k].name] == before[k]);
            assert(before[k].name != before[i].name);
        }
    }
    assert(index_of(after) =~= filed);
}

fn position(roms: &Vec<Rom>, name: &String) -> (at: Option<usize>)
    ensures
        (match at {
            Some(i) => i < roms.len() && roms.deep_view()[i as int].name == name@,
            None => forall|k: int| 0 <= k < roms.len() ==> roms.deep_view()[k].name != name@,
        }),
{
    let mut i: usize = 0;
    while i < roms.len()
        invariant
            i <= roms.len(),
            forall|k: int| 0 <= k < i ==> roms.deep_view()[k].name != name@,
        decreases roms.len() - i,
    {
        assert(roms.deep_view()[i as int] == roms[i as int]@);
        if roms[i].name == *name {
            return Some(i);
        }
        i = i + 1;
    }
    None
}

/// The files that a collection offers, each under its identity key.
#[derive(Debug)]
pub struct RomIndex {
    roms: Vec<Rom>,
}

impl View for RomIndex {
    type V = Map<Seq<char>, RomView>;

    closed spec fn view(&self) -> Map<Seq<char>, RomView> {
        index_of(self.roms.deep_view())
    }
}

impl RomIndex {
    #[verifier::type_invariant]
    spec fn well_formed(&self) -> bool {
        distinct_names(self.roms.deep_view())
    }

    /// An inventory without files.
    pub fn new() -> (index: RomIndex)
        ensures
            index@ == Map::<Seq<char>, RomView>::empty(),
    {
        let roms: Vec<Rom> = Vec::new();
        assert(roms.deep_view() =~= Seq::empty());
        RomIndex { roms }
    }

    /// The files of an inventory are finitely many, each under its own name.
    pub proof fn lemma_keyed(&self)
        ensures
            keyed_by_name(self@),
            self@.dom().finite(),
    {
        lemma_index_keys(self.roms.deep_view());
    }

    /// Files `rom` under its name. A file already there under that name gives
    /// way to it.
    pub fn insert(&mut self, rom: Rom)
        ensures
            final(self)@ == old(self)@.insert(rom@.name, rom@),
    {
        proof {
            use_type_invariant(&*self);
        }
        let ghost before = self.roms.deep_view();
        let ghost entry = rom@;
        let mut roms: Vec<Rom> = Vec::new();
        assert(roms.deep_view() =~= Seq::empty());
        core::mem::swap(&mut self.roms, &mut roms);
        match position(&roms, &rom.name) {
            Some(i) => {
                roms.set(i, rom);
                proof {
                    let after = roms.deep_view();
                    assert(after =~= before.update(i as int, entry));
                    lemma_index_update(before, i as int, entry);
                }
            },
            None => {
                roms.push(rom);
                proof {
                    let after = roms.deep_view();
                    assert(after =~= before.push(entry));
                    assert(after.drop_last() =~= before);
                    assert forall|a: int, b: int| 0 <= a < b < after.len() implies after[a].name
                        != after[b].name by {
                        if b < before.len() {
                            assert(before[a].name != before[b].name);
                        } else {
                            assert(before[a].name != entry.name);
                        }
                    }
                }
            },
        }
        core::mem::swap(&mut self.roms, &mut roms);
    }

    /// The file filed under `name`, if there is one.
    pub fn get(&self, name: &String) -> (found: Option<&Rom>)
        ensures
            (match found {
                Some(rom) => self@.contains_key(name@) && self@[name@] == rom@,
                None => !self@.contains_key(name@),
            }),
    {
        proof {
            use_type_invariant(self);
            lemma_index_keys(self.roms.deep_view());
            lemma_index_distinct(self.roms.deep_view());
        }
        match position(&self.roms, name) {
            Some(i) => {
                assert(self.roms.deep_view()[i as int] == self.roms[i as int]@);
                Some(&self.roms[i])
            },
            None => {
                None
            },
        }
    }

    /// Tells whether a file is filed under `name`.
    pub fn contains_key(&self, name: &String) -> (held: bool)
        ensures
            held == self@.contains_key(name@),
    {
        self.get(name).is_some()
    }

    /// The number of files.
    pub fn len(&self) -> (n: usize)
        ensures
            self@.dom().finite(),
            n == self@.dom().len(),
    {
        proof {
            use_type_invariant(self);
            lemma_index_keys(self.roms.deep_view());
            lemma_index_distinct(self.roms.deep_view());
        }
        self.roms.len()
    }
}

/// The files of the inventory that the wanted keys name, in the order of the
/// keys.
pub open spec fn matched_of(wanted: Seq<Seq<char>>, remote: Map<Seq<char>, RomView>) -> Seq<
    RomView,
> {
    wanted.filter_map(
        |key: Seq<char>|
            if remote.contains_key(key) {
                Some(remote[key])
            } else {
                None
            },
    )
}

/// The wanted keys under which the inventory holds nothing, in their order.
pub open spec fn missing_of(wanted: Seq<Seq<char>>, remote: Map<Seq<char>, RomView>) -> Seq<
    Seq<char>,
> {
    wanted.filter(|key: Seq<char>| !remote.contains_key(key))
}

/// Sorts the wanted keys by whether the inventory holds them: the files of
/// those it holds, and the keys it does not hold, each in the order of
/// `wanted`.
pub fn reconcile(wanted: &Vec<String>, remote: &RomIndex) -> (found: (Vec<Rom>, Vec<String>))
    ensures
        found.0.deep_view() == matched_of(wanted.deep_view(), remote@),
        found.1.deep_view() == missing_of(wanted.deep_view(), remote@),
{
    let mut matched: Vec<Rom> = Vec::new();
    let mut missing: Vec<String> = Vec::new();
    let ghost keys = wanted.deep_view();
    let ghost pick = |key: Seq<char>|
        if remote@.contains_key(key) {
            Some(remote@[key])
        } else {
            None
        };
    let ghost lack = |key: Seq<char>| !remote@.contains_key(key);
    let mut i: usize = 0;
    proof {
        reveal(Seq::filter);
        assert(keys.take(0).filter_map(pick) =~= Seq::empty());
        assert(keys.take(0).filter(lack) =~= Seq::empty());
    }
    while i < wanted.len()
        invariant
            i <= wanted.len(),
            keys == wanted.deep_view(),
            pick == |key: Seq<char>|
                if remote@.contains_key(key) {
                    Some(remote@[key])
                } else {
                    None
                },
            lack == |key: Seq<char>| !remote@.contains_key(key),
            matched.deep_view() == keys.take(i as int).filter_map(pick),
            missing.deep_view() == keys.take(i as int).filter(lack),
        decreases wanted.len() - i,
    {
        let ghost matched_before = matched.deep_view();
        let ghost missing_before = missing.deep_view();
        proof {
            keys.lemma_filter_map_take_succ(pick, i as int);
            assert(keys.take(i + 1) =~= keys.take(i as int).push(keys[i as int]));
            keys.take(i as int).lemma_filter_push(keys[i as int], lack);
            assert(keys[i as int] == wanted[i as int]@);
        }
        match remote.get(&wanted[i]) {
            Some(rom) => {
                let rom = rom.clone();
                matched.push(rom);
                assert(matched.deep_view() =~= matched_before + seq![rom@]);
            },
            None => {
                let key = wanted[i].clone();
                missing.push(key);
                assert(missing.deep_view() =~= missing_before.push(key@));
                assert(matched_before + Seq::<RomView>::empty() =~= matched_before);
            },
        }
        i = i + 1;
    }
    assert(keys.take(wanted.len() as int) =~= keys);
    (matched, missing)
}

/// Reconciling parts the wanted keys in two: every key is either matched or
/// missing, never both. A matched file is in the inventory under a wanted
/// key; a missing key is wanted and not in the inventory.
pub proof fn lemma_reconcile_partitions(wanted: Seq<Seq<char>>, remote: Map<Seq<char>, RomView>)
    requires
        keyed_by_name(remote),
    ensures
        matched_of(wanted, remote).len() + missing_of(wanted, remote).len() == wanted.len(),
        forall|i: int|
            #![trigger matched_of(wanted, remote)[i]]
            0 <= i < matched_of(wanted, remote).len() ==> wanted.contains(
                matched_of(wanted, remote)[i].name,
            ) && remote.contains_key(matched_of(wanted, remote)[i].name) && remote[matched_of(
                wanted,
                remote,
            )[i].name] == matched_of(wanted, remote)[i],
        forall|j: int|
            #![trigger missing_of(wanted, remote)[j]]
            0 <= j < missing_of(wanted, remote).len() ==> wanted.contains(
                missing_of(wanted, remote)[j],
            ) && !remote.contains_key(missing_of(wanted, remote)[j]),
        forall|i: int, j: int|
            0 <= i < matched_of(wanted, remote).len() && 0 <= j < missing_of(wanted, remote).len()
                ==> (#[trigger] matched_of(wanted, remote)[i]).name != #[trigger] missing_of(
                wanted,
                remote,
            )[j],
    decreases wanted.len(),
{
    reveal(Seq::filter);
    if wanted.len() > 0 {
        let front = wanted.drop_last();
        lemma_reconcile_partitions(front, remote);
        let key = wanted.last();
        assert forall|k: Seq<char>| front.contains(k) implies wanted.contains(k) by {
            let i = choose|i: int| 0 <= i < front.len() && front[i] == k;
            assert(wanted[i] == k);
        }
        assert(wanted.contains(key)) by {
            assert(wanted[wanted.len() - 1] == key);
        }
    }
}

} // verus!
