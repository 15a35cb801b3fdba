//! Bounded LRU cache for already-decoded streamed layer representations.
//!
//! Entries arrive with live `layer:{index}:*` charges in the memory budget.
//! Successful insertion atomically renames those charges to
//! `cache:layer:{index}:*`; eviction and clear release the exact renamed charges.

use vstd::prelude::*;
use vstd::string::*;

use crate::budget;
use crate::budget::{MemoryBudget, MemoryError};
use crate::text;

verus! {

#[derive(Debug)]
pub struct CacheEntry<T> {
    pub layer_index: usize,
    pub value: T,
    pub bytes: u64,
    pub charge_names: Vec<String>,
}

/// The content of an entry.
#[verifier::ext_equal]
#[verifier::reject_recursive_types(T)]
pub struct EntryFacts<T> {
    pub layer_index: usize,
    pub value: T,
    pub bytes: u64,
    pub charge_names: Seq<Seq<char>>,
}

impl<T> CacheEntry<T> {
    pub open spec fn facts(&self) -> EntryFacts<T> {
        EntryFacts {
            layer_index: self.layer_index,
            value: self.value,
            bytes: self.bytes,
            charge_names: text::texts(self.charge_names@),
        }
    }
}

pub open spec fn entry_facts<T>(entries: Seq<CacheEntry<T>>) -> Seq<EntryFacts<T>> {
    Seq::new(entries.len(), |i: int| entries[i].facts())
}

#[derive(Debug)]
pub enum InsertOutcome<T> {
    Cached { evictions: usize },
    Skipped { value: T, evictions: usize },
}

/// A cache: the first entry is the most recently used, the last the least.
#[derive(Debug)]
#[verifier::reject_recursive_types(T)]
pub struct LayerCache<T> {
    capacity_bytes: u64,
    used_bytes: u64,
    entries: Vec<CacheEntry<T>>,
}

/// The content of a cache.
#[verifier::ext_equal]
#[verifier::reject_recursive_types(T)]
pub struct CacheFacts<T> {
    pub capacity_bytes: u64,
    pub entries: Seq<EntryFacts<T>>,
}

impl<T> View for LayerCache<T> {
    type V = CacheFacts<T>;

    closed spec fn view(&self) -> CacheFacts<T> {
        CacheFacts { capacity_bytes: self.capacity_bytes, entries: entry_facts(self.entries@) }
    }
}

/// The bytes of the entries.
pub open spec fn total_bytes<T>(entries: Seq<EntryFacts<T>>) -> int
    decreases entries.len(),
{
    if entries.len() == 0 {
        0
    } else {
        total_bytes(entries.drop_last()) + entries.last().bytes
    }
}

/// The place of a layer's entry, or the number of entries.
pub open spec fn place_of<T>(entries: Seq<EntryFacts<T>>, layer_index: usize) -> int
    decreases entries.len(),
{
    if entries.len() == 0 {
        0
    } else if entries[0].layer_index == layer_index {
        0
    } else {
        1 + place_of(entries.skip(1), layer_index)
    }
}

pub open spec fn holds_layer<T>(entries: Seq<EntryFacts<T>>, layer_index: usize) -> bool {
    place_of(entries, layer_index) < entries.len()
}

impl<T> CacheFacts<T> {
    /// No layer occurs twice, no entry names a charge twice, and the entries stay
    /// within the capacity.
    pub open spec fn valid(self) -> bool {
        &&& forall|i: int, j: int|
            0 <= i < j < self.entries.len() ==> (#[trigger] self.entries[i]).layer_index != (
            #[trigger] self.entries[j]).layer_index
        &&& forall|i: int|
            0 <= i < self.entries.len() ==> (
            #[trigger] self.entries[i]).charge_names.no_duplicates()
        &&& total_bytes(self.entries) <= self.capacity_bytes
    }
}

proof fn lemma_place<T>(entries: Seq<EntryFacts<T>>, layer_index: usize)
    ensures
        0 <= place_of(entries, layer_index) <= entries.len(),
        holds_layer(entries, layer_index) ==> entries[place_of(entries, layer_index)].layer_index
            == layer_index,
        forall|i: int|
            0 <= i < place_of(entries, layer_index) ==> (#[trigger] entries[i]).layer_index
                != layer_index,
    decreases entries.len(),
{
    if entries.len() > 0 && entries[0].layer_index != layer_index {
        let rest = entries.skip(1);
        lemma_place(rest, layer_index);
        assert forall|i: int| 0 <= i < place_of(entries, layer_index) implies (
        #[trigger] entries[i]).layer_index != layer_index by {
            if i > 0 {
                assert(rest[i - 1] == entries[i]);
            }
        }
    }
}

proof fn lemma_total_positive<T>(entries: Seq<EntryFacts<T>>)
    ensures
        total_bytes(entries) >= 0,
    decreases entries.len(),
{
    if entries.len() > 0 {
        lemma_total_positive(entries.drop_last());
    }
}

proof fn lemma_total_remove<T>(entries: Seq<EntryFacts<T>>, at: int)
    requires
        0 <= at < entries.len(),
    ensures
        total_bytes(entries.remove(at)) == total_bytes(entries) - entries[at].bytes,
    decreases entries.len(),
{
    if at == entries.len() - 1 {
        assert(entries.remove(at) =~= entries.drop_last());
    } else {
        lemma_total_remove(entries.drop_last(), at);
        assert(entries.remove(at).drop_last() =~= entries.drop_last().remove(at));
    }
}

proof fn lemma_total_front<T>(entries: Seq<EntryFacts<T>>, entry: EntryFacts<T>)
    ensures
        total_bytes(seq![entry] + entries) == total_bytes(entries) + entry.bytes,
    decreases entries.len(),
{
    let grown = seq![entry] + entries;
    if entries.len() == 0 {
        assert(grown.drop_last() =~= entries);
        assert(grown.last() == entry);
    } else {
        lemma_total_front(entries.drop_last(), entry);
        assert(grown.drop_last() =~= seq![entry] + entries.drop_last());
        assert(grown.last() == entries.last());
    }
}

// ---------------------------------------------------------------------------
// Releasing
// ---------------------------------------------------------------------------
/// The charges without the one of that name.
pub open spec fn without_charge(charges: Seq<budget::ChargeFacts>, name: Seq<char>) -> Seq<
    budget::ChargeFacts,
> {
    if budget::has_charge(charges, name) {
        charges.remove(budget::charge_position(charges, name))
    } else {
        charges
    }
}

/// The charges after each of the names was released.
pub open spec fn released(charges: Seq<budget::ChargeFacts>, names: Seq<Seq<char>>) -> Seq<
    budget::ChargeFacts,
>
    decreases names.len(),
{
    if names.len() == 0 {
        charges
    } else {
        without_charge(released(charges, names.drop_last()), names.last())
    }
}

/// The first of the names that has no charge.
pub open spec fn first_missing(charges: Seq<budget::ChargeFacts>, names: Seq<Seq<char>>) -> Option<
    Seq<char>,
>
    decreases names.len(),
{
    if names.len() == 0 {
        None
    } else {
        let earlier = first_missing(charges, names.drop_last());
        if earlier is Some {
            earlier
        } else if !budget::has_charge(charges, names.last()) {
            Some(names.last())
        } else {
            None
        }
    }
}

proof fn lemma_first_missing_prefix(
    charges: Seq<budget::ChargeFacts>,
    names: Seq<Seq<char>>,
    upto: int,
)
    requires
        0 <= upto <= names.len(),
        first_missing(charges, names.take(upto)) is Some,
    ensures
        first_missing(charges, names) == first_missing(charges, names.take(upto)),
    decreases names.len(),
{
    if upto == names.len() {
        assert(names.take(upto) =~= names);
    } else {
        assert(names.drop_last().take(upto) =~= names.take(upto));
        lemma_first_missing_prefix(charges, names.drop_last(), upto);
    }
}

proof fn lemma_none_missing(charges: Seq<budget::ChargeFacts>, names: Seq<Seq<char>>)
    ensures
        first_missing(charges, names) is None <==> (forall|i: int|
            0 <= i < names.len() ==> budget::has_charge(charges, #[trigger] names[i])),
    decreases names.len(),
{
    if names.len() > 0 {
        let shorter = names.drop_last();
        lemma_none_missing(charges, shorter);
        if first_missing(charges, names) is None {
            assert forall|i: int| 0 <= i < names.len() implies budget::has_charge(
                charges,
                #[trigger] names[i],
            ) by {
                if i < shorter.len() {
                    assert(shorter[i] == names[i]);
                }
            }
        } else if forall|i: int|
            0 <= i < names.len() ==> budget::has_charge(charges, #[trigger] names[i]) {
            assert forall|i: int| 0 <= i < shorter.len() implies budget::has_charge(
                charges,
                #[trigger] shorter[i],
            ) by {
                assert(shorter[i] == names[i]);
            }
            assert(budget::has_charge(charges, names[names.len() - 1]));
        }
    }
}

/// Releasing a charge keeps every other one.
pub proof fn lemma_without_keeps(
    charges: Seq<budget::ChargeFacts>,
    gone: Seq<char>,
    name: Seq<char>,
)
    requires
        budget::names_distinct(charges),
        gone != name,
    ensures
        budget::charge_of(without_charge(charges, gone), name) == budget::charge_of(charges, name),
        budget::has_charge(without_charge(charges, gone), name) == budget::has_charge(
            charges,
            name,
        ),
{
    let rest = without_charge(charges, gone);
    budget::lemma_charge_position(charges, gone);
    budget::lemma_charge_position(charges, name);
    budget::lemma_charge_position(rest, name);
    if budget::has_charge(charges, gone) {
        let at = budget::charge_position(charges, gone);
        lemma_remove_distinct(charges, at);
        if budget::has_charge(charges, name) {
            let k = budget::charge_position(charges, name);
            let moved = if k < at {
                k
            } else {
                k - 1
            };
            assert(rest[moved] == charges[k]);
            budget::lemma_charge_at(rest, moved);
        } else if budget::has_charge(rest, name) {
            let k = budget::charge_position(rest, name);
            let back = if k < at {
                k
            } else {
                k + 1
            };
            assert(rest[k] == charges[back]);
            budget::lemma_charge_at(charges, back);
        }
    }
}

proof fn lemma_remove_distinct(charges: Seq<budget::ChargeFacts>, at: int)
    requires
        budget::names_distinct(charges),
        0 <= at < charges.len(),
    ensures
        budget::names_distinct(charges.remove(at)),
{
    let rest = charges.remove(at);
    assert forall|i: int, j: int|
        #![trigger rest[i], rest[j]]
        0 <= i < j < rest.len() implies rest[i].name != rest[j].name by {
        let a = if i < at {
            i
        } else {
            i + 1
        };
        let b = if j < at {
            j
        } else {
            j + 1
        };
        assert(rest[i] == charges[a] && rest[j] == charges[b]);
    }
}

proof fn lemma_without_distinct(charges: Seq<budget::ChargeFacts>, name: Seq<char>)
    requires
        budget::names_distinct(charges),
    ensures
        budget::names_distinct(without_charge(charges, name)),
{
    budget::lemma_charge_position(charges, name);
    if budget::has_charge(charges, name) {
        lemma_remove_distinct(charges, budget::charge_position(charges, name));
    }
}

proof fn lemma_released_distinct(charges: Seq<budget::ChargeFacts>, names: Seq<Seq<char>>)
    requires
        budget::names_distinct(charges),
    ensures
        budget::names_distinct(released(charges, names)),
    decreases names.len(),
{
    if names.len() > 0 {
        lemma_released_distinct(charges, names.drop_last());
        lemma_without_distinct(released(charges, names.drop_last()), names.last());
    }
}

/// Releasing names keeps every charge of another name.
pub proof fn lemma_released_keeps(
    charges: Seq<budget::ChargeFacts>,
    names: Seq<Seq<char>>,
    name: Seq<char>,
)
    requires
        budget::names_distinct(charges),
        !names.contains(name),
    ensures
        budget::charge_of(released(charges, names), name) == budget::charge_of(charges, name),
        budget::has_charge(released(charges, names), name) == budget::has_charge(charges, name),
    decreases names.len(),
{
    if names.len() > 0 {
        let shorter = names.drop_last();
        if shorter.contains(name) {
            let i = shorter.index_of(name);
            assert(names[i] == name);
        }
        lemma_released_keeps(charges, shorter, name);
        lemma_released_distinct(charges, shorter);
        assert(names[names.len() - 1] != name) by {
            if names[names.len() - 1] == name {
                assert(names.contains(name));
            }
        }
        lemma_without_keeps(released(charges, shorter), names.last(), name);
    }
}

fn find_missing(budget: &MemoryBudget, names: &Vec<String>) -> (missing: Option<usize>)
    ensures
        match missing {
            Some(at) => at < names@.len() && first_missing(
                budget@.charges,
                text::texts(names@),
            ) == Some(names@[at as int]@),
            None => first_missing(budget@.charges, text::texts(names@)) is None,
        },
{
    let ghost all = text::texts(names@);
    for i in 0..names.len()
        invariant
            all == text::texts(names@),
            first_missing(budget@.charges, all.take(i as int)) is None,
    {
        assert(all.take(i as int + 1).drop_last() =~= all.take(i as int));
        assert(all[i as int] == names@[i as int]@);
        if budget.get(names[i].as_str()).is_none() {
            proof {
                lemma_first_missing_prefix(budget@.charges, all, i as int + 1);
            }
            return Some(i);
        }
    }
    assert(all.take(all.len() as int) =~= all);
    None
}

fn release_names(budget: &mut MemoryBudget, names: &Vec<String>)
    requires
        old(budget).wf(),
        first_missing(old(budget)@.charges, text::texts(names@)) is None,
        text::texts(names@).no_duplicates(),
    ensures
        final(budget).wf(),
        final(budget)@ == (budget::BudgetFacts {
            total: old(budget)@.total,
            peak: old(budget)@.peak,
            charges: released(old(budget)@.charges, text::texts(names@)),
        }),
{
    let ghost all = text::texts(names@);
    let ghost before = budget@.charges;
    proof {
        lemma_none_missing(before, all);
        budget.lemma_wf();
    }
    for i in 0..names.len()
        invariant
            all == text::texts(names@),
            all.no_duplicates(),
            before == old(budget)@.charges,
            budget::names_distinct(before),
            forall|k: int|
                0 <= k < all.len() ==> budget::has_charge(before, #[trigger] all[k]),
            budget.wf(),
            budget@ == (budget::BudgetFacts {
                total: old(budget)@.total,
                peak: old(budget)@.peak,
                charges: released(before, all.take(i as int)),
            }),
    {
        proof {
            assert(all.take(i as int + 1).drop_last() =~= all.take(i as int));
            assert(all.take(i as int + 1).last() == all[i as int]);
            assert(all[i as int] == names@[i as int]@);
            assert(!all.take(i as int).contains(all[i as int])) by {
                if all.take(i as int).contains(all[i as int]) {
                    let k = all.take(i as int).index_of(all[i as int]);
                    assert(all[k] == all[i as int]);
                }
            }
            lemma_released_keeps(before, all.take(i as int), all[i as int]);
        }
        let gone = budget.release(names[i].as_str());
    }
    assert(all.take(all.len() as int) =~= all);
}

// ---------------------------------------------------------------------------
// Evicting
// ---------------------------------------------------------------------------
/// What evicting entries from the back leads to: how many went, and, where a
/// charge was missing, the layer and the charge.
#[verifier::ext_equal]
#[verifier::reject_recursive_types(T)]
pub struct Evicted<T> {
    pub entries: Seq<EntryFacts<T>>,
    pub charges: Seq<budget::ChargeFacts>,
    pub done: nat,
    pub missing: Option<(usize, Seq<char>)>,
}

/// Evicts up to `count` entries, the least recently used first.
pub open spec fn evicted<T>(
    entries: Seq<EntryFacts<T>>,
    charges: Seq<budget::ChargeFacts>,
    count: nat,
) -> Evicted<T>
    decreases count,
{
    if count == 0 || entries.len() == 0 {
        Evicted { entries, charges, done: 0, missing: None }
    } else {
        let last = entries.last();
        match first_missing(charges, last.charge_names) {
            Some(name) => Evicted {
                entries,
                charges,
                done: 0,
                missing: Some((last.layer_index, name)),
            },
            None => {
                let rest = evicted(
                    entries.drop_last(),
                    released(charges, last.charge_names),
                    (count - 1) as nat,
                );
                Evicted { done: rest.done + 1, ..rest }
            },
        }
    }
}

/// The same evictions, with some done before.
pub open spec fn more<T>(done: nat, rest: Evicted<T>) -> Evicted<T> {
    Evicted { done: done + rest.done, ..rest }
}

pub open spec fn missing_message(layer_index: usize, name: Seq<char>) -> Seq<char> {
    "cached layer "@ + text::decimal(layer_index as nat) + " charge '"@ + name
        + "' missing before eviction"@
}

/// The message of a layer whose charges cannot be renamed: `name` is the first new
/// name that is taken.
pub open spec fn clash_message(layer_index: usize, name: Seq<char>) -> Seq<char> {
    "failed to convert layer "@ + text::decimal(layer_index as nat)
        + " charges to cache residency: "@ + ("allocation '"@ + name + "' already exists"@)
}

/// An entry of `bytes` fits behind the entries; an unlimited capacity holds
/// anything.
pub open spec fn fits<T>(entries: Seq<EntryFacts<T>>, capacity: u64, bytes: u64) -> bool {
    total_bytes(entries) + bytes <= capacity || capacity == u64::MAX
}

/// How many of the least recently used entries must go before an entry of `bytes`
/// fits the capacity.
pub open spec fn fit_count<T>(entries: Seq<EntryFacts<T>>, capacity: u64, bytes: u64) -> nat
    decreases entries.len(),
{
    if entries.len() == 0 || fits(entries, capacity, bytes) {
        0
    } else {
        1 + fit_count(entries.drop_last(), capacity, bytes)
    }
}

/// How many of the least recently used entries must go before `required` bytes can
/// be charged; all of them where that is not enough.
pub open spec fn headroom_count<T>(
    entries: Seq<EntryFacts<T>>,
    charges: Seq<budget::ChargeFacts>,
    total: u64,
    required: u64,
) -> nat
    decreases entries.len(),
{
    if entries.len() == 0 || budget::charged(charges) + required <= total {
        0
    } else {
        1 + headroom_count(
            entries.drop_last(),
            released(charges, entries.last().charge_names),
            total,
            required,
        )
    }
}

pub open spec fn active_prefix(layer_index: usize) -> Seq<char> {
    "layer:"@ + text::decimal(layer_index as nat) + ":"@
}

pub open spec fn cache_prefix(layer_index: usize) -> Seq<char> {
    "cache:layer:"@ + text::decimal(layer_index as nat) + ":"@
}

fn layer_prefix(head: &str, layer_index: usize) -> (prefix: String)
    ensures
        prefix@ == head@ + text::decimal(layer_index as nat) + ":"@,
{
    let mut prefix = head.to_owned();
    text::push_decimal(&mut prefix, layer_index as u64);
    prefix.append(":");
    prefix
}

fn missing_text(layer_index: usize, name: &str) -> (message: String)
    ensures
        message@ == missing_message(layer_index, name@),
{
    let mut message = "cached layer ".to_owned();
    text::push_decimal(&mut message, layer_index as u64);
    message.append(" charge '");
    message.append(name);
    message.append("' missing before eviction");
    message
}

impl<T> LayerCache<T> {
    /// The bookkeeping agrees with the entries.
    pub closed spec fn wf(&self) -> bool {
        &&& self@.valid()
        &&& self.used_bytes == total_bytes(self@.entries)
    }

    pub proof fn lemma_wf(&self)
        requires
            self.wf(),
        ensures
            self@.valid(),
    {
    }

    pub fn new(capacity_bytes: u64) -> (cache: Self)
        ensures
            cache.wf(),
            cache@ == (CacheFacts::<T> { capacity_bytes, entries: Seq::empty() }),
    {
        let cache = LayerCache { capacity_bytes, used_bytes: 0, entries: Vec::new() };
        assert(cache@.entries =~= Seq::empty());
        cache
    }

    pub fn capacity_bytes(&self) -> (bytes: u64)
        ensures
            bytes == self@.capacity_bytes,
    {
        self.capacity_bytes
    }

    pub fn entry_count(&self) -> (count: usize)
        ensures
            count == self@.entries.len(),
    {
        self.entries.len()
    }

    pub fn used_bytes(&self) -> (bytes: u64)
        requires
            self.wf(),
        ensures
            bytes == total_bytes(self@.entries),
    {
        self.used_bytes
    }

    fn position(&self, layer_index: usize) -> (at: usize)
        ensures
            at == place_of(self@.entries, layer_index),
    {
        let ghost all = self@.entries;
        assert(all.skip(0) =~= all);
        for i in 0..self.entries.len()
            invariant
                all == self@.entries,
                place_of(all, layer_index) == i + place_of(all.skip(i as int), layer_index),
        {
            assert(all.skip(i as int)[0] == all[i as int]);
            assert(all[i as int].layer_index == self.entries@[i as int].layer_index);
            if self.entries[i].layer_index == layer_index {
                return i;
            }
            assert(all.skip(i as int).skip(1) =~= all.skip(i as int + 1));
        }
        self.entries.len()
    }

    pub fn contains(&self, layer_index: usize) -> (found: bool)
        ensures
            found == holds_layer(self@.entries, layer_index),
    {
        self.position(layer_index) < self.entries.len()
    }

    /// Uses an entry, which becomes the most recently used.
    pub fn with_entry<R, F: FnOnce(&T) -> R>(&mut self, layer_index: usize, use_entry: F) -> (result:
        Option<R>)
        requires
            old(self).wf(),
            holds_layer(old(self)@.entries, layer_index) ==> call_requires(
                use_entry,
                (&old(self)@.entries[place_of(old(self)@.entries, layer_index)].value,),
            ),
        ensures
            final(self).wf(),
            result is Some <==> holds_layer(old(self)@.entries, layer_index),
            result is None ==> final(self)@ == old(self)@,
            result matches Some(output) ==> {
                let at = place_of(old(self)@.entries, layer_index);
                let entry = old(self)@.entries[at];
                &&& call_ensures(use_entry, (&entry.value,), output)
                &&& final(self)@ == (CacheFacts::<T> {
                    entries: seq![entry] + old(self)@.entries.remove(at),
                    ..old(self)@
                })
            },
    {
        let ghost all = self@.entries;
        let at: usize = self.position(layer_index);
        proof {
            lemma_place(all, layer_index);
        }
        if at >= self.entries.len() {
            return None;
        }
        let entry = self.entries.remove(at);
        let ghost content = entry.facts();
        assert(content == all[at as int]);
        let output = use_entry(&entry.value);
        self.entries.insert(0, entry);
        proof {
            assert(self@.entries =~= seq![content] + all.remove(at as int));
            lemma_total_remove(all, at as int);
            lemma_total_front(all.remove(at as int), content);
            lemma_moved_valid(all, at as int);
        }
        Some(output)
    }

    /// Evicts the least recently used entry; `false` where there is none.
    fn evict_lru(&mut self, budget: &mut MemoryBudget) -> (result: Result<bool, String>)
        requires
            old(self).wf(),
            old(budget).wf(),
        ensures
            final(self).wf(),
            final(budget).wf(),
            final(self)@.capacity_bytes == old(self)@.capacity_bytes,
            final(budget)@.total == old(budget)@.total,
            final(budget)@.peak == old(budget)@.peak,
            ({
                let one = evicted(old(self)@.entries, old(budget)@.charges, 1);
                &&& final(self)@.entries == one.entries
                &&& final(budget)@.charges == one.charges
                &&& match one.missing {
                    Some((layer, name)) => result matches Err(message) && message@
                        == missing_message(layer, name),
                    None => result == Ok::<bool, String>(old(self)@.entries.len() > 0),
                }
            }),
    {
        let ghost all = self@.entries;
        let ghost charges = budget@.charges;
        if self.entries.len() == 0 {
            return Ok(false);
        }
        proof {
            lemma_one_more(all, charges, 1);
        }
        let last: usize = self.entries.len() - 1;
        assert(all.last() == self.entries@[last as int].facts());
        match find_missing(budget, &self.entries[last].charge_names) {
            Some(at) => {
                return Err(
                    missing_text(
                        self.entries[last].layer_index,
                        self.entries[last].charge_names[at].as_str(),
                    ),
                );
            },
            None => {},
        }
        proof {
            assert(all[last as int].charge_names.no_duplicates());
            lemma_total_remove(all, last as int);
            assert(all.remove(last as int) =~= all.drop_last());
            lemma_total_positive(all.drop_last());
        }
        release_names(budget, &self.entries[last].charge_names);
        self.used_bytes = self.used_bytes - self.entries[last].bytes;
        let gone = self.entries.pop();
        proof {
            assert(self@.entries =~= all.drop_last());
            lemma_shorter_valid(all, last as int);
        }
        Ok(true)
    }

    /// Evict least recently used entries until `required_bytes` can be charged, or
    /// until the cache is empty. Returns the eviction count.
    pub fn evict_until_available(&mut self, budget: &mut MemoryBudget, required_bytes: u64)
        -> (result: Result<usize, String>)
        requires
            old(self).wf(),
            old(budget).wf(),
        ensures
            final(self).wf(),
            final(budget).wf(),
            final(self)@.capacity_bytes == old(self)@.capacity_bytes,
            final(budget)@.total == old(budget)@.total,
            final(budget)@.peak == old(budget)@.peak,
            ({
                let gone = evicted(
                    old(self)@.entries,
                    old(budget)@.charges,
                    headroom_count(
                        old(self)@.entries,
                        old(budget)@.charges,
                        old(budget)@.total,
                        required_bytes,
                    ),
                );
                &&& final(self)@.entries == gone.entries
                &&& final(budget)@.charges == gone.charges
                &&& match gone.missing {
                    Some((layer, name)) => result matches Err(message) && message@
                        == missing_message(layer, name),
                    None => result matches Ok(count) && count == gone.done,
                }
            }),
    {
        let ghost all = self@.entries;
        let ghost charges = budget@.charges;
        let ghost total = budget@.total;
        let ghost count = headroom_count(all, charges, total, required_bytes);
        let ghost expected = evicted(all, charges, count);
        let start: usize = self.entries.len();
        let mut evictions: usize = 0;
        while !budget.can_allocate(required_bytes)
            invariant_except_break
                expected == more(
                    evictions as nat,
                    evicted(
                        self@.entries,
                        budget@.charges,
                        headroom_count(self@.entries, budget@.charges, total, required_bytes),
                    ),
                ),
            invariant
                self.wf(),
                budget.wf(),
                self@.capacity_bytes == old(self)@.capacity_bytes,
                budget@.total == total,
                total == old(budget)@.total,
                budget@.peak == old(budget)@.peak,
                evictions + self@.entries.len() == start,
                expected == evicted(
                    old(self)@.entries,
                    old(budget)@.charges,
                    headroom_count(
                        old(self)@.entries,
                        old(budget)@.charges,
                        total,
                        required_bytes,
                    ),
                ),
            ensures
                expected.missing is None,
                expected.entries == self@.entries,
                expected.charges == budget@.charges,
                expected.done == evictions,
            decreases self@.entries.len(),
        {
            let ghost entries = self@.entries;
            let ghost held = budget@.charges;
            proof {
                if entries.len() > 0 {
                    lemma_one_more(
                        entries,
                        held,
                        headroom_count(entries, held, total, required_bytes),
                    );
                }
            }
            match self.evict_lru(budget) {
                Ok(went) => {
                    if !went {
                        break;
                    }
                    evictions = evictions + 1;
                },
                Err(message) => {
                    return Err(message);
                },
            }
        }
        Ok(evictions)
    }

    /// Evicts every entry. Returns the eviction count.
    pub fn clear(&mut self, budget: &mut MemoryBudget) -> (result: Result<usize, String>)
        requires
            old(self).wf(),
            old(budget).wf(),
        ensures
            final(self).wf(),
            final(budget).wf(),
            final(self)@.capacity_bytes == old(self)@.capacity_bytes,
            final(budget)@.total == old(budget)@.total,
            final(budget)@.peak == old(budget)@.peak,
            ({
                let gone = evicted(
                    old(self)@.entries,
                    old(budget)@.charges,
                    old(self)@.entries.len(),
                );
                &&& final(self)@.entries == gone.entries
                &&& final(budget)@.charges == gone.charges
                &&& match gone.missing {
                    Some((layer, name)) => result matches Err(message) && message@
                        == missing_message(layer, name),
                    None => result matches Ok(count) && count == gone.done,
                }
            }),
    {
        let ghost all = self@.entries;
        let ghost expected = evicted(all, budget@.charges, all.len());
        let start: usize = self.entries.len();
        let mut evictions: usize = 0;
        loop
            invariant_except_break
                expected == more(
                    evictions as nat,
                    evicted(self@.entries, budget@.charges, self@.entries.len()),
                ),
            invariant
                self.wf(),
                budget.wf(),
                self@.capacity_bytes == old(self)@.capacity_bytes,
                budget@.total == old(budget)@.total,
                budget@.peak == old(budget)@.peak,
                evictions + self@.entries.len() == start,
                expected == evicted(
                    old(self)@.entries,
                    old(budget)@.charges,
                    old(self)@.entries.len(),
                ),
            ensures
                expected.missing is None,
                expected.entries == self@.entries,
                expected.charges == budget@.charges,
                expected.done == evictions,
            decreases self@.entries.len(),
        {
            let ghost entries = self@.entries;
            proof {
                if entries.len() > 0 {
                    lemma_one_more(entries, budget@.charges, entries.len());
                }
            }
            match self.evict_lru(budget) {
                Ok(went) => {
                    if !went {
                        break;
                    }
                    evictions = evictions + 1;
                },
                Err(message) => {
                    return Err(message);
                },
            }
        }
        Ok(evictions)
    }
}

/// One eviction, and then the others.
proof fn lemma_one_more<T>(
    entries: Seq<EntryFacts<T>>,
    charges: Seq<budget::ChargeFacts>,
    count: nat,
)
    requires
        count > 0,
        entries.len() > 0,
    ensures
        evicted(entries, charges, 1).missing is Some <==> first_missing(
            charges,
            entries.last().charge_names,
        ) is Some,
        ({
            let one = evicted(entries, charges, 1);
            if one.missing is Some {
                evicted(entries, charges, count) == one
            } else {
                &&& one.done == 1
                &&& one.entries == entries.drop_last()
                &&& one.charges == released(charges, entries.last().charge_names)
                &&& evicted(entries, charges, count) == more(
                    1,
                    evicted(one.entries, one.charges, (count - 1) as nat),
                )
            }
        }),
{
    let left = entries.drop_last();
    let freed = released(charges, entries.last().charge_names);
    assert(evicted(left, freed, 0) == (Evicted::<T> {
        entries: left,
        charges: freed,
        done: 0,
        missing: None,
    }));
}

proof fn lemma_shorter_valid<T>(entries: Seq<EntryFacts<T>>, at: int)
    requires
        0 <= at < entries.len(),
        forall|i: int, j: int|
            0 <= i < j < entries.len() ==> (#[trigger] entries[i]).layer_index != (
            #[trigger] entries[j]).layer_index,
        forall|i: int|
            0 <= i < entries.len() ==> (#[trigger] entries[i]).charge_names.no_duplicates(),
    ensures
        ({
            let rest = entries.remove(at);
            &&& forall|i: int, j: int|
                0 <= i < j < rest.len() ==> (#[trigger] rest[i]).layer_index != (
                #[trigger] rest[j]).layer_index
            &&& forall|i: int|
                0 <= i < rest.len() ==> (#[trigger] rest[i]).charge_names.no_duplicates()
            &&& forall|i: int|
                0 <= i < rest.len() ==> (#[trigger] rest[i]).layer_index != entries[at].layer_index
        }),
{
    let rest = entries.remove(at);
    assert forall|i: int| 0 <= i < rest.len() implies #[trigger] rest[i] == entries[if i < at {
        i
    } else {
        i + 1
    }] by {}
}

proof fn lemma_moved_valid<T>(entries: Seq<EntryFacts<T>>, at: int)
    requires
        0 <= at < entries.len(),
        forall|i: int, j: int|
            0 <= i < j < entries.len() ==> (#[trigger] entries[i]).layer_index != (
            #[trigger] entries[j]).layer_index,
        forall|i: int|
            0 <= i < entries.len() ==> (#[trigger] entries[i]).charge_names.no_duplicates(),
    ensures
        ({
            let moved = seq![entries[at]] + entries.remove(at);
            &&& forall|i: int, j: int|
                0 <= i < j < moved.len() ==> (#[trigger] moved[i]).layer_index != (
                #[trigger] moved[j]).layer_index
            &&& forall|i: int|
                0 <= i < moved.len() ==> (#[trigger] moved[i]).charge_names.no_duplicates()
        }),
{
    lemma_shorter_valid(entries, at);
    let rest = entries.remove(at);
    let moved = seq![entries[at]] + rest;
    assert forall|i: int| 1 <= i < moved.len() implies #[trigger] moved[i] == rest[i - 1] by {}
}

// ---------------------------------------------------------------------------
// Inserting
// ---------------------------------------------------------------------------
/// The entries and charges once an earlier entry of the layer was given up, and
/// how many were given up.
pub open spec fn given_up<T>(
    entries: Seq<EntryFacts<T>>,
    charges: Seq<budget::ChargeFacts>,
    layer_index: usize,
) -> (Seq<EntryFacts<T>>, Seq<budget::ChargeFacts>, nat) {
    if holds_layer(entries, layer_index) {
        let at = place_of(entries, layer_index);
        (entries.remove(at), released(charges, entries[at].charge_names), 1)
    } else {
        (entries, charges, 0)
    }
}

/// The evictions that make room for an entry of a layer.
pub open spec fn room_made<T>(
    cache: CacheFacts<T>,
    charges: Seq<budget::ChargeFacts>,
    layer_index: usize,
    bytes: u64,
) -> Evicted<T> {
    let (entries, left, given) = given_up(cache.entries, charges, layer_index);
    more(given, evicted(entries, left, fit_count(entries, cache.capacity_bytes, bytes)))
}

/// The charge of an earlier entry of the layer that is missing.
pub open spec fn stale_charge<T>(
    entries: Seq<EntryFacts<T>>,
    charges: Seq<budget::ChargeFacts>,
    layer_index: usize,
) -> Option<Seq<char>> {
    if holds_layer(entries, layer_index) {
        first_missing(charges, entries[place_of(entries, layer_index)].charge_names)
    } else {
        None
    }
}

/// The layer may be cached at all: it has a size, the size is within the capacity,
/// and its live charges amount to it.
pub open spec fn cacheable(
    capacity_bytes: u64,
    charges: Seq<budget::ChargeFacts>,
    layer_index: usize,
    bytes: u64,
) -> bool {
    &&& 0 < bytes <= capacity_bytes
    &&& budget::charged_with_prefix(charges, active_prefix(layer_index)) == bytes
}

/// The entry of a layer whose charges were renamed.
pub open spec fn new_entry<T>(
    layer_index: usize,
    value: T,
    bytes: u64,
    charges: Seq<budget::ChargeFacts>,
) -> EntryFacts<T> {
    EntryFacts {
        layer_index,
        value,
        bytes,
        charge_names: budget::moved_names(
            charges,
            active_prefix(layer_index),
            cache_prefix(layer_index),
        ),
    }
}

proof fn lemma_evicted_shape<T>(
    entries: Seq<EntryFacts<T>>,
    charges: Seq<budget::ChargeFacts>,
    count: nat,
)
    requires
        count <= entries.len(),
    ensures
        ({
            let gone = evicted(entries, charges, count);
            &&& gone.done <= count
            &&& gone.missing is None ==> gone.done == count
            &&& gone.entries == entries.take(entries.len() - gone.done)
        }),
    decreases count,
{
    if count > 0 {
        let last = entries.last();
        if first_missing(charges, last.charge_names) is None {
            let left = entries.drop_last();
            let freed = released(charges, last.charge_names);
            lemma_evicted_shape(left, freed, (count - 1) as nat);
            let rest = evicted(left, freed, (count - 1) as nat);
            assert(left.take(left.len() - rest.done) =~= entries.take(
                entries.len() - (rest.done + 1),
            ));
        } else {
            assert(entries.take(entries.len() as int) =~= entries);
        }
    } else {
        assert(entries.take(entries.len() as int) =~= entries);
    }
}

proof fn lemma_fit_count<T>(entries: Seq<EntryFacts<T>>, capacity: u64, bytes: u64)
    requires
        bytes <= capacity,
    ensures
        fit_count(entries, capacity, bytes) <= entries.len(),
        fits(
            entries.take(entries.len() - fit_count(entries, capacity, bytes)),
            capacity,
            bytes,
        ),
    decreases entries.len(),
{
    if entries.len() == 0 {
        assert(entries.take(0) =~= entries);
    } else if fits(entries, capacity, bytes) {
        assert(entries.take(entries.len() as int) =~= entries);
    } else {
        let left = entries.drop_last();
        lemma_fit_count(left, capacity, bytes);
        let count = fit_count(left, capacity, bytes);
        assert(left.take(left.len() - count) =~= entries.take(entries.len() - (count + 1)));
    }
}

proof fn lemma_total_take<T>(entries: Seq<EntryFacts<T>>, upto: int)
    requires
        0 <= upto <= entries.len(),
    ensures
        0 <= total_bytes(entries.take(upto)) <= total_bytes(entries),
    decreases entries.len(),
{
    lemma_total_positive(entries.take(upto));
    if upto == entries.len() {
        assert(entries.take(upto) =~= entries);
    } else {
        lemma_total_take(entries.drop_last(), upto);
        assert(entries.drop_last().take(upto) =~= entries.take(upto));
    }
}

/// A charge moves to that name.
pub open spec fn moves_to(
    charges: Seq<budget::ChargeFacts>,
    from: Seq<char>,
    to: Seq<char>,
    name: Seq<char>,
) -> bool {
    exists|j: int|
        0 <= j < charges.len() && text::has_prefix((#[trigger] charges[j]).name, from)
            && budget::renamed(charges[j], from, to).name == name
}

/// The new names of moved charges are among the renamed charges, each once.
proof fn lemma_moved_names(charges: Seq<budget::ChargeFacts>, from: Seq<char>, to: Seq<char>)
    ensures
        forall|k: int|
            0 <= k < budget::moved_names(charges, from, to).len() ==> moves_to(
                charges,
                from,
                to,
                #[trigger] budget::moved_names(charges, from, to)[k],
            ),
        budget::names_distinct(budget::renamed_all(charges, from, to)) ==> budget::moved_names(
            charges,
            from,
            to,
        ).no_duplicates(),
    decreases charges.len(),
{
    if charges.len() > 0 {
        let shorter = charges.drop_last();
        let names = budget::moved_names(shorter, from, to);
        let all = budget::moved_names(charges, from, to);
        let target = budget::renamed_all(charges, from, to);
        lemma_moved_names(shorter, from, to);
        assert forall|k: int| 0 <= k < all.len() implies moves_to(
            charges,
            from,
            to,
            #[trigger] all[k],
        ) by {
            if k < names.len() {
                assert(all[k] == names[k]);
                assert(moves_to(shorter, from, to, names[k]));
                let j = choose|j: int|
                    0 <= j < shorter.len() && text::has_prefix((#[trigger] shorter[j]).name, from)
                        && budget::renamed(shorter[j], from, to).name == names[k];
                assert(charges[j] == shorter[j]);
            } else {
                let last = charges.len() - 1;
                assert(text::has_prefix(charges[last].name, from));
            }
        }
        if budget::names_distinct(target) {
            let part = budget::renamed_all(shorter, from, to);
            assert forall|i: int, j: int|
                #![trigger part[i], part[j]]
                0 <= i < j < part.len() implies part[i].name != part[j].name by {
                assert(part[i] == target[i] && part[j] == target[j]);
            }
            if text::has_prefix(charges.last().name, from) {
                let last = charges.len() - 1;
                assert forall|k: int| 0 <= k < names.len() implies #[trigger] names[k]
                    != target[last].name by {
                    assert(moves_to(shorter, from, to, names[k]));
                    let j = choose|j: int|
                        0 <= j < shorter.len() && text::has_prefix(
                            (#[trigger] shorter[j]).name,
                            from,
                        ) && budget::renamed(shorter[j], from, to).name == names[k];
                    assert(target[j].name == names[k]);
                }
            }
        }
    }
}

impl<T> LayerCache<T> {
    /// Gives up an earlier entry of the layer; says whether there was one.
    fn evict_layer(&mut self, layer_index: usize, budget: &mut MemoryBudget) -> (result: Result<
        bool,
        String,
    >)
        requires
            old(self).wf(),
            old(budget).wf(),
        ensures
            final(self).wf(),
            final(budget).wf(),
            final(self)@.capacity_bytes == old(self)@.capacity_bytes,
            final(budget)@.total == old(budget)@.total,
            final(budget)@.peak == old(budget)@.peak,
            match stale_charge(old(self)@.entries, old(budget)@.charges, layer_index) {
                Some(name) => {
                    &&& result matches Err(message) && message@ == missing_message(
                        layer_index,
                        name,
                    )
                    &&& final(self)@ == old(self)@
                    &&& final(budget)@ == old(budget)@
                },
                None => {
                    let (entries, charges, given) = given_up(
                        old(self)@.entries,
                        old(budget)@.charges,
                        layer_index,
                    );
                    &&& result == Ok::<bool, String>(given > 0)
                    &&& final(self)@.entries == entries
                    &&& final(budget)@.charges == charges
                    &&& !holds_layer(entries, layer_index)
                },
            },
    {
        let ghost all = self@.entries;
        let at: usize = self.position(layer_index);
        proof {
            lemma_place(all, layer_index);
        }
        if at >= self.entries.len() {
            return Ok(false);
        }
        assert(all[at as int] == self.entries@[at as int].facts());
        match find_missing(budget, &self.entries[at].charge_names) {
            Some(name_at) => {
                return Err(
                    missing_text(layer_index, self.entries[at].charge_names[name_at].as_str()),
                );
            },
            None => {},
        }
        proof {
            assert(all[at as int].charge_names.no_duplicates());
            lemma_total_remove(all, at as int);
            lemma_total_positive(all.remove(at as int));
            lemma_shorter_valid(all, at as int);
            lemma_place(all.remove(at as int), layer_index);
        }
        release_names(budget, &self.entries[at].charge_names);
        self.used_bytes = self.used_bytes - self.entries[at].bytes;
        let gone = self.entries.remove(at);
        assert(self@.entries =~= all.remove(at as int));
        Ok(true)
    }

    /// Evicts least recently used entries until an entry of `bytes` fits.
    fn evict_to_fit(&mut self, budget: &mut MemoryBudget, bytes: u64) -> (result: Result<
        usize,
        String,
    >)
        requires
            old(self).wf(),
            old(budget).wf(),
            bytes <= old(self)@.capacity_bytes,
        ensures
            final(self).wf(),
            final(budget).wf(),
            final(self)@.capacity_bytes == old(self)@.capacity_bytes,
            final(budget)@.total == old(budget)@.total,
            final(budget)@.peak == old(budget)@.peak,
            ({
                let gone = evicted(
                    old(self)@.entries,
                    old(budget)@.charges,
                    fit_count(old(self)@.entries, old(self)@.capacity_bytes, bytes),
                );
                &&& final(self)@.entries == gone.entries
                &&& final(budget)@.charges == gone.charges
                &&& match gone.missing {
                    Some((layer, name)) => result matches Err(message) && message@
                        == missing_message(layer, name),
                    None => result matches Ok(count) && count == gone.done && fits(
                        gone.entries,
                        old(self)@.capacity_bytes,
                        bytes,
                    ),
                }
            }),
    {
        let ghost all = self@.entries;
        let ghost capacity = self@.capacity_bytes;
        let ghost expected = evicted(all, budget@.charges, fit_count(all, capacity, bytes));
        let start: usize = self.entries.len();
        let mut evictions: usize = 0;
        while self.used_bytes.saturating_add(bytes) > self.capacity_bytes
            invariant
                self.wf(),
                budget.wf(),
                self@.capacity_bytes == capacity,
                capacity == old(self)@.capacity_bytes,
                bytes <= capacity,
                budget@.total == old(budget)@.total,
                budget@.peak == old(budget)@.peak,
                evictions + self@.entries.len() == start,
                expected == more(
                    evictions as nat,
                    evicted(
                        self@.entries,
                        budget@.charges,
                        fit_count(self@.entries, capacity, bytes),
                    ),
                ),
                expected == evicted(
                    old(self)@.entries,
                    old(budget)@.charges,
                    fit_count(old(self)@.entries, capacity, bytes),
                ),
            decreases self@.entries.len(),
        {
            let ghost entries = self@.entries;
            proof {
                if entries.len() > 0 {
                    lemma_one_more(
                        entries,
                        budget@.charges,
                        fit_count(entries, capacity, bytes),
                    );
                }
            }
            match self.evict_lru(budget) {
                Ok(_) => {
                    evictions = evictions + 1;
                },
                Err(message) => {
                    return Err(message);
                },
            }
        }
        Ok(evictions)
    }

    /// Caches a loaded layer: makes room, takes over its charges under the cache's
    /// name and puts it first. Where it cannot be cached it is handed back and
    /// nothing changes. Where the charges cannot be renamed they are released, since
    /// the value is dropped.
    pub fn insert_loaded(
        &mut self,
        layer_index: usize,
        value: T,
        bytes: u64,
        budget: &mut MemoryBudget,
    ) -> (result: Result<InsertOutcome<T>, String>)
        requires
            old(self).wf(),
            old(budget).wf(),
        ensures
            final(self).wf(),
            final(budget).wf(),
            final(self)@.capacity_bytes == old(self)@.capacity_bytes,
            final(budget)@.total == old(budget)@.total,
            final(budget)@.peak == old(budget)@.peak,
            ({
                let from = active_prefix(layer_index);
                let to = cache_prefix(layer_index);
                let stale = stale_charge(old(self)@.entries, old(budget)@.charges, layer_index);
                let room = room_made(old(self)@, old(budget)@.charges, layer_index, bytes);
                if !cacheable(
                    old(self)@.capacity_bytes,
                    old(budget)@.charges,
                    layer_index,
                    bytes,
                ) {
                    &&& result == Ok::<InsertOutcome<T>, String>(
                        InsertOutcome::Skipped { value, evictions: 0 },
                    )
                    &&& final(self)@ == old(self)@
                    &&& final(budget)@ == old(budget)@
                } else if stale is Some {
                    &&& result matches Err(message) && message@ == missing_message(
                        layer_index,
                        stale->0,
                    )
                    &&& final(self)@ == old(self)@
                    &&& final(budget)@ == old(budget)@
                } else if room.missing is Some {
                    &&& result matches Err(message) && message@ == missing_message(
                        (room.missing->0).0,
                        (room.missing->0).1,
                    )
                    &&& final(self)@.entries == room.entries
                    &&& final(budget)@.charges == room.charges
                } else if total_bytes(room.entries) + bytes > u64::MAX {
                    &&& result matches Err(message) && message@
                        == "layer cache byte accounting overflow"@
                    &&& final(self)@.entries == room.entries
                    &&& final(budget)@.charges == room.charges
                } else if !budget::names_distinct(budget::renamed_all(room.charges, from, to)) {
                    &&& result matches Err(message) && message@ == clash_message(
                        layer_index,
                        budget::first_clash(budget::renamed_all(room.charges, from, to))->0,
                    )
                    &&& final(self)@.entries == room.entries
                    &&& final(budget)@.charges == budget::without_prefix(room.charges, from)
                } else {
                    &&& result == Ok::<InsertOutcome<T>, String>(
                        InsertOutcome::Cached { evictions: room.done as usize },
                    )
                    &&& room.done <= usize::MAX
                    &&& final(self)@.entries == seq![
                        new_entry(layer_index, value, bytes, room.charges),
                    ] + room.entries
                    &&& final(budget)@.charges == budget::renamed_all(room.charges, from, to)
                }
            }),
    {
        if bytes == 0 || bytes > self.capacity_bytes {
            return Ok(InsertOutcome::Skipped { value, evictions: 0 });
        }
        let active = layer_prefix("layer:", layer_index);
        if budget.bytes_with_prefix(active.as_str()) != bytes {
            return Ok(InsertOutcome::Skipped { value, evictions: 0 });
        }
        let ghost all = self@.entries;
        let ghost charges = budget@.charges;
        let count: usize = self.entries.len();
        let had = self.evict_layer(layer_index, budget)?;
        let ghost kept = self@.entries;
        let ghost left = budget@.charges;
        let ghost capacity = self@.capacity_bytes;
        proof {
            lemma_fit_count(kept, capacity, bytes);
            lemma_evicted_shape(kept, left, fit_count(kept, capacity, bytes));
            lemma_place(all, layer_index);
        }
        let mut evictions: usize = self.evict_to_fit(budget, bytes)?;
        let ghost room = room_made(old(self)@, charges, layer_index, bytes);
        assert(room.entries == self@.entries);
        if had {
            evictions = evictions + 1;
        }
        let new_used_bytes: u64 = match self.used_bytes.checked_add(bytes) {
            Some(sum) => sum,
            None => {
                return Err("layer cache byte accounting overflow".to_owned());
            },
        };
        let cached = layer_prefix("cache:layer:", layer_index);
        let charge_names = match budget.rename_prefix(active.as_str(), cached.as_str()) {
            Ok(names) => names,
            Err(error) => {
                budget.release_prefix(active.as_str());
                let mut message = "failed to convert layer ".to_owned();
                text::push_decimal(&mut message, layer_index as u64);
                message.append(" charges to cache residency: ");
                message.append(error.message().as_str());
                return Err(message);
            },
        };
        let ghost before = self@.entries;
        self.used_bytes = new_used_bytes;
        let entry = CacheEntry { layer_index, value, bytes, charge_names };
        let ghost content = entry.facts();
        self.entries.insert(0, entry);
        proof {
            assert(self@.entries =~= seq![content] + before);
            lemma_total_front(before, content);
            lemma_moved_names(
                room.charges,
                active_prefix(layer_index),
                cache_prefix(layer_index),
            );
            lemma_place(kept, layer_index);
            assert(content.charge_names.no_duplicates());
            lemma_front_valid(kept, before, content);
        }
        Ok(InsertOutcome::Cached { evictions })
    }
}

proof fn lemma_front_valid<T>(
    kept: Seq<EntryFacts<T>>,
    entries: Seq<EntryFacts<T>>,
    entry: EntryFacts<T>,
)
    requires
        !holds_layer(kept, entry.layer_index),
        entries.len() <= kept.len(),
        entries == kept.take(entries.len() as int),
        forall|i: int, j: int|
            0 <= i < j < entries.len() ==> (#[trigger] entries[i]).layer_index != (
            #[trigger] entries[j]).layer_index,
        forall|i: int|
            0 <= i < entries.len() ==> (#[trigger] entries[i]).charge_names.no_duplicates(),
        entry.charge_names.no_duplicates(),
    ensures
        ({
            let grown = seq![entry] + entries;
            &&& forall|i: int, j: int|
                0 <= i < j < grown.len() ==> (#[trigger] grown[i]).layer_index != (
                #[trigger] grown[j]).layer_index
            &&& forall|i: int|
                0 <= i < grown.len() ==> (#[trigger] grown[i]).charge_names.no_duplicates()
        }),
{
    let grown = seq![entry] + entries;
    lemma_place(kept, entry.layer_index);
    assert forall|i: int| 1 <= i < grown.len() implies #[trigger] grown[i] == entries[i - 1]
        && entries[i - 1].layer_index != entry.layer_index by {
        assert(entries[i - 1] == kept[i - 1]);
    }
}

// ---------------------------------------------------------------------------
// Accounting
// ---------------------------------------------------------------------------
/// The bytes charged under the names.
pub open spec fn names_bytes(charges: Seq<budget::ChargeFacts>, names: Seq<Seq<char>>) -> int
    decreases names.len(),
{
    if names.len() == 0 {
        0
    } else {
        names_bytes(charges, names.drop_last()) + match budget::charge_of(charges, names.last()) {
            Some(bytes) => bytes as int,
            None => 0,
        }
    }
}

/// The charges of an entry: all there, all the cache's own, and worth its bytes.
pub open spec fn entry_backed<T>(
    entry: EntryFacts<T>,
    charges: Seq<budget::ChargeFacts>,
) -> bool {
    &&& first_missing(charges, entry.charge_names) is None
    &&& names_bytes(charges, entry.charge_names) == entry.bytes
    &&& entry.charge_names.no_duplicates()
    &&& forall|k: int|
        0 <= k < entry.charge_names.len() ==> text::has_prefix(
            #[trigger] entry.charge_names[k],
            "cache:"@,
        )
}

/// Every entry has its charges, and no two entries share one.
pub open spec fn backed<T>(entries: Seq<EntryFacts<T>>, charges: Seq<budget::ChargeFacts>) -> bool {
    &&& budget::names_distinct(charges)
    &&& forall|i: int| 0 <= i < entries.len() ==> entry_backed(#[trigger] entries[i], charges)
    &&& forall|i: int, j: int, k: int|
        0 <= i < entries.len() && 0 <= j < entries.len() && i != j && 0 <= k < (
        #[trigger] entries[i]).charge_names.len() ==> !(
        #[trigger] entries[j]).charge_names.contains(#[trigger] entries[i].charge_names[k])
}

/// Names that keep their charges are worth the same.
proof fn lemma_names_bytes_same(
    before: Seq<budget::ChargeFacts>,
    after: Seq<budget::ChargeFacts>,
    names: Seq<Seq<char>>,
)
    requires
        forall|k: int|
            0 <= k < names.len() ==> budget::charge_of(after, #[trigger] names[k])
                == budget::charge_of(before, names[k]),
        first_missing(before, names) is None,
    ensures
        names_bytes(after, names) == names_bytes(before, names),
        first_missing(after, names) is None,
    decreases names.len(),
{
    if names.len() > 0 {
        let shorter = names.drop_last();
        assert forall|k: int| 0 <= k < shorter.len() implies budget::charge_of(
            after,
            #[trigger] shorter[k],
        ) == budget::charge_of(before, shorter[k]) by {
            assert(shorter[k] == names[k]);
        }
        lemma_names_bytes_same(before, after, shorter);
        let last = names[names.len() - 1];
        assert(budget::charge_of(after, last) == budget::charge_of(before, last));
    }
}

/// Releasing names lowers the sum by what they are worth.
proof fn lemma_released_sum(charges: Seq<budget::ChargeFacts>, names: Seq<Seq<char>>)
    requires
        budget::names_distinct(charges),
        names.no_duplicates(),
        first_missing(charges, names) is None,
    ensures
        budget::charged(released(charges, names)) == budget::charged(charges) - names_bytes(
            charges,
            names,
        ),
    decreases names.len(),
{
    if names.len() > 0 {
        let shorter = names.drop_last();
        let last = names.last();
        assert forall|i: int, j: int|
            0 <= i < shorter.len() && 0 <= j < shorter.len() && i != j implies shorter[i]
            != shorter[j] by {
            assert(shorter[i] == names[i] && shorter[j] == names[j]);
        }
        lemma_released_sum(charges, shorter);
        assert(!shorter.contains(last)) by {
            if shorter.contains(last) {
                let k = shorter.index_of(last);
                assert(names[k] == names[names.len() - 1]);
            }
        }
        lemma_released_keeps(charges, shorter, last);
        let freed = released(charges, shorter);
        budget::lemma_charge_position(freed, last);
        budget::lemma_charged_remove(freed, budget::charge_position(freed, last));
    }
}

/// Giving up one entry keeps the others backed, and frees exactly its bytes.
proof fn lemma_give_up_backed<T>(
    entries: Seq<EntryFacts<T>>,
    charges: Seq<budget::ChargeFacts>,
    at: int,
)
    requires
        backed(entries, charges),
        0 <= at < entries.len(),
    ensures
        backed(entries.remove(at), released(charges, entries[at].charge_names)),
        budget::charged(released(charges, entries[at].charge_names)) == budget::charged(charges)
            - entries[at].bytes,
{
    let names = entries[at].charge_names;
    let freed = released(charges, names);
    let rest = entries.remove(at);
    assert(entry_backed(entries[at], charges));
    lemma_released_sum(charges, names);
    lemma_released_distinct(charges, names);
    assert forall|i: int| 0 <= i < rest.len() implies entry_backed(#[trigger] rest[i], freed) by {
        let j = if i < at {
            i
        } else {
            i + 1
        };
        assert(rest[i] == entries[j]);
        assert(entry_backed(entries[j], charges));
        assert forall|k: int| 0 <= k < rest[i].charge_names.len() implies budget::charge_of(
            freed,
            #[trigger] rest[i].charge_names[k],
        ) == budget::charge_of(charges, rest[i].charge_names[k]) by {
            assert(!entries[at].charge_names.contains(entries[j].charge_names[k]));
            lemma_released_keeps(charges, names, rest[i].charge_names[k]);
        }
        lemma_names_bytes_same(charges, freed, rest[i].charge_names);
    }
    assert forall|i: int, j: int, k: int|
        0 <= i < rest.len() && 0 <= j < rest.len() && i != j && 0 <= k < (
        #[trigger] rest[i]).charge_names.len() implies !(
    #[trigger] rest[j]).charge_names.contains(#[trigger] rest[i].charge_names[k]) by {
        let a = if i < at {
            i
        } else {
            i + 1
        };
        let b = if j < at {
            j
        } else {
            j + 1
        };
        assert(rest[i] == entries[a] && rest[j] == entries[b]);
        assert(!entries[b].charge_names.contains(entries[a].charge_names[k]));
    }
}

/// Evicting from a backed cache never fails, keeps it backed and frees exactly the
/// bytes of the entries that go.
pub proof fn lemma_evicted_backed<T>(
    entries: Seq<EntryFacts<T>>,
    charges: Seq<budget::ChargeFacts>,
    count: nat,
)
    requires
        backed(entries, charges),
    ensures
        ({
            let gone = evicted(entries, charges, count);
            &&& gone.missing is None
            &&& backed(gone.entries, gone.charges)
            &&& budget::charged(gone.charges) == budget::charged(charges) - (total_bytes(entries)
                - total_bytes(gone.entries))
        }),
    decreases count,
{
    if count > 0 && entries.len() > 0 {
        let last = entries.len() - 1;
        assert(entry_backed(entries[last], charges));
        lemma_give_up_backed(entries, charges, last);
        assert(entries.remove(last) =~= entries.drop_last());
        lemma_evicted_backed(
            entries.drop_last(),
            released(charges, entries.last().charge_names),
            (count - 1) as nat,
        );
    }
}

/// Making room in a backed cache never fails and keeps it backed.
pub proof fn lemma_room_backed<T>(
    cache: CacheFacts<T>,
    charges: Seq<budget::ChargeFacts>,
    layer_index: usize,
    bytes: u64,
)
    requires
        backed(cache.entries, charges),
    ensures
        stale_charge(cache.entries, charges, layer_index) is None,
        room_made(cache, charges, layer_index, bytes).missing is None,
        ({
            let room = room_made(cache, charges, layer_index, bytes);
            backed(room.entries, room.charges)
        }),
{
    lemma_place(cache.entries, layer_index);
    if holds_layer(cache.entries, layer_index) {
        let at = place_of(cache.entries, layer_index);
        assert(entry_backed(cache.entries[at], charges));
        lemma_give_up_backed(cache.entries, charges, at);
    }
    let (entries, left, given) = given_up(cache.entries, charges, layer_index);
    lemma_evicted_backed(entries, left, fit_count(entries, cache.capacity_bytes, bytes));
}

proof fn lemma_prefixes(layer_index: usize, name: Seq<char>)
    ensures
        text::has_prefix(name, "cache:"@) ==> !text::has_prefix(name, active_prefix(layer_index)),
        text::has_prefix(name, cache_prefix(layer_index)) ==> text::has_prefix(name, "cache:"@),
{
    reveal_strlit("cache:");
    reveal_strlit("layer:");
    reveal_strlit("cache:layer:");
    let active = active_prefix(layer_index);
    assert(active[0] == 'l');
    assert("cache:"@[0] == 'c');
    if text::has_prefix(name, "cache:"@) && text::has_prefix(name, active) {
        assert(name.subrange(0, "cache:"@.len() as int)[0] == name[0]);
        assert(name.subrange(0, active.len() as int)[0] == name[0]);
    }
    let cached = cache_prefix(layer_index);
    if text::has_prefix(name, cached) {
        assert(name.subrange(0, cached.len() as int) == cached);
        assert(name.subrange(0, 6) =~= cached.subrange(0, 6));
        assert(cached.subrange(0, 6) =~= "cache:"@);
    }
}

/// Releasing names outside a prefix keeps what is charged under the prefix.
proof fn lemma_released_prefix(
    charges: Seq<budget::ChargeFacts>,
    names: Seq<Seq<char>>,
    prefix: Seq<char>,
)
    requires
        forall|k: int| 0 <= k < names.len() ==> !text::has_prefix(#[trigger] names[k], prefix),
    ensures
        budget::charged_with_prefix(released(charges, names), prefix)
            == budget::charged_with_prefix(charges, prefix),
    decreases names.len(),
{
    if names.len() > 0 {
        let shorter = names.drop_last();
        assert forall|k: int| 0 <= k < shorter.len() implies !text::has_prefix(
            #[trigger] shorter[k],
            prefix,
        ) by {
            assert(shorter[k] == names[k]);
        }
        lemma_released_prefix(charges, shorter, prefix);
        let freed = released(charges, shorter);
        let last = names[names.len() - 1];
        budget::lemma_charge_position(freed, last);
        if budget::has_charge(freed, last) {
            lemma_removed_prefix(freed, budget::charge_position(freed, last), prefix);
        }
    }
}

proof fn lemma_removed_prefix(charges: Seq<budget::ChargeFacts>, at: int, prefix: Seq<char>)
    requires
        0 <= at < charges.len(),
        !text::has_prefix(charges[at].name, prefix),
    ensures
        budget::charged_with_prefix(charges.remove(at), prefix) == budget::charged_with_prefix(
            charges,
            prefix,
        ),
    decreases charges.len(),
{
    if at == charges.len() - 1 {
        assert(charges.remove(at) =~= charges.drop_last());
    } else {
        lemma_removed_prefix(charges.drop_last(), at, prefix);
        assert(charges.remove(at).drop_last() =~= charges.drop_last().remove(at));
        assert(charges.remove(at).last() == charges.last());
    }
}

proof fn lemma_evicted_prefix<T>(
    entries: Seq<EntryFacts<T>>,
    charges: Seq<budget::ChargeFacts>,
    count: nat,
    layer_index: usize,
)
    requires
        backed(entries, charges),
    ensures
        budget::charged_with_prefix(
            evicted(entries, charges, count).charges,
            active_prefix(layer_index),
        ) == budget::charged_with_prefix(charges, active_prefix(layer_index)),
    decreases count,
{
    if count > 0 && entries.len() > 0 {
        let last = entries.len() - 1;
        assert(entry_backed(entries[last], charges));
        lemma_give_up_prefix(entries, charges, last, layer_index);
        lemma_give_up_backed(entries, charges, last);
        assert(entries.remove(last) =~= entries.drop_last());
        lemma_evicted_prefix(
            entries.drop_last(),
            released(charges, entries.last().charge_names),
            (count - 1) as nat,
            layer_index,
        );
    }
}

proof fn lemma_give_up_prefix<T>(
    entries: Seq<EntryFacts<T>>,
    charges: Seq<budget::ChargeFacts>,
    at: int,
    layer_index: usize,
)
    requires
        backed(entries, charges),
        0 <= at < entries.len(),
    ensures
        budget::charged_with_prefix(
            released(charges, entries[at].charge_names),
            active_prefix(layer_index),
        ) == budget::charged_with_prefix(charges, active_prefix(layer_index)),
{
    let names = entries[at].charge_names;
    assert(entry_backed(entries[at], charges));
    assert forall|k: int| 0 <= k < names.len() implies !text::has_prefix(
        #[trigger] names[k],
        active_prefix(layer_index),
    ) by {
        lemma_prefixes(layer_index, names[k]);
    }
    lemma_released_prefix(charges, names, active_prefix(layer_index));
}

/// A charge that does not move is found under its name as before.
proof fn lemma_renamed_keeps(
    charges: Seq<budget::ChargeFacts>,
    from: Seq<char>,
    to: Seq<char>,
    name: Seq<char>,
)
    requires
        budget::names_distinct(budget::renamed_all(charges, from, to)),
        !text::has_prefix(name, from),
        budget::has_charge(charges, name),
    ensures
        budget::charge_of(budget::renamed_all(charges, from, to), name) == budget::charge_of(charges, name),
{
    let target = budget::renamed_all(charges, from, to);
    budget::lemma_charge_position(charges, name);
    let at = budget::charge_position(charges, name);
    assert(target[at] == charges[at]);
    budget::lemma_charge_at(target, at);
    budget::lemma_charge_position(target, name);
}

/// The moved charges are worth what was charged under the old prefix.
proof fn lemma_moved_worth(
    all: Seq<budget::ChargeFacts>,
    upto: int,
    from: Seq<char>,
    to: Seq<char>,
)
    requires
        0 <= upto <= all.len(),
        budget::names_distinct(budget::renamed_all(all, from, to)),
    ensures
        first_missing(
            budget::renamed_all(all, from, to),
            budget::moved_names(all.take(upto), from, to),
        ) is None,
        names_bytes(budget::renamed_all(all, from, to), budget::moved_names(all.take(upto), from, to))
            == budget::charged_with_prefix(all.take(upto), from),
    decreases upto,
{
    let target = budget::renamed_all(all, from, to);
    if upto > 0 {
        lemma_moved_worth(all, upto - 1, from, to);
        let part = all.take(upto);
        assert(part.drop_last() =~= all.take(upto - 1));
        assert(part.last() == all[upto - 1]);
        if text::has_prefix(all[upto - 1].name, from) {
            let names = budget::moved_names(part, from, to);
            assert(names.drop_last() =~= budget::moved_names(all.take(upto - 1), from, to));
            assert(names.last() == target[upto - 1].name);
            budget::lemma_charge_at(target, upto - 1);
            assert(target[upto - 1].bytes == all[upto - 1].bytes);
        }
    }
}

/// Caching a layer keeps the cache backed: the cache's entries are always worth
/// what is charged for them, and no charge is lost or counted twice.
pub proof fn lemma_insert_backed<T>(
    cache: CacheFacts<T>,
    charges: Seq<budget::ChargeFacts>,
    layer_index: usize,
    value: T,
    bytes: u64,
)
    requires
        backed(cache.entries, charges),
        cacheable(cache.capacity_bytes, charges, layer_index, bytes),
        budget::names_distinct(
            budget::renamed_all(
                room_made(cache, charges, layer_index, bytes).charges,
                active_prefix(layer_index),
                cache_prefix(layer_index),
            ),
        ),
    ensures
        ({
            let room = room_made(cache, charges, layer_index, bytes);
            let entry = new_entry(layer_index, value, bytes, room.charges);
            backed(
                seq![entry] + room.entries,
                budget::renamed_all(
                    room.charges,
                    active_prefix(layer_index),
                    cache_prefix(layer_index),
                ),
            )
        }),
{
    let from = active_prefix(layer_index);
    let to = cache_prefix(layer_index);
    let room = room_made(cache, charges, layer_index, bytes);
    let entry = new_entry(layer_index, value, bytes, room.charges);
    let target = budget::renamed_all(room.charges, from, to);
    let grown = seq![entry] + room.entries;
    lemma_room_backed(cache, charges, layer_index, bytes);
    lemma_place(cache.entries, layer_index);
    let (kept, left, given) = given_up(cache.entries, charges, layer_index);
    if holds_layer(cache.entries, layer_index) {
        let at = place_of(cache.entries, layer_index);
        lemma_give_up_prefix(cache.entries, charges, at, layer_index);
        lemma_give_up_backed(cache.entries, charges, at);
    }
    lemma_evicted_prefix(
        kept,
        left,
        fit_count(kept, cache.capacity_bytes, bytes),
        layer_index,
    );
    assert(budget::charged_with_prefix(room.charges, from) == bytes);
    assert(room.charges.take(room.charges.len() as int) =~= room.charges);
    lemma_moved_worth(room.charges, room.charges.len() as int, from, to);
    lemma_moved_names(room.charges, from, to);
    assert forall|k: int| 0 <= k < entry.charge_names.len() implies text::has_prefix(
        #[trigger] entry.charge_names[k],
        "cache:"@,
    ) by {
        assert(moves_to(room.charges, from, to, entry.charge_names[k]));
        let name = entry.charge_names[k];
        assert(name.subrange(0, to.len() as int) =~= to);
        lemma_prefixes(layer_index, name);
    }
    assert(entry_backed(entry, target));
    assert forall|i: int| 0 <= i < grown.len() implies entry_backed(#[trigger] grown[i], target) by {
        if i > 0 {
            let other = room.entries[i - 1];
            assert(grown[i] == other);
            assert(entry_backed(other, room.charges));
            assert forall|k: int| 0 <= k < other.charge_names.len() implies budget::charge_of(
                target,
                #[trigger] other.charge_names[k],
            ) == budget::charge_of(room.charges, other.charge_names[k]) by {
                lemma_prefixes(layer_index, other.charge_names[k]);
                lemma_none_missing(room.charges, other.charge_names);
                lemma_renamed_keeps(room.charges, from, to, other.charge_names[k]);
            }
            lemma_names_bytes_same(room.charges, target, other.charge_names);
        }
    }
    assert forall|i: int, j: int, k: int|
        0 <= i < grown.len() && 0 <= j < grown.len() && i != j && 0 <= k < (
        #[trigger] grown[i]).charge_names.len() implies !(
    #[trigger] grown[j]).charge_names.contains(#[trigger] grown[i].charge_names[k]) by {
        if i > 0 && j > 0 {
            assert(grown[i] == room.entries[i - 1] && grown[j] == room.entries[j - 1]);
            assert(!room.entries[j - 1].charge_names.contains(room.entries[i - 1].charge_names[k]));
        } else if i == 0 {
            lemma_new_names_apart(room.charges, room.entries[j - 1], layer_index);
            assert(grown[j] == room.entries[j - 1]);
            assert(grown[i].charge_names[k] == entry.charge_names[k]);
        } else {
            lemma_new_names_apart(room.charges, room.entries[i - 1], layer_index);
            assert(grown[i] == room.entries[i - 1]);
            if entry.charge_names.contains(grown[i].charge_names[k]) {
                let m = entry.charge_names.index_of(grown[i].charge_names[k]);
                assert(room.entries[i - 1].charge_names.contains(entry.charge_names[m]));
            }
        }
    }
}

/// The new names are none of those that another entry has.
proof fn lemma_new_names_apart<T>(
    charges: Seq<budget::ChargeFacts>,
    other: EntryFacts<T>,
    layer_index: usize,
)
    requires
        entry_backed(other, charges),
        budget::names_distinct(
            budget::renamed_all(charges, active_prefix(layer_index), cache_prefix(layer_index)),
        ),
    ensures
        ({
            let names = budget::moved_names(
                charges,
                active_prefix(layer_index),
                cache_prefix(layer_index),
            );
            forall|k: int|
                0 <= k < names.len() ==> !other.charge_names.contains(#[trigger] names[k])
        }),
{
    let from = active_prefix(layer_index);
    let to = cache_prefix(layer_index);
    let names = budget::moved_names(charges, from, to);
    let target = budget::renamed_all(charges, from, to);
    lemma_moved_names(charges, from, to);
    assert forall|k: int| 0 <= k < names.len() implies !other.charge_names.contains(
        #[trigger] names[k],
    ) by {
        if other.charge_names.contains(names[k]) {
            assert(moves_to(charges, from, to, names[k]));
            let j = choose|j: int|
                0 <= j < charges.len() && text::has_prefix((#[trigger] charges[j]).name, from)
                    && budget::renamed(charges[j], from, to).name == names[k];
            let m = other.charge_names.index_of(names[k]);
            assert(other.charge_names[m] == names[k]);
            lemma_none_missing(charges, other.charge_names);
            budget::lemma_charge_position(charges, names[k]);
            let p = budget::charge_position(charges, names[k]);
            lemma_prefixes(layer_index, names[k]);
            assert(target[p] == charges[p]);
            assert(target[j].name == names[k]);
            assert(p != j);
        }
    }
}

/// Changing charges that are not the cache's own keeps the cache backed.
pub proof fn lemma_backed_elsewhere<T>(
    entries: Seq<EntryFacts<T>>,
    before: Seq<budget::ChargeFacts>,
    after: Seq<budget::ChargeFacts>,
)
    requires
        backed(entries, before),
        budget::names_distinct(after),
        forall|name: Seq<char>|
            text::has_prefix(name, "cache:"@) ==> #[trigger] budget::charge_of(after, name)
                == budget::charge_of(before, name),
    ensures
        backed(entries, after),
{
    assert forall|i: int| 0 <= i < entries.len() implies entry_backed(#[trigger] entries[i], after)
        by {
        let names = entries[i].charge_names;
        assert(entry_backed(entries[i], before));
        assert forall|k: int| 0 <= k < names.len() implies budget::charge_of(
            after,
            #[trigger] names[k],
        ) == budget::charge_of(before, names[k]) by {
            assert(text::has_prefix(names[k], "cache:"@));
        }
        lemma_names_bytes_same(before, after, names);
    }
}

/// Evicting from a backed cache keeps every charge that is not the cache's own.
pub proof fn lemma_evicted_elsewhere<T>(
    entries: Seq<EntryFacts<T>>,
    charges: Seq<budget::ChargeFacts>,
    count: nat,
    name: Seq<char>,
)
    requires
        backed(entries, charges),
        !text::has_prefix(name, "cache:"@),
    ensures
        budget::charge_of(evicted(entries, charges, count).charges, name) == budget::charge_of(
            charges,
            name,
        ),
    decreases count,
{
    if count > 0 && entries.len() > 0 {
        let last = entries.len() - 1;
        let names = entries[last].charge_names;
        assert(entry_backed(entries[last], charges));
        assert(!names.contains(name)) by {
            if names.contains(name) {
                let k = names.index_of(name);
                assert(text::has_prefix(names[k], "cache:"@));
            }
        }
        lemma_released_keeps(charges, names, name);
        lemma_give_up_backed(entries, charges, last);
        assert(entries.remove(last) =~= entries.drop_last());
        lemma_evicted_elsewhere(
            entries.drop_last(),
            released(charges, names),
            (count - 1) as nat,
            name,
        );
    }
}

/// Releasing a name that is gone keeps the same charges.
pub proof fn lemma_kept_without(
    charges: Seq<budget::ChargeFacts>,
    name: Seq<char>,
    gone: spec_fn(Seq<char>) -> bool,
)
    requires
        gone(name),
    ensures
        budget::kept_charges(without_charge(charges, name), gone) == budget::kept_charges(
            charges,
            gone,
        ),
{
    if budget::has_charge(charges, name) {
        budget::lemma_charge_position(charges, name);
        budget::lemma_kept_remove(charges, budget::charge_position(charges, name), gone);
    }
}

proof fn lemma_kept_released(
    charges: Seq<budget::ChargeFacts>,
    names: Seq<Seq<char>>,
    gone: spec_fn(Seq<char>) -> bool,
)
    requires
        forall|k: int| 0 <= k < names.len() ==> gone(#[trigger] names[k]),
    ensures
        budget::kept_charges(released(charges, names), gone) == budget::kept_charges(charges, gone),
    decreases names.len(),
{
    if names.len() > 0 {
        let shorter = names.drop_last();
        assert forall|k: int| 0 <= k < shorter.len() implies gone(#[trigger] shorter[k]) by {
            assert(shorter[k] == names[k]);
        }
        lemma_kept_released(charges, shorter, gone);
        assert(gone(names[names.len() - 1]));
        lemma_kept_without(released(charges, shorter), names.last(), gone);
    }
}

/// Evicting releases the cache's own charges only.
pub proof fn lemma_kept_evicted<T>(
    entries: Seq<EntryFacts<T>>,
    charges: Seq<budget::ChargeFacts>,
    count: nat,
    gone: spec_fn(Seq<char>) -> bool,
)
    requires
        backed(entries, charges),
        forall|name: Seq<char>| text::has_prefix(name, "cache:"@) ==> #[trigger] gone(name),
    ensures
        budget::kept_charges(evicted(entries, charges, count).charges, gone)
            == budget::kept_charges(charges, gone),
    decreases count,
{
    if count > 0 && entries.len() > 0 {
        let last = entries.len() - 1;
        let names = entries[last].charge_names;
        assert(entry_backed(entries[last], charges));
        assert forall|k: int| 0 <= k < names.len() implies gone(#[trigger] names[k]) by {
            assert(text::has_prefix(names[k], "cache:"@));
        }
        lemma_kept_released(charges, names, gone);
        lemma_give_up_backed(entries, charges, last);
        assert(entries.remove(last) =~= entries.drop_last());
        lemma_kept_evicted(
            entries.drop_last(),
            released(charges, names),
            (count - 1) as nat,
            gone,
        );
    }
}

/// Caching a loaded layer moves and releases charges of layers and of the cache
/// only, whatever comes of it.
pub proof fn lemma_kept_inserted<T>(
    cache: CacheFacts<T>,
    charges: Seq<budget::ChargeFacts>,
    layer_index: usize,
    bytes: u64,
    gone: spec_fn(Seq<char>) -> bool,
)
    requires
        backed(cache.entries, charges),
        forall|name: Seq<char>| text::has_prefix(name, "cache:"@) ==> #[trigger] gone(name),
        forall|name: Seq<char>| text::has_prefix(name, "layer:"@) ==> #[trigger] gone(name),
    ensures
        ({
            let from = active_prefix(layer_index);
            let to = cache_prefix(layer_index);
            let room = room_made(cache, charges, layer_index, bytes).charges;
            let kept = budget::kept_charges(charges, gone);
            &&& budget::kept_charges(room, gone) == kept
            &&& budget::kept_charges(budget::renamed_all(room, from, to), gone) == kept
            &&& budget::kept_charges(budget::without_prefix(room, from), gone) == kept
        }),
{
    let from = active_prefix(layer_index);
    let to = cache_prefix(layer_index);
    let room = room_made(cache, charges, layer_index, bytes).charges;
    lemma_place(cache.entries, layer_index);
    if holds_layer(cache.entries, layer_index) {
        let at = place_of(cache.entries, layer_index);
        let names = cache.entries[at].charge_names;
        assert(entry_backed(cache.entries[at], charges));
        assert forall|k: int| 0 <= k < names.len() implies gone(#[trigger] names[k]) by {
            assert(text::has_prefix(names[k], "cache:"@));
        }
        lemma_kept_released(charges, names, gone);
        lemma_give_up_backed(cache.entries, charges, at);
    }
    let (entries, left, given) = given_up(cache.entries, charges, layer_index);
    lemma_kept_evicted(entries, left, fit_count(entries, cache.capacity_bytes, bytes), gone);
    assert forall|name: Seq<char>| text::has_prefix(name, from) implies #[trigger] gone(name) by {
        assert(name.subrange(0, from.len() as int) == from);
        assert(name.subrange(0, "layer:"@.len() as int) =~= from.subrange(
            0,
            "layer:"@.len() as int,
        ));
        assert(from.subrange(0, "layer:"@.len() as int) =~= "layer:"@);
    }
    assert forall|name: Seq<char>| text::has_prefix(name, to) implies #[trigger] gone(name) by {
        lemma_prefixes(layer_index, name);
    }
    budget::lemma_kept_renamed(room, from, to, gone);
    budget::lemma_kept_prefix(room, from);
    let begins = |name: Seq<char>| text::has_prefix(name, from);
    assert forall|name: Seq<char>| #[trigger] gone(name) == (begins(name) || gone(name)) by {}
    budget::lemma_kept_twice(room, begins, gone, gone);
}

/// Releasing a charge leaves none of that name.
pub proof fn lemma_without_gone(charges: Seq<budget::ChargeFacts>, name: Seq<char>)
    requires
        budget::names_distinct(charges),
    ensures
        budget::names_distinct(without_charge(charges, name)),
        !budget::has_charge(without_charge(charges, name), name),
{
    lemma_without_distinct(charges, name);
    budget::lemma_charge_position(charges, name);
    let rest = without_charge(charges, name);
    budget::lemma_charge_position(rest, name);
    if budget::has_charge(charges, name) && budget::has_charge(rest, name) {
        let at = budget::charge_position(charges, name);
        let k = budget::charge_position(rest, name);
        let back = if k < at {
            k
        } else {
            k + 1
        };
        assert(rest[k] == charges[back]);
        budget::lemma_charge_at(charges, back);
    }
}

/// Evicting from a backed cache never raises the sum of the charges.
pub proof fn lemma_evicted_shrinks<T>(
    entries: Seq<EntryFacts<T>>,
    charges: Seq<budget::ChargeFacts>,
    count: nat,
)
    requires
        backed(entries, charges),
    ensures
        0 <= budget::charged(evicted(entries, charges, count).charges) <= budget::charged(charges),
    decreases count,
{
    budget::lemma_charged_nonnegative(charges);
    if count > 0 && entries.len() > 0 {
        let last = entries.len() - 1;
        assert(entry_backed(entries[last], charges));
        lemma_give_up_backed(entries, charges, last);
        assert(entries.remove(last) =~= entries.drop_last());
        lemma_evicted_shrinks(
            entries.drop_last(),
            released(charges, entries[last].charge_names),
            (count - 1) as nat,
        );
    }
}

/// Eviction takes the entries from the back, the least recently used first, as
/// many as asked for, and leaves the others in their order.
pub proof fn lemma_eviction_order<T>(
    entries: Seq<EntryFacts<T>>,
    charges: Seq<budget::ChargeFacts>,
    count: nat,
)
    requires
        backed(entries, charges),
    ensures
        ({
            let gone = evicted(entries, charges, count);
            let left = if count <= entries.len() {
                entries.len() - count
            } else {
                0
            };
            &&& gone.entries == entries.take(left)
            &&& gone.done == entries.len() - left
            &&& gone.missing is None
        }),
    decreases count,
{
    lemma_evicted_backed(entries, charges, count);
    if count > 0 && entries.len() > 0 {
        let shorter = entries.drop_last();
        let rest = released(charges, entries.last().charge_names);
        lemma_evicted_backed(entries, charges, 1);
        assert(evicted(shorter, rest, 0).entries == shorter);
        assert(first_missing(charges, entries.last().charge_names) is None) by {
            assert(entry_backed(entries[entries.len() - 1], charges));
        }
        assert(backed(shorter, rest)) by {
            assert(evicted(entries, charges, 1).entries == shorter);
            assert(evicted(entries, charges, 1).charges == rest);
        }
        lemma_eviction_order(shorter, rest, (count - 1) as nat);
        if count <= entries.len() {
            assert(shorter.take(entries.len() - count) =~= entries.take(entries.len() - count));
        } else {
            assert(shorter.take(0) =~= entries.take(0));
        }
    } else {
        assert(entries.take(entries.len() as int) =~= entries);
    }
}

/// A cache gives up as few entries as make a new one fit its capacity: what is left
/// fits beside it or nothing is left, and with one entry more it would not fit.
pub proof fn lemma_fewest_for_capacity<T>(
    entries: Seq<EntryFacts<T>>,
    capacity: u64,
    bytes: u64,
)
    requires
        capacity < u64::MAX,
    ensures
        ({
            let count = fit_count(entries, capacity, bytes) as int;
            let left = entries.len() - count;
            &&& 0 <= left <= entries.len()
            &&& left == 0 || total_bytes(entries.take(left)) + bytes <= capacity
            &&& count > 0 ==> total_bytes(entries.take(left + 1)) + bytes > capacity
        }),
    decreases entries.len(),
{
    assert(entries.take(entries.len() as int) =~= entries);
    if entries.len() > 0 && !fits(entries, capacity, bytes) {
        let shorter = entries.drop_last();
        lemma_fewest_for_capacity(shorter, capacity, bytes);
        let count = fit_count(shorter, capacity, bytes) as int;
        let left = shorter.len() - count;
        assert(shorter.take(left) =~= entries.take(left));
        if count > 0 {
            assert(shorter.take(left + 1) =~= entries.take(left + 1));
        }
    }
}

/// A cache gives up as few entries as free what is required of the budget: after
/// that it is there or the cache is empty, and with one eviction less it would not
/// be there.
pub proof fn lemma_fewest_for_budget<T>(
    entries: Seq<EntryFacts<T>>,
    charges: Seq<budget::ChargeFacts>,
    total: u64,
    required: u64,
)
    requires
        backed(entries, charges),
    ensures
        ({
            let count = headroom_count(entries, charges, total, required);
            let after = evicted(entries, charges, count);
            &&& count <= entries.len()
            &&& after.entries.len() == 0 || budget::charged(after.charges) + required <= total
            &&& count > 0 ==> budget::charged(
                evicted(entries, charges, (count - 1) as nat).charges,
            ) + required > total
        }),
    decreases entries.len(),
{
    if entries.len() > 0 && budget::charged(charges) + required > total {
        let shorter = entries.drop_last();
        let rest = released(charges, entries.last().charge_names);
        lemma_evicted_backed(entries, charges, 1);
        assert(evicted(shorter, rest, 0).entries == shorter);
        assert(first_missing(charges, entries.last().charge_names) is None) by {
            assert(entry_backed(entries[entries.len() - 1], charges));
        }
        assert(backed(shorter, rest)) by {
            assert(evicted(entries, charges, 1).entries == shorter);
            assert(evicted(entries, charges, 1).charges == rest);
        }
        lemma_fewest_for_budget(shorter, rest, total, required);
        let inner = headroom_count(shorter, rest, total, required);
        assert(headroom_count(entries, charges, total, required) == inner + 1);
        assert(evicted(entries, charges, inner + 1).charges == evicted(shorter, rest, inner).charges);
        if inner > 0 {
            assert(evicted(entries, charges, inner).charges == evicted(
                shorter,
                rest,
                (inner - 1) as nat,
            ).charges);
        } else {
            assert(evicted(entries, charges, 0).charges == charges);
        }
    }
}

/// A layer is found at its first entry, and is held exactly where an entry has its
/// number.
pub proof fn lemma_layer_found<T>(entries: Seq<EntryFacts<T>>, layer_index: usize)
    ensures
        0 <= place_of(entries, layer_index) <= entries.len(),
        holds_layer(entries, layer_index) <==> exists|i: int|
            0 <= i < entries.len() && (#[trigger] entries[i]).layer_index == layer_index,
        holds_layer(entries, layer_index) ==> entries[place_of(entries, layer_index)].layer_index
            == layer_index,
        forall|i: int|
            0 <= i < place_of(entries, layer_index) ==> (#[trigger] entries[i]).layer_index
                != layer_index,
    decreases entries.len(),
{
    if entries.len() > 0 && entries[0].layer_index != layer_index {
        let rest = entries.skip(1);
        lemma_layer_found(rest, layer_index);
        assert(forall|i: int| 0 <= i < rest.len() ==> #[trigger] rest[i] == entries[i + 1]);
        if holds_layer(rest, layer_index) {
            let at = place_of(rest, layer_index);
            assert(entries[at + 1].layer_index == layer_index);
        }
        if exists|i: int| 0 <= i < entries.len() && (#[trigger] entries[i]).layer_index
            == layer_index {
            let i = choose|i: int|
                0 <= i < entries.len() && (#[trigger] entries[i]).layer_index == layer_index;
            assert(rest[i - 1].layer_index == layer_index);
        }
        assert forall|i: int| 0 <= i < place_of(entries, layer_index) implies (
        #[trigger] entries[i]).layer_index != layer_index by {
            if i > 0 {
                assert(rest[i - 1] == entries[i]);
            }
        }
    } else if entries.len() > 0 {
        assert(entries[0].layer_index == layer_index);
    }
}

/// When a loaded layer is cached at all: it holds something, fits the cache alone,
/// and is charged exactly what it is said to hold, under its own name.
pub proof fn lemma_cacheable(
    capacity_bytes: u64,
    charges: Seq<budget::ChargeFacts>,
    layer_index: usize,
    bytes: u64,
)
    ensures
        cacheable(capacity_bytes, charges, layer_index, bytes) <==> bytes > 0 && bytes
            <= capacity_bytes && budget::charged_with_prefix(
            charges,
            "layer:"@ + text::decimal(layer_index as nat) + ":"@,
        ) == bytes,
        cache_prefix(layer_index) == "cache:layer:"@ + text::decimal(layer_index as nat) + ":"@,
{
}

/// A cached layer that is loaded again gives up its own entry and no other.
pub proof fn lemma_given_up<T>(
    entries: Seq<EntryFacts<T>>,
    charges: Seq<budget::ChargeFacts>,
    layer_index: usize,
)
    ensures
        ({
            let (left, freed, count) = given_up(entries, charges, layer_index);
            &&& left.len() + count == entries.len()
            &&& count <= 1
            &&& count == 0 ==> left == entries && freed == charges
            &&& count == 1 ==> exists|at: int|
                0 <= at < entries.len() && (#[trigger] entries[at]).layer_index == layer_index
                    && left == entries.remove(at)
            &&& count == 1 <==> holds_layer(entries, layer_index)
        }),
{
    lemma_layer_found(entries, layer_index);
}

/// What is added fits up to the last byte of the capacity and not one beyond, unless
/// the capacity is without limit.
pub proof fn lemma_fits<T>(entries: Seq<EntryFacts<T>>, capacity: u64, bytes: u64)
    ensures
        fits(entries, u64::MAX, bytes),
        capacity < u64::MAX && total_bytes(entries) + bytes == capacity + 1 ==> !fits(
            entries,
            capacity,
            bytes,
        ),
        total_bytes(entries) + bytes == capacity ==> fits(entries, capacity, bytes),
        forall|fewer: u64|
            fewer <= bytes && fits(entries, capacity, bytes) ==> #[trigger] fits(
                entries,
                capacity,
                fewer,
            ),
{
}

} // verus!
