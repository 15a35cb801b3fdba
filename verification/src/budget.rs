//! The RAM budget: named charges against a fixed total.
//!
//! Every managed allocation is a charge with a unique name. The sum of the
//! charges never exceeds the total, and the highest sum reached is remembered.

use vstd::prelude::*;
use vstd::string::*;

use crate::text;

verus! {

#[derive(Debug, Clone, PartialEq, Eq)]
pub enum MemoryError {
    ZeroBudget,
    DuplicateAllocation { name: String },
    InsufficientMemory { requested: u64, available: u64 },
    UnknownAllocation { name: String },
}

impl MemoryError {
    pub open spec fn spec_message(self) -> Seq<char> {
        match self {
            MemoryError::ZeroBudget => "RAM budget must be greater than zero"@,
            MemoryError::DuplicateAllocation { name } => "allocation '"@ + name@
                + "' already exists"@,
            MemoryError::InsufficientMemory { requested, available } =>
                "insufficient RAM budget: requested "@ + text::decimal(requested as nat)
                    + " bytes, available "@ + text::decimal(available as nat) + " bytes"@,
            MemoryError::UnknownAllocation { name } => "allocation '"@ + name@
                + "' does not exist"@,
        }
    }

    pub fn message(&self) -> (message: String)
        ensures
            message@ == self.spec_message(),
    {
        match self {
            MemoryError::ZeroBudget => "RAM budget must be greater than zero".to_owned(),
            MemoryError::DuplicateAllocation { name } => {
                let mut message = "allocation '".to_owned();
                message.append(name.as_str());
                message.append("' already exists");
                message
            },
            MemoryError::InsufficientMemory { requested, available } => {
                let mut message = "insufficient RAM budget: requested ".to_owned();
                text::push_decimal(&mut message, *requested);
                message.append(" bytes, available ");
                text::push_decimal(&mut message, *available);
                message.append(" bytes");
                message
            },
            MemoryError::UnknownAllocation { name } => {
                let mut message = "allocation '".to_owned();
                message.append(name.as_str());
                message.append("' does not exist");
                message
            },
        }
    }
}

#[derive(Debug, Clone, PartialEq, Eq)]
struct Charge {
    name: String,
    bytes: u64,
}

#[derive(Debug, Clone, PartialEq, Eq)]
pub struct MemoryBudget {
    total: u64,
    used: u64,
    peak: u64,
    charges: Vec<Charge>,
}

/// One named charge.
pub struct ChargeFacts {
    pub name: Seq<char>,
    pub bytes: u64,
}

/// The content of a budget: its charges in the order they were made.
pub struct BudgetFacts {
    pub total: u64,
    pub peak: u64,
    pub charges: Seq<ChargeFacts>,
}

/// The sum of the charges.
pub open spec fn charged(charges: Seq<ChargeFacts>) -> int
    decreases charges.len(),
{
    if charges.len() == 0 {
        0
    } else {
        charged(charges.drop_last()) + charges.last().bytes
    }
}

/// The place of the charge called `name`, or the number of charges.
pub open spec fn charge_position(charges: Seq<ChargeFacts>, name: Seq<char>) -> int
    decreases charges.len(),
{
    if charges.len() == 0 {
        0
    } else if charges[0].name == name {
        0
    } else {
        1 + charge_position(charges.drop_first(), name)
    }
}

pub open spec fn has_charge(charges: Seq<ChargeFacts>, name: Seq<char>) -> bool {
    charge_position(charges, name) < charges.len()
}

/// The bytes charged under `name`.
pub open spec fn charge_of(charges: Seq<ChargeFacts>, name: Seq<char>) -> Option<u64> {
    if has_charge(charges, name) {
        Some(charges[charge_position(charges, name)].bytes)
    } else {
        None
    }
}

pub open spec fn names_distinct(charges: Seq<ChargeFacts>) -> bool {
    forall|i: int, j: int|
        #![trigger charges[i], charges[j]]
        0 <= i < j < charges.len() ==> charges[i].name != charges[j].name
}

impl BudgetFacts {
    pub open spec fn used(self) -> int {
        charged(self.charges)
    }

    pub open spec fn available(self) -> int {
        self.total - self.used()
    }

    /// Charges have distinct names and stay within the total; the peak is at
    /// least what is charged now.
    pub open spec fn valid(self) -> bool {
        &&& names_distinct(self.charges)
        &&& self.total > 0
        &&& self.used() <= self.peak <= self.total
    }
}

impl View for MemoryBudget {
    type V = BudgetFacts;

    closed spec fn view(&self) -> BudgetFacts {
        BudgetFacts {
            total: self.total,
            peak: self.peak,
            charges: charge_facts(self.charges@),
        }
    }
}

closed spec fn charge_facts(charges: Seq<Charge>) -> Seq<ChargeFacts> {
    Seq::new(
        charges.len(),
        |i: int| ChargeFacts { name: charges[i].name@, bytes: charges[i].bytes },
    )
}

/// `charge_position` finds the first charge with the name.
pub proof fn lemma_charge_position(charges: Seq<ChargeFacts>, name: Seq<char>)
    ensures
        0 <= charge_position(charges, name) <= charges.len(),
        has_charge(charges, name) ==> charges[charge_position(charges, name)].name == name,
        forall|i: int|
            0 <= i < charge_position(charges, name) ==> (#[trigger] charges[i]).name != name,
    decreases charges.len(),
{
    if charges.len() > 0 && charges[0].name != name {
        lemma_charge_position(charges.drop_first(), name);
        assert forall|i: int| 0 <= i < charge_position(charges, name) implies (
        #[trigger] charges[i]).name != name by {
            if i > 0 {
                assert(charges.drop_first()[i - 1] == charges[i]);
            }
        }
    }
}

/// Where names are distinct, the charge at any place is found by its name.
pub proof fn lemma_charge_at(charges: Seq<ChargeFacts>, at: int)
    requires
        names_distinct(charges),
        0 <= at < charges.len(),
    ensures
        charge_position(charges, charges[at].name) == at,
{
    lemma_charge_position(charges, charges[at].name);
    let found = charge_position(charges, charges[at].name);
    if found < at {
        assert(charges[found].name == charges[at].name);
    }
}

pub proof fn lemma_charged_nonnegative(charges: Seq<ChargeFacts>)
    ensures
        0 <= charged(charges),
    decreases charges.len(),
{
    if charges.len() > 0 {
        lemma_charged_nonnegative(charges.drop_last());
    }
}

/// Removing a charge lowers the sum by its bytes.
pub proof fn lemma_charged_remove(charges: Seq<ChargeFacts>, at: int)
    requires
        0 <= at < charges.len(),
    ensures
        charged(charges.remove(at)) == charged(charges) - charges[at].bytes,
    decreases charges.len(),
{
    if at == charges.len() - 1 {
        assert(charges.remove(at) =~= charges.drop_last());
    } else {
        lemma_charged_remove(charges.drop_last(), at);
        assert(charges.remove(at).drop_last() =~= charges.drop_last().remove(at));
    }
}

/// The charge after renaming the prefix `from` to `to`.
pub open spec fn renamed(charge: ChargeFacts, from: Seq<char>, to: Seq<char>) -> ChargeFacts {
    if text::has_prefix(charge.name, from) {
        ChargeFacts {
            name: to + charge.name.subrange(from.len() as int, charge.name.len() as int),
            bytes: charge.bytes,
        }
    } else {
        charge
    }
}

pub open spec fn renamed_all(charges: Seq<ChargeFacts>, from: Seq<char>, to: Seq<char>) -> Seq<
    ChargeFacts,
> {
    Seq::new(charges.len(), |i: int| renamed(charges[i], from, to))
}

/// The larger of a peak and what is charged now.
pub open spec fn larger(peak: u64, used: int) -> int {
    if peak >= used {
        peak as int
    } else {
        used
    }
}

/// The first name that an earlier charge has as well.
pub open spec fn first_clash(charges: Seq<ChargeFacts>) -> Option<Seq<char>>
    decreases charges.len(),
{
    if charges.len() == 0 {
        None
    } else {
        let earlier = first_clash(charges.drop_last());
        if earlier is Some {
            earlier
        } else if has_charge(charges.drop_last(), charges.last().name) {
            Some(charges.last().name)
        } else {
            None
        }
    }
}

/// Names are distinct exactly where none clashes.
pub proof fn lemma_first_clash(charges: Seq<ChargeFacts>)
    ensures
        first_clash(charges) is None <==> names_distinct(charges),
    decreases charges.len(),
{
    if charges.len() > 0 {
        let before = charges.drop_last();
        let end = charges.len() - 1;
        lemma_first_clash(before);
        lemma_charge_position(before, charges.last().name);
        if names_distinct(charges) {
            assert forall|i: int, j: int|
                #![trigger before[i], before[j]]
                0 <= i < j < before.len() implies before[i].name != before[j].name by {
                assert(before[i] == charges[i] && before[j] == charges[j]);
            }
            if has_charge(before, charges.last().name) {
                let at = charge_position(before, charges.last().name);
                assert(charges[at].name == charges[end].name);
            }
        }
        if first_clash(charges) is None {
            assert forall|i: int, j: int|
                #![trigger charges[i], charges[j]]
                0 <= i < j < charges.len() implies charges[i].name != charges[j].name by {
                assert(charges[i] == before[i]);
                if j < end {
                    assert(charges[j] == before[j]);
                }
            }
        }
    }
}

/// A clash among the first charges is the first of all.
proof fn lemma_clash_prefix(charges: Seq<ChargeFacts>, upto: int)
    requires
        0 <= upto <= charges.len(),
        first_clash(charges.take(upto)) is Some,
    ensures
        first_clash(charges) == first_clash(charges.take(upto)),
    decreases charges.len() - upto,
{
    if upto < charges.len() {
        assert(charges.take(upto + 1).drop_last() =~= charges.take(upto));
        lemma_clash_prefix(charges, upto + 1);
    } else {
        assert(charges.take(upto) =~= charges);
    }
}

/// The names of the charges that begin with `prefix`, in order.
pub open spec fn names_with_prefix(charges: Seq<ChargeFacts>, prefix: Seq<char>) -> Seq<Seq<char>>
    decreases charges.len(),
{
    if charges.len() == 0 {
        Seq::empty()
    } else {
        let earlier = names_with_prefix(charges.drop_last(), prefix);
        if text::has_prefix(charges.last().name, prefix) {
            earlier.push(charges.last().name)
        } else {
            earlier
        }
    }
}

/// The new names of the charges that the renaming moves, in order.
pub open spec fn moved_names(
    charges: Seq<ChargeFacts>,
    from: Seq<char>,
    to: Seq<char>,
) -> Seq<Seq<char>>
    decreases charges.len(),
{
    if charges.len() == 0 {
        Seq::empty()
    } else {
        let earlier = moved_names(charges.drop_last(), from, to);
        if text::has_prefix(charges.last().name, from) {
            earlier.push(renamed(charges.last(), from, to).name)
        } else {
            earlier
        }
    }
}

/// The bytes charged under names that begin with `prefix`.
pub open spec fn charged_with_prefix(charges: Seq<ChargeFacts>, prefix: Seq<char>) -> int
    decreases charges.len(),
{
    if charges.len() == 0 {
        0
    } else {
        charged_with_prefix(charges.drop_last(), prefix) + (if text::has_prefix(
            charges.last().name,
            prefix,
        ) {
            charges.last().bytes as int
        } else {
            0
        })
    }
}

pub proof fn lemma_charged_with_prefix_bounded(charges: Seq<ChargeFacts>, prefix: Seq<char>)
    ensures
        0 <= charged_with_prefix(charges, prefix) <= charged(charges),
    decreases charges.len(),
{
    if charges.len() > 0 {
        lemma_charged_with_prefix_bounded(charges.drop_last(), prefix);
    }
}

/// Renaming keeps every charge's bytes, and so the sum.
pub proof fn lemma_renamed_sum(charges: Seq<ChargeFacts>, from: Seq<char>, to: Seq<char>)
    ensures
        charged(renamed_all(charges, from, to)) == charged(charges),
    decreases charges.len(),
{
    if charges.len() > 0 {
        lemma_renamed_sum(charges.drop_last(), from, to);
        assert(renamed_all(charges, from, to).drop_last() =~= renamed_all(
            charges.drop_last(),
            from,
            to,
        ));
    }
}

/// The charges that do not begin with `prefix`.
pub open spec fn without_prefix(charges: Seq<ChargeFacts>, prefix: Seq<char>) -> Seq<ChargeFacts>
    decreases charges.len(),
{
    if charges.len() == 0 {
        Seq::empty()
    } else {
        let earlier = without_prefix(charges.drop_last(), prefix);
        if text::has_prefix(charges.last().name, prefix) {
            earlier
        } else {
            earlier.push(charges.last())
        }
    }
}

fn name_taken(charges: &Vec<Charge>, name: &str) -> (taken: bool)
    ensures
        taken == exists|j: int| 0 <= j < charges@.len() && (#[trigger] charges@[j]).name@ == name@,
{
    for j in 0..charges.len()
        invariant
            forall|k: int| 0 <= k < j ==> (#[trigger] charges@[k]).name@ != name@,
    {
        if text::str_equal(charges[j].name.as_str(), name) {
            return true;
        }
    }
    false
}

impl MemoryBudget {
    /// The bookkeeping agrees with the charges.
    pub closed spec fn wf(&self) -> bool {
        &&& self@.valid()
        &&& self.used == charged(self@.charges)
    }

    pub proof fn lemma_wf(&self)
        requires
            self.wf(),
        ensures
            self@.valid(),
            0 <= self@.used(),
    {
        lemma_charged_nonnegative(self@.charges);
    }

    pub fn new(total: u64) -> (result: Result<Self, MemoryError>)
        ensures
            total == 0 ==> result == Err::<Self, MemoryError>(MemoryError::ZeroBudget),
            total > 0 ==> {
                &&& result is Ok
                &&& result->Ok_0.wf()
                &&& result->Ok_0@ == (BudgetFacts { total, peak: 0, charges: Seq::empty() })
            },
    {
        if total == 0 {
            return Err(MemoryError::ZeroBudget);
        }
        let budget = MemoryBudget { total, used: 0, peak: 0, charges: Vec::new() };
        assert(budget@.charges =~= Seq::empty());
        Ok(budget)
    }

    pub fn total_bytes(&self) -> (bytes: u64)
        ensures
            bytes == self@.total,
    {
        self.total
    }

    pub fn used_bytes(&self) -> (bytes: u64)
        requires
            self.wf(),
        ensures
            bytes == self@.used(),
    {
        self.used
    }

    pub fn peak_used_bytes(&self) -> (bytes: u64)
        ensures
            bytes == self@.peak,
    {
        self.peak
    }

    pub fn available_bytes(&self) -> (bytes: u64)
        requires
            self.wf(),
        ensures
            bytes == self@.available(),
    {
        self.total - self.used
    }

    pub fn can_allocate(&self, bytes: u64) -> (fits: bool)
        requires
            self.wf(),
        ensures
            fits == (bytes <= self@.available()),
    {
        bytes <= self.total - self.used
    }

    fn position_of(&self, name: &str) -> (at: usize)
        ensures
            at == charge_position(self@.charges, name@),
    {
        let ghost all = self@.charges;
        assert(all.skip(0) =~= all);
        for i in 0..self.charges.len()
            invariant
                all == self@.charges,
                charge_position(all, name@) == i + charge_position(all.skip(i as int), name@),
        {
            assert(all.skip(i as int)[0].name == self.charges@[i as int].name@);
            if text::str_equal(self.charges[i].name.as_str(), name) {
                return i;
            }
            assert(all.skip(i as int).drop_first() =~= all.skip(i as int + 1));
        }
        self.charges.len()
    }

    pub fn get(&self, name: &str) -> (bytes: Option<u64>)
        ensures
            bytes == charge_of(self@.charges, name@),
    {
        let at: usize = self.position_of(name);
        if at < self.charges.len() {
            Some(self.charges[at].bytes)
        } else {
            None
        }
    }

    /// Charges `bytes` under a new name. Fails, and changes nothing, where the
    /// name is taken or the bytes do not fit.
    pub fn allocate(&mut self, name: &str, bytes: u64) -> (result: Result<(), MemoryError>)
        requires
            old(self).wf(),
        ensures
            final(self).wf(),
            result is Ok <==> !has_charge(old(self)@.charges, name@) && bytes
                <= old(self)@.available(),
            result is Ok ==> final(self)@ == (BudgetFacts {
                total: old(self)@.total,
                peak: larger(old(self)@.peak, old(self)@.used() + bytes) as u64,
                charges: old(self)@.charges.push(ChargeFacts { name: name@, bytes }),
            }),
            result is Err ==> final(self)@ == old(self)@,
            result matches Err(error) ==> if has_charge(old(self)@.charges, name@) {
                error matches MemoryError::DuplicateAllocation { name: taken } && taken@ == name@
            } else {
                error == (MemoryError::InsufficientMemory {
                    requested: bytes,
                    available: old(self)@.available() as u64,
                })
            },
    {
        let ghost before = self@.charges;
        let at: usize = self.position_of(name);
        if at < self.charges.len() {
            return Err(MemoryError::DuplicateAllocation { name: name.to_owned() });
        }
        let available: u64 = self.total - self.used;
        if bytes > available {
            return Err(MemoryError::InsufficientMemory { requested: bytes, available });
        }
        self.charges.push(Charge { name: name.to_owned(), bytes });
        self.used = self.used + bytes;
        if self.used > self.peak {
            self.peak = self.used;
        }
        proof {
            let now = before.push(ChargeFacts { name: name@, bytes });
            assert(self@.charges =~= now);
            assert(now.drop_last() =~= before);
            lemma_charge_position(before, name@);
        }
        Ok(())
    }

    /// Releases the charge called `name`. Fails, and changes nothing, where there
    /// is none.
    pub fn release(&mut self, name: &str) -> (result: Result<(), MemoryError>)
        requires
            old(self).wf(),
        ensures
            final(self).wf(),
            result is Ok <==> has_charge(old(self)@.charges, name@),
            result is Ok ==> final(self)@ == (BudgetFacts {
                total: old(self)@.total,
                peak: old(self)@.peak,
                charges: old(self)@.charges.remove(
                    charge_position(old(self)@.charges, name@),
                ),
            }),
            result is Ok ==> final(self)@.used() == old(self)@.used() - charge_of(
                old(self)@.charges,
                name@,
            )->0,
            result is Err ==> final(self)@ == old(self)@,
            result matches Err(error) ==> (error matches MemoryError::UnknownAllocation {
                name: unknown,
            } && unknown@ == name@),
    {
        let ghost before = self@.charges;
        let at: usize = self.position_of(name);
        if at >= self.charges.len() {
            return Err(MemoryError::UnknownAllocation { name: name.to_owned() });
        }
        proof {
            lemma_charged_remove(before, at as int);
            lemma_charged_nonnegative(before.remove(at as int));
        }
        let charge = self.charges.remove(at);
        self.used = self.used - charge.bytes;
        assert(self@.charges =~= before.remove(at as int));
        Ok(())
    }

    /// The bytes charged under names that begin with `prefix`.
    pub fn bytes_with_prefix(&self, prefix: &str) -> (bytes: u64)
        requires
            self.wf(),
        ensures
            bytes == charged_with_prefix(self@.charges, prefix@),
    {
        let ghost all = self@.charges;
        let mut bytes: u64 = 0;
        for i in 0..self.charges.len()
            invariant
                self.wf(),
                all == self@.charges,
                bytes == charged_with_prefix(all.take(i as int), prefix@),
        {
            proof {
                assert(all.take(i as int + 1).drop_last() =~= all.take(i as int));
                lemma_charged_with_prefix_bounded(all.take(i as int + 1), prefix@);
                lemma_charged_take(all, i as int + 1);
            }
            if text::starts_with(self.charges[i].name.as_str(), prefix) {
                bytes = bytes + self.charges[i].bytes;
            }
        }
        assert(all.take(all.len() as int) =~= all);
        bytes
    }

    /// Renames the prefix `from` of every charge that has it to `to`, and returns
    /// the new names. Fails, and changes nothing, where two charges would share a
    /// name.
    pub fn rename_prefix(&mut self, from: &str, to: &str) -> (result: Result<
        Vec<String>,
        MemoryError,
    >)
        requires
            old(self).wf(),
        ensures
            final(self).wf(),
            result is Ok <==> names_distinct(renamed_all(old(self)@.charges, from@, to@)),
            result matches Ok(names) ==> {
                &&& final(self)@ == (BudgetFacts {
                    total: old(self)@.total,
                    peak: old(self)@.peak,
                    charges: renamed_all(old(self)@.charges, from@, to@),
                })
                &&& text::texts(names@) == moved_names(old(self)@.charges, from@, to@)
                &&& final(self)@.used() == old(self)@.used()
            },
            result is Err ==> final(self)@ == old(self)@,
            result matches Err(error) ==> (error matches MemoryError::DuplicateAllocation {
                name,
            } && Some(name@) == first_clash(renamed_all(old(self)@.charges, from@, to@))),
    {
        let ghost before = self@.charges;
        let ghost target = renamed_all(before, from@, to@);
        let from_length: usize = text::to_chars(from).len();
        let mut charges: Vec<Charge> = Vec::new();
        let mut names: Vec<String> = Vec::new();
        assert(charge_facts(charges@) =~= target.take(0));
        assert(text::texts(names@) =~= moved_names(before.take(0), from@, to@));
        for i in 0..self.charges.len()
            invariant
                self@.charges == before,
                target == renamed_all(before, from@, to@),
                from_length == from@.len(),
                charge_facts(charges@) == target.take(i as int),
                text::texts(names@) == moved_names(before.take(i as int), from@, to@),
                names_distinct(target.take(i as int)),
                self.wf(),
                self@ == old(self)@,
        {
            let ghost kept = charges@;
            let ghost moved = names@;
            proof {
                assert(before.take(i as int + 1).drop_last() =~= before.take(i as int));
                assert(before.take(i as int + 1).last() == before[i as int]);
            }
            let current = self.charges[i].name.as_str();
            let moves = text::starts_with(current, from);
            let mut name = current.to_owned();
            if moves {
                name = to.to_owned();
                let length: usize = text::to_chars(current).len();
                name.append(current.substring_char(from_length, length));
            }
            assert(name@ == target[i as int].name);
            assert(target.len() == self.charges@.len());
            assert(charge_facts(charges@).len() == charges@.len());
            assert(target.take(i as int).len() == i);
            if name_taken(&charges, name.as_str()) {
                proof {
                    let j = choose|j: int|
                        0 <= j < charges@.len() && (#[trigger] charges@[j]).name@ == name@;
                    assert(charge_facts(charges@)[j] == target.take(i as int)[j]);
                    assert(target[j].name == target[i as int].name);
                    let upto = target.take(i as int + 1);
                    assert(upto.drop_last() =~= target.take(i as int));
                    lemma_first_clash(target.take(i as int));
                    lemma_charge_at(target.take(i as int), j);
                    assert(first_clash(upto) == Some(name@));
                    lemma_clash_prefix(target, i as int + 1);
                }
                return Err(MemoryError::DuplicateAllocation { name });
            }
            assert forall|j: int| 0 <= j < i implies (#[trigger] target[j]).name != name@ by {
                assert(charge_facts(charges@)[j] == target.take(i as int)[j]);
                assert(charges@[j].name@ != name@);
            }
            assert(names_distinct(target.take(i as int + 1))) by {
                assert forall|j: int, k: int|
                    #![trigger target.take(i as int + 1)[j], target.take(i as int + 1)[k]]
                    0 <= j < k < i + 1 implies target.take(i as int + 1)[j].name != target.take(
                    i as int + 1,
                )[k].name by {
                    if k < i {
                        assert(target.take(i as int)[j] == target[j]);
                        assert(target.take(i as int)[k] == target[k]);
                    } else {
                        assert(target[j].name != name@);
                    }
                }
            }
            if moves {
                names.push(name.clone());
                assert(text::texts(names@) =~= text::texts(moved).push(name@));
            }
            charges.push(Charge { name, bytes: self.charges[i].bytes });
            assert(charge_facts(charges@) =~= target.take(i as int + 1));
        }
        proof {
            assert(target.take(target.len() as int) =~= target);
            assert(before.take(before.len() as int) =~= before);
            lemma_renamed_sum(before, from@, to@);
        }
        self.charges = charges;
        Ok(names)
    }

    /// Releases every charge whose name begins with `prefix`.
    pub fn release_prefix(&mut self, prefix: &str)
        requires
            old(self).wf(),
        ensures
            final(self).wf(),
            final(self)@ == (BudgetFacts {
                total: old(self)@.total,
                peak: old(self)@.peak,
                charges: without_prefix(old(self)@.charges, prefix@),
            }),
    {
        let ghost before = self@.charges;
        let mut kept: Vec<Charge> = Vec::new();
        let mut used: u64 = 0;
        assert(charge_facts(kept@) =~= without_prefix(before.take(0), prefix@));
        for i in 0..self.charges.len()
            invariant
                self@.charges == before,
                self.wf(),
                self@ == old(self)@,
                charge_facts(kept@) == without_prefix(before.take(i as int), prefix@),
                used == charged(charge_facts(kept@)),
                used <= charged(before.take(i as int)),
                names_distinct(charge_facts(kept@)),
                forall|k: int|
                    0 <= k < kept@.len() ==> exists|j: int|
                        0 <= j < i && (#[trigger] charge_facts(kept@)[k]) == before[j],
        {
            let ghost earlier = kept@;
            proof {
                assert(before.take(i as int + 1).drop_last() =~= before.take(i as int));
                assert(before.take(i as int + 1).last() == before[i as int]);
                lemma_charged_take(before, i as int + 1);
            }
            if !text::starts_with(self.charges[i].name.as_str(), prefix) {
                kept.push(
                    Charge { name: self.charges[i].name.clone(), bytes: self.charges[i].bytes },
                );
                used = used + self.charges[i].bytes;
                assert(charge_facts(kept@) =~= charge_facts(earlier).push(before[i as int]));
                assert(charge_facts(kept@).drop_last() =~= charge_facts(earlier));
            }
            assert forall|k: int| 0 <= k < kept@.len() implies exists|j: int|
                0 <= j < i + 1 && (#[trigger] charge_facts(kept@)[k]) == before[j] by {
                if k < earlier.len() {
                    assert(charge_facts(earlier)[k] == charge_facts(kept@)[k]);
                    let j = choose|j: int| 0 <= j < i && charge_facts(earlier)[k] == before[j];
                    assert(charge_facts(kept@)[k] == before[j]);
                } else {
                    assert(charge_facts(kept@)[k] == before[i as int]);
                }
            }
        }
        assert(before.take(before.len() as int) =~= before);
        self.charges = kept;
        self.used = used;
    }
}

/// A prefix of the charges sums to no more than all of them.
pub proof fn lemma_charged_take(charges: Seq<ChargeFacts>, upto: int)
    requires
        0 <= upto <= charges.len(),
    ensures
        0 <= charged(charges.take(upto)) <= charged(charges),
    decreases charges.len(),
{
    lemma_charged_nonnegative(charges.take(upto));
    if upto == charges.len() {
        assert(charges.take(upto) =~= charges);
    } else {
        lemma_charged_take(charges.drop_last(), upto);
        assert(charges.drop_last().take(upto) =~= charges.take(upto));
    }
}

/// The charges without those whose names are `gone`.
pub open spec fn kept_charges(
    charges: Seq<ChargeFacts>,
    gone: spec_fn(Seq<char>) -> bool,
) -> Seq<ChargeFacts>
    decreases charges.len(),
{
    if charges.len() == 0 {
        Seq::empty()
    } else {
        let earlier = kept_charges(charges.drop_last(), gone);
        if gone(charges.last().name) {
            earlier
        } else {
            earlier.push(charges.last())
        }
    }
}

/// A charge whose name is gone adds nothing to what is kept.
pub proof fn lemma_kept_push(
    charges: Seq<ChargeFacts>,
    charge: ChargeFacts,
    gone: spec_fn(Seq<char>) -> bool,
)
    ensures
        kept_charges(charges.push(charge), gone) == (if gone(charge.name) {
            kept_charges(charges, gone)
        } else {
            kept_charges(charges, gone).push(charge)
        }),
{
    assert(charges.push(charge).drop_last() =~= charges);
}

/// Removing a charge whose name is gone keeps the same charges.
pub proof fn lemma_kept_remove(
    charges: Seq<ChargeFacts>,
    at: int,
    gone: spec_fn(Seq<char>) -> bool,
)
    requires
        0 <= at < charges.len(),
        gone(charges[at].name),
    ensures
        kept_charges(charges.remove(at), gone) == kept_charges(charges, gone),
    decreases charges.len(),
{
    if at == charges.len() - 1 {
        assert(charges.remove(at) =~= charges.drop_last());
    } else {
        assert(charges.remove(at).drop_last() =~= charges.drop_last().remove(at));
        assert(charges.remove(at).last() == charges.last());
        lemma_kept_remove(charges.drop_last(), at, gone);
    }
}

/// Renaming charges from names that are gone to names that are gone keeps the
/// same charges.
pub proof fn lemma_kept_renamed(
    charges: Seq<ChargeFacts>,
    from: Seq<char>,
    to: Seq<char>,
    gone: spec_fn(Seq<char>) -> bool,
)
    requires
        forall|name: Seq<char>| text::has_prefix(name, from) ==> #[trigger] gone(name),
        forall|name: Seq<char>| text::has_prefix(name, to) ==> #[trigger] gone(name),
    ensures
        kept_charges(renamed_all(charges, from, to), gone) == kept_charges(charges, gone),
    decreases charges.len(),
{
    if charges.len() > 0 {
        let now = renamed_all(charges, from, to);
        assert(now.drop_last() =~= renamed_all(charges.drop_last(), from, to));
        lemma_kept_renamed(charges.drop_last(), from, to, gone);
        let charge = charges.last();
        assert(now.last() == renamed(charge, from, to));
        if text::has_prefix(charge.name, from) {
            assert(gone(charge.name));
            let name = renamed(charge, from, to).name;
            assert(name.subrange(0, to.len() as int) =~= to);
            assert(text::has_prefix(name, to));
            assert(gone(name));
        }
    }
}

/// Releasing a prefix keeps the charges whose names do not begin with it.
pub proof fn lemma_kept_prefix(charges: Seq<ChargeFacts>, prefix: Seq<char>)
    ensures
        without_prefix(charges, prefix) == kept_charges(
            charges,
            |name: Seq<char>| text::has_prefix(name, prefix),
        ),
    decreases charges.len(),
{
    if charges.len() > 0 {
        lemma_kept_prefix(charges.drop_last(), prefix);
    }
}

/// Keeping twice is keeping what neither lets go.
pub proof fn lemma_kept_twice(
    charges: Seq<ChargeFacts>,
    first: spec_fn(Seq<char>) -> bool,
    second: spec_fn(Seq<char>) -> bool,
    both: spec_fn(Seq<char>) -> bool,
)
    requires
        forall|name: Seq<char>| #[trigger] both(name) == (first(name) || second(name)),
    ensures
        kept_charges(kept_charges(charges, first), second) == kept_charges(charges, both),
    decreases charges.len(),
{
    if charges.len() > 0 {
        let name = charges.last().name;
        lemma_kept_twice(charges.drop_last(), first, second, both);
        assert(both(name) == (first(name) || second(name)));
        if !first(name) {
            lemma_kept_push(
                kept_charges(charges.drop_last(), first),
                charges.last(),
                second,
            );
        }
    }
}

/// No name that is kept is gone, and charges of which none is gone are all kept.
pub proof fn lemma_kept_names(charges: Seq<ChargeFacts>, gone: spec_fn(Seq<char>) -> bool)
    ensures
        forall|i: int|
            0 <= i < kept_charges(charges, gone).len() ==> !gone(
                (#[trigger] kept_charges(charges, gone)[i]).name,
            ),
        (forall|i: int| 0 <= i < charges.len() ==> !gone((#[trigger] charges[i]).name))
            ==> kept_charges(charges, gone) == charges,
    decreases charges.len(),
{
    if charges.len() > 0 {
        let earlier = kept_charges(charges.drop_last(), gone);
        let kept = kept_charges(charges, gone);
        lemma_kept_names(charges.drop_last(), gone);
        assert forall|i: int| 0 <= i < kept.len() implies !gone((#[trigger] kept[i]).name) by {
            if i < earlier.len() {
                assert(kept[i] == earlier[i]);
            }
        }
        assert(charges.drop_last().push(charges.last()) =~= charges);
        if forall|i: int| 0 <= i < charges.len() ==> !gone((#[trigger] charges[i]).name) {
            assert forall|i: int| 0 <= i < charges.drop_last().len() implies !gone(
                (#[trigger] charges.drop_last()[i]).name,
            ) by {
                assert(charges.drop_last()[i] == charges[i]);
            }
            assert(!gone(charges[charges.len() - 1].name));
        }
    }
}

/// No charge of a name that is gone is kept.
pub proof fn lemma_kept_has_none(
    charges: Seq<ChargeFacts>,
    gone: spec_fn(Seq<char>) -> bool,
    name: Seq<char>,
)
    requires
        gone(name),
    ensures
        !has_charge(kept_charges(charges, gone), name),
{
    lemma_kept_names(charges, gone);
    lemma_charge_position(kept_charges(charges, gone), name);
}

/// What is kept comes from the charges, all of it, under distinct names.
proof fn lemma_kept_members(charges: Seq<ChargeFacts>, gone: spec_fn(Seq<char>) -> bool)
    requires
        names_distinct(charges),
    ensures
        ({
            let kept = kept_charges(charges, gone);
            &&& names_distinct(kept)
            &&& forall|i: int| 0 <= i < kept.len() ==> charges.contains(#[trigger] kept[i])
            &&& forall|i: int|
                0 <= i < charges.len() && !gone((#[trigger] charges[i]).name) ==> kept.contains(
                    charges[i],
                )
        }),
    decreases charges.len(),
{
    if charges.len() > 0 {
        let before = charges.drop_last();
        let earlier = kept_charges(before, gone);
        let kept = kept_charges(charges, gone);
        let end = charges.len() - 1;
        assert forall|i: int, j: int|
            #![trigger before[i], before[j]]
            0 <= i < j < before.len() implies before[i].name != before[j].name by {
            assert(before[i] == charges[i] && before[j] == charges[j]);
        }
        lemma_kept_members(before, gone);
        assert forall|i: int| 0 <= i < kept.len() implies charges.contains(#[trigger] kept[i]) by {
            if i < earlier.len() {
                assert(kept[i] == earlier[i]);
                let k = choose|k: int| 0 <= k < before.len() && before[k] == earlier[i];
                assert(charges[k] == kept[i]);
            } else {
                assert(charges[end] == kept[i]);
            }
        }
        assert forall|i: int|
            0 <= i < charges.len() && !gone((#[trigger] charges[i]).name) implies kept.contains(
            charges[i],
        ) by {
            if i < end {
                assert(before[i] == charges[i]);
                let k = choose|k: int| 0 <= k < earlier.len() && earlier[k] == before[i];
                assert(kept[k] == charges[i]);
            } else {
                assert(kept[kept.len() - 1] == charges[i]);
            }
        }
        assert forall|i: int, j: int|
            #![trigger kept[i], kept[j]]
            0 <= i < j < kept.len() implies kept[i].name != kept[j].name by {
            assert(kept[i] == earlier[i]);
            if j < earlier.len() {
                assert(kept[j] == earlier[j]);
            } else {
                let k = choose|k: int| 0 <= k < before.len() && before[k] == earlier[i];
                assert(charges[k] == kept[i] && charges[end] == kept[j]);
            }
        }
    }
}

/// Every name that is not gone keeps its charge.
pub proof fn lemma_kept_charge_of(
    charges: Seq<ChargeFacts>,
    gone: spec_fn(Seq<char>) -> bool,
    name: Seq<char>,
)
    requires
        names_distinct(charges),
        !gone(name),
    ensures
        names_distinct(kept_charges(charges, gone)),
        charge_of(kept_charges(charges, gone), name) == charge_of(charges, name),
{
    let kept = kept_charges(charges, gone);
    lemma_kept_members(charges, gone);
    lemma_charge_position(charges, name);
    lemma_charge_position(kept, name);
    if has_charge(charges, name) {
        let at = charge_position(charges, name);
        assert(charges[at].name == name);
        let k = choose|k: int| 0 <= k < kept.len() && kept[k] == charges[at];
        lemma_charge_at(kept, k);
    } else if has_charge(kept, name) {
        let k = charge_position(kept, name);
        assert(charges.contains(kept[k]));
        let at = choose|at: int| 0 <= at < charges.len() && charges[at] == kept[k];
        lemma_charge_at(charges, at);
    }
}

/// A new charge adds its bytes.
pub proof fn lemma_charged_push(charges: Seq<ChargeFacts>, name: Seq<char>, bytes: u64)
    ensures
        charged(charges.push(ChargeFacts { name, bytes })) == charged(charges) + bytes,
{
    assert(charges.push(ChargeFacts { name, bytes }).drop_last() =~= charges);
}

/// A charge that is made and then released leaves the charges as they were.
pub proof fn lemma_release_undoes_allocate(before: Seq<ChargeFacts>, name: Seq<char>, bytes: u64)
    requires
        names_distinct(before),
        !has_charge(before, name),
    ensures
        ({
            let charged_now = before.push(ChargeFacts { name, bytes });
            &&& charge_of(charged_now, name) == Some(bytes)
            &&& charged_now.remove(charge_position(charged_now, name)) == before
        }),
{
    let now = before.push(ChargeFacts { name, bytes });
    lemma_charge_position(before, name);
    lemma_charge_position(now, name);
    let at = charge_position(now, name);
    if at < before.len() {
        assert(now[at] == before[at]);
        assert(before[at].name == name);
    } else {
        assert(now[before.len() as int].name == name);
    }
    assert(now.remove(at) =~= before);
}

/// A new charge is found by its name, and every other name keeps its charge.
pub proof fn lemma_new_charge(
    before: Seq<ChargeFacts>,
    name: Seq<char>,
    bytes: u64,
    other: Seq<char>,
)
    requires
        names_distinct(before),
        !has_charge(before, name),
    ensures
        ({
            let now = before.push(ChargeFacts { name, bytes });
            &&& names_distinct(now)
            &&& charge_of(now, name) == Some(bytes)
            &&& other != name ==> charge_of(now, other) == charge_of(before, other)
        }),
{
    let now = before.push(ChargeFacts { name, bytes });
    lemma_release_undoes_allocate(before, name, bytes);
    lemma_charge_position(before, name);
    assert forall|i: int, j: int|
        #![trigger now[i], now[j]]
        0 <= i < j < now.len() implies now[i].name != now[j].name by {
        assert(now[i] == before[i]);
        if j < before.len() {
            assert(now[j] == before[j]);
        }
    }
    if other != name {
        lemma_charge_position(before, other);
        lemma_charge_position(now, other);
        if has_charge(before, other) {
            let at = charge_position(before, other);
            assert(now[at] == before[at]);
            lemma_charge_at(now, at);
        } else if has_charge(now, other) {
            let at = charge_position(now, other);
            if at < before.len() {
                assert(now[at] == before[at]);
                lemma_charge_at(before, at);
            }
        }
    }
}

/// A name is charged exactly where a charge has it, and what it is charged is what
/// the first such charge says.
pub proof fn lemma_charge_found(charges: Seq<ChargeFacts>, name: Seq<char>)
    ensures
        has_charge(charges, name) <==> exists|i: int|
            0 <= i < charges.len() && (#[trigger] charges[i]).name == name,
        charge_of(charges, name) is Some <==> has_charge(charges, name),
        charge_of(charges, name) matches Some(bytes) ==> exists|i: int|
            0 <= i < charges.len() && (#[trigger] charges[i]).name == name && charges[i].bytes
                == bytes,
{
    lemma_charge_position(charges, name);
    if has_charge(charges, name) {
        let at = charge_position(charges, name);
        assert(charges[at].name == name);
    }
}

/// What is charged under a prefix and what is charged without it make up all that is
/// charged, and releasing the prefix leaves no charge under it.
pub proof fn lemma_prefix_share(charges: Seq<ChargeFacts>, prefix: Seq<char>)
    ensures
        charged_with_prefix(charges, prefix) + charged(without_prefix(charges, prefix)) == charged(
            charges,
        ),
        forall|i: int|
            0 <= i < without_prefix(charges, prefix).len() ==> !text::has_prefix(
                (#[trigger] without_prefix(charges, prefix)[i]).name,
                prefix,
            ),
        names_with_prefix(charges, prefix).len() + without_prefix(charges, prefix).len()
            == charges.len(),
        forall|i: int|
            0 <= i < names_with_prefix(charges, prefix).len() ==> text::has_prefix(
                #[trigger] names_with_prefix(charges, prefix)[i],
                prefix,
            ),
    decreases charges.len(),
{
    if charges.len() > 0 {
        let shorter = charges.drop_last();
        lemma_prefix_share(shorter, prefix);
        let kept = without_prefix(shorter, prefix);
        if !text::has_prefix(charges.last().name, prefix) {
            lemma_charged_push(kept, charges.last().name, charges.last().bytes);
        }
        assert forall|i: int| 0 <= i < without_prefix(charges, prefix).len() implies !text::has_prefix(
            (#[trigger] without_prefix(charges, prefix)[i]).name,
            prefix,
        ) by {
            if i < kept.len() {
                assert(without_prefix(charges, prefix)[i] == kept[i]);
            }
        }
        let names = names_with_prefix(shorter, prefix);
        assert forall|i: int|
            0 <= i < names_with_prefix(charges, prefix).len() implies text::has_prefix(
            #[trigger] names_with_prefix(charges, prefix)[i],
            prefix,
        ) by {
            if i < names.len() {
                assert(names_with_prefix(charges, prefix)[i] == names[i]);
            }
        }
    }
}

/// Renaming replaces the prefix and keeps the rest of the name; charges under other
/// names stay as they are.
pub proof fn lemma_renamed_names(charge: ChargeFacts, from: Seq<char>, to: Seq<char>)
    ensures
        renamed(charge, from, to).bytes == charge.bytes,
        !text::has_prefix(charge.name, from) ==> renamed(charge, from, to) == charge,
        forall|rest: Seq<char>|
            charge.name == #[trigger] (from + rest) ==> renamed(charge, from, to).name == to + rest,
{
    assert forall|rest: Seq<char>| charge.name == #[trigger] (from + rest) implies renamed(
        charge,
        from,
        to,
    ).name == to + rest by {
        assert((from + rest).subrange(0, from.len() as int) =~= from);
        assert((from + rest).subrange(from.len() as int, (from + rest).len() as int) =~= rest);
    }
}

/// The peak is the larger of what it was and what is used.
pub proof fn lemma_larger(peak: u64, used: int)
    ensures
        larger(peak, used) >= peak,
        larger(peak, used) >= used,
        larger(peak, used) == peak || larger(peak, used) == used,
{
}

} // verus!
