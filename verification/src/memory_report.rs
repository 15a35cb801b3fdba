//! Runtime memory visibility.
//!
//! Managed bytes, process RSS, and system memory are intentionally reported as
//! separate concepts. The memory budget does not control the OS page cache.

use vstd::prelude::*;
use vstd::string::*;

use crate::budget::MemoryBudget;
use crate::scan;
use crate::text;

verus! {

#[derive(Debug, Clone, Copy, Default, PartialEq, Eq)]
pub struct MemoryReport {
    pub ramforge_current_bytes: u64,
    pub ramforge_peak_bytes: u64,
    pub ramforge_budget_bytes: u64,
    pub process_rss_bytes: Option<u64>,
    pub system_total_bytes: Option<u64>,
    pub system_available_bytes: Option<u64>,
}

/// The first line that begins with the key.
pub open spec fn keyed_line(lines: Seq<Seq<char>>, key: Seq<char>) -> Option<Seq<char>>
    decreases lines.len(),
{
    if lines.len() == 0 {
        None
    } else {
        let earlier = keyed_line(lines.drop_last(), key);
        if earlier is Some {
            earlier
        } else if text::has_prefix(lines.last(), key) {
            Some(lines.last())
        } else {
            None
        }
    }
}

/// The size that a line `key: kibibytes ...` states, in bytes.
pub open spec fn stated_bytes(line: Seq<char>) -> Option<u64> {
    let words = scan::words(line);
    if words.len() < 2 {
        None
    } else {
        match scan::number(words[1], u64::MAX as int) {
            None => None,
            Some(kibibytes) => if kibibytes * 1024 > u64::MAX {
                None
            } else {
                Some((kibibytes * 1024) as u64)
            },
        }
    }
}

/// The size that the first line with the key states.
pub open spec fn field_bytes(input: Seq<char>, key: Seq<char>) -> Option<u64> {
    match keyed_line(scan::lines(input), key) {
        Some(line) => stated_bytes(line),
        None => None,
    }
}

proof fn lemma_keyed_prefix(lines: Seq<Seq<char>>, key: Seq<char>, upto: int)
    requires
        0 <= upto <= lines.len(),
        keyed_line(lines.take(upto), key) is Some,
    ensures
        keyed_line(lines, key) == keyed_line(lines.take(upto), key),
    decreases lines.len(),
{
    if upto == lines.len() {
        assert(lines.take(upto) =~= lines);
    } else {
        assert(lines.drop_last().take(upto) =~= lines.take(upto));
        lemma_keyed_prefix(lines.drop_last(), key, upto);
    }
}

fn begins_with(line: &Vec<char>, key: &Vec<char>) -> (yes: bool)
    ensures
        yes == text::has_prefix(line@, key@),
{
    if key.len() > line.len() {
        return false;
    }
    let ghost head = line@.subrange(0, key@.len() as int);
    for i in 0..key.len()
        invariant
            key@.len() <= line@.len(),
            head == line@.subrange(0, key@.len() as int),
            forall|k: int| 0 <= k < i ==> head[k] == #[trigger] key@[k],
    {
        if line[i] != key[i] {
            assert(head[i as int] != key@[i as int]);
            return false;
        }
    }
    assert(head =~= key@);
    true
}

fn read_stated_bytes(line: &Vec<char>) -> (bytes: Option<u64>)
    ensures
        bytes == stated_bytes(line@),
{
    let words = scan::split_words(line);
    assert(text::pieces(words@).len() == words@.len());
    if words.len() < 2 {
        return None;
    }
    assert(text::pieces(words@)[1] == words@[1]@);
    match scan::parse_unsigned(&words[1], u64::MAX) {
        None => None,
        Some(kibibytes) => kibibytes.checked_mul(1024),
    }
}

pub fn parse_kib_field(input: &str, key: &str) -> (bytes: Option<u64>)
    ensures
        bytes == field_bytes(input@, key@),
{
    let chars = text::to_chars(input);
    let wanted = text::to_chars(key);
    let lines = scan::split_lines(&chars);
    let ghost all = text::pieces(lines@);
    for i in 0..lines.len()
        invariant
            all == text::pieces(lines@),
            all == scan::lines(input@),
            wanted@ == key@,
            keyed_line(all.take(i as int), key@) is None,
    {
        assert(all.take(i as int + 1).drop_last() =~= all.take(i as int));
        assert(all[i as int] == lines@[i as int]@);
        if begins_with(&lines[i], &wanted) {
            proof {
                lemma_keyed_prefix(all, key@, i as int + 1);
            }
            return read_stated_bytes(&lines[i]);
        }
    }
    assert(all.take(all.len() as int) =~= all);
    None
}

pub open spec fn content_bytes(content: Option<&str>, key: Seq<char>) -> Option<u64> {
    match content {
        Some(input) => field_bytes(input@, key),
        None => None,
    }
}

fn read_field(content: Option<&str>, key: &str) -> (bytes: Option<u64>)
    ensures
        bytes == content_bytes(content, key@),
{
    match content {
        Some(input) => parse_kib_field(input, key),
        None => None,
    }
}

impl MemoryReport {
    /// Reports the budget beside what the process status and the memory listing
    /// state, where they could be read.
    pub fn collect(
        budget: &MemoryBudget,
        process_status: Option<&str>,
        memory_listing: Option<&str>,
    ) -> (report: Self)
        requires
            budget.wf(),
        ensures
            report.ramforge_current_bytes == budget@.used(),
            report.ramforge_peak_bytes == budget@.peak,
            report.ramforge_budget_bytes == budget@.total,
            report.process_rss_bytes == content_bytes(process_status, "VmRSS:"@),
            report.system_total_bytes == content_bytes(memory_listing, "MemTotal:"@),
            report.system_available_bytes == content_bytes(memory_listing, "MemAvailable:"@),
    {
        MemoryReport {
            ramforge_current_bytes: budget.used_bytes(),
            ramforge_peak_bytes: budget.peak_used_bytes(),
            ramforge_budget_bytes: budget.total_bytes(),
            process_rss_bytes: read_field(process_status, "VmRSS:"),
            system_total_bytes: read_field(memory_listing, "MemTotal:"),
            system_available_bytes: read_field(memory_listing, "MemAvailable:"),
        }
    }
}

/// A report never shows more in use than the peak, nor a peak above the budget.
pub proof fn lemma_report_ordered(budget: &MemoryBudget)
    requires
        budget.wf(),
    ensures
        budget@.used() <= budget@.peak <= budget@.total,
{
    budget.lemma_wf();
}

/// An amount comes from the first line that starts with the key: it is 1024 times
/// the number that is the line's second word, and unknown where there is no such
/// line, number or amount.
pub proof fn lemma_field_bytes(input: Seq<char>, key: Seq<char>)
    ensures
        ({
            let lines = scan::lines(input);
            let found = field_bytes(input, key);
            &&& found is Some ==> exists|i: int|
                0 <= i < lines.len() && text::has_prefix(#[trigger] lines[i], key)
                    && scan::words(lines[i]).len() >= 2 && scan::number(
                    scan::words(lines[i])[1],
                    u64::MAX as int,
                ) is Some && scan::number(scan::words(lines[i])[1], u64::MAX as int)->0 * 1024
                    == found->0 && forall|j: int|
                    0 <= j < i ==> !text::has_prefix(#[trigger] lines[j], key)
            &&& forall|i: int|
                0 <= i < lines.len() && text::has_prefix(#[trigger] lines[i], key) && (forall|
                    j: int,
                |
                    0 <= j < i ==> !text::has_prefix(#[trigger] lines[j], key)) ==> found
                    == stated_bytes(lines[i])
        }),
{
    let lines = scan::lines(input);
    lemma_keyed_line(lines, key);
    if field_bytes(input, key) is Some {
        let line = keyed_line(lines, key)->0;
        scan::lemma_number_range(scan::words(line)[1], u64::MAX as int);
    }
}

proof fn lemma_keyed_line(lines: Seq<Seq<char>>, key: Seq<char>)
    ensures
        keyed_line(lines, key) is Some ==> exists|i: int|
            0 <= i < lines.len() && text::has_prefix(#[trigger] lines[i], key) && lines[i]
                == keyed_line(lines, key)->0 && forall|j: int|
                0 <= j < i ==> !text::has_prefix(#[trigger] lines[j], key),
        keyed_line(lines, key) is None ==> forall|i: int|
            0 <= i < lines.len() ==> !text::has_prefix(#[trigger] lines[i], key),
    decreases lines.len(),
{
    if lines.len() > 0 {
        let shorter = lines.drop_last();
        let end = lines.len() - 1;
        lemma_keyed_line(shorter, key);
        assert(forall|i: int| 0 <= i < end ==> #[trigger] shorter[i] == lines[i]);
        if keyed_line(shorter, key) is Some {
            let i = choose|i: int|
                0 <= i < shorter.len() && text::has_prefix(#[trigger] shorter[i], key) && shorter[i]
                    == keyed_line(shorter, key)->0 && forall|j: int|
                    0 <= j < i ==> !text::has_prefix(#[trigger] shorter[j], key);
            assert forall|j: int| 0 <= j < i implies !text::has_prefix(
                #[trigger] lines[j],
                key,
            ) by {
                assert(!text::has_prefix(shorter[j], key));
            }
            assert(lines[i] == keyed_line(lines, key)->0);
        } else {
            assert forall|j: int| 0 <= j < end implies !text::has_prefix(
                #[trigger] lines[j],
                key,
            ) by {
                assert(!text::has_prefix(shorter[j], key));
            }
            assert(lines[end] == lines.last());
        }
    }
}

} // verus!
