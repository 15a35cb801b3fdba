//! Descriptor-only bounded read planning for streamed layers.

use vstd::prelude::*;
use vstd::string::*;

use crate::gguf;
use crate::gguf::TensorDescriptor;
use crate::text;

verus! {

/// Alignment and metadata gaps up to this size may be read as bounded overhead.
pub const MAX_COALESCED_GAP_BYTES: u64 = 4096;

/// A grouped temporary buffer may never exceed this span.
pub const MAX_COALESCED_SPAN_BYTES: u64 = 67108864;

#[derive(Debug, Clone, Copy, PartialEq, Eq, Structural)]
pub struct PlannedTensor {
    pub descriptor_index: usize,
    pub offset_in_range: u64,
}

#[derive(Debug, Clone, PartialEq, Eq)]
pub struct PlannedReadRange {
    pub file_offset: u64,
    pub byte_length: u64,
    pub logical_bytes: u64,
    pub gap_bytes: u64,
    pub tensors: Vec<PlannedTensor>,
}

#[derive(Debug, Clone, PartialEq, Eq)]
pub struct LayerReadPlan {
    pub logical_tensor_count: usize,
    pub logical_bytes: u64,
    pub physical_bytes: u64,
    pub gap_bytes: u64,
    pub ranges: Vec<PlannedReadRange>,
}

/// The content of one planned read.
pub struct RangeFacts {
    pub file_offset: int,
    pub byte_length: int,
    pub logical_bytes: int,
    pub gap_bytes: int,
    pub tensors: Seq<PlannedTensor>,
}

impl View for PlannedReadRange {
    type V = RangeFacts;

    open spec fn view(&self) -> RangeFacts {
        RangeFacts {
            file_offset: self.file_offset as int,
            byte_length: self.byte_length as int,
            logical_bytes: self.logical_bytes as int,
            gap_bytes: self.gap_bytes as int,
            tensors: self.tensors@,
        }
    }
}

pub open spec fn range_facts(ranges: Seq<PlannedReadRange>) -> Seq<RangeFacts> {
    Seq::new(ranges.len(), |i: int| ranges[i]@)
}

/// The content of a read plan.
pub struct ReadPlanFacts {
    pub logical_tensor_count: nat,
    pub logical_bytes: int,
    pub physical_bytes: int,
    pub gap_bytes: int,
    pub ranges: Seq<RangeFacts>,
}

impl View for LayerReadPlan {
    type V = ReadPlanFacts;

    open spec fn view(&self) -> ReadPlanFacts {
        ReadPlanFacts {
            logical_tensor_count: self.logical_tensor_count as nat,
            logical_bytes: self.logical_bytes as int,
            physical_bytes: self.physical_bytes as int,
            gap_bytes: self.gap_bytes as int,
            ranges: range_facts(self.ranges@),
        }
    }
}

pub open spec fn tensor_length(tensor: gguf::TensorFacts) -> int {
    tensor.byte_length->0 as int
}

pub open spec fn tensor_end(tensor: gguf::TensorFacts) -> int {
    tensor.file_offset + tensor_length(tensor)
}

/// Every tensor has a known extent that ends inside the 64-bit file space.
pub open spec fn extents_known(tensors: Seq<gguf::TensorFacts>) -> bool {
    forall|i: int|
        0 <= i < tensors.len() ==> (#[trigger] tensors[i]).byte_length is Some && tensor_end(
            tensors[i],
        ) <= u64::MAX
}

/// The sum of the tensor lengths, or the message of the first tensor that has no
/// usable extent or carries the sum out of range.
pub open spec fn logical_total(tensors: Seq<gguf::TensorFacts>) -> Result<int, Seq<char>>
    decreases tensors.len(),
{
    if tensors.len() == 0 {
        Ok(0)
    } else {
        let tensor = tensors.last();
        match logical_total(tensors.drop_last()) {
            Err(message) => Err(message),
            Ok(total) => if tensor.byte_length is None {
                Err("tensor '"@ + tensor.name + "' byte length is unknown"@)
            } else if tensor_end(tensor) > u64::MAX {
                Err("tensor '"@ + tensor.name + "' file range overflows"@)
            } else if total + tensor_length(tensor) > u64::MAX {
                Err("layer logical tensor byte count overflow"@)
            } else {
                Ok(total + tensor_length(tensor))
            },
        }
    }
}

/// Tensor `left` is read before tensor `right`: by offset, then by index.
pub open spec fn reads_before(tensors: Seq<gguf::TensorFacts>, left: int, right: int) -> bool {
    tensors[left].file_offset < tensors[right].file_offset || (tensors[left].file_offset
        == tensors[right].file_offset && left < right)
}

/// `order` lists every tensor index once, in reading order.
pub open spec fn is_file_order(tensors: Seq<gguf::TensorFacts>, order: Seq<int>) -> bool {
    &&& order.len() == tensors.len()
    &&& forall|k: int| 0 <= k < order.len() ==> 0 <= #[trigger] order[k] < tensors.len()
    &&& forall|j: int, k: int|
        0 <= j < k < order.len() ==> #[trigger] reads_before(tensors, order[j], order[k])
}

/// The position at which index `item` enters an ordered list.
pub open spec fn insertion_point(
    tensors: Seq<gguf::TensorFacts>,
    order: Seq<int>,
    item: int,
) -> int
    decreases order.len(),
{
    if order.len() == 0 || reads_before(tensors, order.last(), item) {
        order.len() as int
    } else {
        insertion_point(tensors, order.drop_last(), item)
    }
}

/// The indices `0..count` in reading order.
pub open spec fn file_order(tensors: Seq<gguf::TensorFacts>, count: nat) -> Seq<int>
    decreases count,
{
    if count == 0 {
        Seq::empty()
    } else {
        let shorter = file_order(tensors, (count - 1) as nat);
        shorter.insert(insertion_point(tensors, shorter, count - 1), count - 1)
    }
}

/// Adds one tensor to the planned ranges: it joins the last range where the gap
/// and the resulting span are within bounds, and starts a range of its own
/// otherwise. A tensor that begins before the last range ends has no place.
pub open spec fn extend_ranges(
    ranges: Seq<RangeFacts>,
    tensor: gguf::TensorFacts,
    index: int,
) -> Option<Seq<RangeFacts>> {
    let start = tensor.file_offset as int;
    let length = tensor_length(tensor);
    let fresh = RangeFacts {
        file_offset: start,
        byte_length: length,
        logical_bytes: length,
        gap_bytes: 0,
        tensors: seq![PlannedTensor { descriptor_index: index as usize, offset_in_range: 0 }],
    };
    if ranges.len() == 0 {
        Some(seq![fresh])
    } else {
        let current = ranges.last();
        let gap = start - (current.file_offset + current.byte_length);
        let span = start + length - current.file_offset;
        if gap < 0 {
            None
        } else if gap <= MAX_COALESCED_GAP_BYTES && span <= MAX_COALESCED_SPAN_BYTES {
            let joined = RangeFacts {
                file_offset: current.file_offset,
                byte_length: span,
                logical_bytes: current.logical_bytes + length,
                gap_bytes: current.gap_bytes + gap,
                tensors: current.tensors.push(
                    PlannedTensor {
                        descriptor_index: index as usize,
                        offset_in_range: (start - current.file_offset) as u64,
                    },
                ),
            };
            Some(ranges.drop_last().push(joined))
        } else {
            Some(ranges.push(fresh))
        }
    }
}

/// The ranges planned for the tensors listed in `order`.
pub open spec fn coalesce(tensors: Seq<gguf::TensorFacts>, order: Seq<int>) -> Result<
    Seq<RangeFacts>,
    Seq<char>,
>
    decreases order.len(),
{
    if order.len() == 0 {
        Ok(Seq::empty())
    } else {
        match coalesce(tensors, order.drop_last()) {
            Err(message) => Err(message),
            Ok(ranges) => match extend_ranges(ranges, tensors[order.last()], order.last()) {
                Some(extended) => Ok(extended),
                None => Err(
                    "tensor ranges overlap at descriptor index "@ + text::decimal(
                        order.last() as nat,
                    ),
                ),
            },
        }
    }
}

pub open spec fn total_physical(ranges: Seq<RangeFacts>) -> int
    decreases ranges.len(),
{
    if ranges.len() == 0 {
        0
    } else {
        total_physical(ranges.drop_last()) + ranges.last().byte_length
    }
}

pub open spec fn total_gap(ranges: Seq<RangeFacts>) -> int
    decreases ranges.len(),
{
    if ranges.len() == 0 {
        0
    } else {
        total_gap(ranges.drop_last()) + ranges.last().gap_bytes
    }
}

/// The read plan of a layer.
pub open spec fn read_plan(tensors: Seq<gguf::TensorFacts>) -> Result<ReadPlanFacts, Seq<char>> {
    match logical_total(tensors) {
        Err(message) => Err(message),
        Ok(logical) => match coalesce(tensors, file_order(tensors, tensors.len())) {
            Err(message) => Err(message),
            Ok(ranges) => Ok(
                ReadPlanFacts {
                    logical_tensor_count: tensors.len(),
                    logical_bytes: logical,
                    physical_bytes: total_physical(ranges),
                    gap_bytes: total_gap(ranges),
                    ranges,
                },
            ),
        },
    }
}

pub open spec fn read_plan_result(result: Result<LayerReadPlan, String>) -> Result<
    ReadPlanFacts,
    Seq<char>,
> {
    match result {
        Ok(plan) => Ok(plan@),
        Err(message) => Err(message@),
    }
}

/// A failing prefix decides the outcome.
proof fn lemma_logical_total_prefix(tensors: Seq<gguf::TensorFacts>, upto: int)
    requires
        0 <= upto <= tensors.len(),
        logical_total(tensors.take(upto)) is Err,
    ensures
        logical_total(tensors) == logical_total(tensors.take(upto)),
    decreases tensors.len() - upto,
{
    if upto < tensors.len() {
        assert(tensors.take(upto + 1).drop_last() =~= tensors.take(upto));
        lemma_logical_total_prefix(tensors, upto + 1);
    } else {
        assert(tensors.take(upto) =~= tensors);
    }
}

proof fn lemma_coalesce_prefix(tensors: Seq<gguf::TensorFacts>, order: Seq<int>, upto: int)
    requires
        0 <= upto <= order.len(),
        coalesce(tensors, order.take(upto)) is Err,
    ensures
        coalesce(tensors, order) == coalesce(tensors, order.take(upto)),
    decreases order.len() - upto,
{
    if upto < order.len() {
        assert(order.take(upto + 1).drop_last() =~= order.take(upto));
        lemma_coalesce_prefix(tensors, order, upto + 1);
    } else {
        assert(order.take(upto) =~= order);
    }
}

proof fn lemma_insertion_point(tensors: Seq<gguf::TensorFacts>, order: Seq<int>, item: int)
    ensures
        0 <= insertion_point(tensors, order, item) <= order.len(),
        forall|k: int|
            insertion_point(tensors, order, item) <= k < order.len() ==> !reads_before(
                tensors,
                #[trigger] order[k],
                item,
            ),
        insertion_point(tensors, order, item) > 0 ==> reads_before(
            tensors,
            order[insertion_point(tensors, order, item) - 1],
            item,
        ),
    decreases order.len(),
{
    if order.len() > 0 && !reads_before(tensors, order.last(), item) {
        lemma_insertion_point(tensors, order.drop_last(), item);
        assert forall|k: int|
            insertion_point(tensors, order, item) <= k < order.len() implies !reads_before(
            tensors,
            #[trigger] order[k],
            item,
        ) by {
            if k < order.len() - 1 {
                assert(order.drop_last()[k] == order[k]);
            }
        }
    }
}

/// `file_order` lists the first `count` indices once each, in reading order.
pub proof fn lemma_file_order(tensors: Seq<gguf::TensorFacts>, count: nat)
    requires
        count <= tensors.len(),
    ensures
        is_file_order(tensors.take(count as int), file_order(tensors, count)),
        file_order(tensors, count).to_set() =~= Set::new(|i: int| 0 <= i < count),
    decreases count,
{
    if count == 0 {
        assert(file_order(tensors, 0).to_set() =~= Set::new(|i: int| 0 <= i < count));
    } else {
        let shorter = file_order(tensors, (count - 1) as nat);
        let item = count - 1;
        lemma_file_order(tensors, (count - 1) as nat);
        lemma_insertion_point(tensors, shorter, item);
        let at = insertion_point(tensors, shorter, item);
        let order = file_order(tensors, count);
        let before = tensors.take(count - 1);
        let now = tensors.take(count as int);
        assert forall|k: int| 0 <= k < shorter.len() implies 0 <= #[trigger] shorter[k] < count
            - 1 by {}
        assert(order.len() == shorter.len() + 1);
        assert forall|k: int| 0 <= k < order.len() implies order[k] == (if k < at {
            shorter[k]
        } else if k == at {
            item
        } else {
            shorter[k - 1]
        }) by {}
        assert forall|j: int, k: int| 0 <= j < k < order.len() implies #[trigger] reads_before(
            now,
            order[j],
            order[k],
        ) by {
            if j != at && k != at {
                let jj = if j < at { j } else { j - 1 };
                let kk = if k < at { k } else { k - 1 };
                assert(reads_before(before, shorter[jj], shorter[kk]));
            } else if k == at {
                if j < at - 1 {
                    assert(reads_before(before, shorter[j], shorter[at - 1]));
                }
                assert(reads_before(tensors, shorter[at - 1], item));
            } else {
                assert(!reads_before(tensors, shorter[k - 1], item));
            }
        }
        assert forall|i: int| order.to_set().contains(i) <==> 0 <= i < count by {
            if order.to_set().contains(i) {
                let k = choose|k: int| 0 <= k < order.len() && order[k] == i;
            }
            if 0 <= i < count {
                if i == item {
                    assert(order[at] == i);
                } else {
                    assert(shorter.to_set().contains(i));
                    let k = choose|k: int| 0 <= k < shorter.len() && shorter[k] == i;
                    if k < at {
                        assert(order[k] == i);
                    } else {
                        assert(order[k + 1] == i);
                    }
                }
            }
        }
        assert(order.to_set() =~= Set::new(|i: int| 0 <= i < count));
    }
}

/// The descriptor indices that `ranges` reads, in the order they are read.
pub open spec fn listed(ranges: Seq<RangeFacts>) -> Seq<int>
    decreases ranges.len(),
{
    if ranges.len() == 0 {
        Seq::empty()
    } else {
        listed(ranges.drop_last()) + indices(ranges.last().tensors)
    }
}

pub open spec fn indices(tensors: Seq<PlannedTensor>) -> Seq<int> {
    Seq::new(tensors.len(), |i: int| tensors[i].descriptor_index as int)
}

pub open spec fn total_logical(ranges: Seq<RangeFacts>) -> int
    decreases ranges.len(),
{
    if ranges.len() == 0 {
        0
    } else {
        total_logical(ranges.drop_last()) + ranges.last().logical_bytes
    }
}

pub open spec fn range_end(range: RangeFacts) -> int {
    range.file_offset + range.byte_length
}

/// A planned tensor lies inside its range, at the place its descriptor gives.
pub open spec fn placed(
    tensors: Seq<gguf::TensorFacts>,
    range: RangeFacts,
    planned: PlannedTensor,
) -> bool {
    &&& planned.descriptor_index < tensors.len()
    &&& range.file_offset + planned.offset_in_range
        == tensors[planned.descriptor_index as int].file_offset
    &&& tensor_end(tensors[planned.descriptor_index as int]) <= range_end(range)
}

/// The tensor that a range reads at place `k`.
pub open spec fn tensor_at(
    tensors: Seq<gguf::TensorFacts>,
    range: RangeFacts,
    k: int,
) -> gguf::TensorFacts {
    tensors[range.tensors[k].descriptor_index as int]
}

/// One range is a bounded read: its bytes are tensor bytes plus gaps, no gap
/// between two of its tensors is larger than the limit, a grouped range stays
/// within the span limit, and its tensors fill it from its start to its end.
pub open spec fn range_bounded(tensors: Seq<gguf::TensorFacts>, range: RangeFacts) -> bool {
    &&& range.file_offset >= 0
    &&& range.byte_length == range.logical_bytes + range.gap_bytes
    &&& 0 <= range.logical_bytes
    &&& range_end(range) <= u64::MAX
    &&& range.tensors.len() >= 1
    &&& 0 <= range.gap_bytes <= MAX_COALESCED_GAP_BYTES * (range.tensors.len() - 1)
    &&& range.tensors.len() > 1 ==> range.byte_length <= MAX_COALESCED_SPAN_BYTES
    &&& forall|k: int|
        0 <= k < range.tensors.len() ==> placed(tensors, range, #[trigger] range.tensors[k])
    &&& forall|j: int, k: int|
        #![trigger range.tensors[j], range.tensors[k]]
        0 <= j && k == j + 1 && k < range.tensors.len() ==> 0 <= tensor_at(
            tensors,
            range,
            k,
        ).file_offset - tensor_end(tensor_at(tensors, range, j)) <= MAX_COALESCED_GAP_BYTES
    &&& tensor_at(tensors, range, 0).file_offset == range.file_offset
    &&& tensor_end(tensor_at(tensors, range, range.tensors.len() - 1)) == range_end(range)
}

/// The first tensor of `right` could not have joined `left`: the gap or the span
/// would be larger than its limit.
pub open spec fn cannot_merge(
    tensors: Seq<gguf::TensorFacts>,
    left: RangeFacts,
    right: RangeFacts,
) -> bool {
    ||| right.file_offset - range_end(left) > MAX_COALESCED_GAP_BYTES
    ||| tensor_end(tensor_at(tensors, right, 0)) - left.file_offset > MAX_COALESCED_SPAN_BYTES
}

/// The ranges are bounded, ascend without overlapping, miss no merge that is
/// allowed and read `order`.
pub open spec fn ranges_cover(
    tensors: Seq<gguf::TensorFacts>,
    order: Seq<int>,
    ranges: Seq<RangeFacts>,
) -> bool {
    &&& forall|i: int|
        0 <= i < ranges.len() ==> range_bounded(tensors, #[trigger] ranges[i])
    &&& forall|i: int, j: int|
        #![trigger ranges[i], ranges[j]]
        0 <= i < j < ranges.len() ==> range_end(ranges[i]) <= ranges[j].file_offset
    &&& forall|i: int, j: int|
        #![trigger ranges[i], ranges[j]]
        0 <= i && j == i + 1 && j < ranges.len() ==> cannot_merge(tensors, ranges[i], ranges[j])
    &&& listed(ranges) == order
    &&& total_physical(ranges) == total_logical(ranges) + total_gap(ranges)
    &&& 0 <= total_gap(ranges)
    &&& 0 <= total_logical(ranges)
    &&& ranges.len() > 0 ==> total_physical(ranges) <= range_end(ranges.last())
    &&& ranges.len() == 0 ==> total_physical(ranges) == 0
}

proof fn lemma_extend_covers(
    tensors: Seq<gguf::TensorFacts>,
    order: Seq<int>,
    ranges: Seq<RangeFacts>,
    index: int,
)
    requires
        extents_known(tensors),
        tensors.len() <= usize::MAX,
        0 <= index < tensors.len(),
        ranges_cover(tensors, order, ranges),
        extend_ranges(ranges, tensors[index], index) is Some,
    ensures
        ranges_cover(tensors, order.push(index), extend_ranges(ranges, tensors[index], index)->0),
        total_logical(extend_ranges(ranges, tensors[index], index)->0) == total_logical(ranges)
            + tensor_length(tensors[index]),
{
    let tensor = tensors[index];
    let extended = extend_ranges(ranges, tensor, index)->0;
    let start = tensor.file_offset as int;
    let length = tensor_length(tensor);
    let last = extended.last();
    let head = extended.drop_last();
    assert(extended =~= head.push(last));
    if ranges.len() > 0 && start - range_end(ranges.last()) <= MAX_COALESCED_GAP_BYTES && start
        + length - ranges.last().file_offset <= MAX_COALESCED_SPAN_BYTES {
        let current = ranges.last();
        assert(range_bounded(tensors, current));
        assert(head =~= ranges.drop_last());
        assert(indices(last.tensors) =~= indices(current.tensors).push(index));
        assert(listed(extended) =~= order.push(index));
        assert forall|k: int| 0 <= k < last.tensors.len() implies placed(
            tensors,
            last,
            #[trigger] last.tensors[k],
        ) by {
            if k < current.tensors.len() {
                assert(placed(tensors, current, current.tensors[k]));
            }
        }
        assert(last.gap_bytes <= MAX_COALESCED_GAP_BYTES * (last.tensors.len() - 1)) by {
            let count = current.tensors.len() as int;
            assert(current.gap_bytes <= MAX_COALESCED_GAP_BYTES * (count - 1));
            assert(MAX_COALESCED_GAP_BYTES * (count - 1) + MAX_COALESCED_GAP_BYTES
                == MAX_COALESCED_GAP_BYTES * count) by (nonlinear_arith);
        }
        assert(last.tensors[0] == current.tensors[0]);
        assert forall|j: int, k: int|
            #![trigger last.tensors[j], last.tensors[k]]
            0 <= j && k == j + 1 && k < last.tensors.len() implies 0 <= tensor_at(
            tensors,
            last,
            k,
        ).file_offset - tensor_end(tensor_at(tensors, last, j)) <= MAX_COALESCED_GAP_BYTES by {
            assert(last.tensors[j] == current.tensors[j]);
            if k < current.tensors.len() {
                assert(last.tensors[k] == current.tensors[k]);
            }
        }
        assert(range_bounded(tensors, last));
        assert forall|i: int| 0 <= i < extended.len() implies range_bounded(
            tensors,
            #[trigger] extended[i],
        ) by {
            if i < head.len() {
                assert(extended[i] == ranges[i]);
            }
        }
        assert forall|i: int, j: int|
            #![trigger extended[i], extended[j]]
            0 <= i < j < extended.len() implies range_end(extended[i]) <= extended[j].file_offset by {
            assert(extended[i] == ranges[i]);
            if j < head.len() {
                assert(extended[j] == ranges[j]);
            } else {
                assert(ranges[j] == current);
            }
        }
        assert forall|i: int, j: int|
            #![trigger extended[i], extended[j]]
            0 <= i && j == i + 1 && j < extended.len() implies cannot_merge(
            tensors,
            extended[i],
            extended[j],
        ) by {
            assert(extended[i] == ranges[i]);
            assert(cannot_merge(tensors, ranges[i], ranges[j]));
        }
    } else {
        assert(head =~= ranges);
        assert(indices(last.tensors) =~= seq![index]);
        assert(listed(extended) =~= order.push(index));
        assert(placed(tensors, last, last.tensors[0]));
        assert(range_bounded(tensors, last));
        assert forall|i: int| 0 <= i < extended.len() implies range_bounded(
            tensors,
            #[trigger] extended[i],
        ) by {
            if i < head.len() {
                assert(extended[i] == ranges[i]);
            }
        }
        assert forall|i: int, j: int|
            #![trigger extended[i], extended[j]]
            0 <= i < j < extended.len() implies range_end(extended[i]) <= extended[j].file_offset by {
            assert(extended[i] == ranges[i]);
            if j < head.len() {
                assert(extended[j] == ranges[j]);
            } else if i < ranges.len() - 1 {
                assert(range_end(ranges[i]) <= ranges[ranges.len() - 1].file_offset);
                assert(range_bounded(tensors, ranges[ranges.len() - 1]));
            }
        }
        assert forall|i: int, j: int|
            #![trigger extended[i], extended[j]]
            0 <= i && j == i + 1 && j < extended.len() implies cannot_merge(
            tensors,
            extended[i],
            extended[j],
        ) by {
            assert(extended[i] == ranges[i]);
            if j < head.len() {
                assert(extended[j] == ranges[j]);
            }
        }
    }
}

proof fn lemma_coalesce_covers(tensors: Seq<gguf::TensorFacts>, order: Seq<int>)
    requires
        extents_known(tensors),
        tensors.len() <= usize::MAX,
        forall|k: int| 0 <= k < order.len() ==> 0 <= #[trigger] order[k] < tensors.len(),
        coalesce(tensors, order) is Ok,
    ensures
        ranges_cover(tensors, order, coalesce(tensors, order)->Ok_0),
    decreases order.len(),
{
    if order.len() > 0 {
        let shorter = order.drop_last();
        assert forall|k: int| 0 <= k < shorter.len() implies 0 <= #[trigger] shorter[k]
            < tensors.len() by {
            assert(shorter[k] == order[k]);
        }
        lemma_coalesce_covers(tensors, shorter);
        lemma_extend_covers(tensors, shorter, coalesce(tensors, shorter)->Ok_0, order.last());
        assert(shorter.push(order.last()) =~= order);
    } else {
        assert(listed(Seq::empty()) =~= order);
    }
}

proof fn lemma_logical_total_extents(tensors: Seq<gguf::TensorFacts>)
    requires
        logical_total(tensors) is Ok,
    ensures
        extents_known(tensors),
        0 <= logical_total(tensors)->Ok_0 <= u64::MAX,
    decreases tensors.len(),
{
    if tensors.len() > 0 {
        lemma_logical_total_extents(tensors.drop_last());
        assert forall|i: int| 0 <= i < tensors.len() implies (
        #[trigger] tensors[i]).byte_length is Some && tensor_end(tensors[i]) <= u64::MAX by {
            if i < tensors.len() - 1 {
                assert(tensors.drop_last()[i] == tensors[i]);
            }
        }
    }
}

/// The bytes of all tensors.
pub open spec fn lengths_sum(tensors: Seq<gguf::TensorFacts>) -> int
    decreases tensors.len(),
{
    if tensors.len() == 0 {
        0
    } else {
        lengths_sum(tensors.drop_last()) + tensor_length(tensors.last())
    }
}

proof fn lemma_logical_total_when(tensors: Seq<gguf::TensorFacts>)
    ensures
        0 <= lengths_sum(tensors),
        logical_total(tensors) is Ok <==> extents_known(tensors) && lengths_sum(tensors)
            <= u64::MAX,
        logical_total(tensors) matches Ok(total) ==> total == lengths_sum(tensors),
    decreases tensors.len(),
{
    if tensors.len() > 0 {
        let before = tensors.drop_last();
        lemma_logical_total_when(before);
        if logical_total(tensors) is Ok {
            lemma_logical_total_extents(tensors);
        }
        if extents_known(tensors) {
            assert(tensors.last() == tensors[tensors.len() - 1]);
            assert forall|i: int| 0 <= i < before.len() implies (
            #[trigger] before[i]).byte_length is Some && tensor_end(before[i]) <= u64::MAX by {
                assert(before[i] == tensors[i]);
            }
        }
    }
}

/// The listed tensors follow each other without overlapping.
pub open spec fn separate(tensors: Seq<gguf::TensorFacts>, order: Seq<int>) -> bool {
    forall|j: int, k: int|
        #![trigger order[j], order[k]]
        0 <= j < k < order.len() ==> tensor_end(tensors[order[j]]) <= tensors[order[k]].file_offset
}

proof fn lemma_coalesce_when(tensors: Seq<gguf::TensorFacts>, order: Seq<int>)
    requires
        extents_known(tensors),
        tensors.len() <= usize::MAX,
        forall|k: int| 0 <= k < order.len() ==> 0 <= #[trigger] order[k] < tensors.len(),
    ensures
        coalesce(tensors, order) is Ok <==> separate(tensors, order),
    decreases order.len(),
{
    if order.len() > 0 {
        let shorter = order.drop_last();
        let end = order.len() - 1;
        assert forall|k: int| 0 <= k < shorter.len() implies 0 <= #[trigger] shorter[k]
            < tensors.len() by {
            assert(shorter[k] == order[k]);
        }
        lemma_coalesce_when(tensors, shorter);
        if separate(tensors, order) {
            assert forall|j: int, k: int|
                #![trigger shorter[j], shorter[k]]
                0 <= j < k < shorter.len() implies tensor_end(tensors[shorter[j]])
                <= tensors[shorter[k]].file_offset by {
                assert(shorter[j] == order[j] && shorter[k] == order[k]);
            }
        }
        if separate(tensors, shorter) {
            lemma_coalesce_covers(tensors, shorter);
            let ranges = coalesce(tensors, shorter)->Ok_0;
            if shorter.len() > 0 {
                let last = ranges.last();
                assert(ranges.len() > 0);
                assert(range_bounded(tensors, ranges[ranges.len() - 1]));
                let listing = listed(ranges.drop_last()) + indices(last.tensors);
                assert(listing == shorter);
                assert(listing.last() == last.tensors[last.tensors.len() - 1].descriptor_index);
                assert(shorter.last() == order[end - 1]);
                assert(tensor_end(tensors[order[end - 1]]) == range_end(last));
                if coalesce(tensors, order) is Ok {
                    assert forall|j: int, k: int|
                        #![trigger order[j], order[k]]
                        0 <= j < k < order.len() implies tensor_end(tensors[order[j]])
                        <= tensors[order[k]].file_offset by {
                        assert(shorter[j] == order[j]);
                        if k < end {
                            assert(shorter[k] == order[k]);
                        } else if j < end - 1 {
                            assert(shorter[end - 1] == order[end - 1]);
                            assert(tensors[order[end - 1]].byte_length is Some);
                        }
                    }
                }
            }
        }
        if coalesce(tensors, order) is Ok {
            assert(coalesce(tensors, shorter) is Ok);
        }
    }
}

/// A layer has a read plan exactly where every tensor has a known extent inside
/// the file space, the lengths add up in 64 bits, and no tensor begins before one
/// that is read earlier ends.
pub proof fn lemma_read_plan_exists(tensors: Seq<gguf::TensorFacts>)
    requires
        tensors.len() <= usize::MAX,
    ensures
        read_plan(tensors) is Ok <==> {
            &&& extents_known(tensors)
            &&& lengths_sum(tensors) <= u64::MAX
            &&& forall|i: int, j: int|
                0 <= i < tensors.len() && 0 <= j < tensors.len() && #[trigger] reads_before(
                    tensors,
                    i,
                    j,
                ) ==> tensor_end(tensors[i]) <= tensors[j].file_offset
        },
{
    let order = file_order(tensors, tensors.len());
    lemma_logical_total_when(tensors);
    lemma_file_order(tensors, tensors.len());
    assert(tensors.take(tensors.len() as int) =~= tensors);
    if logical_total(tensors) is Ok {
        lemma_coalesce_when(tensors, order);
        if separate(tensors, order) {
            assert forall|i: int, j: int|
                0 <= i < tensors.len() && 0 <= j < tensors.len() && #[trigger] reads_before(
                    tensors,
                    i,
                    j,
                ) implies tensor_end(tensors[i]) <= tensors[j].file_offset by {
                assert(order.to_set().contains(i) && order.to_set().contains(j));
                let p = choose|p: int| 0 <= p < order.len() && order[p] == i;
                let q = choose|q: int| 0 <= q < order.len() && order[q] == j;
                if q < p {
                    assert(reads_before(tensors, order[q], order[p]));
                }
            }
        }
        if forall|i: int, j: int|
            0 <= i < tensors.len() && 0 <= j < tensors.len() && #[trigger] reads_before(
                tensors,
                i,
                j,
            ) ==> tensor_end(tensors[i]) <= tensors[j].file_offset {
            assert forall|j: int, k: int|
                #![trigger order[j], order[k]]
                0 <= j < k < order.len() implies tensor_end(tensors[order[j]])
                <= tensors[order[k]].file_offset by {
                assert(reads_before(tensors, order[j], order[k]));
            }
        }
    }
}

/// A read plan reads every tensor of the layer exactly once, in file order, in
/// ascending ranges that do not overlap. Each range is bounded, every gap in it
/// too, as `range_bounded` says; no two neighbours could have been one read. The
/// bytes read are the tensor bytes plus the gaps.
pub proof fn lemma_read_plan_covers(tensors: Seq<gguf::TensorFacts>)
    requires
        tensors.len() <= usize::MAX,
        read_plan(tensors) is Ok,
    ensures
        ({
            let plan = read_plan(tensors)->Ok_0;
            let order = file_order(tensors, tensors.len());
            &&& is_file_order(tensors, order)
            &&& order.to_set() == Set::new(|i: int| 0 <= i < tensors.len())
            &&& ranges_cover(tensors, order, plan.ranges)
            &&& plan.physical_bytes == total_logical(plan.ranges) + plan.gap_bytes
        }),
{
    lemma_logical_total_extents(tensors);
    lemma_file_order(tensors, tensors.len());
    assert(tensors.take(tensors.len() as int) =~= tensors);
    lemma_coalesce_covers(tensors, file_order(tensors, tensors.len()));
}

/// Sorts the indices of `descriptors` into reading order.
fn order_by_offset(descriptors: &[TensorDescriptor]) -> (order: Vec<usize>)
    ensures
        order@.map_values(|i: usize| i as int) == file_order(
            gguf::facts(descriptors@),
            descriptors@.len(),
        ),
{
    let ghost tensors = gguf::facts(descriptors@);
    let ghost as_index = |i: usize| i as int;
    let mut order: Vec<usize> = Vec::new();
    assert(order@.map_values(as_index) =~= file_order(tensors, 0));
    for item in 0..descriptors.len()
        invariant
            tensors == gguf::facts(descriptors@),
            as_index == (|i: usize| i as int),
            order@.map_values(as_index) == file_order(tensors, item as nat),
            order@.len() == item,
    {
        let ghost sorted = order@.map_values(as_index);
        proof {
            lemma_file_order(tensors, item as nat);
        }
        let mut at: usize = order.len();
        assert(sorted.take(at as int) =~= sorted);
        while at > 0
            invariant_except_break
                insertion_point(tensors, sorted, item as int) == insertion_point(
                    tensors,
                    sorted.take(at as int),
                    item as int,
                ),
            invariant
                tensors == gguf::facts(descriptors@),
                as_index == (|i: usize| i as int),
                sorted == order@.map_values(as_index),
                is_file_order(tensors.take(item as int), sorted),
                at <= order@.len(),
                order@.len() == item,
                item < descriptors@.len(),
            ensures
                at == insertion_point(tensors, sorted, item as int),
            decreases at,
        {
            let previous: usize = order[at - 1];
            proof {
                assert(sorted[at - 1] == previous);
                assert(sorted.take(at as int).last() == previous);
                assert(sorted.take(at as int).drop_last() =~= sorted.take(at - 1));
                assert(tensors[previous as int] == descriptors@[previous as int]@);
                assert(tensors[item as int] == descriptors@[item as int]@);
            }
            if descriptors[previous].file_offset <= descriptors[item].file_offset {
                break;
            }
            at -= 1;
        }
        proof {
            lemma_insertion_point(tensors, sorted, item as int);
        }
        order.insert(at, item);
        assert(order@.map_values(as_index) =~= sorted.insert(at as int, item as int));
    }
    order
}

fn message_about(before: &str, name: &str, after: &str) -> (message: String)
    ensures
        message@ == before@ + name@ + after@,
{
    let mut message = before.to_owned();
    message.append(name);
    message.append(after);
    message
}

pub fn build_layer_read_plan(descriptors: &[TensorDescriptor]) -> (result: Result<
    LayerReadPlan,
    String,
>)
    ensures
        read_plan_result(result) == read_plan(gguf::facts(descriptors@)),
{
    let ghost tensors = gguf::facts(descriptors@);
    let mut logical_bytes: u64 = 0;
    for index in 0..descriptors.len()
        invariant
            tensors == gguf::facts(descriptors@),
            logical_total(tensors.take(index as int)) == Ok::<int, Seq<char>>(
                logical_bytes as int,
            ),
    {
        let ghost upto = tensors.take(index as int + 1);
        proof {
            assert(upto.drop_last() =~= tensors.take(index as int));
            assert(upto.last() == descriptors@[index as int]@);
        }
        let descriptor = &descriptors[index];
        let byte_length: u64 = match descriptor.byte_length {
            Some(byte_length) => byte_length,
            None => {
                proof {
                    lemma_logical_total_prefix(tensors, index as int + 1);
                }
                return Err(
                    message_about("tensor '", descriptor.name.as_str(), "' byte length is unknown"),
                );
            },
        };
        if descriptor.file_offset.checked_add(byte_length).is_none() {
            proof {
                lemma_logical_total_prefix(tensors, index as int + 1);
            }
            return Err(
                message_about("tensor '", descriptor.name.as_str(), "' file range overflows"),
            );
        }
        match logical_bytes.checked_add(byte_length) {
            Some(total) => {
                logical_bytes = total;
            },
            None => {
                proof {
                    lemma_logical_total_prefix(tensors, index as int + 1);
                }
                return Err("layer logical tensor byte count overflow".to_owned());
            },
        }
    }
    proof {
        assert(tensors.take(tensors.len() as int) =~= tensors);
        lemma_logical_total_extents(tensors);
        lemma_file_order(tensors, tensors.len());
    }
    let order = order_by_offset(descriptors);
    let ghost sorted = order@.map_values(|i: usize| i as int);
    let mut ranges: Vec<PlannedReadRange> = Vec::new();
    let mut physical_bytes: u64 = 0;
    let mut gap_bytes: u64 = 0;
    assert(range_facts(ranges@) =~= Seq::empty());
    assert(sorted.take(0) =~= Seq::empty());
    for position in 0..order.len()
        invariant
            tensors == gguf::facts(descriptors@),
            tensors.len() <= usize::MAX,
            sorted == order@.map_values(|i: usize| i as int),
            sorted.len() == order@.len(),
            extents_known(tensors),
            is_file_order(tensors, sorted),
            sorted == file_order(tensors, tensors.len()),
            logical_total(tensors) == Ok::<int, Seq<char>>(logical_bytes as int),
            coalesce(tensors, sorted.take(position as int)) == Ok::<Seq<RangeFacts>, Seq<char>>(
                range_facts(ranges@),
            ),
            physical_bytes == total_physical(range_facts(ranges@)),
            gap_bytes == total_gap(range_facts(ranges@)),
    {
        let index: usize = order[position];
        let ghost before = range_facts(ranges@);
        let ghost upto = sorted.take(position as int + 1);
        proof {
            assert(sorted[position as int] == index);
            assert(tensors[index as int] == descriptors@[index as int]@);
            assert(upto.drop_last() =~= sorted.take(position as int));
            assert(upto.last() == index);
            lemma_coalesce_covers(tensors, sorted.take(position as int));
        }
        let start: u64 = descriptors[index].file_offset;
        let byte_length: u64 = match descriptors[index].byte_length {
            Some(byte_length) => byte_length,
            None => 0,
        };
        let ghost extended = extend_ranges(before, tensors[index as int], index as int);
        proof {
            if extended is Some {
                lemma_extend_covers(tensors, sorted.take(position as int), before, index as int);
                assert(range_bounded(tensors, (extended->0)[(extended->0).len() - 1]));
            }
        }
        let mut joins = false;
        if ranges.len() > 0 {
            let last: usize = ranges.len() - 1;
            proof {
                assert(before[last as int] == ranges@[last as int]@);
                assert(range_bounded(tensors, before[last as int]));
            }
            let current_end: u64 = ranges[last].file_offset + ranges[last].byte_length;
            if start < current_end {
                proof {
                    lemma_coalesce_prefix(tensors, sorted, position as int + 1);
                }
                let mut message = "tensor ranges overlap at descriptor index ".to_owned();
                text::push_decimal(&mut message, index as u64);
                return Err(message);
            }
            let gap: u64 = start - current_end;
            let span: u64 = (start + byte_length) - ranges[last].file_offset;
            joins = gap <= MAX_COALESCED_GAP_BYTES && span <= MAX_COALESCED_SPAN_BYTES;
        }
        if joins {
            let last: usize = ranges.len() - 1;
            let ghost current = before[last as int];
            let ghost earlier = ranges@.drop_last();
            let mut range = ranges.pop().unwrap();
            proof {
                assert(range_facts(earlier) =~= before.drop_last());
            }
            let gap: u64 = start - (range.file_offset + range.byte_length);
            let span: u64 = (start + byte_length) - range.file_offset;
            proof {
                let joined = (extended->0).last();
                assert(extended->0 =~= (extended->0).drop_last().push(joined));
                assert((extended->0).drop_last() =~= before.drop_last());
                assert(total_physical(before) == total_physical(before.drop_last())
                    + current.byte_length);
                assert(total_gap(before) == total_gap(before.drop_last()) + current.gap_bytes);
            }
            range.tensors.push(
                PlannedTensor {
                    descriptor_index: index,
                    offset_in_range: start - range.file_offset,
                },
            );
            physical_bytes = physical_bytes + (span - range.byte_length);
            range.byte_length = span;
            range.logical_bytes = range.logical_bytes + byte_length;
            range.gap_bytes = range.gap_bytes + gap;
            gap_bytes = gap_bytes + gap;
            ranges.push(range);
            assert(range_facts(ranges@) =~= extended->0);
        } else {
            let mut tensors_of_range: Vec<PlannedTensor> = Vec::new();
            tensors_of_range.push(PlannedTensor { descriptor_index: index, offset_in_range: 0 });
            let range = PlannedReadRange {
                file_offset: start,
                byte_length,
                logical_bytes: byte_length,
                gap_bytes: 0,
                tensors: tensors_of_range,
            };
            proof {
                assert(range@.tensors =~= seq![
                    PlannedTensor { descriptor_index: index, offset_in_range: 0 },
                ]);
                assert(extended->0 =~= before.push(range@));
                assert((extended->0).drop_last() =~= before);
            }
            physical_bytes = physical_bytes + byte_length;
            ranges.push(range);
            assert(range_facts(ranges@) =~= extended->0);
        }
    }
    assert(sorted.take(sorted.len() as int) =~= sorted);
    Ok(
        LayerReadPlan {
            logical_tensor_count: descriptors.len(),
            logical_bytes,
            physical_bytes,
            gap_bytes,
            ranges,
        },
    )
}

/// How many ranges hold more than one tensor.
pub open spec fn grouped_count(ranges: Seq<RangeFacts>) -> nat
    decreases ranges.len(),
{
    if ranges.len() == 0 {
        0
    } else {
        grouped_count(ranges.drop_last()) + (if ranges.last().tensors.len() > 1 {
            1nat
        } else {
            0nat
        })
    }
}

/// The length of the longest range that holds more than one tensor.
pub open spec fn largest_grouped(ranges: Seq<RangeFacts>) -> int
    decreases ranges.len(),
{
    if ranges.len() == 0 {
        0
    } else {
        let earlier = largest_grouped(ranges.drop_last());
        if ranges.last().tensors.len() > 1 && ranges.last().byte_length > earlier {
            ranges.last().byte_length
        } else {
            earlier
        }
    }
}

impl LayerReadPlan {
    /// Whether some range reads several tensors at once.
    pub fn has_grouped_range(&self) -> (found: bool)
        ensures
            found == (grouped_count(self@.ranges) > 0),
    {
        let mut found = false;
        for i in 0..self.ranges.len()
            invariant
                found == (grouped_count(self@.ranges.take(i as int)) > 0),
        {
            proof {
                assert(self@.ranges.take(i as int + 1).drop_last() =~= self@.ranges.take(
                    i as int,
                ));
            }
            if self.ranges[i].tensors.len() > 1 {
                found = true;
            }
        }
        assert(self@.ranges.take(self@.ranges.len() as int) =~= self@.ranges);
        found
    }

    /// Size of one buffer that serves every grouped read of the layer. A buffer
    /// is worth keeping only where at least two grouped reads can share it.
    pub fn reusable_group_buffer_bytes(&self) -> (bytes: Option<u64>)
        ensures
            bytes is Some <==> grouped_count(self@.ranges) >= 2,
            bytes is Some ==> bytes->0 == largest_grouped(self@.ranges),
    {
        let mut grouped: usize = 0;
        let mut largest: u64 = 0;
        for i in 0..self.ranges.len()
            invariant
                grouped == grouped_count(self@.ranges.take(i as int)),
                grouped <= i,
                largest == largest_grouped(self@.ranges.take(i as int)),
        {
            proof {
                assert(self@.ranges.take(i as int + 1).drop_last() =~= self@.ranges.take(
                    i as int,
                ));
            }
            if self.ranges[i].tensors.len() > 1 {
                grouped += 1;
                if self.ranges[i].byte_length > largest {
                    largest = self.ranges[i].byte_length;
                }
            }
        }
        assert(self@.ranges.take(self@.ranges.len() as int) =~= self@.ranges);
        if grouped >= 2 {
            Some(largest)
        } else {
            None
        }
    }
}

spec fn order_sum(tensors: Seq<gguf::TensorFacts>, order: Seq<int>) -> int
    decreases order.len(),
{
    if order.len() == 0 {
        0
    } else {
        order_sum(tensors, order.drop_last()) + tensor_length(tensors[order.last()])
    }
}

proof fn lemma_order_sum_insert(
    tensors: Seq<gguf::TensorFacts>,
    order: Seq<int>,
    at: int,
    item: int,
)
    requires
        0 <= at <= order.len(),
    ensures
        order_sum(tensors, order.insert(at, item)) == order_sum(tensors, order) + tensor_length(
            tensors[item],
        ),
    decreases order.len(),
{
    let longer = order.insert(at, item);
    if at == order.len() {
        assert(longer.drop_last() =~= order);
        assert(longer.last() == item);
    } else {
        lemma_order_sum_insert(tensors, order.drop_last(), at, item);
        assert(longer.drop_last() =~= order.drop_last().insert(at, item));
        assert(longer.last() == order.last());
    }
}

proof fn lemma_file_order_sum(tensors: Seq<gguf::TensorFacts>, count: nat)
    requires
        count <= tensors.len(),
    ensures
        order_sum(tensors, file_order(tensors, count)) == lengths_sum(tensors.take(count as int)),
    decreases count,
{
    if count > 0 {
        let last = (count - 1) as nat;
        let shorter = file_order(tensors, last);
        lemma_file_order_sum(tensors, last);
        lemma_insertion_within(tensors, shorter, count - 1);
        lemma_order_sum_insert(
            tensors,
            shorter,
            insertion_point(tensors, shorter, count - 1),
            count - 1,
        );
        assert(tensors.take(count as int).drop_last() =~= tensors.take(last as int));
        assert(tensors.take(count as int).last() == tensors[count - 1]);
    }
}

proof fn lemma_insertion_within(tensors: Seq<gguf::TensorFacts>, order: Seq<int>, item: int)
    ensures
        0 <= insertion_point(tensors, order, item) <= order.len(),
    decreases order.len(),
{
    if order.len() > 0 && !reads_before(tensors, order.last(), item) {
        lemma_insertion_within(tensors, order.drop_last(), item);
    }
}

proof fn lemma_coalesce_sum(tensors: Seq<gguf::TensorFacts>, order: Seq<int>)
    requires
        coalesce(tensors, order) is Ok,
    ensures
        total_logical(coalesce(tensors, order)->Ok_0) == order_sum(tensors, order),
        coalesce(tensors, order)->Ok_0.len() <= order.len(),
        order.len() > 0 ==> coalesce(tensors, order)->Ok_0.len() > 0,
    decreases order.len(),
{
    if order.len() > 0 {
        let earlier = order.drop_last();
        lemma_coalesce_sum(tensors, earlier);
        let ranges = coalesce(tensors, earlier)->Ok_0;
        let extended = coalesce(tensors, order)->Ok_0;
        if ranges.len() == 0 {
            assert(extended.drop_last() =~= Seq::empty());
        } else if extended.len() == ranges.len() {
            assert(extended.drop_last() =~= ranges.drop_last());
        } else {
            assert(extended.drop_last() =~= ranges);
        }
    }
}

proof fn lemma_logical_sum(tensors: Seq<gguf::TensorFacts>)
    requires
        logical_total(tensors) is Ok,
    ensures
        logical_total(tensors)->Ok_0 == lengths_sum(tensors),
    decreases tensors.len(),
{
    if tensors.len() > 0 {
        lemma_logical_sum(tensors.drop_last());
    }
}

/// What a read plan counts: every tensor, the lengths of all of them as logical
/// bytes, and the bytes read as those and the gaps between them. There are no
/// more reads than tensors, and none only where there are no tensors; a gap that
/// is read is at most 4 KiB and a read of several tensors at most 64 MiB.
pub proof fn lemma_read_plan_bytes(tensors: Seq<gguf::TensorFacts>)
    requires
        tensors.len() <= usize::MAX,
        read_plan(tensors) is Ok,
    ensures
        ({
            let plan = read_plan(tensors)->Ok_0;
            &&& plan.logical_tensor_count == tensors.len()
            &&& plan.logical_bytes == lengths_sum(tensors)
            &&& plan.physical_bytes == plan.logical_bytes + plan.gap_bytes
            &&& plan.gap_bytes >= 0
            &&& plan.ranges.len() <= tensors.len()
            &&& tensors.len() > 0 ==> plan.ranges.len() > 0
            &&& forall|i: int|
                0 <= i < plan.ranges.len() ==> {
                    let range = #[trigger] plan.ranges[i];
                    &&& range.byte_length == range.logical_bytes + range.gap_bytes
                    &&& 0 <= range.gap_bytes <= 4096 * (range.tensors.len() - 1)
                    &&& range.tensors.len() > 1 ==> range.byte_length <= 64 * 1024 * 1024
                }
        }),
{
    let plan = read_plan(tensors)->Ok_0;
    lemma_read_plan_covers(tensors);
    lemma_logical_sum(tensors);
    let order = file_order(tensors, tensors.len());
    lemma_file_order_sum(tensors, tensors.len());
    lemma_coalesce_sum(tensors, order);
    assert(tensors.take(tensors.len() as int) =~= tensors);
    assert(order.len() == tensors.len());
    assert forall|i: int| 0 <= i < plan.ranges.len() implies {
        let range = #[trigger] plan.ranges[i];
        &&& range.byte_length == range.logical_bytes + range.gap_bytes
        &&& 0 <= range.gap_bytes <= 4096 * (range.tensors.len() - 1)
        &&& range.tensors.len() > 1 ==> range.byte_length <= 64 * 1024 * 1024
    } by {
        assert(range_bounded(tensors, plan.ranges[i]));
    }
}

/// Which reads are grouped, and how large the largest is: a grouped read holds
/// more than one tensor, none is larger, and one is as large where there is any.
pub proof fn lemma_grouped_reads(ranges: Seq<RangeFacts>)
    ensures
        grouped_count(ranges) <= ranges.len(),
        grouped_count(ranges) > 0 <==> exists|i: int|
            0 <= i < ranges.len() && (#[trigger] ranges[i]).tensors.len() > 1,
        forall|i: int|
            0 <= i < ranges.len() && (#[trigger] ranges[i]).tensors.len() > 1
                ==> ranges[i].byte_length <= largest_grouped(ranges),
        largest_grouped(ranges) == 0 || exists|i: int|
            0 <= i < ranges.len() && (#[trigger] ranges[i]).tensors.len() > 1
                && ranges[i].byte_length == largest_grouped(ranges),
        largest_grouped(ranges) >= 0,
    decreases ranges.len(),
{
    if ranges.len() > 0 {
        let shorter = ranges.drop_last();
        let last = ranges.len() - 1;
        lemma_grouped_reads(shorter);
        assert(forall|i: int| 0 <= i < shorter.len() ==> #[trigger] shorter[i] == ranges[i]);
        if grouped_count(shorter) > 0 {
            let i = choose|i: int|
                0 <= i < shorter.len() && (#[trigger] shorter[i]).tensors.len() > 1;
            assert(ranges[i].tensors.len() > 1);
        }
        if ranges.last().tensors.len() > 1 {
            assert(ranges[last].tensors.len() > 1);
        } else if exists|i: int| 0 <= i < ranges.len() && (#[trigger] ranges[i]).tensors.len() > 1 {
            let i = choose|i: int|
                0 <= i < ranges.len() && (#[trigger] ranges[i]).tensors.len() > 1;
            assert(shorter[i].tensors.len() > 1);
        }
        if largest_grouped(ranges) != 0 && largest_grouped(ranges) == largest_grouped(shorter) {
            let i = choose|i: int|
                0 <= i < shorter.len() && (#[trigger] shorter[i]).tensors.len() > 1
                    && shorter[i].byte_length == largest_grouped(shorter);
            assert(ranges[i].byte_length == largest_grouped(ranges));
        }
        assert forall|i: int|
            0 <= i < ranges.len() && (#[trigger] ranges[i]).tensors.len()
                > 1 implies ranges[i].byte_length <= largest_grouped(ranges) by {
            if i < last {
                assert(shorter[i].byte_length <= largest_grouped(shorter));
            }
        }
    }
}

/// What is read, wanted and skipped over are sums over the ranges.
pub proof fn lemma_range_totals(ranges: Seq<RangeFacts>, range: RangeFacts)
    ensures
        total_physical(Seq::empty()) == 0,
        total_logical(Seq::empty()) == 0,
        total_gap(Seq::empty()) == 0,
        total_physical(ranges.push(range)) == total_physical(ranges) + range.byte_length,
        total_logical(ranges.push(range)) == total_logical(ranges) + range.logical_bytes,
        total_gap(ranges.push(range)) == total_gap(ranges) + range.gap_bytes,
{
    assert(ranges.push(range).drop_last() =~= ranges);
}

} // verus!
