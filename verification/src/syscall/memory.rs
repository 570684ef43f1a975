//! System calls on memory.
use vstd::prelude::*;

use crate::bytes::{le_bytes, push_u32, push_u64};

use super::abi::KernelHeapStats;

verus! {

/// What is known of the memory of the machine and of a process.
#[derive(Clone, Copy, Debug, PartialEq, Eq, Structural)]
pub struct MemoryFacts {
    pub total_eligible_frames: u64,
    pub total_eligible_bytes: u64,
    pub below_4g_frames: u64,
    pub above_4g_frames: u64,
    pub highest_usable_address: u64,
    pub highest_issued_address: u64,
    pub fresh_issued_frames: u64,
    pub fresh_remaining_frames: u64,
    pub available_frames: u64,
    pub available_bytes: u64,
    pub live_allocated_frames: u64,
    pub reclaimed_free_frames: u64,
    pub reserved_eligible_frames: u64,
    pub dma_low_allocations: u64,
    pub dma_low_live_frames: u64,
    pub dma_low_failures: u64,
    pub allocation_failures: u64,
    pub private_page_limit: u64,
    pub shared_memory_byte_limit: u64,
    pub mapped_shared_byte_limit: u64,
    pub reserved_virtual_byte_limit: u64,
    pub vma_limit: u64,
    pub executable_image_page_limit: u64,
    pub executable_source_byte_limit: u64,
    pub reserved_virtual_bytes: u64,
    pub committed_private_pages: u64,
    pub resident_owned_frames: u64,
    pub shared_memory_bytes: u64,
    pub mapped_shared_pages: u64,
    pub mapped_shared_bytes: u64,
    pub quota_failures: u64,
    pub oom_failures: u64,
    pub current_vma_count: u64,
    pub page_table_frames: u64,
    pub committed_image_pages: u64,
    pub committed_stack_pages: u64,
    pub committed_anonymous_pages: u64,
    pub committed_file_backed_pages: u64,
    pub shared_arena_owned_frames: u64,
    pub shared_arena_free_frames: u64,
    pub shared_arena_returned_frames: u64,
    pub shared_arena_reclaimed_frames: u64,
    pub shared_arena_reclaim_failures: u64,
    pub system_shared_live_objects: u64,
    pub system_shared_logical_bytes: u64,
    pub system_shared_backing_bytes: u64,
}

/// The numbers of the record, in its order.
pub open spec fn memory_numbers(facts: MemoryFacts, heap: KernelHeapStats) -> Seq<u64> {
    seq![
        facts.total_eligible_frames,
        facts.total_eligible_bytes,
        facts.below_4g_frames,
        facts.above_4g_frames,
        facts.highest_usable_address,
        facts.highest_issued_address,
        facts.fresh_issued_frames,
        facts.fresh_remaining_frames,
        facts.available_frames,
        facts.available_bytes,
        facts.live_allocated_frames,
        facts.reclaimed_free_frames,
        facts.reserved_eligible_frames,
        facts.dma_low_allocations,
        facts.dma_low_live_frames,
        facts.dma_low_failures,
        facts.allocation_failures,
        heap.committed_bytes,
        heap.available_bytes,
        heap.growth_failures,
        facts.private_page_limit,
        facts.shared_memory_byte_limit,
        facts.mapped_shared_byte_limit,
        facts.reserved_virtual_byte_limit,
        facts.vma_limit,
        facts.executable_image_page_limit,
        facts.executable_source_byte_limit,
        facts.reserved_virtual_bytes,
        facts.committed_private_pages,
        facts.resident_owned_frames,
        facts.shared_memory_bytes,
        facts.mapped_shared_pages,
        facts.mapped_shared_bytes,
        facts.quota_failures,
        facts.oom_failures,
        facts.current_vma_count,
        facts.page_table_frames,
        facts.committed_image_pages,
        facts.committed_stack_pages,
        facts.committed_anonymous_pages,
        facts.committed_file_backed_pages,
        facts.shared_arena_owned_frames,
        facts.shared_arena_free_frames,
        facts.shared_arena_returned_frames,
        facts.shared_arena_reclaimed_frames,
        facts.shared_arena_reclaim_failures,
        facts.system_shared_live_objects,
        facts.system_shared_logical_bytes,
        facts.system_shared_backing_bytes,
    ]
}

/// Numbers, one after the other.
pub open spec fn number_records(numbers: Seq<u64>) -> Seq<u8>
    decreases numbers.len(),
{
    if numbers.len() == 0 {
        Seq::empty()
    } else {
        number_records(numbers.drop_last()) + le_bytes(numbers.last() as int, 8)
    }
}

/// The record of what is known of the memory.
pub open spec fn memory_record(
    version: u32,
    size: u32,
    facts: MemoryFacts,
    heap: KernelHeapStats,
) -> Seq<u8> {
    le_bytes(version as int, 4) + le_bytes(size as int, 4) + number_records(
        memory_numbers(facts, heap),
    )
}

/// Writes the record of what is known of the memory.
pub fn encode_memory_info(version: u32, size: u32, facts: &MemoryFacts, heap: KernelHeapStats) -> (output:
    Vec<u8>)
    ensures
        output@ == memory_record(version, size, *facts, heap),
        output@.len() == 400,
{
    let numbers: Vec<u64> = vec![
        facts.total_eligible_frames,
        facts.total_eligible_bytes,
        facts.below_4g_frames,
        facts.above_4g_frames,
        facts.highest_usable_address,
        facts.highest_issued_address,
        facts.fresh_issued_frames,
        facts.fresh_remaining_frames,
        facts.available_frames,
        facts.available_bytes,
        facts.live_allocated_frames,
        facts.reclaimed_free_frames,
        facts.reserved_eligible_frames,
        facts.dma_low_allocations,
        facts.dma_low_live_frames,
        facts.dma_low_failures,
        facts.allocation_failures,
        heap.committed_bytes,
        heap.available_bytes,
        heap.growth_failures,
        facts.private_page_limit,
        facts.shared_memory_byte_limit,
        facts.mapped_shared_byte_limit,
        facts.reserved_virtual_byte_limit,
        facts.vma_limit,
        facts.executable_image_page_limit,
        facts.executable_source_byte_limit,
        facts.reserved_virtual_bytes,
        facts.committed_private_pages,
        facts.resident_owned_frames,
        facts.shared_memory_bytes,
        facts.mapped_shared_pages,
        facts.mapped_shared_bytes,
        facts.quota_failures,
        facts.oom_failures,
        facts.current_vma_count,
        facts.page_table_frames,
        facts.committed_image_pages,
        facts.committed_stack_pages,
        facts.committed_anonymous_pages,
        facts.committed_file_backed_pages,
        facts.shared_arena_owned_frames,
        facts.shared_arena_free_frames,
        facts.shared_arena_returned_frames,
        facts.shared_arena_reclaimed_frames,
        facts.shared_arena_reclaim_failures,
        facts.system_shared_live_objects,
        facts.system_shared_logical_bytes,
        facts.system_shared_backing_bytes,
    ];
    assert(numbers@ =~= memory_numbers(*facts, heap));
    let mut output: Vec<u8> = Vec::new();
    push_u32(&mut output, version);
    push_u32(&mut output, size);
    let ghost head = output@;
    let mut index: usize = 0;
    assert(numbers@.subrange(0, 0) =~= Seq::empty());
    while index < numbers.len()
        invariant
            index <= numbers@.len(),
            head.len() == 8,
            output@ == head + number_records(numbers@.subrange(0, index as int)),
            output@.len() == 8 + 8 * index,
        decreases numbers@.len() - index,
    {
        push_u64(&mut output, numbers[index]);
        index += 1;
        assert(numbers@.subrange(0, index as int).drop_last() =~= numbers@.subrange(0, index - 1));
        assert(output@ =~= head + number_records(numbers@.subrange(0, index as int)));
    }
    assert(numbers@.subrange(0, numbers@.len() as int) =~= numbers@);
    assert(output@ =~= memory_record(version, size, *facts, heap));
    output
}

} // verus!
