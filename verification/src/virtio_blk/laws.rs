//! What the device finds in memory, and what becomes of a request on its way there and back.
use vstd::prelude::*;

use super::device::{
    chain_stores, data_stores, head_map, DmaStore, HardwareStatus, Submission, VirtioBlk,
};
use super::queue::{
    plan_spec, segment_total, segments_error, BlockOperation, DescriptorPlan, DmaSegment, SlotState,
    VirtioBlkError,
};
use super::transfer::{first_free, hardware_status, lemma_first_free};

verus! {

/// Where a store goes: into the queue or among the requests, at an offset.
pub open spec fn store_place(store: DmaStore) -> (bool, int) {
    match store {
        DmaStore::RequestByte { offset, .. } => (false, offset as int),
        DmaStore::RequestWord { offset, .. } => (false, offset as int),
        DmaStore::RequestDouble { offset, .. } => (false, offset as int),
        DmaStore::QueueHalf { offset, .. } => (true, offset as int),
        DmaStore::QueueWord { offset, .. } => (true, offset as int),
        DmaStore::QueueDouble { offset, .. } => (true, offset as int),
    }
}

/// What was last stored at a place.
pub open spec fn stored(stores: Seq<DmaStore>, place: (bool, int)) -> Option<DmaStore>
    decreases stores.len(),
{
    if stores.len() == 0 {
        None
    } else if store_place(stores.last()) == place {
        Some(stores.last())
    } else {
        stored(stores.drop_last(), place)
    }
}

/// A descriptor, as the device reads it.
pub struct Descriptor {
    pub address: u64,
    pub length: u32,
    pub flags: u16,
    pub next: u16,
}

/// The descriptor with this number, as the device reads it: eight bytes of address, four of
/// length, two of flags and two of the next descriptor.
pub open spec fn descriptor_read(stores: Seq<DmaStore>, index: int) -> Descriptor {
    Descriptor {
        address: stored(stores, (true, 16 * index))->Some_0->QueueDouble_double,
        length: stored(stores, (true, 16 * index + 8))->Some_0->QueueWord_word,
        flags: stored(stores, (true, 16 * index + 12))->Some_0->QueueHalf_half,
        next: stored(stores, (true, 16 * index + 14))->Some_0->QueueHalf_half,
    }
}

/// A buffer of a chain, and whether the device may write it.
pub struct ChainBuffer {
    pub address: u64,
    pub length: u32,
    pub writable: bool,
}

/// The buffers that the device meets when it follows a chain from a descriptor on. The lowest
/// bit of the flags says that the chain goes on, the next that the device may write.
pub open spec fn followed(stores: Seq<DmaStore>, index: int, most: nat) -> Seq<ChainBuffer>
    decreases most,
{
    let found = descriptor_read(stores, index);
    let buffer = ChainBuffer {
        address: found.address,
        length: found.length,
        writable: found.flags as int / 2 % 2 == 1,
    };
    if most == 0 {
        Seq::empty()
    } else if found.flags % 2 == 1 {
        seq![buffer] + followed(stores, found.next as int, (most - 1) as nat)
    } else {
        seq![buffer]
    }
}

/// The bytes that the device may write in the first `count` buffers.
pub open spec fn writable_bytes(buffers: Seq<ChainBuffer>, count: nat) -> int
    decreases count,
{
    if count == 0 {
        0
    } else {
        writable_bytes(buffers, (count - 1) as nat) + if buffers[count - 1].writable {
            buffers[count - 1].length as int
        } else {
            0
        }
    }
}

/// The last store at a place is what is there.
proof fn lemma_stored(stores: Seq<DmaStore>, j: int)
    requires
        0 <= j < stores.len(),
        forall|k: int|
            j < k < stores.len() ==> store_place(#[trigger] stores[k]) != store_place(stores[j]),
    ensures
        stored(stores, store_place(stores[j])) == Some(stores[j]),
    decreases stores.len(),
{
    if j < stores.len() - 1 {
        let shorter = stores.drop_last();
        assert forall|k: int| j < k < shorter.len() implies store_place(#[trigger] shorter[k])
            != store_place(shorter[j]) by {
            assert(stores[k] == shorter[k]);
        }
        lemma_stored(shorter, j);
        assert(stores.last() == stores[stores.len() - 1]);
    }
}

/// Where the stores of the data descriptors stand.
proof fn lemma_data_stores(
    head: int,
    segments: Seq<DmaSegment>,
    device_writes: bool,
    count: nat,
    i: int,
)
    requires
        0 <= i < count <= segments.len(),
    ensures
        data_stores(head, segments, device_writes, count).len() == 4 * count,
        data_stores(head, segments, device_writes, count).subrange(4 * i, 4 * i + 4)
            == data_stores(head, segments, device_writes, (i + 1) as nat).subrange(4 * i, 4 * i + 4),
    decreases count,
{
    lemma_data_len(head, segments, device_writes, count);
    lemma_data_len(head, segments, device_writes, (i + 1) as nat);
    if i < count - 1 {
        lemma_data_stores(head, segments, device_writes, (count - 1) as nat, i);
        let shorter = data_stores(head, segments, device_writes, (count - 1) as nat);
        let all = data_stores(head, segments, device_writes, count);
        assert(all.subrange(4 * i, 4 * i + 4) =~= shorter.subrange(4 * i, 4 * i + 4));
    }
}

/// Descriptors of the first segments.
proof fn lemma_data_len(head: int, segments: Seq<DmaSegment>, device_writes: bool, count: nat)
    ensures
        data_stores(head, segments, device_writes, count).len() == 4 * count,
    decreases count,
{
    if count > 0 {
        lemma_data_len(head, segments, device_writes, (count - 1) as nat);
    }
}

/// The number of the descriptor that the store at this place of a chain belongs to.
spec fn described(head: int, count: int, j: int) -> int {
    if j < 8 {
        head
    } else if j < 8 + 4 * count {
        head + 1 + (j - 8) / 4
    } else {
        head + 9
    }
}

/// Where in its descriptor the store at this place of a chain goes.
spec fn field_of(j: int) -> int {
    if j % 4 == 0 {
        0
    } else if j % 4 == 1 {
        8
    } else if j % 4 == 2 {
        12
    } else {
        14
    }
}

/// What the stores of a chain are, by their places.
proof fn lemma_chain_stores(
    requests: u64,
    slot: int,
    sector: u64,
    segments: Seq<DmaSegment>,
    plan: DescriptorPlan,
    j: int,
)
    requires
        0 <= slot < 16,
        segments.len() <= 8,
        4 <= j < chain_stores(requests, slot, sector, segments, plan).len(),
    ensures
        chain_stores(requests, slot, sector, segments, plan).len() == 12 + 4 * segments.len(),
        store_place(chain_stores(requests, slot, sector, segments, plan)[j]) == (
            true,
            16 * described(10 * slot, segments.len() as int, j) + field_of(j),
        ),
        8 <= j < 8 + 4 * segments.len() ==> chain_stores(
            requests,
            slot,
            sector,
            segments,
            plan,
        )[j] == data_stores(
            10 * slot,
            segments,
            plan.device_writes_data,
            ((j - 8) / 4 + 1) as nat,
        )[j - 8],
{
    let head = 10 * slot;
    let stores = chain_stores(requests, slot, sector, segments, plan);
    let data = data_stores(head, segments, plan.device_writes_data, segments.len());
    lemma_data_len(head, segments, plan.device_writes_data, segments.len());
    if 8 <= j < 8 + 4 * segments.len() {
        let i = (j - 8) / 4;
        let c = (j - 8) % 4;
        assert(j - 8 == 4 * i + c);
        lemma_data_stores(head, segments, plan.device_writes_data, segments.len(), i);
        lemma_data_len(head, segments, plan.device_writes_data, i as nat);
        let part = data.subrange(4 * i, 4 * i + 4);
        assert(stores[j] == data[j - 8]);
        assert(part[c] == data[4 * i + c]);
        let short = data_stores(head, segments, plan.device_writes_data, (i + 1) as nat);
        assert(short.subrange(4 * i, 4 * i + 4)[c] == short[4 * i + c]);
    }
}

/// Stores of a chain go to different places.
proof fn lemma_places_differ(head: int, count: int, j: int, k: int)
    requires
        0 <= count <= 8,
        4 <= j < k < 12 + 4 * count,
    ensures
        16 * described(head, count, j) + field_of(j) != 16 * described(head, count, k) + field_of(k),
{
    if described(head, count, j) == described(head, count, k) {
        assert(j / 4 == k / 4);
        assert(j % 4 < k % 4);
    }
}

/// Four stores make up the descriptor that the device reads.
proof fn lemma_four_stores(stores: Seq<DmaStore>, head: int, count: int, at: int)
    requires
        0 <= count <= 8,
        stores.len() == 12 + 4 * count,
        forall|j: int|
            4 <= j < stores.len() ==> store_place(#[trigger] stores[j]) == (
                true,
                16 * described(head, count, j) + field_of(j),
            ),
        4 <= at,
        at % 4 == 0,
        at + 4 <= stores.len(),
    ensures
        ({
            let found = descriptor_read(stores, described(head, count, at));
            &&& found.address == stores[at]->QueueDouble_double
            &&& found.length == stores[at + 1]->QueueWord_word
            &&& found.flags == stores[at + 2]->QueueHalf_half
            &&& found.next == stores[at + 3]->QueueHalf_half
        }),
{
    assert forall|j: int| at <= j < at + 4 implies stored(stores, store_place(#[trigger] stores[j]))
        == Some(stores[j]) by {
        assert forall|k: int| j < k < stores.len() implies store_place(#[trigger] stores[k])
            != store_place(stores[j]) by {
            lemma_places_differ(head, count, j, k);
        }
        lemma_stored(stores, j);
    }
    let index = described(head, count, at);
    assert(described(head, count, at + 1) == index);
    assert(described(head, count, at + 2) == index);
    assert(described(head, count, at + 3) == index);
    assert(field_of(at) == 0 && field_of(at + 1) == 8);
    assert(field_of(at + 2) == 12 && field_of(at + 3) == 14);
    assert(store_place(stores[at]) == (true, 16 * index));
    assert(store_place(stores[at + 1]) == (true, 16 * index + 8));
    assert(store_place(stores[at + 2]) == (true, 16 * index + 12));
    assert(store_place(stores[at + 3]) == (true, 16 * index + 14));
}

/// One descriptor of a chain reads as it was stored.
proof fn lemma_descriptor(
    requests: u64,
    slot: int,
    sector: u64,
    segments: Seq<DmaSegment>,
    plan: DescriptorPlan,
    at: int,
)
    requires
        0 <= slot < 16,
        segments.len() <= 8,
        4 <= at,
        at % 4 == 0,
        at + 4 <= 12 + 4 * segments.len(),
    ensures
        ({
            let stores = chain_stores(requests, slot, sector, segments, plan);
            let index = described(10 * slot, segments.len() as int, at);
            let found = descriptor_read(stores, index);
            &&& stores.len() == 12 + 4 * segments.len()
            &&& found.address == stores[at]->QueueDouble_double
            &&& found.length == stores[at + 1]->QueueWord_word
            &&& found.flags == stores[at + 2]->QueueHalf_half
            &&& found.next == stores[at + 3]->QueueHalf_half
        }),
{
    let stores = chain_stores(requests, slot, sector, segments, plan);
    let count = segments.len() as int;
    lemma_data_len(10 * slot, segments, plan.device_writes_data, segments.len());
    assert forall|j: int| 4 <= j < stores.len() implies store_place(#[trigger] stores[j]) == (
        true,
        16 * described(10 * slot, count, j) + field_of(j),
    ) by {
        lemma_chain_stores(requests, slot, sector, segments, plan, j);
    }
    lemma_four_stores(stores, 10 * slot, count, at);
}

/// A data descriptor is that of its segment.
proof fn lemma_data_descriptor(
    requests: u64,
    slot: int,
    sector: u64,
    segments: Seq<DmaSegment>,
    plan: DescriptorPlan,
    from: int,
)
    requires
        0 <= slot < 16,
        0 <= from < segments.len() <= 8,
    ensures
        ({
            let found = descriptor_read(
                chain_stores(requests, slot, sector, segments, plan),
                10 * slot + 1 + from,
            );
            &&& found.address == segments[from].physical_address
            &&& found.length == segments[from].length
            &&& found.flags == if plan.device_writes_data {
                3int
            } else {
                1
            }
            &&& found.next == if from + 1 == segments.len() {
                10 * slot + 9
            } else {
                10 * slot + 2 + from
            }
        }),
{
    let head = 10 * slot;
    let at = 8 + 4 * from;
    let stores = chain_stores(requests, slot, sector, segments, plan);
    lemma_data_len(head, segments, plan.device_writes_data, segments.len());
    lemma_data_len(head, segments, plan.device_writes_data, from as nat);
    lemma_descriptor(requests, slot, sector, segments, plan, at);
    assert(described(head, segments.len() as int, at) == head + 1 + from);
    lemma_chain_stores(requests, slot, sector, segments, plan, at);
    lemma_chain_stores(requests, slot, sector, segments, plan, at + 1);
    lemma_chain_stores(requests, slot, sector, segments, plan, at + 2);
    lemma_chain_stores(requests, slot, sector, segments, plan, at + 3);
    let short = data_stores(head, segments, plan.device_writes_data, (from + 1) as nat);
    assert(stores[at] == short[4 * from]);
    assert(stores[at + 1] == short[4 * from + 1]);
    assert(stores[at + 2] == short[4 * from + 2]);
    assert(stores[at + 3] == short[4 * from + 3]);
}

/// The last descriptor is that of the status byte.
proof fn lemma_status_descriptor(
    requests: u64,
    slot: int,
    sector: u64,
    segments: Seq<DmaSegment>,
    plan: DescriptorPlan,
)
    requires
        0 <= slot < 16,
        segments.len() <= 8,
    ensures
        ({
            let found = descriptor_read(
                chain_stores(requests, slot, sector, segments, plan),
                10 * slot + 9,
            );
            &&& found.address == (requests + 32 * slot + 16) as u64
            &&& found.length == 1
            &&& found.flags == 2
        }),
{
    let at = 8 + 4 * segments.len() as int;
    lemma_data_len(10 * slot, segments, plan.device_writes_data, segments.len());
    lemma_descriptor(requests, slot, sector, segments, plan, at);
    assert(described(10 * slot, segments.len() as int, at) == 10 * slot + 9);
}

/// From a data descriptor on, the device meets the rest of the segments and the status byte.
proof fn lemma_followed(
    requests: u64,
    slot: int,
    sector: u64,
    segments: Seq<DmaSegment>,
    plan: DescriptorPlan,
    from: int,
    most: nat,
)
    requires
        0 <= slot < 16,
        0 <= from <= segments.len() <= 8,
        requests + 32 * slot + 16 <= u64::MAX,
        most > segments.len() - from,
    ensures
        followed(
            chain_stores(requests, slot, sector, segments, plan),
            if from == segments.len() {
                10 * slot + 9
            } else {
                10 * slot + 1 + from
            },
            most,
        ) == Seq::new(
            (segments.len() - from) as nat,
            |i: int|
                ChainBuffer {
                    address: segments[from + i].physical_address,
                    length: segments[from + i].length,
                    writable: plan.device_writes_data,
                },
        ).push(
            ChainBuffer {
                address: (requests + 32 * slot + 16) as u64,
                length: 1,
                writable: true,
            },
        ),
    decreases segments.len() - from,
{
    let stores = chain_stores(requests, slot, sector, segments, plan);
    let head = 10 * slot;
    let wanted = Seq::new(
        (segments.len() - from) as nat,
        |i: int|
            ChainBuffer {
                address: segments[from + i].physical_address,
                length: segments[from + i].length,
                writable: plan.device_writes_data,
            },
    ).push(
        ChainBuffer { address: (requests + 32 * slot + 16) as u64, length: 1, writable: true },
    );
    if from == segments.len() {
        lemma_status_descriptor(requests, slot, sector, segments, plan);
        assert(followed(stores, head + 9, most) =~= wanted);
    } else {
        lemma_data_descriptor(requests, slot, sector, segments, plan, from);
        lemma_followed(requests, slot, sector, segments, plan, from + 1, (most - 1) as nat);
        assert(followed(stores, head + 1 + from, most) =~= wanted);
    }
}

/// The device that follows an accepted submission from the descriptor that was put into the
/// available ring meets the request header, which it may only read, then every segment in the
/// caller's order, then the status byte, which it may write. It may write the segments exactly
/// where the request is a read. The header names the operation and the sector, and the status
/// byte does not yet read as an answer.
pub proof fn law_the_device_meets_the_request(
    driver: VirtioBlk,
    after: VirtioBlk,
    submission: Submission,
    token: Option<u64>,
    synchronous: bool,
    operation: BlockOperation,
    sector: u64,
    byte_len: u32,
    segments: Seq<DmaSegment>,
    plan: DescriptorPlan,
)
    requires
        driver.wf(),
        plan_spec(operation, byte_len, segments.len() as int) == Ok::<
            DescriptorPlan,
            VirtioBlkError,
        >(plan),
        driver.starts(
            after,
            Ok::<Submission, VirtioBlkError>(submission),
            token,
            synchronous,
            operation,
            sector,
            byte_len,
            segments,
            plan,
        ),
    ensures
        ({
            let stores = submission.chain@;
            let header = (driver.requests_physical + 32 * submission.slot) as u64;
            let met = followed(stores, submission.ring_entry->QueueHalf_half as int, 10);
            let at = 32 * submission.slot as int;
            &&& met.len() == segments.len() + 2
            &&& met[0] == (ChainBuffer { address: header, length: 16, writable: false })
            &&& forall|i: int|
                0 <= i < segments.len() ==> #[trigger] met[i + 1] == (ChainBuffer {
                    address: segments[i].physical_address,
                    length: segments[i].length,
                    writable: operation == BlockOperation::Read,
                })
            &&& met.last() == (ChainBuffer {
                address: (header + 16) as u64,
                length: 1,
                writable: true,
            })
            &&& stored(stores, (false, at)) == Some(
                DmaStore::RequestWord {
                    offset: at as usize,
                    word: match operation {
                        BlockOperation::Read => 0,
                        BlockOperation::Write => 1,
                        _ => 4,
                    },
                },
            )
            &&& stored(stores, (false, at + 8)) == Some(
                DmaStore::RequestDouble { offset: (at + 8) as usize, double: sector },
            )
            &&& stored(stores, (false, at + 16)) == Some(
                DmaStore::RequestByte { offset: (at + 16) as usize, value: 0xff },
            )
            &&& hardware_status(0xff) is None
        }),
{
    let slot = submission.slot as int;
    lemma_first_free(driver.slots@, driver.slot_count as nat);
    let head = 10 * slot;
    let stores = submission.chain@;
    let requests = driver.requests_physical;
    lemma_data_len(head, segments, plan.device_writes_data, segments.len());
    lemma_descriptor(requests, slot, sector, segments, plan, 4);
    assert(described(head, segments.len() as int, 4) == head);
    lemma_followed(requests, slot, sector, segments, plan, 0, 9);
    let found = descriptor_read(stores, head);
    assert(found.flags == 1);
    let rest = followed(stores, found.next as int, 9);
    let met = followed(stores, head, 10);
    assert(met == seq![
        ChainBuffer { address: found.address, length: found.length, writable: false },
    ] + rest);
    assert forall|j: int| 0 <= j < 4 implies stored(stores, store_place(#[trigger] stores[j]))
        == Some(stores[j]) by {
        assert forall|k: int| j < k < stores.len() implies store_place(#[trigger] stores[k])
            != store_place(stores[j]) by {
            if k >= 4 {
                lemma_chain_stores(requests, slot, sector, segments, plan, k);
            }
        }
        lemma_stored(stores, j);
    }
    assert(stored(stores, store_place(stores[0])) == Some(stores[0]));
    assert(stored(stores, store_place(stores[2])) == Some(stores[2]));
    assert(stored(stores, store_place(stores[3])) == Some(stores[3]));
}

/// What the segments take up is what the device may write of them.
proof fn lemma_writable(
    segments: Seq<DmaSegment>,
    buffers: Seq<ChainBuffer>,
    writable: bool,
    count: nat,
)
    requires
        count <= segments.len(),
        buffers.len() == segments.len() + 2,
        !buffers[0].writable,
        forall|i: int|
            0 <= i < segments.len() ==> (#[trigger] buffers[i + 1]).length == segments[i].length
                && buffers[i + 1].writable == writable,
    ensures
        writable_bytes(buffers, count + 1) == if writable {
            segment_total(segments, count)
        } else {
            0
        },
    decreases count,
{
    if count == 0 {
        assert(writable_bytes(buffers, 0) == 0);
        assert(writable_bytes(buffers, 1) == 0);
    } else {
        lemma_writable(segments, buffers, writable, (count - 1) as nat);
        assert(buffers[(count - 1) + 1].length == segments[count - 1].length);
    }
}

/// What the driver expects the device to say it wrote is what the device may write: the data
/// of a read, and the status byte.
pub proof fn law_the_expected_length_is_what_the_device_may_write(
    driver: VirtioBlk,
    after: VirtioBlk,
    submission: Submission,
    token: Option<u64>,
    synchronous: bool,
    operation: BlockOperation,
    sector: u64,
    byte_len: u32,
    segments: Seq<DmaSegment>,
    plan: DescriptorPlan,
)
    requires
        driver.wf(),
        byte_len < u32::MAX,
        plan_spec(operation, byte_len, segments.len() as int) == Ok::<
            DescriptorPlan,
            VirtioBlkError,
        >(plan),
        segments_error(segments, byte_len) is None,
        driver.starts(
            after,
            Ok::<Submission, VirtioBlkError>(submission),
            token,
            synchronous,
            operation,
            sector,
            byte_len,
            segments,
            plan,
        ),
    ensures
        ({
            let met = followed(
                submission.chain@,
                submission.ring_entry->QueueHalf_half as int,
                10,
            );
            &&& after.slots@[submission.slot as int].expected_used_len == writable_bytes(
                met,
                met.len(),
            )
            &&& after.slots@[submission.slot as int].expected_used_len == if operation
                == BlockOperation::Read {
                byte_len + 1
            } else {
                1
            }
        }),
{
    law_the_device_meets_the_request(
        driver,
        after,
        submission,
        token,
        synchronous,
        operation,
        sector,
        byte_len,
        segments,
        plan,
    );
    lemma_first_free(driver.slots@, driver.slot_count as nat);
    let met = followed(submission.chain@, submission.ring_entry->QueueHalf_half as int, 10);
    lemma_writable(segments, met, operation == BlockOperation::Read, segments.len());
    assert(met[met.len() - 1] == met.last());
    assert(writable_bytes(met, met.len()) == writable_bytes(met, (met.len() - 1) as nat) + 1);
}

/// The parts of a queue follow each other without overlap, the used ring on a page of its own;
/// what the driver stores into the available ring lies in it, one place per request, and the
/// index that the device watches goes up by one with each.
pub proof fn law_submissions_go_into_the_available_ring(
    driver: VirtioBlk,
    after: VirtioBlk,
    submission: Submission,
    token: Option<u64>,
    synchronous: bool,
    operation: BlockOperation,
    sector: u64,
    byte_len: u32,
    segments: Seq<DmaSegment>,
    plan: DescriptorPlan,
)
    requires
        driver.wf(),
        driver.starts(
            after,
            Ok::<Submission, VirtioBlkError>(submission),
            token,
            synchronous,
            operation,
            sector,
            byte_len,
            segments,
            plan,
        ),
    ensures
        ({
            let size = driver.queue_size as int;
            let layout = driver.layout;
            &&& layout.descriptors == 0
            &&& layout.available == 16 * size
            &&& layout.available + 4 + 2 * size + 2 <= layout.used
            &&& layout.used % 4096 == 0
            &&& layout.used < layout.available + 6 + 2 * size + 4096
            &&& layout.used + 4 + 8 * size + 2 == layout.bytes
            &&& layout.bytes <= 4096 * layout.pages < layout.bytes + 4096
            &&& submission.ring_entry is QueueHalf
            &&& submission.ring_entry->QueueHalf_offset == 16 * size + 4 + 2 * (
            driver.available_index as int % size)
            &&& submission.ring_index is QueueHalf
            &&& submission.ring_index->QueueHalf_offset == 16 * size + 2
            &&& submission.ring_index->QueueHalf_half == after.available_index
            &&& driver.available_index < 0xffff ==> after.available_index
                == driver.available_index + 1
            &&& driver.available_index == 0xffff ==> after.available_index == 0
        }),
{
    let size = driver.queue_size as int;
    assert(0 <= driver.available_index as int % size < size) by {
        vstd::arithmetic::div_mod::lemma_mod_bound(driver.available_index as int, size);
    }
}

/// A request that the device gives back by the descriptor that was put into the available ring
/// is found in the slot that it was started in, its status is read where the chain told the
/// device to write it, and what is reported carries the token of the request and the status
/// that the device wrote: zero is success, one an error, two a request that the device does
/// not know.
pub proof fn law_completions_carry_the_token_of_the_request(
    driver: VirtioBlk,
    started: VirtioBlk,
    submission: Submission,
    token: u64,
    operation: BlockOperation,
    sector: u64,
    byte_len: u32,
    segments: Seq<DmaSegment>,
    plan: DescriptorPlan,
    request_status: u8,
    after: VirtioBlk,
)
    requires
        driver.wf(),
        driver.starts(
            started,
            Ok::<Submission, VirtioBlkError>(submission),
            Some(token),
            false,
            operation,
            sector,
            byte_len,
            segments,
            plan,
        ),
        hardware_status(request_status) is Some,
        started.finishes(after, submission.slot as int, hardware_status(request_status)->Some_0),
    ensures
        started.accepts(
            started,
            submission.ring_entry->QueueHalf_half as u32,
            plan.expected_used_len,
            Ok::<(usize, usize), VirtioBlkError>(
                (submission.slot, (32 * submission.slot + 16) as usize),
            ),
        ),
        after.finished().len() == driver.finished().len() + 1,
        after.finished().drop_last() == driver.finished(),
        after.finished().last().token == token,
        after.finished().last().status == HardwareStatus::Success <==> request_status == 0,
        after.finished().last().status == HardwareStatus::IoError <==> request_status == 1,
        after.finished().last().status == HardwareStatus::Unsupported <==> request_status == 2,
        request_status <= 2,
        after.diagnostics.in_flight == driver.diagnostics.in_flight,
        after.slots@[submission.slot as int].state == SlotState::Free,
        after.slots@[submission.slot as int].generation
            == driver.slots@[submission.slot as int].generation + 1,
        forall|i: int|
            0 <= i < driver.slots@.len() && i != submission.slot ==> #[trigger] after.slots@[i]
                == driver.slots@[i],
{
    let slot = submission.slot as int;
    lemma_first_free(driver.slots@, driver.slot_count as nat);
    assert(head_map(driver.slot_count)[10 * slot] == slot);
    assert(after.finished().drop_last() =~= driver.finished());
}

/// An accepted request stays within the device, and nothing is written to one that is read
/// only; its segments hold exactly the bytes of the request.
pub proof fn law_accepted_requests_stay_within_the_device(
    driver: VirtioBlk,
    command: super::device::DispatchCommand,
)
    requires
        driver.wf(),
        driver.submit_error(command) is None,
    ensures
        driver.diagnostics.async_enabled,
        command.operation == BlockOperation::Write ==> !driver.read_only,
        command.operation == BlockOperation::Read || command.operation == BlockOperation::Write ==> {
            &&& command.byte_len > 0
            &&& command.byte_len % 512 == 0
            &&& command.lba * 512 + command.byte_len <= driver.capacity_sectors * 512
            &&& segment_total(command.segments@, command.segments@.len()) == command.byte_len
            &&& 1 <= command.segments@.len() <= 8
        },
        command.operation == BlockOperation::Flush || command.operation == BlockOperation::Barrier
            ==> command.byte_len == 0 && command.segments@.len() == 0,
        first_free(driver.slots@, driver.slot_count as nat) is Some,
{
    super::device::lemma_owned_bounds(driver.slots@, driver.slot_count as nat);
    lemma_first_free(driver.slots@, driver.slot_count as nat);
}

} // verus!
