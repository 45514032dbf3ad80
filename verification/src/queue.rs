//! Virtqueues whose rings lie in guest physical memory.
use crate::memory;
use crate::memory::{Access, GuestRam, Layout};
use crate::number;
use crate::number::ByteOrder;
use vstd::prelude::*;

verus! {

/// The chain goes on at the descriptor's `next` index.
pub const VIRTQ_DESC_F_NEXT: u16 = 0x1;

/// The device writes to the descriptor's buffer, the driver reads it.
pub const VIRTQ_DESC_F_WRITE: u16 = 0x2;

/// `value` modulo the range of a ring index.
pub open spec fn wrap16(value: int) -> u16 {
    (value % 0x1_0000) as u16
}

/// Whether exactly one access came after `before`: a load of `len` bytes at
/// `addr`.
pub open spec fn loads(before: Seq<Access>, after: Seq<Access>, addr: int, len: int) -> bool {
    &&& after == before.push(after.last())
    &&& after.last() matches Access::Load { addr: at, bytes }
    &&& at == addr
    &&& bytes.len() == len
}

/// The bytes that the last access read.
pub open spec fn loaded(after: Seq<Access>) -> Seq<u8> {
    match after.last() {
        Access::Load { addr, bytes } => bytes,
        _ => Seq::empty(),
    }
}

/// A virtio descriptor.
#[derive(Clone, Copy)]
pub struct Descriptor {
    /// Guest physical address of the buffer.
    pub addr: u64,
    /// Length of the buffer.
    pub len: u32,
    /// Next and write bits.
    pub flags: u16,
    /// Index of the next descriptor, if the next bit is set.
    pub next: u16,
}

/// The size of a descriptor in its table.
pub const DESCRIPTOR_SIZE: usize = 16;

impl Descriptor {
    /// The descriptor that sixteen bytes of a descriptor table hold.
    pub open spec fn of(order: ByteOrder, bytes: Seq<u8>) -> Descriptor {
        Descriptor {
            addr: number::value(order, bytes.subrange(0, 8)) as u64,
            len: number::value(order, bytes.subrange(8, 12)) as u32,
            flags: number::value(order, bytes.subrange(12, 14)) as u16,
            next: number::value(order, bytes.subrange(14, 16)) as u16,
        }
    }

    /// Reads a descriptor out of its sixteen bytes.
    pub fn decode(order: ByteOrder, bytes: &Vec<u8>) -> (desc: Descriptor)
        requires
            bytes@.len() == DESCRIPTOR_SIZE,
        ensures
            desc == Descriptor::of(order, bytes@),
    {
        proof {
            number::lemma_byte_spans();
            number::lemma_value_bound(order, bytes@.subrange(0, 8));
            number::lemma_value_bound(order, bytes@.subrange(8, 12));
            number::lemma_value_bound(order, bytes@.subrange(12, 14));
            number::lemma_value_bound(order, bytes@.subrange(14, 16));
        }
        Descriptor {
            addr: number::decode(order, bytes, 0, 8),
            len: number::decode(order, bytes, 8, 12) as u32,
            flags: number::decode(order, bytes, 12, 14) as u16,
            next: number::decode(order, bytes, 14, 16) as u16,
        }
    }
}

/// Whether the region that holds `desc_table` also holds the start of the
/// table's descriptor `index`.
pub open spec fn slot_mapped(layout: Layout, desc_table: u64, index: int) -> bool {
    memory::region_at(layout.regions, desc_table as int) matches Some(region) && desc_table
        + DESCRIPTOR_SIZE * index < region.0 + region.1
}

/// Whether the region that holds `desc_table` goes on past the table's
/// descriptor `index`.
pub open spec fn slot_inside(layout: Layout, desc_table: u64, index: int) -> bool {
    memory::region_at(layout.regions, desc_table as int) matches Some(region) && desc_table
        + DESCRIPTOR_SIZE * index + DESCRIPTOR_SIZE < region.0 + region.1
}

/// A virtio descriptor chain, at one of its descriptors.
pub struct DescriptorChain {
    /// Guest physical address of the descriptor table.
    pub desc_table: u64,
    /// Number of descriptors in the table.
    pub queue_size: u16,
    /// How many descriptors the chain may still have, this one counted.
    pub ttl: u16,
    /// Index into the descriptor table.
    pub index: u16,
    /// Guest physical address of device specific data.
    pub addr: u64,
    /// Length of device specific data.
    pub len: u32,
    /// Includes next, write, and indirect bits.
    pub flags: u16,
    /// Index into the descriptor table of the next descriptor if flags has the
    /// next bit set.
    pub next: u16,
}

impl DescriptorChain {
    /// Whether another descriptor follows.
    pub open spec fn continues(&self) -> bool {
        self.flags & VIRTQ_DESC_F_NEXT != 0 && self.ttl > 1
    }

    /// Whether the device writes to the buffer.
    pub open spec fn for_the_device(&self) -> bool {
        self.flags & VIRTQ_DESC_F_WRITE != 0
    }

    /// Whether the address just past the buffer is guest memory, and the next
    /// descriptor, if one follows, is in the table.
    pub open spec fn valid(&self, layout: Layout) -> bool {
        &&& memory::offset_in_range(layout.regions, self.addr as int, self.len as int).is_some()
        &&& self.continues() ==> self.next < self.queue_size
    }

    /// The chain that starts at descriptor `index`, which holds `desc`.
    pub open spec fn start(
        layout: Layout,
        desc_table: u64,
        queue_size: u16,
        index: u16,
        desc: Descriptor,
    ) -> Option<DescriptorChain> {
        let chain = DescriptorChain {
            desc_table,
            queue_size,
            ttl: queue_size,
            index,
            addr: desc.addr,
            len: desc.len,
            flags: desc.flags,
            next: desc.next,
        };
        if chain.valid(layout) {
            Some(chain)
        } else {
            None
        }
    }

    /// What fetching descriptor `index` does and gives: nothing is read where
    /// the index or the table does not allow it, and otherwise the chain is
    /// made of the bytes that were read, with `ttl` descriptors to go.
    pub open spec fn fetched(
        layout: Layout,
        before: Seq<Access>,
        after: Seq<Access>,
        desc_table: u64,
        queue_size: u16,
        index: u16,
        ttl: u16,
        chain: Option<DescriptorChain>,
    ) -> bool {
        if index < queue_size && slot_inside(layout, desc_table, index as int) {
            &&& loads(
                before,
                after,
                desc_table + DESCRIPTOR_SIZE * index,
                DESCRIPTOR_SIZE as int,
            )
            &&& chain == match DescriptorChain::start(
                layout,
                desc_table,
                queue_size,
                index,
                Descriptor::of(layout.order, loaded(after)),
            ) {
                Some(started) => Some(DescriptorChain { ttl, ..started }),
                None => None,
            }
        } else {
            after == before && chain.is_none()
        }
    }

    /// What going on to the next descriptor does and gives.
    pub open spec fn advanced(
        &self,
        layout: Layout,
        before: Seq<Access>,
        after: Seq<Access>,
        next: Option<DescriptorChain>,
    ) -> bool {
        if self.continues() {
            DescriptorChain::fetched(
                layout,
                before,
                after,
                self.desc_table,
                self.queue_size,
                self.next,
                (self.ttl - 1) as u16,
                next,
            )
        } else {
            next.is_none() && after == before
        }
    }

    /// Makes a chain of the descriptor `desc` found at `index`.
    pub fn from_descriptor(
        mem: &GuestRam,
        desc_table: u64,
        queue_size: u16,
        index: u16,
        desc: Descriptor,
    ) -> (chain: Option<DescriptorChain>)
        ensures
            chain == DescriptorChain::start(mem.layout(), desc_table, queue_size, index, desc),
    {
        let chain = DescriptorChain {
            desc_table,
            queue_size,
            ttl: queue_size,
            index,
            addr: desc.addr,
            len: desc.len,
            flags: desc.flags,
            next: desc.next,
        };
        if chain.is_valid(mem) {
            Some(chain)
        } else {
            None
        }
    }

    /// Reads descriptor `index` and makes a chain of it.
    pub fn checked_new(
        mem: &mut GuestRam,
        desc_table: u64,
        queue_size: u16,
        index: u16,
    ) -> (chain: Option<DescriptorChain>)
        requires
            index < queue_size ==> slot_mapped(old(mem).layout(), desc_table, index as int),
        ensures
            final(mem).layout() == old(mem).layout(),
            DescriptorChain::fetched(
                old(mem).layout(),
                old(mem).log(),
                final(mem).log(),
                desc_table,
                queue_size,
                index,
                queue_size,
                chain,
            ),
    {
        if index >= queue_size {
            return None;
        }
        let (start, size): (u64, u64) = match mem.region(desc_table) {
            Some(region) => region,
            None => return None,
        };
        let desc_head: u64 = (desc_table - start) + index as u64 * 16;
        if size - desc_head <= 16 {
            return None;
        }
        proof {
            memory::lemma_same_region(mem.layout().regions, desc_table as int, start + desc_head);
            memory::lemma_mapped_is_spanned(mem.layout().regions, start + desc_head, 16);
        }
        let bytes: Vec<u8> = mem.load(start + desc_head, DESCRIPTOR_SIZE);
        let desc: Descriptor = Descriptor::decode(mem.order(), &bytes);
        DescriptorChain::from_descriptor(mem, desc_table, queue_size, index, desc)
    }

    /// Whether the descriptor stays inside guest memory and the table.
    pub fn is_valid(&self, mem: &GuestRam) -> (valid: bool)
        ensures
            valid == self.valid(mem.layout()),
    {
        !(mem.checked_offset(self.addr, self.len as usize).is_none() || (self.has_next()
            && self.next >= self.queue_size))
    }

    /// Gets if this descriptor chain has another descriptor chain linked after it.
    pub fn has_next(&self) -> (next: bool)
        ensures
            next == self.continues(),
    {
        self.flags & VIRTQ_DESC_F_NEXT != 0 && self.ttl > 1
    }

    /// If the driver designated this as a write only descriptor.
    ///
    /// If this is false, this descriptor is read only.
    /// Write only means the the emulated device can write and the driver can read.
    pub fn is_write_only(&self) -> (write_only: bool)
        ensures
            write_only == self.for_the_device(),
    {
        self.flags & VIRTQ_DESC_F_WRITE != 0
    }

    /// Gets the next descriptor in this descriptor chain, if there is one.
    ///
    /// Note that this is distinct from the next descriptor chain returned by `AvailIter`, which is
    /// the head of the next _available_ descriptor chain.
    pub fn next_descriptor(&self, mem: &mut GuestRam) -> (next: Option<DescriptorChain>)
        requires
            self.continues() && self.next < self.queue_size ==> slot_mapped(
                old(mem).layout(),
                self.desc_table,
                self.next as int,
            ),
        ensures
            final(mem).layout() == old(mem).layout(),
            self.advanced(old(mem).layout(), old(mem).log(), final(mem).log(), next),
    {
        if self.has_next() {
            let fetched: Option<DescriptorChain> = DescriptorChain::checked_new(
                mem,
                self.desc_table,
                self.queue_size,
                self.next,
            );
            match fetched {
                Some(chain) => {
                    let mut chain = chain;
                    chain.ttl = self.ttl - 1;
                    Some(chain)
                },
                None => None,
            }
        } else {
            None
        }
    }
}

/// Consuming iterator over all available descriptor chain heads in the queue.
pub struct AvailIter<'b> {
    /// Guest physical address of the descriptor table.
    pub desc_table: u64,
    /// Guest physical address of the available ring.
    pub avail_ring: u64,
    /// Ring index of the next head.
    pub next_index: u16,
    /// Ring index just past the last head.
    pub last_index: u16,
    /// Number of entries in the rings.
    pub queue_size: u16,
    /// The queue's own position, moved on by each head that is taken.
    pub next_avail: &'b mut u16,
}

/// The offset into the available ring of the entry for ring index `index`.
pub open spec fn avail_offset(index: u16, queue_size: u16) -> int {
    4 + (index as int % queue_size as int) * 2
}

/// Whether every entry of the descriptor table starts in the region that holds
/// the table.
pub open spec fn table_mapped(layout: Layout, desc_table: u64, queue_size: u16) -> bool {
    slot_mapped(layout, desc_table, queue_size - 1)
}

impl<'b> AvailIter<'b> {
    /// How many heads are left.
    pub open spec fn pending(&self) -> int {
        (self.last_index - self.next_index) % 0x1_0000
    }

    /// Whether the entry for the next head, and every descriptor that it can
    /// name, can be read.
    pub open spec fn readable(&self, layout: Layout) -> bool {
        &&& self.queue_size > 0
        &&& avail_offset(self.next_index, self.queue_size) <= u16::MAX
        &&& memory::mapped(
            layout.regions,
            self.avail_ring as int,
            avail_offset(self.next_index, self.queue_size) + 2,
        )
        &&& table_mapped(layout, self.desc_table, self.queue_size)
    }

    /// What taking a head does and gives: the head's index is read from the
    /// available ring, and the descriptor with that index is fetched.
    pub open spec fn took(
        &self,
        layout: Layout,
        before: Seq<Access>,
        after: Seq<Access>,
        head: Option<DescriptorChain>,
    ) -> bool {
        let mid = after.take(before.len() as int + 1);
        &&& after.len() > before.len()
        &&& loads(before, mid, self.avail_ring + avail_offset(self.next_index, self.queue_size), 2)
        &&& DescriptorChain::fetched(
            layout,
            mid,
            after,
            self.desc_table,
            self.queue_size,
            number::value(layout.order, loaded(mid)) as u16,
            self.queue_size,
            head,
        )
    }

    /// What one step of the iterator does and gives, apart from the queue's
    /// position.
    pub open spec fn stepped(
        &self,
        next: AvailIter<'b>,
        layout: Layout,
        before: Seq<Access>,
        after: Seq<Access>,
        head: Option<DescriptorChain>,
    ) -> bool {
        &&& next.desc_table == self.desc_table
        &&& next.avail_ring == self.avail_ring
        &&& next.last_index == self.last_index
        &&& next.queue_size == self.queue_size
        &&& if self.pending() == 0 {
            head.is_none() && next.next_index == self.next_index && after == before
        } else {
            next.next_index == wrap16(self.next_index + 1) && self.took(
                layout,
                before,
                after,
                head,
            )
        }
    }

    /// Makes an iterator with no heads left, for the position `q_next_avail`.
    pub fn new(q_next_avail: &'b mut u16) -> (iter: AvailIter<'b>)
        ensures
            iter.desc_table == 0,
            iter.avail_ring == 0,
            iter.next_index == 0,
            iter.last_index == 0,
            iter.queue_size == 0,
            *iter.next_avail == *old(q_next_avail),
            *final(iter.next_avail) == *final(q_next_avail),
    {
        AvailIter {
            desc_table: 0,
            avail_ring: 0,
            next_index: 0,
            last_index: 0,
            queue_size: 0,
            next_avail: q_next_avail,
        }
    }

    /// Takes the next head. The queue's position moves on only where the head
    /// is a valid chain.
    pub fn next(&mut self, mem: &mut GuestRam) -> (head: Option<DescriptorChain>)
        requires
            old(self).pending() > 0 ==> old(self).readable(old(mem).layout()),
        ensures
            final(mem).layout() == old(mem).layout(),
            old(self).stepped(
                *final(self),
                old(mem).layout(),
                old(mem).log(),
                final(mem).log(),
                head,
            ),
            head.is_some() ==> *final(self).next_avail == wrap16(*old(self).next_avail + 1),
            head.is_none() ==> *final(self).next_avail == *old(self).next_avail,
            *final(final(self).next_avail) == *final(old(self).next_avail),
    {
        if self.next_index == self.last_index {
            return None;
        }
        let ghost before = mem.log();
        let (start, _size): (u64, u64) = match mem.region(self.avail_ring) {
            Some(region) => region,
            None => return None,
        };
        let offset: u16 = 4 + (self.next_index % self.queue_size) * 2;
        let avail_addr: u64 = self.avail_ring + offset as u64;
        proof {
            memory::lemma_same_region(
                mem.layout().regions,
                self.avail_ring as int,
                avail_addr as int,
            );
            memory::lemma_mapped_is_spanned(mem.layout().regions, avail_addr as int, 2);
        }
        let bytes: Vec<u8> = mem.load(avail_addr, 2);
        let ghost mid = mem.log();
        proof {
            number::lemma_byte_spans();
            number::lemma_value_bound(mem.layout().order, bytes@);
            assert(bytes@.subrange(0, 2) =~= bytes@);
        }
        let desc_index: u16 = number::decode(mem.order(), &bytes, 0, 2) as u16;
        self.next_index = self.next_index.wrapping_add(1);
        let head: Option<DescriptorChain> = DescriptorChain::checked_new(
            mem,
            self.desc_table,
            self.queue_size,
            desc_index,
        );
        proof {
            assert(mem.log().take(before.len() as int + 1) =~= mid);
        }
        if head.is_some() {
            *self.next_avail = self.next_avail.wrapping_add(1);
        }
        head
    }
}

/// A virtio queue's parameters.
pub struct Queue {
    /// The maximal size in elements offered by the device.
    pub max_size: u16,
    /// The queue size in elements the driver selected.
    pub size: u16,
    /// Indicates if the queue is finished with configuration.
    pub ready: bool,
    /// Guest physical address of the descriptor table.
    pub desc_table: u64,
    /// Guest physical address of the available ring.
    pub avail_ring: u64,
    /// Guest physical address of the used ring.
    pub used_ring: u64,
    /// Ring index of the next available head.
    pub next_avail: u16,
    /// Ring index of the next used element.
    pub next_used: u16,
}

/// Whether `size` is a power of two.
pub open spec fn power_of_two(size: u16) -> bool {
    exists|k: nat| #[trigger] vstd::arithmetic::power2::pow2(k) == size
}

/// Whether the address `size` bytes past `start` is guest memory.
pub open spec fn ends_in_range(layout: Layout, start: u64, size: int) -> bool {
    memory::offset_in_range(layout.regions, start as int, size).is_some()
}

/// A nonzero number without a bit in common with its predecessor is a power of
/// two, and no other is.
proof fn lemma_power_of_two(size: u16)
    requires
        size > 0,
    ensures
        (size & ((size - 1) as u16) == 0) == power_of_two(size),
{
    vstd::arithmetic::power2::lemma2_to64();
    assert(size > 0 ==> ((size & ((size - 1) as u16) == 0) == (size == 0x1 || size == 0x2 || size
        == 0x4 || size == 0x8 || size == 0x10 || size == 0x20 || size == 0x40 || size == 0x80
        || size == 0x100 || size == 0x200 || size == 0x400 || size == 0x800 || size == 0x1000
        || size == 0x2000 || size == 0x4000 || size == 0x8000))) by (bit_vector);
    if power_of_two(size) {
        let k = choose|k: nat| #[trigger] vstd::arithmetic::power2::pow2(k) == size;
        if k >= 16 {
            if k > 16 {
                vstd::arithmetic::power2::lemma_pow2_strictly_increases(16, k);
            }
            assert(false);
        }
    }
}

impl Queue {
    /// The size of the rings: what the driver selected, but at most what the
    /// device offers.
    pub open spec fn ring_size(&self) -> u16 {
        if self.size <= self.max_size {
            self.size
        } else {
            self.max_size
        }
    }

    /// Whether the driver set the queue up so that it can be used: ready, of a
    /// size that is offered and a power of two, with aligned rings whose ends
    /// are guest memory.
    pub open spec fn valid(&self, layout: Layout) -> bool {
        &&& self.ready
        &&& 0 < self.size <= self.max_size
        &&& power_of_two(self.size)
        &&& ends_in_range(layout, self.desc_table, 16 * self.size)
        &&& ends_in_range(layout, self.avail_ring, 6 + 2 * self.size)
        &&& ends_in_range(layout, self.used_ring, 6 + 8 * self.size)
        &&& self.desc_table % 16 == 0
        &&& self.avail_ring % 2 == 0
        &&& self.used_ring % 4 == 0
    }

    /// Whether the driver's index of the available ring can be accessed.
    pub open spec fn avail_index_mapped(&self, layout: Layout) -> bool {
        memory::mapped(layout.regions, self.avail_ring as int, 4)
    }

    /// What writing the driver's index does.
    pub open spec fn index_written(
        &self,
        layout: Layout,
        before: Seq<Access>,
        after: Seq<Access>,
        value: u16,
    ) -> bool {
        after == before.push(
            Access::Store {
                addr: (self.avail_ring + 2) as u64,
                bytes: number::encoded(layout.order, value as nat, 2),
            },
        )
    }

    /// What reading the driver's index does and gives.
    pub open spec fn index_read(
        &self,
        layout: Layout,
        before: Seq<Access>,
        after: Seq<Access>,
        value: u16,
    ) -> bool {
        &&& loads(before, after, self.avail_ring + 2, 2)
        &&& value == number::value(layout.order, loaded(after))
    }

    /// Constructs an empty virtio queue with the given `max_size`.
    pub fn new(max_size: u16) -> (queue: Queue)
        ensures
            queue == (Queue {
                max_size,
                size: 0,
                ready: false,
                desc_table: 0,
                avail_ring: 0,
                used_ring: 0,
                next_avail: 0,
                next_used: 0,
            }),
    {
        Queue {
            max_size,
            size: 0,
            ready: false,
            desc_table: 0,
            avail_ring: 0,
            used_ring: 0,
            next_avail: 0,
            next_used: 0,
        }
    }

    /// The maximal size in elements offered by the device.
    pub fn get_max_size(&self) -> (max_size: u16)
        ensures
            max_size == self.max_size,
    {
        self.max_size
    }

    /// Return the actual size of the queue, as the driver may not set up a
    /// queue as big as the device allows.
    pub fn actual_size(&self) -> (size: u16)
        ensures
            size == self.ring_size(),
    {
        if self.size <= self.max_size {
            self.size
        } else {
            self.max_size
        }
    }

    /// Whether the driver set the queue up so that it can be used.
    pub fn is_valid(&self, mem: &GuestRam) -> (valid: bool)
        ensures
            valid == self.valid(mem.layout()),
    {
        let queue_size: u64 = self.actual_size() as u64;
        let desc_table: u64 = self.desc_table;
        let desc_table_size: u64 = 16 * queue_size;
        let avail_ring: u64 = self.avail_ring;
        let avail_ring_size: u64 = 6 + 2 * queue_size;
        let used_ring: u64 = self.used_ring;
        let used_ring_size: u64 = 6 + 8 * queue_size;
        proof {
            if self.size > 0 {
                lemma_power_of_two(self.size);
            }
            assert((desc_table & 0xf == 0) == (desc_table % 16 == 0)) by (bit_vector);
            assert((avail_ring & 0x1 == 0) == (avail_ring % 2 == 0)) by (bit_vector);
            assert((used_ring & 0x3 == 0) == (used_ring % 4 == 0)) by (bit_vector);
        }
        if !self.ready {
            false
        } else if self.size > self.max_size || self.size == 0 || (self.size & (self.size - 1))
            != 0 {
            false
        } else if !end_in_range(mem, desc_table, desc_table_size) {
            false
        } else if !end_in_range(mem, avail_ring, avail_ring_size) {
            false
        } else if !end_in_range(mem, used_ring, used_ring_size) {
            false
        } else if desc_table & 0xf != 0 {
            false
        } else if avail_ring & 0x1 != 0 {
            false
        } else if used_ring & 0x3 != 0 {
            false
        } else {
            true
        }
    }

    /// A consuming iterator over all available descriptor chain heads offered by the driver.
    pub fn iter<'b>(&'b mut self, mem: &mut GuestRam) -> (iter: AvailIter<'b>)
        requires
            old(self).avail_index_mapped(old(mem).layout()),
        ensures
            final(mem).layout() == old(mem).layout(),
            old(self).index_read(
                old(mem).layout(),
                old(mem).log(),
                final(mem).log(),
                iter.last_index,
            ),
            iter.desc_table == old(self).desc_table,
            iter.avail_ring == old(self).avail_ring,
            iter.next_index == old(self).next_avail,
            iter.queue_size == old(self).ring_size(),
            *iter.next_avail == old(self).next_avail,
            *final(self) == (Queue { next_avail: *final(iter.next_avail), ..*old(self) }),
    {
        let queue_size: u16 = self.actual_size();
        let avail_ring: u64 = self.avail_ring;
        let last_index: u16 = self.get_last_index(mem);
        AvailIter {
            desc_table: self.desc_table,
            avail_ring,
            next_index: self.next_avail,
            last_index,
            queue_size,
            next_avail: &mut self.next_avail,
        }
    }

    /// Writes the driver's index of the available ring.
    pub fn set_last_index(&mut self, mem: &mut GuestRam, value: u16)
        requires
            old(self).avail_index_mapped(old(mem).layout()),
        ensures
            *final(self) == *old(self),
            final(mem).layout() == old(mem).layout(),
            old(self).index_written(old(mem).layout(), old(mem).log(), final(mem).log(), value),
    {
        let _region: Option<(u64, u64)> = mem.region(self.avail_ring);
        proof {
            memory::lemma_same_region(
                mem.layout().regions,
                self.avail_ring as int,
                self.avail_ring + 2,
            );
            memory::lemma_mapped_is_spanned(mem.layout().regions, self.avail_ring + 2, 2);
            number::lemma_encoded_len(mem.layout().order, value as nat, 2);
        }
        mem.store(self.avail_ring + 2, &number::encode(mem.order(), value as u64, 2));
    }

    /// Reads the driver's index of the available ring.
    pub fn get_last_index(&self, mem: &mut GuestRam) -> (last_index: u16)
        requires
            self.avail_index_mapped(old(mem).layout()),
        ensures
            final(mem).layout() == old(mem).layout(),
            self.index_read(old(mem).layout(), old(mem).log(), final(mem).log(), last_index),
    {
        let _region: Option<(u64, u64)> = mem.region(self.avail_ring);
        proof {
            memory::lemma_same_region(
                mem.layout().regions,
                self.avail_ring as int,
                self.avail_ring + 2,
            );
            memory::lemma_mapped_is_spanned(mem.layout().regions, self.avail_ring + 2, 2);
        }
        let bytes: Vec<u8> = mem.load(self.avail_ring + 2, 2);
        proof {
            number::lemma_byte_spans();
            number::lemma_value_bound(mem.layout().order, bytes@);
            assert(bytes@.subrange(0, 2) =~= bytes@);
        }
        number::decode(mem.order(), &bytes, 0, 2) as u16
    }

    /// The address of the used ring's element for the next used index.
    pub open spec fn used_elem(&self) -> int {
        self.used_ring + 4 + (self.next_used as int % self.ring_size() as int) * 8
    }

    /// Whether the next used element and the used ring's index can be written.
    pub open spec fn used_mapped(&self, layout: Layout) -> bool {
        &&& self.used_elem() <= u64::MAX
        &&& memory::mapped(layout.regions, self.used_elem(), 8)
        &&& self.used_ring + 2 <= u64::MAX
        &&& memory::mapped(layout.regions, self.used_ring + 2, 2)
    }

    /// The accesses that put descriptor head `desc_index` into the used ring:
    /// the element's two halves, a fence, and only then the index.
    pub open spec fn used_accesses(&self, order: ByteOrder, desc_index: u16, len: u32) -> Seq<
        Access,
    > {
        seq![
            Access::Store {
                addr: self.used_elem() as u64,
                bytes: number::encoded(order, desc_index as nat, 4),
            },
            Access::Store {
                addr: (self.used_elem() + 4) as u64,
                bytes: number::encoded(order, len as nat, 4),
            },
            Access::Fence,
            Access::Store {
                addr: (self.used_ring + 2) as u64,
                bytes: number::encoded(order, wrap16(self.next_used + 1) as nat, 2),
            },
        ]
    }

    /// The queue one position back.
    pub open spec fn one_back(self) -> Queue {
        Queue { next_avail: wrap16(self.next_avail - 1), ..self }
    }

    /// What putting a head into the used ring does.
    pub open spec fn head_used(
        self,
        layout: Layout,
        before: Seq<Access>,
        after: Seq<Access>,
        desc_index: u16,
        len: u32,
        next: Queue,
    ) -> bool {
        if desc_index < self.ring_size() {
            &&& next == Queue { next_used: wrap16(self.next_used + 1), ..self }
            &&& after == before + self.used_accesses(layout.order, desc_index, len)
        } else {
            next == self && after == before
        }
    }

    /// Puts an available descriptor head into the used ring for use by the guest.
    /// A head that is not in the table is ignored.
    pub fn add_used(&mut self, mem: &mut GuestRam, desc_index: u16, len: u32)
        requires
            desc_index < old(self).ring_size() ==> old(self).used_mapped(old(mem).layout()),
        ensures
            final(mem).layout() == old(mem).layout(),
            old(self).head_used(
                old(mem).layout(),
                old(mem).log(),
                final(mem).log(),
                desc_index,
                len,
                *final(self),
            ),
    {
        if desc_index >= self.actual_size() {
            return ;
        }
        let used_ring: u64 = self.used_ring;
        let next_used: u64 = (self.next_used % self.actual_size()) as u64;
        let used_elem: u64 = used_ring + (4 + next_used * 8);
        let _region: Option<(u64, u64)> = mem.region(used_elem);
        proof {
            let regions = mem.layout().regions;
            memory::lemma_same_region(regions, used_elem as int, used_elem + 4);
            memory::lemma_mapped_is_spanned(regions, used_elem as int, 4);
            memory::lemma_mapped_is_spanned(regions, used_elem + 4, 4);
            memory::lemma_mapped_is_spanned(regions, used_ring + 2, 2);
        }
        mem.store(used_elem, &number::encode(mem.order(), desc_index as u64, 4));
        mem.store(used_elem + 4, &number::encode(mem.order(), len as u64, 4));

        self.next_used = self.next_used.wrapping_add(1);

        // The element is visible before the index that announces it.
        mem.release_fence();

        mem.store(used_ring + 2, &number::encode(mem.order(), self.next_used as u64, 2));
        proof {
            assert(mem.log() =~= old(mem).log() + old(self).used_accesses(
                old(mem).layout().order,
                desc_index,
                len,
            ));
        }
    }

    /// Goes back one position in the available descriptor chain offered by the driver.
    /// This is the only way to revert the effect of an iterator increment on the queue.
    pub fn go_to_previous_position(&mut self)
        ensures
            *final(self) == old(self).one_back(),
    {
        self.next_avail = self.next_avail.wrapping_sub(1);
    }
}

/// Whether the address `size` bytes past `start` is guest memory.
fn end_in_range(mem: &GuestRam, start: u64, size: u64) -> (found: bool)
    ensures
        found == ends_in_range(mem.layout(), start, size as int),
{
    match start.checked_add(size) {
        Some(end) => mem.address_in_range(end),
        None => false,
    }
}

impl Clone for Queue {
    fn clone(&self) -> (queue: Queue)
        ensures
            queue == *self,
    {
        Queue {
            max_size: self.max_size,
            size: self.size,
            ready: self.ready,
            desc_table: self.desc_table,
            avail_ring: self.avail_ring,
            used_ring: self.used_ring,
            next_avail: self.next_avail,
            next_used: self.next_used,
        }
    }
}

impl Default for Queue {
    fn default() -> (queue: Queue)
        ensures
            queue == (Queue {
                max_size: 0,
                size: 0,
                ready: false,
                desc_table: 0,
                avail_ring: 0,
                used_ring: 0,
                next_avail: 0,
                next_used: 0,
            }),
    {
        Queue::new(0)
    }
}

} // verus!
