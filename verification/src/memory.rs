//! Guest memory, and a record of every access that is made to it.
use crate::number;
use crate::number::ByteOrder;
use vm_memory::{Bytes, GuestMemory, GuestMemoryRegion};
use vstd::prelude::*;

verus! {

/// The memory regions of a guest, mapped into this process.
#[verifier::external_type_specification]
#[verifier::external_body]
pub struct ExGuestMemoryMmap(vm_memory::GuestMemoryMmap);

/// The regions that a memory map was made with, in the order it holds them:
/// each one's first address and its length in bytes.
pub uninterp spec fn map_regions(mem: vm_memory::GuestMemoryMmap) -> Seq<(u64, u64)>;

/// One access to guest memory.
pub enum Access {
    /// `bytes` were read at `addr`.
    Load { addr: u64, bytes: Seq<u8> },
    /// `bytes` were written at `addr`.
    Store { addr: u64, bytes: Seq<u8> },
    /// Earlier stores were ordered before later ones.
    Fence,
}

/// Whether `region` holds the address `addr`.
pub open spec fn holds(region: (u64, u64), addr: int) -> bool {
    region.0 <= addr < region.0 + region.1
}

/// The region that holds `addr`.
pub open spec fn region_at(regions: Seq<(u64, u64)>, addr: int) -> Option<(u64, u64)> {
    if exists|i: int| 0 <= i < regions.len() && #[trigger] holds(regions[i], addr) {
        Some(regions[choose|i: int| 0 <= i < regions.len() && #[trigger] holds(regions[i], addr)])
    } else {
        None
    }
}

/// Whether no other region shares an address with `region`, and its end fits
/// into an address.
pub open spec fn apart(regions: Seq<(u64, u64)>, region: (u64, u64)) -> bool {
    &&& region.0 + region.1 <= u64::MAX
    &&& forall|i: int, addr: int|
        0 <= i < regions.len() && holds(region, addr) && #[trigger] holds(regions[i], addr)
            ==> regions[i] == region
}

/// Every address of a region that stands apart is found in that region.
pub proof fn lemma_same_region(regions: Seq<(u64, u64)>, at: int, addr: int)
    requires
        region_at(regions, at) matches Some(region) && apart(regions, region) && holds(
            region,
            addr,
        ),
    ensures
        region_at(regions, addr) == region_at(regions, at),
{
    let i = choose|i: int| 0 <= i < regions.len() && #[trigger] holds(regions[i], at);
    assert(holds(regions[i], addr));
}

/// Whether the `len` bytes at `addr` lie in one region.
pub open spec fn mapped(regions: Seq<(u64, u64)>, addr: int, len: int) -> bool {
    match region_at(regions, addr) {
        Some(region) => addr + len <= region.0 + region.1,
        None => false,
    }
}

/// Whether some region holds `addr`, and each of the `len` bytes there lies in some
/// region.
pub open spec fn spanned(regions: Seq<(u64, u64)>, addr: int, len: int) -> bool {
    forall|at: int|
        at == addr || addr <= at < addr + len ==> (#[trigger] region_at(regions, at)).is_some()
}

/// Every address of the region that holds `at` is found in some region.
proof fn lemma_held(regions: Seq<(u64, u64)>, at: int, addr: int)
    requires
        region_at(regions, at) matches Some(region) && holds(region, addr),
    ensures
        region_at(regions, addr).is_some(),
{
    let i = choose|i: int| 0 <= i < regions.len() && #[trigger] holds(regions[i], at);
    assert(holds(regions[i], addr));
}

/// Bytes that lie in one region each lie in some region.
pub proof fn lemma_mapped_is_spanned(regions: Seq<(u64, u64)>, addr: int, len: int)
    requires
        mapped(regions, addr, len),
    ensures
        spanned(regions, addr, len),
{
    assert forall|at: int| at == addr || addr <= at < addr + len implies (#[trigger] region_at(
        regions,
        at,
    )).is_some() by {
        let i = choose|i: int| 0 <= i < regions.len() && #[trigger] holds(regions[i], addr);
        assert(holds(regions[i], at));
    }
}

/// Whether `addr` is an address, and the `len` bytes there can be accessed.
pub open spec fn reachable(regions: Seq<(u64, u64)>, addr: int, len: int) -> bool {
    0 <= addr <= u64::MAX && spanned(regions, addr, len)
}

/// The address `offset` bytes past `base`, where it is an address that some
/// region holds.
pub open spec fn offset_in_range(regions: Seq<(u64, u64)>, base: int, offset: int) -> Option<u64> {
    if base + offset <= u64::MAX && region_at(regions, base + offset).is_some() {
        Some((base + offset) as u64)
    } else {
        None
    }
}

/// The byte that the first `n` accesses last stored at `addr`.
pub open spec fn stored_byte(log: Seq<Access>, n: int, addr: int) -> Option<u8>
    decreases n,
{
    if n <= 0 {
        None
    } else {
        match log[n - 1] {
            Access::Store { addr: at, bytes } if at <= addr < at + bytes.len() => Some(
                bytes[addr - at],
            ),
            _ => stored_byte(log, n - 1, addr),
        }
    }
}

/// Whether the `bytes` at `addr` are the last thing that the first `n` accesses
/// stored there.
pub open spec fn stored(log: Seq<Access>, n: int, addr: int, bytes: Seq<u8>) -> bool {
    forall|k: int|
        0 <= k < bytes.len() ==> #[trigger] stored_byte(log, n, addr + k) == Some(bytes[k])
}

/// Whether nobody else wrote to the memory in between: each load gave back what
/// was stored before, wherever something was.
pub open spec fn undisturbed(log: Seq<Access>) -> bool {
    forall|n: int, at: int|
        0 <= n < log.len() ==> (#[trigger] stored_byte(log, n, at) matches Some(byte) ==> (
        log[n] matches Access::Load { addr, bytes } ==> addr <= at < addr + bytes.len()
            ==> bytes[at - addr] == byte))
}

/// Bytes that can be accessed each lie between the first address and the end of
/// some region.
pub proof fn law_reachable_bytes_lie_in_regions(
    regions: Seq<(u64, u64)>,
    addr: int,
    len: int,
    at: int,
)
    requires
        reachable(regions, addr, len),
        addr <= at < addr + len,
    ensures
        0 <= addr <= u64::MAX,
        exists|i: int|
            0 <= i < regions.len() && (#[trigger] regions[i]).0 <= at < regions[i].0
                + regions[i].1,
{
    law_region_holds_its_address(regions, at);
    assert(region_at(regions, at).is_some());
}

/// Bytes that each lie between the first address and the end of some region can be
/// accessed.
pub proof fn law_bytes_in_regions_are_reachable(regions: Seq<(u64, u64)>, addr: int, len: int)
    requires
        0 <= addr <= u64::MAX,
        len > 0,
        forall|at: int|
            #![trigger region_at(regions, at)]
            addr <= at < addr + len ==> exists|i: int|
                0 <= i < regions.len() && (#[trigger] regions[i]).0 <= at < regions[i].0
                    + regions[i].1,
    ensures
        reachable(regions, addr, len),
{
    assert forall|at: int| at == addr || addr <= at < addr + len implies (#[trigger] region_at(
        regions,
        at,
    )).is_some() by {
        law_region_holds_its_address(regions, at);
    }
}

/// A region is found for an address exactly where one holds it, and the one found
/// does.
pub proof fn law_region_holds_its_address(regions: Seq<(u64, u64)>, addr: int)
    ensures
        region_at(regions, addr).is_some() <==> exists|i: int|
            0 <= i < regions.len() && (#[trigger] regions[i]).0 <= addr < regions[i].0
                + regions[i].1,
        region_at(regions, addr) matches Some(region) ==> regions.contains(region) && region.0
            <= addr < region.0 + region.1,
{
    if exists|i: int|
        0 <= i < regions.len() && (#[trigger] regions[i]).0 <= addr < regions[i].0 + regions[i].1 {
        let i = choose|i: int|
            0 <= i < regions.len() && (#[trigger] regions[i]).0 <= addr < regions[i].0
                + regions[i].1;
        assert(holds(regions[i], addr));
    }
    if region_at(regions, addr).is_some() {
        let i = choose|i: int| 0 <= i < regions.len() && #[trigger] holds(regions[i], addr);
        assert(regions[i].0 <= addr < regions[i].0 + regions[i].1);
    }
}

/// An offset leads to an address exactly where the sum is one that a region holds.
pub proof fn law_offset_leads_into_a_region(regions: Seq<(u64, u64)>, base: int, offset: int)
    requires
        0 <= base,
        0 <= offset,
    ensures
        match offset_in_range(regions, base, offset) {
            Some(sum) => sum == base + offset && exists|i: int|
                0 <= i < regions.len() && (#[trigger] regions[i]).0 <= base + offset < regions[i].0
                    + regions[i].1,
            None => base + offset > u64::MAX || forall|i: int|
                0 <= i < regions.len() ==> !((#[trigger] regions[i]).0 <= base + offset
                    < regions[i].0 + regions[i].1),
        },
{
    law_region_holds_its_address(regions, base + offset);
}

/// Whether `access` writes to the byte at `addr`.
pub open spec fn writes_to(access: Access, addr: int) -> bool {
    access matches Access::Store { addr: at, bytes } && at <= addr < at + bytes.len()
}

/// The byte that was last stored at an address is that of a store which no later
/// one covers.
pub proof fn law_last_store_counts(log: Seq<Access>, n: int, m: int, addr: int)
    requires
        0 <= m < n <= log.len(),
        log[m] is Store,
        log[m]->Store_addr <= addr < log[m]->Store_addr + log[m]->Store_bytes.len(),
        forall|j: int| m < j < n ==> !writes_to(#[trigger] log[j], addr),
    ensures
        stored_byte(log, n, addr) == Some(log[m]->Store_bytes[addr - log[m]->Store_addr]),
    decreases n,
{
    if n > m + 1 {
        law_last_store_counts(log, n - 1, m, addr);
        assert(!writes_to(log[n - 1], addr));
    }
}

/// Where no store covers an address, nothing was stored there.
pub proof fn law_nothing_comes_from_nothing(log: Seq<Access>, n: int, addr: int)
    requires
        0 <= n <= log.len(),
        forall|j: int| 0 <= j < n ==> !writes_to(#[trigger] log[j], addr),
    ensures
        stored_byte(log, n, addr).is_none(),
    decreases n,
{
    if n > 0 {
        law_nothing_comes_from_nothing(log, n - 1, addr);
        assert(!writes_to(log[n - 1], addr));
    }
}

/// What guest memory is like.
pub struct Layout {
    /// The regions: each one's first address and its length.
    pub regions: Seq<(u64, u64)>,
    /// In which order the bytes of a number lie.
    pub order: ByteOrder,
}

/// Guest memory together with the accesses made to it.
///
/// The driver shares this memory and may change it at any time, so a load can
/// give any bytes. What this side does, and in which order, is the record.
pub struct GuestRam {
    mem: vm_memory::GuestMemoryMmap,
    order: ByteOrder,
    record: Ghost<Seq<Access>>,
}

impl GuestRam {
    /// What the memory is like.
    pub closed spec fn layout(&self) -> Layout {
        Layout { regions: map_regions(self.mem), order: self.order }
    }

    /// The accesses made so far, the first one first.
    pub closed spec fn log(&self) -> Seq<Access> {
        self.record@
    }

    /// Takes over `mem`, with no access made yet. Numbers in it have the byte
    /// order of this machine.
    pub fn new(mem: vm_memory::GuestMemoryMmap) -> (ram: GuestRam)
        ensures
            ram.layout().regions == map_regions(mem),
            ram.log() == Seq::<Access>::empty(),
    {
        GuestRam::with_order(mem, number::machine_order())
    }

    /// Takes over `mem`, with no access made yet. Numbers in it have the byte
    /// order `order`.
    pub fn with_order(mem: vm_memory::GuestMemoryMmap, order: ByteOrder) -> (ram: GuestRam)
        ensures
            ram.layout() == (Layout { regions: map_regions(mem), order }),
            ram.log() == Seq::<Access>::empty(),
    {
        GuestRam { mem, order, record: Ghost(Seq::empty()) }
    }

    /// The byte order of numbers in the memory.
    pub fn order(&self) -> (order: ByteOrder)
        ensures
            order == self.layout().order,
    {
        self.order
    }

    /// The region that holds `addr`, as its first address and its length.
    ///
    /// Calls `vm_memory::GuestMemory::to_region_addr`. A map is only made of
    /// regions that do not overlap and whose ends fit into an address, so at
    /// most one of them holds `addr`; it is the one that the call finds.
    #[verifier::external_body]
    fn to_region_addr(&self, addr: u64) -> (region: Option<(u64, u64)>)
        ensures
            region == region_at(map_regions(self.mem), addr as int),
            region matches Some(r) ==> apart(map_regions(self.mem), r),
    {
        self.mem.to_region_addr(vm_memory::GuestAddress(addr)).map(
            |found| (found.0.start_addr().0, found.0.len()),
        )
    }

    /// Whether some region holds `addr`.
    ///
    /// Calls `vm_memory::GuestMemory::address_in_range`.
    #[verifier::external_body]
    pub(crate) fn address_in_range(&self, addr: u64) -> (found: bool)
        ensures
            found == region_at(self.layout().regions, addr as int).is_some(),
    {
        self.mem.address_in_range(vm_memory::GuestAddress(addr))
    }

    /// The address `offset` bytes past `base`, where some region holds it.
    ///
    /// Calls `vm_memory::GuestMemory::checked_offset`, which also gives `None`
    /// where the sum does not fit into an address.
    #[verifier::external_body]
    pub(crate) fn checked_offset(&self, base: u64, offset: usize) -> (sum: Option<u64>)
        ensures
            sum == offset_in_range(self.layout().regions, base as int, offset as int),
    {
        self.mem.checked_offset(vm_memory::GuestAddress(base), offset).map(|sum| sum.0)
    }

    /// Reads the `len` bytes at `addr`.
    ///
    /// Calls `vm_memory::Bytes::read_slice`, which goes on from one region to the
    /// next and fills the whole buffer where every byte lies in some region. The
    /// access is added to the record. Which
    /// bytes come back is not stated: the driver may write to this memory at
    /// any time.
    #[verifier::external_body]
    pub(crate) fn load(&mut self, addr: u64, len: usize) -> (bytes: Vec<u8>)
        requires
            spanned(old(self).layout().regions, addr as int, len as int),
        ensures
            bytes@.len() == len,
            final(self).layout() == old(self).layout(),
            final(self).log() == old(self).log().push(Access::Load { addr, bytes: bytes@ }),
    {
        let mut buf = vec![0u8; len];
        self.mem.read_slice(&mut buf, vm_memory::GuestAddress(addr)).unwrap();
        buf
    }

    /// Writes `bytes` at `addr`.
    ///
    /// Calls `vm_memory::Bytes::write_slice`, which goes on from one region to the
    /// next and writes all of them where each lies in some region. The access is
    /// added to the record.
    #[verifier::external_body]
    pub(crate) fn store(&mut self, addr: u64, bytes: &Vec<u8>)
        requires
            spanned(old(self).layout().regions, addr as int, bytes@.len() as int),
        ensures
            final(self).layout() == old(self).layout(),
            final(self).log() == old(self).log().push(Access::Store { addr, bytes: bytes@ }),
    {
        self.mem.write_slice(bytes, vm_memory::GuestAddress(addr)).unwrap();
    }

    /// Makes the stores so far visible before any later one.
    ///
    /// Calls `std::sync::atomic::fence` with release ordering. The fence is
    /// added to the record.
    #[verifier::external_body]
    pub(crate) fn release_fence(&mut self)
        ensures
            final(self).layout() == old(self).layout(),
            final(self).log() == old(self).log().push(Access::Fence),
    {
        std::sync::atomic::fence(std::sync::atomic::Ordering::Release);
    }

    /// The region that holds `addr`, as its first address and its length.
    pub fn region(&self, addr: u64) -> (region: Option<(u64, u64)>)
        ensures
            region == region_at(self.layout().regions, addr as int),
            region matches Some(r) ==> holds(r, addr as int) && apart(self.layout().regions, r),
    {
        self.to_region_addr(addr)
    }

    /// Whether some region holds `addr`, and each of the `len` bytes there lies in
    /// some region.
    pub fn is_mapped(&self, addr: u64, len: u64) -> (found: bool)
        ensures
            found == spanned(self.layout().regions, addr as int, len as int),
    {
        let ghost regions = self.layout().regions;
        let mut at: u64 = addr;
        let mut left: u64 = len;
        loop
            invariant
                regions == self.layout().regions,
                at + left == addr + len,
                addr <= at,
                at == addr || left > 0,
                forall|b: int| addr <= b < at ==> (#[trigger] region_at(regions, b)).is_some(),
            decreases left,
        {
            match self.region(at) {
                Some((start, size)) => {
                    let room: u64 = start + size - at;
                    proof {
                        assert forall|b: int| at <= b < at + room implies (#[trigger] region_at(
                            regions,
                            b,
                        )).is_some() by {
                            lemma_held(regions, at as int, b);
                        }
                    }
                    if left <= room {
                        return true;
                    }
                    at = at + room;
                    left = left - room;
                },
                None => {
                    assert(region_at(regions, at as int).is_none());
                    return false;
                },
            }
        }
    }

    /// The address `offset` bytes past `base`, where the `len` bytes there can
    /// be accessed.
    pub fn reach(&self, base: u64, offset: u64, len: u64) -> (addr: Option<u64>)
        ensures
            addr.is_some() == reachable(self.layout().regions, base + offset, len as int),
            addr matches Some(addr) ==> addr == base + offset,
    {
        match base.checked_add(offset) {
            Some(addr) => if self.is_mapped(addr, len) {
                Some(addr)
            } else {
                None
            },
            None => None,
        }
    }
}

} // verus!
