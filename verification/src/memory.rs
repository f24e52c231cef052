//! Guest memory regions: how a snapshot describes them, where the host has mapped them, and
//! where their contents lie in a memory file.
use vstd::prelude::*;

verus! {

broadcast use vstd::seq::group_seq_axioms;

/// What a guest memory region is for.
#[derive(Clone, Copy, Debug, PartialEq, Eq, Structural)]
pub enum GuestRegionType {
    /// Memory that the guest has from the start.
    Dram,
    /// Memory that can be plugged in later.
    Hotpluggable,
}

/// A guest memory region as a snapshot describes it.
#[derive(Debug, PartialEq, Eq)]
pub struct GuestMemoryRegionState {
    /// Guest address of the region.
    pub base_address: u64,
    /// Size in bytes.
    pub size: usize,
    /// What the region is for.
    pub region_type: GuestRegionType,
    /// For each memory slot of the region, whether it is plugged.
    pub plugged: Vec<bool>,
}

/// Guest memory as a snapshot describes it.
#[derive(Debug, PartialEq, Eq)]
pub struct GuestMemoryState {
    /// The regions, in guest address order.
    pub regions: Vec<GuestMemoryRegionState>,
}

/// The layout of guest memory: guest address and size of each region.
pub open spec fn region_shape(regions: Seq<GuestMemoryRegionState>) -> Seq<(u64, usize)> {
    regions.map_values(|r: GuestMemoryRegionState| (r.base_address, r.size))
}

/// The layout of guest memory has one entry per region, in order, with the region's guest address
/// and its size, whatever the region is for and whichever of its slots are plugged.
pub proof fn law_shape_is_addresses_and_sizes(regions: Seq<GuestMemoryRegionState>)
    ensures
        region_shape(regions).len() == regions.len(),
        forall|i: int|
            0 <= i < regions.len() ==> (#[trigger] region_shape(regions)[i]).0
                == regions[i].base_address && region_shape(regions)[i].1 == regions[i].size,
{
}

impl GuestMemoryState {
    /// The guest address and the size of each region.
    pub fn regions(&self) -> (shape: Vec<(u64, usize)>)
        ensures
            shape@ == region_shape(self.regions@),
            shape@.len() == self.regions@.len(),
            forall|i: int|
                0 <= i < shape@.len() ==> (#[trigger] shape@[i]).0 == self.regions@[i].base_address
                    && shape@[i].1 == self.regions@[i].size,
    {
        let mut shape: Vec<(u64, usize)> = Vec::with_capacity(self.regions.len());
        let mut i: usize = 0;
        while i < self.regions.len()
            invariant
                i <= self.regions.len(),
                shape@ == region_shape(self.regions@).subrange(0, i as int),
            decreases self.regions.len() - i,
        {
            shape.push((self.regions[i].base_address, self.regions[i].size));
            i = i + 1;
            assert(shape@ =~= region_shape(self.regions@).subrange(0, i as int));
        }
        assert(shape@ =~= region_shape(self.regions@));
        shape
    }
}

impl Default for GuestMemoryState {
    fn default() -> (state: GuestMemoryState)
        ensures
            state.regions@.len() == 0,
    {
        GuestMemoryState { regions: Vec::new() }
    }
}

/// How guest memory is backed by huge pages.
#[derive(Clone, Copy, Debug, PartialEq, Eq, Structural)]
pub enum HugePageConfig {
    /// Pages of 4 KiB.
    Small,
    /// Huge pages of 2 MiB from hugetlbfs.
    Hugetlbfs2M,
}

impl HugePageConfig {
    /// The page size in bytes.
    pub open spec fn page_bytes(self) -> nat {
        match self {
            HugePageConfig::Small => 4096,
            HugePageConfig::Hugetlbfs2M => 0x20_0000,
        }
    }

    /// The page size in bytes.
    pub fn page_size(&self) -> (size: usize)
        ensures
            size == self.page_bytes(),
            *self == HugePageConfig::Small ==> size == 4096,
            *self == HugePageConfig::Hugetlbfs2M ==> size == 2 * 1024 * 1024,
    {
        match self {
            HugePageConfig::Small => 4096,
            HugePageConfig::Hugetlbfs2M => 0x20_0000,
        }
    }

    /// Whether memory comes from hugetlbfs.
    pub fn is_hugetlbfs(&self) -> (r: bool)
        ensures
            r == (*self == HugePageConfig::Hugetlbfs2M),
    {
        match self {
            HugePageConfig::Small => false,
            HugePageConfig::Hugetlbfs2M => true,
        }
    }
}

/// Small pages have 4 KiB and huge pages 2 MiB.
pub proof fn law_page_bytes(config: HugePageConfig)
    ensures
        config.page_bytes() == if config == HugePageConfig::Hugetlbfs2M {
            2nat * 1024 * 1024
        } else {
            4nat * 1024
        },
{
}

impl Default for HugePageConfig {
    fn default() -> (config: HugePageConfig)
        ensures
            config == HugePageConfig::Small,
    {
        HugePageConfig::Small
    }
}

/// A guest memory region that the host has mapped.
#[derive(Clone, Copy, Debug, PartialEq, Eq, Structural)]
pub struct GuestRegionMmap {
    /// Host address of the mapping.
    pub host_addr: u64,
    /// Size in bytes.
    pub size: usize,
}

/// A mapped region and where its contents start in the memory file.
#[derive(Clone, Copy, Debug, PartialEq, Eq, Structural)]
pub struct FileRegion {
    /// Offset in the memory file.
    pub offset: u64,
    /// Host address of the mapping.
    pub host_addr: u64,
    /// Size in bytes.
    pub size: u64,
}

impl FileRegion {
    /// The region ends below the top of the file's and of the host's address range.
    pub open spec fn fits(self) -> bool {
        &&& self.offset + self.size <= u64::MAX
        &&& self.host_addr + self.size <= u64::MAX
    }

    /// The file offset behind the region.
    pub open spec fn end(self) -> int {
        self.offset + self.size
    }

    /// Whether file offset `offset` lies in the region.
    pub open spec fn holds(self, offset: u64) -> bool {
        self.offset <= offset < self.end()
    }

    /// The host address at which the byte at file offset `offset` is mapped.
    pub open spec fn host_of(self, offset: u64) -> int {
        self.host_addr + (offset - self.offset)
    }
}

/// Whether every region fits its address ranges.
pub open spec fn all_fit(regions: Seq<FileRegion>) -> bool {
    forall|i: int| 0 <= i < regions.len() ==> (#[trigger] regions[i]).fits()
}

/// The index of the first region from `from` on that holds file offset `offset`, or the number
/// of regions when there is none.
pub open spec fn located_from(regions: Seq<FileRegion>, offset: u64, from: int) -> int
    decreases regions.len() - from,
{
    if from >= regions.len() || regions[from].holds(offset) {
        from
    } else {
        located_from(regions, offset, from + 1)
    }
}

/// The index of the first region that holds file offset `offset`, or the number of regions when
/// there is none.
pub open spec fn located(regions: Seq<FileRegion>, offset: u64) -> int {
    located_from(regions, offset, 0)
}

/// Whether some region holds file offset `offset`.
pub open spec fn is_located(regions: Seq<FileRegion>, offset: u64) -> bool {
    located(regions, offset) < regions.len()
}

/// `located_from` finds the first region that holds the offset.
pub proof fn law_located_is_first(regions: Seq<FileRegion>, offset: u64, from: int)
    requires
        0 <= from <= regions.len(),
    ensures
        from <= located_from(regions, offset, from) <= regions.len(),
        located_from(regions, offset, from) < regions.len() ==> regions[located_from(
            regions,
            offset,
            from,
        )].holds(offset),
        forall|i: int|
            from <= i < located_from(regions, offset, from) ==> !(#[trigger] regions[i]).holds(
                offset,
            ),
    decreases regions.len() - from,
{
    if from < regions.len() && !regions[from].holds(offset) {
        law_located_is_first(regions, offset, from + 1);
    }
}

/// An offset is located exactly when some region starts at or below it and ends above it, and
/// then in the first such region.
pub proof fn law_located_in_the_first_region_around(regions: Seq<FileRegion>, offset: u64)
    ensures
        is_located(regions, offset) <==> exists|i: int|
            0 <= i < regions.len() && (#[trigger] regions[i]).offset <= offset < regions[i].offset
                + regions[i].size,
        is_located(regions, offset) ==> {
            let k = located(regions, offset);
            &&& 0 <= k < regions.len()
            &&& regions[k].offset <= offset < regions[k].offset + regions[k].size
            &&& forall|i: int|
                0 <= i < k ==> !((#[trigger] regions[i]).offset <= offset < regions[i].offset
                    + regions[i].size)
        },
{
    law_located_is_first(regions, offset, 0);
    if exists|i: int|
        0 <= i < regions.len() && (#[trigger] regions[i]).offset <= offset < regions[i].offset
            + regions[i].size {
        let i = choose|i: int|
            0 <= i < regions.len() && (#[trigger] regions[i]).offset <= offset < regions[i].offset
                + regions[i].size;
        assert(regions[i].holds(offset));
    }
    if is_located(regions, offset) {
        let k = located(regions, offset);
        assert(regions[k].holds(offset));
        assert forall|i: int| 0 <= i < k implies !((#[trigger] regions[i]).offset <= offset
            < regions[i].offset + regions[i].size) by {
            assert(!regions[i].holds(offset));
        }
    }
}

/// A region maps its first byte at its host address, and each further byte one address higher.
pub proof fn law_host_addresses_follow_offsets(region: FileRegion, offset: u64)
    ensures
        region.host_of(offset) - region.host_addr == offset - region.offset,
        region.end() == region.offset + region.size,
        region.holds(offset) <==> region.offset <= offset < region.offset + region.size,
        region.fits() <==> region.offset + region.size <= u64::MAX && region.host_addr
            + region.size <= u64::MAX,
{
}

/// Regions fit exactly when each ends below 2^64, in the file and on the host.
pub proof fn law_regions_that_fit(regions: Seq<FileRegion>)
    ensures
        all_fit(regions) <==> forall|i: int|
            0 <= i < regions.len() ==> (#[trigger] regions[i]).offset + regions[i].size <= u64::MAX
                && regions[i].host_addr + regions[i].size <= u64::MAX,
{
    if forall|i: int|
        0 <= i < regions.len() ==> (#[trigger] regions[i]).offset + regions[i].size <= u64::MAX
            && regions[i].host_addr + regions[i].size <= u64::MAX {
        assert forall|i: int| 0 <= i < regions.len() implies (#[trigger] regions[i]).fits() by {}
    }
    if all_fit(regions) {
        assert forall|i: int| 0 <= i < regions.len() implies (#[trigger] regions[i]).offset
            + regions[i].size <= u64::MAX && regions[i].host_addr + regions[i].size <= u64::MAX by {
            assert(regions[i].fits());
        }
    }
}

/// The first region that holds file offset `offset`.
pub fn locate(regions: &Vec<FileRegion>, offset: u64) -> (r: Option<FileRegion>)
    requires
        all_fit(regions@),
    ensures
        r is Some <==> is_located(regions@, offset),
        r matches Some(region) ==> region == regions@[located(regions@, offset)] && region.holds(
            offset,
        ) && region.fits(),
        r is None ==> forall|i: int|
            0 <= i < regions@.len() ==> !((#[trigger] regions@[i]).offset <= offset
                < regions@[i].offset + regions@[i].size),
        r matches Some(region) ==> exists|i: int|
            0 <= i < regions@.len() && #[trigger] regions@[i] == region && region.offset <= offset
                < region.offset + region.size && forall|j: int|
                0 <= j < i ==> !((#[trigger] regions@[j]).offset <= offset < regions@[j].offset
                    + regions@[j].size),
{
    proof {
        law_located_in_the_first_region_around(regions@, offset);
    }
    let mut i: usize = 0;
    while i < regions.len()
        invariant
            i <= regions.len(),
            all_fit(regions@),
            located(regions@, offset) == located_from(regions@, offset, i as int),
        decreases regions.len() - i,
    {
        let region: FileRegion = regions[i];
        assert(regions@[i as int].fits());
        if region.offset <= offset && offset < region.offset + region.size {
            proof {
                law_located_in_the_first_region_around(regions@, offset);
                assert(regions@[i as int] == region);
            }
            return Some(region);
        }
        i = i + 1;
    }
    None
}

/// The total size of the first `n` regions.
pub open spec fn total_size(regions: Seq<GuestRegionMmap>, n: int) -> nat
    decreases n,
{
    if n <= 0 {
        0
    } else {
        total_size(regions, n - 1) + regions[n - 1].size as nat
    }
}

/// Guest memory that a machine can have mapped: the regions end below the top of the host's
/// address range, and together they have a size that a file offset can express.
pub open spec fn mappable(guest_memory: Seq<GuestRegionMmap>) -> bool {
    &&& total_size(guest_memory, guest_memory.len() as int) <= u64::MAX
    &&& forall|i: int|
        0 <= i < guest_memory.len() ==> (#[trigger] guest_memory[i]).host_addr
            + guest_memory[i].size <= u64::MAX
}

/// Region `i` and where its contents start in the memory file, which holds the regions back to
/// back.
pub open spec fn file_region(guest_memory: Seq<GuestRegionMmap>, i: int) -> FileRegion {
    FileRegion {
        offset: total_size(guest_memory, i) as u64,
        host_addr: guest_memory[i].host_addr,
        size: guest_memory[i].size as u64,
    }
}

/// The regions and where their contents start in the memory file.
pub open spec fn file_layout(guest_memory: Seq<GuestRegionMmap>) -> Seq<FileRegion> {
    Seq::new(guest_memory.len(), |i: int| file_region(guest_memory, i))
}

/// The total size grows with the number of regions.
proof fn lemma_total_size_grows(regions: Seq<GuestRegionMmap>, a: int, b: int)
    requires
        a <= b,
    ensures
        total_size(regions, a) <= total_size(regions, b),
    decreases b - a,
{
    if a < b {
        lemma_total_size_grows(regions, a, b - 1);
    }
}

/// The regions lie back to back in the memory file: each starts where the one before it ends,
/// and the first starts at 0.
pub proof fn law_file_layout_is_contiguous(guest_memory: Seq<GuestRegionMmap>, i: int)
    requires
        mappable(guest_memory),
        0 <= i < guest_memory.len(),
    ensures
        file_layout(guest_memory)[0].offset == 0,
        file_layout(guest_memory)[i].fits(),
        file_layout(guest_memory)[i].end() == total_size(guest_memory, i + 1),
        i + 1 < guest_memory.len() ==> file_layout(guest_memory)[i + 1].offset == file_layout(
            guest_memory,
        )[i].end(),
{
    lemma_total_size_grows(guest_memory, i + 1, guest_memory.len() as int);
    lemma_total_size_grows(guest_memory, i, i + 1);
    lemma_total_size_grows(guest_memory, 0, guest_memory.len() as int);
}

/// Every file offset within guest memory belongs to exactly one region, and no other offset
/// belongs to any.
pub proof fn law_file_offsets_have_one_region(guest_memory: Seq<GuestRegionMmap>, offset: u64)
    requires
        mappable(guest_memory),
    ensures
        is_located(file_layout(guest_memory), offset) <==> offset < total_size(
            guest_memory,
            guest_memory.len() as int,
        ),
        forall|i: int, j: int|
            0 <= i < j < guest_memory.len() ==> !((#[trigger] file_layout(guest_memory)[i]).holds(
                offset,
            ) && (#[trigger] file_layout(guest_memory)[j]).holds(offset)),
{
    let layout = file_layout(guest_memory);
    let k = located(layout, offset);
    law_located_is_first(layout, offset, 0);
    if k < layout.len() {
        law_file_layout_is_contiguous(guest_memory, k);
        lemma_total_size_grows(guest_memory, k + 1, guest_memory.len() as int);
    } else {
        if offset < total_size(guest_memory, guest_memory.len() as int) {
            lemma_some_region_holds(guest_memory, offset, guest_memory.len() as int);
        }
    }
    assert forall|i: int, j: int| 0 <= i < j < guest_memory.len() implies !((
    #[trigger] layout[i]).holds(offset) && (#[trigger] layout[j]).holds(offset)) by {
        law_file_layout_is_contiguous(guest_memory, i);
        law_file_layout_is_contiguous(guest_memory, j);
        lemma_total_size_grows(guest_memory, i + 1, j);
        lemma_total_size_grows(guest_memory, j, guest_memory.len() as int);
    }
}

/// The total size of the first regions is the sum of their sizes.
pub proof fn law_total_size_is_the_sum(regions: Seq<GuestRegionMmap>, n: int)
    requires
        0 <= n <= regions.len(),
    ensures
        total_size(regions, n) == regions.subrange(0, n).fold_left(
            0int,
            |sum: int, region: GuestRegionMmap| sum + region.size,
        ),
    decreases n,
{
    if n > 0 {
        law_total_size_is_the_sum(regions, n - 1);
        assert(regions.subrange(0, n).drop_last() =~= regions.subrange(0, n - 1));
    }
}

/// Guest memory can be mapped exactly when each region ends below 2^64 on the host and the sizes
/// add up to less than 2^64.
pub proof fn law_mappable_is_within_limits(guest_memory: Seq<GuestRegionMmap>)
    ensures
        mappable(guest_memory) <==> guest_memory.fold_left(
            0int,
            |sum: int, region: GuestRegionMmap| sum + region.size,
        ) <= u64::MAX && forall|i: int|
            0 <= i < guest_memory.len() ==> (#[trigger] guest_memory[i]).host_addr
                + guest_memory[i].size <= u64::MAX,
{
    law_total_size_is_the_sum(guest_memory, guest_memory.len() as int);
    assert(guest_memory.subrange(0, guest_memory.len() as int) =~= guest_memory);
}

/// The memory file holds all regions, in order and with their sizes and host addresses: the first
/// starts at 0, and each other one where the one before it ends.
pub proof fn law_layout_holds_all_regions(guest_memory: Seq<GuestRegionMmap>, i: int)
    requires
        mappable(guest_memory),
        0 <= i < guest_memory.len(),
    ensures
        file_layout(guest_memory).len() == guest_memory.len(),
        file_layout(guest_memory)[i].host_addr == guest_memory[i].host_addr,
        file_layout(guest_memory)[i].size == guest_memory[i].size,
        i == 0 ==> file_layout(guest_memory)[i].offset == 0,
        i > 0 ==> file_layout(guest_memory)[i].offset == file_layout(guest_memory)[i - 1].offset
            + guest_memory[i - 1].size,
{
    law_file_layout_is_contiguous(guest_memory, i);
    if i > 0 {
        law_file_layout_is_contiguous(guest_memory, i - 1);
    }
}

/// Some of the first `n` regions holds an offset below their total size.
proof fn lemma_some_region_holds(guest_memory: Seq<GuestRegionMmap>, offset: u64, n: int)
    requires
        mappable(guest_memory),
        0 <= n <= guest_memory.len(),
        offset < total_size(guest_memory, n),
    ensures
        exists|i: int| 0 <= i < n && (#[trigger] file_layout(guest_memory)[i]).holds(offset),
    decreases n,
{
    if offset < total_size(guest_memory, n - 1) {
        lemma_some_region_holds(guest_memory, offset, n - 1);
    } else {
        law_file_layout_is_contiguous(guest_memory, n - 1);
        lemma_total_size_grows(guest_memory, n - 1, guest_memory.len() as int);
        assert(file_layout(guest_memory)[n - 1].holds(offset));
    }
}

/// Whether a machine can have mapped guest memory like this.
pub fn is_mappable(guest_memory: &Vec<GuestRegionMmap>) -> (r: bool)
    ensures
        r == mappable(guest_memory@),
{
    let mut total: u64 = 0;
    let mut i: usize = 0;
    while i < guest_memory.len()
        invariant
            i <= guest_memory.len(),
            total == total_size(guest_memory@, i as int),
            forall|k: int|
                0 <= k < i ==> (#[trigger] guest_memory@[k]).host_addr + guest_memory@[k].size
                    <= u64::MAX,
        decreases guest_memory.len() - i,
    {
        let region: GuestRegionMmap = guest_memory[i];
        let size: u64 = region.size as u64;
        if region.host_addr > u64::MAX - size {
            assert(guest_memory@[i as int].host_addr + guest_memory@[i as int].size > u64::MAX);
            return false;
        }
        if total > u64::MAX - size {
            proof {
                lemma_total_size_grows(guest_memory@, i + 1, guest_memory@.len() as int);
            }
            return false;
        }
        total = total + size;
        i = i + 1;
    }
    true
}

/// The regions and where their contents start in the memory file.
pub fn lay_out(guest_memory: &Vec<GuestRegionMmap>) -> (layout: Vec<FileRegion>)
    requires
        mappable(guest_memory@),
    ensures
        layout@ == file_layout(guest_memory@),
        all_fit(layout@),
{
    let mut layout: Vec<FileRegion> = Vec::with_capacity(guest_memory.len());
    let mut offset: u64 = 0;
    let mut i: usize = 0;
    while i < guest_memory.len()
        invariant
            i <= guest_memory.len(),
            mappable(guest_memory@),
            offset == total_size(guest_memory@, i as int),
            layout@ == file_layout(guest_memory@).subrange(0, i as int),
        decreases guest_memory.len() - i,
    {
        let region: GuestRegionMmap = guest_memory[i];
        proof {
            law_file_layout_is_contiguous(guest_memory@, i as int);
            lemma_total_size_grows(guest_memory@, i + 1, guest_memory@.len() as int);
        }
        layout.push(FileRegion { offset, host_addr: region.host_addr, size: region.size as u64 });
        offset = offset + region.size as u64;
        i = i + 1;
        assert(layout@ =~= file_layout(guest_memory@).subrange(0, i as int));
    }
    assert(layout@ =~= file_layout(guest_memory@));
    assert forall|j: int| 0 <= j < layout@.len() implies (#[trigger] layout@[j]).fits() by {
        law_file_layout_is_contiguous(guest_memory@, j);
    }
    layout
}

/// Tells a page-fault handler where the contents of one guest memory region are to go: `size`
/// bytes, found in the backend from `offset` on, belong at `base_host_virt_addr`.
#[derive(Clone, Copy, Debug, PartialEq, Eq, Structural)]
pub struct GuestRegionUffdMapping {
    /// Host address of the region.
    pub base_host_virt_addr: u64,
    /// Size in bytes.
    pub size: usize,
    /// Offset of the region's contents in the backend.
    pub offset: u64,
    /// The page size of the region in bytes.
    pub page_size: usize,
    /// The page size of the region **in bytes**; the name is wrong but part of the wire format.
    /// Deprecated in favour of `page_size`.
    pub page_size_kib: usize,
}

impl GuestRegionUffdMapping {
    /// The mapped region and where its contents start in the backend.
    pub open spec fn file_region(self) -> FileRegion {
        FileRegion {
            offset: self.offset,
            host_addr: self.base_host_virt_addr,
            size: self.size as u64,
        }
    }

    /// The mapped region and where its contents start in the backend.
    pub fn to_file_region(&self) -> (region: FileRegion)
        ensures
            region == self.file_region(),
    {
        FileRegion {
            offset: self.offset,
            host_addr: self.base_host_virt_addr,
            size: self.size as u64,
        }
    }
}

/// The mapping that tells a handler about a region of a memory with pages of `page_size` bytes.
pub open spec fn mapping_of(region: GuestRegionMmap, offset: u64, page_size: usize) -> GuestRegionUffdMapping {
    GuestRegionUffdMapping {
        base_host_virt_addr: region.host_addr,
        size: region.size,
        offset,
        page_size,
        page_size_kib: page_size,
    }
}

/// The mappings that tell a handler about all of guest memory.
pub open spec fn backend_mappings(guest_memory: Seq<GuestRegionMmap>, page_size: usize) -> Seq<
    GuestRegionUffdMapping,
> {
    Seq::new(
        guest_memory.len(),
        |i: int| mapping_of(guest_memory[i], total_size(guest_memory, i) as u64, page_size),
    )
}

/// The regions that mappings speak of.
pub open spec fn mapped_regions(mappings: Seq<GuestRegionUffdMapping>) -> Seq<FileRegion> {
    mappings.map_values(|m: GuestRegionUffdMapping| m.file_region())
}

/// The mappings say of each region what the layout of the memory file says.
pub proof fn law_mappings_describe_the_layout(guest_memory: Seq<GuestRegionMmap>, page_size: usize)
    ensures
        mapped_regions(backend_mappings(guest_memory, page_size)) == file_layout(guest_memory),
{
    assert(mapped_regions(backend_mappings(guest_memory, page_size)) =~= file_layout(guest_memory));
}

/// A handler is told of every region, in order: where the host has mapped it, how large it is,
/// where its contents start, the first at 0 and each other where the one before it ends, and how
/// large its pages are.
pub proof fn law_mappings_tell_of_every_region(
    guest_memory: Seq<GuestRegionMmap>,
    page_size: usize,
    i: int,
)
    requires
        mappable(guest_memory),
        0 <= i < guest_memory.len(),
    ensures
        ({
            let mappings = backend_mappings(guest_memory, page_size);
            &&& mappings.len() == guest_memory.len()
            &&& mappings[i].base_host_virt_addr == guest_memory[i].host_addr
            &&& mappings[i].size == guest_memory[i].size
            &&& mappings[i].page_size == page_size
            &&& mappings[i].page_size_kib == page_size
            &&& i == 0 ==> mappings[i].offset == 0
            &&& i > 0 ==> mappings[i].offset == mappings[i - 1].offset + guest_memory[i - 1].size
        }),
{
    law_layout_holds_all_regions(guest_memory, i);
    law_mappings_describe_the_layout(guest_memory, page_size);
    let mappings = backend_mappings(guest_memory, page_size);
    assert(mapped_regions(mappings)[i] == mappings[i].file_region());
    if i > 0 {
        assert(mapped_regions(mappings)[i - 1] == mappings[i - 1].file_region());
    }
}

/// The regions that mappings speak of are theirs, field by field.
pub proof fn law_mapped_regions_are_the_mappings(mappings: Seq<GuestRegionUffdMapping>)
    ensures
        mapped_regions(mappings).len() == mappings.len(),
        forall|i: int|
            0 <= i < mappings.len() ==> (#[trigger] mapped_regions(mappings)[i]).offset
                == mappings[i].offset && mapped_regions(mappings)[i].host_addr
                == mappings[i].base_host_virt_addr && mapped_regions(mappings)[i].size
                == mappings[i].size,
{
}

/// The mappings that tell a page-fault handler about the guest memory that was mapped, region
/// by region: the contents of the regions lie back to back in the backend.
pub fn create_guest_memory(
    guest_memory: &Vec<GuestRegionMmap>,
    huge_pages: HugePageConfig,
) -> (mappings: Vec<GuestRegionUffdMapping>)
    requires
        mappable(guest_memory@),
    ensures
        mappings@ == backend_mappings(guest_memory@, huge_pages.page_bytes() as usize),
        all_fit(mapped_regions(mappings@)),
{
    let page_size: usize = huge_pages.page_size();
    let layout: Vec<FileRegion> = lay_out(guest_memory);
    let mut mappings: Vec<GuestRegionUffdMapping> = Vec::with_capacity(guest_memory.len());
    let mut i: usize = 0;
    while i < guest_memory.len()
        invariant
            i <= guest_memory.len(),
            layout@ == file_layout(guest_memory@),
            mappings@ == backend_mappings(guest_memory@, page_size).subrange(0, i as int),
        decreases guest_memory.len() - i,
    {
        mappings.push(
            GuestRegionUffdMapping {
                base_host_virt_addr: guest_memory[i].host_addr,
                size: guest_memory[i].size,
                offset: layout[i].offset,
                page_size,
                page_size_kib: page_size,
            },
        );
        i = i + 1;
        assert(mappings@ =~= backend_mappings(guest_memory@, page_size).subrange(0, i as int));
    }
    assert(mappings@ =~= backend_mappings(guest_memory@, page_size));
    proof {
        law_mappings_describe_the_layout(guest_memory@, page_size);
    }
    mappings
}

} // verus!
