//! Page lists, memory layouts and what is done with the pages of a list.
use std::collections::HashSet;

use vm_snapshot::delta::{
    delta_runs, full_page_bytes, share_out, DeltaRun, DELTA_PAGE_BYTES, MAX_RUN_BYTES,
};
use vm_snapshot::memory::{
    create_guest_memory, is_mappable, lay_out, locate, FileRegion, GuestMemoryRegionState, GuestMemoryState,
    GuestRegionMmap, GuestRegionType, GuestRegionUffdMapping, HugePageConfig,
};
use vm_snapshot::offsets::{complete_lines, read_page_offsets};
use vm_snapshot::prefault::{prefault_pages, residual_set};
use vm_snapshot::ranges::{residual_ranges, HostRange};

fn two_regions() -> Vec<GuestRegionMmap> {
    vec![
        GuestRegionMmap { host_addr: 0x10_0000, size: 0x4000 },
        GuestRegionMmap { host_addr: 0x80_0000, size: 0x4000 },
    ]
}

fn list(offsets: &[u64]) -> Vec<u8> {
    let mut text = String::new();
    for offset in offsets {
        text.push_str(&format!("{offset}\n"));
    }
    text.into_bytes()
}

#[test]
fn test_read_page_offsets_aligns_sorts_dedups() {
    // The page-offset parser backs both the residual (UFFD) set and the
    // prefill/eager sets, so alignment + sort + dedup must be exact.
    // unsorted, with a non-aligned offset (4097 -> 4096) and a duplicate (8192)
    let contents = "8192\n4097\n4096\n8192\n0\nnot_a_number\n";
    let got = read_page_offsets(contents.as_bytes(), 4096);
    assert_eq!(got, vec![0, 4096, 8192]);
}

#[test]
fn page_offsets_take_what_the_number_parser_takes() {
    let contents = "  12288 \r\n+4096\n-4096\n\n18446744073709551615\n18446744073709551616\n0x10\n8192";
    assert_eq!(
        read_page_offsets(contents.as_bytes(), 4096),
        vec![4096, 8192, 12288, 18446744073709547520]
    );
    // Unicode white space is trimmed.
    assert_eq!(read_page_offsets("\u{2003}8192\u{a0}\n".as_bytes(), 4096), vec![8192]);
}

#[test]
fn page_offsets_end_at_the_first_line_that_is_no_text() {
    let mut contents: Vec<u8> = b"4096\n".to_vec();
    contents.extend_from_slice(&[0xff, b'\n']);
    contents.extend_from_slice(b"8192\n");
    assert_eq!(read_page_offsets(&contents, 4096), vec![4096]);
    assert!(read_page_offsets(&[], 4096).is_empty());
}

#[test]
fn page_offsets_align_to_huge_pages() {
    let contents = list(&[0x20_0001, 0x3f_ffff, 0x40_0000]);
    assert_eq!(read_page_offsets(&contents, 0x20_0000), vec![0x20_0000, 0x40_0000]);
}

#[test]
fn a_list_that_breaks_off_ends_with_its_last_line() {
    assert_eq!(complete_lines(b"4096\n8192\n122"), 10);
    assert_eq!(complete_lines(b"4096\n"), 5);
    assert_eq!(complete_lines(b"4096"), 0);
    assert_eq!(complete_lines(b""), 0);
}

#[test]
fn test_create_guest_memory() {
    let mem_state = GuestMemoryState {
        regions: vec![GuestMemoryRegionState {
            base_address: 0,
            size: 0x20000,
            region_type: GuestRegionType::Dram,
            plugged: vec![true],
        }],
    };
    let guest_memory: Vec<GuestRegionMmap> = mem_state
        .regions()
        .iter()
        .map(|region| GuestRegionMmap { host_addr: 0x7f00_0000_0000, size: region.1 })
        .collect();

    let uffd_regions = create_guest_memory(&guest_memory, HugePageConfig::Small);

    assert_eq!(uffd_regions.len(), 1);
    assert_eq!(uffd_regions[0].size, 0x20000);
    assert_eq!(uffd_regions[0].offset, 0);
    assert_eq!(uffd_regions[0].page_size, HugePageConfig::Small.page_size());
}

#[test]
fn mappings_lie_back_to_back() {
    let mappings = create_guest_memory(&two_regions(), HugePageConfig::Hugetlbfs2M);
    assert_eq!(
        mappings,
        vec![
            GuestRegionUffdMapping {
                base_host_virt_addr: 0x10_0000,
                size: 0x4000,
                offset: 0,
                page_size: 0x20_0000,
                page_size_kib: 0x20_0000,
            },
            GuestRegionUffdMapping {
                base_host_virt_addr: 0x80_0000,
                size: 0x4000,
                offset: 0x4000,
                page_size: 0x20_0000,
                page_size_kib: 0x20_0000,
            },
        ]
    );
    assert!(HugePageConfig::Hugetlbfs2M.is_hugetlbfs());
    assert!(!HugePageConfig::default().is_hugetlbfs());
    assert_eq!(HugePageConfig::Small.page_size(), 4096);
}

#[test]
fn offsets_are_located_in_the_layout() {
    let layout = lay_out(&two_regions());
    assert_eq!(
        locate(&layout, 0x3fff),
        Some(FileRegion { offset: 0, host_addr: 0x10_0000, size: 0x4000 })
    );
    assert_eq!(
        locate(&layout, 0x4000),
        Some(FileRegion { offset: 0x4000, host_addr: 0x80_0000, size: 0x4000 })
    );
    assert_eq!(locate(&layout, 0x8000), None);
}

#[test]
fn residual_pages_are_joined() {
    let mappings = create_guest_memory(&two_regions(), HugePageConfig::Small);
    let residual = residual_ranges(&mappings, &list(&[0x3000, 0x1000, 0x2000, 0x6000, 0x9000]), 4096);
    assert_eq!(
        residual.ranges,
        vec![
            HostRange { offset: 0x1000, addr: 0x10_1000, len: 0x3000 },
            HostRange { offset: 0x6000, addr: 0x80_2000, len: 0x1000 },
        ]
    );
    assert_eq!(residual.pages, 4);
}

#[test]
fn a_residual_run_goes_on_in_the_next_region() {
    let mappings = create_guest_memory(&two_regions(), HugePageConfig::Small);
    let residual = residual_ranges(&mappings, &list(&[0x3000, 0x4000, 0x5000]), 4096);
    assert_eq!(
        residual.ranges,
        vec![
            HostRange { offset: 0x3000, addr: 0x10_3000, len: 0x1000 },
            HostRange { offset: 0x4000, addr: 0x80_0000, len: 0x2000 },
        ]
    );
    assert_eq!(residual.pages, 3);
}

#[test]
fn residual_pages_on_either_side_of_a_boundary_are_both_kept() {
    let one_page_each = vec![
        GuestRegionMmap { host_addr: 0x1_0000, size: 0x1000 },
        GuestRegionMmap { host_addr: 0x9_0000, size: 0x1000 },
    ];
    let mappings = create_guest_memory(&one_page_each, HugePageConfig::Small);
    let residual = residual_ranges(&mappings, b"0\n4096\n", 4096);
    assert_eq!(
        residual.ranges,
        vec![
            HostRange { offset: 0, addr: 0x1_0000, len: 0x1000 },
            HostRange { offset: 0x1000, addr: 0x9_0000, len: 0x1000 },
        ]
    );
    assert_eq!(residual.pages, 2);
}

#[test]
fn a_residual_run_may_start_and_end_outside_guest_memory() {
    let mapping = |base_host_virt_addr: u64, offset: u64| GuestRegionUffdMapping {
        base_host_virt_addr,
        size: 0x1000,
        offset,
        page_size: 4096,
        page_size_kib: 4096,
    };
    // Nothing is mapped at the offsets 0, 0x2000 and 0x4000.
    let mappings = vec![mapping(0x1_0000, 0x1000), mapping(0x9_0000, 0x3000)];
    let residual = residual_ranges(&mappings, &list(&[0, 0x1000, 0x2000, 0x3000, 0x4000]), 4096);
    assert_eq!(
        residual.ranges,
        vec![
            HostRange { offset: 0x1000, addr: 0x1_0000, len: 0x1000 },
            HostRange { offset: 0x3000, addr: 0x9_0000, len: 0x1000 },
        ]
    );
    assert_eq!(residual.pages, 2);
}

#[test]
fn no_residual_pages_no_ranges() {
    let mappings = create_guest_memory(&two_regions(), HugePageConfig::Small);
    let residual = residual_ranges(&mappings, b"", 4096);
    assert!(residual.ranges.is_empty());
    assert_eq!(residual.pages, 0);
    let top = residual_ranges(&mappings, b"18446744073709551615\n", 4096);
    assert!(top.ranges.is_empty());
}

#[test]
fn a_range_may_end_within_a_page() {
    let odd = vec![GuestRegionMmap { host_addr: 0x1_0000, size: 0x1800 }];
    let mappings = create_guest_memory(&odd, HugePageConfig::Small);
    let residual = residual_ranges(&mappings, &list(&[0, 0x1000]), 4096);
    assert_eq!(residual.ranges, vec![HostRange { offset: 0, addr: 0x1_0000, len: 0x1800 }]);
    assert_eq!(residual.pages, 1);
}

#[test]
fn delta_runs_do_not_cross_regions() {
    let runs = delta_runs(&two_regions(), &list(&[0x2000, 0x3000, 0x4000, 0x5000, 0x7000, 0x8000]));
    assert_eq!(
        runs,
        vec![
            DeltaRun { file_off: 0x2000, host: 0x10_2000, len: 0x2000 },
            DeltaRun { file_off: 0x4000, host: 0x80_0000, len: 0x2000 },
            DeltaRun { file_off: 0x7000, host: 0x80_3000, len: 0x1000 },
        ]
    );
}

#[test]
fn delta_runs_are_capped() {
    let pages = MAX_RUN_BYTES / 4096;
    let memory = vec![GuestRegionMmap { host_addr: 0x1000_0000, size: 0x80_0000 }];
    let offsets: Vec<u64> = (0..pages + 1).map(|p| p * 4096).collect();
    let runs = delta_runs(&memory, &list(&offsets));
    assert_eq!(
        runs,
        vec![
            DeltaRun { file_off: 0, host: 0x1000_0000, len: MAX_RUN_BYTES },
            DeltaRun { file_off: MAX_RUN_BYTES, host: 0x1000_0000 + MAX_RUN_BYTES, len: 4096 },
        ]
    );
    assert_eq!(MAX_RUN_BYTES, 4 << 20);
}

#[test]
fn memory_that_wraps_around_is_not_mappable() {
    assert!(is_mappable(&two_regions()));
    assert!(is_mappable(&Vec::new()));
    let top = GuestRegionMmap { host_addr: u64::MAX - 0xfff, size: 0x1000 };
    assert!(!is_mappable(&vec![top]));
    let half = GuestRegionMmap { host_addr: 0, size: 1 << 63 };
    assert!(!is_mappable(&vec![half, half]));
}

/// Reads as `pread` does.
fn bytes_at(delta: &[u8], offset: u64, len: u64) -> &[u8] {
    let start = (offset as usize).min(delta.len());
    let end = (start + len as usize).min(delta.len());
    &delta[start..end]
}

#[test]
fn a_delta_lands_where_its_pages_are_mapped() {
    // Guest memory of two regions of two pages, at host addresses 0x2000 and 0xa000.
    let guest_memory = vec![
        GuestRegionMmap { host_addr: 0x2000, size: 0x2000 },
        GuestRegionMmap { host_addr: 0xa000, size: 0x2000 },
    ];
    let mut host = vec![0xeeu8; 0x10000];
    // The delta ends in the middle of the last page.
    let delta: Vec<u8> = (0..0x3800u32).map(|i| (i / 4096) as u8 + 1).collect();
    let mut applied: u64 = 0;
    for run in delta_runs(&guest_memory, &list(&[0x1000, 0x2000, 0x3000, 0x4000])) {
        let read = bytes_at(&delta, run.file_off, run.len);
        let bytes = full_page_bytes(read.len() as i64) as usize;
        let to = run.host as usize;
        host[to..to + bytes].copy_from_slice(&read[..bytes]);
        applied += bytes as u64 / DELTA_PAGE_BYTES;
    }
    // Of the four pages, one is not whole in the delta and one lies outside guest memory.
    assert_eq!(applied, 2);
    for (addr, byte) in host.iter().enumerate() {
        let expected = match addr {
            0x3000..=0x3fff => 2,
            0xa000..=0xafff => 3,
            _ => 0xee,
        };
        assert_eq!(*byte, expected, "at {addr:#x}");
    }
}

#[test]
fn only_whole_pages_are_copied() {
    assert_eq!(full_page_bytes(-1), 0);
    assert_eq!(full_page_bytes(0), 0);
    assert_eq!(full_page_bytes(4095), 0);
    assert_eq!(full_page_bytes(4096), 4096);
    assert_eq!(full_page_bytes(3 * 4096 + 17), 3 * 4096);
}

#[test]
fn runs_are_shared_out() {
    assert_eq!(share_out(0, Some(16)), vec![(0, 0)]);
    assert_eq!(share_out(5, None), vec![(0, 5)]);
    assert_eq!(share_out(5, Some(1)), vec![(0, 5)]);
    assert_eq!(share_out(5, Some(2)), vec![(0, 3), (3, 5)]);
    assert_eq!(share_out(3, Some(64)), vec![(0, 1), (1, 2), (2, 3)]);
    assert_eq!(share_out(16, Some(64)).len(), 8);
    // Rounding up can leave a worker without a chunk.
    assert_eq!(share_out(9, Some(8)), vec![(0, 2), (2, 4), (4, 6), (6, 8), (8, 9)]);
}

#[test]
fn prefaulting_skips_residual_pages() {
    let skip: HashSet<u64> = residual_set(&list(&[0x1000, 0x4fff]), 4096);
    assert_eq!(skip.len(), 2);
    assert!(skip.contains(&0x1000) && skip.contains(&0x4000));
    let addrs = prefault_pages(
        &two_regions(),
        &list(&[0x5000, 0, 0x1000, 0x4000, 0x8000, 0x5001]),
        &skip,
        4096,
    );
    assert_eq!(addrs, vec![0x10_0000, 0x80_1000]);
}
