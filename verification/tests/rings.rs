//! Dirty rings: negotiation, harvesting and the background harvester.
use std::collections::HashMap;

use vm_snapshot::bitmap::{mark_page, mark_slot_page, SlotBitmaps};
use vm_snapshot::dirty_ring::{
    DirtyGfn, DirtyRing, DESIRED_RING_BYTES, KVM_DIRTY_GFN_F_DIRTY, KVM_DIRTY_GFN_F_RESET,
    RING_ENTRY_BYTES,
};
use vm_snapshot::ring_caps::{clamp_ring_bytes, detect, CapProbe, DirtyRingCaps};
use vm_snapshot::ring_state::{
    enable, DirtyRingError, DirtyRingState, EnableAction, EnableEvent, HarvesterStep,
};

fn host_page_size() -> usize {
    4096
}

fn dirty(slot: u32, offset: u64) -> DirtyGfn {
    DirtyGfn { flags: KVM_DIRTY_GFN_F_DIRTY, slot, offset }
}

fn free() -> DirtyGfn {
    DirtyGfn { flags: 0, slot: 0, offset: 0 }
}

fn pages_of(bitmap: &[u64]) -> Vec<u64> {
    let mut pages: Vec<u64> = Vec::new();
    for (i, word) in bitmap.iter().enumerate() {
        for b in 0..64 {
            if word & (1u64 << b) != 0 {
                pages.push((i as u64) * 64 + b);
            }
        }
    }
    pages
}

#[test]
fn test_ring_harvest_matches_writes() {
    let ring_bytes: usize = 64 * 1024;
    let page_size = host_page_size() as u64;
    let count = ring_bytes / RING_ENTRY_BYTES;
    let mut ring = DirtyRing::new(count as u32);
    // The guest's code at 0x1000 and its writes to 0x2000, 0x3000 and 0x4000.
    let mut entries: Vec<DirtyGfn> = vec![free(); count];
    for (i, addr) in [0x1000u64, 0x2000, 0x3000, 0x4000].iter().enumerate() {
        entries[i] = dirty(0, addr / page_size);
    }

    let mut accum: SlotBitmaps = HashMap::new();
    let harvested = ring.harvest_into(&mut entries, &mut accum);
    assert!(harvested, "expected the guest's writes to be logged in the ring");

    let bitmap = accum.get(&0).expect("slot 0 should have dirty pages");
    let dirty_pages = pages_of(bitmap);
    let code_page = 0x1000 / page_size;
    for expected in [code_page, 0x2000 / page_size, 0x3000 / page_size, 0x4000 / page_size] {
        assert!(
            dirty_pages.contains(&expected),
            "page {expected:#x} missing from harvested set {dirty_pages:?}"
        );
    }
    assert_eq!(dirty_pages, vec![1, 2, 3, 4]);
    for entry in &entries[0..4] {
        assert_eq!(entry.flags, KVM_DIRTY_GFN_F_RESET);
    }
    assert_eq!(entries[4], free());

    let mut accum2: SlotBitmaps = HashMap::new();
    assert!(!ring.harvest_into(&mut entries, &mut accum2), "no new writes => empty harvest");
    assert!(accum2.is_empty());
}

#[test]
fn harvest_goes_around_the_ring() {
    let mut ring = DirtyRing::new(4);
    let mut entries = vec![dirty(1, 0), dirty(1, 1), dirty(1, 2), free()];
    let mut accum: SlotBitmaps = HashMap::new();
    assert!(ring.harvest_into(&mut entries, &mut accum));
    assert_eq!(pages_of(&accum[&1]), vec![0, 1, 2]);
    // The kernel reset the three entries, and the guest has filled the last and the first two.
    entries = vec![dirty(2, 64), dirty(0x0001_0002, 130), free(), dirty(1, 3)];
    assert!(ring.harvest_into(&mut entries, &mut accum));
    assert_eq!(pages_of(&accum[&1]), vec![0, 1, 2, 3]);
    // The high half of the slot is the address space and does not count.
    assert_eq!(pages_of(&accum[&2]), vec![64, 130]);
    assert_eq!(accum[&2].len(), 3);
}

#[test]
fn harvest_of_a_full_ring_ends() {
    let mut ring = DirtyRing::new(2);
    let mut entries = vec![dirty(0, 7), dirty(0, 9)];
    let mut accum: SlotBitmaps = HashMap::new();
    assert!(ring.harvest_into(&mut entries, &mut accum));
    assert_eq!(pages_of(&accum[&0]), vec![7, 9]);
    assert!(!ring.harvest_into(&mut entries, &mut accum));
}

#[test]
fn marking_grows_the_bitmap() {
    let mut bitmap: Vec<u64> = Vec::new();
    mark_page(&mut bitmap, 65);
    assert_eq!(bitmap, vec![0, 2]);
    mark_page(&mut bitmap, 63);
    assert_eq!(bitmap, vec![1u64 << 63, 2]);
    let mut slots: SlotBitmaps = HashMap::new();
    mark_slot_page(&mut slots, 3, 0);
    mark_slot_page(&mut slots, 3, 0);
    assert_eq!(slots.len(), 1);
    assert_eq!(slots[&3], vec![1]);
}

#[test]
fn test_clamp_ring_bytes() {
    let page = host_page_size();
    // Host max above desired -> clamp to desired (a power of two already).
    assert_eq!(clamp_ring_bytes(DESIRED_RING_BYTES * 4, page), DESIRED_RING_BYTES);
    // Host max equal to desired.
    assert_eq!(clamp_ring_bytes(DESIRED_RING_BYTES, page), DESIRED_RING_BYTES);
    // Non-power-of-two host max rounds down.
    assert_eq!(clamp_ring_bytes(DESIRED_RING_BYTES + 1, page), DESIRED_RING_BYTES);
    assert_eq!(clamp_ring_bytes(3 * page, page), 2 * page);
    // Exactly one page is usable.
    assert_eq!(clamp_ring_bytes(page, page), page);
    // Below a page is not.
    assert_eq!(clamp_ring_bytes(page - 1, page), 0);
    assert_eq!(clamp_ring_bytes(0, page), 0);
    // Every result is a power of two.
    for hm in [page, page * 5, DESIRED_RING_BYTES, DESIRED_RING_BYTES * 7 + 3] {
        let b = clamp_ring_bytes(hm, page);
        assert!(b == 0 || b.is_power_of_two(), "{b} not power of two");
    }
}

#[test]
fn clamp_gives_up_when_rounding_falls_below_a_page() {
    // A page size that is no power of two: 3000 rounds down to 2048.
    assert_eq!(clamp_ring_bytes(3000, 3000), 0);
    assert_eq!(DESIRED_RING_BYTES, 1 << 20);
}

#[test]
fn test_detect_runs() {
    // Smoke: detection must not panic and must agree with itself.
    let probe = CapProbe { acq_rel: 1 << 20, legacy: 1 << 20, with_bitmap: 1 };
    let a = detect(probe, host_page_size()).is_some();
    let b = detect(probe, host_page_size()).is_some();
    assert_eq!(a, b);
}

#[test]
fn detection_prefers_acquire_release() {
    let page = host_page_size();
    let both = detect(CapProbe { acq_rel: 1 << 16, legacy: 1 << 20, with_bitmap: 0 }, page);
    assert_eq!(
        both,
        Some(DirtyRingCaps {
            cap: kvm_bindings::KVM_CAP_DIRTY_LOG_RING_ACQ_REL,
            ring_bytes: 1 << 16,
            with_bitmap: false,
        })
    );
    let legacy = detect(CapProbe { acq_rel: 0, legacy: 1 << 20, with_bitmap: 1 }, page);
    assert_eq!(
        legacy,
        Some(DirtyRingCaps {
            cap: kvm_bindings::KVM_CAP_DIRTY_LOG_RING,
            ring_bytes: 1 << 20,
            with_bitmap: true,
        })
    );
    assert_eq!(detect(CapProbe { acq_rel: 0, legacy: -1, with_bitmap: 1 }, page), None);
    assert_eq!(detect(CapProbe { acq_rel: 100, legacy: 1 << 20, with_bitmap: 1 }, page), None);
}

#[test]
fn ring_entries_have_the_size_of_the_kernel_ones() {
    assert_eq!(RING_ENTRY_BYTES, std::mem::size_of::<kvm_bindings::kvm_dirty_gfn>());
}

fn enabled(ring_bytes: usize, with_bitmap: bool) -> DirtyRingState {
    let caps = DirtyRingCaps {
        cap: kvm_bindings::KVM_CAP_DIRTY_LOG_RING_ACQ_REL,
        ring_bytes,
        with_bitmap,
    };
    match enable(EnableEvent::BitmapAsked { caps, enabled: with_bitmap }, 1000) {
        EnableAction::UseRing { state } => state,
        other => panic!("unexpected action: {other:?}"),
    }
}

#[test]
fn enabling_asks_for_the_ring_and_then_the_bitmap() {
    let probe = CapProbe { acq_rel: 1 << 20, legacy: 0, with_bitmap: 1 };
    let caps = match enable(EnableEvent::Probed { probe, page: 4096 }, 0) {
        EnableAction::EnableRing { caps } => caps,
        other => panic!("unexpected action: {other:?}"),
    };
    assert_eq!(caps.ring_bytes, 1 << 20);
    match enable(EnableEvent::RingAsked { caps, enabled: true }, 0) {
        EnableAction::EnableBitmap { cap, caps: kept } => {
            assert_eq!(cap, kvm_bindings::KVM_CAP_DIRTY_LOG_RING_WITH_BITMAP);
            assert_eq!(kept, caps);
        }
        other => panic!("unexpected action: {other:?}"),
    }
    match enable(EnableEvent::BitmapAsked { caps, enabled: true }, 0) {
        EnableAction::UseRing { state } => assert!(state.with_bitmap),
        other => panic!("unexpected action: {other:?}"),
    }
    // The ring stays when only the bitmap is refused.
    match enable(EnableEvent::BitmapAsked { caps, enabled: false }, 0) {
        EnableAction::UseRing { state } => assert!(!state.with_bitmap),
        other => panic!("unexpected action: {other:?}"),
    }
}

#[test]
fn enabling_falls_back_to_the_bitmap_log() {
    let none = CapProbe { acq_rel: 0, legacy: 0, with_bitmap: 1 };
    assert!(matches!(
        enable(EnableEvent::Probed { probe: none, page: 4096 }, 0),
        EnableAction::UseBitmapLog
    ));
    let caps = DirtyRingCaps { cap: 223, ring_bytes: 4096, with_bitmap: true };
    assert!(matches!(
        enable(EnableEvent::RingAsked { caps, enabled: false }, 0),
        EnableAction::UseBitmapLog
    ));
    let plain = DirtyRingCaps { cap: 223, ring_bytes: 4096, with_bitmap: false };
    assert!(matches!(
        enable(EnableEvent::RingAsked { caps: plain, enabled: true }, 0),
        EnableAction::UseRing { .. }
    ));
}

#[test]
fn pages_harvested_early_are_collected_later() {
    let mut state = enabled(32, false);
    state.add_vcpu_ring(Ok(())).unwrap();
    state.add_vcpu_ring(Ok(())).unwrap();
    let mut memory = vec![vec![dirty(0, 5), free()], vec![dirty(1, 2), dirty(0, 6)]];
    assert!(state.harvest(&mut memory));
    assert_eq!(memory[0][0].flags, KVM_DIRTY_GFN_F_RESET);
    // Nothing new: the second harvest drains nothing and asks for no reset.
    assert!(!state.harvest(&mut memory));
    memory[0][1] = dirty(0, 70);
    let (pages, reset) = state.collect(&mut memory);
    assert!(reset);
    assert_eq!(pages_of(&pages[&0]), vec![5, 6, 70]);
    assert_eq!(pages_of(&pages[&1]), vec![2]);
    let (pages, reset) = state.collect(&mut memory);
    assert!(!reset);
    assert!(pages.is_empty());
}

#[test]
fn many_harvests_lose_no_page_and_invent_none() {
    let mut state = enabled(32, false);
    state.add_vcpu_ring(Ok(())).unwrap();
    let mut memory = vec![vec![free(), free()]];
    for round in 0..5u64 {
        memory[0][(round % 2) as usize] = dirty(0, 10 + round);
        assert!(state.harvest(&mut memory));
    }
    memory[0][1] = dirty(3, 1);
    let (pages, reset) = state.collect(&mut memory);
    assert!(reset);
    assert_eq!(pages_of(&pages[&0]), vec![10, 11, 12, 13, 14]);
    assert_eq!(pages_of(&pages[&3]), vec![1]);
    assert_eq!(pages.len(), 2);
    // What was collected is not handed out again.
    memory[0][0] = dirty(0, 99);
    let (pages, _) = state.collect(&mut memory);
    assert_eq!(pages_of(&pages[&0]), vec![99]);
    assert_eq!(pages.len(), 1);
    let (pages, reset) = state.collect(&mut memory);
    assert!(!reset && pages.is_empty());
}

#[test]
fn a_ring_that_cannot_be_mapped_is_an_error() {
    let mut state = enabled(4096, false);
    let r = state.add_vcpu_ring(Err(std::io::Error::from_raw_os_error(libc::ENOMEM)));
    match r {
        Err(DirtyRingError::Mmap(err)) => assert_eq!(err.raw_os_error(), Some(libc::ENOMEM)),
        Ok(()) => panic!("the error got lost"),
    }
    let mut no_rings: Vec<Vec<DirtyGfn>> = Vec::new();
    assert!(!state.harvest(&mut no_rings));
}

#[test]
fn rings_are_mapped_behind_the_vcpu_page() {
    let state = enabled(1 << 16, false);
    let mapping = state.mmap_ring(4096, kvm_bindings::KVM_DIRTY_LOG_PAGE_OFFSET);
    assert_eq!(mapping.offset, 64 * 4096);
    assert_eq!(mapping.len, 1 << 16);
    assert_eq!(mapping.count, 4096);
}

#[test]
fn the_harvester_stops_thirty_seconds_after_it_was_armed() {
    let second: u64 = 1_000_000_000;
    let mut state = enabled(4096, false);
    assert!(state.arm_harvester(1, 0));
    assert_eq!(state.harvester_step(0), HarvesterStep::HarvestAfter(20));
    // Armed again while it runs: no second thread, a new period and a new deadline.
    assert!(!state.arm_harvester(99_999, 10 * second));
    assert_eq!(state.harvester_step(39 * second), HarvesterStep::HarvestAfter(5000));
    assert_eq!(state.harvester_step(40 * second), HarvesterStep::Stop);
    assert!(state.arm_harvester(150, 50 * second));
    assert_eq!(state.harvester_step(50 * second), HarvesterStep::HarvestAfter(150));
}

#[test]
fn a_harvester_that_is_armed_again_and_again_keeps_running() {
    let second: u64 = 1_000_000_000;
    let mut state = enabled(4096, false);
    assert!(state.arm_harvester(100, 0));
    for round in 1..20u64 {
        assert_eq!(state.harvester_step(round * 20 * second), HarvesterStep::HarvestAfter(100));
        assert!(!state.arm_harvester(100, round * 20 * second));
    }
    // The last request came at 380 seconds.
    assert_eq!(state.harvester_step(410 * second - 1), HarvesterStep::HarvestAfter(100));
    assert_eq!(state.harvester_step(410 * second), HarvesterStep::Stop);
    // A request right after the end starts a thread again.
    assert!(state.arm_harvester(100, 410 * second));
    assert_eq!(state.harvester_step(439 * second), HarvesterStep::HarvestAfter(100));
}
