//! The page-fault handler over a base and a delta file.
use vm_snapshot::layered::{
    can_serve, copy_verdict, handshake_step, page_source, CopyOutcome, CopyVerdict, HandshakeStep, IdleStep,
    LayeredHandler, PageSource, PageTarget, Received,
};
use vm_snapshot::memory::{
    create_guest_memory, GuestRegionMmap, GuestRegionUffdMapping, HugePageConfig,
};

fn mappings() -> Vec<GuestRegionUffdMapping> {
    create_guest_memory(
        &vec![
            GuestRegionMmap { host_addr: 0x10_0000, size: 0x3000 },
            GuestRegionMmap { host_addr: 0x80_0000, size: 0x2000 },
        ],
        HugePageConfig::Small,
    )
}

#[test]
fn faults_are_found_in_the_mappings() {
    let handler = LayeredHandler::new(mappings(), false);
    assert_eq!(
        handler.serve_page(0x10_2abc),
        Some(PageTarget { dst: 0x10_2000, offset: 0x2000 })
    );
    assert_eq!(
        handler.serve_page(0x80_1fff),
        Some(PageTarget { dst: 0x80_1000, offset: 0x4000 })
    );
    assert_eq!(handler.serve_page(0x10_3000), None);
    assert!(handler.mappings()[0].contains(0x10_2fff));
    assert!(!handler.mappings()[0].contains(0x10_3000));
}

#[test]
fn every_page_is_copied_ahead_once() {
    let mut handler = LayeredHandler::new(mappings(), true);
    let first = handler.prefill_some(2);
    assert_eq!(
        first,
        vec![
            PageTarget { dst: 0x10_0000, offset: 0 },
            PageTarget { dst: 0x10_1000, offset: 0x1000 },
        ]
    );
    assert_eq!(
        handler.idle_step(),
        IdleStep::Copy(vec![
            PageTarget { dst: 0x10_2000, offset: 0x2000 },
            PageTarget { dst: 0x80_0000, offset: 0x3000 },
            PageTarget { dst: 0x80_1000, offset: 0x4000 },
        ])
    );
    assert_eq!(handler.idle_step(), IdleStep::Finish);
    assert_eq!(handler.idle_step(), IdleStep::Finish);
}

#[test]
fn copying_ahead_goes_in_batches() {
    let mapping = GuestRegionUffdMapping {
        base_host_virt_addr: 0x1000_0000,
        size: 65 * 4096,
        offset: 0,
        page_size: 4096,
        page_size_kib: 4096,
    };
    let mut handler = LayeredHandler::new(vec![mapping], true);
    match handler.idle_step() {
        IdleStep::Copy(pages) => assert_eq!(pages.len(), 64),
        other => panic!("unexpected step: {other:?}"),
    }
    match handler.idle_step() {
        IdleStep::Copy(pages) => assert_eq!(pages[0].offset, 64 * 4096),
        other => panic!("unexpected step: {other:?}"),
    }
    assert_eq!(handler.idle_step(), IdleStep::Finish);
}

#[test]
fn without_copying_ahead_the_handler_waits() {
    let mut handler = LayeredHandler::new(mappings(), false);
    assert_eq!(handler.idle_step(), IdleStep::Wait);
}

#[test]
fn faults_are_counted_by_source() {
    let mut handler = LayeredHandler::new(mappings(), false);
    assert!(!handler.count_fault(PageSource::Delta));
    for _ in 1..1023 {
        assert!(!handler.count_fault(PageSource::Base));
    }
    assert!(handler.count_fault(PageSource::Base));
    assert_eq!(handler.counters(), (1024, 1, 1023));
}

#[test]
fn the_delta_wins_where_it_has_data() {
    assert_eq!(page_source(8192, 8192), PageSource::Delta);
    assert_eq!(page_source(0, 8192), PageSource::Delta);
    assert_eq!(page_source(12288, 8192), PageSource::Base);
    assert_eq!(page_source(-1, 8192), PageSource::Base);
}

#[test]
fn copy_outcomes() {
    assert_eq!(copy_verdict(CopyOutcome::Copied(4096)), CopyVerdict::Served);
    assert_eq!(copy_verdict(CopyOutcome::Copied(0)), CopyVerdict::Fatal);
    assert_eq!(copy_verdict(CopyOutcome::PartiallyCopied(0)), CopyVerdict::Retry);
    assert_eq!(
        copy_verdict(CopyOutcome::PartiallyCopied((-libc::EAGAIN) as usize)),
        CopyVerdict::Retry
    );
    assert_eq!(copy_verdict(CopyOutcome::PartiallyCopied(100)), CopyVerdict::Fatal);
    assert_eq!(copy_verdict(CopyOutcome::Failed(libc::EEXIST)), CopyVerdict::Served);
    assert_eq!(copy_verdict(CopyOutcome::Failed(libc::ESRCH)), CopyVerdict::VmGone);
    assert_eq!(copy_verdict(CopyOutcome::Failed(libc::ENOMEM)), CopyVerdict::Fatal);
    assert_eq!(copy_verdict(CopyOutcome::OtherError), CopyVerdict::Fatal);
}

#[test]
fn ranges_given_up_are_whole_pages() {
    let handler = LayeredHandler::new(mappings(), false);
    assert_eq!(handler.unregister_range(0x10_0000, 0x10_2000), Some(0x2000));
    assert_eq!(handler.unregister_range(0x10_0000, 0x10_0000), None);
    assert_eq!(handler.unregister_range(0x10_0001, 0x10_2000), None);
    assert_eq!(handler.unregister_range(0x10_0000, 0x10_2001), None);
}

#[test]
fn the_buffer_holds_a_page() {
    let small = GuestRegionUffdMapping {
        base_host_virt_addr: 0,
        size: 1024,
        offset: 0,
        page_size: 512,
        page_size_kib: 512,
    };
    assert_eq!(LayeredHandler::new(vec![small], false).buffer_bytes(), 4096);
    let huge = GuestRegionUffdMapping { page_size: 0x20_0000, ..small };
    let handler = LayeredHandler::new(vec![huge], false);
    assert_eq!(handler.buffer_bytes(), 0x20_0000);
    assert_eq!(handler.page_size(), 0x20_0000);
}

#[test]
fn the_handshake_is_tried_fifty_times() {
    assert_eq!(handshake_step(1, Received::WithFile), HandshakeStep::Accept);
    assert_eq!(handshake_step(49, Received::WithoutFile), HandshakeStep::Retry);
    assert_eq!(handshake_step(50, Received::Failed), HandshakeStep::GiveUp);
    assert_eq!(handshake_step(50, Received::WithFile), HandshakeStep::Accept);
}

#[test]
fn mappings_that_cannot_be_served_are_told_apart() {
    assert!(can_serve(&mappings()));
    assert!(!can_serve(&Vec::new()));
    let good = mappings()[0];
    assert!(!can_serve(&vec![GuestRegionUffdMapping { page_size: 4095, ..good }]));
    assert!(!can_serve(&vec![GuestRegionUffdMapping { page_size: 0, ..good }]));
    assert!(!can_serve(&vec![good, GuestRegionUffdMapping { offset: u64::MAX, ..good }]));
    let wrapping = GuestRegionUffdMapping { base_host_virt_addr: u64::MAX, ..good };
    assert!(!can_serve(&vec![good, wrapping]));
    assert!(!can_serve(&vec![GuestRegionUffdMapping { size: usize::MAX, ..good }]));
}
