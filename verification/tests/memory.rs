//! Exact results of blocks, tapes, grids and layouts.

use std::sync::atomic::{AtomicUsize, Ordering};
use unimem::align::{align_up, is_power_of_two};
use unimem::block::{surface_properties, Opening, Reply, Request, Span};
use unimem::head::{head_now, move_head};
use unimem::layout::LayoutSetup;
use unimem::tape::{
    attempt, claim, claim_from, place, settle, tries_again, ByteWrite, Claim, Place,
};
use unimem::{Block, Grid, Layout, MemError, Stat, Tape};

fn block(handle: usize, address: usize, size: usize) -> Block {
    let replies = [
        Reply::Surface(handle),
        Reply::Status(0),
        Reply::Address(address),
        Reply::Size(size),
        Reply::Id(77),
    ];
    let mut opening = Block::open(size.max(1)).unwrap();
    for reply in replies {
        opening = opening.advance(reply);
    }
    match opening {
        Opening::Opened(block) => block,
        other => panic!("{:?}", other),
    }
}

fn zeros(addresses: &[usize]) -> Vec<ByteWrite> {
    addresses.iter().map(|&address| ByteWrite { address, byte: 0 }).collect()
}

fn asked(size: usize, replies: &[Reply]) -> (Vec<Request>, Opening) {
    let mut requests = Vec::new();
    let mut opening = Block::open(size).unwrap();
    for reply in replies {
        requests.push(opening.request().unwrap());
        opening = opening.advance(*reply);
    }
    assert_eq!(opening.request(), None);
    (requests, opening)
}

#[test]
fn open_asks_in_order() {
    let (requests, opening) = asked(
        4096,
        &[
            Reply::Surface(9),
            Reply::Status(0),
            Reply::Address(0x4000),
            Reply::Size(16384),
            Reply::Id(5),
        ],
    );
    assert_eq!(
        requests,
        vec![
            Request::Create { size: 4096 },
            Request::Lock { handle: 9 },
            Request::BaseAddress { handle: 9 },
            Request::AllocSize { handle: 9 },
            Request::Id { handle: 9 },
        ]
    );
    match opening {
        Opening::Opened(b) => {
            assert_eq!(b.handle(), 9);
            assert_eq!(b.address(), 0x4000);
            assert_eq!(b.size(), 16384);
            assert_eq!(b.id(), 5);
            assert_eq!(
                b.close(),
                [Request::Unlock { handle: 9 }, Request::Release { handle: 9 }]
            );
        }
        other => panic!("{:?}", other),
    }
}

#[test]
fn open_without_surface_fails() {
    let (requests, opening) = asked(1, &[Reply::Surface(0)]);
    assert_eq!(requests, vec![Request::Create { size: 1 }]);
    assert_eq!(opening, Opening::Failed(MemError::BlockCreateFailed));
}

#[test]
fn refused_lock_releases_the_surface() {
    let (requests, opening) = asked(1, &[Reply::Surface(3), Reply::Status(-5), Reply::Done]);
    assert_eq!(requests[2], Request::Release { handle: 3 });
    assert_eq!(opening, Opening::Failed(MemError::BlockLockFailed(-5)));
}

#[test]
fn missing_address_unlocks_and_releases() {
    let (requests, opening) = asked(
        1,
        &[Reply::Surface(3), Reply::Status(0), Reply::Address(0), Reply::Done, Reply::Done],
    );
    assert_eq!(requests[3], Request::Unlock { handle: 3 });
    assert_eq!(requests[4], Request::Release { handle: 3 });
    assert_eq!(opening, Opening::Failed(MemError::BlockCreateFailed));
}

#[test]
fn zero_size_is_refused_at_once() {
    assert_eq!(Block::open(0), Err(MemError::ZeroSize));
}

#[test]
fn errors_as_text() {
    assert_eq!(MemError::ZeroSize.to_string(), "zero-size allocation");
    assert_eq!(MemError::BlockCreateFailed.to_string(), "IOSurfaceCreate failed");
    for status in [0x1234, 1, -1, i32::MIN, i32::MAX, -536870206] {
        assert_eq!(
            MemError::BlockLockFailed(status).to_string(),
            format!("IOSurfaceLock failed: {:#x}", status)
        );
    }
}

#[test]
fn block_views() {
    let b = block(1, 0x8000, 16387);
    assert_eq!(b.as_bytes(), Span { start: 0x8000, len: 16387 });
    assert_eq!(b.as_bytes_mut(), Span { start: 0x8000, len: 16387 });
    assert_eq!(b.as_f32(), Span { start: 0x8000, len: 4096 });
    assert_eq!(b.as_f32_mut(), Span { start: 0x8000, len: 4096 });
    assert_eq!(b.as_u16(), Span { start: 0x8000, len: 8193 });
    assert_eq!(b.as_u16_mut(), Span { start: 0x8000, len: 8193 });
}

#[test]
fn surface_property_values() {
    assert_eq!(
        surface_properties(4096),
        [
            ("IOSurfaceWidth", 4096),
            ("IOSurfaceHeight", 1),
            ("IOSurfaceBytesPerElement", 1),
            ("IOSurfaceBytesPerRow", 4096),
            ("IOSurfaceAllocSize", 4096),
            ("IOSurfacePixelFormat", 0),
        ]
    );
}

#[test]
fn rounding_up() {
    assert_eq!(align_up(0, 64), 0);
    assert_eq!(align_up(1, 64), 64);
    assert_eq!(align_up(64, 64), 64);
    assert_eq!(align_up(65, 64), 128);
    assert_eq!(align_up(7, 1), 7);
    assert_eq!(align_up(5, 1 << 63), 1 << 63);
}

#[test]
fn places() {
    assert_eq!(place(1, 64, 64, 256), Some(Place { offset: 64, next: 128 }));
    assert_eq!(place(192, 64, 64, 256), Some(Place { offset: 192, next: 256 }));
    assert_eq!(place(193, 64, 64, 256), None);
    assert_eq!(place(0, 0, 64, 256), None);
    assert_eq!(place(100, usize::MAX, 1, 256), None);
}

#[test]
fn powers_of_two() {
    for n in 0..2000usize {
        assert_eq!(is_power_of_two(n), n.is_power_of_two());
    }
    for shift in 0..64 {
        assert!(is_power_of_two(1 << shift));
        assert_eq!(is_power_of_two((1 << shift) + 1), shift == 0);
    }
    assert!(!is_power_of_two(usize::MAX));
}

#[test]
fn bad_alignment_takes_nothing() {
    let mut tape = Tape::start(Ok(block(1, 0x10000, 16384))).unwrap();
    assert_eq!(tape.take(10, 1), Some(0x10000));
    for align in [0usize, 3, 48, 100, usize::MAX] {
        assert_eq!(tape.take(1, align), None);
        assert_eq!(tape.used(), 10);
        assert_eq!(place(0, 1, align, 256), None);
        let head = AtomicUsize::new(0);
        assert_eq!(claim(&head, 1, align, 256, 5).last.claim, Claim::Full);
        assert_eq!(head.load(Ordering::Relaxed), 0);
    }
    assert_eq!(tape.take(1, 1 << 63), None);
    assert_eq!(place(usize::MAX, 1, 64, usize::MAX), None);
    assert_eq!(place((1 << 63) + 1, 1, 1 << 63, usize::MAX), None);
    assert_eq!(
        place(5, 1, 1 << 63, usize::MAX),
        Some(Place { offset: 1 << 63, next: (1 << 63) + 1 })
    );
}

#[test]
fn tape_takes_exactly() {
    let mut tape = Tape::start(Ok(block(1, 0x10000, 16384))).unwrap();
    assert_eq!(tape.take(1, 1), Some(0x10000));
    assert_eq!(tape.take(10, 64), Some(0x10040));
    assert_eq!(tape.used(), 74);
    assert_eq!(tape.free(), 16384 - 74);
    assert_eq!(tape.take_one::<u32>(), Some(0x1004c));
    assert_eq!(tape.take(0, 64), None);
    assert_eq!(tape.take(16384, 1), None);
    assert_eq!(tape.used(), 80);
    assert_eq!(tape.take_one::<()>(), None);
    assert_eq!(tape.take(16384 - 80, 1), Some(0x10050));
    assert_eq!(tape.free(), 0);
    assert!(tape.owns(0x10000));
    assert!(tape.owns(0x13fff));
    assert!(!tape.owns(0x14000));
    assert!(!tape.owns(0xffff));
    tape.clear();
    assert_eq!(tape.take(16384, 16384), Some(0x10000));
    assert_eq!(tape.into_block().handle(), 1);
}

#[test]
fn aligned_offset_on_a_less_aligned_block() {
    let mut tape = Tape::start(Ok(block(1, 0x4000, 0x20000))).unwrap();
    assert_eq!(tape.take(1, 1), Some(0x4000));
    assert_eq!(tape.take(1, 0x8000), Some(0xc000));
}

#[test]
fn tape_without_block() {
    let error = MemError::BlockLockFailed(4);
    assert_eq!(Tape::start(Err(error)), Err(error));
    assert_eq!(Tape::start_warm(Err(error)), Err(error));
}

#[test]
fn warm_touches_every_page_once() {
    let tape = Tape::start(Ok(block(1, 0x10000, 3 * 16384 + 1))).unwrap();
    assert_eq!(tape.warm(), zeros(&[0x10000, 0x14000, 0x18000, 0x1c000]));
    let (tape, writes) = Tape::start_warm(Ok(block(1, 0x10000, 2 * 16384))).unwrap();
    assert_eq!(writes, zeros(&[0x10000, 0x14000]));
    assert_eq!(tape.used(), 0);
}

#[test]
fn claims_on_a_shared_head() {
    let head = AtomicUsize::new(1);
    assert_eq!(
        claim(&head, 64, 64, 256, usize::MAX).last.claim,
        Claim::Taken(Place { offset: 64, next: 128 })
    );
    assert_eq!(head.load(Ordering::Relaxed), 128);
    assert_eq!(claim(&head, 129, 1, 256, 0).last.claim, Claim::Full);
    assert_eq!(claim(&head, 0, 1, 256, 3).last.claim, Claim::Full);
    assert_eq!(head.load(Ordering::Relaxed), 128);
    let spot = Place { offset: 128, next: 160 };
    assert_eq!(settle(spot, true), Claim::Taken(spot));
    assert_eq!(settle(spot, false), Claim::Lost);
    assert_eq!(claim_from(&head, 1, 64, 64, 256).claim, Claim::Lost);
    assert_eq!(claim_from(&head, 500, 1, 1, 256).claim, Claim::Full);
    assert_eq!(head.load(Ordering::Relaxed), 128);
}

#[test]
fn interleaved_claims_do_not_overlap() {
    let head = AtomicUsize::new(0);
    let mut taken: Vec<Place> = Vec::new();
    let mut seen = head.load(Ordering::Relaxed);
    for round in 0..200usize {
        let size = 1 + round % 7;
        if round % 3 != 0 {
            seen = head.load(Ordering::Relaxed);
        }
        if let Claim::Taken(place) = claim_from(&head, seen, size, 4, 1024).claim {
            assert_eq!(place.offset % 4, 0);
            assert_eq!(place.next, place.offset + size);
            taken.push(place);
        }
    }
    assert!(taken.len() > 50);
    for pair in taken.windows(2) {
        assert!(pair[0].next <= pair[1].offset);
    }
    assert!(taken.last().unwrap().next <= 1024);
    assert_eq!(head.load(Ordering::Relaxed), taken.last().unwrap().next);
}

#[test]
fn grid_cells_in_order() {
    let mut grid = Grid::<128, 40>::new(Ok(block(1, 0x10000, 16384))).unwrap();
    assert_eq!(Grid::<128, 40>::bytes(), 5120);
    assert_eq!(grid.tape().used(), 5120);
    let mut cells = Vec::new();
    for i in 0..40 {
        assert_eq!(grid.free(), 40 - i);
        let cell = grid.take().unwrap();
        assert_eq!(cell.id(), i);
        assert_eq!(cell.address(), 0x10000 + 128 * i);
        cells.push(cell);
    }
    assert_eq!(grid.take(), None);
    assert_eq!(grid.free(), 0);
    let last = cells.pop().unwrap();
    let first = cells.remove(0);
    grid.give(last);
    grid.give(first);
    assert_eq!(grid.take().unwrap().id(), 39);
    assert_eq!(grid.take().unwrap().id(), 0);
    assert_eq!(grid.total(), 40);
}

#[test]
fn grid_queue_runs_for_long() {
    let mut grid = Grid::<64, 3>::new(Ok(block(1, 0x10000, 16384))).unwrap();
    for i in 0..500 {
        let cell = grid.take().unwrap();
        assert_eq!(cell.id(), i % 3);
        assert_eq!(grid.free(), 2);
        grid.give(cell);
        assert_eq!(grid.free(), 3);
    }
}

#[test]
fn grid_without_block() {
    let error = MemError::BlockCreateFailed;
    assert!(matches!(Grid::<64, 3>::new(Err(error)), Err(MemError::BlockCreateFailed)));
}

#[test]
fn grid_on_a_short_block_takes_what_fits() {
    let grid = Grid::<64, 3>::new(Ok(block(1, 0x10000, 150))).unwrap();
    assert_eq!(grid.tape().used(), 128);
    assert_eq!(grid.free(), 3);
}

#[test]
fn grid_tape_keeps_cells() {
    let mut grid = Grid::<64, 2>::new(Ok(block(1, 0x10000, 16384))).unwrap();
    assert_eq!(grid.tape_mut().take(8, 8), Some(0x10080));
    assert_eq!(grid.free(), 2);
    assert_eq!(grid.take().unwrap().address(), 0x10000);
}

#[test]
fn stat_as_text() {
    let stat = Stat {
        weights_used: 3 * 1024 * 1024 + 5,
        weights_total: 4096 * 1024 * 1024,
        scratch_used: 1024 * 1024 - 1,
        scratch_total: 64 * 1024 * 1024,
        history_used: 0,
        history_total: 512 * 1024 * 1024,
    };
    assert_eq!(
        stat.to_string(),
        "weights: 3/4096 MB | scratch: 0/64 MB | history: 0/512 MB"
    );
}

#[test]
fn layout_setup_steps() {
    let mut setup = Layout::new(10, 20, 30);
    assert_eq!(setup.opens(), Some(10));
    setup = setup.opened(Ok(block(1, 0x10000, 32768)));
    assert_eq!(setup.opens(), None);
    assert_eq!(setup.closes(), None);
    match &setup {
        LayoutSetup::WarmWeights { writes, .. } => {
            assert_eq!(writes, &zeros(&[0x10000, 0x14000]))
        }
        other => panic!("{:?}", other),
    }
    setup = setup.done();
    assert_eq!(setup.opens(), Some(20));
    setup = setup.opened(Ok(block(2, 0x20000, 16384)));
    assert_eq!(setup.opens(), Some(30));
    setup = setup.opened(Ok(block(3, 0x30000, 16384)));
    let mut layout = match setup {
        LayoutSetup::Built(layout) => layout,
        other => panic!("{:?}", other),
    };
    assert_eq!(layout.total(), 65536);
    assert_eq!(layout.weights_mut().take(100, 1), Some(0x10000));
    assert_eq!(layout.scratch_mut().take(200, 1), Some(0x20000));
    assert_eq!(layout.history_mut().take(300, 1), Some(0x30000));
    assert_eq!(
        layout.stat(),
        Stat {
            weights_used: 100,
            weights_total: 32768,
            scratch_used: 200,
            scratch_total: 16384,
            history_used: 300,
            history_total: 16384,
        }
    );
    layout.clear_pass();
    assert_eq!(layout.scratch().used(), 0);
    assert_eq!(layout.history().used(), 300);
    layout.clear_talk();
    assert_eq!(layout.history().used(), 0);
    assert_eq!(layout.weights().used(), 100);
    let handles: Vec<usize> = layout.into_blocks().iter().map(|b| b.handle()).collect();
    assert_eq!(handles, vec![1, 2, 3]);
}

#[test]
fn layout_setup_undoes_the_newest_first() {
    let error = MemError::BlockLockFailed(7);
    let mut setup = Layout::new(10, 20, 30)
        .opened(Ok(block(1, 0x10000, 32768)))
        .done()
        .opened(Ok(block(2, 0x20000, 16384)))
        .opened(Err(error));
    assert_eq!(
        setup.closes(),
        Some([Request::Unlock { handle: 2 }, Request::Release { handle: 2 }])
    );
    setup = setup.done();
    assert_eq!(
        setup.closes(),
        Some([Request::Unlock { handle: 1 }, Request::Release { handle: 1 }])
    );
    setup = setup.done();
    assert_eq!(setup, LayoutSetup::Failed(error));

    let early = Layout::new(10, 20, 30)
        .opened(Ok(block(1, 0x10000, 32768)))
        .done()
        .opened(Err(error));
    assert_eq!(
        early.closes(),
        Some([Request::Unlock { handle: 1 }, Request::Release { handle: 1 }])
    );
    assert_eq!(Layout::new(10, 20, 30).opened(Err(error)), LayoutSetup::Failed(error));
}

#[test]
fn grid_parts() {
    let mut grid = Grid::<64, 3>::new(Ok(block(1, 0x10000, 16384))).unwrap();
    let first = grid.take().unwrap();
    let (tape, free) = grid.into_parts();
    assert_eq!(tape.block().handle(), 1);
    assert_eq!(free.len(), 2);
    assert_eq!(free.pop(), Some(1));
    let cell = Grid::<64, 3>::cell_at(tape.block().address(), 1);
    assert_eq!(cell.address(), first.address() + 64);
    assert_eq!(cell.id(), 1);
}

#[test]
fn attempts_are_settled_by_what_was_seen() {
    let taken = Claim::Taken(Place { offset: 64, next: 128 });
    assert_eq!(attempt(1, true, 64, 64, 256), taken);
    assert_eq!(attempt(1, false, 64, 64, 256), Claim::Lost);
    assert_eq!(attempt(200, true, 64, 64, 256), Claim::Full);
    assert_eq!(attempt(200, false, 64, 64, 256), Claim::Full);
    assert_eq!(attempt(0, true, 1, 3, 256), Claim::Full);
    assert!(tries_again(Claim::Lost, 1));
    assert!(!tries_again(Claim::Lost, 0));
    assert!(!tries_again(Claim::Full, 5));
    assert!(!tries_again(taken, 5));
}

#[test]
fn shared_head_moves_only_from_where_it_is() {
    let head = AtomicUsize::new(10);
    assert_eq!(head_now(&head).position(), 10);
    assert!(!move_head(&head, 9, 20).moved());
    assert_eq!(head_now(&head).position(), 10);
    let mut moved = false;
    while !moved {
        moved = move_head(&head, 10, 20).moved();
    }
    assert_eq!(head_now(&head).position(), 20);
    let taking = claim(&head, 4, 4, 64, usize::MAX);
    assert_eq!(taking.seen.position(), 20);
    assert_eq!(taking.last.claim, Claim::Taken(Place { offset: 20, next: 24 }));
    assert!(taking.last.exchange.unwrap().moved());
    assert_eq!(head_now(&head).position(), 24);
    let full = claim(&head, 100, 4, 64, 7);
    assert!(full.last.exchange.is_none());
    assert_eq!(full.retried, 0);
}

#[test]
fn held_cells_stay_distinct() {
    let mut grid = Grid::<64, 5>::new(Ok(block(1, 0x10000, 16384))).unwrap();
    let mut held = Vec::new();
    for round in 0..200usize {
        if round % 3 == 2 && !held.is_empty() {
            let cell = held.remove(round % held.len());
            grid.give(cell);
        } else if let Some(cell) = grid.take() {
            held.push(cell);
        }
        for (i, a) in held.iter().enumerate() {
            assert!(a.address() >= 0x10000 && a.address() + 64 <= 0x10000 + 5 * 64);
            for b in &held[i + 1..] {
                assert_ne!(a.id(), b.id());
                assert!(a.address() + 64 <= b.address() || b.address() + 64 <= a.address());
            }
        }
        assert_eq!(grid.free() + held.len(), 5);
    }
}
