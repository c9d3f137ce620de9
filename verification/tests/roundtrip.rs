//! Blocks, tapes, grids and layouts over surfaces that a test holds in ordinary memory.

use unimem::block::{Opening, Reply, Request};
use unimem::layout::LayoutSetup;
use unimem::{Block, Cell, Grid, Layout, MemError, Tape};

const PAGE: usize = 16384;

struct Surface {
    handle: usize,
    base: usize,
    bytes: Vec<u8>,
    locks: i32,
    released: bool,
}

/// A surface system whose memory is a list of vectors.
struct Surfaces {
    all: Vec<Surface>,
    next: usize,
}

impl Surfaces {
    fn new() -> Surfaces {
        Surfaces { all: Vec::new(), next: 0x1_0000_0000 }
    }

    fn at(&mut self, handle: usize) -> &mut Surface {
        self.all.iter_mut().find(|s| s.handle == handle).unwrap()
    }

    fn answer(&mut self, request: Request) -> Reply {
        match request {
            Request::Create { size } => {
                let rounded = (size + PAGE - 1) / PAGE * PAGE;
                let handle = 0x6000 + self.all.len();
                let base = self.next;
                self.next += rounded + PAGE;
                self.all.push(Surface {
                    handle,
                    base,
                    bytes: vec![0u8; rounded],
                    locks: 0,
                    released: false,
                });
                Reply::Surface(handle)
            }
            Request::Lock { handle } => {
                self.at(handle).locks += 1;
                Reply::Status(0)
            }
            Request::BaseAddress { handle } => Reply::Address(self.at(handle).base),
            Request::AllocSize { handle } => Reply::Size(self.at(handle).bytes.len()),
            Request::Id { handle } => Reply::Id(handle as u32),
            Request::Unlock { handle } => {
                self.at(handle).locks -= 1;
                Reply::Done
            }
            Request::Release { handle } => {
                let surface = self.at(handle);
                assert!(!surface.released);
                surface.released = true;
                Reply::Done
            }
        }
    }

    fn open(&mut self, size: usize) -> Result<Block, MemError> {
        let mut opening = Block::open(size)?;
        loop {
            match opening.request() {
                Some(request) => {
                    let reply = self.answer(request);
                    opening = opening.advance(reply);
                }
                None => break,
            }
        }
        match opening {
            Opening::Opened(block) => Ok(block),
            Opening::Failed(error) => Err(error),
            _ => unreachable!(),
        }
    }

    fn layout(
        &mut self,
        weights: usize,
        scratch: usize,
        history: usize,
    ) -> Result<Layout, MemError> {
        let mut setup = Layout::new(weights, scratch, history);
        loop {
            if let Some(size) = setup.opens() {
                let opened = self.open(size);
                setup = setup.opened(opened);
                continue;
            }
            if let Some(requests) = setup.closes() {
                for request in requests {
                    self.answer(request);
                }
                setup = setup.done();
                continue;
            }
            setup = match setup {
                LayoutSetup::Built(layout) => return Ok(layout),
                LayoutSetup::Failed(error) => return Err(error),
                other => {
                    if let LayoutSetup::WarmWeights { writes, .. } = &other {
                        for write in writes {
                            self.write(write.address, write.byte);
                        }
                    }
                    other.done()
                }
            };
        }
    }

    fn byte(&mut self, address: usize) -> &mut u8 {
        let surface = self
            .all
            .iter_mut()
            .find(|s| s.base <= address && address < s.base + s.bytes.len())
            .unwrap();
        assert_eq!(surface.locks, 1);
        let offset = address - surface.base;
        &mut surface.bytes[offset]
    }

    fn write(&mut self, address: usize, value: u8) {
        *self.byte(address) = value;
    }

    fn write_bytes(&mut self, address: usize, value: u8, len: usize) {
        for i in 0..len {
            self.write(address + i, value);
        }
    }

    fn read(&mut self, address: usize) -> u8 {
        *self.byte(address)
    }
}

#[test]
fn block_open_and_access() {
    let mut system = Surfaces::new();
    let b = system.open(4096).unwrap();
    assert!(b.size() >= 4096);
    assert_ne!(b.address(), 0);
    assert!(b.id() > 0);

    let ptr = b.address();
    system.write_bytes(ptr, 0xAB, 4096);
    assert_eq!(system.read(ptr), 0xAB);
    assert_eq!(system.read(ptr + 4095), 0xAB);
}

#[test]
fn block_zero_size_errors() {
    assert!(Block::open(0).is_err());
    assert_eq!(Surfaces::new().open(0), Err(MemError::ZeroSize));
}

#[test]
fn block_large() {
    let mut system = Surfaces::new();
    let b = system.open(256 * 1024 * 1024).unwrap();
    assert!(b.size() >= 256 * 1024 * 1024);
    system.write(b.address(), 42);
    system.write(b.address() + b.size() - 1, 99);
    assert_eq!(system.read(b.address()), 42);
    assert_eq!(system.read(b.address() + b.size() - 1), 99);
}

#[test]
fn tape_basic_take() {
    let mut system = Surfaces::new();
    let mut tape = Tape::start(system.open(1024 * 1024)).unwrap();
    assert_eq!(tape.used(), 0);

    let p1 = tape.take(256, 64).unwrap();
    assert_eq!(tape.used(), 256);
    assert!(tape.owns(p1));

    let p2 = tape.take(512, 64).unwrap();
    assert!(tape.used() >= 768);
    assert!(tape.owns(p2));
    assert_ne!(p1, p2);

    system.write_bytes(p1, 0x11, 256);
    system.write_bytes(p2, 0x22, 512);
    assert_eq!(system.read(p1), 0x11);
    assert_eq!(system.read(p2), 0x22);
}

#[test]
fn tape_clear() {
    let mut system = Surfaces::new();
    let mut tape = Tape::start(system.open(4096)).unwrap();
    let _ = tape.take(1000, 1).unwrap();
    assert!(tape.used() >= 1000);

    tape.clear();
    assert_eq!(tape.used(), 0);
    assert_eq!(tape.free(), tape.total());

    let p = tape.take(2000, 1).unwrap();
    assert_ne!(p, 0);
}

#[test]
fn tape_full() {
    let mut system = Surfaces::new();
    let mut tape = Tape::start(system.open(4096)).unwrap();
    let cap = tape.total();
    let _ = tape.take(cap, 1).unwrap();
    assert_eq!(tape.free(), 0);
    assert!(tape.take(1, 1).is_none());
}

#[test]
fn tape_alignment() {
    let mut system = Surfaces::new();
    let mut tape = Tape::start(system.open(1024 * 1024)).unwrap();
    let _ = tape.take(1, 1).unwrap();
    let p = tape.take(64, 64).unwrap();
    assert_eq!(p % 64, 0);

    let p2 = tape.take(4096, 4096).unwrap();
    assert_eq!(p2 % 4096, 0);
}

#[test]
fn tape_owns() {
    let mut system = Surfaces::new();
    let mut tape = Tape::start(system.open(4096)).unwrap();
    let p = tape.take(100, 1).unwrap();
    assert!(tape.owns(p));
    assert!(tape.owns(p + 99));
    assert!(!tape.owns(0));
    assert!(!tape.owns(0x1));
}

#[test]
fn tape_take_one() {
    let mut system = Surfaces::new();
    let mut tape = Tape::start(system.open(4096)).unwrap();
    let p = tape.take_one::<u64>().unwrap();
    assert_eq!(p % std::mem::align_of::<u64>(), 0);
    let value: u64 = 0xDEADBEEF_CAFEBABE;
    for (i, byte) in value.to_ne_bytes().into_iter().enumerate() {
        system.write(p + i, byte);
    }
    let mut back = [0u8; 8];
    for (i, byte) in back.iter_mut().enumerate() {
        *byte = system.read(p + i);
    }
    assert_eq!(u64::from_ne_bytes(back), 0xDEADBEEF_CAFEBABE);
}

#[test]
fn grid_take_give() {
    let mut system = Surfaces::new();
    let mut grid = Grid::<256, 4>::new(system.open(Grid::<256, 4>::bytes())).unwrap();
    assert_eq!(grid.free(), 4);
    assert_eq!(grid.total(), 4);

    let c0 = grid.take().unwrap();
    let c1 = grid.take().unwrap();
    assert_eq!(grid.free(), 2);
    assert_ne!(c0.address(), c1.address());

    system.write_bytes(c0.address(), 0xAA, 256);
    system.write_bytes(c1.address(), 0xBB, 256);
    assert_eq!(system.read(c0.address()), 0xAA);
    assert_eq!(system.read(c1.address()), 0xBB);

    grid.give(c0);
    assert_eq!(grid.free(), 3);
    grid.give(c1);
    assert_eq!(grid.free(), 4);
}

#[test]
fn grid_full() {
    let mut system = Surfaces::new();
    let mut grid = Grid::<64, 2>::new(system.open(Grid::<64, 2>::bytes())).unwrap();
    let _c0 = grid.take().unwrap();
    let _c1 = grid.take().unwrap();
    assert!(grid.take().is_none());
}

#[test]
fn grid_reuse() {
    let mut system = Surfaces::new();
    let mut grid = Grid::<64, 1>::new(system.open(Grid::<64, 1>::bytes())).unwrap();
    let cell = grid.take().unwrap();
    let addr = cell.address();
    grid.give(cell);

    let cell2 = grid.take().unwrap();
    assert_eq!(cell2.address(), addr);
    grid.give(cell2);
}

#[test]
fn layout_new_total() {
    let w = 1024 * 1024;
    let s = 256 * 1024;
    let h = 256 * 1024;
    let lay = Surfaces::new().layout(w, s, h).unwrap();
    assert_eq!(
        lay.total(),
        lay.weights().total() + lay.scratch().total() + lay.history().total()
    );
    assert!(lay.weights().total() >= w);
    assert!(lay.scratch().total() >= s);
    assert!(lay.history().total() >= h);
}

#[test]
fn layout_tape_accessors() {
    let mut lay = Surfaces::new().layout(1024 * 1024, 256 * 1024, 256 * 1024).unwrap();

    let pw = lay.weights_mut().take(128, 64).unwrap();
    assert!(lay.weights().used() >= 128);
    assert_ne!(pw, 0);

    let ps = lay.scratch_mut().take(64, 64).unwrap();
    assert!(lay.scratch().used() >= 64);
    assert_ne!(ps, 0);

    let ph = lay.history_mut().take(64, 64).unwrap();
    assert!(lay.history().used() >= 64);
    assert_ne!(ph, 0);
}

#[test]
fn layout_clear_pass() {
    let mut lay = Surfaces::new().layout(1024 * 1024, 256 * 1024, 256 * 1024).unwrap();

    let _ = lay.weights_mut().take(512, 64).unwrap();
    let _ = lay.scratch_mut().take(256, 64).unwrap();

    let w_used = lay.weights().used();
    assert!(w_used >= 512);

    lay.clear_pass();

    assert_eq!(lay.weights().used(), w_used);
    assert_eq!(lay.scratch().used(), 0);
}

#[test]
fn layout_clear_talk() {
    let mut lay = Surfaces::new().layout(1024 * 1024, 256 * 1024, 256 * 1024).unwrap();

    let _ = lay.weights_mut().take(512, 64).unwrap();
    let _ = lay.scratch_mut().take(256, 64).unwrap();
    let _ = lay.history_mut().take(128, 64).unwrap();

    let w_used = lay.weights().used();

    lay.clear_talk();

    assert_eq!(lay.weights().used(), w_used);
    assert_eq!(lay.scratch().used(), 0);
    assert_eq!(lay.history().used(), 0);
}

#[test]
fn layout_stat() {
    let mut lay = Surfaces::new().layout(1024 * 1024, 256 * 1024, 256 * 1024).unwrap();

    let _ = lay.weights_mut().take(1000, 64).unwrap();
    let _ = lay.scratch_mut().take(500, 64).unwrap();
    let _ = lay.history_mut().take(200, 64).unwrap();

    let st = lay.stat();
    assert!(st.weights_used >= 1000);
    assert!(st.weights_total >= 1024 * 1024);
    assert!(st.scratch_used >= 500);
    assert!(st.scratch_total >= 256 * 1024);
    assert!(st.history_used >= 200);
    assert!(st.history_total >= 256 * 1024);
}

#[test]
fn stat_display() {
    let lay = Surfaces::new().layout(1024 * 1024, 256 * 1024, 256 * 1024).unwrap();
    let st = lay.stat();
    let s = st.to_string();
    assert!(!s.is_empty());
    assert!(s.contains("weights:"));
    assert!(s.contains("scratch:"));
    assert!(s.contains("history:"));
    assert_eq!(s, "weights: 0/1 MB | scratch: 0/0 MB | history: 0/0 MB");
}

#[test]
fn tape_start_warm() {
    let mut system = Surfaces::new();
    let (mut tape, writes) = Tape::start_warm(system.open(64 * 1024)).unwrap();
    for write in &writes {
        system.write(write.address, write.byte);
    }
    let p = tape.take(1024, 64).unwrap();
    assert_ne!(p, 0);
    assert!(tape.used() >= 1024);
}

#[test]
fn tape_warm_after_start() {
    let mut system = Surfaces::new();
    let mut tape = Tape::start(system.open(64 * 1024)).unwrap();
    for write in tape.warm() {
        system.write(write.address, write.byte);
    }
    let p = tape.take(512, 64).unwrap();
    assert_ne!(p, 0);
}

#[test]
fn tape_block_access() {
    let mut system = Surfaces::new();
    let mut tape = Tape::start(system.open(4096)).unwrap();
    assert_ne!(tape.block().address(), 0);
    assert!(tape.block().size() >= 4096);

    let p = tape.take(64, 1).unwrap();
    let blk = tape.block();
    let base = blk.address();
    assert!(p >= base && p < base + blk.size());
}

#[test]
fn grid_tape_access() {
    let mut system = Surfaces::new();
    let grid = Grid::<256, 4>::new(system.open(Grid::<256, 4>::bytes())).unwrap();
    let t = grid.tape();
    assert_ne!(t.block().address(), 0);
    assert!(t.total() >= 256 * 4);
}

#[test]
fn cell_bytes() {
    let mut system = Surfaces::new();
    let mut grid = Grid::<256, 1>::new(system.open(Grid::<256, 1>::bytes())).unwrap();
    let mut cell: Cell = grid.take().unwrap();
    let slice = cell.bytes(256);
    assert_eq!(slice.start, cell.address());
    assert_eq!(slice.len, 256);
    system.write(slice.start, 0xDE);
    system.write(slice.start + 255, 0xAD);
    assert_eq!(system.read(slice.start), 0xDE);
    assert_eq!(system.read(slice.start + 255), 0xAD);
    grid.give(cell);
}

#[test]
fn cell_id_distinct() {
    let mut system = Surfaces::new();
    let mut grid = Grid::<64, 4>::new(system.open(Grid::<64, 4>::bytes())).unwrap();
    let c0 = grid.take().unwrap();
    let c1 = grid.take().unwrap();
    let c2 = grid.take().unwrap();
    let c3 = grid.take().unwrap();

    let mut ids = vec![c0.id(), c1.id(), c2.id(), c3.id()];
    ids.sort();
    ids.dedup();
    assert_eq!(ids.len(), 4);

    for &id in &ids {
        assert!(id < 4);
    }

    grid.give(c0);
    grid.give(c1);
    grid.give(c2);
    grid.give(c3);
}

#[test]
fn block_handle() {
    let b = Surfaces::new().open(4096).unwrap();
    assert_ne!(b.handle(), 0);
}

#[test]
fn mem_error_display_zero_size() {
    let e = MemError::ZeroSize;
    let s = e.to_string();
    assert!(!s.is_empty());
    assert!(s.contains("zero"));
}

#[test]
fn mem_error_display_block_create_failed() {
    let e = MemError::BlockCreateFailed;
    let s = e.to_string();
    assert!(!s.is_empty());
    assert!(s.contains("IOSurfaceCreate"));
}

#[test]
fn mem_error_display_block_lock_failed() {
    let e = MemError::BlockLockFailed(0x1234);
    let s = e.to_string();
    assert!(!s.is_empty());
    assert!(s.contains("IOSurfaceLock"));
    assert!(s.contains("0x1234"));
}

#[test]
fn failed_layout_leaves_no_surface_locked() {
    let mut system = Surfaces::new();
    assert_eq!(system.layout(65536, 0, 65536), Err(MemError::ZeroSize));
    assert_eq!(system.layout(65536, 65536, 0), Err(MemError::ZeroSize));
    assert_eq!(system.layout(0, 65536, 65536), Err(MemError::ZeroSize));
    assert_eq!(system.all.len(), 3);
    for surface in &system.all {
        assert_eq!(surface.locks, 0);
        assert!(surface.released);
    }
}

#[test]
fn closed_layout_leaves_no_surface_locked() {
    let mut system = Surfaces::new();
    let lay = system.layout(65536, 16384, 32768).unwrap();
    for block in lay.into_blocks() {
        for request in block.close() {
            system.answer(request);
        }
    }
    assert_eq!(system.all.len(), 3);
    for surface in &system.all {
        assert_eq!(surface.locks, 0);
        assert!(surface.released);
    }
}

#[test]
fn warming_zeroes_only_page_starts() {
    let mut system = Surfaces::new();
    let tape = Tape::start(system.open(3 * PAGE)).unwrap();
    let base = tape.block().address();
    system.write_bytes(base, 0x5A, 3 * PAGE);
    for write in tape.warm() {
        system.write(write.address, write.byte);
    }
    for i in 0..3 * PAGE {
        let expected = if i % PAGE == 0 { 0 } else { 0x5A };
        assert_eq!(system.all[0].bytes[i], expected);
    }
    assert_eq!(tape.used(), 0);
}
