//! Pinned blocks of shared memory.
//!
//! A block is a surface of the system: created, locked once, and held locked until it is
//! closed, so its address is stable for its whole life. The system is reached by
//! [`Request`]s, each of which is answered by a [`Reply`]; [`Opening`] decides what to ask
//! next, and what has to be undone when something fails.

use crate::error::MemError;
use vstd::prelude::*;

verus! {

/// One thing asked of the surface system.
#[derive(Debug, Clone, Copy, PartialEq, Eq, Structural)]
pub enum Request {
    /// Create a surface of `size` bytes, with the properties of [`surface_properties`].
    Create { size: usize },
    /// Lock the surface for reading and writing.
    Lock { handle: usize },
    /// Tell the address of the surface's first byte.
    BaseAddress { handle: usize },
    /// Tell how many bytes the surface has.
    AllocSize { handle: usize },
    /// Tell the surface's global id.
    Id { handle: usize },
    /// Take the lock off the surface.
    Unlock { handle: usize },
    /// Give the surface up.
    Release { handle: usize },
}

/// What the surface system answers.
#[derive(Debug, Clone, Copy, PartialEq, Eq, Structural)]
pub enum Reply {
    /// To `Create`: the surface's handle, zero if there is none.
    Surface(usize),
    /// To `Lock`: zero if the lock is held, else the reason why it is not.
    Status(i32),
    /// To `BaseAddress`: the address, zero if there is none.
    Address(usize),
    /// To `AllocSize`.
    Size(usize),
    /// To `Id`.
    Id(u32),
    /// To `Unlock` and `Release`.
    Done,
}

/// The status of a call that succeeded.
pub const KERN_SUCCESS: i32 = 0;

/// What a block is: a locked surface, and where its bytes lie.
pub struct BlockView {
    pub handle: usize,
    pub address: usize,
    pub size: usize,
    pub id: u32,
}

impl BlockView {
    /// The bytes lie at a non-null address, inside the address space, and are no more than
    /// a slice can hold.
    pub open spec fn wf(self) -> bool {
        &&& 0 < self.address
        &&& self.size <= isize::MAX
        &&& self.address + self.size <= usize::MAX
    }
}

/// A pinned block of memory. Nothing of it changes while it is open.
#[derive(Debug, PartialEq, Eq)]
pub struct Block {
    handle: usize,
    address: usize,
    size: usize,
    id: u32,
}

/// A run of elements in memory: the address of the first, and how many there are.
#[derive(Debug, Clone, Copy, PartialEq, Eq, Structural)]
pub struct Span {
    pub start: usize,
    pub len: usize,
}

impl View for Block {
    type V = BlockView;

    closed spec fn view(&self) -> BlockView {
        BlockView { handle: self.handle, address: self.address, size: self.size, id: self.id }
    }
}

impl Block {
    pub open spec fn wf(&self) -> bool {
        self@.wf()
    }

    /// Starts to open a block of `size` bytes. Zero bytes are refused before anything is
    /// asked of the system.
    pub fn open(size: usize) -> (opening: Result<Opening, MemError>)
        ensures
            opening == (if size == 0 {
                Err::<Opening, MemError>(MemError::ZeroSize)
            } else {
                Ok::<Opening, MemError>(Opening::Creating { size })
            }),
            opening matches Ok(o) ==> o.wf(),
    {
        if size == 0 {
            return Err(MemError::ZeroSize);
        }
        Ok(Opening::Creating { size })
    }

    /// The address of the first byte.
    pub fn address(&self) -> (address: usize)
        ensures
            address == self@.address,
    {
        self.address
    }

    /// The number of bytes.
    pub fn size(&self) -> (size: usize)
        ensures
            size == self@.size,
    {
        self.size
    }

    /// The surface's global id, by which other processes find it.
    pub fn id(&self) -> (id: u32)
        ensures
            id == self@.id,
    {
        self.id
    }

    /// The surface's handle, for the hardware that shares it.
    pub fn handle(&self) -> (handle: usize)
        ensures
            handle == self@.handle,
    {
        self.handle
    }

    /// All bytes of the block.
    pub fn as_bytes(&self) -> (span: Span)
        ensures
            span == (Span { start: self@.address, len: self@.size }),
    {
        Span { start: self.address, len: self.size }
    }

    /// All bytes of the block, to be written.
    pub fn as_bytes_mut(&self) -> (span: Span)
        ensures
            span == (Span { start: self@.address, len: self@.size }),
    {
        self.as_bytes()
    }

    /// The block as four-byte floating-point numbers; a last part of one is left out.
    pub fn as_f32(&self) -> (span: Span)
        ensures
            span == (Span { start: self@.address, len: self@.size / 4 }),
    {
        Span { start: self.address, len: self.size / 4 }
    }

    /// The block as four-byte floating-point numbers, to be written.
    pub fn as_f32_mut(&self) -> (span: Span)
        ensures
            span == (Span { start: self@.address, len: self@.size / 4 }),
    {
        self.as_f32()
    }

    /// The block as two-byte numbers (half floats); a last odd byte is left out.
    pub fn as_u16(&self) -> (span: Span)
        ensures
            span == (Span { start: self@.address, len: self@.size / 2 }),
    {
        Span { start: self.address, len: self.size / 2 }
    }

    /// The block as two-byte numbers, to be written.
    pub fn as_u16_mut(&self) -> (span: Span)
        ensures
            span == (Span { start: self@.address, len: self@.size / 2 }),
    {
        self.as_u16()
    }

    /// What has to be asked to close the block, in this order: the lock is taken off, then the
    /// surface is given up.
    pub fn closing_requests(&self) -> (requests: [Request; 2])
        ensures
            requests@ == closing(self@.handle),
    {
        let requests = [
            Request::Unlock { handle: self.handle },
            Request::Release { handle: self.handle },
        ];
        assert(requests@ =~= closing(self@.handle));
        requests
    }

    /// Ends the block, and tells what has to be asked to close it.
    pub fn close(self) -> (requests: [Request; 2])
        ensures
            requests@ == closing(self@.handle),
    {
        self.closing_requests()
    }
}

/// The requests that undo a lock and a creation.
pub open spec fn closing(handle: usize) -> Seq<Request> {
    seq![Request::Unlock { handle }, Request::Release { handle }]
}

/// A block that is being opened: what was learned so far, and so what is asked next.
#[derive(Debug, PartialEq, Eq)]
pub enum Opening {
    /// Nothing exists yet.
    Creating { size: usize },
    /// The surface exists.
    Locking { handle: usize },
    /// The surface is locked.
    Locating { handle: usize },
    /// Its address is known.
    Measuring { handle: usize, address: usize },
    /// Its size is known.
    Naming { handle: usize, address: usize, size: usize },
    /// The surface is locked and has no address: the lock has to come off.
    Unlocking { handle: usize },
    /// The surface is not locked and has to be given up, for this reason.
    Releasing { handle: usize, error: MemError },
    /// The block is open.
    Opened(Block),
    /// Nothing is left of the attempt.
    Failed(MemError),
}

impl Opening {
    pub open spec fn wf(self) -> bool {
        match self {
            Opening::Measuring { address, .. } => 0 < address,
            Opening::Naming { handle, address, size } => BlockView {
                handle,
                address,
                size,
                id: 0,
            }.wf(),
            Opening::Opened(block) => block.wf(),
            _ => true,
        }
    }

    /// What is asked of the system in this state.
    pub open spec fn asks(self) -> Option<Request> {
        match self {
            Opening::Creating { size } => Some(Request::Create { size }),
            Opening::Locking { handle } => Some(Request::Lock { handle }),
            Opening::Locating { handle } => Some(Request::BaseAddress { handle }),
            Opening::Measuring { handle, .. } => Some(Request::AllocSize { handle }),
            Opening::Naming { handle, .. } => Some(Request::Id { handle }),
            Opening::Unlocking { handle } => Some(Request::Unlock { handle }),
            Opening::Releasing { handle, .. } => Some(Request::Release { handle }),
            Opening::Opened(_) => None,
            Opening::Failed(_) => None,
        }
    }

    /// Whether `reply` answers what is asked in this state. A size has to fit behind the
    /// address that the system gave.
    pub open spec fn accepts(self, reply: Reply) -> bool {
        match self {
            Opening::Creating { .. } => reply is Surface,
            Opening::Locking { .. } => reply is Status,
            Opening::Locating { .. } => reply is Address,
            Opening::Measuring { address, .. } => reply matches Reply::Size(size) && size
                <= isize::MAX && address + size <= usize::MAX,
            Opening::Naming { .. } => reply is Id,
            Opening::Unlocking { .. } => reply is Done,
            Opening::Releasing { .. } => reply is Done,
            Opening::Opened(_) => false,
            Opening::Failed(_) => false,
        }
    }

    /// Whether `after` is the state that `reply` leads to.
    pub open spec fn leads_to(self, reply: Reply, after: Opening) -> bool {
        match (self, reply) {
            (Opening::Creating { .. }, Reply::Surface(handle)) => after == if handle == 0 {
                Opening::Failed(MemError::BlockCreateFailed)
            } else {
                Opening::Locking { handle }
            },
            (Opening::Locking { handle }, Reply::Status(status)) => after == if status
                != KERN_SUCCESS {
                Opening::Releasing { handle, error: MemError::BlockLockFailed(status) }
            } else {
                Opening::Locating { handle }
            },
            (Opening::Locating { handle }, Reply::Address(address)) => after == if address == 0 {
                Opening::Unlocking { handle }
            } else {
                Opening::Measuring { handle, address }
            },
            (Opening::Measuring { handle, address }, Reply::Size(size)) => after
                == (Opening::Naming { handle, address, size }),
            (Opening::Naming { handle, address, size }, Reply::Id(id)) => after matches
                Opening::Opened(block) && block@ == (BlockView { handle, address, size, id }),
            (Opening::Unlocking { handle }, Reply::Done) => after == (Opening::Releasing {
                handle,
                error: MemError::BlockCreateFailed,
            }),
            (Opening::Releasing { error, .. }, Reply::Done) => after == Opening::Failed(error),
            _ => false,
        }
    }

    /// How many more replies the opening can take.
    pub open spec fn rank(self) -> nat {
        match self {
            Opening::Creating { .. } => 5,
            Opening::Locking { .. } => 4,
            Opening::Locating { .. } => 3,
            Opening::Measuring { .. } => 2,
            Opening::Unlocking { .. } => 2,
            Opening::Naming { .. } => 1,
            Opening::Releasing { .. } => 1,
            Opening::Opened(_) => 0,
            Opening::Failed(_) => 0,
        }
    }

    /// What to ask of the system next; nothing once the block is open or has failed.
    pub fn request(&self) -> (request: Option<Request>)
        ensures
            request == self.asks(),
    {
        match self {
            Opening::Creating { size } => Some(Request::Create { size: *size }),
            Opening::Locking { handle } => Some(Request::Lock { handle: *handle }),
            Opening::Locating { handle } => Some(Request::BaseAddress { handle: *handle }),
            Opening::Measuring { handle, .. } => Some(Request::AllocSize { handle: *handle }),
            Opening::Naming { handle, .. } => Some(Request::Id { handle: *handle }),
            Opening::Unlocking { handle } => Some(Request::Unlock { handle: *handle }),
            Opening::Releasing { handle, .. } => Some(Request::Release { handle: *handle }),
            Opening::Opened(_) => None,
            Opening::Failed(_) => None,
        }
    }

    /// Takes the reply to what was asked.
    pub fn advance(self, reply: Reply) -> (after: Opening)
        requires
            self.wf(),
            self.accepts(reply),
        ensures
            self.leads_to(reply, after),
            after.wf(),
            after.rank() < self.rank(),
    {
        match (self, reply) {
            (Opening::Creating { .. }, Reply::Surface(handle)) => {
                if handle == 0 {
                    Opening::Failed(MemError::BlockCreateFailed)
                } else {
                    Opening::Locking { handle }
                }
            },
            (Opening::Locking { handle }, Reply::Status(status)) => {
                if status != KERN_SUCCESS {
                    Opening::Releasing { handle, error: MemError::BlockLockFailed(status) }
                } else {
                    Opening::Locating { handle }
                }
            },
            (Opening::Locating { handle }, Reply::Address(address)) => {
                if address == 0 {
                    Opening::Unlocking { handle }
                } else {
                    Opening::Measuring { handle, address }
                }
            },
            (Opening::Measuring { handle, address }, Reply::Size(size)) => Opening::Naming {
                handle,
                address,
                size,
            },
            (Opening::Naming { handle, address, size }, Reply::Id(id)) => Opening::Opened(
                Block { handle, address, size, id },
            ),
            (Opening::Unlocking { handle }, Reply::Done) => Opening::Releasing {
                handle,
                error: MemError::BlockCreateFailed,
            },
            (Opening::Releasing { error, .. }, Reply::Done) => Opening::Failed(error),
            (other, _) => other,
        }
    }
}

/// The answers of a surface system to one opening.
pub struct Answers {
    pub handle: usize,
    pub status: i32,
    pub address: usize,
    pub size: usize,
    pub id: u32,
}

impl Answers {
    /// The answer to one request.
    pub open spec fn reply(self, request: Request) -> Reply {
        match request {
            Request::Create { .. } => Reply::Surface(self.handle),
            Request::Lock { .. } => Reply::Status(self.status),
            Request::BaseAddress { .. } => Reply::Address(self.address),
            Request::AllocSize { .. } => Reply::Size(self.size),
            Request::Id { .. } => Reply::Id(self.id),
            Request::Unlock { .. } => Reply::Done,
            Request::Release { .. } => Reply::Done,
        }
    }

    /// What comes of opening `size` bytes against these answers.
    pub open spec fn outcome(self, size: usize) -> Result<BlockView, MemError> {
        if size == 0 {
            Err(MemError::ZeroSize)
        } else if self.handle == 0 {
            Err(MemError::BlockCreateFailed)
        } else if self.status != KERN_SUCCESS {
            Err(MemError::BlockLockFailed(self.status))
        } else if self.address == 0 {
            Err(MemError::BlockCreateFailed)
        } else {
            Ok(BlockView {
                handle: self.handle,
                address: self.address,
                size: self.size,
                id: self.id,
            })
        }
    }

    /// What is asked, in order, while `size` bytes are opened against these answers.
    pub open spec fn asked(self, size: usize) -> Seq<Request> {
        let handle = self.handle;
        if size == 0 {
            seq![]
        } else if handle == 0 {
            seq![Request::Create { size }]
        } else if self.status != KERN_SUCCESS {
            seq![Request::Create { size }, Request::Lock { handle }, Request::Release { handle }]
        } else if self.address == 0 {
            seq![
                Request::Create { size },
                Request::Lock { handle },
                Request::BaseAddress { handle },
                Request::Unlock { handle },
                Request::Release { handle },
            ]
        } else {
            seq![
                Request::Create { size },
                Request::Lock { handle },
                Request::BaseAddress { handle },
                Request::AllocSize { handle },
                Request::Id { handle },
            ]
        }
    }
}

/// Whether `states` is a whole run of an opening against the answers: it starts with `first`,
/// each state leads to the next by the reply to what it asks, and the last asks nothing.
pub open spec fn is_run(states: Seq<Opening>, first: Opening, answers: Answers) -> bool {
    &&& states.len() > 0
    &&& states[0] == first
    &&& states.last().asks() is None
    &&& forall|i: int|
        0 <= i < states.len() - 1 ==> {
            &&& (#[trigger] states[i]).asks() matches Some(request) && states[i].leads_to(
                answers.reply(request),
                states[i + 1],
            )
        }
}

/// However the system answers, a whole run of an opening ends with the outcome that the
/// answers call for, and asks exactly the requests that they call for. In particular, a run
/// that fails has taken off every lock and given up every surface that it got, once each,
/// and a run that succeeds holds its surface locked.
pub proof fn opening_outcome(states: Seq<Opening>, size: usize, answers: Answers)
    requires
        size > 0,
        is_run(states, Opening::Creating { size }, answers),
    ensures
        match answers.outcome(size) {
            Ok(view) => states.last() matches Opening::Opened(block) && block@ == view,
            Err(error) => states.last() == Opening::Failed(error),
        },
        states.len() == answers.asked(size).len() + 1,
        forall|i: int|
            0 <= i < states.len() - 1 ==> (#[trigger] states[i]).asks() == Some(
                answers.asked(size)[i],
            ),
{
    let n = states.len();
    assert(states[0].asks() is Some);
    assert(n > 1);
    assert(states[1].asks() is Some ==> n > 2);
    if n > 2 {
        assert(states[2].asks() is Some ==> n > 3);
    }
    if n > 3 {
        assert(states[3].asks() is Some ==> n > 4);
    }
    if n > 4 {
        assert(states[4].asks() is Some ==> n > 5);
    }
    if n > 5 {
        assert(states[5].asks() is None);
        assert(n == 6);
    }
}

/// Whether `request` occurs once among `requests`, at `position`.
pub open spec fn occurs_once(requests: Seq<Request>, request: Request, position: int) -> bool {
    &&& 0 <= position < requests.len()
    &&& forall|i: int|
        0 <= i < requests.len() ==> (#[trigger] requests[i] == request <==> i == position)
}

/// Opening and then closing leaves nothing behind: over both together, the surface is
/// created, locked, unlocked and given up once each, in this order, and given up last.
pub proof fn open_then_close_is_balanced(size: usize, answers: Answers)
    requires
        answers.outcome(size) is Ok,
    ensures
        ({
            let handle = answers.handle;
            let all = answers.asked(size) + closing(handle);
            &&& occurs_once(all, Request::Create { size }, 0)
            &&& occurs_once(all, Request::Lock { handle }, 1)
            &&& occurs_once(all, Request::Unlock { handle }, all.len() - 2)
            &&& occurs_once(all, Request::Release { handle }, all.len() - 1)
        }),
{
    let handle = answers.handle;
    let all = answers.asked(size) + closing(handle);
    assert(all =~= seq![
        Request::Create { size },
        Request::Lock { handle },
        Request::BaseAddress { handle },
        Request::AllocSize { handle },
        Request::Id { handle },
        Request::Unlock { handle },
        Request::Release { handle },
    ]);
}

/// An opening that fails leaves nothing behind: a surface that was created is given up
/// once, at the end, and a lock that was held is taken off once, just before.
pub proof fn failed_open_is_balanced(size: usize, answers: Answers)
    requires
        size > 0,
        answers.outcome(size) is Err,
    ensures
        ({
            let handle = answers.handle;
            let asked = answers.asked(size);
            if handle == 0 {
                asked == seq![Request::Create { size }]
            } else {
                &&& occurs_once(asked, Request::Create { size }, 0)
                &&& occurs_once(asked, Request::Lock { handle }, 1)
                &&& occurs_once(asked, Request::Release { handle }, asked.len() - 1)
                &&& if answers.status == KERN_SUCCESS {
                    occurs_once(asked, Request::Unlock { handle }, asked.len() - 2)
                } else {
                    !asked.contains(Request::Unlock { handle })
                }
            }
        }),
{
}

/// The properties of a surface that is a plain run of `size` bytes: one row of one-byte
/// elements, without a pixel format.
pub open spec fn property_list(size: usize) -> Seq<(Seq<char>, i64)> {
    seq![
        ("IOSurfaceWidth"@, size as i64),
        ("IOSurfaceHeight"@, 1),
        ("IOSurfaceBytesPerElement"@, 1),
        ("IOSurfaceBytesPerRow"@, size as i64),
        ("IOSurfaceAllocSize"@, size as i64),
        ("IOSurfacePixelFormat"@, 0),
    ]
}

/// The properties with which a surface of `size` bytes is created, in the order in which
/// they are set.
pub fn surface_properties(size: usize) -> (properties: [(&'static str, i64); 6])
    ensures
        forall|i: int|
            0 <= i < 6 ==> ((#[trigger] properties@[i]).0@, properties@[i].1) == property_list(
                size,
            )[i],
        properties@[0].0@ == "IOSurfaceWidth"@,
        properties@[1].0@ == "IOSurfaceHeight"@,
        properties@[2].0@ == "IOSurfaceBytesPerElement"@,
        properties@[3].0@ == "IOSurfaceBytesPerRow"@,
        properties@[4].0@ == "IOSurfaceAllocSize"@,
        properties@[5].0@ == "IOSurfacePixelFormat"@,
        properties@[1].1 == 1 && properties@[2].1 == 1 && properties@[5].1 == 0,
        size <= i64::MAX ==> properties@[0].1 == size && properties@[3].1 == size
            && properties@[4].1 == size,
{
    let bytes: i64 = size as i64;
    [
        ("IOSurfaceWidth", bytes),
        ("IOSurfaceHeight", 1),
        ("IOSurfaceBytesPerElement", 1),
        ("IOSurfaceBytesPerRow", bytes),
        ("IOSurfaceAllocSize", bytes),
        ("IOSurfacePixelFormat", 0),
    ]
}

} // verus!
