//! What the clients of the driver extension decide: how they connect, in which order they go
//! through an examination, and what they make of the answers.

use crate::block::KERN_SUCCESS;
use crate::codes::call_failure;
use crate::text::decimal;
use vstd::prelude::*;
use vstd::string::*;

verus! {

/// One thing asked of the driver registry.
#[derive(Debug, Clone, Copy, PartialEq, Eq)]
pub enum ConnectRequest {
    /// Make a dictionary that matches the driver's name.
    MatchName,
    /// Find a service that the dictionary matches.
    Find,
    /// Open a connection to the service.
    Open { service: u32 },
    /// Give the service up.
    Release { service: u32 },
}

/// What the driver registry answers.
#[derive(Debug, Clone, Copy, PartialEq, Eq)]
pub enum ConnectReply {
    /// To `MatchName`: whether there is a dictionary.
    Matched(bool),
    /// To `Find`: the service, zero if there is none.
    Service(u32),
    /// To `Open`: the status, and the connection if the status is success.
    Opened { status: i32, connection: u32 },
    /// To `Release`.
    Released,
}

/// Why there is no connection.
#[derive(Debug, Clone, Copy, PartialEq, Eq)]
pub enum ConnectError {
    /// No dictionary could be made.
    NoMatching,
    /// The driver is not loaded.
    NoService,
    /// The driver refused the connection, with this status.
    Refused(i32),
}

/// A connection, with the service that it was opened on where that is kept.
#[derive(Debug, Clone, Copy, PartialEq, Eq)]
pub struct Connection {
    pub connection: u32,
    pub service: Option<u32>,
}

/// A connection that is being made.
#[derive(Debug, Clone, Copy, PartialEq, Eq)]
pub enum Connecting {
    /// Nothing is known yet.
    Matching { keep: bool },
    /// There is a dictionary.
    Finding { keep: bool },
    /// There is a service.
    Opening { keep: bool, service: u32 },
    /// The service is given up; the connection is known.
    Releasing { service: u32, result: Result<u32, ConnectError> },
    /// The connection is made.
    Connected(Connection),
    /// There is no connection.
    Failed(ConnectError),
}

impl Connecting {
    /// What is asked in this state.
    pub open spec fn asks(self) -> Option<ConnectRequest> {
        match self {
            Connecting::Matching { .. } => Some(ConnectRequest::MatchName),
            Connecting::Finding { .. } => Some(ConnectRequest::Find),
            Connecting::Opening { service, .. } => Some(ConnectRequest::Open { service }),
            Connecting::Releasing { service, .. } => Some(ConnectRequest::Release { service }),
            Connecting::Connected(_) => None,
            Connecting::Failed(_) => None,
        }
    }

    /// Whether `reply` answers what is asked in this state.
    pub open spec fn accepts(self, reply: ConnectReply) -> bool {
        match self {
            Connecting::Matching { .. } => reply is Matched,
            Connecting::Finding { .. } => reply is Service,
            Connecting::Opening { .. } => reply is Opened,
            Connecting::Releasing { .. } => reply is Released,
            Connecting::Connected(_) => false,
            Connecting::Failed(_) => false,
        }
    }

    /// The state that `reply` leads to.
    pub open spec fn after(self, reply: ConnectReply) -> Connecting {
        match (self, reply) {
            (Connecting::Matching { keep }, ConnectReply::Matched(matched)) => if matched {
                Connecting::Finding { keep }
            } else {
                Connecting::Failed(ConnectError::NoMatching)
            },
            (Connecting::Finding { keep }, ConnectReply::Service(service)) => if service == 0 {
                Connecting::Failed(ConnectError::NoService)
            } else {
                Connecting::Opening { keep, service }
            },
            (
                Connecting::Opening { keep, service },
                ConnectReply::Opened { status, connection },
            ) => if status != KERN_SUCCESS {
                Connecting::Releasing { service, result: Err(ConnectError::Refused(status)) }
            } else if keep {
                Connecting::Connected(Connection { connection, service: Some(service) })
            } else {
                Connecting::Releasing { service, result: Ok(connection) }
            },
            (Connecting::Releasing { result, .. }, ConnectReply::Released) => match result {
                Ok(connection) => Connecting::Connected(Connection { connection, service: None }),
                Err(error) => Connecting::Failed(error),
            },
            _ => self,
        }
    }

    /// How many more replies the connecting can take.
    pub open spec fn rank(self) -> nat {
        match self {
            Connecting::Matching { .. } => 4,
            Connecting::Finding { .. } => 3,
            Connecting::Opening { .. } => 2,
            Connecting::Releasing { .. } => 1,
            Connecting::Connected(_) => 0,
            Connecting::Failed(_) => 0,
        }
    }

    /// Starts to connect; `keep` says whether the service is kept while the connection is
    /// used.
    pub fn start(keep: bool) -> (connecting: Connecting)
        ensures
            connecting == (Connecting::Matching { keep }),
    {
        Connecting::Matching { keep }
    }

    /// What to ask next; nothing once the connection is made or has failed.
    pub fn request(&self) -> (request: Option<ConnectRequest>)
        ensures
            request == self.asks(),
    {
        match self {
            Connecting::Matching { .. } => Some(ConnectRequest::MatchName),
            Connecting::Finding { .. } => Some(ConnectRequest::Find),
            Connecting::Opening { service, .. } => Some(ConnectRequest::Open { service: *service }),
            Connecting::Releasing { service, .. } => Some(
                ConnectRequest::Release { service: *service },
            ),
            Connecting::Connected(_) => None,
            Connecting::Failed(_) => None,
        }
    }

    /// Takes the reply to what was asked.
    pub fn advance(self, reply: ConnectReply) -> (after: Connecting)
        requires
            self.accepts(reply),
        ensures
            after == self.after(reply),
            after.rank() < self.rank(),
    {
        match (self, reply) {
            (Connecting::Matching { keep }, ConnectReply::Matched(matched)) => {
                if matched {
                    Connecting::Finding { keep }
                } else {
                    Connecting::Failed(ConnectError::NoMatching)
                }
            },
            (Connecting::Finding { keep }, ConnectReply::Service(service)) => {
                if service == 0 {
                    Connecting::Failed(ConnectError::NoService)
                } else {
                    Connecting::Opening { keep, service }
                }
            },
            (
                Connecting::Opening { keep, service },
                ConnectReply::Opened { status, connection },
            ) => {
                if status != KERN_SUCCESS {
                    Connecting::Releasing { service, result: Err(ConnectError::Refused(status)) }
                } else if keep {
                    Connecting::Connected(Connection { connection, service: Some(service) })
                } else {
                    Connecting::Releasing { service, result: Ok(connection) }
                }
            },
            (Connecting::Releasing { result, .. }, ConnectReply::Released) => {
                match result {
                    Ok(connection) => Connecting::Connected(
                        Connection { connection, service: None },
                    ),
                    Err(error) => Connecting::Failed(error),
                }
            },
            (other, _) => other,
        }
    }
}

/// The answers of a driver registry to one attempt to connect.
pub struct ConnectAnswers {
    pub matched: bool,
    pub service: u32,
    pub status: i32,
    pub connection: u32,
}

impl ConnectAnswers {
    /// The answer to one request.
    pub open spec fn reply(self, request: ConnectRequest) -> ConnectReply {
        match request {
            ConnectRequest::MatchName => ConnectReply::Matched(self.matched),
            ConnectRequest::Find => ConnectReply::Service(self.service),
            ConnectRequest::Open { .. } => ConnectReply::Opened {
                status: self.status,
                connection: self.connection,
            },
            ConnectRequest::Release { .. } => ConnectReply::Released,
        }
    }

    /// What comes of connecting against these answers.
    pub open spec fn outcome(self, keep: bool) -> Connecting {
        if !self.matched {
            Connecting::Failed(ConnectError::NoMatching)
        } else if self.service == 0 {
            Connecting::Failed(ConnectError::NoService)
        } else if self.status != KERN_SUCCESS {
            Connecting::Failed(ConnectError::Refused(self.status))
        } else {
            Connecting::Connected(
                Connection {
                    connection: self.connection,
                    service: if keep {
                        Some(self.service)
                    } else {
                        None
                    },
                },
            )
        }
    }

    /// What is asked, in order.
    pub open spec fn asked(self, keep: bool) -> Seq<ConnectRequest> {
        let service = self.service;
        if !self.matched {
            seq![ConnectRequest::MatchName]
        } else if service == 0 {
            seq![ConnectRequest::MatchName, ConnectRequest::Find]
        } else if self.status == KERN_SUCCESS && keep {
            seq![ConnectRequest::MatchName, ConnectRequest::Find, ConnectRequest::Open { service }]
        } else {
            seq![
                ConnectRequest::MatchName,
                ConnectRequest::Find,
                ConnectRequest::Open { service },
                ConnectRequest::Release { service },
            ]
        }
    }
}

/// Whether `states` is a whole run of connecting against the answers.
pub open spec fn is_connect_run(
    states: Seq<Connecting>,
    keep: bool,
    answers: ConnectAnswers,
) -> bool {
    &&& states.len() > 0
    &&& states[0] == (Connecting::Matching { keep })
    &&& states.last().asks() is None
    &&& forall|i: int|
        0 <= i < states.len() - 1 ==> {
            &&& (#[trigger] states[i]).asks() matches Some(request) && states[i + 1]
                == states[i].after(answers.reply(request))
        }
}

/// However the registry answers, a whole run ends with the outcome that the answers call for
/// and asks exactly what they call for: a service that was found is given up, unless it is
/// kept with a connection that was made.
pub proof fn connect_outcome(states: Seq<Connecting>, keep: bool, answers: ConnectAnswers)
    requires
        is_connect_run(states, keep, answers),
    ensures
        states.last() == answers.outcome(keep),
        states.len() == answers.asked(keep).len() + 1,
        forall|i: int|
            0 <= i < states.len() - 1 ==> (#[trigger] states[i]).asks() == Some(
                answers.asked(keep)[i],
            ),
{
    let n = states.len();
    assert(states[0].asks() is Some);
    assert(n > 1);
    assert(states[1].asks() is Some ==> n > 2);
    if n > 2 {
        assert(states[2].asks() is Some ==> n > 3);
    }
    if n > 3 {
        assert(states[3].asks() is Some ==> n > 4);
    }
    if n > 4 {
        assert(states[4].asks() is None);
        assert(n == 5);
    }
}

impl ConnectError {
    /// What is reported of the error, for a driver of this name.
    pub open spec fn message(self, driver: Seq<char>) -> Seq<char> {
        match self {
            ConnectError::NoMatching => "IOServiceMatching returned null"@,
            ConnectError::NoService => "IOServiceGetMatchingService found no '"@ + driver
                + "' service. Is the DEXT loaded? Check: sudo systemextensionsctl list"@,
            ConnectError::Refused(status) => crate::codes::call_failure_text(
                "IOServiceOpen"@,
                status,
            ),
        }
    }

    /// What is reported of the error, for a driver of this name.
    pub fn describe(&self, driver: &str) -> (s: String)
        ensures
            s@ == self.message(driver@),
    {
        match self {
            ConnectError::NoMatching => String::from_str("IOServiceMatching returned null"),
            ConnectError::NoService => {
                let mut s = String::from_str("IOServiceGetMatchingService found no '");
                s.append(driver);
                s.append("' service. Is the DEXT loaded? Check: sudo systemextensionsctl list");
                s
            },
            ConnectError::Refused(status) => call_failure("IOServiceOpen", *status),
        }
    }
}

/// What is reported of a surface that could not be created.
pub fn create_failure(bytes: usize) -> (s: String)
    ensures
        s@ == "IOSurfaceCreate failed for "@ + crate::text::numeral(bytes as nat, 10)
            + " bytes"@,
{
    let number = decimal(bytes as u64);
    let mut s = String::from_str("IOSurfaceCreate failed for ");
    s.append(number.as_str());
    s.append(" bytes");
    s
}

/// Where the examination of the driver's buffer is.
#[derive(Debug, Clone, Copy, PartialEq, Eq)]
pub enum Examination {
    /// Ask the driver for the size of its buffer.
    Info,
    /// Ask the driver for the segments of its buffer.
    Segments,
    /// Map the buffer.
    MapBuffer,
    /// Look at the mapped buffer: its regions, its pages, its speed.
    Examine { address: u64, size: u64 },
    /// Take the mapping off.
    Unmap { address: u64 },
    /// Nothing is left to do.
    Finished,
}

impl Examination {
    /// What comes after this stage, whether it succeeded or not; for every stage but mapping.
    pub open spec fn after_done(self) -> Examination {
        match self {
            Examination::Info => Examination::Segments,
            Examination::Segments => Examination::MapBuffer,
            Examination::MapBuffer => Examination::MapBuffer,
            Examination::Examine { address, .. } => Examination::Unmap { address },
            Examination::Unmap { .. } => Examination::Finished,
            Examination::Finished => Examination::Finished,
        }
    }

    /// What comes after mapping: only a buffer that was mapped is looked at.
    pub open spec fn after_mapping(status: i32, address: u64, size: u64) -> Examination {
        if status == KERN_SUCCESS {
            Examination::Examine { address, size }
        } else {
            Examination::Finished
        }
    }

    /// Goes on after a stage that is not mapping. The driver's refusal to tell its size or its
    /// segments does not end the examination.
    pub fn done(self) -> (after: Examination)
        requires
            !(self is MapBuffer),
        ensures
            after == self.after_done(),
    {
        match self {
            Examination::Info => Examination::Segments,
            Examination::Segments => Examination::MapBuffer,
            Examination::MapBuffer => Examination::MapBuffer,
            Examination::Examine { address, .. } => Examination::Unmap { address },
            Examination::Unmap { .. } => Examination::Finished,
            Examination::Finished => Examination::Finished,
        }
    }

    /// Goes on after the attempt to map the buffer.
    pub fn mapped(self, status: i32, address: u64, size: u64) -> (after: Examination)
        requires
            self is MapBuffer,
        ensures
            after == Examination::after_mapping(status, address, size),
    {
        if status == KERN_SUCCESS {
            Examination::Examine { address, size }
        } else {
            Examination::Finished
        }
    }
}

/// A buffer that was mapped is looked at and then unmapped, at its own address; one that was
/// not mapped is neither.
pub proof fn mapping_is_undone(status: i32, address: u64, size: u64)
    ensures
        Examination::Info.after_done().after_done() == Examination::MapBuffer,
        ({
            let next = Examination::after_mapping(status, address, size);
            if status == KERN_SUCCESS {
                &&& next == (Examination::Examine { address, size })
                &&& next.after_done() == (Examination::Unmap { address })
                &&& next.after_done().after_done() == Examination::Finished
            } else {
                next == Examination::Finished
            }
        }),
{
}

/// The bytes of one segment entry in the driver's answer.
pub const SEGMENT_ENTRY: usize = 16;

/// How many segments are shown one by one.
pub const SEGMENTS_SHOWN: usize = 16;

/// What the number of segments says of a buffer.
#[derive(Debug, Clone, Copy, PartialEq, Eq, Structural)]
pub enum Contiguity {
    /// There is no segment to judge by.
    Unknown,
    /// One segment: the buffer is in one piece.
    Contiguous,
    /// More segments: it is not.
    Fragmented,
}

/// What a driver's list of segments comes to.
#[derive(Debug, Clone, Copy, PartialEq, Eq, Structural)]
pub struct SegmentReport {
    /// How many segments there are.
    pub count: usize,
    /// How many of them are shown.
    pub shown: usize,
    /// How many are not.
    pub hidden: usize,
    pub contiguity: Contiguity,
}

/// Reads the length of the driver's answer: every whole entry is a segment, and the first
/// sixteen are shown.
pub fn segment_report(answer_bytes: usize) -> (report: SegmentReport)
    ensures
        report.count == answer_bytes / 16,
        report.shown == (if report.count <= 16 {
            report.count
        } else {
            16
        }),
        report.shown + report.hidden == report.count,
        report.contiguity == (if report.count == 0 {
            Contiguity::Unknown
        } else if report.count == 1 {
            Contiguity::Contiguous
        } else {
            Contiguity::Fragmented
        }),
{
    let count: usize = answer_bytes / SEGMENT_ENTRY;
    let shown: usize = if count <= SEGMENTS_SHOWN {
        count
    } else {
        SEGMENTS_SHOWN
    };
    let contiguity = if count == 1 {
        Contiguity::Contiguous
    } else if count > 1 {
        Contiguity::Fragmented
    } else {
        Contiguity::Unknown
    };
    SegmentReport { count, shown, hidden: count - shown, contiguity }
}

/// The most segments that a driver can answer with.
pub const MAX_SEGMENTS: usize = 32;

/// How many of the reported segments the answer holds.
pub fn segments_held(reported: u32) -> (held: usize)
    ensures
        held == (if reported <= 32 {
            reported as int
        } else {
            32
        }),
{
    if reported as usize <= MAX_SEGMENTS {
        reported as usize
    } else {
        MAX_SEGMENTS
    }
}

/// The bytes that a list of segments covers.
pub open spec fn covered(lengths: Seq<u64>) -> nat
    decreases lengths.len(),
{
    if lengths.len() == 0 {
        0
    } else {
        covered(lengths.drop_last()) + lengths.last() as nat
    }
}

/// Adds up the segments of a surface.
#[derive(Debug, Clone, Copy, PartialEq, Eq, Structural)]
pub struct Coverage {
    pub mapped: u64,
}

impl Coverage {
    /// No segment yet.
    pub fn new() -> (coverage: Coverage)
        ensures
            coverage.mapped == covered(Seq::empty()),
    {
        Coverage { mapped: 0 }
    }

    /// Takes the next segment, and tells how many pages it touches.
    pub fn add_segment(&mut self, length: u64) -> (pages: u64)
        requires
            old(self).mapped + length <= u64::MAX,
            length + 16383 <= u64::MAX,
        ensures
            final(self).mapped == old(self).mapped + length,
            pages == crate::pages::page_count(length as int, 16384),
            forall|lengths: Seq<u64>| #[trigger]
                covered(lengths) == old(self).mapped ==> covered(lengths.push(length))
                    == final(self).mapped,
    {
        self.mapped = self.mapped + length;
        proof {
            assert forall|lengths: Seq<u64>| #[trigger]
                covered(lengths) == old(self).mapped implies covered(lengths.push(length))
                == self.mapped by {
                assert(lengths.push(length).drop_last() =~= lengths);
            }
        }
        (length + 16383) / 16384
    }

    /// Whole pages that the segments make up together.
    pub fn pages(&self) -> (pages: u64)
        ensures
            pages == self.mapped / 16384,
    {
        self.mapped / 16384
    }

    /// Whether the segments cover a surface of `size` bytes.
    pub fn covers(&self, size: u64) -> (full: bool)
        ensures
            full == (self.mapped >= size),
    {
        self.mapped >= size
    }
}

/// What came of sending a surface through a port and looking it up again.
#[derive(Debug, Clone, Copy, PartialEq, Eq, Structural)]
pub enum RoundTrip {
    /// There was no port.
    NoPort,
    /// The port led to no surface.
    NotFound,
    /// The port led to a surface; `same` says whether it is the one that was sent.
    Found { same: bool },
}

/// Judges a round trip by the port, and by the ids of the surface that was sent and of the one
/// that was looked up.
pub fn round_trip(port: u32, sent: u32, looked_up: Option<u32>) -> (trip: RoundTrip)
    ensures
        trip == (if port == 0 {
            RoundTrip::NoPort
        } else {
            match looked_up {
                None => RoundTrip::NotFound,
                Some(id) => RoundTrip::Found { same: id == sent },
            }
        }),
{
    if port == 0 {
        return RoundTrip::NoPort;
    }
    match looked_up {
        None => RoundTrip::NotFound,
        Some(id) => RoundTrip::Found { same: id == sent },
    }
}

/// How far apart two addresses are.
pub fn address_gap(a: u64, b: u64) -> (gap: u64)
    ensures
        gap == (if a > b {
            a - b
        } else {
            b - a
        }),
{
    if a > b {
        a - b
    } else {
        b - a
    }
}

/// The path of a private framework's binary.
pub fn framework_path(name: &str) -> (path: String)
    ensures
        path@ == "/System/Library/PrivateFrameworks/"@ + name@ + ".framework/"@ + name@,
{
    let mut path = String::from_str("/System/Library/PrivateFrameworks/");
    path.append(name);
    path.append(".framework/");
    path.append(name);
    path
}

/// Whether every framework was loaded.
pub fn all_loaded(loaded: &[bool]) -> (all: bool)
    ensures
        all == (forall|i: int| 0 <= i < loaded@.len() ==> #[trigger] loaded@[i]),
{
    let mut i: usize = 0;
    while i < loaded.len()
        invariant
            i <= loaded@.len(),
            forall|j: int| 0 <= j < i ==> #[trigger] loaded@[j],
        decreases loaded@.len() - i,
    {
        if !loaded[i] {
            return false;
        }
        i += 1;
    }
    true
}

} // verus!
