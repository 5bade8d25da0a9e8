//! The life of a memory-mapped file, as a protocol.
//!
//! Mapping a file takes three calls to the operating system (open the file, ask for
//! its size, map it) and releasing it two (unmap, close). This module decides what
//! comes next: [`Mapping`] is what is held at some moment, [`MapEvent`] what the
//! operating system answered, and [`Mapping::step`] the next thing to ask of it. The
//! calls themselves are made by whoever drives the protocol.
//!
//! The protocol keeps three promises: a mapping is never held without its file;
//! whatever was acquired is released before an error is reported or the resource is
//! finished; and nothing is acquired or released twice.
use vstd::prelude::*;

verus! {

/// Why a file could not be mapped.
#[derive(Clone, Copy, Debug, PartialEq, Eq, Structural)]
pub enum MappingError {
    /// The file could not be opened for reading.
    OpenFailed,
    /// The file was opened, but its size could not be had.
    SizeQueryFailed,
    /// The file was opened and measured, but not mapped.
    MapFailed,
}

impl MappingError {
    /// The error in words.
    pub fn message(self) -> (text: &'static str)
        ensures
            self == MappingError::OpenFailed ==> text@ == "Failed to open file in readonly mode."@,
            self == MappingError::SizeQueryFailed ==> text@ == "Failed to get file size."@,
            self == MappingError::MapFailed ==> text@ == "Failed to map file."@,
    {
        match self {
            MappingError::OpenFailed => "Failed to open file in readonly mode.",
            MappingError::SizeQueryFailed => "Failed to get file size.",
            MappingError::MapFailed => "Failed to map file.",
        }
    }
}

/// What the operating system answered, or what the owner asked for.
#[derive(Clone, Copy, Debug, PartialEq, Eq, Structural)]
pub enum MapEvent {
    /// The owner asks for the file to be mapped.
    Requested,
    /// The file is open.
    Opened,
    /// The file could not be opened.
    OpenFailed,
    /// The file has `size` bytes.
    Sized { size: usize },
    /// The size could not be had.
    SizeFailed,
    /// The file is mapped.
    Mapped,
    /// The file could not be mapped, and nothing of a mapping is held.
    MapFailed,
    /// The file could not be mapped, but part of a mapping is held and has to go.
    MapUnusable,
    /// The owner gives the mapping up.
    Dropped,
    /// The mapping is gone.
    Unmapped,
    /// The file is closed.
    Closed,
}

/// What is to be done next.
#[derive(Clone, Copy, Debug, PartialEq, Eq, Structural)]
pub enum MapAction {
    /// Open the file for reading.
    OpenFile,
    /// Ask for the size of the open file.
    QuerySize,
    /// Map `size` bytes of the open file, read-only and shared.
    MapFile { size: usize },
    /// The mapping stands: hand out its `size` bytes.
    Serve { size: usize },
    /// Unmap the `size` bytes.
    UnmapFile { size: usize },
    /// Close the file.
    CloseFile,
    /// Everything is released: tell the owner that mapping failed.
    Report { error: MappingError },
    /// Everything is released: the resource is finished.
    Finish,
    /// The event does not belong here: do nothing.
    Refuse,
}

/// What is held of the operating system, and what it was last asked.
#[derive(Clone, Copy, Debug, PartialEq, Eq, Structural)]
pub enum Mapping {
    /// Nothing is held and nothing was asked.
    Idle,
    /// Asked to open the file.
    Opening,
    /// The file is held; asked for its size.
    Sizing,
    /// The file is held; asked to map its `size` bytes.
    Placing { size: usize },
    /// The file and the mapping of its `size` bytes are held.
    Ready { size: usize },
    /// The file and the mapping, or what there is of it, are held; asked to unmap,
    /// after `failure` if there was one.
    Unmapping { size: usize, failure: Option<MappingError> },
    /// The file is held; asked to close it, after `failure` if there was one.
    Closing { failure: Option<MappingError> },
    /// Nothing is held any more: the mapping was used and given up.
    Released,
    /// Nothing is held: mapping failed.
    Failed { error: MappingError },
}

impl Mapping {
    /// The open file is held.
    pub open spec fn holds_file(self) -> bool {
        self is Sizing || self is Placing || self is Ready || self is Unmapping || self is Closing
    }

    /// The mapping is held.
    pub open spec fn holds_mapping(self) -> bool {
        self is Ready || self is Unmapping
    }

    /// Nothing more will happen.
    pub open spec fn is_over(self) -> bool {
        self is Released || self is Failed
    }

    /// How far the protocol has come. It only ever grows.
    pub open spec fn progress(self) -> nat {
        match self {
            Mapping::Idle => 0,
            Mapping::Opening => 1,
            Mapping::Sizing => 2,
            Mapping::Placing { .. } => 3,
            Mapping::Ready { .. } => 4,
            Mapping::Unmapping { .. } => 5,
            Mapping::Closing { .. } => 6,
            Mapping::Released => 7,
            Mapping::Failed { .. } => 7,
        }
    }

    /// The protocol: the state after `event` and what is to be done then.
    ///
    /// Each answer of the operating system leads to the next request, a failure to
    /// the release of what is held, the mapping before the file, and then to the
    /// report of the step that failed. An event that is not the answer awaited changes
    /// nothing.
    pub open spec fn transition(self, event: MapEvent) -> (Mapping, MapAction) {
        match (self, event) {
            (Mapping::Idle, MapEvent::Requested) => (Mapping::Opening, MapAction::OpenFile),
            (Mapping::Opening, MapEvent::Opened) => (Mapping::Sizing, MapAction::QuerySize),
            (Mapping::Opening, MapEvent::OpenFailed) => (
                Mapping::Failed { error: MappingError::OpenFailed },
                MapAction::Report { error: MappingError::OpenFailed },
            ),
            (Mapping::Sizing, MapEvent::Sized { size }) => (
                Mapping::Placing { size },
                MapAction::MapFile { size },
            ),
            (Mapping::Sizing, MapEvent::SizeFailed) => (
                Mapping::Closing { failure: Some(MappingError::SizeQueryFailed) },
                MapAction::CloseFile,
            ),
            (Mapping::Placing { size }, MapEvent::Mapped) => (
                Mapping::Ready { size },
                MapAction::Serve { size },
            ),
            (Mapping::Placing { .. }, MapEvent::MapFailed) => (
                Mapping::Closing { failure: Some(MappingError::MapFailed) },
                MapAction::CloseFile,
            ),
            (Mapping::Placing { size }, MapEvent::MapUnusable) => (
                Mapping::Unmapping { size, failure: Some(MappingError::MapFailed) },
                MapAction::UnmapFile { size },
            ),
            (Mapping::Ready { size }, MapEvent::Dropped) => (
                Mapping::Unmapping { size, failure: None },
                MapAction::UnmapFile { size },
            ),
            (Mapping::Unmapping { failure, .. }, MapEvent::Unmapped) => (
                Mapping::Closing { failure },
                MapAction::CloseFile,
            ),
            (Mapping::Closing { failure: Some(error) }, MapEvent::Closed) => (
                Mapping::Failed { error },
                MapAction::Report { error },
            ),
            (Mapping::Closing { failure: None }, MapEvent::Closed) => (
                Mapping::Released,
                MapAction::Finish,
            ),
            _ => (self, MapAction::Refuse),
        }
    }

    /// A resource of which nothing is held yet.
    pub fn new() -> (mapping: Mapping)
        ensures
            mapping == Mapping::Idle,
    {
        Mapping::Idle
    }

    /// Takes `event` in: moves to the next state and says what is to be done.
    pub fn step(&mut self, event: MapEvent) -> (action: MapAction)
        ensures
            (*final(self), action) == old(self).transition(event),
    {
        let (next, action) = match (*self, event) {
            (Mapping::Idle, MapEvent::Requested) => (Mapping::Opening, MapAction::OpenFile),
            (Mapping::Opening, MapEvent::Opened) => (Mapping::Sizing, MapAction::QuerySize),
            (Mapping::Opening, MapEvent::OpenFailed) => (
                Mapping::Failed { error: MappingError::OpenFailed },
                MapAction::Report { error: MappingError::OpenFailed },
            ),
            (Mapping::Sizing, MapEvent::Sized { size }) => (
                Mapping::Placing { size },
                MapAction::MapFile { size },
            ),
            (Mapping::Sizing, MapEvent::SizeFailed) => (
                Mapping::Closing { failure: Some(MappingError::SizeQueryFailed) },
                MapAction::CloseFile,
            ),
            (Mapping::Placing { size }, MapEvent::Mapped) => (
                Mapping::Ready { size },
                MapAction::Serve { size },
            ),
            (Mapping::Placing { .. }, MapEvent::MapFailed) => (
                Mapping::Closing { failure: Some(MappingError::MapFailed) },
                MapAction::CloseFile,
            ),
            (Mapping::Placing { size }, MapEvent::MapUnusable) => (
                Mapping::Unmapping { size, failure: Some(MappingError::MapFailed) },
                MapAction::UnmapFile { size },
            ),
            (Mapping::Ready { size }, MapEvent::Dropped) => (
                Mapping::Unmapping { size, failure: None },
                MapAction::UnmapFile { size },
            ),
            (Mapping::Unmapping { failure, .. }, MapEvent::Unmapped) => (
                Mapping::Closing { failure },
                MapAction::CloseFile,
            ),
            (Mapping::Closing { failure: Some(error) }, MapEvent::Closed) => (
                Mapping::Failed { error },
                MapAction::Report { error },
            ),
            (Mapping::Closing { failure: None }, MapEvent::Closed) => (
                Mapping::Released,
                MapAction::Finish,
            ),
            (state, _) => (state, MapAction::Refuse),
        };
        *self = next;
        action
    }

    /// The number of bytes mapped: the size of the file while the mapping stands, and
    /// nothing before and after.
    pub fn size(&self) -> (size: Option<usize>)
        ensures
            size == match *self {
                Mapping::Ready { size } => Some(size),
                _ => None,
            },
    {
        match *self {
            Mapping::Ready { size } => Some(size),
            _ => None,
        }
    }
}

/// A mapping is never held without its file, before a step and after it.
pub proof fn lemma_mapping_needs_file(state: Mapping, event: MapEvent)
    ensures
        state.holds_mapping() ==> state.holds_file(),
        state.transition(event).0.holds_mapping() ==> state.transition(event).0.holds_file(),
{
}

/// What is held changes only by what the operating system did: the file comes with
/// `Opened` and goes with `Closed`, the mapping comes with `Mapped` (or in part with
/// `MapUnusable`) and goes with `Unmapped`. And the mapping goes first: the file is
/// closed only when no mapping is held.
pub proof fn lemma_held_follows_events(state: Mapping, event: MapEvent)
    ensures
        ({
            let next = state.transition(event).0;
            &&& !state.holds_file() && next.holds_file() ==> event == MapEvent::Opened
            &&& state.holds_file() && !next.holds_file() ==> event == MapEvent::Closed
                && !state.holds_mapping()
            &&& !state.holds_mapping() && next.holds_mapping() ==> event == MapEvent::Mapped
                || event == MapEvent::MapUnusable
            &&& state.holds_mapping() && !next.holds_mapping() ==> event == MapEvent::Unmapped
        }),
{
}

/// Every request is awaited: after `CloseFile` the protocol waits for `Closed`,
/// after `UnmapFile` for `Unmapped`, and so on; and what it then holds is what the
/// request needs.
pub proof fn lemma_requests_awaited(state: Mapping, event: MapEvent)
    ensures
        ({
            let (next, action) = state.transition(event);
            &&& action == MapAction::OpenFile ==> next == Mapping::Opening
            &&& action == MapAction::QuerySize ==> next == Mapping::Sizing
            &&& action matches MapAction::MapFile { size } ==> next == (Mapping::Placing { size })
            &&& action matches MapAction::Serve { size } ==> next == (Mapping::Ready { size })
            &&& action matches MapAction::UnmapFile { size } ==> next is Unmapping
                && next->Unmapping_size == size && (state == (Mapping::Ready { size }) || state
                == (Mapping::Placing { size }))
            &&& action == MapAction::CloseFile ==> next is Closing && state.holds_file()
        }),
{
}

/// An exit releases everything: when a failure is reported or the resource is
/// finished, neither the file nor the mapping is held, and nothing more will happen.
/// And a failure is reported as the step that failed.
pub proof fn lemma_exits_release(state: Mapping, event: MapEvent)
    ensures
        ({
            let (next, action) = state.transition(event);
            &&& (action is Report || action == MapAction::Finish) ==> next.is_over()
            &&& next.is_over() ==> !next.holds_file() && !next.holds_mapping()
            &&& action matches MapAction::Report { error } ==> next == (Mapping::Failed { error })
            &&& event == MapEvent::OpenFailed && state == Mapping::Opening ==> action == (
            MapAction::Report { error: MappingError::OpenFailed })
            &&& event == MapEvent::SizeFailed && state == Mapping::Sizing ==> next == (
            Mapping::Closing { failure: Some(MappingError::SizeQueryFailed) })
            &&& event == MapEvent::MapFailed && state is Placing ==> next == (Mapping::Closing {
                failure: Some(MappingError::MapFailed),
            })
            &&& event == MapEvent::MapUnusable && state is Placing ==> next is Unmapping
                && next->Unmapping_failure == Some(MappingError::MapFailed)
            &&& state is Unmapping && event == MapEvent::Unmapped ==> next == (Mapping::Closing {
                failure: state->Unmapping_failure,
            })
        }),
{
}

/// Nothing happens twice: a step either refuses the event and changes nothing, or
/// moves the protocol forward; and once it is over every event is refused.
pub proof fn lemma_only_forward(state: Mapping, event: MapEvent)
    ensures
        ({
            let (next, action) = state.transition(event);
            &&& action == MapAction::Refuse ==> next == state
            &&& action != MapAction::Refuse ==> state.progress() < next.progress()
            &&& state.is_over() ==> action == MapAction::Refuse
        }),
{
}

/// The mapping is as long as the file was measured to be: once the size is had and
/// the file is mapped, `size` bytes are served, and that is what [`Mapping::size`]
/// then says.
pub proof fn lemma_serves_measured_size(size: usize)
    ensures
        Mapping::Sizing.transition(MapEvent::Sized { size }) == (
            Mapping::Placing { size },
            MapAction::MapFile { size },
        ),
        (Mapping::Placing { size }).transition(MapEvent::Mapped) == (
            Mapping::Ready { size },
            MapAction::Serve { size },
        ),
{
}

} // verus!
