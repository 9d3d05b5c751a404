//! The upload handler: what one request to store a chunk does, step by step.
//!
//! The handler neither waits nor reads nor writes. At each moment it names
//! one [`Action`] that it needs done, and the caller, who has done it, hands
//! back what happened as an [`Event`]. A request goes from `Received` through
//! `KeyChecked` and `ChunkExtracted` to `Responded`, once the chunk is
//! persisted; it leaves that road to `Rejected` where the key is not
//! available, and to `Failed` where a step fails.

use vstd::prelude::*;
use crate::error::UploadError;
use crate::extract::{absorbed, blank_chunk, refused, Chunk, ChunkView, Part, PartView};
use crate::layout::{chunk_location, chunk_path, container_location, container_path, StoreConfig};

verus! {

/// How far a request has come.
#[derive(Clone, Copy, Debug, PartialEq, Eq, Structural)]
pub enum Phase {
    /// The request has arrived; the registry has not answered yet.
    Received,
    /// The key is available; the parts of the body are being read.
    KeyChecked,
    /// The body is read to its end; the chunk's container is being created.
    ChunkExtracted,
    /// The container exists; the chunk is being written.
    ContainerReady,
    /// The chunk is persisted and the request is answered with success.
    Responded,
    /// The key is not available and the request is answered with a refusal.
    Rejected,
    /// A step failed; nothing more is done for this request.
    Failed(UploadError),
}

/// The answer to a request: a status and a body of plain text.
#[derive(Clone, Debug, PartialEq, Eq)]
pub struct Response {
    pub status: u16,
    pub body: String,
}

/// An answer as a mathematical value.
pub struct ResponseView {
    pub status: u16,
    pub body: Seq<char>,
}

impl View for Response {
    type V = ResponseView;

    open spec fn view(&self) -> ResponseView {
        ResponseView { status: self.status, body: self.body@ }
    }
}

/// The answer to a request whose key is not available.
pub open spec fn rejection() -> ResponseView {
    ResponseView { status: 400, body: "file_key is not available"@ }
}

/// The answer to a request whose chunk is persisted.
pub open spec fn confirmation() -> ResponseView {
    ResponseView { status: 200, body: "chunk upload success"@ }
}

/// What happened when the caller did what the handler asked for.
#[derive(Clone, Debug, PartialEq, Eq)]
pub enum Event {
    /// The registry says whether the key is available to this caller now.
    Availability(bool),
    /// The registry could not say.
    RegistryFailed,
    /// The body had one more part, and this is what was read of it.
    Part(Part),
    /// The body has no more parts.
    EndOfParts,
    /// The storage did what was asked.
    Stored,
    /// The storage failed to do what was asked.
    StoreFailed,
}

/// An event as a mathematical value.
pub enum EventView {
    Availability(bool),
    RegistryFailed,
    Part(PartView),
    EndOfParts,
    Stored,
    StoreFailed,
}

impl View for Event {
    type V = EventView;

    open spec fn view(&self) -> EventView {
        match self {
            Event::Availability(available) => EventView::Availability(*available),
            Event::RegistryFailed => EventView::RegistryFailed,
            Event::Part(part) => EventView::Part(part@),
            Event::EndOfParts => EventView::EndOfParts,
            Event::Stored => EventView::Stored,
            Event::StoreFailed => EventView::StoreFailed,
        }
    }
}

/// What the handler needs done next.
#[derive(Clone, Debug, PartialEq, Eq)]
pub enum Action {
    /// Ask the registry whether `key` is available to this caller.
    CheckKey { key: String },
    /// Read the next part of the body.
    NextPart,
    /// Make sure that the container at `path` exists, with all that leads to it.
    CreateContainer { path: String },
    /// Write `payload` to the file at `path`, in place of what it held.
    WriteChunk { path: String, payload: Vec<u8> },
    /// Send this answer; the request is done.
    Respond(Response),
    /// Report this failure; the request is done.
    Fail(UploadError),
}

/// An action as a mathematical value.
pub enum ActionView {
    CheckKey { key: Seq<char> },
    NextPart,
    CreateContainer { path: Seq<char> },
    WriteChunk { path: Seq<char>, payload: Seq<u8> },
    Respond(ResponseView),
    Fail(UploadError),
}

impl View for Action {
    type V = ActionView;

    open spec fn view(&self) -> ActionView {
        match self {
            Action::CheckKey { key } => ActionView::CheckKey { key: key@ },
            Action::NextPart => ActionView::NextPart,
            Action::CreateContainer { path } => ActionView::CreateContainer { path: path@ },
            Action::WriteChunk { path, payload } => ActionView::WriteChunk {
                path: path@,
                payload: payload@,
            },
            Action::Respond(response) => ActionView::Respond(response@),
            Action::Fail(error) => ActionView::Fail(*error),
        }
    }
}

/// The state of one request as a mathematical value.
pub struct UploadView {
    pub phase: Phase,
    pub base: Seq<char>,
    pub key: Seq<char>,
    pub chunk: ChunkView,
}

/// The state of a request that has just arrived.
pub open spec fn received(key: Seq<char>, base: Seq<char>) -> UploadView {
    UploadView { phase: Phase::Received, base, key, chunk: blank_chunk() }
}

/// Whether nothing more happens to a request in this phase.
pub open spec fn is_terminal(phase: Phase) -> bool {
    phase is Responded || phase is Rejected || phase is Failed
}

/// The state that follows `upload` when `event` comes in. An event that
/// does not answer the action that `upload` is waiting for changes nothing.
pub open spec fn next(upload: UploadView, event: EventView) -> UploadView {
    match upload.phase {
        Phase::Received => match event {
            EventView::Availability(true) => UploadView { phase: Phase::KeyChecked, ..upload },
            EventView::Availability(false) => UploadView { phase: Phase::Rejected, ..upload },
            EventView::RegistryFailed => UploadView {
                phase: Phase::Failed(UploadError::RegistryError),
                ..upload
            },
            _ => upload,
        },
        Phase::KeyChecked => match event {
            EventView::Part(part) => if refused(part) {
                UploadView { phase: Phase::Failed(UploadError::MalformedChunkIndex), ..upload }
            } else {
                UploadView { chunk: absorbed(upload.chunk, part), ..upload }
            },
            EventView::EndOfParts => UploadView { phase: Phase::ChunkExtracted, ..upload },
            _ => upload,
        },
        Phase::ChunkExtracted => match event {
            EventView::Stored => UploadView { phase: Phase::ContainerReady, ..upload },
            EventView::StoreFailed => UploadView {
                phase: Phase::Failed(UploadError::StorageIOError),
                ..upload
            },
            _ => upload,
        },
        Phase::ContainerReady => match event {
            EventView::Stored => UploadView { phase: Phase::Responded, ..upload },
            EventView::StoreFailed => UploadView {
                phase: Phase::Failed(UploadError::StorageIOError),
                ..upload
            },
            _ => upload,
        },
        _ => upload,
    }
}

/// The action that `upload` is waiting for.
pub open spec fn pending(upload: UploadView) -> ActionView {
    match upload.phase {
        Phase::Received => ActionView::CheckKey { key: upload.key },
        Phase::KeyChecked => ActionView::NextPart,
        Phase::ChunkExtracted => ActionView::CreateContainer {
            path: container_location(upload.base, upload.key),
        },
        Phase::ContainerReady => ActionView::WriteChunk {
            path: chunk_location(upload.base, upload.key, upload.chunk.index),
            payload: upload.chunk.payload,
        },
        Phase::Responded => ActionView::Respond(confirmation()),
        Phase::Rejected => ActionView::Respond(rejection()),
        Phase::Failed(error) => ActionView::Fail(error),
    }
}

/// One request to store a chunk, as far as it has come.
#[derive(Clone, Debug)]
pub struct Upload {
    phase: Phase,
    base: String,
    key: String,
    chunk: Chunk,
}

impl View for Upload {
    type V = UploadView;

    closed spec fn view(&self) -> UploadView {
        UploadView { phase: self.phase, base: self.base@, key: self.key@, chunk: self.chunk@ }
    }
}

/// Takes up a request to store a chunk under `file_key`.
pub fn write(file_key: String, config: &StoreConfig) -> (upload: Upload)
    ensures
        upload@ == received(file_key@, config.base()),
{
    Upload {
        phase: Phase::Received,
        base: String::from_str(config.base_path()),
        key: file_key,
        chunk: Chunk::new(),
    }
}

impl Upload {
    /// How far the request has come.
    pub fn phase(&self) -> (phase: Phase)
        ensures
            phase == self@.phase,
    {
        self.phase
    }

    /// Whether the request is done: answered, rejected or failed.
    pub fn is_done(&self) -> (done: bool)
        ensures
            done == is_terminal(self@.phase),
    {
        match self.phase {
            Phase::Responded => true,
            Phase::Rejected => true,
            Phase::Failed(_) => true,
            _ => false,
        }
    }

    /// The key that the request names.
    pub fn file_key(&self) -> (key: &str)
        ensures
            key@ == self@.key,
    {
        self.key.as_str()
    }

    /// The chunk as far as the body has been read.
    pub fn chunk(&self) -> (chunk: &Chunk)
        ensures
            chunk@ == self@.chunk,
    {
        &self.chunk
    }

    /// What the handler needs done next.
    pub fn action(&self) -> (action: Action)
        ensures
            action@ == pending(self@),
    {
        match self.phase {
            Phase::Received => Action::CheckKey { key: self.key.clone() },
            Phase::KeyChecked => Action::NextPart,
            Phase::ChunkExtracted => Action::CreateContainer {
                path: container_path(self.base.as_str(), self.key.as_str()),
            },
            Phase::ContainerReady => {
                let payload = self.chunk.payload.clone();
                assert(payload@ =~= self.chunk.payload@);
                Action::WriteChunk {
                    path: chunk_path(self.base.as_str(), self.key.as_str(), self.chunk.index),
                    payload,
                }
            },
            Phase::Responded => Action::Respond(
                Response { status: 200, body: String::from_str("chunk upload success") },
            ),
            Phase::Rejected => Action::Respond(
                Response { status: 400, body: String::from_str("file_key is not available") },
            ),
            Phase::Failed(error) => Action::Fail(error),
        }
    }

    /// Takes in what happened and moves on.
    pub fn step(self, event: Event) -> (upload: Upload)
        ensures
            upload@ == next(self@, event@),
    {
        let Upload { phase, base, key, chunk } = self;
        match phase {
            Phase::Received => match event {
                Event::Availability(true) => Upload { phase: Phase::KeyChecked, base, key, chunk },
                Event::Availability(false) => Upload { phase: Phase::Rejected, base, key, chunk },
                Event::RegistryFailed => Upload {
                    phase: Phase::Failed(UploadError::RegistryError),
                    base,
                    key,
                    chunk,
                },
                _ => Upload { phase, base, key, chunk },
            },
            Phase::KeyChecked => match event {
                Event::Part(part) => {
                    let mut chunk = chunk;
                    match chunk.absorb(part) {
                        Ok(()) => Upload { phase, base, key, chunk },
                        Err(error) => Upload { phase: Phase::Failed(error), base, key, chunk },
                    }
                },
                Event::EndOfParts => Upload { phase: Phase::ChunkExtracted, base, key, chunk },
                _ => Upload { phase, base, key, chunk },
            },
            Phase::ChunkExtracted => match event {
                Event::Stored => Upload { phase: Phase::ContainerReady, base, key, chunk },
                Event::StoreFailed => Upload {
                    phase: Phase::Failed(UploadError::StorageIOError),
                    base,
                    key,
                    chunk,
                },
                _ => Upload { phase, base, key, chunk },
            },
            Phase::ContainerReady => match event {
                Event::Stored => Upload { phase: Phase::Responded, base, key, chunk },
                Event::StoreFailed => Upload {
                    phase: Phase::Failed(UploadError::StorageIOError),
                    base,
                    key,
                    chunk,
                },
                _ => Upload { phase, base, key, chunk },
            },
            _ => Upload { phase, base, key, chunk },
        }
    }
}

} // verus!
