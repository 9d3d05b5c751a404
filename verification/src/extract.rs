//! The chunk extractor: from the parts of a multipart body to the chunk
//! that the body carries.

use vstd::prelude::*;
use crate::decimal::{parse_chunk_index, parsed_index};
use crate::error::UploadError;

verus! {

/// What a part of the body is to the extractor, which goes by the part's name.
#[derive(Clone, Copy, Debug, PartialEq, Eq, Structural)]
pub enum PartKind {
    /// The part carries the chunk's index as text.
    Index,
    /// The part carries the chunk's bytes.
    Payload,
    /// The part means nothing to the extractor and is passed over.
    Other,
}

/// The kind of the part that is named `name`.
pub open spec fn part_kind(name: Seq<char>) -> PartKind {
    if name == "chunkCount"@ {
        PartKind::Index
    } else if name == "fileData"@ {
        PartKind::Payload
    } else {
        PartKind::Other
    }
}

/// Whether two texts hold the same characters.
fn same_text(a: &str, b: &str) -> (same: bool)
    ensures
        same == (a@ == b@),
{
    let left = String::from_str(a);
    let right = String::from_str(b);
    left == right
}

/// Tells by a part's name how the part is to be read.
pub fn classify_part(name: &str) -> (kind: PartKind)
    ensures
        kind == part_kind(name@),
{
    if same_text(name, "chunkCount") {
        PartKind::Index
    } else if same_text(name, "fileData") {
        PartKind::Payload
    } else {
        PartKind::Other
    }
}

/// One part of the body as it was read: the text of an index part, the
/// bytes of a payload part, or a part that was passed over.
#[derive(Clone, Debug, PartialEq, Eq)]
pub enum Part {
    Index(String),
    Payload(Vec<u8>),
    Other,
}

/// A part as a mathematical value.
pub enum PartView {
    Index(Seq<char>),
    Payload(Seq<u8>),
    Other,
}

impl View for Part {
    type V = PartView;

    open spec fn view(&self) -> PartView {
        match self {
            Part::Index(text) => PartView::Index(text@),
            Part::Payload(bytes) => PartView::Payload(bytes@),
            Part::Other => PartView::Other,
        }
    }
}

/// One piece of an upload: its place among the pieces, and its bytes.
#[derive(Clone, Debug, PartialEq, Eq)]
pub struct Chunk {
    pub index: u32,
    pub payload: Vec<u8>,
}

/// A chunk as a mathematical value.
pub struct ChunkView {
    pub index: u32,
    pub payload: Seq<u8>,
}

impl View for Chunk {
    type V = ChunkView;

    open spec fn view(&self) -> ChunkView {
        ChunkView { index: self.index, payload: self.payload@ }
    }
}

/// The chunk of a body without parts: index zero and no bytes.
pub open spec fn blank_chunk() -> ChunkView {
    ChunkView { index: 0, payload: Seq::<u8>::empty() }
}

/// Whether the text of `part` is refused: it is an index part and its text
/// denotes no index.
pub open spec fn refused(part: PartView) -> bool {
    part matches PartView::Index(text) && parsed_index(text) is None
}

/// What a chunk becomes by one more part, where the part is not refused: an
/// index part sets the index, a payload part replaces the bytes, any other
/// part changes nothing.
pub open spec fn absorbed(chunk: ChunkView, part: PartView) -> ChunkView {
    match part {
        PartView::Index(text) => ChunkView { index: parsed_index(text).unwrap(), ..chunk },
        PartView::Payload(bytes) => ChunkView { payload: bytes, ..chunk },
        PartView::Other => chunk,
    }
}

/// Whether some part of `parts` is refused.
pub open spec fn any_refused(parts: Seq<PartView>) -> bool {
    exists|i: int| 0 <= i < parts.len() && refused(#[trigger] parts[i])
}

/// The chunk that `parts`, none of them refused, carry: the index of the last
/// index part, or zero where there is none; the bytes of the last payload
/// part, or no bytes where there is none.
pub open spec fn carried(parts: Seq<PartView>) -> ChunkView
    decreases parts.len(),
{
    if parts.len() == 0 {
        blank_chunk()
    } else {
        absorbed(carried(parts.drop_last()), parts.last())
    }
}

/// What the extractor makes of a body: the chunk it carries, or a failure
/// where one of its index parts is refused.
pub open spec fn extracted(parts: Seq<PartView>) -> Result<ChunkView, UploadError> {
    if any_refused(parts) {
        Err(UploadError::MalformedChunkIndex)
    } else {
        Ok(carried(parts))
    }
}

/// The views of a sequence of parts.
pub open spec fn part_views(parts: Seq<Part>) -> Seq<PartView> {
    parts.map_values(|p: Part| p@)
}

impl Chunk {
    /// The chunk of a body of which no part has been read yet.
    pub fn new() -> (chunk: Chunk)
        ensures
            chunk@ == blank_chunk(),
    {
        Chunk { index: 0, payload: Vec::new() }
    }

    /// Takes one more part into the chunk, or fails where the part is
    /// refused and leaves the chunk as it was.
    pub fn absorb(&mut self, part: Part) -> (outcome: Result<(), UploadError>)
        ensures
            match outcome {
                Ok(()) => !refused(part@) && final(self)@ == absorbed(old(self)@, part@),
                Err(e) => refused(part@) && e == UploadError::MalformedChunkIndex && final(self)@
                    == old(self)@,
            },
    {
        match part {
            Part::Index(text) => match parse_chunk_index(text.as_str()) {
                Ok(index) => {
                    self.index = index;
                    Ok(())
                },
                Err(e) => Err(e),
            },
            Part::Payload(bytes) => {
                self.payload = bytes;
                Ok(())
            },
            Part::Other => Ok(()),
        }
    }
}

/// Extracts the chunk from the parts of a body, taken in their order.
pub fn extract_chunk(parts: Vec<Part>) -> (outcome: Result<Chunk, UploadError>)
    ensures
        match outcome {
            Ok(chunk) => extracted(part_views(parts@)) == Ok::<ChunkView, UploadError>(chunk@),
            Err(e) => extracted(part_views(parts@)) == Err::<ChunkView, UploadError>(e),
        },
{
    let ghost items = parts@;
    let ghost all = part_views(items);
    let mut chunk = Chunk::new();
    assert(all.take(0) =~= Seq::<PartView>::empty());
    for part in it: parts
        invariant
            it.seq() == items,
            all == part_views(items),
            !any_refused(all.take(it.index())),
            chunk@ == carried(all.take(it.index())),
    {
        let ghost done = it.index();
        assert(part == items[done]);
        assert(all[done] == part@);
        assert(all.take(done + 1).drop_last() =~= all.take(done));
        assert(all.take(done + 1).last() == part@);
        match chunk.absorb(part) {
            Ok(()) => {
                assert forall|i: int| 0 <= i < done + 1 implies !refused(
                    #[trigger] all.take(done + 1)[i],
                ) by {
                    if i < done {
                        assert(all.take(done)[i] == all.take(done + 1)[i]);
                    }
                }
            },
            Err(e) => {
                assert(refused(all[done]));
                return Err(e);
            },
        }
    }
    assert(all.take(items.len() as int) =~= all);
    Ok(chunk)
}

/// A body without an index part carries index zero, and is not refused.
pub proof fn lemma_missing_index_is_zero(parts: Seq<PartView>)
    requires
        forall|i: int| 0 <= i < parts.len() ==> !(#[trigger] parts[i] is Index),
    ensures
        extracted(parts) is Ok,
        carried(parts).index == 0,
    decreases parts.len(),
{
    if parts.len() > 0 {
        let front = parts.drop_last();
        assert forall|i: int| 0 <= i < front.len() implies !(#[trigger] front[i] is Index) by {
            assert(front[i] == parts[i]);
        }
        lemma_missing_index_is_zero(front);
        assert(!(parts[parts.len() - 1] is Index));
    }
}

/// A body without a payload part carries no bytes.
pub proof fn lemma_missing_payload_is_empty(parts: Seq<PartView>)
    requires
        forall|i: int| 0 <= i < parts.len() ==> !(#[trigger] parts[i] is Payload),
    ensures
        carried(parts).payload == Seq::<u8>::empty(),
    decreases parts.len(),
{
    if parts.len() > 0 {
        let front = parts.drop_last();
        assert forall|i: int| 0 <= i < front.len() implies !(#[trigger] front[i] is Payload) by {
            assert(front[i] == parts[i]);
        }
        lemma_missing_payload_is_empty(front);
        assert(!(parts[parts.len() - 1] is Payload));
    }
}

/// Of several index parts the last one counts, and of several payload
/// parts the last one; parts of other names change nothing.
pub proof fn lemma_last_part_counts(parts: Seq<PartView>, part: PartView)
    requires
        !refused(part),
    ensures
        part matches PartView::Index(text) ==> carried(parts.push(part)).index == parsed_index(
            text,
        ).unwrap() && carried(parts.push(part)).payload == carried(parts).payload,
        part matches PartView::Payload(bytes) ==> carried(parts.push(part)).payload == bytes
            && carried(parts.push(part)).index == carried(parts).index,
        part is Other ==> carried(parts.push(part)) == carried(parts),
{
    assert(parts.push(part).drop_last() =~= parts);
}

/// A body is refused as soon as the text of one of its index parts denotes
/// no index, whatever its other parts hold.
pub proof fn lemma_malformed_index_is_refused(parts: Seq<PartView>, at: int)
    requires
        0 <= at < parts.len(),
        parts[at] matches PartView::Index(text) && parsed_index(text) is None,
    ensures
        extracted(parts) == Err::<ChunkView, UploadError>(UploadError::MalformedChunkIndex),
{
    assert(refused(parts[at]));
}

} // verus!
