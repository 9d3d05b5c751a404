//! Whole requests: what the handler asks for and what the storage holds
//! when a request has run through a sequence of events.

use vstd::prelude::*;
use crate::error::UploadError;
use crate::extract::{any_refused, carried, refused, PartView};
use crate::handler::{
    confirmation, is_terminal, next, pending, received, rejection, ActionView, EventView, Phase,
    UploadView,
};
use crate::storage::{
    lemma_distinct_chunks_are_independent, lemma_later_chunk_replaces_earlier,
    lemma_persisting_twice_changes_nothing, performed, stored_payload, touches_storage,
    with_chunk, with_container, Storage,
};

verus! {

/// The state of a request after `events` have come in, one after the other.
pub open spec fn run(upload: UploadView, events: Seq<EventView>) -> UploadView
    decreases events.len(),
{
    if events.len() == 0 {
        upload
    } else {
        next(run(upload, events.drop_last()), events.last())
    }
}

/// The storage after `events` have come in: each time the storage reports
/// that it did what was asked, the action that was pending then is performed.
/// An action that the storage reports as failed counts as not performed;
/// what such an action may have left behind is not told here.
pub open spec fn storage_after(upload: UploadView, events: Seq<EventView>, before: Storage)
    -> Storage
    decreases events.len(),
{
    if events.len() == 0 {
        before
    } else {
        let so_far = storage_after(upload, events.drop_last(), before);
        if events.last() is Stored {
            performed(pending(run(upload, events.drop_last())), so_far)
        } else {
            so_far
        }
    }
}

/// Whether a request in this phase has not come to the storage: it is on
/// its way there, or it ended before.
pub open spec fn short_of_storage(phase: Phase) -> bool {
    phase is Received || phase is KeyChecked || phase is Rejected || phase == Phase::Failed(
        UploadError::RegistryError,
    ) || phase == Phase::Failed(UploadError::MalformedChunkIndex)
}

/// The events of a request in which nothing goes wrong around the handler:
/// the key is available, the body yields `parts`, and the storage does
/// twice what it is asked.
pub open spec fn smooth_exchange(parts: Seq<PartView>) -> Seq<EventView> {
    seq![EventView::Availability(true)] + parts.map_values(|part: PartView| EventView::Part(part))
        + seq![EventView::EndOfParts, EventView::Stored, EventView::Stored]
}

/// After a single event the request is in the state that follows.
pub proof fn lemma_run_one(upload: UploadView, event: EventView)
    ensures
        run(upload, seq![event]) == next(upload, event),
{
    let one = seq![event];
    assert(one.drop_last() =~= Seq::<EventView>::empty());
    assert(run(upload, one.drop_last()) == upload);
}

/// After a single event the storage has performed the action that was
/// pending, where the event says that the storage did what was asked.
pub proof fn lemma_storage_after_one(upload: UploadView, event: EventView, before: Storage)
    ensures
        storage_after(upload, seq![event], before) == if event is Stored {
            performed(pending(upload), before)
        } else {
            before
        },
{
    let one = seq![event];
    assert(one.drop_last() =~= Seq::<EventView>::empty());
    assert(run(upload, one.drop_last()) == upload);
    assert(storage_after(upload, one.drop_last(), before) == before);
}

/// A request keeps its key and its base path, whatever comes in.
pub proof fn lemma_run_keeps_addressing(upload: UploadView, events: Seq<EventView>)
    ensures
        run(upload, events).key == upload.key,
        run(upload, events).base == upload.base,
    decreases events.len(),
{
    if events.len() > 0 {
        lemma_run_keeps_addressing(upload, events.drop_last());
    }
}

/// A request that is done stays as it is, whatever comes in, and asks
/// nothing more of the storage.
pub proof fn lemma_done_is_final(upload: UploadView, events: Seq<EventView>, before: Storage)
    requires
        is_terminal(upload.phase),
    ensures
        run(upload, events) == upload,
        storage_after(upload, events, before) == before,
    decreases events.len(),
{
    if events.len() > 0 {
        lemma_done_is_final(upload, events.drop_last(), before);
    }
}

/// Running through two sequences of events in a row is running through
/// the one made of both.
pub proof fn lemma_run_in_two_parts(
    upload: UploadView,
    first: Seq<EventView>,
    second: Seq<EventView>,
    before: Storage,
)
    ensures
        run(upload, first + second) == run(run(upload, first), second),
        storage_after(upload, first + second, before) == storage_after(
            run(upload, first),
            second,
            storage_after(upload, first, before),
        ),
    decreases second.len(),
{
    if second.len() == 0 {
        assert(first + second =~= first);
    } else {
        lemma_run_in_two_parts(upload, first, second.drop_last(), before);
        assert((first + second).drop_last() =~= first + second.drop_last());
        assert((first + second).last() == second.last());
    }
}

/// What the storage holds goes by how far the request has come. Until the
/// body is read to its end the storage is as it was. With the container
/// ready it holds the container besides. With the request answered it holds
/// the chunk. Where the storage failed, it holds what it held before or the
/// container besides.
pub proof fn lemma_storage_follows_phase(
    key: Seq<char>,
    base: Seq<char>,
    events: Seq<EventView>,
    before: Storage,
)
    ensures
        ({
            let end = run(received(key, base), events);
            let after = storage_after(received(key, base), events, before);
            &&& short_of_storage(end.phase) || end.phase is ChunkExtracted ==> after == before
            &&& end.phase is ContainerReady ==> after == with_container(before, base, key)
            &&& end.phase is Responded ==> after == with_chunk(before, base, key, end.chunk)
            &&& end.phase == Phase::Failed(UploadError::StorageIOError) ==> after == before
                || after == with_container(before, base, key)
        }),
    decreases events.len(),
{
    if events.len() > 0 {
        let start = received(key, base);
        let earlier = events.drop_last();
        lemma_storage_follows_phase(key, base, earlier, before);
        lemma_run_keeps_addressing(start, earlier);
        let mid = run(start, earlier);
        let so_far = storage_after(start, earlier, before);
        let end = run(start, events);
        let after = storage_after(start, events, before);
        if mid.phase is ContainerReady && events.last() is Stored {
            let full = with_chunk(before, base, key, end.chunk);
            assert(after.containers =~= full.containers);
            assert(after.files =~= full.files);
        }
    }
}

/// While a request has not come to the storage, it has never asked
/// anything of it.
pub proof fn lemma_nothing_asked_short_of_storage(
    key: Seq<char>,
    base: Seq<char>,
    events: Seq<EventView>,
    upto: int,
)
    requires
        0 <= upto <= events.len(),
        short_of_storage(run(received(key, base), events).phase),
    ensures
        short_of_storage(run(received(key, base), events.take(upto)).phase),
        !touches_storage(pending(run(received(key, base), events.take(upto)))),
    decreases events.len(),
{
    if upto == events.len() {
        assert(events.take(upto) =~= events);
    } else {
        let earlier = events.drop_last();
        assert(short_of_storage(run(received(key, base), earlier).phase));
        lemma_nothing_asked_short_of_storage(key, base, earlier, upto);
        assert(earlier.take(upto) =~= events.take(upto));
    }
}

/// A key that the registry reports as unavailable is answered with the
/// rejection, status 400, and the storage is left alone: whatever comes in
/// after the registry's answer, the request stays rejected, at no moment
/// does the handler ask anything of the storage, and the storage is as it was.
pub proof fn lemma_unavailable_key_is_rejected(
    key: Seq<char>,
    base: Seq<char>,
    later: Seq<EventView>,
    before: Storage,
    upto: int,
)
    requires
        0 <= upto <= later.len() + 1,
    ensures
        ({
            let events = seq![EventView::Availability(false)] + later;
            &&& run(received(key, base), events).phase is Rejected
            &&& pending(run(received(key, base), events)) == ActionView::Respond(rejection())
            &&& rejection().status == 400
            &&& !touches_storage(pending(run(received(key, base), events.take(upto))))
            &&& storage_after(received(key, base), events, before) == before
        }),
{
    let start = received(key, base);
    let first = seq![EventView::Availability(false)];
    let events = first + later;
    lemma_run_one(start, EventView::Availability(false));
    lemma_storage_after_one(start, EventView::Availability(false), before);
    lemma_run_in_two_parts(start, first, later, before);
    lemma_done_is_final(run(start, first), later, before);
    lemma_nothing_asked_short_of_storage(key, base, events, upto);
}

/// A request that is answered with success has persisted its chunk: the
/// storage holds the chunk's payload, byte for byte, at the location that
/// the key and the index give, whatever events led there.
pub proof fn lemma_success_means_persisted(
    key: Seq<char>,
    base: Seq<char>,
    events: Seq<EventView>,
    before: Storage,
)
    requires
        run(received(key, base), events).phase is Responded,
    ensures
        ({
            let end = run(received(key, base), events);
            let after = storage_after(received(key, base), events, before);
            &&& pending(end) == ActionView::Respond(confirmation())
            &&& confirmation().status == 200
            &&& after == with_chunk(before, base, key, end.chunk)
            &&& stored_payload(after, base, key, end.chunk.index) == Some(end.chunk.payload)
        }),
{
    lemma_storage_follows_phase(key, base, events, before);
}

/// A request that fails on a malformed index, or on the registry, or that
/// is rejected, has at no moment asked anything of the storage, and the
/// storage is as it was.
pub proof fn lemma_early_end_leaves_storage_alone(
    key: Seq<char>,
    base: Seq<char>,
    events: Seq<EventView>,
    before: Storage,
    upto: int,
)
    requires
        0 <= upto <= events.len(),
        short_of_storage(run(received(key, base), events).phase),
    ensures
        !touches_storage(pending(run(received(key, base), events.take(upto)))),
        storage_after(received(key, base), events, before) == before,
{
    lemma_storage_follows_phase(key, base, events, before);
    lemma_nothing_asked_short_of_storage(key, base, events, upto);
}

/// An index part whose text denotes no index fails the request at once,
/// with `MalformedChunkIndex`, while the body is being read.
pub proof fn lemma_malformed_index_fails_request(upload: UploadView, part: PartView)
    requires
        upload.phase is KeyChecked,
        refused(part),
    ensures
        next(upload, EventView::Part(part)).phase == Phase::Failed(
            UploadError::MalformedChunkIndex,
        ),
        pending(next(upload, EventView::Part(part))) == ActionView::Fail(
            UploadError::MalformedChunkIndex,
        ),
{
}

/// The events that reading `parts` gives.
pub open spec fn part_events(parts: Seq<PartView>) -> Seq<EventView> {
    parts.map_values(|part: PartView| EventView::Part(part))
}

/// Reading a body part by part gives what the extractor makes of the whole
/// body: the chunk that the parts carry, or a failure where one is refused.
pub proof fn lemma_reading_parts_extracts(key: Seq<char>, base: Seq<char>, parts: Seq<PartView>)
    ensures
        ({
            let end = run(
                received(key, base),
                seq![EventView::Availability(true)] + part_events(parts),
            );
            if any_refused(parts) {
                end.phase == Phase::Failed(UploadError::MalformedChunkIndex)
            } else {
                end.phase is KeyChecked && end.chunk == carried(parts)
            }
        }),
    decreases parts.len(),
{
    let start = received(key, base);
    let first = seq![EventView::Availability(true)];
    let events = first + part_events(parts);
    if parts.len() == 0 {
        assert(events =~= first);
        lemma_run_one(start, EventView::Availability(true));
    } else {
        let front = parts.drop_last();
        lemma_reading_parts_extracts(key, base, front);
        assert(events.drop_last() =~= first + part_events(front));
        assert(events.last() == EventView::Part(parts.last()));
        if any_refused(front) {
            let i = choose|i: int| 0 <= i < front.len() && refused(#[trigger] front[i]);
            assert(parts[i] == front[i]);
        } else if refused(parts.last()) {
            assert(refused(parts[parts.len() - 1]));
        } else {
            assert forall|i: int| 0 <= i < parts.len() implies !refused(#[trigger] parts[i]) by {
                if i < front.len() {
                    assert(front[i] == parts[i]);
                }
            }
        }
    }
}

/// Where nothing goes wrong around the handler, a body of which no part is
/// refused ends in success: the request is answered with the confirmation,
/// status 200, and the storage holds the chunk that the parts carry, byte
/// for byte. A body with a refused part ends in `MalformedChunkIndex` and
/// leaves the storage as it was.
pub proof fn lemma_smooth_exchange_outcome(
    key: Seq<char>,
    base: Seq<char>,
    parts: Seq<PartView>,
    before: Storage,
)
    ensures
        ({
            let end = run(received(key, base), smooth_exchange(parts));
            let after = storage_after(received(key, base), smooth_exchange(parts), before);
            if any_refused(parts) {
                &&& end.phase == Phase::Failed(UploadError::MalformedChunkIndex)
                &&& after == before
            } else {
                &&& end.phase is Responded
                &&& pending(end) == ActionView::Respond(confirmation())
                &&& end.chunk == carried(parts)
                &&& after == with_chunk(before, base, key, carried(parts))
                &&& stored_payload(after, base, key, carried(parts).index) == Some(
                    carried(parts).payload,
                )
            }
        }),
{
    let start = received(key, base);
    let reading = seq![EventView::Availability(true)] + part_events(parts);
    let storing = seq![EventView::EndOfParts, EventView::Stored, EventView::Stored];
    assert(smooth_exchange(parts) =~= reading + storing);
    lemma_reading_parts_extracts(key, base, parts);
    lemma_run_in_two_parts(start, reading, storing, before);
    let mid = run(start, reading);
    if any_refused(parts) {
        lemma_done_is_final(mid, storing, storage_after(start, reading, before));
        lemma_storage_follows_phase(key, base, smooth_exchange(parts), before);
    } else {
        let one = seq![EventView::EndOfParts];
        let two = seq![EventView::EndOfParts, EventView::Stored];
        assert(storing.drop_last() =~= two);
        assert(two.drop_last() =~= one);
        lemma_run_one(mid, EventView::EndOfParts);
        assert(run(mid, two) == next(run(mid, one), EventView::Stored));
        assert(run(mid, storing) == next(run(mid, two), EventView::Stored));
        lemma_storage_follows_phase(key, base, smooth_exchange(parts), before);
    }
}

/// Storing the same chunk a second time changes nothing: after two smooth
/// requests with the same key and the same parts the storage is as after one.
pub proof fn lemma_retry_is_idempotent(
    key: Seq<char>,
    base: Seq<char>,
    parts: Seq<PartView>,
    before: Storage,
)
    requires
        !any_refused(parts),
    ensures
        ({
            let once = storage_after(received(key, base), smooth_exchange(parts), before);
            let twice = storage_after(received(key, base), smooth_exchange(parts), once);
            twice == once
        }),
{
    let once = storage_after(received(key, base), smooth_exchange(parts), before);
    lemma_smooth_exchange_outcome(key, base, parts, before);
    lemma_smooth_exchange_outcome(key, base, parts, once);
    lemma_persisting_twice_changes_nothing(before, base, key, carried(parts));
}

/// A chunk stored over another of the same key and index replaces it: after
/// two requests that succeeded one after the other, the storage holds the
/// payload of the second alone.
pub proof fn lemma_second_write_overwrites(
    key: Seq<char>,
    base: Seq<char>,
    first: Seq<EventView>,
    second: Seq<EventView>,
    before: Storage,
)
    requires
        run(received(key, base), first).phase is Responded,
        run(received(key, base), second).phase is Responded,
        run(received(key, base), first).chunk.index == run(
            received(key, base),
            second,
        ).chunk.index,
    ensures
        ({
            let between = storage_after(received(key, base), first, before);
            let after = storage_after(received(key, base), second, between);
            let last = run(received(key, base), second).chunk;
            &&& stored_payload(after, base, key, last.index) == Some(last.payload)
            &&& after == with_chunk(before, base, key, last)
        }),
{
    let between = storage_after(received(key, base), first, before);
    lemma_success_means_persisted(key, base, first, before);
    lemma_success_means_persisted(key, base, second, between);
    lemma_later_chunk_replaces_earlier(
        before,
        base,
        key,
        run(received(key, base), first).chunk,
        run(received(key, base), second).chunk,
    );
}

/// Two requests that succeeded for different indices of one key do not
/// disturb each other: whichever of them the storage served first, it ends
/// up the same, and each chunk reads back as its own payload.
pub proof fn lemma_distinct_indices_are_independent(
    key: Seq<char>,
    base: Seq<char>,
    one: Seq<EventView>,
    other: Seq<EventView>,
    before: Storage,
)
    requires
        run(received(key, base), one).phase is Responded,
        run(received(key, base), other).phase is Responded,
        run(received(key, base), one).chunk.index != run(received(key, base), other).chunk.index,
    ensures
        ({
            let start = received(key, base);
            let one_first = storage_after(start, other, storage_after(start, one, before));
            let other_first = storage_after(start, one, storage_after(start, other, before));
            &&& one_first == other_first
            &&& stored_payload(one_first, base, key, run(start, one).chunk.index) == Some(
                run(start, one).chunk.payload,
            )
            &&& stored_payload(one_first, base, key, run(start, other).chunk.index) == Some(
                run(start, other).chunk.payload,
            )
        }),
{
    let start = received(key, base);
    lemma_success_means_persisted(key, base, one, before);
    lemma_success_means_persisted(key, base, other, storage_after(start, one, before));
    lemma_success_means_persisted(key, base, other, before);
    lemma_success_means_persisted(key, base, one, storage_after(start, other, before));
    lemma_distinct_chunks_are_independent(
        before,
        base,
        key,
        run(start, one).chunk,
        run(start, other).chunk,
    );
}

} // verus!
