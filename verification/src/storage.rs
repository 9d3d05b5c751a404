//! A model of the chunk store: what the storage holds, as far as the
//! handler's actions make it so.
//!
//! The handler never touches the storage itself; it names the actions, and
//! the caller performs them. This module says what a performed action means:
//! creating a container makes it exist, whether or not it did before, and
//! writing a chunk puts the payload in place of whatever the file held.

use vstd::prelude::*;
use crate::extract::ChunkView;
use crate::handler::ActionView;
use crate::layout::{chunk_location, container_location, lemma_chunk_location_injective};

verus! {

/// The containers that exist and the files with what they hold, by location.
pub struct Storage {
    pub containers: Set<Seq<char>>,
    pub files: Map<Seq<char>, Seq<u8>>,
}

/// Whether `action` asks anything of the storage.
pub open spec fn touches_storage(action: ActionView) -> bool {
    action is CreateContainer || action is WriteChunk
}

/// The storage after `action` was performed on `before`. An action that
/// asks nothing of the storage leaves it as it was.
pub open spec fn performed(action: ActionView, before: Storage) -> Storage {
    match action {
        ActionView::CreateContainer { path } => Storage {
            containers: before.containers.insert(path),
            ..before
        },
        ActionView::WriteChunk { path, payload } => Storage {
            files: before.files.insert(path, payload),
            ..before
        },
        _ => before,
    }
}

/// The storage with the container of `key` in it.
pub open spec fn with_container(before: Storage, base: Seq<char>, key: Seq<char>) -> Storage {
    Storage { containers: before.containers.insert(container_location(base, key)), ..before }
}

/// The storage with `chunk` of `key` persisted in it: the key's container
/// exists, and the chunk's file holds the chunk's payload.
pub open spec fn with_chunk(before: Storage, base: Seq<char>, key: Seq<char>, chunk: ChunkView)
    -> Storage {
    Storage {
        containers: before.containers.insert(container_location(base, key)),
        files: before.files.insert(chunk_location(base, key, chunk.index), chunk.payload),
    }
}

/// What the storage holds for chunk `index` of `key`, if it holds anything.
pub open spec fn stored_payload(storage: Storage, base: Seq<char>, key: Seq<char>, index: u32)
    -> Option<Seq<u8>> {
    let location = chunk_location(base, key, index);
    if storage.files.contains_key(location) {
        Some(storage.files[location])
    } else {
        None
    }
}

/// A persisted chunk reads back as its payload, byte for byte.
pub proof fn lemma_persisted_chunk_reads_back(
    before: Storage,
    base: Seq<char>,
    key: Seq<char>,
    chunk: ChunkView,
)
    ensures
        stored_payload(with_chunk(before, base, key, chunk), base, key, chunk.index) == Some(
            chunk.payload,
        ),
{
}

/// Performing an action twice leaves the storage as performing it once does.
pub proof fn lemma_performing_twice_changes_nothing(action: ActionView, before: Storage)
    ensures
        performed(action, performed(action, before)) == performed(action, before),
{
    let once = performed(action, before);
    let twice = performed(action, once);
    assert(twice.containers =~= once.containers);
    assert(twice.files =~= once.files);
}

/// Persisting the same chunk twice leaves the storage as persisting it once does.
pub proof fn lemma_persisting_twice_changes_nothing(
    before: Storage,
    base: Seq<char>,
    key: Seq<char>,
    chunk: ChunkView,
)
    ensures
        with_chunk(with_chunk(before, base, key, chunk), base, key, chunk) == with_chunk(
            before,
            base,
            key,
            chunk,
        ),
{
    let once = with_chunk(before, base, key, chunk);
    let twice = with_chunk(once, base, key, chunk);
    assert(twice.containers =~= once.containers);
    assert(twice.files =~= once.files);
}

/// A chunk persisted over another of the same key and index replaces it:
/// the storage is as if the first had never been persisted, and holds the
/// second payload alone, not the two in a row.
pub proof fn lemma_later_chunk_replaces_earlier(
    before: Storage,
    base: Seq<char>,
    key: Seq<char>,
    first: ChunkView,
    second: ChunkView,
)
    requires
        first.index == second.index,
    ensures
        with_chunk(with_chunk(before, base, key, first), base, key, second) == with_chunk(
            before,
            base,
            key,
            second,
        ),
        stored_payload(
            with_chunk(with_chunk(before, base, key, first), base, key, second),
            base,
            key,
            second.index,
        ) == Some(second.payload),
{
    let direct = with_chunk(before, base, key, second);
    let over = with_chunk(with_chunk(before, base, key, first), base, key, second);
    assert(over.containers =~= direct.containers);
    assert(over.files =~= direct.files);
}

/// Chunks of one key with different indices do not disturb each other: in
/// whichever order the two are persisted, the storage is the same, and each
/// reads back as its own payload.
pub proof fn lemma_distinct_chunks_are_independent(
    before: Storage,
    base: Seq<char>,
    key: Seq<char>,
    one: ChunkView,
    other: ChunkView,
)
    requires
        one.index != other.index,
    ensures
        with_chunk(with_chunk(before, base, key, one), base, key, other) == with_chunk(
            with_chunk(before, base, key, other),
            base,
            key,
            one,
        ),
        stored_payload(
            with_chunk(with_chunk(before, base, key, one), base, key, other),
            base,
            key,
            one.index,
        ) == Some(one.payload),
        stored_payload(
            with_chunk(with_chunk(before, base, key, one), base, key, other),
            base,
            key,
            other.index,
        ) == Some(other.payload),
{
    if chunk_location(base, key, one.index) == chunk_location(base, key, other.index) {
        lemma_chunk_location_injective(base, key, one.index, key, other.index);
    }
    let ab = with_chunk(with_chunk(before, base, key, one), base, key, other);
    let ba = with_chunk(with_chunk(before, base, key, other), base, key, one);
    assert(ab.containers =~= ba.containers);
    assert(ab.files =~= ba.files);
}

/// Two actions may be performed in either order, unless both write the
/// same file.
pub proof fn lemma_actions_commute(one: ActionView, other: ActionView, before: Storage)
    requires
        !(one is WriteChunk && other is WriteChunk && one->WriteChunk_path
            == other->WriteChunk_path),
    ensures
        performed(one, performed(other, before)) == performed(other, performed(one, before)),
{
    let ab = performed(one, performed(other, before));
    let ba = performed(other, performed(one, before));
    assert(ab.containers =~= ba.containers);
    assert(ab.files =~= ba.files);
}

/// The storage after `actions` were performed on `before`, one after the other.
pub open spec fn performed_all(actions: Seq<ActionView>, before: Storage) -> Storage
    decreases actions.len(),
{
    if actions.len() == 0 {
        before
    } else {
        performed(actions.last(), performed_all(actions.drop_last(), before))
    }
}

/// However the actions of several requests fall in with each other, a file
/// holds what was last written to it: the payload of a write that no later
/// write to the same location follows.
pub proof fn lemma_file_holds_last_write(actions: Seq<ActionView>, before: Storage, at: int)
    requires
        0 <= at < actions.len(),
        actions[at] is WriteChunk,
        forall|later: int|
            at < later < actions.len() ==> !((#[trigger] actions[later]) is WriteChunk
                && actions[later]->WriteChunk_path == actions[at]->WriteChunk_path),
    ensures
        performed_all(actions, before).files.contains_key(actions[at]->WriteChunk_path),
        performed_all(actions, before).files[actions[at]->WriteChunk_path]
            == actions[at]->WriteChunk_payload,
    decreases actions.len(),
{
    if at < actions.len() - 1 {
        let earlier = actions.drop_last();
        assert(earlier[at] == actions[at]);
        assert forall|later: int| at < later < earlier.len() implies !((
        #[trigger] earlier[later]) is WriteChunk && earlier[later]->WriteChunk_path
            == earlier[at]->WriteChunk_path) by {
            assert(earlier[later] == actions[later]);
        }
        lemma_file_holds_last_write(earlier, before, at);
        assert(!(actions[actions.len() - 1] is WriteChunk && actions[actions.len()
            - 1]->WriteChunk_path == actions[at]->WriteChunk_path));
    }
}

/// A chunk persisted under one key leaves the chunks of every other key,
/// and the other chunks of its own key, as they were.
pub proof fn lemma_other_chunks_are_untouched(
    before: Storage,
    base: Seq<char>,
    key: Seq<char>,
    chunk: ChunkView,
    other_key: Seq<char>,
    other_index: u32,
)
    requires
        other_key != key || other_index != chunk.index,
    ensures
        stored_payload(with_chunk(before, base, key, chunk), base, other_key, other_index)
            == stored_payload(before, base, other_key, other_index),
{
    if chunk_location(base, key, chunk.index) == chunk_location(base, other_key, other_index) {
        lemma_chunk_location_injective(base, key, chunk.index, other_key, other_index);
    }
}

} // verus!
