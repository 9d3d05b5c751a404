//! Where chunks are stored: one container per file key under a base path,
//! one file per chunk in it, named by the chunk's index.

use vstd::prelude::*;
use crate::decimal::{all_digits, decimal, is_digit, lemma_decimal_denotes, lemma_decimal_injective, render_index};

verus! {

/// The base path that is used where none is configured.
pub open spec fn default_base() -> Seq<char> {
    "./storage"@
}

/// The location of the container that holds the chunks of `key`.
pub open spec fn container_location(base: Seq<char>, key: Seq<char>) -> Seq<char> {
    base + seq!['/'] + key
}

/// The location of chunk `index` of `key`: a file in the key's container,
/// named by the index in decimal.
pub open spec fn chunk_location(base: Seq<char>, key: Seq<char>, index: u32) -> Seq<char> {
    container_location(base, key) + seq!['/'] + decimal(index as nat)
}

/// Where the chunk store keeps its data.
pub struct StoreConfig {
    base_path: String,
}

impl StoreConfig {
    /// The base path as a sequence of characters.
    pub closed spec fn base(&self) -> Seq<char> {
        self.base_path@
    }

    /// A configuration from the setting that was found, if one was found.
    pub fn new(configured: Option<String>) -> (config: StoreConfig)
        ensures
            config.base() == match configured {
                Some(path) => path@,
                None => default_base(),
            },
    {
        match configured {
            Some(path) => StoreConfig { base_path: path },
            None => StoreConfig { base_path: String::from_str("./storage") },
        }
    }

    /// The base path.
    pub fn base_path(&self) -> (path: &str)
        ensures
            path@ == self.base(),
    {
        self.base_path.as_str()
    }
}

/// The path of the container that holds the chunks of `file_key`.
pub fn container_path(base: &str, file_key: &str) -> (path: String)
    ensures
        path@ == container_location(base@, file_key@),
{
    proof {
        reveal_strlit("/");
    }
    let mut path = String::from_str(base);
    path.append("/");
    path.append(file_key);
    assert("/"@ =~= seq!['/']);
    path
}

/// The path of the file that holds chunk `index` of `file_key`.
pub fn chunk_path(base: &str, file_key: &str, index: u32) -> (path: String)
    ensures
        path@ == chunk_location(base@, file_key@, index),
{
    proof {
        reveal_strlit("/");
    }
    let mut path = container_path(base, file_key);
    path.append("/");
    let name = render_index(index);
    path.append(name.as_str());
    assert("/"@ =~= seq!['/']);
    path
}

/// Two texts that end in a separator and a run of digits are equal only if
/// the runs are equal and what stands before the separators is equal.
proof fn lemma_split_at_last_separator(p: Seq<char>, a: Seq<char>, q: Seq<char>, b: Seq<char>)
    requires
        all_digits(a),
        all_digits(b),
        p + seq!['/'] + a == q + seq!['/'] + b,
    ensures
        p == q,
        a == b,
{
    let s = p + seq!['/'] + a;
    let t = q + seq!['/'] + b;
    assert(s.len() == p.len() + 1 + a.len());
    assert(t.len() == q.len() + 1 + b.len());
    if a.len() < b.len() {
        let k = p.len() as int;
        assert(s[k] == '/');
        assert(t[k] == b[k - q.len() - 1]);
        assert(is_digit(b[k - q.len() - 1]));
        assert(false);
    }
    if b.len() < a.len() {
        let k = q.len() as int;
        assert(t[k] == '/');
        assert(s[k] == a[k - p.len() - 1]);
        assert(is_digit(a[k - p.len() - 1]));
        assert(false);
    }
    assert(p.len() == q.len());
    assert forall|i: int| 0 <= i < p.len() implies p[i] == q[i] by {
        assert(s[i] == p[i]);
        assert(t[i] == q[i]);
    }
    assert(p =~= q);
    assert forall|i: int| 0 <= i < a.len() implies a[i] == b[i] by {
        assert(s[p.len() + 1 + i] == a[i]);
        assert(t[q.len() + 1 + i] == b[i]);
    }
    assert(a =~= b);
}

/// Under one base path, two chunks share a location only if they are the
/// same chunk: the same key and the same index.
pub proof fn lemma_chunk_location_injective(
    base: Seq<char>,
    key_a: Seq<char>,
    index_a: u32,
    key_b: Seq<char>,
    index_b: u32,
)
    requires
        chunk_location(base, key_a, index_a) == chunk_location(base, key_b, index_b),
    ensures
        key_a == key_b,
        index_a == index_b,
{
    lemma_decimal_denotes(index_a as nat);
    lemma_decimal_denotes(index_b as nat);
    lemma_split_at_last_separator(
        container_location(base, key_a),
        decimal(index_a as nat),
        container_location(base, key_b),
        decimal(index_b as nat),
    );
    lemma_decimal_injective(index_a, index_b);
    let ca = container_location(base, key_a);
    let cb = container_location(base, key_b);
    assert(key_a.len() == key_b.len());
    assert forall|i: int| 0 <= i < key_a.len() implies key_a[i] == key_b[i] by {
        assert(ca[base.len() + 1 + i] == key_a[i]);
        assert(cb[base.len() + 1 + i] == key_b[i]);
    }
    assert(key_a =~= key_b);
}

/// Chunks of one key with different indices are kept in different files.
pub proof fn lemma_chunks_address_distinct_files(base: Seq<char>, key: Seq<char>, i: u32, j: u32)
    requires
        i != j,
    ensures
        chunk_location(base, key, i) != chunk_location(base, key, j),
{
    if chunk_location(base, key, i) == chunk_location(base, key, j) {
        lemma_chunk_location_injective(base, key, i, key, j);
    }
}

} // verus!
