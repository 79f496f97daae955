//! The keys under which the blobs of a shard are stored.
//!
//! A key has three parts, separated by `/`: the shard, the kind of the blob, and
//! a name that is made from the content of the blob.

use crate::ids::{id_text, ShardId};
use vstd::prelude::*;
use vstd::string::*;

verus! {

/// The kinds of blobs that a shard has.
#[derive(Debug, PartialEq, Eq, Clone, Copy)]
pub enum BlobKind {
    /// One part of a batch of updates.
    BatchPart,
    /// A full copy of the state.
    Rollup,
}

/// The name of a kind, as it stands in a key.
pub open spec fn kind_name(kind: BlobKind) -> Seq<char> {
    match kind {
        BlobKind::BatchPart => "batch_part"@,
        BlobKind::Rollup => "rollup"@,
    }
}

/// The key of a blob.
pub open spec fn blob_key_text(shard_id: Seq<u8>, kind: BlobKind, content_hash: Seq<char>) -> Seq<
    char,
> {
    id_text('s', shard_id) + "/"@ + kind_name(kind) + "/"@ + content_hash
}

impl BlobKind {
    /// The name of the kind, as it stands in a key.
    pub fn name(&self) -> (name: &'static str)
        ensures
            name@ == kind_name(*self),
    {
        match self {
            BlobKind::BatchPart => "batch_part",
            BlobKind::Rollup => "rollup",
        }
    }
}

/// The key under which a blob of a shard is stored.
pub fn blob_key(shard_id: &ShardId, kind: BlobKind, content_hash: &str) -> (key: String)
    ensures
        key@ == blob_key_text(shard_id@, kind, content_hash@),
{
    let mut key = shard_id.to_string();
    key.append("/");
    key.append(kind.name());
    key.append("/");
    key.append(content_hash);
    key
}

} // verus!
