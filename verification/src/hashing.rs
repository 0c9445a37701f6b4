//! The hash functions routing decisions rest on.

use std::collections::hash_map::DefaultHasher;
use std::hash::Hash;
use std::hash::Hasher;
use vstd::std_specs::hash::DefaultHasherAdditionalSpecFns;
use vstd::prelude::*;

verus! {

/// The SeaHash digest of a byte string.
pub uninterp spec fn seahash_of(bytes: Seq<u8>) -> u64;

/// `seahash::hash`: the SeaHash digest of `bytes`, which depends on the
/// bytes alone (the seeds are fixed).
#[verifier::external_body]
pub(crate) fn seahash_bytes(bytes: &[u8]) -> (h: u64)
    ensures
        h == seahash_of(bytes@),
{
    seahash::hash(bytes)
}

/// The SeaHash digest of the UTF-8 bytes of a string.
pub fn seahash_str(s: &str) -> (h: u64)
    ensures
        h == seahash_of(vstd::utf8::encode_utf8(s@)),
{
    seahash_bytes(s.as_bytes())
}

/// The byte strings that `str`'s `Hash` implementation writes into a hasher
/// for the text `s`.
pub uninterp spec fn str_hash_writes(s: Seq<char>) -> Seq<Seq<u8>>;

/// `<str as Hash>::hash` into a `DefaultHasher`: the hasher's writes are
/// followed by those that hashing `s` makes, which depend on `s` alone.
#[verifier::external_body]
fn hash_str_into(s: &str, hasher: &mut DefaultHasher)
    ensures
        final(hasher)@ == old(hasher)@ + str_hash_writes(s@),
{
    s.hash(hasher);
}

/// The value a fresh `DefaultHasher` finishes with after hashing `s`.
pub open spec fn default_str_hash(s: Seq<char>) -> u64 {
    DefaultHasher::spec_finish(str_hash_writes(s))
}

/// Hashes `s` with a fresh `DefaultHasher`.
pub(crate) fn default_hash_str(s: &str) -> (h: u64)
    ensures
        h == default_str_hash(s@),
{
    let mut hasher = DefaultHasher::new();
    hash_str_into(s, &mut hasher);
    assert(hasher@ =~= str_hash_writes(s@));
    hasher.finish()
}

} // verus!
