//! Keys of the key-value store the API persists its state in: an entry of
//! a map lives under `<namespace>:<key>`.
use vstd::prelude::*;
use crate::error::concat_str;
use crate::text::chars_of;

verus! {

/// The store key of entry `key` of namespace `namespace`.
pub open spec fn entry_key(namespace: Seq<char>, key: Seq<char>) -> Seq<char> {
    namespace + ":"@ + key
}

/// The store key of entry `key` of namespace `namespace`.
pub fn kv_key(namespace: &str, key: &str) -> (r: String)
    ensures
        r@ == entry_key(namespace@, key@),
{
    let prefix = concat_str(namespace, ":");
    concat_str(prefix.as_str(), key)
}

/// The entry key of a store key read back from namespace `namespace`: the
/// key without the `<namespace>:` prefix, or the whole key when it lacks
/// that prefix.
pub open spec fn entry_of(full: Seq<char>, namespace: Seq<char>) -> Seq<char> {
    let prefix = namespace + ":"@;
    if prefix.len() <= full.len() && full.take(prefix.len() as int) == prefix {
        full.skip(prefix.len() as int)
    } else {
        full
    }
}

/// The entry key of a store key read back from `namespace`.
pub fn entry_key_of(full: &str, namespace: &str) -> (r: String)
    ensures
        r@ == entry_of(full@, namespace@),
{
    let prefix = concat_str(namespace, ":");
    let f = chars_of(full);
    let p = chars_of(prefix.as_str());
    if p.len() <= f.len() && crate::prompt::matches_at(&f, 0, &p) {
        assert(f@.subrange(0, p@.len() as int) =~= f@.take(p@.len() as int));
        let r = crate::text::string_from_range(&f, p.len(), f.len());
        assert(f@.subrange(p@.len() as int, f@.len() as int) =~= f@.skip(p@.len() as int));
        r
    } else {
        proof {
            if p@.len() <= f@.len() {
                assert(f@.subrange(0, p@.len() as int) =~= f@.take(p@.len() as int));
            }
        }
        full.to_owned()
    }
}

/// Reading a key back undoes writing it: the entry key of the store key of
/// `key` in `namespace` is `key`.
pub proof fn law_entry_key_round_trip(namespace: Seq<char>, key: Seq<char>)
    ensures
        entry_of(entry_key(namespace, key), namespace) == key,
{
    let full = entry_key(namespace, key);
    let prefix = namespace + ":"@;
    assert(full.take(prefix.len() as int) =~= prefix);
    assert(full.skip(prefix.len() as int) =~= key);
}

} // verus!
