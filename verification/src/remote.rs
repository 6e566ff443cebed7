//! Where objects go in a remote bucket: the keys of content blobs, commit
//! objects and snapshot bundles, under an optional prefix. Talking to the
//! bucket belongs to the client that uploads.

use vstd::prelude::*;
use crate::server::perms::trim_trailing_slashes;
use crate::text::{owned, push_str, substring, to_chars};

verus! {

/// The settings of an R2 bucket.
#[derive(Debug, Clone)]
pub struct R2BlobStoreConfig {
    pub bucket: String,
    pub endpoint: String,
    pub access_key_id: String,
    pub secret_access_key: String,
    pub region: String,
    pub prefix: String,
}

/// The key of a content blob.
pub fn blob_key(hash: &str) -> (r: String)
    ensures
        r@ == "blobs/"@ + hash@,
{
    let mut k = owned("blobs/");
    push_str(&mut k, hash);
    k
}

/// The key of a commit object.
pub fn commit_key(hash: &str) -> (r: String)
    ensures
        r@ == "commits/"@ + hash@ + ".bin"@,
{
    let mut k = owned("commits/");
    push_str(&mut k, hash);
    push_str(&mut k, ".bin");
    k
}

/// The key of a snapshot bundle.
pub fn snapshot_key(name: &str) -> (r: String)
    ensures
        r@ == "snapshots/"@ + name@ + ".bin"@,
{
    let mut k = owned("snapshots/");
    push_str(&mut k, name);
    push_str(&mut k, ".bin");
    k
}

/// The sequence without leading slashes.
pub open spec fn trim_leading_slashes(s: Seq<char>) -> Seq<char>
    decreases s.len(),
{
    if s.len() > 0 && s[0] == '/' {
        trim_leading_slashes(s.drop_first())
    } else {
        s
    }
}

/// A prefix as the bucket uses it: without slashes at either end
/// (`trim_matches('/')`).
pub open spec fn bucket_prefix(p: Seq<char>) -> Seq<char> {
    trim_trailing_slashes(trim_leading_slashes(p))
}

/// A prefix without slashes at either end.
pub fn normalize_prefix(prefix: &str) -> (r: String)
    ensures
        r@ == bucket_prefix(prefix@),
{
    let chars = to_chars(prefix);
    let mut start: usize = 0;
    assert(chars@.skip(0) =~= chars@);
    while start < chars.len() && chars[start] == '/'
        invariant
            start <= chars@.len(),
            chars@ == prefix@,
            trim_leading_slashes(prefix@) == trim_leading_slashes(chars@.skip(start as int)),
        decreases chars.len() - start,
    {
        assert(chars@.skip(start as int).drop_first() =~= chars@.skip(start + 1));
        start += 1;
    }
    let mut end: usize = chars.len();
    let ghost rest = chars@.skip(start as int);
    assert(rest == chars@.subrange(start as int, end as int));
    while end > start && chars[end - 1] == '/'
        invariant
            start <= end <= chars@.len(),
            trim_trailing_slashes(rest) == trim_trailing_slashes(chars@.subrange(start as int, end as int)),
        decreases end,
    {
        assert(chars@.subrange(start as int, end as int).drop_last() =~= chars@.subrange(start as int, end - 1));
        end -= 1;
    }
    substring(chars.as_slice(), start, end)
}

/// The key of an object under a prefix (already without slashes at its
/// ends): the key itself for an empty prefix.
pub fn object_key(prefix: &str, key: &str) -> (r: String)
    ensures
        r@ == (if prefix@.len() == 0 {
            key@
        } else {
            prefix@ + "/"@ + key@
        }),
{
    if prefix.unicode_len() == 0 {
        return owned(key);
    }
    let mut k = owned(prefix);
    push_str(&mut k, "/");
    push_str(&mut k, key);
    k
}

} // verus!
