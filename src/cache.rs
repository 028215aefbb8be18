use vstd::prelude::*;

use crate::decimal::text_equals;

verus! {

/// Version written into every new cache entry; entries of another version are stale.
pub const CACHE_VERSION: &'static str = "v1";

/// How long an entry stays valid, in seconds.
pub const CACHE_LIFETIME_SECS: u64 = 32 * 24 * 60 * 60;

/// One cached response.
pub struct CacheEntity {
    pub version: String,
    pub expire: u64,
    pub content: String,
}

/// Why the cache did not answer.
#[derive(Debug, PartialEq, Eq)]
pub enum CacheMiss {
    Disabled,
    NotFound { key: String },
    WrongVersion { version: String },
    Expired,
}

impl CacheEntity {
    /// A new entry of the current version that expires a lifetime after `now`.
    pub fn fresh(content: String, now: u64) -> (r: CacheEntity)
        requires
            now + CACHE_LIFETIME_SECS <= u64::MAX,
        ensures
            r.version@ == CACHE_VERSION@,
            r.expire == now + CACHE_LIFETIME_SECS,
            r.content == content,
    {
        CacheEntity { version: CACHE_VERSION.to_owned(), expire: now + CACHE_LIFETIME_SECS, content }
    }
}

/// Index of the first entry stored under `key`, or the number of entries.
pub open spec fn key_index(entries: Seq<(String, CacheEntity)>, key: Seq<char>) -> int
    decreases entries.len(),
{
    if entries.len() == 0 {
        0
    } else if entries[0].0@ == key {
        0
    } else {
        1 + key_index(entries.skip(1), key)
    }
}

/// What the cache answers for `key` at time `now` (in seconds since the epoch):
/// the content of the entry stored under it, unless there is none, it has
/// another version, or it expired before `now`.
pub fn cached_content(entries: &Vec<(String, CacheEntity)>, key: &str, now: u64) -> (r: Result<
    String,
    CacheMiss,
>)
    ensures
        ({
            let k = key_index(entries@, key@);
            if k >= entries@.len() {
                r matches Err(CacheMiss::NotFound { key: missing }) && missing@ == key@
            } else if entries@[k].1.version@ != CACHE_VERSION@ {
                r matches Err(CacheMiss::WrongVersion { version }) && version@
                    == entries@[k].1.version@
            } else if now > entries@[k].1.expire {
                r == Err::<String, CacheMiss>(CacheMiss::Expired)
            } else {
                r matches Ok(content) && content == entries@[k].1.content
            }
        }),
{
    let mut k: usize = 0;
    assert(entries@.skip(0) =~= entries@);
    while k < entries.len()
        invariant
            0 <= k <= entries@.len(),
            key_index(entries@, key@) == k + key_index(entries@.skip(k as int), key@),
        decreases entries@.len() - k,
    {
        let ghost rest = entries@.skip(k as int);
        assert(rest[0] == entries@[k as int]);
        if text_equals(entries[k].0.as_str(), key) {
            let entity = &entries[k].1;
            if !text_equals(entity.version.as_str(), CACHE_VERSION) {
                return Err(CacheMiss::WrongVersion { version: entity.version.clone() });
            }
            if now > entity.expire {
                return Err(CacheMiss::Expired);
            }
            return Ok(entity.content.clone());
        }
        assert(rest.skip(1) =~= entries@.skip(k + 1));
        k += 1;
    }
    Err(CacheMiss::NotFound { key: key.to_owned() })
}

} // verus!
