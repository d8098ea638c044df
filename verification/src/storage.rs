//! Records that the client keeps between sessions: an identity, with its keys
//! written in base64, and cached usernames.

use vstd::prelude::*;

use crate::crypto::{signing_key_from_slice, SigningKey};
use crate::keys::{Process, PublicKey, SpecProcess, SpecPublicKey};
use crate::text::{
    base64_std_encode, decode_base64_std, lemma_base64_std_decode, push_decimal, push_str, spec_base64_std,
    spec_base64_std_decode, spec_decimal,
};

verus! {

/// A username cache entry, with the time it was cached at.
#[derive(Clone, Debug, PartialEq, Eq)]
pub struct CachedUsername {
    pub username: String,
    /// UNIX time in milliseconds.
    pub cached_at: u64,
}

/// The value of a [`CachedUsername`].
pub struct SpecCachedUsername {
    pub username: Seq<char>,
    pub cached_at: u64,
}

impl View for CachedUsername {
    type V = SpecCachedUsername;

    open spec fn view(&self) -> SpecCachedUsername {
        SpecCachedUsername { username: self.username@, cached_at: self.cached_at }
    }
}

/// How long an empty username stays fresh: five minutes, in milliseconds.
pub const EMPTY_USERNAME_TTL_MS: u64 = 300_000;

/// How long a username stays fresh: an hour, in milliseconds.
pub const USERNAME_TTL_MS: u64 = 3_600_000;

/// Whether a cached username should be fetched again at time `now` (in
/// milliseconds): once its age is over five minutes where it is empty, and
/// over an hour otherwise. An entry from the future has age zero.
pub open spec fn spec_should_refresh(cached: SpecCachedUsername, now: u64) -> bool {
    let age: int = if now >= cached.cached_at {
        now - cached.cached_at
    } else {
        0
    };
    if cached.username.len() == 0 {
        age > EMPTY_USERNAME_TTL_MS
    } else {
        age > USERNAME_TTL_MS
    }
}

/// Whether a cached username should be fetched again at time `now_ms`.
pub fn should_refresh_username_at(cached: &CachedUsername, now_ms: u64) -> (r: bool)
    ensures
        r == spec_should_refresh(cached@, now_ms),
{
    let age_ms = now_ms.saturating_sub(cached.cached_at);
    if cached.username.as_str().is_empty() {
        age_ms > EMPTY_USERNAME_TTL_MS
    } else {
        age_ms > USERNAME_TTL_MS
    }
}

/// Whether a cached username should be fetched again now.
pub fn should_refresh_username(cached: &CachedUsername) -> (r: bool)
    ensures
        exists|now: u64| r == #[trigger] spec_should_refresh(cached@, now),
{
    let now = crate::clock::now_unix_millis() as u64;
    should_refresh_username_at(cached, now)
}

/// The entry cached for `key` in `cache` while it is still fresh at time
/// `now`: none where there is no entry or it is due for a refresh.
pub open spec fn spec_fresh_entry(
    cache: Map<Seq<char>, SpecCachedUsername>,
    key: Seq<char>,
    now: u64,
) -> Option<SpecCachedUsername> {
    if cache.contains_key(key) && !spec_should_refresh(cache[key], now) {
        Some(cache[key])
    } else {
        None
    }
}

/// The usernames cached for system keys (keys in base64): at most one entry
/// for each key.
pub struct UsernameCache {
    entries: Vec<(String, CachedUsername)>,
}

/// A username cached at time `now`.
pub open spec fn spec_cached(username: Seq<char>, now: u64) -> SpecCachedUsername {
    SpecCachedUsername { username, cached_at: now }
}

impl UsernameCache {
    /// No key has two entries.
    #[verifier::type_invariant]
    closed spec fn keys_distinct(self) -> bool {
        forall|i: int, j: int|
            0 <= i < j < self.entries@.len() ==> #[trigger] self.entries@[i].0@ != #[trigger] self.entries@[j].0@
    }

    /// The index of the entry for `key`, where there is one.
    closed spec fn index_of(self, key: Seq<char>) -> int {
        choose|i: int| 0 <= i < self.entries@.len() && self.entries@[i].0@ == key
    }
}

impl View for UsernameCache {
    type V = Map<Seq<char>, SpecCachedUsername>;

    /// Each key with the username cached for it.
    closed spec fn view(&self) -> Map<Seq<char>, SpecCachedUsername> {
        Map::new(
            |k: Seq<char>| exists|i: int| 0 <= i < self.entries@.len() && self.entries@[i].0@ == k,
            |k: Seq<char>| self.entries@[self.index_of(k)].1@,
        )
    }
}

impl UsernameCache {
    /// An empty cache.
    pub fn new() -> (r: Self)
        ensures
            r@ == Map::<Seq<char>, SpecCachedUsername>::empty(),
    {
        let r = UsernameCache { entries: Vec::new() };
        assert(r@ =~= Map::<Seq<char>, SpecCachedUsername>::empty());
        r
    }

    /// The position of the entry for `key`, where there is one.
    fn find(&self, key: &String) -> (r: Option<usize>)
        ensures
            match r {
                Some(i) => i < self.entries@.len() && self.entries@[i as int].0@ == key@,
                None => forall|i: int| 0 <= i < self.entries@.len() ==> self.entries@[i].0@ != key@,
            },
    {
        let mut i: usize = 0;
        while i < self.entries.len()
            invariant
                i <= self.entries@.len(),
                forall|j: int| 0 <= j < i ==> self.entries@[j].0@ != key@,
            decreases self.entries@.len() - i,
        {
            if self.entries[i].0 == *key {
                return Some(i);
            }
            i = i + 1;
        }
        None
    }

    /// The entry cached for `key`, if any.
    pub fn get(&self, key: &String) -> (r: Option<CachedUsername>)
        ensures
            match r {
                Some(c) => self@.contains_key(key@) && self@[key@] == c@,
                None => !self@.contains_key(key@),
            },
    {
        proof {
            use_type_invariant(self);
        }
        match self.find(key) {
            Some(i) => {
                let c = &self.entries[i].1;
                proof {
                    let j = self.index_of(key@);
                    assert(self.entries@[j].0@ == key@);
                    assert(j == i as int);
                }
                Some(CachedUsername { username: c.username.clone(), cached_at: c.cached_at })
            },
            None => None,
        }
    }

    /// The entry cached for `key` while it is still fresh at time `now` (UNIX
    /// milliseconds); `None` where there is no entry or it is due for a
    /// refresh.
    pub fn get_fresh(&self, key: &String, now: u64) -> (r: Option<CachedUsername>)
        ensures
            match r {
                Some(c) => self@.contains_key(key@) && self@[key@] == c@ && !spec_should_refresh(c@, now),
                None => !self@.contains_key(key@) || spec_should_refresh(self@[key@], now),
            },
            match r {
                Some(c) => Some(c@),
                None => None,
            } == spec_fresh_entry(self@, key@, now),
    {
        match self.get(key) {
            Some(c) => {
                if should_refresh_username_at(&c, now) {
                    None
                } else {
                    Some(c)
                }
            },
            None => None,
        }
    }

    /// The entry cached for `key` while it is still fresh now.
    pub fn get_fresh_now(&self, key: &String) -> (r: Option<CachedUsername>)
        ensures
            exists|now: u64|
                match r {
                    Some(c) => Some(c@),
                    None => None,
                } == #[trigger] spec_fresh_entry(self@, key@, now),
    {
        let now = crate::clock::now_unix_millis() as u64;
        self.get_fresh(key, now)
    }

    /// Caches `entry` for `key`, in place of what was cached for it.
    pub fn insert(&mut self, key: String, entry: CachedUsername)
        ensures
            final(self)@ == old(self)@.insert(key@, entry@),
    {
        proof {
            use_type_invariant(&*self);
        }
        let ghost k = key@;
        let ghost v = entry@;
        let ghost before = self.entries@;
        match self.find(&key) {
            Some(i) => {
                let mut entries = Vec::new();
                std::mem::swap(&mut entries, &mut self.entries);
                entries.set(i, (key, entry));
                self.entries = entries;
                proof {
                    assert forall|a: int, b: int|
                        0 <= a < b < self.entries@.len() implies #[trigger] self.entries@[a].0@
                        != #[trigger] self.entries@[b].0@ by {
                        assert(before[a].0@ != before[b].0@);
                    }
                }
                assert(self@ =~= old(self)@.insert(k, v)) by {
                    assert forall|q: Seq<char>| #[trigger] self@.contains_key(q) == old(self)@.insert(k, v).contains_key(q) by {
                        if q == k {
                            assert(self.entries@[i as int].0@ == q);
                        } else if old(self)@.contains_key(q) {
                            let j = choose|j: int| 0 <= j < before.len() && before[j].0@ == q;
                            assert(self.entries@[j].0@ == q);
                        }
                    }
                    assert forall|q: Seq<char>| #[trigger] self@.contains_key(q) implies self@[q] == old(self)@.insert(k, v)[q] by {
                        let j = self.index_of(q);
                        if q == k {
                            assert(self.entries@[i as int].0@ == q);
                            assert(j == i as int);
                        } else {
                            let oj = old(self).index_of(q);
                            assert(self.entries@[j].0@ == q);
                            assert(before[j].0@ == q);
                            assert(oj == j);
                        }
                    }
                }
            },
            None => {
                let mut entries = Vec::new();
                std::mem::swap(&mut entries, &mut self.entries);
                entries.push((key, entry));
                self.entries = entries;
                proof {
                    assert forall|a: int, b: int|
                        0 <= a < b < self.entries@.len() implies #[trigger] self.entries@[a].0@
                        != #[trigger] self.entries@[b].0@ by {
                        if b < before.len() {
                            assert(before[a].0@ != before[b].0@);
                        }
                    }
                }
                assert(self@ =~= old(self)@.insert(k, v)) by {
                    let n = before.len() as int;
                    assert forall|q: Seq<char>| #[trigger] self@.contains_key(q) == old(self)@.insert(k, v).contains_key(q) by {
                        if q == k {
                            assert(self.entries@[n].0@ == q);
                        } else if old(self)@.contains_key(q) {
                            let j = choose|j: int| 0 <= j < before.len() && before[j].0@ == q;
                            assert(self.entries@[j].0@ == q);
                        }
                    }
                    assert forall|q: Seq<char>| #[trigger] self@.contains_key(q) implies self@[q] == old(self)@.insert(k, v)[q] by {
                        let j = self.index_of(q);
                        if q == k {
                            assert(self.entries@[n].0@ == q);
                            assert(j == n);
                        } else {
                            let oj = old(self).index_of(q);
                            assert(self.entries@[j].0@ == q);
                            assert(j < n);
                            assert(before[j].0@ == q);
                            assert(oj == j);
                        }
                    }
                }
            },
        }
    }

    /// Caches `username` for `key` as of time `now` (UNIX milliseconds).
    pub fn record_at(&mut self, key: &str, username: &str, now: u64)
        ensures
            final(self)@ == old(self)@.insert(key@, spec_cached(username@, now)),
    {
        self.insert(key.to_owned(), CachedUsername { username: username.to_owned(), cached_at: now });
    }

    /// Caches `username` for `key` as of now.
    pub fn record(&mut self, key: &str, username: &str)
        ensures
            exists|now: u64| final(self)@ == old(self)@.insert(key@, #[trigger] spec_cached(username@, now)),
    {
        let now = crate::clock::now_unix_millis() as u64;
        self.record_at(key, username, now);
    }

    /// The entries, one for each key.
    pub fn entries(&self) -> (r: Vec<(String, CachedUsername)>)
        ensures
            forall|i: int, j: int| 0 <= i < j < r@.len() ==> #[trigger] r@[i].0@ != #[trigger] r@[j].0@,
            forall|i: int| 0 <= i < r@.len() ==> #[trigger] self@.contains_key(r@[i].0@) && self@[r@[i].0@] == r@[i].1@,
            forall|k: Seq<char>| #[trigger] self@.contains_key(k) ==> exists|i: int| 0 <= i < r@.len() && r@[i].0@ == k,
    {
        proof {
            use_type_invariant(self);
        }
        let mut r: Vec<(String, CachedUsername)> = Vec::new();
        let mut i: usize = 0;
        while i < self.entries.len()
            invariant
                i <= self.entries@.len(),
                r@.len() == i,
                forall|j: int| 0 <= j < i ==> (#[trigger] r@[j]).0@ == self.entries@[j].0@ && r@[j].1@
                    == self.entries@[j].1@,
            decreases self.entries@.len() - i,
        {
            let e = &self.entries[i];
            r.push((e.0.clone(), CachedUsername { username: e.1.username.clone(), cached_at: e.1.cached_at }));
            i = i + 1;
        }
        proof {
            assert forall|a: int, b: int| 0 <= a < b < r@.len() implies #[trigger] r@[a].0@ != #[trigger] r@[b].0@ by {
                assert(self.entries@[a].0@ != self.entries@[b].0@);
            }
            assert forall|a: int| 0 <= a < r@.len() implies #[trigger] self@.contains_key(r@[a].0@) && self@[r@[a].0@]
                == r@[a].1@ by {
                let q = r@[a].0@;
                assert(self.entries@[a].0@ == q);
                let j = self.index_of(q);
                if j != a {
                    if j < a {
                        assert(self.entries@[j].0@ != self.entries@[a].0@);
                    } else {
                        assert(self.entries@[a].0@ != self.entries@[j].0@);
                    }
                }
            }
            assert forall|k: Seq<char>| #[trigger] self@.contains_key(k) implies exists|a: int| 0 <= a < r@.len() && r@[a].0@ == k by {
                let j = choose|j: int| 0 <= j < self.entries@.len() && self.entries@[j].0@ == k;
                assert(r@[j].0@ == k);
            }
        }
        r
    }
}

/// Reading a key back after caching a username for it gives that username
/// and time, fresh at the time it was cached; the entries of other keys stay
/// as they were.
pub proof fn lemma_cache_read_after_write(
    cache: Map<Seq<char>, SpecCachedUsername>,
    key: Seq<char>,
    username: Seq<char>,
    now: u64,
    other: Seq<char>,
)
    ensures
        cache.insert(key, spec_cached(username, now)).contains_key(key),
        cache.insert(key, spec_cached(username, now))[key] == spec_cached(username, now),
        other != key ==> cache.insert(key, spec_cached(username, now)).contains_key(other) == cache.contains_key(
            other,
        ),
        other != key && cache.contains_key(other) ==> cache.insert(key, spec_cached(username, now))[other]
            == cache[other],
        spec_fresh_entry(cache.insert(key, spec_cached(username, now)), key, now) == Some(spec_cached(username, now)),
{
}

/// A public key as stored: its type, and its bytes in base64.
#[derive(Clone, Debug, PartialEq, Eq)]
pub struct StoredPublicKey {
    pub key_type: u64,
    /// Base64 of the key bytes.
    pub key: String,
}

/// A process as stored: its identifier in base64.
#[derive(Clone, Debug, PartialEq, Eq)]
pub struct StoredProcess {
    /// Base64 of the identifier.
    pub process: String,
}

/// An identity as stored: the signing key's secret and the public key and
/// process, in standard base64, and the logical clock.
#[derive(Clone, Debug, PartialEq, Eq)]
pub struct StoredIdentity {
    /// Base64 of the 32 secret bytes of the signing key.
    pub signing_key: String,
    pub public_key: StoredPublicKey,
    pub process: StoredProcess,
    /// The logical clock of the next event.
    pub logical_clock: u64,
}

/// The value of a [`StoredIdentity`].
pub struct SpecStoredIdentity {
    pub signing_key: Seq<char>,
    pub key_type: u64,
    pub public_key: Seq<char>,
    pub process: Seq<char>,
    pub logical_clock: u64,
}

impl View for StoredIdentity {
    type V = SpecStoredIdentity;

    open spec fn view(&self) -> SpecStoredIdentity {
        SpecStoredIdentity {
            signing_key: self.signing_key@,
            key_type: self.public_key.key_type,
            public_key: self.public_key.key@,
            process: self.process.process@,
            logical_clock: self.logical_clock,
        }
    }
}

/// The stored form of an identity: each byte string in standard base64.
pub open spec fn spec_stored_identity(
    secret: Seq<u8>,
    public_key: SpecPublicKey,
    process: SpecProcess,
    logical_clock: u64,
) -> SpecStoredIdentity {
    SpecStoredIdentity {
        signing_key: spec_base64_std(secret),
        key_type: public_key.key_type,
        public_key: spec_base64_std(public_key.key),
        process: spec_base64_std(process.process),
        logical_clock,
    }
}

/// Why a stored identity cannot be read back.
pub enum StoredIdentityFault {
    /// The signing key is not base64.
    SigningKey,
    /// The signing key decodes to this many bytes, not 32.
    SigningKeyLength(nat),
    /// The public key is not base64.
    PublicKey,
    /// The process is not base64.
    Process,
}

/// The identity that a stored record holds, or the first thing wrong with it:
/// the signing key must decode to 32 bytes, and the public key and process
/// must decode.
pub open spec fn spec_identity_of_stored(s: SpecStoredIdentity) -> Result<
    (Seq<u8>, SpecPublicKey, SpecProcess, u64),
    StoredIdentityFault,
> {
    match spec_base64_std_decode(s.signing_key) {
        None => Err(StoredIdentityFault::SigningKey),
        Some(secret) => if secret.len() != 32 {
            Err(StoredIdentityFault::SigningKeyLength(secret.len()))
        } else {
            match spec_base64_std_decode(s.public_key) {
                None => Err(StoredIdentityFault::PublicKey),
                Some(key) => match spec_base64_std_decode(s.process) {
                    None => Err(StoredIdentityFault::Process),
                    Some(process) => Ok(
                        (
                            secret,
                            SpecPublicKey { key_type: s.key_type, key },
                            SpecProcess { process },
                            s.logical_clock,
                        ),
                    ),
                },
            }
        },
    }
}

/// The message that says what is wrong with a stored identity: a fixed
/// prefix, then the base64 crate's description of its error (not stated) or,
/// for a signing key of the wrong length, the length.
pub open spec fn fault_message(fault: StoredIdentityFault, message: Seq<char>) -> bool {
    match fault {
        StoredIdentityFault::SigningKey => exists|detail: Seq<char>|
            message == "Failed to decode signing key: "@ + detail,
        StoredIdentityFault::SigningKeyLength(n) => message == "Invalid signing key length: expected 32 bytes, got "@
            + spec_decimal(n),
        StoredIdentityFault::PublicKey => exists|detail: Seq<char>| message == "Failed to decode public key: "@ + detail,
        StoredIdentityFault::Process => exists|detail: Seq<char>| message == "Failed to decode process: "@ + detail,
    }
}

/// `prefix` followed by `detail`.
fn message(prefix: &str, detail: &str) -> (r: String)
    ensures
        r@ == prefix@ + detail@,
{
    let mut m = String::new();
    push_str(&mut m, prefix);
    push_str(&mut m, detail);
    assert(m@ =~= prefix@ + detail@);
    m
}

impl StoredIdentity {
    /// The stored form of an identity.
    pub fn from_identity(
        signing_key: &SigningKey,
        public_key: &PublicKey,
        process: &Process,
        logical_clock: u64,
    ) -> (r: Self)
        ensures
            r@ == spec_stored_identity(signing_key@, public_key@, process@, logical_clock),
    {
        let secret = signing_key.to_bytes();
        StoredIdentity {
            signing_key: base64_std_encode(secret.as_slice()),
            public_key: StoredPublicKey {
                key_type: public_key.key_type,
                key: base64_std_encode(public_key.key.as_slice()),
            },
            process: StoredProcess { process: base64_std_encode(process.process.as_slice()) },
            logical_clock,
        }
    }

    /// The identity that the record holds; an error message where it cannot be
    /// read back.
    pub fn to_identity(&self) -> (r: Result<(SigningKey, PublicKey, Process, u64), String>)
        ensures
            match spec_identity_of_stored(self@) {
                Ok(t) => r matches Ok(x) && x.0@ == t.0 && x.1@ == t.1 && x.2@ == t.2 && x.3 == t.3,
                Err(fault) => r matches Err(e) && fault_message(fault, e@),
            },
    {
        let signing_key_bytes = match decode_base64_std(self.signing_key.as_str()) {
            Ok(b) => b,
            Err(e) => {
                let m = message("Failed to decode signing key: ", e.as_str());
                return Err(m);
            },
        };
        let signing_key = match signing_key_from_slice(signing_key_bytes.as_slice()) {
            Some(k) => k,
            None => {
                let mut m = String::new();
                push_str(&mut m, "Invalid signing key length: expected 32 bytes, got ");
                push_decimal(&mut m, signing_key_bytes.len() as u64);
                return Err(m);
            },
        };
        let public_key_bytes = match decode_base64_std(self.public_key.key.as_str()) {
            Ok(b) => b,
            Err(e) => {
                let m = message("Failed to decode public key: ", e.as_str());
                return Err(m);
            },
        };
        let public_key = PublicKey { key_type: self.public_key.key_type, key: public_key_bytes };
        let process_bytes = match decode_base64_std(self.process.process.as_str()) {
            Ok(b) => b,
            Err(e) => {
                let m = message("Failed to decode process: ", e.as_str());
                return Err(m);
            },
        };
        let process = Process { process: process_bytes };
        Ok((signing_key, public_key, process, self.logical_clock))
    }
}

/// Reading back the stored form of an identity gives the identity: for every
/// signing key of 32 bytes, public key, process and logical clock.
pub proof fn lemma_stored_identity_round_trip(
    secret: Seq<u8>,
    public_key: SpecPublicKey,
    process: SpecProcess,
    logical_clock: u64,
)
    requires
        secret.len() == 32,
    ensures
        spec_identity_of_stored(spec_stored_identity(secret, public_key, process, logical_clock)) == Ok::<
            (Seq<u8>, SpecPublicKey, SpecProcess, u64),
            StoredIdentityFault,
        >((secret, public_key, process, logical_clock)),
{
    lemma_base64_std_decode(secret);
    lemma_base64_std_decode(public_key.key);
    lemma_base64_std_decode(process.process);
}

} // verus!
