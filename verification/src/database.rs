//! The keyspace: a mapping from byte-string keys to records with optional
//! expiry, with lazy expiration decided by the caller against a clock value.
use vstd::prelude::*;

use crate::resp::{clone_bytes, Resp, RespVal};

verus! {

/// A stored value plus an optional expiry, given as the clock reading at
/// insertion and a time-to-live, both in milliseconds.
#[derive(Debug, PartialEq, Eq, Hash)]
pub struct Record {
    pub data: Vec<u8>,
    pub expiry: Option<(u64, u64)>,
}

pub ghost struct RecordVal {
    pub data: Seq<u8>,
    pub expiry: Option<(u64, u64)>,
}

impl View for Record {
    type V = RecordVal;

    open spec fn view(&self) -> RecordVal {
        RecordVal { data: self.data@, expiry: self.expiry }
    }
}

impl Clone for Record {
    /// A deep copy with the same data and expiry.
    fn clone(&self) -> (r: Self)
        ensures
            r@ == self@,
    {
        Record { data: clone_bytes(&self.data), expiry: self.expiry }
    }
}

impl Record {
    /// Whether the record, created at `expiry.0` with time to live
    /// `expiry.1`, is expired when the clock reads `now_ms`.
    pub open spec fn spec_expired(self_v: RecordVal, now_ms: u64) -> bool {
        match self_v.expiry {
            Option::Some(pair) => now_ms - pair.0 >= pair.1,
            Option::None => false,
        }
    }

    /// A record from a parsed value: only a bulk string can be stored.
    pub fn from_resp(resp: Resp) -> (r: Option<Record>)
        ensures
            match resp@ {
                RespVal::BulkString(b) => r matches Option::Some(rec) && rec@.data == b
                    && rec@.expiry is None,
                _ => r is None,
            },
    {
        match resp {
            Resp::BulkString(b) => Some(Record { data: b, expiry: None }),
            _ => None,
        }
    }

    pub fn from_vec(v: Vec<u8>) -> (r: Record)
        ensures
            r@.data == v@,
            r@.expiry is None,
    {
        Record { data: v, expiry: None }
    }

    /// Stamp the record with the clock reading at insertion and a ttl.
    pub fn set_expiry(&mut self, now_ms: u64, ttl_ms: u64)
        ensures
            final(self)@.data == old(self)@.data,
            final(self)@.expiry == Option::Some((now_ms, ttl_ms)),
    {
        self.expiry = Some((now_ms, ttl_ms));
    }

    /// Expiry test against a caller-supplied clock reading.
    pub fn has_expired(&self, now_ms: u64) -> (r: bool)
        ensures
            r == Record::spec_expired(self@, now_ms),
    {
        match self.expiry {
            Some((created, ttl)) => now_ms >= created && now_ms - created >= ttl,
            None => false,
        }
    }
}

/// The shared keyspace. Keys are unique; a lookup sees the most recent
/// record stored under its key.
pub struct Database {
    store: Vec<(Vec<u8>, Record)>,
}

/// First-match lookup in the backing association list.
pub open spec fn assoc_lookup(s: Seq<(Vec<u8>, Record)>, key: Seq<u8>) -> Option<RecordVal>
    decreases s.len(),
{
    if s.len() == 0 {
        Option::None
    } else if s[0].0@ == key {
        Option::Some(s[0].1@)
    } else {
        assoc_lookup(s.skip(1), key)
    }
}

proof fn lemma_assoc_update(s: Seq<(Vec<u8>, Record)>, i: int, e: (Vec<u8>, Record))
    requires
        0 <= i < s.len(),
        s[i].0@ == e.0@,
    ensures
        assoc_lookup(s.update(i, e), e.0@) == Option::Some(e.1@) || exists|j: int|
            0 <= j < i && s[j].0@ == e.0@,
        forall|k2: Seq<u8>|
            k2 != e.0@ ==> assoc_lookup(s.update(i, e), k2) == assoc_lookup(s, k2),
    decreases s.len(),
{
    let su = s.update(i, e);
    if i == 0 {
        assert(su[0] == e);
        assert(su.skip(1) =~= s.skip(1));
        assert forall|k2: Seq<u8>| k2 != e.0@ implies assoc_lookup(su, k2) == assoc_lookup(
            s,
            k2,
        ) by {
            assert(s[0].0@ == e.0@);
        }
    } else {
        lemma_assoc_update(s.skip(1), i - 1, e);
        assert(su.skip(1) =~= s.skip(1).update(i - 1, e));
        assert(su[0] == s[0]);
        if s[0].0@ == e.0@ {
        } else {
            assert(assoc_lookup(su, e.0@) == assoc_lookup(s.skip(1).update(i - 1, e), e.0@));
        }
        assert forall|k2: Seq<u8>| k2 != e.0@ implies assoc_lookup(su, k2) == assoc_lookup(
            s,
            k2,
        ) by {
            if s[0].0@ != k2 {
                assert(assoc_lookup(su, k2) == assoc_lookup(s.skip(1).update(i - 1, e), k2));
                assert(assoc_lookup(s, k2) == assoc_lookup(s.skip(1), k2));
            }
        }
    }
}

proof fn lemma_assoc_no_match_prefix(s: Seq<(Vec<u8>, Record)>, i: int, key: Seq<u8>)
    requires
        0 <= i <= s.len(),
        forall|j: int| 0 <= j < i ==> s[j].0@ != key,
    ensures
        assoc_lookup(s, key) == assoc_lookup(s.skip(i), key),
    decreases i,
{
    if i > 0 {
        lemma_assoc_no_match_prefix(s.skip(1), i - 1, key);
        assert(s.skip(1).skip(i - 1) =~= s.skip(i));
    } else {
        assert(s.skip(0) =~= s);
    }
}

proof fn lemma_assoc_remove(s: Seq<(Vec<u8>, Record)>, i: int, key: Seq<u8>)
    requires
        0 <= i < s.len(),
        s[i].0@ == key,
        forall|j: int| 0 <= j < i ==> s[j].0@ != key,
    ensures
        forall|k2: Seq<u8>|
            k2 != key ==> assoc_lookup(s.subrange(0, i) + s.subrange(i + 1, s.len() as int), k2)
                == assoc_lookup(s, k2),
        assoc_lookup(s.subrange(0, i) + s.subrange(i + 1, s.len() as int), key)
            == assoc_lookup(s.skip(i + 1), key),
    decreases s.len(),
{
    let rem = s.subrange(0, i) + s.subrange(i + 1, s.len() as int);
    if i == 0 {
        assert(rem =~= s.skip(1));
        assert forall|k2: Seq<u8>| k2 != key implies assoc_lookup(rem, k2) == assoc_lookup(
            s,
            k2,
        ) by {
            assert(s[0].0@ == key);
        }
        assert(s.skip(1) =~= s.skip(i + 1));
    } else {
        lemma_assoc_remove(s.skip(1), i - 1, key);
        let rem1 = s.skip(1).subrange(0, i - 1) + s.skip(1).subrange(i, s.len() - 1);
        assert(rem.skip(1) =~= rem1);
        assert(rem[0] == s[0]);
        assert(s.skip(1).skip(i) =~= s.skip(i + 1));
        assert forall|k2: Seq<u8>| k2 != key implies assoc_lookup(rem, k2) == assoc_lookup(
            s,
            k2,
        ) by {
            if s[0].0@ != k2 {
                assert(assoc_lookup(rem, k2) == assoc_lookup(rem1, k2));
                assert(assoc_lookup(s, k2) == assoc_lookup(s.skip(1), k2));
            }
        }
        assert(assoc_lookup(rem, key) == assoc_lookup(rem1, key));
    }
}

impl Database {
    /// What each key maps to; `None` when absent.
    pub closed spec fn spec_lookup(&self, key: Seq<u8>) -> Option<RecordVal> {
        assoc_lookup(self.store@, key)
    }

    /// No two entries share a key.
    pub closed spec fn inv(&self) -> bool {
        forall|j1: int, j2: int|
            0 <= j1 < j2 < self.store@.len() ==> (#[trigger] self.store@[j1]).0@ != (
            #[trigger] self.store@[j2]).0@
    }

    pub fn new() -> (r: Database)
        ensures
            r.inv(),
            forall|k: Seq<u8>| r.spec_lookup(k) is None,
    {
        let r = Database { store: Vec::new() };
        proof {
            assert(forall|k: Seq<u8>| assoc_lookup(r.store@, k) is None);
        }
        r
    }

    fn find(&self, key: &Vec<u8>) -> (r: Option<usize>)
        ensures
            match r {
                Option::Some(i) => i < self.store@.len() && self.store@[i as int].0@ == key@ && (
                forall|j: int| 0 <= j < i ==> self.store@[j].0@ != key@) && self.spec_lookup(key@)
                    == Option::Some(self.store@[i as int].1@),
                Option::None => self.spec_lookup(key@) is None,
            },
    {
        let ghost s = self.store@;
        let n = self.store.len();
        let mut i: usize = 0;
        while i < n
            invariant
                0 <= i <= n,
                n == s.len(),
                s == self.store@,
                forall|j: int| 0 <= j < i ==> s[j].0@ != key@,
            decreases n - i,
        {
            if bytes_eq(&self.store[i].0, key) {
                proof {
                    lemma_assoc_no_match_prefix(s, i as int, key@);
                }
                return Some(i);
            }
            i += 1;
        }
        proof {
            lemma_assoc_no_match_prefix(s, n as int, key@);
            assert(s.skip(n as int) =~= Seq::<(Vec<u8>, Record)>::empty());
        }
        None
    }

    /// Store a record under a key, returning the record it replaced.
    pub fn set(&mut self, key: Vec<u8>, value: Record) -> (r: Option<Record>)
        requires
            old(self).inv(),
        ensures
            final(self).inv(),
            final(self).spec_lookup(key@) == Option::Some(value@),
            forall|k2: Seq<u8>|
                k2 != key@ ==> final(self).spec_lookup(k2) == old(self).spec_lookup(k2),
            match old(self).spec_lookup(key@) {
                Option::Some(prev) => r matches Option::Some(pr) && pr@ == prev,
                Option::None => r is None,
            },
    {
        let ghost s = self.store@;
        match self.find(&key) {
            Some(i) => {
                let prev = self.store[i].1.clone();
                let ghost e0 = (key, value);
                self.store.set(i, (key, value));
                proof {
                    lemma_assoc_update(s, i as int, e0);
                    if exists|j: int| 0 <= j < i && s[j].0@ == e0.0@ {
                        assert(false);
                    }
                    assert(forall|j: int|
                        0 <= j < self.store@.len() && j != i ==> self.store@[j] == s[j]);
                    assert(self.store@[i as int].0@ == s[i as int].0@);
                }
                Some(prev)
            },
            None => {
                let ghost e0 = (key, value);
                self.store.push((key, value));
                proof {
                    lemma_push_lookup(s, e0);
                    lemma_assoc_none(s, e0.0@);
                    assert(self.store@ =~= s.push(e0));
                    assert(forall|j: int| 0 <= j < s.len() ==> (#[trigger] s[j]).0@ != e0.0@);
                }
                None
            },
        }
    }

    /// A copy of the record under a key, if any.
    pub fn get(&self, key: &Vec<u8>) -> (r: Option<Record>)
        ensures
            match self.spec_lookup(key@) {
                Option::Some(rec) => r matches Option::Some(pr) && pr@ == rec,
                Option::None => r is None,
            },
    {
        match self.find(key) {
            Some(i) => Some(self.store[i].1.clone()),
            None => None,
        }
    }

    pub fn contains_key(&self, key: &Vec<u8>) -> (r: bool)
        ensures
            r == self.spec_lookup(key@) is Some,
    {
        match self.find(key) {
            Some(_) => true,
            None => false,
        }
    }

    /// Remove the record under a key; true when one was there.
    pub fn del(&mut self, key: &Vec<u8>) -> (r: bool)
        requires
            old(self).inv(),
        ensures
            final(self).inv(),
            final(self).spec_lookup(key@) is None,
            forall|k2: Seq<u8>|
                k2 != key@ ==> final(self).spec_lookup(k2) == old(self).spec_lookup(k2),
            r == old(self).spec_lookup(key@) is Some,
            old(self).spec_lookup(key@) is None ==> *final(self) == *old(self),
    {
        let ghost s = self.store@;
        match self.find(key) {
            Some(i) => {
                self.store.remove(i);
                proof {
                    lemma_assoc_remove(s, i as int, key@);
                    assert(self.store@ =~= s.subrange(0, i as int) + s.subrange(
                        i + 1,
                        s.len() as int,
                    ));
                    assert(forall|j: int|
                        0 <= j < s.skip(i + 1).len() ==> (#[trigger] s.skip(i + 1)[j]).0@ != key@);
                    lemma_assoc_none(s.skip(i + 1), key@);
                }
                true
            },
            None => false,
        }
    }
}

/// Lookup misses exactly when no entry bears the key.
proof fn lemma_assoc_none(s: Seq<(Vec<u8>, Record)>, key: Seq<u8>)
    ensures
        (assoc_lookup(s, key) is None) == (forall|j: int|
            0 <= j < s.len() ==> (#[trigger] s[j]).0@ != key),
    decreases s.len(),
{
    if s.len() > 0 {
        lemma_assoc_none(s.skip(1), key);
        if s[0].0@ != key {
            assert(forall|j: int| 1 <= j < s.len() ==> s.skip(1)[j - 1] == s[j]);
            if assoc_lookup(s, key) is None {
                assert(forall|j: int|
                    0 <= j < s.len() ==> (#[trigger] s[j]).0@ != key) by {
                    assert(forall|j: int|
                        1 <= j < s.len() ==> (#[trigger] s[j]).0@ == s.skip(1)[j - 1].0@);
                }
            }
        }
    }
}

proof fn lemma_push_lookup(s: Seq<(Vec<u8>, Record)>, e: (Vec<u8>, Record))
    ensures
        assoc_lookup(s.push(e), e.0@) == Option::Some(e.1@) || assoc_lookup(s, e.0@) is Some,
        forall|k2: Seq<u8>| k2 != e.0@ ==> assoc_lookup(s.push(e), k2) == assoc_lookup(s, k2),
    decreases s.len(),
{
    if s.len() == 0 {
        assert(s.push(e)[0] == e);
        assert(s.push(e).skip(1) =~= Seq::<(Vec<u8>, Record)>::empty());
        assert forall|k2: Seq<u8>| k2 != e.0@ implies assoc_lookup(s.push(e), k2) == assoc_lookup(
            s,
            k2,
        ) by {
            assert(assoc_lookup(s.push(e), k2) == assoc_lookup(
                Seq::<(Vec<u8>, Record)>::empty(),
                k2,
            ));
        }
    } else {
        lemma_push_lookup(s.skip(1), e);
        assert(s.push(e).skip(1) =~= s.skip(1).push(e));
        assert(s.push(e)[0] == s[0]);
        assert forall|k2: Seq<u8>| k2 != e.0@ implies assoc_lookup(s.push(e), k2) == assoc_lookup(
            s,
            k2,
        ) by {
            if s[0].0@ != k2 {
                assert(assoc_lookup(s.push(e), k2) == assoc_lookup(s.skip(1).push(e), k2));
                assert(assoc_lookup(s, k2) == assoc_lookup(s.skip(1), k2));
            }
        }
    }
}

/// Byte-for-byte equality of two keys.
pub fn bytes_eq(a: &Vec<u8>, b: &Vec<u8>) -> (r: bool)
    ensures
        r == (a@ == b@),
{
    let n = a.len();
    if n != b.len() {
        proof {
            assert(a@.len() != b@.len());
        }
        return false;
    }
    let mut i: usize = 0;
    while i < n
        invariant
            0 <= i <= n,
            n == a@.len() == b@.len(),
            forall|k: int| 0 <= k < i ==> a@[k] == b@[k],
        decreases n - i,
    {
        if a[i] != b[i] {
            proof {
                assert(a@[i as int] != b@[i as int]);
            }
            return false;
        }
        i += 1;
    }
    proof {
        assert(a@ =~= b@);
    }
    true
}

} // verus!
