use vstd::prelude::*;

use crate::is_expired_spec;
use crate::keys::check_key_safe;
use crate::keys::key_safe;
use crate::text::str_eq;

verus! {

/// Why a store operation failed.
#[derive(Clone, Copy, Debug, PartialEq, Eq, Structural)]
pub enum StoreError {
    /// The key resolves to no stored object.
    NotFound,
    /// The key could escape the flat namespace and was rejected before
    /// touching the medium.
    InvalidKey,
    /// The storage medium failed (disk full, permission denied). The
    /// in-memory store never produces this; callers that persist on a
    /// real medium map its failures to this variant.
    IoError,
}

/// The mathematical content of one stored object.
pub struct ObjModel {
    pub payload: Seq<u8>,
    pub created_at: u64,
}

struct Entry {
    key: String,
    payload: Vec<u8>,
    created_at: u64,
}

/// A flat namespace of immutable byte blobs, each tagged with the
/// creation time the medium reported. Its view is the map from key to
/// stored object.
pub struct ObjectStore {
    entries: Vec<Entry>,
}

spec fn entry_model(e: Entry) -> ObjModel {
    ObjModel { payload: e.payload@, created_at: e.created_at }
}

spec fn has_key(s: Seq<Entry>, k: Seq<char>) -> bool {
    exists|i: int| 0 <= i < s.len() && s[i].key@ == k
}

spec fn idx_of(s: Seq<Entry>, k: Seq<char>) -> int {
    choose|i: int| 0 <= i < s.len() && s[i].key@ == k
}

spec fn keys_distinct(s: Seq<Entry>) -> bool {
    forall|i: int, j: int| 0 <= i < j < s.len() ==> s[i].key@ != s[j].key@
}

spec fn keys_safe(s: Seq<Entry>) -> bool {
    forall|i: int| 0 <= i < s.len() ==> key_safe(#[trigger] s[i].key@)
}

spec fn view_of(s: Seq<Entry>) -> Map<Seq<char>, ObjModel> {
    Map::new(|k: Seq<char>| has_key(s, k), |k: Seq<char>| entry_model(s[idx_of(s, k)]))
}

impl View for ObjectStore {
    type V = Map<Seq<char>, ObjModel>;

    closed spec fn view(&self) -> Map<Seq<char>, ObjModel> {
        view_of(self.entries@)
    }
}

proof fn lemma_idx(s: Seq<Entry>, j: int)
    requires
        keys_distinct(s),
        0 <= j < s.len(),
    ensures
        has_key(s, s[j].key@),
        idx_of(s, s[j].key@) == j,
{
    assert(has_key(s, s[j].key@));
    let i0 = idx_of(s, s[j].key@);
    assert(0 <= i0 < s.len() && s[i0].key@ == s[j].key@);
    if i0 < j {
        assert(s[i0].key@ != s[j].key@);
    } else if j < i0 {
        assert(s[j].key@ != s[i0].key@);
    }
}

proof fn lemma_view_push(s: Seq<Entry>, e: Entry)
    requires
        keys_distinct(s),
        !has_key(s, e.key@),
    ensures
        keys_distinct(s.push(e)),
        view_of(s.push(e)) == view_of(s).insert(e.key@, entry_model(e)),
{
    let s2 = s.push(e);
    assert forall|i: int, j: int| 0 <= i < j < s2.len() implies s2[i].key@ != s2[j].key@ by {
        if j < s.len() {
            assert(s[i].key@ != s[j].key@);
        } else {
            assert(s2[j] == e);
            assert(s2[i] == s[i]);
            if s[i].key@ == e.key@ {
                assert(has_key(s, e.key@));
            }
        }
    }
    let m2 = view_of(s).insert(e.key@, entry_model(e));
    assert forall|k: Seq<char>| view_of(s2).dom().contains(k) <==> m2.dom().contains(k) by {
        if has_key(s2, k) {
            let i = choose|i: int| 0 <= i < s2.len() && s2[i].key@ == k;
            if i < s.len() {
                assert(s[i].key@ == k);
                assert(has_key(s, k));
            } else {
                assert(s2[i] == e);
            }
        }
        if k == e.key@ {
            lemma_idx(s2, s.len() as int);
            assert(has_key(s2, k));
        }
        if has_key(s, k) {
            let i = choose|i: int| 0 <= i < s.len() && s[i].key@ == k;
            assert(s2[i] == s[i]);
            assert(has_key(s2, k));
        }
    }
    assert forall|k: Seq<char>| view_of(s2).dom().contains(k) implies view_of(s2)[k] == m2[k] by {
        if k == e.key@ {
            lemma_idx(s2, s.len() as int);
            assert(view_of(s2)[k] == entry_model(e));
        } else {
            assert(has_key(s2, k));
            let i = choose|i: int| 0 <= i < s2.len() && s2[i].key@ == k;
            assert(i < s.len());
            assert(s[i].key@ == k);
            lemma_idx(s, i);
            lemma_idx(s2, i);
            assert(view_of(s2)[k] == entry_model(s2[i]));
            assert(view_of(s)[k] == entry_model(s[i]));
        }
    }
    assert(view_of(s2) =~= m2);
}

proof fn lemma_view_remove(s: Seq<Entry>, at: int)
    requires
        keys_distinct(s),
        0 <= at < s.len(),
    ensures
        keys_distinct(s.remove(at)),
        keys_safe(s) ==> keys_safe(s.remove(at)),
        view_of(s.remove(at)) == view_of(s).remove(s[at].key@),
{
    let s3 = s.remove(at);
    assert(s3.len() == s.len() - 1);
    assert forall|j: int| 0 <= j < s3.len() implies s3[j] == (if j < at {
        s[j]
    } else {
        s[j + 1]
    }) by {}
    assert forall|i: int, j: int| 0 <= i < j < s3.len() implies s3[i].key@ != s3[j].key@ by {
        let i1: int = if i < at {
            i
        } else {
            i + 1
        };
        let j1: int = if j < at {
            j
        } else {
            j + 1
        };
        assert(s[i1].key@ != s[j1].key@);
    }
    if keys_safe(s) {
        assert forall|j: int| 0 <= j < s3.len() implies key_safe(#[trigger] s3[j].key@) by {
            if j < at {
                assert(key_safe(s[j].key@));
            } else {
                assert(key_safe(s[j + 1].key@));
            }
        }
    }
    let m3 = view_of(s).remove(s[at].key@);
    assert forall|k: Seq<char>| view_of(s3).dom().contains(k) <==> m3.dom().contains(k) by {
        if has_key(s3, k) {
            let i = choose|i: int| 0 <= i < s3.len() && s3[i].key@ == k;
            let i1: int = if i < at {
                i
            } else {
                i + 1
            };
            assert(s[i1].key@ == k);
            assert(has_key(s, k));
            if k == s[at].key@ {
                lemma_idx(s, at);
                lemma_idx(s, i1);
            }
        }
        if has_key(s, k) && k != s[at].key@ {
            let i = choose|i: int| 0 <= i < s.len() && s[i].key@ == k;
            if i < at {
                assert(s3[i] == s[i]);
                assert(has_key(s3, k));
            } else {
                assert(i != at);
                assert(s3[i - 1] == s[i]);
                assert(has_key(s3, k));
            }
        }
    }
    assert forall|k: Seq<char>| view_of(s3).dom().contains(k) implies view_of(s3)[k] == m3[k] by {
        assert(has_key(s3, k));
        let i = choose|i: int| 0 <= i < s3.len() && s3[i].key@ == k;
        let i1: int = if i < at {
            i
        } else {
            i + 1
        };
        assert(s[i1].key@ == k);
        lemma_idx(s3, i);
        lemma_idx(s, i1);
        assert(view_of(s3)[k] == entry_model(s3[i]));
        assert(view_of(s)[k] == entry_model(s[i1]));
    }
    assert(view_of(s3) =~= m3);
}

impl ObjectStore {
    /// The store's internal consistency: one entry per key, and no
    /// entry whose key could escape the namespace.
    pub closed spec fn wf(&self) -> bool {
        &&& keys_distinct(self.entries@)
        &&& keys_safe(self.entries@)
    }

    /// An empty flat namespace.
    pub fn new() -> (s: ObjectStore)
        ensures
            s.wf(),
            s@ == Map::<Seq<char>, ObjModel>::empty(),
    {
        let s = ObjectStore { entries: Vec::new() };
        proof {
            assert forall|k: Seq<char>| !view_of(s.entries@).dom().contains(k) by {}
            assert(s@ =~= Map::<Seq<char>, ObjModel>::empty());
        }
        s
    }

    fn find(&self, key: &str) -> (r: Option<usize>)
        ensures
            match r {
                Some(i) => i < self.entries@.len() && self.entries@[i as int].key@ == key@,
                None => !has_key(self.entries@, key@),
            },
    {
        let mut i: usize = 0;
        while i < self.entries.len()
            invariant
                0 <= i <= self.entries@.len(),
                forall|j: int| 0 <= j < i ==> self.entries@[j].key@ != key@,
            decreases self.entries@.len() - i,
        {
            if str_eq(self.entries[i].key.as_str(), key) {
                return Some(i);
            }
            i += 1;
        }
        None
    }

    /// Writes `payload` as a new object named `key`, tagged with the
    /// medium-reported creation time `created_at`. A key already in use
    /// is overwritten (two uploads by one caller within one second
    /// collide this way). A key that could escape the namespace is
    /// rejected and nothing is written.
    pub fn put(&mut self, key: &str, payload: Vec<u8>, created_at: u64) -> (r: Result<
        (),
        StoreError,
    >)
        requires
            old(self).wf(),
        ensures
            final(self).wf(),
            key_safe(key@) ==> r == Ok::<(), StoreError>(()) && final(self)@ == old(self)@.insert(
                key@,
                ObjModel { payload: payload@, created_at },
            ),
            !key_safe(key@) ==> r == Err::<(), StoreError>(StoreError::InvalidKey) && final(self)@
                == old(self)@,
    {
        if !check_key_safe(key) {
            return Err(StoreError::InvalidKey);
        }
        let ghost pre = self.entries@;
        let found = self.find(key);
        match found {
            Some(i) => {
                proof {
                    lemma_view_remove(pre, i as int);
                    lemma_idx(pre, i as int);
                }
                self.entries.remove(i);
                proof {
                    assert(!has_key(self.entries@, key@)) by {
                        if has_key(self.entries@, key@) {
                            let j = choose|j: int|
                                0 <= j < self.entries@.len() && self.entries@[j].key@ == key@;
                            lemma_idx(self.entries@, j);
                            assert(view_of(self.entries@).dom().contains(key@));
                            assert(view_of(pre).remove(key@).dom().contains(key@));
                        }
                    }
                }
            },
            None => {},
        }
        let ghost mid = self.entries@;
        let e = Entry { key: key.to_owned(), payload, created_at };
        proof {
            lemma_view_push(mid, e);
            assert forall|j: int|
                0 <= j < mid.push(e).len() implies key_safe(
                #[trigger] mid.push(e)[j].key@,
            ) by {
                if j < mid.len() {
                    assert(key_safe(mid[j].key@));
                }
            }
        }
        self.entries.push(e);
        proof {
            assert(self@ =~= old(self)@.insert(key@, ObjModel { payload: payload@, created_at }));
        }
        Ok(())
    }

    /// Returns the payload stored under `key`. A key that is absent,
    /// or that could escape the namespace, reads as not found; a read
    /// never fails any other way and never reaches outside the
    /// namespace.
    pub fn get<'a>(&'a self, key: &str) -> (r: Result<&'a Vec<u8>, StoreError>)
        requires
            self.wf(),
        ensures
            match r {
                Ok(b) => spec_get(self@, key@) == Some(b@),
                Err(e) => spec_get(self@, key@) is None && e == StoreError::NotFound,
            },
    {
        if !check_key_safe(key) {
            return Err(StoreError::NotFound);
        }
        let found = self.find(key);
        match found {
            Some(i) => {
                proof {
                    lemma_idx(self.entries@, i as int);
                }
                Ok(&self.entries[i].payload)
            },
            None => Err(StoreError::NotFound),
        }
    }

    /// Removes the object stored under `key`. Deleting a key that is
    /// absent (for instance because an earlier sweep already removed
    /// it) reports not found and changes nothing.
    pub fn delete(&mut self, key: &str) -> (r: Result<(), StoreError>)
        requires
            old(self).wf(),
        ensures
            final(self).wf(),
            key_safe(key@) && old(self)@.contains_key(key@) ==> r == Ok::<(), StoreError>(())
                && final(self)@ == old(self)@.remove(key@),
            !(key_safe(key@) && old(self)@.contains_key(key@)) ==> r == Err::<(), StoreError>(
                StoreError::NotFound,
            ) && final(self)@ == old(self)@,
    {
        if !check_key_safe(key) {
            return Err(StoreError::NotFound);
        }
        let found = self.find(key);
        match found {
            Some(i) => {
                proof {
                    lemma_view_remove(self.entries@, i as int);
                    lemma_idx(self.entries@, i as int);
                }
                self.entries.remove(i);
                Ok(())
            },
            None => Err(StoreError::NotFound),
        }
    }

    /// Enumerates every stored object with its medium-reported
    /// creation time: one pair per object, keys never repeated.
    pub fn list(&self) -> (r: Vec<(String, u64)>)
        requires
            self.wf(),
        ensures
            forall|j: int|
                0 <= j < r@.len() ==> self@.contains_key(#[trigger] r@[j].0@)
                    && self@[r@[j].0@].created_at == r@[j].1,
            forall|k: Seq<char>|
                #[trigger] self@.contains_key(k) ==> exists|j: int|
                    0 <= j < r@.len() && #[trigger] r@[j].0@ == k,
            forall|j1: int, j2: int| 0 <= j1 < j2 < r@.len() ==> r@[j1].0@ != r@[j2].0@,
    {
        let mut r: Vec<(String, u64)> = Vec::new();
        let mut i: usize = 0;
        while i < self.entries.len()
            invariant
                self.wf(),
                0 <= i <= self.entries@.len(),
                r@.len() == i,
                forall|j: int|
                    0 <= j < i ==> (#[trigger] r@[j]).0@ == self.entries@[j].key@ && r@[j].1
                        == self.entries@[j].created_at,
            decreases self.entries@.len() - i,
        {
            let k = self.entries[i].key.clone();
            let t = self.entries[i].created_at;
            r.push((k, t));
            i += 1;
        }
        proof {
            assert forall|j: int|
                0 <= j < r@.len() implies self@.contains_key(#[trigger] r@[j].0@)
                    && self@[r@[j].0@].created_at == r@[j].1 by {
                lemma_idx(self.entries@, j);
            }
            assert forall|k: Seq<char>| #[trigger] self@.contains_key(k) implies exists|j: int|
                0 <= j < r@.len() && #[trigger] r@[j].0@ == k by {
                let i0 = choose|i0: int|
                    0 <= i0 < self.entries@.len() && self.entries@[i0].key@ == k;
                assert(r@[i0].0@ == k);
            }
            assert forall|j1: int, j2: int|
                0 <= j1 < j2 < r@.len() implies r@[j1].0@ != r@[j2].0@ by {
                assert(self.entries@[j1].key@ != self.entries@[j2].key@);
            }
        }
        r
    }

    /// One pass of the retention sweeper: deletes exactly the objects
    /// whose medium-reported age exceeds the window, and leaves every
    /// younger object untouched.
    pub fn sweep(&mut self, now: u64, window: u64)
        requires
            old(self).wf(),
        ensures
            final(self).wf(),
            final(self)@ == spec_sweep(old(self)@, now, window),
    {
        let ghost m0 = old(self)@;
        let mut i: usize = 0;
        while i < self.entries.len()
            invariant
                self.wf(),
                0 <= i <= self.entries@.len(),
                forall|j: int|
                    0 <= j < i ==> !is_expired_spec(
                        (#[trigger] self.entries@[j]).created_at,
                        now,
                        window,
                    ),
                forall|k: Seq<char>|
                    #[trigger] self@.contains_key(k) ==> m0.contains_key(k) && self@[k] == m0[k],
                forall|k: Seq<char>|
                    m0.contains_key(k) && !is_expired_spec(m0[k].created_at, now, window)
                        ==> #[trigger] self@.contains_key(k),
            decreases self.entries@.len() - i,
        {
            let expired = crate::is_expired(self.entries[i].created_at, now, window);
            if expired {
                let ghost pre = self.entries@;
                let ghost vpre = self@;
                let ghost kr = self.entries@[i as int].key@;
                proof {
                    lemma_view_remove(pre, i as int);
                    lemma_idx(pre, i as int);
                    assert(vpre.contains_key(kr));
                    assert(vpre[kr] == entry_model(pre[i as int]));
                }
                self.entries.remove(i);
                proof {
                    assert(self@ == vpre.remove(kr));
                    assert forall|k: Seq<char>| #[trigger] self@.contains_key(k) implies
                    m0.contains_key(k) && self@[k] == m0[k] by {
                        assert(vpre.contains_key(k));
                        assert(self@[k] == vpre[k]);
                    }
                    assert forall|k: Seq<char>|
                        m0.contains_key(k) && !is_expired_spec(m0[k].created_at, now, window)
                            implies #[trigger] self@.contains_key(k) by {
                        assert(vpre.contains_key(k));
                        if k == kr {
                            assert(vpre[kr] == m0[kr]);
                            assert(is_expired_spec(m0[kr].created_at, now, window));
                        }
                    }
                }
            } else {
                i += 1;
            }
        }
        proof {
            let m1 = spec_sweep(m0, now, window);
            assert forall|k: Seq<char>| #[trigger] self@.contains_key(k) implies m1.contains_key(k)
                && self@[k] == m1[k] by {
                let j = choose|j: int|
                    0 <= j < self.entries@.len() && self.entries@[j].key@ == k;
                lemma_idx(self.entries@, j);
                assert(self@[k] == entry_model(self.entries@[j]));
                assert(!is_expired_spec(self.entries@[j].created_at, now, window));
            }
            assert forall|k: Seq<char>|
                #[trigger] m1.contains_key(k) implies self@.contains_key(k) by {}
            assert(self@ =~= m1);
        }
    }
}

/// What a read of `k` observes in store state `m`: the payload if the
/// key is usable and present, nothing otherwise.
pub open spec fn spec_get(m: Map<Seq<char>, ObjModel>, k: Seq<char>) -> Option<Seq<u8>> {
    if key_safe(k) && m.contains_key(k) {
        Some(m[k].payload)
    } else {
        None
    }
}

/// One pass of the retention sweeper over store state `m` at time
/// `now`: every object older than `window` is dropped, every younger
/// object is kept with its payload and creation time unchanged.
pub open spec fn spec_sweep(m: Map<Seq<char>, ObjModel>, now: u64, window: u64) -> Map<
    Seq<char>,
    ObjModel,
> {
    Map::new(
        |k: Seq<char>| m.contains_key(k) && !is_expired_spec(m[k].created_at, now, window),
        |k: Seq<char>| m[k],
    )
}

/// Round trip: writing a payload under a safe key and then reading
/// that key back yields exactly the written payload, whatever the
/// store held before.
pub proof fn lemma_put_then_get(m: Map<Seq<char>, ObjModel>, k: Seq<char>, p: Seq<u8>, t: u64)
    requires
        key_safe(k),
    ensures
        spec_get(m.insert(k, ObjModel { payload: p, created_at: t }), k) == Some(p),
{
}

/// A key never written reads as not found, and so does a key that
/// could escape the namespace: neither observes anything.
pub proof fn lemma_get_absent(m: Map<Seq<char>, ObjModel>, k: Seq<char>)
    ensures
        !m.contains_key(k) ==> spec_get(m, k) is None,
        !key_safe(k) ==> spec_get(m, k) is None,
{
}

/// An object whose age exceeds the window at sweep time is absent
/// after the sweep completes.
pub proof fn lemma_sweep_removes_expired(
    m: Map<Seq<char>, ObjModel>,
    k: Seq<char>,
    now: u64,
    window: u64,
)
    requires
        m.contains_key(k),
        is_expired_spec(m[k].created_at, now, window),
    ensures
        !spec_sweep(m, now, window).contains_key(k),
{
}

/// An object younger than the window survives a sweep unchanged; by
/// induction over passes, it survives any number of sweeps run while
/// it is still younger than the window.
pub proof fn lemma_sweep_retains_young(
    m: Map<Seq<char>, ObjModel>,
    k: Seq<char>,
    now: u64,
    window: u64,
)
    requires
        m.contains_key(k),
        !is_expired_spec(m[k].created_at, now, window),
    ensures
        spec_sweep(m, now, window).contains_key(k),
        spec_sweep(m, now, window)[k] == m[k],
{
}

/// The store state after a series of sweeper passes run at the given
/// times, earliest pass first.
pub open spec fn spec_sweep_many(m: Map<Seq<char>, ObjModel>, times: Seq<u64>, window: u64) -> Map<
    Seq<char>,
    ObjModel,
>
    decreases times.len(),
{
    if times.len() == 0 {
        m
    } else {
        spec_sweep_many(spec_sweep(m, times[0], window), times.drop_first(), window)
    }
}

/// An object that is younger than the window at every pass survives
/// any number of sweeps unchanged.
pub proof fn lemma_sweep_many_retains_young(
    m: Map<Seq<char>, ObjModel>,
    k: Seq<char>,
    times: Seq<u64>,
    window: u64,
)
    requires
        m.contains_key(k),
        forall|i: int|
            0 <= i < times.len() ==> !is_expired_spec(
                m[k].created_at,
                #[trigger] times[i],
                window,
            ),
    ensures
        spec_sweep_many(m, times, window).contains_key(k),
        spec_sweep_many(m, times, window)[k] == m[k],
    decreases times.len(),
{
    if times.len() > 0 {
        lemma_sweep_retains_young(m, k, times[0], window);
        let m1 = spec_sweep(m, times[0], window);
        assert forall|i: int|
            0 <= i < times.drop_first().len() implies !is_expired_spec(
            m1[k].created_at,
            #[trigger] times.drop_first()[i],
            window,
        ) by {
            assert(times.drop_first()[i] == times[i + 1]);
        }
        lemma_sweep_many_retains_young(m1, k, times.drop_first(), window);
    }
}

/// Sweeping an empty store is a no-op.
pub proof fn lemma_sweep_empty(now: u64, window: u64)
    ensures
        spec_sweep(Map::<Seq<char>, ObjModel>::empty(), now, window) == Map::<
            Seq<char>,
            ObjModel,
        >::empty(),
{
    assert(spec_sweep(Map::<Seq<char>, ObjModel>::empty(), now, window) =~= Map::<
        Seq<char>,
        ObjModel,
    >::empty());
}

/// Sweeping is idempotent: a second pass at the same time over an
/// already-swept store changes nothing.
pub proof fn lemma_sweep_idempotent(m: Map<Seq<char>, ObjModel>, now: u64, window: u64)
    ensures
        spec_sweep(spec_sweep(m, now, window), now, window) == spec_sweep(m, now, window),
{
    assert(spec_sweep(spec_sweep(m, now, window), now, window) =~= spec_sweep(m, now, window));
}

} // verus!
