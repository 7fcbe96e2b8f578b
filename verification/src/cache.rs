//! The face cache of one backend: a map from a face's identity key to the
//! loaded, backend-specific face handle. Entries are only ever added, never
//! evicted, and a failed load is never cached.

use vstd::prelude::*;
use crate::text::chars_eq;

verus! {

/// First position of a key in a key list, or `-1` when it is absent.
pub open spec fn key_pos(keys: Seq<Seq<char>>, k: Seq<char>) -> int
    decreases keys.len(),
{
    if keys.len() == 0 {
        -1
    } else if keys[0] == k {
        0
    } else {
        let r = key_pos(keys.drop_first(), k);
        if r < 0 {
            -1
        } else {
            r + 1
        }
    }
}

/// What `key_pos` finds: a valid position holding the key, or absence.
pub proof fn lemma_key_pos_bounds(keys: Seq<Seq<char>>, k: Seq<char>)
    ensures
        key_pos(keys, k) >= 0 ==> key_pos(keys, k) < keys.len() && keys[key_pos(keys, k)] == k,
        key_pos(keys, k) == -1 ==> forall|i: int| 0 <= i < keys.len() ==> keys[i] != k,
        key_pos(keys, k) >= -1,
    decreases keys.len(),
{
    if keys.len() > 0 && keys[0] != k {
        lemma_key_pos_bounds(keys.drop_first(), k);
        assert forall|i: int| key_pos(keys, k) == -1 && 0 <= i < keys.len() implies keys[i]
            != k by {
            if i > 0 {
                assert(keys.drop_first()[i - 1] == keys[i]);
            }
        }
    }
}

/// `key_pos` finds the first occurrence.
proof fn lemma_key_pos_first(keys: Seq<Seq<char>>, k: Seq<char>, i: int)
    requires
        0 <= i <= keys.len(),
        forall|j: int| 0 <= j < i ==> keys[j] != k,
        i < keys.len() ==> keys[i] == k,
    ensures
        key_pos(keys, k) == if i < keys.len() {
            i
        } else {
            -1
        },
    decreases keys.len(),
{
    if keys.len() == 0 {
    } else if keys[0] == k {
        assert(i == 0);
    } else {
        assert(i >= 1 || i == 0);
        if i == 0 {
            assert(keys[0] == k);
            assert(false);
        }
        assert(forall|j: int| 0 <= j < i - 1 ==> keys.drop_first()[j] == keys[j + 1]);
        lemma_key_pos_first(keys.drop_first(), k, i - 1);
    }
}

/// Once a key is stored, it is found, at the position it was stored at:
/// a later load with the same key is answered from the cache, without the
/// backend's parser.
pub proof fn lemma_store_then_found(keys: Seq<Seq<char>>, k: Seq<char>)
    requires
        key_pos(keys, k) == -1,
    ensures
        key_pos(keys.push(k), k) == keys.len(),
{
    lemma_key_pos_bounds(keys, k);
    assert(forall|j: int| 0 <= j < keys.len() ==> keys.push(k)[j] == keys[j]);
    assert(keys.push(k)[keys.len() as int] == k);
    lemma_key_pos_first(keys.push(k), k, keys.len() as int);
}

/// A backend's cache of loaded faces, keyed by face identity. It only
/// grows; the handle stored for a key never changes.
pub struct FaceCache<H> {
    keys: Vec<Vec<char>>,
    faces: Vec<H>,
}

impl<H> FaceCache<H> {
    /// The identity keys, in the order their faces were loaded.
    pub closed spec fn keys_view(&self) -> Seq<Seq<char>> {
        self.keys@.map_values(|k: Vec<char>| k@)
    }

    /// The loaded face handles, in the same order.
    pub closed spec fn faces_view(&self) -> Seq<H> {
        self.faces@
    }

    /// Each key has exactly one face, and no key appears twice.
    pub open spec fn wf(&self) -> bool {
        &&& self.keys_view().len() == self.faces_view().len()
        &&& forall|i: int, j: int|
            0 <= i < j < self.keys_view().len() ==> self.keys_view()[i] != self.keys_view()[j]
    }

    /// Whether a face is cached under this key.
    pub open spec fn contains_key(&self, k: Seq<char>) -> bool {
        key_pos(self.keys_view(), k) >= 0
    }

    /// An empty cache.
    pub fn new() -> (r: Self)
        ensures
            r.wf(),
            r.keys_view() == Seq::<Seq<char>>::empty(),
            r.faces_view() == Seq::<H>::empty(),
    {
        let r = FaceCache { keys: Vec::new(), faces: Vec::new() };
        proof {
            assert(r.keys_view() =~= Seq::<Seq<char>>::empty());
        }
        r
    }

    /// How many faces are cached.
    pub fn len(&self) -> (r: usize)
        ensures
            r == self.keys_view().len(),
    {
        self.keys.len()
    }

    /// The position of the face cached under a key, if any. No I/O and no
    /// change to the cache.
    pub fn lookup(&self, key: &Vec<char>) -> (r: Option<usize>)
        ensures
            match r {
                Some(i) => key_pos(self.keys_view(), key@) == i,
                None => key_pos(self.keys_view(), key@) == -1,
            },
    {
        let n: usize = self.keys.len();
        let mut i: usize = 0;
        while i < n
            invariant
                n == self.keys_view().len(),
                i <= n,
                forall|j: int| 0 <= j < i ==> self.keys_view()[j] != key@,
            decreases n - i,
        {
            if chars_eq(&self.keys[i], key) {
                proof {
                    assert(self.keys_view()[i as int] == key@);
                    lemma_key_pos_first(self.keys_view(), key@, i as int);
                }
                return Some(i);
            }
            i = i + 1;
        }
        proof {
            lemma_key_pos_first(self.keys_view(), key@, n as int);
        }
        None
    }

    /// The face at a cache position.
    pub fn face(&self, i: usize) -> (r: &H)
        requires
            i < self.faces_view().len(),
        ensures
            *r == self.faces_view()[i as int],
    {
        &self.faces[i]
    }

    /// Cache a freshly loaded face under its key. The key must be new: a
    /// cached face is never replaced.
    pub fn store(&mut self, key: Vec<char>, face: H)
        requires
            old(self).wf(),
            key_pos(old(self).keys_view(), key@) == -1,
        ensures
            final(self).wf(),
            final(self).keys_view() == old(self).keys_view().push(key@),
            final(self).faces_view() == old(self).faces_view().push(face),
    {
        proof {
            lemma_key_pos_bounds(self.keys_view(), key@);
        }
        let ghost old_keys: Seq<Seq<char>> = self.keys_view();
        self.keys.push(key);
        self.faces.push(face);
        proof {
            assert(self.keys_view() =~= old_keys.push(key@));
        }
    }
}

} // verus!
