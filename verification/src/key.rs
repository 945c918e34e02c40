use vstd::prelude::*;

verus! {

/// Key material bound to a volume: an owned buffer whose length is
/// tracked exactly.
#[derive(Debug)]
pub struct VolumeKey {
    pub id: i32,
    pub keylength: usize,
    pub key_description: String,
    pub key: Vec<u8>,
}

impl VolumeKey {
    /// The buffer holds exactly `keylength` bytes.
    pub open spec fn wf(self) -> bool {
        self.key@.len() == self.keylength
    }
}

/// Holds the volume keys of a device session. Released keys are
/// overwritten with zeros before they leave the store.
#[derive(Debug)]
pub struct VolumeKeyStore {
    keys: Vec<VolumeKey>,
    next_id: i32,
}

pub open spec fn all_zero(s: Seq<u8>) -> bool {
    forall|i: int| 0 <= i < s.len() ==> s[i] == 0u8
}

impl VolumeKeyStore {
    pub closed spec fn keys_view(self) -> Seq<VolumeKey> {
        self.keys@
    }

    pub closed spec fn wf(self) -> bool {
        &&& forall|i: int| 0 <= i < self.keys@.len() ==> (#[trigger] self.keys@[i]).wf()
        &&& forall|i: int|
            0 <= i < self.keys@.len() ==> (#[trigger] self.keys@[i]).id < self.next_id
        &&& forall|i: int, j: int|
            0 <= i < j < self.keys@.len() ==> (#[trigger] self.keys@[i]).id != (#[trigger] self.keys@[j]).id
    }

    /// Whether the store holds a key under `id`.
    pub closed spec fn holds_key(self, id: i32) -> bool {
        exists|i: int| 0 <= i < self.keys@.len() && (#[trigger] self.keys@[i]).id == id
    }

    pub closed spec fn key_index(self, id: i32) -> int {
        choose|i: int| 0 <= i < self.keys@.len() && (#[trigger] self.keys@[i]).id == id
    }

    /// Whether the store can accept another key (its id counter has
    /// room).
    pub closed spec fn can_store(self) -> bool {
        self.next_id < i32::MAX
    }

    /// The bytes stored under `id`.
    pub closed spec fn key_bytes(self, id: i32) -> Seq<u8> {
        self.keys@[self.key_index(id)].key@
    }

    pub fn new() -> (r: VolumeKeyStore)
        ensures
            r.wf(),
            r.can_store(),
            r.keys_view().len() == 0,
    {
        VolumeKeyStore { keys: Vec::new(), next_id: 0 }
    }

    /// Copies `key_bytes` into an owned buffer sized exactly to its
    /// length and stores it under a fresh id, which is returned.
    pub fn store(&mut self, key_bytes: &Vec<u8>, description: String) -> (id: i32)
        requires
            old(self).wf(),
            old(self).can_store(),
        ensures
            final(self).wf(),
            final(self).holds_key(id),
            final(self).key_bytes(id) == key_bytes@,
            !old(self).holds_key(id),
            final(self).keys_view().len() == old(self).keys_view().len() + 1,
            forall|other: i32|
                old(self).holds_key(other) ==> #[trigger] final(self).holds_key(other)
                    && final(self).key_bytes(other) == old(self).key_bytes(other),
    {
        let id = self.next_id;
        self.next_id = self.next_id + 1;
        let mut buf: Vec<u8> = Vec::new();
        buf.extend_from_slice(key_bytes.as_slice());
        assert(buf@ =~= key_bytes@);
        let entry = VolumeKey { id, keylength: buf.len(), key_description: description, key: buf };
        self.keys.push(entry);
        proof {
            let n = old(self).keys@.len() as int;
            assert(final(self).keys@[n].id == id);
            assert(forall|i: int|
                0 <= i < final(self).keys@.len() && (#[trigger] final(self).keys@[i]).id == id
                    ==> i == n);
            assert(final(self).key_index(id) == n);
            assert forall|other: i32| old(self).holds_key(other) implies #[trigger] final(self).holds_key(other)
                && final(self).key_bytes(other) == old(self).key_bytes(other) by {
                let i = old(self).key_index(other);
                assert(final(self).keys@[i].id == other);
                let j = final(self).key_index(other);
                assert(0 <= j < final(self).keys@.len() && final(self).keys@[j].id == other);
                assert(j < n ==> old(self).keys@[j].id == other);
            }
        }
        id
    }

    /// Releases the key stored under `id`: the buffer is overwritten
    /// with zeros and handed back, so no copy of the material remains in
    /// the store.
    #[verifier::loop_isolation(false)]
    pub fn release(&mut self, id: i32) -> (r: Option<VolumeKey>)
        requires
            old(self).wf(),
        ensures
            final(self).wf(),
            r is Some <==> old(self).holds_key(id),
            !final(self).holds_key(id),
            r is Some ==> {
                let k = r->Some_0;
                &&& k.id == id
                &&& k.wf()
                &&& k.keylength == old(self).key_bytes(id).len()
                &&& all_zero(k.key@)
                &&& final(self).keys_view().len() + 1 == old(self).keys_view().len()
            },
            r is None ==> final(self).keys_view() == old(self).keys_view() && final(self).can_store() == old(self).can_store(),
            forall|other: i32|
                other != id && old(self).holds_key(other) ==> #[trigger] final(self).holds_key(
                    other,
                ) && final(self).key_bytes(other) == old(self).key_bytes(other),
    {
        let mut idx: usize = 0;
        let n = self.keys.len();
        while idx < n
            invariant
                n == self.keys@.len(),
                idx <= n,
                self.keys@ == old(self).keys@,
                self.next_id == old(self).next_id,
                forall|i: int| 0 <= i < idx ==> (#[trigger] self.keys@[i]).id != id,
            decreases n - idx,
        {
            if self.keys[idx].id == id {
                proof {
                    assert(old(self).keys@[idx as int].id == id);
                    assert(old(self).key_index(id) == idx as int);
                }
                let mut k = self.keys.remove(idx);
                let len = k.key.len();
                k.key = vec_of_zeros(len);
                proof {
                    assert forall|other: i32| other != id && old(self).holds_key(other) implies
                        #[trigger] final(self).holds_key(other) && final(self).key_bytes(other)
                        == old(self).key_bytes(other) by {
                        let i = old(self).key_index(other);
                        let i2: int = if i < idx { i } else { i - 1 };
                        assert(final(self).keys@[i2].id == other);
                        let j = final(self).key_index(other);
                        let jo: int = if j < idx { j } else { j + 1 };
                        assert(old(self).keys@[jo].id == other);
                    }
                    assert forall|i: int|
                        0 <= i < final(self).keys@.len() implies (#[trigger] final(self).keys@[i]).id != id by {
                        let io: int = if i < idx { i } else { i + 1 };
                        assert(old(self).keys@[io] == final(self).keys@[i]);
                    }
                }
                return Some(k);
            }
            idx = idx + 1;
        }
        None
    }
}

/// A buffer of `len` zero bytes.
pub fn vec_of_zeros(len: usize) -> (r: Vec<u8>)
    ensures
        r@.len() == len,
        all_zero(r@),
{
    let mut v: Vec<u8> = Vec::new();
    let mut k: usize = 0;
    while k < len
        invariant
            k <= len,
            v@.len() == k,
            all_zero(v@),
        decreases len - k,
    {
        v.push(0u8);
        k = k + 1;
    }
    v
}

} // verus!
