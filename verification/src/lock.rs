use vstd::prelude::*;

verus! {

/// The two lock types: any number of readers may share an identity;
/// an exclusive writer is the sole holder.
#[derive(Clone, Copy, Debug, PartialEq, Eq, Structural)]
pub enum LockType {
    SharedRead,
    ExclusiveWrite,
}

/// The three lock-identity domains. Unrelated devices never contend:
/// two identities contend only when they are equal.
#[derive(Debug)]
pub enum LockIdentity {
    /// Keyed to one open descriptor.
    ByFile(i32),
    /// Keyed to the device's block identity, so two paths naming the
    /// same physical device still serialize.
    ByBlockDevice(u32),
    /// Keyed to a logical name, for virtual devices without a stable
    /// block identity.
    ByName(String),
}

/// The lock mode, derived from the identity domain.
#[derive(Clone, Copy, Debug, PartialEq, Eq, Structural)]
pub enum LockMode {
    ByFile,
    ByBlockDevice,
    ByName,
}

/// What an acquisition attempt that found the identity contended should
/// report: `Busy` for plain non-blocking callers, `WouldBlock` as the
/// explicit signal for callers that will retry on their own schedule.
#[derive(Clone, Copy, Debug, PartialEq, Eq, Structural)]
pub enum ContentionPolicy {
    ReportBusy,
    ReportWouldBlock,
}

#[derive(Clone, Copy, Debug, PartialEq, Eq, Structural)]
pub enum LockError {
    Busy,
    WouldBlock,
    IoFailure,
}

/// The answer to a successful acquisition: the reference count the
/// holder now has, and whether the operating-system lock still has to be
/// taken (it does only on the first acquisition).
#[derive(Clone, Copy, Debug, PartialEq, Eq, Structural)]
pub struct LockGrant {
    pub refcnt: u32,
    pub os_lock_needed: bool,
}

/// The answer to a release: the reference count the holder still has,
/// and whether the operating-system lock is to be released now (it is
/// exactly when the count reached zero).
#[derive(Clone, Copy, Debug, PartialEq, Eq, Structural)]
pub struct LockRelease {
    pub refcnt: u32,
    pub os_unlock_needed: bool,
}

pub open spec fn id_matches(a: LockIdentity, b: LockIdentity) -> bool {
    match (a, b) {
        (LockIdentity::ByFile(x), LockIdentity::ByFile(y)) => x == y,
        (LockIdentity::ByBlockDevice(x), LockIdentity::ByBlockDevice(y)) => x == y,
        (LockIdentity::ByName(x), LockIdentity::ByName(y)) => x@ == y@,
        _ => false,
    }
}

impl LockIdentity {
    pub open spec fn spec_mode(&self) -> LockMode {
        match *self {
            LockIdentity::ByFile(_) => LockMode::ByFile,
            LockIdentity::ByBlockDevice(_) => LockMode::ByBlockDevice,
            LockIdentity::ByName(_) => LockMode::ByName,
        }
    }

    /// The identity domain this identity belongs to.
    #[verifier::when_used_as_spec(spec_mode)]
    pub fn mode(&self) -> (m: LockMode)
        ensures
            m == self.spec_mode(),
    {
        match self {
            LockIdentity::ByFile(_) => LockMode::ByFile,
            LockIdentity::ByBlockDevice(_) => LockMode::ByBlockDevice,
            LockIdentity::ByName(_) => LockMode::ByName,
        }
    }
}

/// Whether two identities name the same lock.
pub fn identity_eq(a: &LockIdentity, b: &LockIdentity) -> (r: bool)
    ensures
        r == id_matches(*a, *b),
{
    match (a, b) {
        (LockIdentity::ByFile(x), LockIdentity::ByFile(y)) => *x == *y,
        (LockIdentity::ByBlockDevice(x), LockIdentity::ByBlockDevice(y)) => *x == *y,
        (LockIdentity::ByName(x), LockIdentity::ByName(y)) => x.eq(y),
        _ => false,
    }
}

/// One held advisory lock: who holds it, on which identity, of which
/// type, and how often the holder has acquired it.
#[derive(Debug)]
pub struct LockEntry {
    pub identity: LockIdentity,
    pub owner: u64,
    pub lock_type: LockType,
    pub refcnt: u32,
}

/// Reference-counted, mode-scoped advisory locks on device identities.
/// The manager decides; taking and dropping the operating-system lock
/// is the caller's part, and is owed exactly when a grant or release
/// says so.
#[derive(Debug)]
pub struct LockManager {
    entries: Vec<LockEntry>,
}

impl LockManager {
    pub closed spec fn entries_view(self) -> Seq<LockEntry> {
        self.entries@
    }

    /// No entry has a zero count; one holder has at most one entry per
    /// identity; an exclusively locked identity has exactly one entry.
    pub closed spec fn wf(self) -> bool {
        &&& forall|i: int|
            0 <= i < self.entries@.len() ==> (#[trigger] self.entries@[i]).refcnt >= 1
        &&& forall|i: int, j: int|
            0 <= i < self.entries@.len() && 0 <= j < self.entries@.len() && i != j && id_matches(
                (#[trigger] self.entries@[i]).identity,
                (#[trigger] self.entries@[j]).identity,
            ) ==> self.entries@[i].owner != self.entries@[j].owner
                && self.entries@[i].lock_type == LockType::SharedRead
                && self.entries@[j].lock_type == LockType::SharedRead
    }

    /// Whether `owner` holds a lock on `id`.
    pub closed spec fn holds(self, owner: u64, id: LockIdentity) -> bool {
        exists|i: int|
            0 <= i < self.entries@.len() && (#[trigger] self.entries@[i]).owner == owner
                && id_matches(self.entries@[i].identity, id)
    }

    pub closed spec fn entry_index(self, owner: u64, id: LockIdentity) -> int {
        choose|i: int|
            0 <= i < self.entries@.len() && (#[trigger] self.entries@[i]).owner == owner
                && id_matches(self.entries@[i].identity, id)
    }

    /// The reference count `owner` has on `id`; zero when it holds no
    /// lock there.
    pub closed spec fn refcnt_of(self, owner: u64, id: LockIdentity) -> nat {
        if self.holds(owner, id) {
            self.entries@[self.entry_index(owner, id)].refcnt as nat
        } else {
            0
        }
    }

    /// The lock type `owner` holds on `id`, if any.
    pub closed spec fn type_of(self, owner: u64, id: LockIdentity) -> Option<LockType> {
        if self.holds(owner, id) {
            Some(self.entries@[self.entry_index(owner, id)].lock_type)
        } else {
            None
        }
    }

    /// Whether some other owner holds a lock on `id`.
    pub closed spec fn held_by_other(self, owner: u64, id: LockIdentity) -> bool {
        exists|i: int|
            0 <= i < self.entries@.len() && (#[trigger] self.entries@[i]).owner != owner
                && id_matches(self.entries@[i].identity, id)
    }

    /// Whether some other owner holds `id` exclusively.
    pub closed spec fn held_exclusively_by_other(self, owner: u64, id: LockIdentity) -> bool {
        exists|i: int|
            0 <= i < self.entries@.len() && (#[trigger] self.entries@[i]).owner != owner
                && id_matches(self.entries@[i].identity, id) && self.entries@[i].lock_type
                == LockType::ExclusiveWrite
    }

    /// Whether an acquisition of `lock_type` on `id` by `owner` must be
    /// refused: a reentrant acquisition of an incompatible type (never a
    /// silent upgrade or downgrade), a request on an identity another
    /// owner holds exclusively, or an exclusive request on an identity
    /// another owner holds at all.
    pub open spec fn conflicts(self, owner: u64, id: LockIdentity, lock_type: LockType) -> bool {
        if self.holds(owner, id) {
            self.type_of(owner, id) != Some(lock_type)
        } else {
            self.held_exclusively_by_other(owner, id) || (lock_type == LockType::ExclusiveWrite
                && self.held_by_other(owner, id))
        }
    }

    pub fn new() -> (r: LockManager)
        ensures
            r.wf(),
            r.entries_view().len() == 0,
            forall|o: u64, id: LockIdentity| !(#[trigger] r.holds(o, id)),
    {
        let r = LockManager { entries: Vec::new() };
        proof {
            assert forall|o: u64, id: LockIdentity| !(#[trigger] r.holds(o, id)) by {}
        }
        r
    }

    /// Acquires a lock of `lock_type` on `id` for `owner`, or reports
    /// why it cannot: reentrant acquisition of the held type only raises
    /// the count; contention is answered as `policy` asks, and the state
    /// is then unchanged.
    pub fn acquire(
        &mut self,
        owner: u64,
        id: &LockIdentity,
        lock_type: LockType,
        policy: ContentionPolicy,
    ) -> (r: Result<LockGrant, LockError>)
        requires
            old(self).wf(),
            old(self).refcnt_of(owner, *id) < u32::MAX,
        ensures
            final(self).wf(),
            acquire_transition(*old(self), *final(self), owner, *id, lock_type, policy, r),
    {
        proof {
            if old(self).holds(owner, *id) {
                let i = old(self).entry_index(owner, *id);
                assert(0 <= i < old(self).entries@.len());
            }
        }
        let n = self.entries.len();
        let mut idx: usize = 0;
        let mut found: Option<usize> = None;
        #[verifier::loop_isolation(false)]
        while idx < n
            invariant
                idx <= n,
                self.entries@ == old(self).entries@,
                match found {
                    Some(k) => {
                        &&& k < idx
                        &&& self.entries@[k as int].owner == owner
                        &&& id_matches(self.entries@[k as int].identity, *id)
                    },
                    None => forall|i: int|
                        0 <= i < idx ==> !((#[trigger] self.entries@[i]).owner == owner
                            && id_matches(self.entries@[i].identity, *id)),
                },
            decreases n - idx,
        {
            if found.is_none() {
                let e_owner = self.entries[idx].owner;
                let same_id = identity_eq(&self.entries[idx].identity, id);
                if e_owner == owner && same_id {
                    found = Some(idx);
                } else if same_id {
                    let e_type = self.entries[idx].lock_type;
                    if matches!(e_type, LockType::ExclusiveWrite) || matches!(
                        lock_type,
                        LockType::ExclusiveWrite,
                    ) {
                        proof {
                            assert(old(self).held_by_other(owner, *id));
                            if e_type == LockType::ExclusiveWrite {
                                assert(old(self).held_exclusively_by_other(owner, *id));
                            }
                            if old(self).holds(owner, *id) {
                                let i = old(self).entry_index(owner, *id);
                                assert(id_matches(
                                    old(self).entries@[i].identity,
                                    old(self).entries@[idx as int].identity,
                                ));
                                // both entries share the identity, so both are
                                // shared-read, and the request must be exclusive
                                assert(old(self).entries@[i].lock_type == LockType::SharedRead);
                                assert(e_type == LockType::SharedRead);
                                assert(lock_type == LockType::ExclusiveWrite);
                                assert(old(self).type_of(owner, *id) == Some(LockType::SharedRead));
                            }
                            assert(old(self).conflicts(owner, *id, lock_type));
                        }
                        return Err(contention_error(policy));
                    }
                }
            }
            idx = idx + 1;
        }
        match found {
            Some(k) => {
                proof {
                    assert(old(self).holds(owner, *id));
                    assert(old(self).entry_index(owner, *id) == k as int);
                }
                if matches!(self.entries[k].lock_type, LockType::SharedRead) != matches!(
                    lock_type,
                    LockType::SharedRead,
                ) {
                    return Err(contention_error(policy));
                }
                let new_cnt = self.entries[k].refcnt + 1;
                self.entries[k].refcnt = new_cnt;
                proof {
                    assert(final(self).entries@ == old(self).entries@.update(
                        k as int,
                        LockEntry {
                            refcnt: new_cnt,
                            ..old(self).entries@[k as int]
                        },
                    ));
                    lemma_update_refcnt(*old(self), *final(self), k as int, owner, *id);
                }
                Ok(LockGrant { refcnt: new_cnt, os_lock_needed: false })
            },
            None => {
                proof {
                    if old(self).holds(owner, *id) {
                        let i = old(self).entry_index(owner, *id);
                        assert(0 <= i < n);
                        assert(false);
                    }
                }
                if matches!(lock_type, LockType::ExclusiveWrite) {
                    let held = self.any_other_holder(owner, id);
                    if held {
                        return Err(contention_error(policy));
                    }
                } else {
                    let excl = self.any_other_exclusive(owner, id);
                    if excl {
                        return Err(contention_error(policy));
                    }
                }
                let entry = LockEntry {
                    identity: clone_identity(id),
                    owner,
                    lock_type,
                    refcnt: 1,
                };
                self.entries.push(entry);
                proof {
                    lemma_push_entry(*old(self), *final(self), owner, *id, lock_type);
                }
                Ok(LockGrant { refcnt: 1, os_lock_needed: true })
            },
        }
    }

    /// Whether any other owner holds `id` (of any type).
    fn any_other_holder(&self, owner: u64, id: &LockIdentity) -> (r: bool)
        ensures
            r == self.held_by_other(owner, *id),
    {
        let n = self.entries.len();
        let mut idx: usize = 0;
        #[verifier::loop_isolation(false)]
        while idx < n
            invariant
                idx <= n,
                forall|i: int|
                    0 <= i < idx ==> !((#[trigger] self.entries@[i]).owner != owner && id_matches(
                        self.entries@[i].identity,
                        *id,
                    )),
            decreases n - idx,
        {
            if self.entries[idx].owner != owner && identity_eq(&self.entries[idx].identity, id) {
                return true;
            }
            idx = idx + 1;
        }
        false
    }

    /// Whether any other owner holds `id` exclusively.
    fn any_other_exclusive(&self, owner: u64, id: &LockIdentity) -> (r: bool)
        ensures
            r == self.held_exclusively_by_other(owner, *id),
    {
        let n = self.entries.len();
        let mut idx: usize = 0;
        #[verifier::loop_isolation(false)]
        while idx < n
            invariant
                idx <= n,
                forall|i: int|
                    0 <= i < idx ==> !((#[trigger] self.entries@[i]).owner != owner && id_matches(
                        self.entries@[i].identity,
                        *id,
                    ) && self.entries@[i].lock_type == LockType::ExclusiveWrite),
            decreases n - idx,
        {
            if self.entries[idx].owner != owner && identity_eq(&self.entries[idx].identity, id)
                && matches!(self.entries[idx].lock_type, LockType::ExclusiveWrite) {
                return true;
            }
            idx = idx + 1;
        }
        false
    }

    /// Releases one acquisition `owner` holds on `id`. The count drops
    /// by one; at zero the entry leaves the table and the answer says
    /// the operating-system lock is to be released — which therefore
    /// happens exactly once per identity actually locked.
    pub fn release(&mut self, owner: u64, id: &LockIdentity) -> (r: LockRelease)
        requires
            old(self).wf(),
            old(self).holds(owner, *id),
        ensures
            final(self).wf(),
            release_transition(*old(self), *final(self), owner, *id, r),
    {
        let n = self.entries.len();
        let mut idx: usize = 0;
        #[verifier::loop_isolation(false)]
        while idx < n
            invariant
                idx <= n,
                self.entries@ == old(self).entries@,
                forall|i: int|
                    0 <= i < idx ==> !((#[trigger] self.entries@[i]).owner == owner && id_matches(
                        self.entries@[i].identity,
                        *id,
                    )),
            decreases n - idx,
        {
            let e_owner = self.entries[idx].owner;
            if e_owner == owner && identity_eq(&self.entries[idx].identity, id) {
                proof {
                    assert(old(self).entry_index(owner, *id) == idx as int);
                }
                let cnt = self.entries[idx].refcnt;
                if cnt > 1 {
                    let new_cnt = cnt - 1;
                    self.entries[idx].refcnt = new_cnt;
                    proof {
                        assert(final(self).entries@ == old(self).entries@.update(
                            idx as int,
                            LockEntry {
                                refcnt: new_cnt,
                                ..old(self).entries@[idx as int]
                            },
                        ));
                        lemma_update_refcnt(*old(self), *final(self), idx as int, owner, *id);
                    }
                    return LockRelease { refcnt: new_cnt, os_unlock_needed: false };
                } else {
                    self.entries.remove(idx);
                    proof {
                        lemma_remove_entry(*old(self), *final(self), idx as int, owner, *id);
                    }
                    return LockRelease { refcnt: 0, os_unlock_needed: true };
                }
            }
            idx = idx + 1;
        }
        proof {
            let i = old(self).entry_index(owner, *id);
            assert(0 <= i < n);
            assert(false);
        }
        LockRelease { refcnt: 0, os_unlock_needed: true }
    }
}

fn contention_error(policy: ContentionPolicy) -> (e: LockError)
    ensures
        e == contention_answer(policy),
{
    match policy {
        ContentionPolicy::ReportBusy => LockError::Busy,
        ContentionPolicy::ReportWouldBlock => LockError::WouldBlock,
    }
}

/// The error a contended acquisition reports under `policy`.
pub open spec fn contention_answer(policy: ContentionPolicy) -> LockError {
    match policy {
        ContentionPolicy::ReportBusy => LockError::Busy,
        ContentionPolicy::ReportWouldBlock => LockError::WouldBlock,
    }
}

fn clone_identity(id: &LockIdentity) -> (r: LockIdentity)
    ensures
        id_matches(r, *id),
        r.spec_mode() == id.spec_mode(),
{
    match id {
        LockIdentity::ByFile(fd) => LockIdentity::ByFile(*fd),
        LockIdentity::ByBlockDevice(devno) => LockIdentity::ByBlockDevice(*devno),
        LockIdentity::ByName(name) => LockIdentity::ByName(name.clone()),
    }
}

/// Everything `LockManager::acquire` does, as a relation between the
/// state before and after: a reentrant acquisition of the held type
/// raises the holder's count by one without asking for the
/// operating-system lock again; a conflicting request is answered as the
/// policy asks and changes nothing; a fresh request creates a count of
/// one and asks for the operating-system lock; every other holder is
/// untouched in every case.
pub open spec fn acquire_transition(
    pre: LockManager,
    post: LockManager,
    owner: u64,
    id: LockIdentity,
    lock_type: LockType,
    policy: ContentionPolicy,
    r: Result<LockGrant, LockError>,
) -> bool {
    &&& (if pre.conflicts(owner, id, lock_type) {
        &&& r == Err::<LockGrant, LockError>(contention_answer(policy))
        &&& post.entries_view() == pre.entries_view()
    } else if pre.holds(owner, id) {
        &&& r == Ok::<LockGrant, LockError>(
            LockGrant { refcnt: (pre.refcnt_of(owner, id) + 1) as u32, os_lock_needed: false },
        )
        &&& post.refcnt_of(owner, id) == pre.refcnt_of(owner, id) + 1
        &&& post.type_of(owner, id) == pre.type_of(owner, id)
    } else {
        &&& r == Ok::<LockGrant, LockError>(LockGrant { refcnt: 1, os_lock_needed: true })
        &&& post.refcnt_of(owner, id) == 1
        &&& post.type_of(owner, id) == Some(lock_type)
    })
    &&& frame_except(pre, post, owner, id)
}

/// Everything `LockManager::release` does, as a relation between the
/// state before and after.
pub open spec fn release_transition(
    pre: LockManager,
    post: LockManager,
    owner: u64,
    id: LockIdentity,
    r: LockRelease,
) -> bool {
    &&& (if pre.refcnt_of(owner, id) > 1 {
        &&& r == LockRelease { refcnt: (pre.refcnt_of(owner, id) - 1) as u32, os_unlock_needed: false }
        &&& post.refcnt_of(owner, id) == pre.refcnt_of(owner, id) - 1
        &&& post.type_of(owner, id) == pre.type_of(owner, id)
    } else {
        &&& r == LockRelease { refcnt: 0, os_unlock_needed: true }
        &&& !post.holds(owner, id)
    })
    &&& frame_except(pre, post, owner, id)
}

/// All holders other than `owner`-on-`id` keep their count and type.
pub open spec fn frame_except(
    pre: LockManager,
    post: LockManager,
    owner: u64,
    id: LockIdentity,
) -> bool {
    forall|o: u64, id2: LockIdentity|
        !(o == owner && id_matches(id2, id)) ==> #[trigger] post.refcnt_of(o, id2)
            == pre.refcnt_of(o, id2) && post.type_of(o, id2) == pre.type_of(o, id2)
}

proof fn lemma_update_refcnt(
    pre: LockManager,
    post: LockManager,
    k: int,
    owner: u64,
    id: LockIdentity,
)
    requires
        pre.wf(),
        0 <= k < pre.entries_view().len(),
        pre.entries_view()[k].owner == owner,
        id_matches(pre.entries_view()[k].identity, id),
        post.entries_view() == pre.entries_view().update(
            k,
            (LockEntry { refcnt: post.entries_view()[k].refcnt, ..pre.entries_view()[k] }),
        ),
        post.entries_view()[k].refcnt >= 1,
    ensures
        post.wf(),
        post.holds(owner, id),
        post.refcnt_of(owner, id) == post.entries_view()[k].refcnt,
        post.type_of(owner, id) == Some(pre.entries_view()[k].lock_type),
        frame_except(pre, post, owner, id),
{
    assert(post.entries_view().len() == pre.entries_view().len());
    assert forall|i: int| 0 <= i < post.entries_view().len() implies (#[trigger] post.entries_view()[i]).refcnt >= 1 by {
        if i != k {
            assert(post.entries_view()[i] == pre.entries_view()[i]);
        }
    }
    assert(post.holds(owner, id));
    assert(post.entry_index(owner, id) == k) by {
        let j = post.entry_index(owner, id);
        if j != k {
            assert(id_matches(post.entries_view()[j].identity, post.entries_view()[k].identity));
        }
    }
    assert(pre.entry_index(owner, id) == k) by {
        let j = pre.entry_index(owner, id);
        if j != k {
            assert(id_matches(pre.entries_view()[j].identity, pre.entries_view()[k].identity));
        }
    }
    assert forall|o: u64, id2: LockIdentity|
        !(o == owner && id_matches(id2, id)) implies #[trigger] post.refcnt_of(o, id2)
        == pre.refcnt_of(o, id2) && post.type_of(o, id2) == pre.type_of(o, id2) by {
        if pre.holds(o, id2) {
            let i = pre.entry_index(o, id2);
            if i == k {
                assert(id_matches(id2, id));
            }
            assert(post.entries_view()[i] == pre.entries_view()[i]);
            assert(post.holds(o, id2));
            assert(post.entry_index(o, id2) == i) by {
                let j = post.entry_index(o, id2);
                if j != i {
                    assert(id_matches(
                        post.entries_view()[j].identity,
                        post.entries_view()[i].identity,
                    ));
                    assert(post.entries_view()[j].owner != post.entries_view()[i].owner);
                }
            }
        } else {
            if post.holds(o, id2) {
                let i = post.entry_index(o, id2);
                if i == k {
                    assert(id_matches(id2, id));
                } else {
                    assert(pre.entries_view()[i] == post.entries_view()[i]);
                    assert(pre.holds(o, id2));
                }
            }
        }
    }
}

proof fn lemma_push_entry(
    pre: LockManager,
    post: LockManager,
    owner: u64,
    id: LockIdentity,
    lock_type: LockType,
)
    requires
        pre.wf(),
        !pre.holds(owner, id),
        !pre.held_exclusively_by_other(owner, id),
        lock_type == LockType::ExclusiveWrite ==> !pre.held_by_other(owner, id),
        post.entries_view().len() == pre.entries_view().len() + 1,
        post.entries_view() == pre.entries_view().push(
            post.entries_view()[pre.entries_view().len() as int],
        ),
        post.entries_view().last().owner == owner,
        id_matches(post.entries_view().last().identity, id),
        post.entries_view().last().lock_type == lock_type,
        post.entries_view().last().refcnt == 1,
    ensures
        post.wf(),
        post.holds(owner, id),
        post.refcnt_of(owner, id) == 1,
        post.type_of(owner, id) == Some(lock_type),
        frame_except(pre, post, owner, id),
{
    let n = pre.entries_view().len() as int;
    assert forall|i: int, j: int|
        0 <= i < post.entries_view().len() && 0 <= j < post.entries_view().len() && i != j
            && id_matches(
            (#[trigger] post.entries_view()[i]).identity,
            (#[trigger] post.entries_view()[j]).identity,
        ) implies post.entries_view()[i].owner != post.entries_view()[j].owner
        && post.entries_view()[i].lock_type == LockType::SharedRead
        && post.entries_view()[j].lock_type == LockType::SharedRead by {
        if i < n && j < n {
            assert(pre.entries_view()[i] == post.entries_view()[i]);
            assert(pre.entries_view()[j] == post.entries_view()[j]);
        } else if i == n {
            assert(pre.entries_view()[j] == post.entries_view()[j]);
            assert(id_matches(pre.entries_view()[j].identity, id));
            if pre.entries_view()[j].owner == owner {
                assert(pre.holds(owner, id));
            } else {
                assert(pre.held_by_other(owner, id));
                if pre.entries_view()[j].lock_type == LockType::ExclusiveWrite {
                    assert(pre.held_exclusively_by_other(owner, id));
                }
                assert(lock_type == LockType::SharedRead);
            }
        } else {
            assert(j == n);
            assert(pre.entries_view()[i] == post.entries_view()[i]);
            assert(id_matches(pre.entries_view()[i].identity, id));
            if pre.entries_view()[i].owner == owner {
                assert(pre.holds(owner, id));
            } else {
                assert(pre.held_by_other(owner, id));
                if pre.entries_view()[i].lock_type == LockType::ExclusiveWrite {
                    assert(pre.held_exclusively_by_other(owner, id));
                }
                assert(lock_type == LockType::SharedRead);
            }
        }
    }
    assert(post.holds(owner, id));
    assert(post.entry_index(owner, id) == n) by {
        let j = post.entry_index(owner, id);
        if j != n {
            assert(pre.entries_view()[j] == post.entries_view()[j]);
            assert(pre.holds(owner, id));
        }
    }
    assert forall|o: u64, id2: LockIdentity|
        !(o == owner && id_matches(id2, id)) implies #[trigger] post.refcnt_of(o, id2)
        == pre.refcnt_of(o, id2) && post.type_of(o, id2) == pre.type_of(o, id2) by {
        if pre.holds(o, id2) {
            let i = pre.entry_index(o, id2);
            assert(post.entries_view()[i] == pre.entries_view()[i]);
            assert(post.holds(o, id2));
            assert(post.entry_index(o, id2) == i) by {
                let j = post.entry_index(o, id2);
                if j != i {
                    assert(id_matches(
                        post.entries_view()[j].identity,
                        post.entries_view()[i].identity,
                    ));
                }
            }
        } else {
            if post.holds(o, id2) {
                let i = post.entry_index(o, id2);
                if i == n {
                    assert(id_matches(id2, id));
                } else {
                    assert(pre.entries_view()[i] == post.entries_view()[i]);
                    assert(pre.holds(o, id2));
                }
            }
        }
    }
}

proof fn lemma_remove_entry(
    pre: LockManager,
    post: LockManager,
    k: int,
    owner: u64,
    id: LockIdentity,
)
    requires
        pre.wf(),
        0 <= k < pre.entries_view().len(),
        pre.entries_view()[k].owner == owner,
        id_matches(pre.entries_view()[k].identity, id),
        post.entries_view() == pre.entries_view().remove(k),
    ensures
        post.wf(),
        !post.holds(owner, id),
        frame_except(pre, post, owner, id),
{
    let n = pre.entries_view().len() as int;
    assert(post.entries_view().len() == n - 1);
    assert forall|i: int| 0 <= i < n - 1 implies #[trigger] post.entries_view()[i] == (if i < k {
        pre.entries_view()[i]
    } else {
        pre.entries_view()[i + 1]
    }) by {}
    assert forall|i: int| 0 <= i < post.entries_view().len() implies (#[trigger] post.entries_view()[i]).refcnt >= 1 by {
        let io: int = if i < k { i } else { i + 1 };
        assert(post.entries_view()[i] == pre.entries_view()[io]);
    }
    assert forall|i: int, j: int|
        0 <= i < post.entries_view().len() && 0 <= j < post.entries_view().len() && i != j
            && id_matches(
            (#[trigger] post.entries_view()[i]).identity,
            (#[trigger] post.entries_view()[j]).identity,
        ) implies post.entries_view()[i].owner != post.entries_view()[j].owner
        && post.entries_view()[i].lock_type == LockType::SharedRead
        && post.entries_view()[j].lock_type == LockType::SharedRead by {
        let io: int = if i < k { i } else { i + 1 };
        let jo: int = if j < k { j } else { j + 1 };
        assert(post.entries_view()[i] == pre.entries_view()[io]);
        assert(post.entries_view()[j] == pre.entries_view()[jo]);
    }
    assert(!post.holds(owner, id)) by {
        if post.holds(owner, id) {
            let i = post.entry_index(owner, id);
            let io: int = if i < k { i } else { i + 1 };
            assert(post.entries_view()[i] == pre.entries_view()[io]);
            assert(io != k);
            assert(id_matches(pre.entries_view()[io].identity, pre.entries_view()[k].identity));
            assert(pre.entries_view()[io].owner != pre.entries_view()[k].owner);
        }
    }
    assert forall|o: u64, id2: LockIdentity|
        !(o == owner && id_matches(id2, id)) implies #[trigger] post.refcnt_of(o, id2)
        == pre.refcnt_of(o, id2) && post.type_of(o, id2) == pre.type_of(o, id2) by {
        if pre.holds(o, id2) {
            let i = pre.entry_index(o, id2);
            assert(i != k) by {
                if i == k {
                    assert(id_matches(id2, id));
                }
            }
            let i2: int = if i < k { i } else { i - 1 };
            assert(post.entries_view()[i2] == pre.entries_view()[i]);
            assert(post.holds(o, id2));
            assert(post.entry_index(o, id2) == i2) by {
                let j = post.entry_index(o, id2);
                if j != i2 {
                    assert(id_matches(
                        post.entries_view()[j].identity,
                        post.entries_view()[i2].identity,
                    ));
                }
            }
        } else {
            if post.holds(o, id2) {
                let i = post.entry_index(o, id2);
                let io: int = if i < k { i } else { i + 1 };
                assert(pre.entries_view()[io] == post.entries_view()[i]);
                assert(pre.holds(o, id2));
            }
        }
    }
}

/// An identity one owner holds exclusively conflicts with every request
/// by another owner, of either type, until it is released.
pub proof fn lemma_exclusive_blocks_others(
    m: LockManager,
    holder: u64,
    other: u64,
    id: LockIdentity,
    req_type: LockType,
)
    requires
        m.wf(),
        m.holds(holder, id),
        m.type_of(holder, id) == Some(LockType::ExclusiveWrite),
        other != holder,
    ensures
        m.conflicts(other, id, req_type),
{
    let k = m.entry_index(holder, id);
    assert(0 <= k < m.entries_view().len());
    assert(m.entries_view()[k].lock_type == LockType::ExclusiveWrite);
    if m.holds(other, id) {
        let j = m.entry_index(other, id);
        assert(id_matches(m.entries_view()[j].identity, m.entries_view()[k].identity));
        assert(false);
    }
    assert(m.held_exclusively_by_other(other, id));
}

/// Lock exclusivity across two acquisitions: after one owner takes an
/// exclusive-write lock on a free identity, a second owner's attempt of
/// either type answers `Busy` (under the plain non-blocking policy) and
/// leaves the table unchanged.
pub proof fn lemma_lock_exclusivity(
    m0: LockManager,
    m1: LockManager,
    m2: LockManager,
    holder: u64,
    other: u64,
    id: LockIdentity,
    req_type: LockType,
    r1: Result<LockGrant, LockError>,
    r2: Result<LockGrant, LockError>,
)
    requires
        m0.wf(),
        m1.wf(),
        !m0.holds(holder, id),
        !m0.held_by_other(holder, id),
        other != holder,
        acquire_transition(m0, m1, holder, id, LockType::ExclusiveWrite, ContentionPolicy::ReportBusy, r1),
        acquire_transition(m1, m2, other, id, req_type, ContentionPolicy::ReportBusy, r2),
    ensures
        r1 == Ok::<LockGrant, LockError>((LockGrant { refcnt: 1, os_lock_needed: true })),
        r2 == Err::<LockGrant, LockError>(LockError::Busy),
        m2.entries_view() == m1.entries_view(),
{
    assert(!m0.held_exclusively_by_other(holder, id)) by {
        if m0.held_exclusively_by_other(holder, id) {
            let i = choose|i: int|
                0 <= i < m0.entries_view().len() && (#[trigger] m0.entries_view()[i]).owner
                    != holder && id_matches(m0.entries_view()[i].identity, id)
                    && m0.entries_view()[i].lock_type == LockType::ExclusiveWrite;
            assert(m0.held_by_other(holder, id));
        }
    }
    assert(!m0.conflicts(holder, id, LockType::ExclusiveWrite));
    assert(m1.refcnt_of(holder, id) == 1);
    assert(m1.type_of(holder, id) == Some(LockType::ExclusiveWrite));
    assert(m1.holds(holder, id));
    lemma_exclusive_blocks_others(m1, holder, other, id, req_type);
}

/// The "until released" half of exclusivity: when the sole holder's
/// last release lets the lock go, another owner's request of either
/// type no longer conflicts, so its acquisition succeeds.
pub proof fn lemma_release_unblocks(
    m: LockManager,
    m2: LockManager,
    holder: u64,
    other: u64,
    id: LockIdentity,
    rel: LockRelease,
    req_type: LockType,
)
    requires
        m.wf(),
        m2.wf(),
        m.holds(holder, id),
        m.refcnt_of(holder, id) == 1,
        !m.held_by_other(holder, id),
        other != holder,
        release_transition(m, m2, holder, id, rel),
    ensures
        rel == (LockRelease { refcnt: 0, os_unlock_needed: true }),
        !m2.conflicts(other, id, req_type),
{
    assert(!m2.holds(holder, id));
    assert forall|o: u64| o != holder implies m2.refcnt_of(o, id) == 0 by {
        assert(!m.holds(o, id)) by {
            if m.holds(o, id) {
                let i = m.entry_index(o, id);
                assert(m.held_by_other(holder, id));
            }
        }
        assert(m.refcnt_of(o, id) == 0);
        assert(m2.refcnt_of(o, id) == m.refcnt_of(o, id));
    }
    assert(!m2.holds(other, id)) by {
        if m2.holds(other, id) {
            let i = m2.entry_index(other, id);
            assert(m2.entries_view()[i].refcnt >= 1);
            assert(m2.refcnt_of(other, id) >= 1);
        }
    }
    assert(!m2.held_by_other(other, id)) by {
        if m2.held_by_other(other, id) {
            let i = choose|i: int|
                0 <= i < m2.entries_view().len() && (#[trigger] m2.entries_view()[i]).owner
                    != other && id_matches(m2.entries_view()[i].identity, id);
            let o = m2.entries_view()[i].owner;
            assert(m2.holds(o, id));
            assert(m2.refcnt_of(o, id) >= 1) by {
                let j = m2.entry_index(o, id);
                assert(m2.entries_view()[j].refcnt >= 1);
            }
            if o == holder {
                assert(!m2.holds(holder, id));
            } else {
                assert(m2.refcnt_of(o, id) == 0);
            }
        }
    }
    assert(!m2.held_exclusively_by_other(other, id)) by {
        if m2.held_exclusively_by_other(other, id) {
            let i = choose|i: int|
                0 <= i < m2.entries_view().len() && (#[trigger] m2.entries_view()[i]).owner
                    != other && id_matches(m2.entries_view()[i].identity, id)
                    && m2.entries_view()[i].lock_type == LockType::ExclusiveWrite;
            assert(m2.held_by_other(other, id));
        }
    }
}

/// Reentrancy: acquiring the same lock twice from the same owner raises
/// the count to two and takes the operating-system lock only once;
/// releasing twice brings it back to zero and releases the
/// operating-system lock exactly once, at the second release.
pub proof fn lemma_lock_reentrancy(
    m0: LockManager,
    m1: LockManager,
    m2: LockManager,
    m3: LockManager,
    m4: LockManager,
    owner: u64,
    id: LockIdentity,
    lock_type: LockType,
    policy: ContentionPolicy,
    r1: Result<LockGrant, LockError>,
    r2: Result<LockGrant, LockError>,
    rel1: LockRelease,
    rel2: LockRelease,
)
    requires
        m0.wf(),
        m1.wf(),
        m2.wf(),
        m3.wf(),
        !m0.holds(owner, id),
        !m0.held_by_other(owner, id),
        acquire_transition(m0, m1, owner, id, lock_type, policy, r1),
        acquire_transition(m1, m2, owner, id, lock_type, policy, r2),
        release_transition(m2, m3, owner, id, rel1),
        release_transition(m3, m4, owner, id, rel2),
    ensures
        r1 == Ok::<LockGrant, LockError>((LockGrant { refcnt: 1, os_lock_needed: true })),
        r2 == Ok::<LockGrant, LockError>((LockGrant { refcnt: 2, os_lock_needed: false })),
        rel1 == (LockRelease { refcnt: 1, os_unlock_needed: false }),
        rel2 == (LockRelease { refcnt: 0, os_unlock_needed: true }),
        !m4.holds(owner, id),
{
    assert(!m0.held_exclusively_by_other(owner, id)) by {
        if m0.held_exclusively_by_other(owner, id) {
            let i = choose|i: int|
                0 <= i < m0.entries_view().len() && (#[trigger] m0.entries_view()[i]).owner
                    != owner && id_matches(m0.entries_view()[i].identity, id)
                    && m0.entries_view()[i].lock_type == LockType::ExclusiveWrite;
            assert(m0.held_by_other(owner, id));
        }
    }
    assert(!m0.conflicts(owner, id, lock_type));
    assert(m1.refcnt_of(owner, id) == 1);
    assert(m1.type_of(owner, id) == Some(lock_type));
    assert(m1.holds(owner, id));
    assert(!m1.conflicts(owner, id, lock_type));
    assert(m2.refcnt_of(owner, id) == 2);
    assert(m2.holds(owner, id));
    assert(rel1 == LockRelease { refcnt: 1, os_unlock_needed: false });
    assert(m3.refcnt_of(owner, id) == 1);
    assert(rel2 == LockRelease { refcnt: 0, os_unlock_needed: true });
}

} // verus!
