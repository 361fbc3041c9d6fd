//! The table of live file handles that were opened against replaced paths,
//! with the reference count of each path.

use vstd::prelude::*;

verus! {

/// One live handle and the logical path it was opened against.
pub struct HandleRecord {
    pub handle: u64,
    pub path: String,
}

/// Errors of the handle table.
#[derive(Clone, Copy, Debug, PartialEq, Eq, Structural)]
pub enum HandleError {
    /// A handle was recorded twice without a close in between.
    ConsistencyViolation,
}

pub type Records = Seq<(u64, Seq<char>)>;

/// Number of records in `s` that point at `p`.
pub open spec fn refcount(s: Records, p: Seq<char>) -> nat
    decreases s.len(),
{
    if s.len() == 0 {
        0
    } else {
        refcount(s.drop_last(), p) + if s.last().1 == p { 1nat } else { 0nat }
    }
}

/// No handle appears in two records.
pub open spec fn handles_unique(s: Records) -> bool {
    forall|i: int, j: int| 0 <= i < s.len() && 0 <= j < s.len() && i != j ==> s[i].0 != s[j].0
}

pub open spec fn is_live(s: Records, h: u64) -> bool {
    exists|i: int| 0 <= i < s.len() && s[i].0 == h
}

/// The position of `h` in `s`, where it is live.
pub open spec fn position(s: Records, h: u64) -> int {
    choose|i: int| 0 <= i < s.len() && s[i].0 == h
}

/// The path that `h` was opened against, where it is live.
pub open spec fn path_of(s: Records, h: u64) -> Seq<char> {
    s[position(s, h)].1
}

/// Table after `insert(path, h)`.
pub open spec fn after_insert(s: Records, p: Seq<char>, h: u64) -> Records {
    if is_live(s, h) { s } else { s.push((h, p)) }
}

/// Table after `duplicate(src, dst)`.
pub open spec fn after_duplicate(s: Records, src: u64, dst: u64) -> Records {
    if is_live(s, src) && !is_live(s, dst) { s.push((dst, path_of(s, src))) } else { s }
}

/// Table after `remove(h)`.
pub open spec fn after_remove(s: Records, h: u64) -> Records {
    if is_live(s, h) { s.remove(position(s, h)) } else { s }
}

/// What `remove(h)` reports: the path and how many handles still point at it.
pub open spec fn remove_result(s: Records, h: u64) -> Option<(Seq<char>, nat)> {
    if is_live(s, h) {
        Some((path_of(s, h), refcount(after_remove(s, h), path_of(s, h))))
    } else {
        None
    }
}

pub proof fn lemma_refcount_push(s: Records, x: (u64, Seq<char>), p: Seq<char>)
    ensures
        refcount(s.push(x), p) == refcount(s, p) + if x.1 == p { 1nat } else { 0nat },
{
    assert(s.push(x).drop_last() =~= s);
}

pub proof fn lemma_refcount_remove(s: Records, i: int, p: Seq<char>)
    requires
        0 <= i < s.len(),
    ensures
        refcount(s, p) == refcount(s.remove(i), p) + if s[i].1 == p { 1nat } else { 0nat },
    decreases s.len(),
{
    if i == s.len() - 1 {
        assert(s.remove(i) =~= s.drop_last());
    } else {
        lemma_refcount_remove(s.drop_last(), i, p);
        assert(s.remove(i).drop_last() =~= s.drop_last().remove(i));
        assert(s.remove(i).last() == s.last());
    }
}

/// One call on the handle table.
pub ghost enum HandleOp {
    Insert(Seq<char>, u64),
    Duplicate(u64, u64),
    Remove(u64),
}

pub open spec fn apply(s: Records, op: HandleOp) -> Records {
    match op {
        HandleOp::Insert(p, h) => after_insert(s, p, h),
        HandleOp::Duplicate(src, dst) => after_duplicate(s, src, dst),
        HandleOp::Remove(h) => after_remove(s, h),
    }
}

/// Whether `op` on `s` records a handle for `p` (a successful insert or duplicate).
pub open spec fn adds_for(s: Records, op: HandleOp, p: Seq<char>) -> bool {
    match op {
        HandleOp::Insert(q, h) => !is_live(s, h) && q == p,
        HandleOp::Duplicate(src, dst) => is_live(s, src) && !is_live(s, dst) && path_of(s, src) == p,
        HandleOp::Remove(_) => false,
    }
}

/// Whether `op` on `s` removes a handle of `p`.
pub open spec fn removes_for(s: Records, op: HandleOp, p: Seq<char>) -> bool {
    match op {
        HandleOp::Remove(h) => is_live(s, h) && path_of(s, h) == p,
        _ => false,
    }
}

/// The table after the calls `ops`, in order.
pub open spec fn replay(s: Records, ops: Seq<HandleOp>) -> Records
    decreases ops.len(),
{
    if ops.len() == 0 {
        s
    } else {
        apply(replay(s, ops.drop_last()), ops.last())
    }
}

/// How many of `ops` recorded a handle for `p`.
pub open spec fn added(s: Records, ops: Seq<HandleOp>, p: Seq<char>) -> nat
    decreases ops.len(),
{
    if ops.len() == 0 {
        0
    } else {
        added(s, ops.drop_last(), p) + if adds_for(replay(s, ops.drop_last()), ops.last(), p) { 1nat } else { 0nat }
    }
}

/// How many of `ops` removed a handle of `p`.
pub open spec fn removed(s: Records, ops: Seq<HandleOp>, p: Seq<char>) -> nat
    decreases ops.len(),
{
    if ops.len() == 0 {
        0
    } else {
        removed(s, ops.drop_last(), p) + if removes_for(replay(s, ops.drop_last()), ops.last(), p) { 1nat } else { 0nat }
    }
}

pub proof fn lemma_live_has_refcount(s: Records, h: u64)
    requires
        is_live(s, h),
    ensures
        refcount(s, path_of(s, h)) >= 1,
{
    let i = position(s, h);
    lemma_refcount_remove(s, i, path_of(s, h));
}

/// One call keeps handles unique and moves the count of `p` by what it added
/// and removed.
pub proof fn lemma_apply(s: Records, op: HandleOp, p: Seq<char>)
    requires
        handles_unique(s),
    ensures
        handles_unique(apply(s, op)),
        refcount(apply(s, op), p) + (if removes_for(s, op, p) { 1nat } else { 0nat })
            == refcount(s, p) + (if adds_for(s, op, p) { 1nat } else { 0nat }),
{
    match op {
        HandleOp::Insert(q, h) => {
            if !is_live(s, h) {
                lemma_refcount_push(s, (h, q), p);
                let t = s.push((h, q));
                assert forall|i: int, j: int| 0 <= i < t.len() && 0 <= j < t.len() && i != j implies t[i].0 != t[j].0 by {
                    if i == s.len() as int {
                        assert(s[j].0 != h);
                    } else if j == s.len() as int {
                        assert(s[i].0 != h);
                    }
                }
            }
        },
        HandleOp::Duplicate(src, dst) => {
            if is_live(s, src) && !is_live(s, dst) {
                let x = (dst, path_of(s, src));
                lemma_refcount_push(s, x, p);
                let t = s.push(x);
                assert forall|i: int, j: int| 0 <= i < t.len() && 0 <= j < t.len() && i != j implies t[i].0 != t[j].0 by {
                    if i == s.len() as int {
                        assert(s[j].0 != dst);
                    } else if j == s.len() as int {
                        assert(s[i].0 != dst);
                    }
                }
            }
        },
        HandleOp::Remove(h) => {
            if is_live(s, h) {
                let k = position(s, h);
                lemma_refcount_remove(s, k, p);
                let t = s.remove(k);
                assert forall|i: int, j: int| 0 <= i < t.len() && 0 <= j < t.len() && i != j implies t[i].0 != t[j].0 by {
                    let i0 = if i < k { i } else { i + 1 };
                    let j0 = if j < k { j } else { j + 1 };
                    assert(t[i] == s[i0]);
                    assert(t[j] == s[j0]);
                }
            }
        },
    }
}

/// Over any sequence of calls, the number of live handles of a path is its
/// starting count plus the inserts and duplicates that recorded a handle for
/// it, minus the removes of its handles.
pub proof fn lemma_refcount_replay(s: Records, ops: Seq<HandleOp>, p: Seq<char>)
    requires
        handles_unique(s),
    ensures
        handles_unique(replay(s, ops)),
        refcount(replay(s, ops), p) + removed(s, ops, p) == refcount(s, p) + added(s, ops, p),
    decreases ops.len(),
{
    if ops.len() > 0 {
        lemma_refcount_replay(s, ops.drop_last(), p);
        lemma_apply(replay(s, ops.drop_last()), ops.last(), p);
    }
}

/// Inserting a handle that is not live records it against its path: the
/// count of that path grows by one and no other count changes. (A handle
/// that is live already is refused as a consistency violation.)
pub proof fn lemma_insert_records(s: Records, p: Seq<char>, h: u64, q: Seq<char>)
    requires
        handles_unique(s),
        !is_live(s, h),
    ensures
        is_live(after_insert(s, p, h), h),
        path_of(after_insert(s, p, h), h) == p,
        refcount(after_insert(s, p, h), q) == refcount(s, q) + if q == p { 1nat } else { 0nat },
{
    let t = after_insert(s, p, h);
    lemma_apply(s, HandleOp::Insert(p, h), q);
    assert(t[s.len() as int].0 == h);
    let k = position(t, h);
    assert(handles_unique(t));
    assert(k == s.len() as int);
}

/// When a remove reports that no handle of its path is left, none is: no
/// further remove can report that path until a handle is recorded for it again.
pub proof fn lemma_zero_reported_once(s: Records, h: u64, h2: u64)
    requires
        handles_unique(s),
        remove_result(s, h) is Some,
        remove_result(s, h)->Some_0.1 == 0,
    ensures
        refcount(after_remove(s, h), remove_result(s, h)->Some_0.0) == 0,
        remove_result(after_remove(s, h), h2) is Some
            ==> remove_result(after_remove(s, h), h2)->Some_0.0 != remove_result(s, h)->Some_0.0,
{
    let t = after_remove(s, h);
    if is_live(t, h2) {
        lemma_live_has_refcount(t, h2);
    }
}

/// The handle table.
pub struct HandleTracker {
    records: Vec<HandleRecord>,
}

impl View for HandleTracker {
    type V = Records;

    closed spec fn view(&self) -> Records {
        self.records@.map_values(|r: HandleRecord| (r.handle, r.path@))
    }
}

impl HandleTracker {
    pub open spec fn wf(&self) -> bool {
        handles_unique(self@)
    }

    pub fn new() -> (r: HandleTracker)
        ensures
            r.wf(),
            r@ == Seq::<(u64, Seq<char>)>::empty(),
    {
        let r = HandleTracker { records: Vec::new() };
        assert(r@ =~= Seq::<(u64, Seq<char>)>::empty());
        r
    }

    fn find(&self, h: u64) -> (r: Option<usize>)
        ensures
            match r {
                Some(i) => i < self@.len() && self@[i as int].0 == h,
                None => !is_live(self@, h),
            },
    {
        let mut i: usize = 0;
        while i < self.records.len()
            invariant
                i <= self.records@.len(),
                self@.len() == self.records@.len(),
                forall|k: int| 0 <= k < i ==> self@[k].0 != h,
            decreases self.records@.len() - i,
        {
            if self.records[i].handle == h {
                return Some(i);
            }
            i += 1;
        }
        None
    }

    /// Whether `h` is live.
    pub fn contains(&self, h: u64) -> (r: bool)
        ensures
            r == is_live(self@, h),
    {
        self.find(h).is_some()
    }

    /// Number of live handles that point at `path`.
    pub fn count(&self, path: &str) -> (r: usize)
        ensures
            r == refcount(self@, path@),
    {
        let mut n: usize = 0;
        let mut i: usize = 0;
        while i < self.records.len()
            invariant
                i <= self.records@.len(),
                self@.len() == self.records@.len(),
                n == refcount(self@.subrange(0, i as int), path@),
                n <= i,
            decreases self.records@.len() - i,
        {
            proof {
                assert(self@.subrange(0, i + 1).drop_last() =~= self@.subrange(0, i as int));
            }
            if self.records[i].path == path.to_owned() {
                n += 1;
            }
            i += 1;
        }
        assert(self@.subrange(0, i as int) =~= self@);
        n
    }

    /// Records a newly opened handle. A handle that is already live is a
    /// consistency violation, and the table is left as it was.
    pub fn insert(&mut self, path: &str, handle: u64) -> (r: Result<(), HandleError>)
        requires
            old(self).wf(),
        ensures
            final(self).wf(),
            final(self)@ == after_insert(old(self)@, path@, handle),
            r is Err <==> is_live(old(self)@, handle),
    {
        if self.find(handle).is_some() {
            return Err(HandleError::ConsistencyViolation);
        }
        self.records.push(HandleRecord { handle, path: path.to_owned() });
        assert(self@ =~= old(self)@.push((handle, path@)));
        Ok(())
    }

    /// Records `dst` as a duplicate of `src`. A `src` that is not live is not an
    /// error: nothing is recorded and the result is `false`.
    pub fn duplicate(&mut self, src: u64, dst: u64) -> (r: Result<bool, HandleError>)
        requires
            old(self).wf(),
        ensures
            final(self).wf(),
            final(self)@ == after_duplicate(old(self)@, src, dst),
            r == (if !is_live(old(self)@, src) {
                Ok::<bool, HandleError>(false)
            } else if is_live(old(self)@, dst) {
                Err::<bool, HandleError>(HandleError::ConsistencyViolation)
            } else {
                Ok::<bool, HandleError>(true)
            }),
    {
        let i = match self.find(src) {
            None => {
                return Ok(false);
            },
            Some(i) => i,
        };
        if self.find(dst).is_some() {
            return Err(HandleError::ConsistencyViolation);
        }
        let path = self.records[i].path.clone();
        proof {
            let s = old(self)@;
            let j = position(s, src);
            assert(0 <= j < s.len() && s[j].0 == src);
            assert(j == i as int);
        }
        self.records.push(HandleRecord { handle: dst, path });
        assert(self@ =~= old(self)@.push((dst, path_of(old(self)@, src))));
        Ok(true)
    }

    /// Forgets `handle`, reporting its path and how many handles still point
    /// at that path; zero means the path's replacement may be purged.
    pub fn remove(&mut self, handle: u64) -> (r: Option<(String, usize)>)
        requires
            old(self).wf(),
        ensures
            final(self).wf(),
            final(self)@ == after_remove(old(self)@, handle),
            match r {
                Some((p, n)) => remove_result(old(self)@, handle) == Some((p@, n as nat)),
                None => remove_result(old(self)@, handle) is None,
            },
    {
        let i = match self.find(handle) {
            None => {
                return None;
            },
            Some(i) => i,
        };
        proof {
            let s = old(self)@;
            let j = position(s, handle);
            assert(0 <= j < s.len() && s[j].0 == handle);
            assert(j == i as int);
        }
        let rec = self.records.remove(i);
        assert(self@ =~= old(self)@.remove(i as int));
        let n = self.count(rec.path.as_str());
        Some((rec.path, n))
    }
}

} // verus!
