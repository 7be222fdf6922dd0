//! The access analyzer: derives the set of component types a query shape
//! reads and writes, and rejects at composition time any combination whose
//! write set overlaps another write set or any read set.

use vstd::prelude::*;

use crate::archetype::EcsTypeId;

verus! {

/// Appending one type extends membership by exactly that type.
proof fn lemma_push_contains(s0: Seq<EcsTypeId>, s1: Seq<EcsTypeId>, x: EcsTypeId)
    requires
        s1 == s0.push(x),
    ensures
        forall|ty: EcsTypeId| #[trigger] s1.contains(ty) == (s0.contains(ty) || ty == x),
{
    assert forall|ty: EcsTypeId| #[trigger] s1.contains(ty) == (s0.contains(ty) || ty == x) by {
        if s0.contains(ty) {
            let j = s0.index_of(ty);
            assert(s1[j] == ty);
        }
        if s1.contains(ty) {
            let j = choose|j: int| 0 <= j < s1.len() && s1[j] == ty;
            if j < s0.len() {
                assert(s0[j] == ty);
            }
        }
        assert(s1[s0.len() as int] == x);
    }
}

/// The read and write sets of one query or composed system.
pub struct Access {
    pub read: Vec<EcsTypeId>,
    pub write: Vec<EcsTypeId>,
}

impl Access {
    pub open spec fn reads(self, ty: EcsTypeId) -> bool {
        self.read@.contains(ty)
    }

    pub open spec fn writes(self, ty: EcsTypeId) -> bool {
        self.write@.contains(ty)
    }

    /// No write overlaps another write or any read.
    pub open spec fn consistent(self) -> bool {
        forall|ty: EcsTypeId| !(#[trigger] self.writes(ty) && self.reads(ty))
    }

    pub fn new() -> (r: Access)
        ensures
            forall|ty: EcsTypeId| !r.reads(ty) && !r.writes(ty),
    {
        Access { read: Vec::new(), write: Vec::new() }
    }

    /// Whether `v` lists the type `ty`.
    pub fn vec_contains(v: &Vec<EcsTypeId>, ty: EcsTypeId) -> (r: bool)
        ensures
            r == v@.contains(ty),
    {
        let mut k: usize = 0;
        while k < v.len()
            invariant
                0 <= k <= v@.len(),
                forall|j: int| 0 <= j < k ==> v@[j] != ty,
            decreases v@.len() - k,
        {
            if v[k] == ty {
                return true;
            }
            k = k + 1;
        }
        false
    }

    /// Marks `id` as written; a conflict with an existing read or write of
    /// `id` is an error.
    pub fn insert_write(self, id: EcsTypeId) -> (r: Result<Access, ()>)
        ensures
            r is Err <==> (self.writes(id) || self.reads(id)),
            r is Ok ==> {
                let a = r->Ok_0;
                &&& forall|ty: EcsTypeId| #[trigger] a.reads(ty) == self.reads(ty)
                &&& forall|ty: EcsTypeId| #[trigger] a.writes(ty) == (self.writes(ty) || ty == id)
            },
    {
        if Access::vec_contains(&self.write, id) || Access::vec_contains(&self.read, id) {
            return Err(());
        }
        let mut write = self.write;
        let ghost w0 = write@;
        write.push(id);
        proof {
            assert forall|ty: EcsTypeId| #[trigger] write@.contains(ty) == (w0.contains(ty) || ty
                == id) by {
                if w0.contains(ty) {
                    let j = w0.index_of(ty);
                    assert(write@[j] == ty);
                }
                if write@.contains(ty) {
                    let j = choose|j: int| 0 <= j < write@.len() && write@[j] == ty;
                    if j < w0.len() {
                        assert(w0[j] == ty);
                    }
                }
                assert(write@[w0.len() as int] == id);
            }
        }
        Ok(Access { read: self.read, write })
    }

    /// Marks `id` as read; a conflict with an existing write of `id` is an
    /// error.
    pub fn insert_read(self, id: EcsTypeId) -> (r: Result<Access, ()>)
        ensures
            r is Err <==> self.writes(id),
            r is Ok ==> {
                let a = r->Ok_0;
                &&& forall|ty: EcsTypeId| #[trigger] a.writes(ty) == self.writes(ty)
                &&& forall|ty: EcsTypeId| #[trigger] a.reads(ty) == (self.reads(ty) || ty == id)
            },
    {
        if Access::vec_contains(&self.write, id) {
            return Err(());
        }
        let mut read = self.read;
        let ghost r0 = read@;
        read.push(id);
        proof {
            assert forall|ty: EcsTypeId| #[trigger] read@.contains(ty) == (r0.contains(ty) || ty
                == id) by {
                if r0.contains(ty) {
                    let j = r0.index_of(ty);
                    assert(read@[j] == ty);
                }
                if read@.contains(ty) {
                    let j = choose|j: int| 0 <= j < read@.len() && read@[j] == ty;
                    if j < r0.len() {
                        assert(r0[j] == ty);
                    }
                }
                assert(read@[r0.len() as int] == id);
            }
        }
        Ok(Access { read, write: self.write })
    }

    /// The composition rule: the two write sets must be disjoint, and the
    /// merged read set must not overlap the merged write set.
    pub open spec fn join_conflict(a: Access, b: Access) -> bool {
        exists|ty: EcsTypeId|
            (#[trigger] a.writes(ty) && b.writes(ty)) || ((a.reads(ty) || b.reads(ty)) && (
            a.writes(ty) || b.writes(ty)))
    }

    /// Packages one overlapping type back into the named conflict predicate
    /// (kept separate so that large proofs discharge it in one step).
    pub proof fn lemma_join_conflict_intro(a: Access, b: Access, ty: EcsTypeId)
        requires
            (a.writes(ty) && b.writes(ty)) || ((a.reads(ty) || b.reads(ty)) && (a.writes(ty)
                || b.writes(ty))),
        ensures
            Access::join_conflict(a, b),
    {
        assert((#[trigger] a.writes(ty) && b.writes(ty)) || ((a.reads(ty) || b.reads(ty)) && (
        a.writes(ty) || b.writes(ty))));
    }

    /// Merges another access set into this one; overlapping writes, or a
    /// read overlapping a write, reject the composition.
    #[verifier::loop_isolation(false)]
    pub fn join_with(self, other: Result<Access, ()>) -> (r: Result<Access, ()>)
        ensures
            other is Err ==> r is Err,
            other is Ok ==> (r is Err <==> Access::join_conflict(self, other->Ok_0)),
            other is Ok && r is Ok ==> forall|ty: EcsTypeId|
                #[trigger] r->Ok_0.reads(ty) == (self.reads(ty) || other->Ok_0.reads(ty)),
            other is Ok && r is Ok ==> forall|ty: EcsTypeId|
                #[trigger] r->Ok_0.writes(ty) == (self.writes(ty) || other->Ok_0.writes(ty)),
    {
        let b = match other {
            Err(()) => {
                return Err(());
            },
            Ok(b) => b,
        };
        let mut read = self.read;
        let mut write = self.write;
        let ghost r0 = read@;
        let ghost w0 = write@;
        let mut k: usize = 0;
        while k < b.read.len()
            invariant
                0 <= k <= b.read@.len(),
                write@ == w0,
                forall|ty: EcsTypeId|
                    #[trigger] read@.contains(ty) == (r0.contains(ty) || b.read@.take(
                        k as int,
                    ).contains(ty)),
            decreases b.read@.len() - k,
        {
            let ghost rpre = read@;
            read.push(b.read[k]);
            proof {
                let x = b.read@[k as int];
                assert(b.read@.take(k as int + 1) =~= b.read@.take(k as int).push(x));
                lemma_push_contains(rpre, read@, x);
                lemma_push_contains(b.read@.take(k as int), b.read@.take(k as int + 1), x);
            }
            k = k + 1;
        }
        proof {
            assert(b.read@.take(b.read@.len() as int) =~= b.read@);
        }
        let mut k: usize = 0;
        while k < b.write.len()
            invariant
                0 <= k <= b.write@.len(),
                write@ == w0,
                forall|j: int| 0 <= j < k ==> !w0.contains(#[trigger] b.write@[j]),
            decreases b.write@.len() - k,
        {
            if Access::vec_contains(&write, b.write[k]) {
                proof {
                    let ty = b.write@[k as int];
                    assert(b.write@.contains(ty));
                    assert(self.writes(ty) && b.writes(ty));
                    assert(Access::join_conflict(self, b));
                }
                return Err(());
            }
            k = k + 1;
        }
        let mut k: usize = 0;
        while k < b.write.len()
            invariant
                0 <= k <= b.write@.len(),
                forall|j: int| 0 <= j < b.write@.len() ==> !w0.contains(#[trigger] b.write@[j]),
                forall|ty: EcsTypeId|
                    #[trigger] write@.contains(ty) == (w0.contains(ty) || b.write@.take(
                        k as int,
                    ).contains(ty)),
            decreases b.write@.len() - k,
        {
            let ghost wpre = write@;
            write.push(b.write[k]);
            proof {
                let x = b.write@[k as int];
                assert(b.write@.take(k as int + 1) =~= b.write@.take(k as int).push(x));
                lemma_push_contains(wpre, write@, x);
                lemma_push_contains(b.write@.take(k as int), b.write@.take(k as int + 1), x);
            }
            k = k + 1;
        }
        proof {
            assert(b.write@.take(b.write@.len() as int) =~= b.write@);
        }
        // the merged read set must not overlap the merged write set
        let mut k: usize = 0;
        while k < read.len()
            invariant
                0 <= k <= read@.len(),
                forall|ty: EcsTypeId|
                    #[trigger] read@.contains(ty) == (r0.contains(ty) || b.read@.contains(ty)),
                forall|ty: EcsTypeId|
                    #[trigger] write@.contains(ty) == (w0.contains(ty) || b.write@.contains(ty)),
                forall|j: int| 0 <= j < k ==> !write@.contains(#[trigger] read@[j]),
            decreases read@.len() - k,
        {
            if Access::vec_contains(&write, read[k]) {
                proof {
                    let ty = read@[k as int];
                    assert(read@.contains(ty));
                    assert((self.reads(ty) || b.reads(ty)) && (self.writes(ty) || b.writes(ty)));
                    assert(Access::join_conflict(self, b));
                }
                return Err(());
            }
            k = k + 1;
        }
        proof {
            if Access::join_conflict(self, b) {
                let ty = choose|ty: EcsTypeId|
                    (#[trigger] self.writes(ty) && b.writes(ty)) || ((self.reads(ty) || b.reads(
                        ty,
                    )) && (self.writes(ty) || b.writes(ty)));
                assert(read@.contains(ty) || write@.contains(ty));
                if self.writes(ty) && b.writes(ty) {
                    assert(false);
                } else {
                    assert(read@.contains(ty) && write@.contains(ty));
                    let j = read@.index_of(ty);
                    assert(false);
                }
            }
        }
        Ok(Access { read, write })
    }

    /// A list of access sets cannot be composed: some part already failed,
    /// two parts write the same type, or some part reads a type that any
    /// part (itself included) writes.
    pub open spec fn array_conflict(accesses: Seq<Result<Access, ()>>) -> bool {
        ||| exists|i: int| 0 <= i < accesses.len() && !((#[trigger] accesses[i]) is Ok)
        ||| exists|i: int, j: int, ty: EcsTypeId|
            #![trigger accesses[i]->Ok_0.writes(ty), accesses[j]->Ok_0.writes(ty)]
            0 <= i < accesses.len() && 0 <= j < accesses.len() && i != j
                && accesses[i]->Ok_0.writes(ty) && accesses[j]->Ok_0.writes(ty)
        ||| exists|i: int, j: int, ty: EcsTypeId|
            #![trigger accesses[i]->Ok_0.reads(ty), accesses[j]->Ok_0.writes(ty)]
            0 <= i < accesses.len() && 0 <= j < accesses.len() && accesses[i]->Ok_0.reads(ty)
                && accesses[j]->Ok_0.writes(ty)
    }

    /// Folds a list of access sets into one, rejecting the first conflict:
    /// the result reads and writes exactly what the parts do, and no two
    /// parts write the same type.
    #[verifier::loop_isolation(false)]
    pub fn from_array(accesses: Vec<Result<Access, ()>>) -> (r: Result<Access, ()>)
        ensures
            r is Err <==> Access::array_conflict(accesses@),
            r is Ok ==> {
                &&& forall|i: int| 0 <= i < accesses@.len() ==> accesses@[i] is Ok
                &&& forall|ty: EcsTypeId|
                    #[trigger] r->Ok_0.reads(ty) <==> exists|i: int|
                        0 <= i < accesses@.len() && (#[trigger] accesses@[i])->Ok_0.reads(ty)
                &&& forall|ty: EcsTypeId|
                    #[trigger] r->Ok_0.writes(ty) <==> exists|i: int|
                        0 <= i < accesses@.len() && (#[trigger] accesses@[i])->Ok_0.writes(ty)
                &&& forall|i: int, j: int, ty: EcsTypeId|
                    #![trigger accesses@[i]->Ok_0.writes(ty), accesses@[j]->Ok_0.writes(ty)]
                    0 <= i < accesses@.len() && 0 <= j < accesses@.len() && i != j
                        && accesses@[i]->Ok_0.writes(ty) ==> !(accesses@[j]->Ok_0.writes(ty))
            },
            accesses@.len() == 0 ==> r is Ok,
    {
        let ghost all = accesses@;
        let mut rest = accesses;
        let mut output = Access::new();
        let ghost k: int = 0;
        loop
            invariant
                0 <= k <= all.len(),
                rest@ == all.skip(k),
                forall|j: int| 0 <= j < k ==> all[j] is Ok,
                forall|ty: EcsTypeId|
                    #[trigger] output.reads(ty) <==> exists|j: int|
                        0 <= j < k && (#[trigger] all[j])->Ok_0.reads(ty),
                forall|ty: EcsTypeId|
                    #[trigger] output.writes(ty) <==> exists|j: int|
                        0 <= j < k && (#[trigger] all[j])->Ok_0.writes(ty),
                forall|i: int, j: int, ty: EcsTypeId|
                    #![trigger all[i]->Ok_0.writes(ty), all[j]->Ok_0.writes(ty)]
                    0 <= i < k && 0 <= j < k && i != j && all[i]->Ok_0.writes(ty) ==> !(
                    all[j]->Ok_0.writes(ty)),
                forall|i: int, j: int, ty: EcsTypeId|
                    #![trigger all[i]->Ok_0.reads(ty), all[j]->Ok_0.writes(ty)]
                    0 <= i < k && 0 <= j < k && all[i]->Ok_0.reads(ty) ==> !(
                    all[j]->Ok_0.writes(ty)),
            decreases rest@.len(),
        {
            if rest.len() == 0 {
                proof {
                    assert(k == all.len());
                    if Access::array_conflict(all) {
                        if exists|i: int| 0 <= i < all.len() && !((#[trigger] all[i]) is Ok) {
                            let i = choose|i: int| 0 <= i < all.len() && !((#[trigger] all[i]) is Ok);
                            assert(false);
                        }
                    }
                }
                return Ok(output);
            }
            let access = rest.remove(0);
            proof {
                assert(all.skip(k)[0] == all[k]);
                assert(rest@ =~= all.skip(k + 1));
            }
            let ghost out_pre = output;
            output = match output.join_with(access) {
                Ok(a) => a,
                Err(()) => {
                    proof {
                        if all[k] is Ok {
                            let b = all[k]->Ok_0;
                            assert(Access::join_conflict(out_pre, b));
                            let ty = choose|ty: EcsTypeId|
                                (#[trigger] out_pre.writes(ty) && b.writes(ty)) || ((
                                out_pre.reads(ty) || b.reads(ty)) && (out_pre.writes(ty)
                                    || b.writes(ty)));
                            if out_pre.writes(ty) {
                                let j = choose|j: int|
                                    0 <= j < k && (#[trigger] all[j])->Ok_0.writes(ty);
                                if b.writes(ty) {
                                    assert(all[j]->Ok_0.writes(ty) && all[k]->Ok_0.writes(ty));
                                } else {
                                    assert(out_pre.reads(ty) || b.reads(ty));
                                    if out_pre.reads(ty) {
                                        let i = choose|i: int|
                                            0 <= i < k && (#[trigger] all[i])->Ok_0.reads(ty);
                                        assert(all[i]->Ok_0.reads(ty) && all[j]->Ok_0.writes(ty));
                                    } else {
                                        assert(all[k]->Ok_0.reads(ty) && all[j]->Ok_0.writes(ty));
                                    }
                                }
                            } else {
                                assert(b.writes(ty));
                                assert(out_pre.reads(ty) || b.reads(ty));
                                if out_pre.reads(ty) {
                                    let i = choose|i: int|
                                        0 <= i < k && (#[trigger] all[i])->Ok_0.reads(ty);
                                    assert(all[i]->Ok_0.reads(ty) && all[k]->Ok_0.writes(ty));
                                } else {
                                    assert(all[k]->Ok_0.reads(ty) && all[k]->Ok_0.writes(ty));
                                }
                            }
                            assert(Access::array_conflict(all));
                        } else {
                            assert(!(all[k] is Ok));
                            assert(Access::array_conflict(all));
                        }
                    }
                    return Err(());
                },
            };
            proof {
                assert(all[k] is Ok);
                let b = all[k]->Ok_0;
                assert forall|i: int, j: int, ty: EcsTypeId|
                    #![trigger all[i]->Ok_0.writes(ty), all[j]->Ok_0.writes(ty)]
                    0 <= i < k + 1 && 0 <= j < k + 1 && i != j && all[i]->Ok_0.writes(ty) implies
                    !(all[j]->Ok_0.writes(ty)) by {
                    if i == k || j == k {
                        let o = if i == k {
                            j
                        } else {
                            i
                        };
                        if all[o]->Ok_0.writes(ty) && b.writes(ty) {
                            assert(out_pre.writes(ty));
                            assert(Access::join_conflict(out_pre, b));
                        }
                    }
                }
                assert forall|i: int, j: int, ty: EcsTypeId|
                    #![trigger all[i]->Ok_0.reads(ty), all[j]->Ok_0.writes(ty)]
                    0 <= i < k + 1 && 0 <= j < k + 1 && all[i]->Ok_0.reads(ty) implies !(
                all[j]->Ok_0.writes(ty)) by {
                    if all[j]->Ok_0.writes(ty) {
                        if i == k || j == k {
                            if i < k {
                                assert(out_pre.reads(ty));
                            }
                            if j < k {
                                assert(out_pre.writes(ty));
                            }
                            assert((out_pre.reads(ty) || b.reads(ty)) && (out_pre.writes(ty)
                                || b.writes(ty)));
                            Access::lemma_join_conflict_intro(out_pre, b, ty);
                        }
                    }
                }
                k = k + 1;
            }
        }
    }
}

} // verus!
