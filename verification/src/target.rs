//! The immutable catalog describing the system under test.
//!
//! Types and operations form a shared graph; it is modelled as an arena in
//! which every reference is a stable index, built once per session and never
//! mutated afterwards. A subset of the types are resource types; each
//! carries the operations able to construct it, and the target maps every
//! resource type to its equivalence class — the resource types that may be
//! substituted for it at consumption sites.

use vstd::prelude::*;

verus! {

/// What the target knows about one resource type: the operations
/// (indices into `Target::syscalls`) that can construct it.
pub struct ResDesc {
    pub ctors: Vec<usize>,
}

/// One argument/value shape of the target's interface. A type is a
/// resource type exactly when it carries a resource descriptor.
pub struct TypeInfo {
    pub res: Option<ResDesc>,
}

/// An immutable template for one callable operation: its argument types
/// (indices into `Target::types`) and, for a constructor, the resource
/// type it produces.
pub struct Syscall {
    pub args: Vec<usize>,
    pub produces: Option<usize>,
}

/// The full, immutable catalog for one fuzzing session.
pub struct Target {
    /// Every callable operation.
    pub syscalls: Vec<Syscall>,
    /// Every type, resource or not.
    pub types: Vec<TypeInfo>,
    /// The indices of the resource types.
    pub res_tys: Vec<usize>,
    /// For each type index, the resource types substitutable for it at
    /// consumption sites; empty for non-resource types.
    pub res_eq_class: Vec<Vec<usize>>,
}

/// A session-scoped, read-only corpus of previously interesting concrete
/// values, indexed by type, used to bias plain-argument synthesis.
pub struct ValuePool {
    /// For each type index, the recorded values for that type.
    pub vals: Vec<Vec<u64>>,
}

impl ValuePool {
    /// A pool that matches a target's type arena.
    pub open spec fn wf(self, t: Target) -> bool {
        self.vals.len() == t.types.len()
    }

    /// An empty corpus for a target with `n_types` types.
    pub fn empty(n_types: usize) -> (r: ValuePool)
        ensures
            r.vals@.len() == n_types,
            forall|i: int| 0 <= i < n_types ==> r.vals@[i]@.len() == 0,
    {
        let mut vals: Vec<Vec<u64>> = Vec::new();
        let mut i: usize = 0;
        while i < n_types
            invariant
                i <= n_types,
                vals@.len() == i,
                forall|k: int| 0 <= k < i ==> vals@[k]@.len() == 0,
            decreases n_types - i,
        {
            vals.push(Vec::new());
            i = i + 1;
        }
        ValuePool { vals }
    }
}

impl Target {
    /// `t` is a valid type index.
    pub open spec fn is_type(self, t: int) -> bool {
        0 <= t < self.types.len()
    }

    /// `t` is a resource type.
    pub open spec fn is_res_ty(self, t: int) -> bool {
        self.is_type(t) && self.types[t].res is Some
    }

    /// The constructors of resource type `t`.
    pub open spec fn ctors_of(self, t: int) -> Seq<usize>
        recommends
            self.is_res_ty(t),
    {
        self.types[t].res->0.ctors@
    }

    /// The equivalence class of type `t`.
    pub open spec fn eq_class_of(self, t: int) -> Seq<usize>
        recommends
            self.is_type(t),
    {
        self.res_eq_class[t]@
    }

    /// Operation `sc` is a constructor of resource type `t`.
    pub open spec fn is_ctor_of(self, t: int, sc: usize) -> bool {
        self.is_res_ty(t) && self.ctors_of(t).contains(sc)
    }

    /// Operation `sc` is a constructor of some type in the equivalence
    /// class of resource type `t`.
    pub open spec fn is_eq_ctor(self, t: int, sc: usize) -> bool {
        exists|k: int|
            0 <= k < self.eq_class_of(t).len() && self.is_ctor_of(
                self.eq_class_of(t)[k] as int,
                sc,
            )
    }

    /// Every index stored in the catalog is in range, constructors and
    /// `produces` agree, resource types are exactly the listed ones, and
    /// every equivalence class holds only resource types, contains its own
    /// type, and — because unreachable resources were pruned when the
    /// target was built — has at least one constructor somewhere in it.
    pub open spec fn wf(self) -> bool {
        &&& self.res_eq_class.len() == self.types.len()
        &&& forall|s: int|
            0 <= s < self.syscalls.len() ==> (forall|j: int|
                0 <= j < (#[trigger] self.syscalls[s]).args.len() ==> self.is_type(
                    #[trigger] self.syscalls[s].args[j] as int,
                ))
        &&& forall|s: int|
            0 <= s < self.syscalls.len() && (#[trigger] self.syscalls[s]).produces is Some
                ==> self.is_res_ty(self.syscalls[s].produces->0 as int)
        &&& forall|j: int|
            0 <= j < self.res_tys.len() ==> self.is_res_ty(#[trigger] self.res_tys[j] as int)
        &&& forall|t: int|
            #![trigger self.is_res_ty(t)]
            self.is_res_ty(t) ==> {
                &&& self.res_tys@.contains(t as usize)
                &&& self.eq_class_of(t).contains(t as usize)
                &&& (forall|k: int|
                    0 <= k < self.eq_class_of(t).len() ==> self.is_res_ty(
                        #[trigger] self.eq_class_of(t)[k] as int,
                    ))
                &&& (exists|k: int|
                    0 <= k < self.eq_class_of(t).len() && self.ctors_of(
                        #[trigger] self.eq_class_of(t)[k] as int,
                    ).len() > 0)
                &&& (forall|j: int|
                    0 <= j < self.ctors_of(t).len() ==> {
                        &&& (#[trigger] self.ctors_of(t)[j] as int) < self.syscalls.len()
                        &&& self.syscalls[self.ctors_of(t)[j] as int].produces == Some(t as usize)
                    })
            }
    }
}

/// A well-formed target with at least one resource type has at least one
/// operation: the resource's equivalence class holds a constructor, and
/// constructors are operations.
pub proof fn lemma_has_syscalls(t: Target)
    requires
        t.wf(),
        t.res_tys.len() > 0,
    ensures
        t.syscalls.len() > 0,
{
    let ty = t.res_tys[0] as int;
    assert(t.is_res_ty(ty));
    let k = choose|k: int|
        0 <= k < t.eq_class_of(ty).len() && t.ctors_of(#[trigger] t.eq_class_of(ty)[k] as int).len()
            > 0;
    let m = t.eq_class_of(ty)[k] as int;
    assert(t.is_res_ty(m));
    assert((t.ctors_of(m)[0] as int) < t.syscalls.len());
}

} // verus!
