//! The generated artifact: an ordered sequence of bound calls.
//!
//! A program owns the resource values produced while it was generated;
//! calls reference them by index. Order is semantically meaningful: a call
//! may only reference a resource produced by a strictly earlier call.

use vstd::prelude::*;
use crate::target::Target;

verus! {

/// One bound argument value.
#[derive(PartialEq, Eq, Debug)]
pub enum Value {
    /// A reference to `Prog::resources[id]`, produced by an earlier call.
    ResRef { id: usize },
    /// A fresh placeholder for a resource argument that no produced value
    /// could satisfy.
    ResNull,
    /// A plain, non-resource argument value.
    Int(u64),
}

/// One concrete resource instance produced during a generation run,
/// tagged by the type it was produced as and by the call that produced it.
#[derive(PartialEq, Eq, Debug)]
pub struct ResValue {
    pub ty: usize,
    pub produced_by: usize,
}

/// One bound invocation: the chosen operation and a concrete value for
/// each of its arguments; `produced` is the resource this call created,
/// if the operation is a constructor.
#[derive(PartialEq, Eq, Debug)]
pub struct Call {
    pub syscall: usize,
    pub args: Vec<Value>,
    pub produced: Option<usize>,
}

/// An ordered sequence of calls together with the resources they produced.
#[derive(PartialEq, Eq, Debug)]
pub struct Prog {
    pub calls: Vec<Call>,
    pub resources: Vec<ResValue>,
}

impl Prog {
    /// Argument `j` of call `i` is well bound: a resource argument either
    /// references a resource of a substitutable type produced by a
    /// strictly earlier call, or is a fresh placeholder; a plain argument
    /// carries a plain value.
    pub open spec fn arg_wf(self, t: Target, i: int, j: int) -> bool
        recommends
            0 <= i < self.calls.len(),
            0 <= (self.calls[i].syscall as int) < t.syscalls.len(),
            0 <= j < self.calls[i].args.len(),
    {
        let c = self.calls[i];
        let ty = t.syscalls[c.syscall as int].args[j] as int;
        match c.args[j] {
            Value::ResRef { id } => {
                &&& t.is_res_ty(ty)
                &&& id < self.resources.len()
                &&& (self.resources[id as int].produced_by as int) < i
                &&& t.eq_class_of(ty).contains(self.resources[id as int].ty)
            },
            Value::ResNull => t.is_res_ty(ty),
            Value::Int(_) => !t.is_res_ty(ty),
        }
    }

    /// Call `i` names a real operation, binds every argument, and records
    /// the produced resource exactly when the operation is a constructor.
    pub open spec fn call_wf(self, t: Target, i: int) -> bool
        recommends
            0 <= i < self.calls.len(),
    {
        let c = self.calls[i];
        &&& (c.syscall as int) < t.syscalls.len()
        &&& c.args.len() == t.syscalls[c.syscall as int].args.len()
        &&& (forall|j: int| 0 <= j < c.args.len() ==> self.arg_wf(t, i, j))
        &&& match c.produced {
            Some(r) => {
                &&& r < self.resources.len()
                &&& self.resources[r as int].produced_by == i
                &&& t.syscalls[c.syscall as int].produces matches Some(pt)
                    && self.resources[r as int].ty == pt
            },
            None => t.syscalls[c.syscall as int].produces is None,
        }
    }

    /// Resource `r` carries a resource type and points back to the call
    /// that produced it.
    pub open spec fn res_wf(self, t: Target, r: int) -> bool
        recommends
            0 <= r < self.resources.len(),
    {
        let rv = self.resources[r];
        &&& t.is_res_ty(rv.ty as int)
        &&& (rv.produced_by as int) < self.calls.len()
        &&& self.calls[rv.produced_by as int].produced == Some(r as usize)
    }

    /// The whole program is well formed against the target: every call
    /// and every resource is, so in particular no call holds a forward or
    /// dangling resource reference.
    pub open spec fn wf(self, t: Target) -> bool {
        &&& (forall|i: int| 0 <= i < self.calls.len() ==> self.call_wf(t, i))
        &&& (forall|r: int| 0 <= r < self.resources.len() ==> self.res_wf(t, r))
    }

    /// Reference validity: in a well-formed program, a call's resource
    /// argument references a resource the program owns, produced by a
    /// call with a strictly smaller index — never a forward or self
    /// reference — and of a type substitutable for the argument's type.
    pub proof fn lemma_reference_validity(self, t: Target, i: int, j: int)
        requires
            self.wf(t),
            0 <= i < self.calls@.len(),
            0 <= j < self.calls@[i].args@.len(),
        ensures
            self.calls@[i].args@[j] matches Value::ResRef { id } ==> {
                &&& (id as int) < self.resources@.len()
                &&& (self.resources@[id as int].produced_by as int) < i
                &&& t.eq_class_of(
                    t.syscalls@[self.calls@[i].syscall as int].args@[j] as int,
                ).contains(self.resources@[id as int].ty)
            },
    {
        assert(self.call_wf(t, i));
        assert(self.arg_wf(t, i, j));
    }

    /// The first call of the program constructs a resource: it was chosen
    /// from the constructors of some resource type's equivalence class.
    pub open spec fn first_call_is_ctor(self, t: Target) -> bool {
        &&& self.calls.len() > 0
        &&& exists|k: int|
            0 <= k < t.res_tys.len() && t.is_eq_ctor(
                #[trigger] t.res_tys[k] as int,
                self.calls[0].syscall,
            )
    }
}

} // verus!
