//! The resource-oriented generation engine.
//!
//! One generation run repeatedly decides whether to stop (a probability
//! rising linearly with the program's length), whether to prioritise
//! creating a resource (a bias driven by how many distinct resource types
//! exist so far), which operation to call, and how to bind its arguments;
//! every probability is an exact rational, decided by one uniform integer
//! draw against a threshold, so a run is replayable from its draws.

use vstd::prelude::*;
use crate::prog::{Call, Prog, ResValue, Value};
use crate::rng::RandomSource;
use crate::target::{Target, ValuePool};

verus! {

/// No program stops before this many calls.
pub const MIN_LEN: usize = 4;

/// Every program stops once it reaches this many calls.
pub const MAX_LEN: usize = 16;

/// The policy pushes hard until this many distinct resource types exist.
pub const MIN_RES: usize = 2;

/// Past this many distinct resource types the desire to create more decays.
pub const MAX_RES: usize = 6;

/// Denominator of the stopping rule: P(stop at `len`) = `len`/20, which is
/// exactly 0.8 * `len`/`MAX_LEN`.
pub const STOP_DEN: u64 = 20;

/// The accurate-constructor bias is 17/20 = 0.85.
pub const ACCURATE_NUM: u64 = 17;

/// Denominator of the accurate-constructor bias.
pub const ACCURATE_DEN: u64 = 20;

/// Denominator of the resource-creation probabilities below `MAX_RES`.
pub const TRY_DEN: u64 = 15;

/// The stopping rule: never below `MIN_LEN`, always at `MAX_LEN`, and in
/// between stop exactly when a draw uniform on [0, 20) falls below the
/// length — probability 0.8 * len/16.
pub open spec fn spec_should_stop(len: int, draw: int) -> bool {
    if len < 4 {
        false
    } else if len < 16 {
        draw < len
    } else {
        true
    }
}

/// The bound the resource-creation decision draws against.
pub open spec fn spec_try_den(n: int) -> int {
    if n == 0 {
        1
    } else if n >= 6 {
        5 * n
    } else {
        15
    }
}

/// The resource-creation rule for `n` distinct resource types so far:
/// always when `n` is zero; past `MAX_RES` with probability
/// 0.2 * MAX_RES/(2n) = 3/(5n); below `MIN_RES` with probability
/// 0.8 * (1 - n/MAX_RES) = 2(6-n)/15; otherwise 0.4 * (1 - n/MAX_RES)
/// = (6-n)/15.
pub open spec fn spec_try_gen_res(n: int, draw: int) -> bool {
    if n == 0 {
        true
    } else if n >= 6 {
        draw < 3
    } else if n < 2 {
        draw < 2 * (6 - n)
    } else {
        draw < 6 - n
    }
}

/// The stopping decision as a function of its draw.
pub fn stop_decision(len: usize, draw: u64) -> (stop: bool)
    requires
        draw < STOP_DEN,
    ensures
        stop == spec_should_stop(len as int, draw as int),
{
    if len < MIN_LEN {
        false
    } else if len < MAX_LEN {
        draw < len as u64
    } else {
        true
    }
}

/// Decides whether a program of `len` calls stops here: deterministic
/// continue below `MIN_LEN`, deterministic stop at `MAX_LEN` — both
/// without consuming a draw — and a linearly rising probability in
/// between, decided by one draw.
pub fn should_stop<R: RandomSource>(len: usize, rng: &mut R) -> (stop: bool)
    ensures
        len < MIN_LEN ==> (!stop && *final(rng) == *old(rng)),
        len >= MAX_LEN ==> (stop && *final(rng) == *old(rng)),
{
    if len < MIN_LEN {
        false
    } else if len < MAX_LEN {
        let d = rng.next_below(STOP_DEN);
        stop_decision(len, d)
    } else {
        true
    }
}

/// The resource-creation decision as a function of its draw.
pub fn try_gen_res_decision(res_count: usize, draw: u64) -> (b: bool)
    requires
        (draw as int) < spec_try_den(res_count as int),
    ensures
        b == spec_try_gen_res(res_count as int, draw as int),
{
    if res_count == 0 {
        true
    } else if res_count >= MAX_RES {
        draw < 3
    } else if res_count < MIN_RES {
        draw < 2 * (6 - res_count as u64)
    } else {
        draw < 6 - res_count as u64
    }
}

/// Decides whether this iteration should prioritise creating a resource,
/// given how many distinct resource types were produced so far — never
/// more than the calls already made, so never more than `MAX_LEN`. A run
/// that has produced nothing always does: every program must start by
/// constructing a resource.
pub fn should_try_gen_res<R: RandomSource>(res_count: usize, rng: &mut R) -> (b: bool)
    requires
        res_count <= MAX_LEN,
    ensures
        res_count == 0 ==> (b && *final(rng) == *old(rng)),
{
    if res_count == 0 {
        true
    } else {
        let den: u64 = if res_count >= MAX_RES {
            5 * res_count as u64
        } else {
            TRY_DEN
        };
        let d = rng.next_below(den);
        try_gen_res_decision(res_count, d)
    }
}

/// Chooses a resource type uniformly among the target's resource types.
pub fn select_res<R: RandomSource>(res_tys: &Vec<usize>, rng: &mut R) -> (ty: usize)
    requires
        res_tys@.len() > 0,
    ensures
        res_tys@.contains(ty),
{
    let i = rng.next_below(res_tys.len() as u64) as usize;
    let ty = res_tys[i];
    proof {
        assert(res_tys@[i as int] == ty);
    }
    ty
}

/// Chooses an operation uniformly from the full catalog.
pub fn select_syscall_rand<R: RandomSource>(t: &Target, rng: &mut R) -> (sc: usize)
    requires
        t.syscalls@.len() > 0,
    ensures
        (sc as int) < t.syscalls@.len(),
{
    rng.next_below(t.syscalls.len() as u64) as usize
}

/// Gathers the constructors of every type in `res_ty`'s equivalence
/// class; because unreachable resources were pruned at target
/// construction, the result is never empty.
fn collect_eq_ctors(t: &Target, res_ty: usize) -> (all: Vec<usize>)
    requires
        t.wf(),
        t.is_res_ty(res_ty as int),
    ensures
        all@.len() > 0,
        forall|i: int| 0 <= i < all@.len() ==> t.is_eq_ctor(res_ty as int, #[trigger] all@[i]),
{
    let mut all: Vec<usize> = Vec::new();
    let eq = &t.res_eq_class[res_ty];
    let mut k: usize = 0;
    while k < eq.len()
        invariant
            t.wf(),
            t.is_res_ty(res_ty as int),
            eq@ == t.eq_class_of(res_ty as int),
            k <= eq@.len(),
            forall|i: int| 0 <= i < all@.len() ==> t.is_eq_ctor(res_ty as int, #[trigger] all@[i]),
            (exists|j: int| 0 <= j < k && t.ctors_of(#[trigger] eq@[j] as int).len() > 0)
                ==> all@.len() > 0,
        decreases eq@.len() - k,
    {
        let m = eq[k];
        proof {
            assert(t.eq_class_of(res_ty as int)[k as int] == m);
            assert(t.is_res_ty(m as int));
        }
        match &t.types[m].res {
            Some(rd) => {
                let ghost base = all@.len();
                let mut c: usize = 0;
                while c < rd.ctors.len()
                    invariant
                        t.wf(),
                        t.is_res_ty(res_ty as int),
                        t.is_res_ty(m as int),
                        rd.ctors@ == t.ctors_of(m as int),
                        t.eq_class_of(res_ty as int).contains(m),
                        c <= rd.ctors@.len(),
                        all@.len() == base + c,
                        forall|i: int|
                            0 <= i < all@.len() ==> t.is_eq_ctor(res_ty as int, #[trigger] all@[i]),
                    decreases rd.ctors@.len() - c,
                {
                    let sc = rd.ctors[c];
                    proof {
                        assert(t.is_ctor_of(m as int, sc));
                        let w = choose|w: int|
                            0 <= w < t.eq_class_of(res_ty as int).len() && t.eq_class_of(
                                res_ty as int,
                            )[w] == m;
                        assert(t.is_ctor_of(t.eq_class_of(res_ty as int)[w] as int, sc));
                        assert(t.is_eq_ctor(res_ty as int, sc));
                    }
                    all.push(sc);
                    c = c + 1;
                }
            },
            None => {
                proof {
                    assert(false);
                }
            },
        }
        k = k + 1;
    }
    proof {
        assert(t.is_res_ty(res_ty as int));
        let j = choose|j: int|
            0 <= j < t.eq_class_of(res_ty as int).len() && t.ctors_of(
                #[trigger] t.eq_class_of(res_ty as int)[j] as int,
            ).len() > 0;
        assert(0 <= j < k && t.ctors_of(eq@[j] as int).len() > 0);
    }
    all
}

/// The accurate-versus-class decision as a function of its draw: 17 of
/// 20 draws — probability 0.85 — prefer the type's own constructors.
pub fn accurate_ctor_decision(draw: u64) -> (b: bool)
    requires
        draw < ACCURATE_DEN,
    ensures
        b == (draw < ACCURATE_NUM),
{
    draw < ACCURATE_NUM
}

/// Chooses a producer for `res_ty` once the accurate-or-class decision
/// is made: an exact constructor of `res_ty` itself when `use_accurate`
/// holds, otherwise a constructor of some type in its equivalence class.
pub fn select_res_producer_with<R: RandomSource>(
    t: &Target,
    res_ty: usize,
    use_accurate: bool,
    rng: &mut R,
) -> (sc: usize)
    requires
        t.wf(),
        t.is_res_ty(res_ty as int),
        use_accurate ==> t.ctors_of(res_ty as int).len() > 0,
    ensures
        use_accurate ==> t.is_ctor_of(res_ty as int, sc),
        t.is_eq_ctor(res_ty as int, sc),
        (sc as int) < t.syscalls@.len(),
        t.syscalls@[sc as int].produces is Some,
{
    let sc: usize;
    if use_accurate {
        match &t.types[res_ty].res {
            Some(rd) => {
                let i = rng.next_below(rd.ctors.len() as u64) as usize;
                sc = rd.ctors[i];
                proof {
                    assert(t.is_ctor_of(res_ty as int, sc));
                    assert(t.eq_class_of(res_ty as int).contains(res_ty));
                    let w = choose|w: int|
                        0 <= w < t.eq_class_of(res_ty as int).len() && t.eq_class_of(
                            res_ty as int,
                        )[w] == res_ty;
                    assert(t.is_ctor_of(t.eq_class_of(res_ty as int)[w] as int, sc));
                    assert(t.is_eq_ctor(res_ty as int, sc));
                }
            },
            None => {
                proof {
                    assert(false);
                }
                sc = 0;
            },
        }
    } else {
        let all = collect_eq_ctors(t, res_ty);
        let i = rng.next_below(all.len() as u64) as usize;
        sc = all[i];
        proof {
            assert(t.is_eq_ctor(res_ty as int, all@[i as int]));
        }
    }
    proof {
        lemma_eq_ctor_is_producer(*t, res_ty as int, sc);
    }
    sc
}

/// Chooses a constructing operation for `res_ty`: with probability 0.85
/// one of its own exact constructors when it has any, otherwise a
/// constructor of some type in its equivalence class.
pub fn select_res_producer<R: RandomSource>(t: &Target, res_ty: usize, rng: &mut R) -> (sc: usize)
    requires
        t.wf(),
        t.is_res_ty(res_ty as int),
    ensures
        t.is_eq_ctor(res_ty as int, sc),
        (sc as int) < t.syscalls@.len(),
        t.syscalls@[sc as int].produces is Some,
{
    let mut use_accurate = false;
    match &t.types[res_ty].res {
        Some(rd) => {
            if rd.ctors.len() > 0 {
                let d = rng.next_below(ACCURATE_DEN);
                use_accurate = accurate_ctor_decision(d);
            }
        },
        None => {
            proof {
                assert(false);
            }
        },
    }
    select_res_producer_with(t, res_ty, use_accurate, rng)
}

/// A constructor drawn from an equivalence class names a real operation,
/// and that operation produces a resource.
proof fn lemma_eq_ctor_is_producer(t: Target, res_ty: int, sc: usize)
    requires
        t.wf(),
        t.is_res_ty(res_ty),
        t.is_eq_ctor(res_ty, sc),
    ensures
        (sc as int) < t.syscalls@.len(),
        t.syscalls@[sc as int].produces is Some,
{
    let k = choose|k: int|
        0 <= k < t.eq_class_of(res_ty).len() && t.is_ctor_of(
            #[trigger] t.eq_class_of(res_ty)[k] as int,
            sc,
        );
    let m = t.eq_class_of(res_ty)[k] as int;
    assert(t.is_res_ty(m));
    let j = choose|j: int| 0 <= j < t.ctors_of(m).len() && t.ctors_of(m)[j] == sc;
    assert((t.ctors_of(m)[j] as int) < t.syscalls@.len());
    assert(t.syscalls@[sc as int].produces == Some(m as usize));
}

/// Per-run mutable generation state: the program being built, the
/// resources produced so far indexed by their exact type, and the cache
/// of plain values already synthesised, kept to encourage aliasing
/// within a single program.
pub struct GenContext {
    /// Calls emitted so far, in order.
    pub calls: Vec<Call>,
    /// Resources produced so far, referenced by the calls.
    pub resources: Vec<ResValue>,
    /// For each type index, the indices into `resources` of the values
    /// produced with that exact type.
    pub res_by_ty: Vec<Vec<usize>>,
    /// The distinct resource types produced so far, each exactly once.
    pub produced_tys: Vec<usize>,
    /// One cached plain value per type already synthesised.
    pub buf_cache: Vec<(usize, u64)>,
}

impl GenContext {
    /// The program assembled so far.
    pub open spec fn prog(self) -> Prog {
        Prog { calls: self.calls, resources: self.resources }
    }

    /// The resource pool is consistent: every pooled index is a resource
    /// of exactly the type it is filed under, every resource is filed,
    /// and `produced_tys` lists exactly the types with a non-empty file,
    /// without duplicates.
    pub open spec fn pool_wf(self, t: Target) -> bool {
        &&& self.res_by_ty@.len() == t.types@.len()
        &&& (forall|m: int, k: int|
            0 <= m < self.res_by_ty@.len() && 0 <= k < self.res_by_ty@[m]@.len() ==> {
                &&& ((#[trigger] self.res_by_ty@[m]@[k]) as int) < self.resources@.len()
                &&& self.resources@[self.res_by_ty@[m]@[k] as int].ty == m
            })
        &&& (forall|id: int|
            0 <= id < self.resources@.len()
                ==> self.res_by_ty@[(#[trigger] self.resources@[id]).ty as int]@.contains(
                id as usize,
            ))
        &&& self.produced_tys@.no_duplicates()
        &&& (forall|j: int|
            0 <= j < self.produced_tys@.len() ==> {
                &&& ((#[trigger] self.produced_tys@[j]) as int) < self.res_by_ty@.len()
                &&& self.res_by_ty@[self.produced_tys@[j] as int]@.len() > 0
            })
        &&& (forall|m: int|
            0 <= m < self.res_by_ty@.len() && (#[trigger] self.res_by_ty@[m]@).len() > 0
                ==> self.produced_tys@.contains(m as usize))
    }

    /// The whole context is consistent with the target.
    pub open spec fn wf(self, t: Target) -> bool {
        &&& self.pool_wf(t)
        &&& self.prog().wf(t)
    }

    /// A fresh context for one run against `t`.
    pub fn new(t: &Target) -> (r: GenContext)
        requires
            t.wf(),
        ensures
            r.wf(*t),
            r.calls@.len() == 0,
            r.resources@.len() == 0,
            r.produced_tys@.len() == 0,
            r.buf_cache@.len() == 0,
    {
        let mut res_by_ty: Vec<Vec<usize>> = Vec::new();
        let n = t.types.len();
        let mut i: usize = 0;
        while i < n
            invariant
                i <= n,
                res_by_ty@.len() == i,
                forall|m: int| 0 <= m < i ==> (#[trigger] res_by_ty@[m])@.len() == 0,
            decreases n - i,
        {
            res_by_ty.push(Vec::new());
            i = i + 1;
        }
        GenContext {
            calls: Vec::new(),
            resources: Vec::new(),
            res_by_ty,
            produced_tys: Vec::new(),
            buf_cache: Vec::new(),
        }
    }
}

/// One bound argument value is consistent with the state it was bound in.
pub open spec fn arg_bound_wf(
    t: Target,
    resources: Seq<ResValue>,
    n_calls: int,
    ty: int,
    v: Value,
) -> bool {
    match v {
        Value::ResRef { id } => {
            &&& t.is_res_ty(ty)
            &&& (id as int) < resources.len()
            &&& (resources[id as int].produced_by as int) < n_calls
            &&& t.eq_class_of(ty).contains(resources[id as int].ty)
        },
        Value::ResNull => t.is_res_ty(ty),
        Value::Int(_) => !t.is_res_ty(ty),
    }
}

/// A produced resource whose type is substitutable for `ty` exists in
/// the run's pool (`res_by_ty` indexed by exact type).
pub open spec fn compat_exists(t: Target, res_by_ty: Seq<Vec<usize>>, ty: int) -> bool {
    exists|k: int|
        0 <= k < t.eq_class_of(ty).len() && res_by_ty[(#[trigger] t.eq_class_of(ty)[k]) as int]@.len()
            > 0
}

/// Where a plain value may come from: the session corpus for its type,
/// the cache as it stood when the call began, or zero when the corpus
/// has nothing for that type.
pub open spec fn plain_value_rule(
    pool: ValuePool,
    pre_cache: Seq<(usize, u64)>,
    ty: int,
    v: u64,
) -> bool {
    ||| pool.vals@[ty]@.contains(v)
    ||| cache_get(pre_cache, ty as usize) == Some(v)
    ||| (v == 0 && pool.vals@[ty]@.len() == 0)
}

/// The binding policy for one argument of a call: a resource argument
/// references a pooled value exactly when a substitutable one existed
/// when the call began, and a plain argument carries the value cached
/// for its type, drawn under the corpus rule when first synthesised.
pub open spec fn arg_policy(
    t: Target,
    pool: ValuePool,
    pre_pool: Seq<Vec<usize>>,
    pre_cache: Seq<(usize, u64)>,
    cache: Seq<(usize, u64)>,
    ty: usize,
    v: Value,
) -> bool {
    if t.is_res_ty(ty as int) {
        (v is ResRef) == compat_exists(t, pre_pool, ty as int)
    } else {
        v matches Value::Int(x) && cache_get(cache, ty) == Some(x) && plain_value_rule(
            pool,
            pre_cache,
            ty as int,
            x,
        )
    }
}

/// Chooses uniformly among the already produced resources whose type is
/// substitutable for `ty`; returns nothing exactly when no produced
/// resource is compatible.
fn pick_compat_res<R: RandomSource>(
    t: &Target,
    ctx: &GenContext,
    ty: usize,
    rng: &mut R,
) -> (r: Option<usize>)
    requires
        t.wf(),
        ctx.wf(*t),
        t.is_res_ty(ty as int),
    ensures
        (r is Some) == compat_exists(*t, ctx.res_by_ty@, ty as int),
        match r {
            Some(id) => {
                &&& (id as int) < ctx.resources@.len()
                &&& t.eq_class_of(ty as int).contains(ctx.resources@[id as int].ty)
            },
            None => forall|k: int|
                0 <= k < t.eq_class_of(ty as int).len() ==> ctx.res_by_ty@[(
                #[trigger] t.eq_class_of(ty as int)[k]) as int]@.len() == 0,
        },
{
    let mut cand: Vec<usize> = Vec::new();
    let eq = &t.res_eq_class[ty];
    let mut k: usize = 0;
    while k < eq.len()
        invariant
            t.wf(),
            ctx.wf(*t),
            t.is_res_ty(ty as int),
            eq@ == t.eq_class_of(ty as int),
            k <= eq@.len(),
            forall|i: int|
                0 <= i < cand@.len() ==> {
                    &&& ((#[trigger] cand@[i]) as int) < ctx.resources@.len()
                    &&& t.eq_class_of(ty as int).contains(ctx.resources@[cand@[i] as int].ty)
                },
            cand@.len() == 0 ==> forall|j: int|
                0 <= j < k ==> ctx.res_by_ty@[(#[trigger] eq@[j]) as int]@.len() == 0,
        decreases eq@.len() - k,
    {
        let m = eq[k];
        proof {
            assert(t.eq_class_of(ty as int)[k as int] == m);
            assert(t.is_res_ty(m as int));
        }
        let slot = &ctx.res_by_ty[m];
        let mut c: usize = 0;
        while c < slot.len()
            invariant
                t.wf(),
                ctx.wf(*t),
                t.is_res_ty(ty as int),
                t.is_res_ty(m as int),
                (m as int) < ctx.res_by_ty@.len(),
                slot@ == ctx.res_by_ty@[m as int]@,
                t.eq_class_of(ty as int).contains(m),
                c <= slot@.len(),
                forall|i: int|
                    0 <= i < cand@.len() ==> {
                        &&& ((#[trigger] cand@[i]) as int) < ctx.resources@.len()
                        &&& t.eq_class_of(ty as int).contains(ctx.resources@[cand@[i] as int].ty)
                    },
                slot@.len() > 0 && c > 0 ==> cand@.len() > 0,
                eq@ == t.eq_class_of(ty as int),
                k < eq@.len(),
                cand@.len() == 0 ==> forall|j: int|
                    0 <= j < k ==> ctx.res_by_ty@[(#[trigger] eq@[j]) as int]@.len() == 0,
            decreases slot@.len() - c,
        {
            let id = slot[c];
            proof {
                assert(ctx.res_by_ty@[m as int]@[c as int] == id);
                assert((id as int) < ctx.resources@.len());
                assert(ctx.resources@[id as int].ty == m);
            }
            cand.push(id);
            c = c + 1;
        }
        proof {
            if cand@.len() == 0 {
                assert(ctx.res_by_ty@[m as int]@.len() == 0);
                assert forall|j: int| 0 <= j < k + 1 implies ctx.res_by_ty@[(
                #[trigger] eq@[j]) as int]@.len() == 0 by {
                    if j == k {
                        assert(eq@[j] == m);
                    }
                }
            }
        }
        k = k + 1;
    }
    if cand.len() == 0 {
        proof {
            assert(!compat_exists(*t, ctx.res_by_ty@, ty as int));
        }
        None
    } else {
        let i = rng.next_below(cand.len() as u64) as usize;
        let id = cand[i];
        proof {
            assert(cand@[i as int] == id);
            let m = ctx.resources@[id as int].ty;
            assert(ctx.res_by_ty@[(ctx.resources@[id as int]).ty as int]@.contains(id));
            assert(t.eq_class_of(ty as int).contains(m));
            let k2 = choose|k2: int|
                0 <= k2 < t.eq_class_of(ty as int).len() && t.eq_class_of(ty as int)[k2] == m;
            assert(ctx.res_by_ty@[(t.eq_class_of(ty as int)[k2]) as int]@.len() > 0);
            assert(compat_exists(*t, ctx.res_by_ty@, ty as int));
        }
        Some(id)
    }
}

/// A cached type's first entry is stable under appending to the cache,
/// and an appended entry becomes the cached value for a type that had
/// none.
proof fn lemma_cache_get_push(c: Seq<(usize, u64)>, e: (usize, u64), ty: usize)
    ensures
        cache_get(c, ty) is Some ==> cache_get(c.push(e), ty) == cache_get(c, ty),
        cache_get(c, ty) is None && e.0 == ty ==> cache_get(c.push(e), ty) == Some(e.1),
        cache_get(c, ty) is None && e.0 != ty ==> cache_get(c.push(e), ty) is None,
    decreases c.len(),
{
    if c.len() == 0 {
        assert(c.push(e)[0] == e);
        assert(c.push(e).skip(1) =~= Seq::<(usize, u64)>::empty());
        assert(cache_get(Seq::<(usize, u64)>::empty(), ty) is None);
    } else {
        lemma_cache_get_push(c.skip(1), e, ty);
        assert(c.push(e)[0] == c[0]);
        assert(c.push(e).skip(1) =~= c.skip(1).push(e));
    }
}

/// The value cached for `ty`, if one was synthesised before.
pub open spec fn cache_get(cache: Seq<(usize, u64)>, ty: usize) -> Option<u64>
    decreases cache.len(),
{
    if cache.len() == 0 {
        None
    } else if cache[0].0 == ty {
        Some(cache[0].1)
    } else {
        cache_get(cache.skip(1), ty)
    }
}

/// Synthesises a plain argument value for `ty`: the cached value for
/// that type if one exists (so a program aliases rather than invents),
/// else a corpus value for `ty` when the pool has one, else zero; a
/// newly chosen value is cached.
fn synth_plain<R: RandomSource>(
    pool: &ValuePool,
    ctx: &mut GenContext,
    ty: usize,
    rng: &mut R,
) -> (v: u64)
    requires
        (ty as int) < pool.vals@.len(),
    ensures
        final(ctx).calls == old(ctx).calls,
        final(ctx).resources == old(ctx).resources,
        final(ctx).res_by_ty == old(ctx).res_by_ty,
        final(ctx).produced_tys == old(ctx).produced_tys,
        cache_get(old(ctx).buf_cache@, ty) matches Some(c) ==> (v == c && final(ctx).buf_cache@
            == old(ctx).buf_cache@),
        cache_get(old(ctx).buf_cache@, ty) is None ==> (final(ctx).buf_cache@ == old(
            ctx,
        ).buf_cache@.push((ty, v)) && (pool.vals@[ty as int]@.len() > 0 ==> pool.vals@[
            ty as int
        ]@.contains(v)) && (pool.vals@[ty as int]@.len() == 0 ==> v == 0)),
{
    let n = ctx.buf_cache.len();
    let mut i: usize = 0;
    proof {
        assert(ctx.buf_cache@.skip(0) =~= ctx.buf_cache@);
    }
    while i < n
        invariant
            n == ctx.buf_cache@.len(),
            i <= n,
            *ctx == *old(ctx),
            cache_get(ctx.buf_cache@, ty) == cache_get(ctx.buf_cache@.skip(i as int), ty),
            forall|j: int| 0 <= j < i ==> (#[trigger] ctx.buf_cache@[j]).0 != ty,
        decreases n - i,
    {
        let entry = ctx.buf_cache[i];
        if entry.0 == ty {
            proof {
                assert(ctx.buf_cache@.skip(i as int)[0] == entry);
                assert(cache_get(ctx.buf_cache@.skip(i as int), ty) == Some(entry.1));
            }
            return entry.1;
        }
        proof {
            assert(ctx.buf_cache@.skip(i as int)[0] == ctx.buf_cache@[i as int]);
            assert(ctx.buf_cache@.skip(i as int).skip(1) =~= ctx.buf_cache@.skip(i + 1));
        }
        i = i + 1;
    }
    proof {
        assert(ctx.buf_cache@.skip(i as int).len() == 0);
        assert(cache_get(ctx.buf_cache@, ty) is None);
    }
    let vals = &pool.vals[ty];
    let v: u64;
    if vals.len() > 0 {
        let j = rng.next_below(vals.len() as u64) as usize;
        v = vals[j];
        proof {
            assert(pool.vals@[ty as int]@[j as int] == v);
        }
    } else {
        v = 0;
    }
    ctx.buf_cache.push((ty, v));
    v
}

/// Copies a vector of indices.
fn dup_usizes(v: &Vec<usize>) -> (r: Vec<usize>)
    ensures
        r@ == v@,
{
    let mut r: Vec<usize> = Vec::new();
    let mut i: usize = 0;
    while i < v.len()
        invariant
            i <= v@.len(),
            r@ == v@.take(i as int),
        decreases v@.len() - i,
    {
        r.push(v[i]);
        proof {
            assert(r@ =~= v@.take(i + 1));
        }
        i = i + 1;
    }
    proof {
        assert(v@.take(v@.len() as int) =~= v@);
    }
    r
}

/// Selects the next operation following the resource-first policy: when
/// the policy asks for a resource, choose a resource type uniformly and
/// then one of its producers; otherwise explore the catalog uniformly.
pub fn select_syscall<R: RandomSource>(t: &Target, ctx: &GenContext, rng: &mut R) -> (sc: usize)
    requires
        t.wf(),
        ctx.wf(*t),
        t.res_tys@.len() > 0,
        t.syscalls@.len() > 0,
        ctx.produced_tys@.len() <= MAX_LEN,
    ensures
        (sc as int) < t.syscalls@.len(),
        ctx.produced_tys@.len() == 0 ==> exists|k: int|
            0 <= k < t.res_tys@.len() && t.is_eq_ctor(#[trigger] t.res_tys@[k] as int, sc),
{
    let n_res = ctx.produced_tys.len();
    if should_try_gen_res(n_res, rng) {
        let ty = select_res(&t.res_tys, rng);
        proof {
            let k = choose|k: int| 0 <= k < t.res_tys@.len() && t.res_tys@[k] == ty;
            assert(t.is_res_ty(t.res_tys@[k] as int));
        }
        let sc = select_res_producer(t, ty, rng);
        proof {
            let k = choose|k: int| 0 <= k < t.res_tys@.len() && t.res_tys@[k] == ty;
            assert(t.is_eq_ctor(t.res_tys@[k] as int, sc));
        }
        sc
    } else {
        select_syscall_rand(t, rng)
    }
}

/// Binds a concrete value for every argument of operation `sc`, appends
/// the bound call to the program, and, when `sc` constructs a resource,
/// records the new resource in the pool under its exact type before the
/// next iteration can run.
pub fn gen_call<R: RandomSource>(
    t: &Target,
    pool: &ValuePool,
    ctx: &mut GenContext,
    sc: usize,
    rng: &mut R,
)
    requires
        t.wf(),
        pool.wf(*t),
        old(ctx).wf(*t),
        (sc as int) < t.syscalls@.len(),
    ensures
        final(ctx).wf(*t),
        final(ctx).calls@.len() == old(ctx).calls@.len() + 1,
        final(ctx).calls@.subrange(0, old(ctx).calls@.len() as int) == old(ctx).calls@,
        final(ctx).calls@[old(ctx).calls@.len() as int].syscall == sc,
        final(ctx).produced_tys@.len() <= old(ctx).produced_tys@.len() + 1,
        final(ctx).calls@.last().args@.len() == t.syscalls@[sc as int].args@.len(),
        forall|q: int|
            0 <= q < t.syscalls@[sc as int].args@.len() ==> arg_policy(
                *t,
                *pool,
                old(ctx).res_by_ty@,
                old(ctx).buf_cache@,
                final(ctx).buf_cache@,
                t.syscalls@[sc as int].args@[q],
                #[trigger] final(ctx).calls@.last().args@[q],
            ),
{
    let mut args: Vec<Value> = Vec::new();
    let nargs = t.syscalls[sc].args.len();
    let mut j: usize = 0;
    while j < nargs
        invariant
            t.wf(),
            pool.wf(*t),
            ctx.wf(*t),
            (sc as int) < t.syscalls@.len(),
            nargs == t.syscalls@[sc as int].args@.len(),
            j <= nargs,
            args@.len() == j,
            ctx.calls == old(ctx).calls,
            ctx.resources == old(ctx).resources,
            ctx.res_by_ty == old(ctx).res_by_ty,
            ctx.produced_tys == old(ctx).produced_tys,
            forall|q: int|
                0 <= q < j ==> arg_bound_wf(
                    *t,
                    ctx.resources@,
                    ctx.calls@.len() as int,
                    t.syscalls@[sc as int].args@[q] as int,
                    #[trigger] args@[q],
                ),
            forall|q: int|
                0 <= q < j ==> arg_policy(
                    *t,
                    *pool,
                    old(ctx).res_by_ty@,
                    old(ctx).buf_cache@,
                    ctx.buf_cache@,
                    t.syscalls@[sc as int].args@[q],
                    #[trigger] args@[q],
                ),
            forall|tyx: usize|
                (#[trigger] cache_get(old(ctx).buf_cache@, tyx)) is Some ==> cache_get(
                    ctx.buf_cache@,
                    tyx,
                ) == cache_get(old(ctx).buf_cache@, tyx),
            forall|tyx: usize|
                ((#[trigger] cache_get(ctx.buf_cache@, tyx)) is Some && cache_get(
                    old(ctx).buf_cache@,
                    tyx,
                ) is None) ==> ((tyx as int) < pool.vals@.len() && plain_value_rule(
                    *pool,
                    old(ctx).buf_cache@,
                    tyx as int,
                    cache_get(ctx.buf_cache@, tyx)->0,
                )),
        decreases nargs - j,
    {
        let ty = t.syscalls[sc].args[j];
        proof {
            assert(t.is_type(t.syscalls@[sc as int].args@[j as int] as int));
        }
        let is_res = match &t.types[ty].res {
            Some(_) => true,
            None => false,
        };
        if is_res {
            let picked = pick_compat_res(t, ctx, ty, rng);
            match picked {
                Some(id) => {
                    proof {
                        assert(ctx.prog().res_wf(*t, id as int));
                    }
                    args.push(Value::ResRef { id });
                },
                None => {
                    args.push(Value::ResNull);
                },
            }
        } else {
            let ghost cache0 = ctx.buf_cache@;
            let v = synth_plain(pool, ctx, ty, rng);
            proof {
                if cache_get(cache0, ty) is None {
                    assert(ctx.buf_cache@ == cache0.push((ty, v)));
                    lemma_cache_get_push(cache0, (ty, v), ty);
                    assert forall|tyx: usize|
                        (#[trigger] cache_get(cache0, tyx)) is Some implies cache_get(
                        ctx.buf_cache@,
                        tyx,
                    ) == cache_get(cache0, tyx) by {
                        lemma_cache_get_push(cache0, (ty, v), tyx);
                    }
                    assert forall|tyx: usize|
                        (#[trigger] cache_get(ctx.buf_cache@, tyx)) is Some && cache_get(
                            cache0,
                            tyx,
                        ) is None implies tyx == ty by {
                        lemma_cache_get_push(cache0, (ty, v), tyx);
                    }
                }
                assert(cache_get(ctx.buf_cache@, ty) == Some(v));
            }
            args.push(Value::Int(v));
        }
        j = j + 1;
    }
    let ghost gargs = args@;
    let ghost pre = *ctx;
    let produces = t.syscalls[sc].produces;
    let produced: Option<usize>;
    match produces {
        Some(rt) => {
            proof {
                assert(t.is_res_ty(rt as int));
            }
            let id = ctx.resources.len();
            let here = ctx.calls.len();
            ctx.resources.push(ResValue { ty: rt, produced_by: here });
            let mut slot = dup_usizes(&ctx.res_by_ty[rt]);
            let was_empty = slot.len() == 0;
            slot.push(id);
            ctx.res_by_ty[rt] = slot;
            if was_empty {
                proof {
                    if pre.produced_tys@.contains(rt) {
                        let w = choose|w: int|
                            0 <= w < pre.produced_tys@.len() && pre.produced_tys@[w] == rt;
                        assert(pre.res_by_ty@[pre.produced_tys@[w] as int]@.len() > 0);
                        assert(false);
                    }
                }
                ctx.produced_tys.push(rt);
                proof {
                    lemma_push_no_duplicates(pre.produced_tys@, rt);
                }
            }
            produced = Some(id);
        },
        None => {
            produced = None;
        },
    }
    ctx.calls.push(Call { syscall: sc, args, produced });
    proof {
        lemma_gen_call_preserves(*t, pre, *ctx, sc, gargs, produced);
        assert(ctx.calls@.subrange(0, pre.calls@.len() as int) =~= pre.calls@);
        assert(ctx.calls@.last().args@ == gargs);
        assert(ctx.buf_cache@ == pre.buf_cache@);
    }
}

/// Pushing an element that a duplicate-free sequence does not contain
/// keeps it duplicate-free.
proof fn lemma_push_no_duplicates(s: Seq<usize>, x: usize)
    requires
        s.no_duplicates(),
        !s.contains(x),
    ensures
        s.push(x).no_duplicates(),
{
    let sp = s.push(x);
    assert forall|i: int, j: int|
        0 <= i < sp.len() && 0 <= j < sp.len() && i != j implies sp[i] != sp[j] by {
        if i < s.len() && j < s.len() {
            assert(s[i] == sp[i] && s[j] == sp[j]);
        } else if i < s.len() {
            assert(sp[j] == x);
            if s[i] == x {
                assert(s.contains(x));
            }
        } else {
            assert(sp[i] == x);
            if j < s.len() && s[j] == x {
                assert(s.contains(x));
            }
        }
    }
}

/// After one call is appended — together with its produced resource, if
/// any — the whole context is again well formed.
#[verifier::rlimit(50)]
proof fn lemma_gen_call_preserves(
    t: Target,
    pre: GenContext,
    post: GenContext,
    sc: usize,
    gargs: Seq<Value>,
    produced: Option<usize>,
)
    requires
        t.wf(),
        pre.wf(t),
        (sc as int) < t.syscalls@.len(),
        gargs.len() == t.syscalls@[sc as int].args@.len(),
        forall|q: int|
            0 <= q < gargs.len() ==> arg_bound_wf(
                t,
                pre.resources@,
                pre.calls@.len() as int,
                t.syscalls@[sc as int].args@[q] as int,
                #[trigger] gargs[q],
            ),
        post.calls@.len() == pre.calls@.len() + 1,
        forall|i: int| 0 <= i < pre.calls@.len() ==> post.calls@[i] == pre.calls@[i],
        post.calls@.last().syscall == sc,
        post.calls@.last().args@ == gargs,
        post.calls@.last().produced == produced,
        match t.syscalls@[sc as int].produces {
            Some(rt) => {
                &&& (produced matches Some(pid) && (pid as int) == pre.resources@.len())
                &&& post.resources@.len() == pre.resources@.len() + 1
                &&& (forall|q: int|
                    0 <= q < pre.resources@.len() ==> #[trigger] post.resources@[q]
                        == pre.resources@[q])
                &&& post.resources@.last().ty == rt
                &&& (post.resources@.last().produced_by as int) == pre.calls@.len()
                &&& (rt as int) < pre.res_by_ty@.len()
                &&& post.res_by_ty@.len() == pre.res_by_ty@.len()
                &&& (forall|m: int|
                    0 <= m < pre.res_by_ty@.len() && m != rt ==> #[trigger] post.res_by_ty@[m]
                        == pre.res_by_ty@[m])
                &&& post.res_by_ty@[rt as int]@.len() == pre.res_by_ty@[rt as int]@.len() + 1
                &&& (forall|w: int|
                    0 <= w < pre.res_by_ty@[rt as int]@.len() ==> #[trigger] post.res_by_ty@[
                        rt as int
                    ]@[w] == pre.res_by_ty@[rt as int]@[w])
                &&& post.res_by_ty@[rt as int]@.last() == produced->0
                &&& post.produced_tys@ == if pre.res_by_ty@[rt as int]@.len() == 0 {
                    pre.produced_tys@.push(rt)
                } else {
                    pre.produced_tys@
                }
                &&& (pre.res_by_ty@[rt as int]@.len() == 0 ==> !pre.produced_tys@.contains(rt)
                    && pre.produced_tys@.push(rt).no_duplicates())
            },
            None => {
                &&& produced is None
                &&& post.resources@ == pre.resources@
                &&& post.res_by_ty@ == pre.res_by_ty@
                &&& post.produced_tys@ == pre.produced_tys@
            },
        },
    ensures
        post.wf(t),
{
    let newcall = post.calls@.last();
    let i0 = pre.calls@.len() as int;
    assert(post.calls@.len() == i0 + 1);
    assert forall|i: int| 0 <= i < post.calls@.len() implies post.prog().call_wf(t, i) by {
        if i < i0 {
            assert(pre.prog().call_wf(t, i));
            assert(post.calls@[i] == pre.calls@[i]);
            let c = pre.calls@[i];
            assert forall|q: int| 0 <= q < c.args@.len() implies post.prog().arg_wf(t, i, q) by {
                assert(pre.prog().arg_wf(t, i, q));
                match c.args@[q] {
                    Value::ResRef { id } => {
                        assert(post.resources@[id as int] == pre.resources@[id as int]);
                    },
                    _ => {},
                }
            }
            match c.produced {
                Some(r) => {
                    assert(post.resources@[r as int] == pre.resources@[r as int]);
                },
                None => {},
            }
        } else {
            assert(i == i0);
            assert(post.calls@[i] == newcall);
            assert(newcall.syscall == sc);
            assert forall|q: int|
                0 <= q < newcall.args@.len() implies post.prog().arg_wf(t, i, q) by {
                assert(arg_bound_wf(
                    t,
                    pre.resources@,
                    i0,
                    t.syscalls@[sc as int].args@[q] as int,
                    gargs[q],
                ));
                match gargs[q] {
                    Value::ResRef { id } => {
                        assert(post.resources@[id as int] == pre.resources@[id as int]);
                    },
                    _ => {},
                }
            }
            match t.syscalls@[sc as int].produces {
                Some(rt) => {
                    assert(post.resources@[pre.resources@.len() as int]
                        == post.resources@.last());
                    assert((post.resources@.last().produced_by as int) == i0);
                },
                None => {},
            }
        }
    }
    assert forall|r: int| 0 <= r < post.resources@.len() implies post.prog().res_wf(t, r) by {
        if r < pre.resources@.len() {
            assert(pre.prog().res_wf(t, r));
            assert(post.resources@[r] == pre.resources@[r]);
            let pb = pre.resources@[r].produced_by as int;
            assert(post.calls@[pb] == pre.calls@[pb]);
        } else {
            assert(post.resources@[r] == post.resources@.last());
            assert((post.resources@[r].produced_by as int) == i0);
            let pid = produced->0;
            assert((pid as int) == r);
            assert(post.calls@[i0].produced == Some(pid));
        }
    }
    // the pool stays consistent
    match t.syscalls@[sc as int].produces {
        Some(rt) => {
            let pid = produced->0;
            assert((pid as int) == pre.resources@.len());
            assert(post.resources@[pid as int] == post.resources@.last());
            assert forall|m: int, k: int|
                0 <= m < post.res_by_ty@.len() && 0 <= k < post.res_by_ty@[m]@.len() implies {
                &&& ((post.res_by_ty@[m]@[k]) as int) < post.resources@.len()
                &&& post.resources@[post.res_by_ty@[m]@[k] as int].ty == m
            } by {
                if m == rt as int && k == pre.res_by_ty@[m]@.len() {
                    assert(post.res_by_ty@[m]@[k] == post.res_by_ty@[m]@.last());
                    assert(post.res_by_ty@[m]@[k] == pid);
                } else {
                    assert(post.res_by_ty@[m]@[k] == pre.res_by_ty@[m]@[k]);
                    assert((pre.res_by_ty@[m]@[k] as int) < pre.resources@.len());
                }
            }
            assert forall|rr: int|
                0 <= rr < post.resources@.len() implies post.res_by_ty@[(
            #[trigger] post.resources@[rr]).ty as int]@.contains(rr as usize) by {
                if rr < pre.resources@.len() {
                    let ty = pre.resources@[rr].ty as int;
                    assert(pre.prog().res_wf(t, rr));
                    assert(t.is_res_ty(ty));
                    assert(0 <= ty < pre.res_by_ty@.len());
                    assert(pre.res_by_ty@[ty]@.contains(rr as usize));
                    let w = choose|w: int|
                        0 <= w < pre.res_by_ty@[ty]@.len() && pre.res_by_ty@[ty]@[w] == rr as usize;
                    if ty == rt as int {
                        assert(post.res_by_ty@[ty]@[w] == pre.res_by_ty@[ty]@[w]);
                    } else {
                        assert(post.res_by_ty@[ty] == pre.res_by_ty@[ty]);
                    }
                    assert(post.res_by_ty@[ty]@[w] == rr as usize);
                    assert(0 <= w < post.res_by_ty@[ty]@.len());
                } else {
                    assert((rr as usize) == pid);
                    assert(post.resources@[rr].ty == rt);
                    let ln = pre.res_by_ty@[rt as int]@.len() as int;
                    assert(post.res_by_ty@[rt as int]@[ln] == post.res_by_ty@[rt as int]@.last());
                    assert(post.res_by_ty@[rt as int]@[ln] == pid);
                }
            }
            assert(post.produced_tys@.no_duplicates());
            assert forall|j: int| 0 <= j < post.produced_tys@.len() implies {
                &&& ((post.produced_tys@[j]) as int) < post.res_by_ty@.len()
                &&& post.res_by_ty@[post.produced_tys@[j] as int]@.len() > 0
            } by {
                if j < pre.produced_tys@.len() {
                    assert(pre.res_by_ty@[pre.produced_tys@[j] as int]@.len() > 0);
                } else {
                    assert(post.produced_tys@[j] == rt);
                }
            }
            assert forall|m: int|
                0 <= m < post.res_by_ty@.len() && (post.res_by_ty@[m]@).len() > 0
                    implies post.produced_tys@.contains(m as usize) by {
                if m == rt as int {
                    if pre.res_by_ty@[m]@.len() == 0 {
                        assert(post.produced_tys@[pre.produced_tys@.len() as int] == rt);
                    } else {
                        assert(pre.produced_tys@.contains(rt));
                        let w = choose|w: int|
                            0 <= w < pre.produced_tys@.len() && pre.produced_tys@[w] == rt;
                        assert(post.produced_tys@[w] == rt);
                    }
                } else {
                    assert(pre.res_by_ty@[m]@.len() > 0);
                    assert(pre.produced_tys@.contains(m as usize));
                    let w = choose|w: int|
                        0 <= w < pre.produced_tys@.len() && pre.produced_tys@[w] == m as usize;
                    assert(post.produced_tys@[w] == m as usize);
                }
            }
        },
        None => {
        },
    }
}

/// Why a generation request was refused before the loop began.
#[derive(PartialEq, Eq, Debug)]
pub enum GenError {
    /// The target has no operations at all.
    EmptyCatalog,
    /// The target has operations but no resource type; the policy starts
    /// every program by constructing a resource, so it has nothing to do.
    NoResourceTypes,
}

/// The generation control loop: repeatedly decide whether to stop,
/// select an operation, bind its arguments and append the call.
fn gen_inner<R: RandomSource>(t: &Target, pool: &ValuePool, rng: &mut R) -> (p: Prog)
    requires
        t.wf(),
        pool.wf(*t),
        t.res_tys@.len() > 0,
    ensures
        p.wf(*t),
        MIN_LEN <= p.calls@.len() <= MAX_LEN,
        p.first_call_is_ctor(*t),
{
    proof {
        crate::target::lemma_has_syscalls(*t);
    }
    let mut ctx = GenContext::new(t);
    loop
        invariant
            t.wf(),
            pool.wf(*t),
            t.res_tys@.len() > 0,
            t.syscalls@.len() > 0,
            ctx.wf(*t),
            ctx.calls@.len() <= MAX_LEN,
            ctx.produced_tys@.len() <= ctx.calls@.len(),
            ctx.calls@.len() == 0 ==> ctx.produced_tys@.len() == 0,
            ctx.calls@.len() > 0 ==> ctx.prog().first_call_is_ctor(*t),
        ensures
            ctx.wf(*t),
            MIN_LEN <= ctx.calls@.len() <= MAX_LEN,
            ctx.prog().first_call_is_ctor(*t),
        decreases MAX_LEN - ctx.calls@.len(),
    {
        let len = ctx.calls.len();
        let stop = should_stop(len, rng);
        if stop {
            break;
        }
        let ghost was_empty = ctx.calls@.len() == 0;
        let sc = select_syscall(t, &ctx, rng);
        gen_call(t, pool, &mut ctx, sc, rng);
        proof {
            if was_empty {
                assert(ctx.calls@[0].syscall == sc);
            } else {
                assert(ctx.calls@.subrange(0, ctx.calls@.len() - 1)[0] == ctx.calls@[0]);
            }
        }
    }
    let ghost gctx = ctx;
    let p = Prog { calls: ctx.calls, resources: ctx.resources };
    proof {
        assert(p == gctx.prog());
    }
    p
}

/// Generates one test program for `target`: repeatedly selects an
/// operation under the resource-first policy, binds its arguments —
/// resource arguments from the run's resource pool where a substitutable
/// value exists, plain arguments biased by the corpus `pool` — and stops
/// under the stochastic length rule. All randomness comes from `rng`.
pub fn gen<R: RandomSource>(target: &Target, pool: &ValuePool, rng: &mut R) -> (r: Result<
    Prog,
    GenError,
>)
    requires
        target.wf(),
        pool.wf(*target),
    ensures
        target.syscalls@.len() == 0 ==> (r matches Err(e) && e is EmptyCatalog),
        target.syscalls@.len() > 0 && target.res_tys@.len() == 0 ==> (r matches Err(e)
            && e is NoResourceTypes),
        target.res_tys@.len() > 0 ==> (r matches Ok(p) && p.wf(*target) && MIN_LEN
            <= p.calls@.len() <= MAX_LEN && p.first_call_is_ctor(*target)),
{
    if target.syscalls.len() == 0 {
        proof {
            if target.res_tys@.len() > 0 {
                crate::target::lemma_has_syscalls(*target);
            }
        }
        Err(GenError::EmptyCatalog)
    } else if target.res_tys.len() == 0 {
        Err(GenError::NoResourceTypes)
    } else {
        Ok(gen_inner(target, pool, rng))
    }
}

} // verus!

