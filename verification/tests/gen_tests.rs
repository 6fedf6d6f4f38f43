use resgen::gen::{
    accurate_ctor_decision, gen, should_stop, stop_decision, try_gen_res_decision, GenError,
    MAX_LEN, MIN_LEN,
};
use resgen::prog::{Prog, Value};
use resgen::rng::{FixedRandom, RandomSource, ThreadRandom};
use resgen::target::{ResDesc, Syscall, Target, TypeInfo, ValuePool};

/// One resource type `R` (type 0) with the single exact constructor
/// `open_r` (syscall 0), a plain `noop` (syscall 1), and a consumer
/// `use_r` (syscall 2) taking one `R`-typed argument.
fn single_resource_target() -> Target {
    Target {
        syscalls: vec![
            Syscall { args: vec![], produces: Some(0) },
            Syscall { args: vec![], produces: None },
            Syscall { args: vec![0], produces: None },
        ],
        types: vec![TypeInfo { res: Some(ResDesc { ctors: vec![0] }) }],
        res_tys: vec![0],
        res_eq_class: vec![vec![0]],
    }
}

/// Two resource types in one equivalence class: type 0 has no exact
/// constructor of its own; type 1 is constructed by `make_b` (syscall 0).
fn shared_class_target() -> Target {
    Target {
        syscalls: vec![
            Syscall { args: vec![], produces: Some(1) },
            Syscall { args: vec![], produces: None },
        ],
        types: vec![
            TypeInfo { res: Some(ResDesc { ctors: vec![] }) },
            TypeInfo { res: Some(ResDesc { ctors: vec![0] }) },
        ],
        res_tys: vec![0, 1],
        res_eq_class: vec![vec![0, 1], vec![1]],
    }
}

fn generate(target: &Target) -> Prog {
    let pool = ValuePool::empty(target.types.len());
    let mut rng = ThreadRandom::new();
    gen(target, &pool, &mut rng).expect("generation should succeed")
}

#[test]
fn length_bounds_hold() {
    let target = single_resource_target();
    for _ in 0..300 {
        let p = generate(&target);
        assert!(p.calls.len() >= MIN_LEN);
        assert!(p.calls.len() <= MAX_LEN);
    }
}

#[test]
fn first_call_constructs_a_resource() {
    let target = single_resource_target();
    for _ in 0..200 {
        let p = generate(&target);
        let first = &p.calls[0];
        assert!(target.syscalls[first.syscall].produces.is_some());
    }
}

#[test]
fn resource_references_point_backward() {
    let target = single_resource_target();
    for _ in 0..200 {
        let p = generate(&target);
        for (i, call) in p.calls.iter().enumerate() {
            if let Some(r) = call.produced {
                assert_eq!(p.resources[r].produced_by, i);
            }
            for arg in &call.args {
                if let Value::ResRef { id } = arg {
                    let res = &p.resources[*id];
                    assert!(res.produced_by < i, "reference must be strictly backward");
                }
            }
        }
    }
}

#[test]
fn equivalence_class_constructors_only() {
    let target = shared_class_target();
    for _ in 0..200 {
        let p = generate(&target);
        for call in &p.calls {
            if target.syscalls[call.syscall].produces.is_some() {
                // the only constructor anywhere in the catalog is make_b
                assert_eq!(call.syscall, 0);
            }
        }
    }
}

#[test]
fn concrete_scenario_single_resource() {
    let target = single_resource_target();
    for _ in 0..100 {
        let p = generate(&target);
        // the resource pool starts empty, so the run opens with open_r
        assert_eq!(p.calls[0].syscall, 0);
        assert_eq!(p.calls[0].produced, Some(0));
        // every R-typed argument refers to a resource an open_r call made
        for call in &p.calls {
            for arg in &call.args {
                if let Value::ResRef { id } = arg {
                    let res = &p.resources[*id];
                    assert_eq!(res.ty, 0);
                    assert_eq!(p.calls[res.produced_by].syscall, 0);
                }
            }
        }
        // the pool is never empty after the first call, so a consuming
        // call always references a pooled resource, never a placeholder
        for call in &p.calls {
            if call.syscall == 2 {
                assert!(matches!(call.args[0], Value::ResRef { .. }));
            }
        }
    }
}

#[test]
fn accurate_ctor_decision_matches_the_formula() {
    // 17 of 20 draws prefer the type's own constructors: 0.85 exactly
    for draw in 0..20u64 {
        assert_eq!(accurate_ctor_decision(draw), draw < 17);
    }
}

#[test]
fn fixed_draws_are_replayed_in_order() {
    let mut rng = FixedRandom::new(vec![7, 3, 100]);
    assert_eq!(rng.next_below(5), 7 % 5);
    assert_eq!(rng.next_below(5), 3);
    assert_eq!(rng.next_below(8), 100 % 8);
    assert_eq!(rng.remaining(), 0);
    // an exhausted source draws zero and stays exhausted
    assert_eq!(rng.next_below(5), 0);
    assert_eq!(rng.next_below(9), 0);
}

#[test]
fn stopping_is_deterministic_at_the_bounds() {
    let mut rng = ThreadRandom::new();
    for len in 0..MIN_LEN {
        for _ in 0..50 {
            assert!(!should_stop(len, &mut rng));
        }
    }
    for len in MAX_LEN..MAX_LEN + 3 {
        for _ in 0..50 {
            assert!(should_stop(len, &mut rng));
        }
    }
}

#[test]
fn stopping_probability_is_linear_in_length() {
    let mut rng = ThreadRandom::new();
    let trials = 40000;
    for len in MIN_LEN..MAX_LEN {
        let mut stops = 0u32;
        for _ in 0..trials {
            if should_stop(len, &mut rng) {
                stops += 1;
            }
        }
        let observed = stops as f64 / trials as f64;
        let expected = 0.8 * len as f64 / MAX_LEN as f64;
        assert!(
            (observed - expected).abs() < 0.02,
            "len {}: observed {} expected {}",
            len,
            observed,
            expected
        );
    }
}

#[test]
fn stop_decision_matches_the_formula() {
    // P(stop) = 0.8 * len/16 = len/20: exactly the draws below len stop
    for len in MIN_LEN..MAX_LEN {
        for draw in 0..20u64 {
            assert_eq!(stop_decision(len, draw), (draw as usize) < len);
        }
    }
    assert!(!stop_decision(3, 19));
    assert!(stop_decision(16, 19));
}

#[test]
fn try_gen_res_decision_matches_the_formula() {
    // n == 1 (below MIN_RES): probability 2*(6-1)/15 = 10/15
    for draw in 0..15u64 {
        assert_eq!(try_gen_res_decision(1, draw), draw < 10);
    }
    // n == 3 (inside the band): probability (6-3)/15 = 3/15
    for draw in 0..15u64 {
        assert_eq!(try_gen_res_decision(3, draw), draw < 3);
    }
    // n == 8 (past MAX_RES): probability 3/(5*8), draw below 5*8
    for draw in 0..40u64 {
        assert_eq!(try_gen_res_decision(8, draw), draw < 3);
    }
    // n == 0: always create a resource
    assert!(try_gen_res_decision(0, 0));
}

#[test]
fn generation_is_deterministic_under_fixed_draws() {
    let target = single_resource_target();
    let pool = ValuePool::empty(target.types.len());
    let draws: Vec<u64> = vec![13, 7, 19, 2, 5, 11, 3, 17, 8, 1, 14, 9, 6, 12, 4, 18, 10, 15, 0, 16];
    let mut rng_a = FixedRandom::new(draws.clone());
    let mut rng_b = FixedRandom::new(draws.clone());
    assert_eq!(rng_a.remaining(), draws.len());
    let a = gen(&target, &pool, &mut rng_a).unwrap();
    let b = gen(&target, &pool, &mut rng_b).unwrap();
    assert_eq!(a, b);
    // both runs consumed the same number of draws
    assert_eq!(rng_a.remaining(), rng_b.remaining());
}

#[test]
fn fixed_draws_reach_the_maximum_length() {
    let target = single_resource_target();
    let pool = ValuePool::empty(target.types.len());
    // every stop draw is 19, and 19 < len never holds below MAX_LEN
    let mut rng = FixedRandom::new(vec![19; 400]);
    let p = gen(&target, &pool, &mut rng).unwrap();
    assert_eq!(p.calls.len(), MAX_LEN);
}

#[test]
fn exhausted_draws_stop_at_the_minimum_length() {
    let target = single_resource_target();
    let pool = ValuePool::empty(target.types.len());
    // exhausted draws all read as zero, and 0 < len first holds at MIN_LEN
    let mut rng = FixedRandom::new(vec![]);
    let p = gen(&target, &pool, &mut rng).unwrap();
    assert_eq!(p.calls.len(), MIN_LEN);
}

#[test]
fn empty_catalog_is_a_configuration_error() {
    let target = Target { syscalls: vec![], types: vec![], res_tys: vec![], res_eq_class: vec![] };
    let pool = ValuePool::empty(0);
    let mut rng = ThreadRandom::new();
    let r = gen(&target, &pool, &mut rng);
    assert!(matches!(r, Err(GenError::EmptyCatalog)));
}

#[test]
fn missing_resource_types_are_a_configuration_error() {
    let target = Target {
        syscalls: vec![Syscall { args: vec![], produces: None }],
        types: vec![TypeInfo { res: None }],
        res_tys: vec![],
        res_eq_class: vec![vec![]],
    };
    let pool = ValuePool::empty(1);
    let mut rng = ThreadRandom::new();
    let r = gen(&target, &pool, &mut rng);
    assert!(matches!(r, Err(GenError::NoResourceTypes)));
}

#[test]
fn plain_arguments_come_from_the_corpus() {
    // type 1 is plain; the corpus holds two values for it
    let target = Target {
        syscalls: vec![
            Syscall { args: vec![], produces: Some(0) },
            Syscall { args: vec![1], produces: None },
        ],
        types: vec![TypeInfo { res: Some(ResDesc { ctors: vec![0] }) }, TypeInfo { res: None }],
        res_tys: vec![0],
        res_eq_class: vec![vec![0], vec![]],
    };
    let pool = ValuePool { vals: vec![vec![], vec![41, 42]] };
    let mut rng = ThreadRandom::new();
    for _ in 0..100 {
        let p = gen(&target, &pool, &mut rng).unwrap();
        for call in &p.calls {
            for arg in &call.args {
                if let Value::Int(v) = arg {
                    assert!(*v == 41 || *v == 42);
                }
            }
        }
    }
}

#[test]
fn entropy_draws_stay_below_their_bound() {
    let mut rng = ThreadRandom::new();
    let mut seen = [false; 5];
    for _ in 0..2000 {
        let d = rng.next_below(5);
        assert!(d < 5);
        seen[d as usize] = true;
    }
    // a constant source would fail this: uniform draws hit every value
    assert!(seen.iter().all(|s| *s));
}
