use minilp::{ComparisonOp, OptimizationDirection, Problem};
use trainsim::builder::build_model;
use trainsim::driver::{apply_training, complete_assignment, simulate_person};
use trainsim::model::{CmpOp, Model};
use trainsim::types::{Error, Overlap, Person, Target};

/// Solves the built model over the reals and hands back the objective
/// value and the per-(segment, combo) hours, rounded to thousandths.  A
/// tiny penalty on the pair variables breaks ties toward allocations that
/// do not park unused time on a combo.
fn lp_solve(m: &Model, area: usize) -> Option<(f64, Vec<i64>)> {
    let mut pb = Problem::new(OptimizationDirection::Maximize);
    let mut vars = Vec::new();
    for v in 0..m.num_vars {
        let mut obj = 0.0;
        for t in m.objective.iter() {
            if t.var == v {
                obj += t.coef as f64;
            }
        }
        if v < area {
            obj -= 1e-3;
        }
        vars.push(pb.add_var(obj, (0.0, f64::INFINITY)));
    }
    for c in m.constraints.iter() {
        if c.terms.is_empty() {
            continue;
        }
        let terms: Vec<(minilp::Variable, f64)> =
            c.terms.iter().map(|t| (vars[t.var], t.coef as f64)).collect();
        let op = match c.op {
            CmpOp::Le => ComparisonOp::Le,
            CmpOp::Ge => ComparisonOp::Ge,
            CmpOp::Eq => ComparisonOp::Eq,
        };
        pb.add_constraint(&terms, op, c.rhs as f64);
    }
    let sol = pb.solve().ok()?;
    let combo: Vec<i64> = (0..area).map(|v| sol[vars[v]].round() as i64).collect();
    Some((sol.objective(), combo))
}

/// One day for one person: build, solve, complete, validate, extract.
fn solve_day(p: &Person) -> Result<trainsim::driver::DayResult, Error> {
    let area = p.schedule.len() * p.overlap.len();
    let m = build_model(p);
    // A target skill with no eligible pair is caught before solving.
    let probe = simulate_person(p, &vec![]);
    if let Err(Error::ModelInfeasible) = probe {
        return Err(Error::ModelInfeasible);
    }
    let (_, combo) = lp_solve(&m, area).ok_or(Error::SolverFailure)?;
    let asg = complete_assignment(p, &combo);
    simulate_person(p, &asg)
}

fn single_skill_person() -> Person {
    Person {
        name: "Amu".to_string(),
        skills: vec![("Lore".to_string(), 1_000)],
        schedule: vec![("Afternoon".to_string(), 2_000)],
        safety_limit: vec![],
        schedule_limit: vec![],
        overlap: vec![Overlap { combo: vec!["Lore".to_string()], bonus: 1_000 }],
        target: vec![("Lore".to_string(), Target { target_ranks: 2_000, hours_needed: 1_000 })],
        preference: vec![],
    }
}

#[test]
fn one_hour_need_takes_one_hour_not_two() {
    // A two-hour segment, one skill needing one effective hour: the solve
    // allocates exactly one hour, wastes the other, and one day retires
    // the target.
    let mut p = single_skill_person();
    let d = solve_day(&p).expect("day must solve");
    assert_eq!(d.roi, vec![("Lore".to_string(), 1_000)]);
    assert_eq!(d.total_roi, 1_000);
    assert_eq!(d.wasted, 1_000);
    let retired = apply_training(&mut p, &d.roi);
    assert_eq!(retired, vec![("Lore".to_string(), 1_000)]);
    assert!(p.target.is_empty());
}

#[test]
fn overlap_bonus_beats_training_separately() {
    // Two skills, each needing 2.0 effective hours, sharing one 2-hour
    // segment; the joint combo carries a 1.25 bonus.  The optimal solve
    // puts the whole segment on the joint combo: 2.0 hours * 1.25 = 2.5
    // effective hours, split between the skills by the accounting rule.
    let joint = Person {
        name: "Amu".to_string(),
        skills: vec![("Dreamwalking".to_string(), 1_000), ("Illusion".to_string(), 1_000)],
        schedule: vec![("Evening".to_string(), 2_000)],
        safety_limit: vec![],
        schedule_limit: vec![],
        overlap: vec![
            Overlap {
                combo: vec!["Dreamwalking".to_string(), "Illusion".to_string()],
                bonus: 1_250,
            },
            Overlap { combo: vec!["Dreamwalking".to_string()], bonus: 1_000 },
            Overlap { combo: vec!["Illusion".to_string()], bonus: 1_000 },
        ],
        target: vec![
            ("Dreamwalking".to_string(), Target { target_ranks: 2_000, hours_needed: 2_000 }),
            ("Illusion".to_string(), Target { target_ranks: 2_000, hours_needed: 2_000 }),
        ],
        preference: vec![],
    };
    let d = solve_day(&joint).expect("day must solve");
    assert_eq!(d.roi[0], ("Dreamwalking".to_string(), 1_250));
    assert_eq!(d.roi[1], ("Illusion".to_string(), 1_250));
    assert_eq!(d.total_roi, 2_500);
    assert_eq!(d.wasted, 0);

    // Without the joint combo the same day realizes only 2.0 in total.
    let mut separate = joint.clone();
    separate.overlap.remove(0);
    let d2 = solve_day(&separate).expect("day must solve");
    assert_eq!(d2.total_roi, 2_000);
    assert!(d.total_roi > d2.total_roi);
}

#[test]
fn excluded_skill_surfaces_as_model_infeasible() {
    // A schedule limit bars the only segment from training the target
    // skill: the day fails as ModelInfeasible instead of looping forever.
    let p = Person {
        name: "Amu".to_string(),
        skills: vec![("Lore".to_string(), 1_000), ("Illusion".to_string(), 1_000)],
        schedule: vec![("School".to_string(), 1_000)],
        safety_limit: vec![],
        schedule_limit: vec![("School".to_string(), vec!["Illusion".to_string()])],
        overlap: vec![
            Overlap { combo: vec!["Lore".to_string()], bonus: 1_000 },
            Overlap { combo: vec!["Illusion".to_string()], bonus: 1_000 },
        ],
        target: vec![("Lore".to_string(), Target { target_ranks: 2_000, hours_needed: 1_000 })],
        preference: vec![],
    };
    assert_eq!(solve_day(&p), Err(Error::ModelInfeasible));
}

#[test]
fn solved_allocation_respects_capacity_and_safety_and_limits() {
    // Two segments, a safety cap, and a schedule limit together; the
    // validated assignment obeys each rule exactly.
    let p = Person {
        name: "Amu".to_string(),
        skills: vec![("Lore".to_string(), 1_000), ("Illusion".to_string(), 1_000)],
        schedule: vec![("School".to_string(), 1_000), ("Evening".to_string(), 2_000)],
        safety_limit: vec![("Lore".to_string(), 500)],
        schedule_limit: vec![("School".to_string(), vec!["Illusion".to_string()])],
        overlap: vec![
            Overlap { combo: vec!["Lore".to_string()], bonus: 1_000 },
            Overlap { combo: vec!["Illusion".to_string()], bonus: 1_000 },
        ],
        target: vec![
            ("Lore".to_string(), Target { target_ranks: 2_000, hours_needed: 10_000 }),
            ("Illusion".to_string(), Target { target_ranks: 2_000, hours_needed: 10_000 }),
        ],
        preference: vec![],
    };
    let area = p.schedule.len() * p.overlap.len();
    let m = build_model(&p);
    let (_, combo) = lp_solve(&m, area).expect("solvable");
    let asg = complete_assignment(&p, &combo);
    let d = simulate_person(&p, &asg).expect("valid day");
    let t_count = p.target.len();
    let s_count = p.schedule.len();
    // Segment usage never exceeds the scheduled durations.
    for i in 0..s_count {
        assert!(asg[area + t_count + i] <= p.schedule[i].1);
    }
    // The capped skill gets at most its safety limit of raw hours.
    assert!(asg[area + 0] <= 500);
    // The barred combo (Lore in School) received no time at all.
    assert_eq!(asg[0 * p.overlap.len() + 0], 0);
    // Lore's realized output is capped by its safety limit, Illusion
    // fills School and the rest of Evening.
    assert_eq!(d.roi[0].1, 500);
    assert_eq!(d.roi[1].1, 2_500);
}

#[test]
fn solving_the_identical_model_twice_matches() {
    let p = single_skill_person();
    let m1 = build_model(&p);
    let m2 = build_model(&p);
    assert_eq!(m1, m2);
    let area = p.schedule.len() * p.overlap.len();
    let (obj1, combo1) = lp_solve(&m1, area).expect("solvable");
    let (obj2, combo2) = lp_solve(&m2, area).expect("solvable");
    assert_eq!(obj1, obj2);
    assert_eq!(combo1, combo2);
}

#[test]
fn tampered_solution_is_rejected() {
    // Feeding back an assignment that overdraws the segment fails the
    // validation as a solver fault.
    let p = single_skill_person();
    let combo = vec![5_000];
    let asg = complete_assignment(&p, &combo);
    assert_eq!(simulate_person(&p, &asg), Err(Error::SolverFailure));
}

#[test]
fn zero_allocation_is_always_feasible() {
    // Doing nothing satisfies every constraint: no capacity, safety or
    // limit rule binds, and every target simply makes no progress.
    let p = single_skill_person();
    let combo = vec![0];
    let asg = complete_assignment(&p, &combo);
    let d = simulate_person(&p, &asg).expect("idle day is feasible");
    assert_eq!(d.total_roi, 0);
    assert_eq!(d.roi, vec![("Lore".to_string(), 0)]);
    assert_eq!(d.wasted, 2_000);
}

#[test]
fn empty_schedule_leaves_target_stuck() {
    let mut p = single_skill_person();
    p.schedule = vec![];
    assert_eq!(solve_day(&p), Err(Error::ModelInfeasible));
}

#[test]
fn no_targets_means_an_idle_day() {
    let mut p = single_skill_person();
    p.target = vec![];
    let area = p.schedule.len() * p.overlap.len();
    let m = build_model(&p);
    let (_, combo) = lp_solve(&m, area).expect("solvable");
    let asg = complete_assignment(&p, &combo);
    let d = simulate_person(&p, &asg).expect("idle day is feasible");
    assert!(d.roi.is_empty());
    assert_eq!(d.total_roi, 0);
    assert_eq!(d.wasted, 2_000);
}

#[test]
fn depletion_loop_terminates_over_days() {
    // 2.0 effective hours needed at 1.0 hour of schedule per day: two
    // simulated days retire the target.
    let mut p = single_skill_person();
    p.schedule = vec![("Afternoon".to_string(), 1_000)];
    p.target = vec![("Lore".to_string(), Target { target_ranks: 2_000, hours_needed: 2_000 })];
    let mut days = 0;
    while !p.target.is_empty() {
        let d = solve_day(&p).expect("day must solve");
        apply_training(&mut p, &d.roi);
        days += 1;
        assert!(days <= 10);
    }
    assert_eq!(days, 2);
}
