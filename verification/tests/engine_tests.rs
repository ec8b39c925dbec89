use pancake_tones::engine::{flip, Engine, Phase, TickEffect, SWEEP_INCREMENT};

#[test]
fn flip_reverses_prefix() {
    let mut v: Vec<i32> = vec![5, 4, 3, 2, 1];
    flip(&mut v, 2);
    assert_eq!(v, vec![3, 4, 5, 2, 1]);
    flip(&mut v, 4);
    assert_eq!(v, vec![1, 2, 5, 4, 3]);
    flip(&mut v, 0);
    assert_eq!(v, vec![1, 2, 5, 4, 3]);
}

#[test]
fn flip_keeps_values() {
    let mut v: Vec<i32> = vec![2, 7, 1, 9, 4];
    flip(&mut v, 3);
    let mut sorted = v.clone();
    sorted.sort();
    assert_eq!(sorted, vec![1, 2, 4, 7, 9]);
}

#[test]
fn example_four_elements() {
    let mut engine = Engine { values: vec![3, 1, 4, 2], boundary: 4, sweep_progress: 0, phase: Phase::Sorting };

    let eff1 = engine.tick();
    assert_eq!(eff1, TickEffect::Flip { max_index: 2 });
    assert_eq!(engine.values, vec![2, 3, 1, 4]);
    assert_eq!(engine.boundary, 3);

    let eff2 = engine.tick();
    assert_eq!(eff2, TickEffect::Flip { max_index: 1 });
    assert_eq!(engine.values, vec![1, 2, 3, 4]);
    assert_eq!(engine.boundary, 2);

    let eff3 = engine.tick();
    assert_eq!(eff3, TickEffect::Quiet);
    assert_eq!(engine.values, vec![1, 2, 3, 4]);
    assert_eq!(engine.boundary, 1);

    let eff4 = engine.tick();
    assert_eq!(eff4, TickEffect::Quiet);
    assert_eq!(engine.boundary, 0);
    assert_eq!(engine.phase, Phase::Verifying);
    assert_eq!(engine.values, vec![1, 2, 3, 4]);
}

#[test]
fn new_engine_holds_a_permutation() {
    let engine = Engine::new(50);
    assert_eq!(engine.values.len(), 50);
    assert_eq!(engine.boundary, 50);
    assert_eq!(engine.phase, Phase::Sorting);
    let mut sorted = engine.values.clone();
    sorted.sort();
    let expected: Vec<i32> = (1..=50).collect();
    assert_eq!(sorted, expected);
}

#[test]
fn run_sorting_sorts_any_start() {
    let mut engine = Engine::new(200);
    let ticks = engine.run_sorting();
    assert_eq!(ticks, 200);
    assert_eq!(engine.boundary, 0);
    let expected: Vec<i32> = (1..=200).collect();
    assert_eq!(engine.values, expected);
}

#[test]
fn boundary_drops_by_one_each_sorting_tick() {
    let mut engine = Engine::new(17);
    for expected in (0..17).rev() {
        engine.tick();
        assert_eq!(engine.boundary, expected);
    }
    assert_eq!(engine.phase, Phase::Verifying);
}

#[test]
fn empty_engine_goes_straight_to_verifying() {
    let mut engine = Engine::new(0);
    assert_eq!(engine.phase, Phase::Verifying);
    assert_eq!(engine.boundary, 0);
    let eff = engine.tick();
    assert_eq!(eff, TickEffect::Pause);
    assert_eq!(engine.phase, Phase::Done);
}

#[test]
fn single_element_sorts_in_one_tick() {
    let mut engine = Engine::new(1);
    assert_eq!(engine.phase, Phase::Sorting);
    let eff = engine.tick();
    assert_eq!(eff, TickEffect::Quiet);
    assert_eq!(engine.values, vec![1]);
    assert_eq!(engine.phase, Phase::Verifying);
}

#[test]
fn sweep_of_thousand_pauses_after_fifty_one_ticks() {
    let values: Vec<i32> = (1..=1000).collect();
    let mut engine = Engine { values, boundary: 0, sweep_progress: 0, phase: Phase::Verifying };
    assert_eq!(SWEEP_INCREMENT, 20);

    let mut pauses: usize = 0;
    for tick in 1..=50usize {
        let eff = engine.tick();
        assert_eq!(eff, TickEffect::Sweep { progress: 20 * tick });
        assert_eq!(engine.phase, Phase::Verifying);
    }
    let eff = engine.tick();
    assert_eq!(eff, TickEffect::Pause);
    if eff == TickEffect::Pause {
        pauses += 1;
    }
    assert_eq!(engine.sweep_progress, 1020);
    assert_eq!(engine.phase, Phase::Done);

    for _ in 0..3 {
        let eff = engine.tick();
        assert_eq!(eff, TickEffect::Quiet);
        if eff == TickEffect::Pause {
            pauses += 1;
        }
        assert_eq!(engine.phase, Phase::Done);
        assert_eq!(engine.sweep_progress, 1020);
    }
    assert_eq!(pauses, 1);
}
