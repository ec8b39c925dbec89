use pancake_tones::engine::{Engine, Phase};
use pancake_tones::render::frame_bars;

#[test]
fn one_bar_per_element_in_index_order() {
    let engine =
        Engine { values: vec![3, 1, 4, 2], boundary: 4, sweep_progress: 0, phase: Phase::Sorting };
    let bars = frame_bars(&engine);
    assert_eq!(bars.len(), 4);
    for (k, bar) in bars.iter().enumerate() {
        assert_eq!(bar.index, k);
        assert_eq!(bar.value, engine.values[k]);
    }
}

#[test]
fn bars_track_the_array_as_it_sorts() {
    let mut engine = Engine::new(12);
    engine.run_sorting();
    let bars = frame_bars(&engine);
    let values: Vec<i32> = bars.iter().map(|b| b.value).collect();
    let expected: Vec<i32> = (1..=12).collect();
    assert_eq!(values, expected);
}
