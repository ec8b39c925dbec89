use pancake_tones::channel::{audio_turn, Command, CommandQueue};
use pancake_tones::oscillator::Oscillator;

#[test]
fn square_wave_alternates_between_two_values() {
    let mut osc = Oscillator::new(8);
    osc.set_frequency(2);
    let out = osc.render_block(9);
    assert_eq!(out, vec![1, 1, -1, -1, 1, 1, -1, -1, 1]);
    for s in &out {
        assert!(*s == 1 || *s == -1);
    }
}

#[test]
fn sign_changes_per_second_are_twice_the_frequency() {
    let sr: u32 = 64;
    for f in [1u32, 2, 7, 16, 32] {
        let mut osc = Oscillator::new(sr);
        osc.set_frequency(f);
        let out = osc.render_block(sr as usize + 1);
        let mut changes: usize = 0;
        for k in 1..out.len() {
            if out[k - 1] != out[k] {
                changes += 1;
            }
        }
        assert_eq!(changes, 2 * f as usize);
    }
}

#[test]
fn zero_frequency_holds_a_constant_value() {
    let mut osc = Oscillator::new(100);
    let out = osc.render_block(32);
    assert_eq!(out, vec![1; 32]);
    assert_eq!(osc.phase, 0);
}

#[test]
fn phase_wraps_at_the_bound() {
    let mut osc = Oscillator::new(4);
    osc.set_frequency(15);
    let _ = osc.render_block(2);
    assert_eq!(osc.phase, (15 + 15) % 16);
}

#[test]
fn last_command_sent_wins() {
    let mut queue = CommandQueue::new();
    let mut osc = Oscillator::new(8);
    queue.send(Command { frequency: 5 });
    queue.send(Command { frequency: 9 });
    queue.send(Command { frequency: 2 });
    let out = audio_turn(&mut queue, &mut osc, 4);
    assert_eq!(osc.frequency, 2);
    assert_eq!(out.len(), 4);
}

#[test]
fn empty_queue_reuses_previous_frequency() {
    let mut queue = CommandQueue::new();
    let mut osc = Oscillator::new(8);
    queue.send(Command { frequency: 3 });
    let _ = audio_turn(&mut queue, &mut osc, 8);
    assert_eq!(osc.frequency, 3);
    let _ = audio_turn(&mut queue, &mut osc, 8);
    assert_eq!(osc.frequency, 3);
}
