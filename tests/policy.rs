use backup::failure::{first_choice, is_white_space, FailurePolicy};
use backup::progress::{estimate_entry, inflate_estimate, overhead_of, NoFurtherUpdates, ProgressChannel, ProgressState, Sampler};

#[test]
fn ignore_all_silences_later_failures() {
    let mut policy = FailurePolicy::new();
    assert!(!policy.skips_silently());
    assert!(policy.failed_access("a\n"));
    assert!(policy.skips_silently());
    assert!(policy.failed_access("r\n"));
    assert!(policy.failed_access(""));
    assert!(policy.skips_silently());
}

#[test]
fn answers_are_read_from_first_printed_character() {
    let mut policy = FailurePolicy::new();
    assert!(policy.failed_access("  i\n"));
    assert!(!policy.skips_silently());
    assert!(policy.failed_access("I"));
    assert!(!policy.failed_access("r\n"));
    assert!(!policy.failed_access("\n"));
    assert!(!policy.failed_access(""));
    assert!(!policy.failed_access("x a"));
    assert!(!policy.skips_silently());
    assert!(policy.failed_access("\u{a0}\tAll"));
    assert!(policy.skips_silently());
}

#[test]
fn first_choice_skips_unicode_white_space() {
    assert_eq!(first_choice(" \u{3000}\u{2028}z"), Some('z'));
    assert_eq!(first_choice(" \t\n"), None);
    assert!(is_white_space('\u{85}'));
    assert!(!is_white_space('\u{200b}'));
}

#[test]
fn shadow_estimate_adds_three_percent() {
    let mut state = ProgressState::new();
    assert!(estimate_entry(&mut state, None).is_ok());
    assert!(estimate_entry(&mut state, Some(400)).is_ok());
    assert!(estimate_entry(&mut state, Some(600)).is_ok());
    assert_eq!(state.bytes.total(), 1000);
    inflate_estimate(&mut state);
    assert_eq!(state.bytes.total(), 1030);
    assert_eq!(state.entries.total(), 3);
}

#[test]
fn shadow_estimate_is_repeatable() {
    let sizes = [Some(10u64), None, Some(20), Some(7)];
    let mut totals = Vec::new();
    for _ in 0..2 {
        let mut state = ProgressState::new();
        for s in sizes {
            estimate_entry(&mut state, s).unwrap();
        }
        inflate_estimate(&mut state);
        totals.push((state.entries.total(), state.bytes.total()));
    }
    assert_eq!(totals[0], totals[1]);
    assert_eq!(totals[0], (4, 37 + 1));
}

#[test]
fn finished_channels_stop_the_shadow_walk() {
    let mut state = ProgressState::new();
    state.bytes.finish();
    assert!(estimate_entry(&mut state, Some(5)).is_ok());
    assert_eq!(state.bytes.total(), 0);
    assert_eq!(state.entries.total(), 1);
    state.entries.finish();
    assert_eq!(estimate_entry(&mut state, Some(5)), Err(NoFurtherUpdates));
    assert_eq!(state.entries.total(), 1);
}

#[test]
fn finish_leaves_done_within_total() {
    let mut ahead = ProgressChannel::new();
    ahead.inc_total(3);
    ahead.inc_done(5);
    ahead.finish();
    assert!(ahead.is_finished());
    assert_eq!((ahead.done(), ahead.total()), (5, 5));
    let mut behind = ProgressChannel::new();
    behind.inc_total(10);
    behind.inc_done(2);
    behind.finish();
    assert_eq!((behind.done(), behind.total()), (10, 10));
    behind.inc_total(4);
    behind.inc_done(4);
    behind.set_done(1);
    assert_eq!((behind.done(), behind.total()), (10, 10));
}

#[test]
fn counters_saturate() {
    let mut c = ProgressChannel::new();
    c.inc_total(u64::MAX - 1);
    c.inc_total(5);
    assert_eq!(c.total(), u64::MAX);
    assert_eq!(overhead_of(u64::MAX), 553402322211286548);
    assert_eq!(overhead_of(1000), 30);
    assert_eq!(overhead_of(99), 2);
}

#[test]
fn sampler_redraws_every_sixteenth_tick() {
    let mut sampler = Sampler::new();
    let mut bytes = ProgressChannel::new();
    for i in 1..=32u64 {
        let redraw = sampler.tick(&mut bytes, i * 10);
        assert_eq!(redraw, i % 16 == 0);
        assert_eq!(bytes.done(), i * 10);
    }
    bytes.finish();
    sampler.tick(&mut bytes, 1);
    assert_eq!(bytes.done(), 320);
}
