use breathe::breathe::{
    from_pattern, try_from_pattern, BreathCycle, BreathPhase, BreathSessionOpt, BreathingSession,
    SessionError, TickAction, MAX_BREATHE_PHASE_STR_LEN,
};
use breathe::config::{Pattern, PatternLength};

fn pattern(
    breath_in: u64,
    hold_in: Option<u64>,
    breath_out: u64,
    hold_out: Option<u64>,
    pattern_length: Option<PatternLength>,
) -> Pattern {
    Pattern {
        breath_in,
        hold_in,
        breath_out,
        hold_out,
        pattern_length,
        description: "Test pattern".to_string(),
    }
}

#[test]
fn breath_phase_next() {
    let phase = BreathPhase::BreathIn;
    assert_eq!(phase.next(), BreathPhase::HoldIn);
    assert_eq!(phase.next().next(), BreathPhase::BreathOut);
    assert_eq!(phase.next().next().next(), BreathPhase::HoldOut);
    assert_eq!(phase.next().next().next().next(), BreathPhase::BreathIn);
}

#[test]
fn breath_cycle_from_pattern() {
    let uut = Pattern {
        breath_in: 4,
        hold_in: Some(7),
        breath_out: 8,
        hold_out: None,
        pattern_length: None,
        description: "Test pattern".to_string(),
    };
    let got: BreathCycle = from_pattern(&uut);
    assert_eq!(got.get(BreathPhase::BreathIn), 4);
    assert_eq!(got.get(BreathPhase::HoldIn), 7);
    assert_eq!(got.get(BreathPhase::BreathOut), 8);
    assert_eq!(got.get(BreathPhase::HoldOut), 0);
    assert_eq!(got.cycle_length(), 19);
}

#[test]
fn breath_get_lengths_lcm() {
    let uut = Pattern {
        breath_in: 4,
        hold_in: Some(7),
        breath_out: 8,
        hold_out: None,
        pattern_length: None,
        description: "Test pattern".to_string(),
    };
    let got: BreathCycle = from_pattern(&uut);
    assert_eq!(got.lcm(), 56);
}

#[test]
fn breath_session_ctor_time_session() {
    let pattern = &Pattern {
        breath_in: 4,
        hold_in: Some(7),
        breath_out: 8,
        hold_out: None,
        pattern_length: Some(PatternLength::Time(60)),
        description: "Test pattern".to_string(),
    };
    let got = BreathingSession::with_opt(&BreathSessionOpt { pattern });
    assert_eq!(got.get_phase_length(BreathPhase::BreathIn), 4);
    assert_eq!(got.get_phase_length(BreathPhase::HoldIn), 7);
    assert_eq!(got.get_phase_length(BreathPhase::BreathOut), 8);
    assert_eq!(got.get_phase_length(BreathPhase::HoldOut), 0);
}

#[test]
fn breath_session_ctor_iter_session() {
    let pattern = &Pattern {
        breath_in: 4,
        hold_in: Some(7),
        breath_out: 8,
        hold_out: None,
        pattern_length: Some(PatternLength::Iterations(8)),
        description: "Test pattern".to_string(),
    };
    let got = BreathingSession::with_opt(&BreathSessionOpt { pattern });
    assert_eq!(got.get_phase_length(BreathPhase::BreathIn), 4);
    assert_eq!(got.get_phase_length(BreathPhase::HoldIn), 7);
    assert_eq!(got.get_phase_length(BreathPhase::BreathOut), 8);
    assert_eq!(got.get_phase_length(BreathPhase::HoldOut), 0);
}

#[test]
fn breath_session_ctor_next() {
    let pattern = &Pattern {
        breath_in: 4,
        hold_in: Some(7),
        breath_out: 8,
        hold_out: None,
        pattern_length: Some(PatternLength::Iterations(2)),
        description: "Test pattern".to_string(),
    };
    let mut got = BreathingSession::with_opt(&BreathSessionOpt { pattern });
    assert_eq!(got.get_current_phase_length(), 4);
    for _ in 0..4 {
        got.inc();
    }
    assert_eq!(got.total_counter(), 4);
    assert_eq!(got.state_counter(), 0);
    assert_eq!(got.current_state(), BreathPhase::HoldIn);
    assert_eq!(got.get_current_phase_length(), 7);
    for _ in 0..7 {
        got.inc();
    }
    assert_eq!(got.total_counter(), 11);
    assert_eq!(got.state_counter(), 0);
    assert_eq!(got.current_state(), BreathPhase::BreathOut);
    assert_eq!(got.get_current_phase_length(), 8);
    for _ in 0..8 {
        got.inc();
    }
    assert_eq!(got.total_counter(), 19);
    assert_eq!(got.state_counter(), 0);
    assert_eq!(got.current_state(), BreathPhase::BreathIn);
    for _ in 0..19 {
        got.inc();
    }
    assert_eq!(got.total_counter(), 38);
    assert_eq!(got.state_counter(), 0);
    assert_eq!(got.current_state(), BreathPhase::BreathIn);
    assert!(got.is_completed());
    got.inc();
    assert_eq!(got.total_counter(), 38);
    assert_eq!(got.state_counter(), 0);
    assert_eq!(got.current_state(), BreathPhase::BreathIn);
    assert!(got.is_completed());
}

#[test]
fn phase_names_and_default() {
    assert_eq!(BreathPhase::BreathIn.as_str(), "BreathIn");
    assert_eq!(BreathPhase::HoldIn.as_str(), "HoldIn");
    assert_eq!(BreathPhase::BreathOut.as_str(), "BreathOut");
    assert_eq!(BreathPhase::HoldOut.as_str(), "HoldOut");
    assert_eq!(BreathPhase::default(), BreathPhase::BreathIn);
    assert_eq!(MAX_BREATHE_PHASE_STR_LEN, 8);
    let mut phase = BreathPhase::BreathIn;
    for _ in 0..4 {
        assert!(phase.as_str().chars().count() <= MAX_BREATHE_PHASE_STR_LEN + 1);
        phase = phase.next();
    }
}

#[test]
fn cycle_length_is_the_sum_and_lcm_skips_zeros() {
    let cases: [(u64, Option<u64>, u64, Option<u64>, u64, u64); 7] = [
        (4, Some(7), 8, None, 19, 56),
        (4, None, 8, None, 12, 8),
        (4, Some(0), 8, Some(0), 12, 8),
        (4, Some(4), 4, Some(4), 16, 4),
        (5, Some(3), 7, Some(2), 17, 210),
        (1, None, 1, None, 2, 1),
        (6, Some(10), 15, None, 31, 30),
    ];
    for (b_in, h_in, b_out, h_out, length, lcm) in cases {
        let cycle = from_pattern(&pattern(b_in, h_in, b_out, h_out, None));
        assert_eq!(cycle.cycle_length(), length);
        assert_eq!(cycle.lcm(), lcm);
        assert_eq!(cycle.get(BreathPhase::BreathIn), b_in);
        assert_eq!(cycle.get(BreathPhase::HoldIn), h_in.unwrap_or(0));
        assert_eq!(cycle.get(BreathPhase::BreathOut), b_out);
        assert_eq!(cycle.get(BreathPhase::HoldOut), h_out.unwrap_or(0));
        let checked = try_from_pattern(&pattern(b_in, h_in, b_out, h_out, None)).unwrap();
        assert_eq!(checked.cycle_length(), length);
        assert_eq!(checked.lcm(), lcm);
        let copy = checked.clone();
        assert_eq!(copy.lcm(), lcm);
    }
}

#[test]
fn cycle_of_a_pattern_of_zeros() {
    let cycle = from_pattern(&pattern(0, None, 0, Some(0), None));
    assert_eq!(cycle.cycle_length(), 0);
    assert_eq!(cycle.lcm(), 1);
}

#[test]
fn cycle_that_does_not_fit() {
    assert!(try_from_pattern(&pattern(u64::MAX, None, 1, None, None)).is_none());
    assert!(try_from_pattern(&pattern(u64::MAX - 1, None, 1, None, None)).is_some());
    // Two numbers without a common factor whose product is too large.
    assert!(try_from_pattern(&pattern(1 << 33, None, (1 << 33) - 1, None, None)).is_none());
    // The product is too large, the least common multiple is not.
    let cycle = try_from_pattern(&pattern(1 << 40, Some(1 << 39), 1 << 38, None, None)).unwrap();
    assert_eq!(cycle.lcm(), 1 << 40);
}

#[test]
fn example_session_of_two_iterations() {
    let p = pattern(4, Some(7), 8, None, Some(PatternLength::Iterations(2)));
    let mut session = BreathingSession::with_opt(&BreathSessionOpt { pattern: &p });
    assert_eq!(session.session_length(), 38);
    assert_eq!(session.get_lengths_lcm(), 56);
    assert_eq!(session.total_counter(), 0);
    assert_eq!(session.state_counter(), 0);
    assert_eq!(session.current_state(), BreathPhase::BreathIn);
    assert!(session.is_state_changed());
    assert!(!session.is_completed());
    for _ in 0..4 {
        session.inc();
    }
    assert_eq!(session.current_state(), BreathPhase::HoldIn);
    assert_eq!(session.state_counter(), 0);
    assert_eq!(session.total_counter(), 4);
    for _ in 4..11 {
        session.inc();
    }
    assert_eq!(session.current_state(), BreathPhase::BreathOut);
    assert_eq!(session.total_counter(), 11);
    for _ in 11..19 {
        session.inc();
    }
    assert_eq!(session.current_state(), BreathPhase::BreathIn);
    assert_eq!(session.total_counter(), 19);
    for _ in 19..38 {
        session.inc();
    }
    assert!(session.is_completed());
    let before = (
        session.total_counter(),
        session.state_counter(),
        session.current_state(),
        session.is_state_changed(),
    );
    session.inc();
    let after = (
        session.total_counter(),
        session.state_counter(),
        session.current_state(),
        session.is_state_changed(),
    );
    assert_eq!(before, after);
}

#[test]
fn without_holds_only_the_breaths_occur() {
    let p = pattern(4, None, 8, None, Some(PatternLength::Iterations(3)));
    let mut session = BreathingSession::with_opt(&BreathSessionOpt { pattern: &p });
    assert_eq!(session.get_lengths_lcm(), 8);
    assert_eq!(session.session_length(), 36);
    let mut seen = vec![session.current_state()];
    while !session.is_completed() {
        session.inc();
        assert_ne!(session.current_state(), BreathPhase::HoldIn);
        assert_ne!(session.current_state(), BreathPhase::HoldOut);
        if session.is_state_changed() {
            seen.push(session.current_state());
        }
    }
    assert_eq!(
        seen,
        vec![
            BreathPhase::BreathIn,
            BreathPhase::BreathOut,
            BreathPhase::BreathIn,
            BreathPhase::BreathOut,
            BreathPhase::BreathIn,
            BreathPhase::BreathOut,
            BreathPhase::BreathIn,
        ]
    );
}

#[test]
fn time_target_sets_the_session_length() {
    for (b_in, h_in, b_out, h_out) in
        [(4, Some(7), 8, None), (1, None, 1, None), (30, Some(30), 30, Some(30))]
    {
        let p = pattern(b_in, h_in, b_out, h_out, Some(PatternLength::Time(60)));
        let session = BreathingSession::with_opt(&BreathSessionOpt { pattern: &p });
        assert_eq!(session.session_length(), 60);
    }
    let p = pattern(4, Some(7), 8, None, Some(PatternLength::Iterations(8)));
    let session = BreathingSession::with_opt(&BreathSessionOpt { pattern: &p });
    assert_eq!(session.session_length(), 152);
}

#[test]
fn ticking_as_often_as_the_session_is_long_completes_it() {
    let p = pattern(3, Some(2), 5, Some(1), Some(PatternLength::Time(40)));
    let mut session = BreathingSession::with_opt(&BreathSessionOpt { pattern: &p });
    for tick in 0..40u64 {
        assert!(!session.is_completed());
        assert_eq!(session.total_counter(), tick);
        session.inc();
    }
    assert!(session.is_completed());
    assert_eq!(session.total_counter(), 40);
    let phase = session.current_state();
    let ticks = session.state_counter();
    for _ in 0..5 {
        session.inc();
        assert_eq!(session.total_counter(), 40);
        assert_eq!(session.current_state(), phase);
        assert_eq!(session.state_counter(), ticks);
    }
}

#[test]
fn the_change_flag_marks_the_ticks_that_reset_the_phase() {
    let p = pattern(3, Some(2), 5, Some(1), Some(PatternLength::Iterations(4)));
    let mut session = BreathingSession::with_opt(&BreathSessionOpt { pattern: &p });
    assert!(session.is_state_changed());
    while !session.is_completed() {
        let phase = session.current_state();
        let ticks = session.state_counter();
        session.inc();
        assert_eq!(session.is_state_changed(), session.state_counter() == 0);
        if session.is_state_changed() {
            assert_ne!(session.current_state(), phase);
        } else {
            assert_eq!(session.current_state(), phase);
            assert_eq!(session.state_counter(), ticks + 1);
        }
        assert!(session.state_counter() < session.get_current_phase_length());
    }
}

#[test]
fn the_session_is_where_the_tick_count_says() {
    let p = pattern(3, None, 5, Some(2), Some(PatternLength::Iterations(5)));
    let mut session = BreathingSession::with_opt(&BreathSessionOpt { pattern: &p });
    let starts = [
        (BreathPhase::BreathIn, 0u64),
        (BreathPhase::HoldIn, 3),
        (BreathPhase::BreathOut, 3),
        (BreathPhase::HoldOut, 8),
    ];
    for tick in 0..=50u64 {
        let start = starts.iter().find(|(phase, _)| *phase == session.current_state()).unwrap().1;
        assert_eq!(start + session.state_counter(), tick % 10);
        session.inc();
    }
}

#[test]
fn next_state_skips_what_has_no_length() {
    let p = pattern(4, None, 8, Some(2), Some(PatternLength::Time(100)));
    let mut session = BreathingSession::with_opt(&BreathSessionOpt { pattern: &p });
    session.inc();
    session.next_state();
    assert_eq!(session.current_state(), BreathPhase::BreathOut);
    assert_eq!(session.state_counter(), 0);
    assert_eq!(session.total_counter(), 1);
    session.next_state();
    assert_eq!(session.current_state(), BreathPhase::HoldOut);
    session.next_state();
    assert_eq!(session.current_state(), BreathPhase::BreathIn);
    assert_eq!(session.phase_as_str(), "BreathIn");
}

#[test]
fn try_with_opt_names_what_is_wrong() {
    let no_length = pattern(4, Some(7), 8, None, None);
    assert_eq!(
        BreathingSession::try_with_opt(&BreathSessionOpt { pattern: &no_length }).unwrap_err(),
        SessionError::NoLength
    );
    let no_breath_in = pattern(0, Some(7), 8, None, Some(PatternLength::Time(60)));
    assert_eq!(
        BreathingSession::try_with_opt(&BreathSessionOpt { pattern: &no_breath_in }).unwrap_err(),
        SessionError::EmptyBreath
    );
    let no_breath_out = pattern(4, Some(7), 0, None, Some(PatternLength::Time(60)));
    assert_eq!(
        BreathingSession::try_with_opt(&BreathSessionOpt { pattern: &no_breath_out }).unwrap_err(),
        SessionError::EmptyBreath
    );
    let long_cycle = pattern(u64::MAX, Some(7), 8, None, Some(PatternLength::Time(60)));
    assert_eq!(
        BreathingSession::try_with_opt(&BreathSessionOpt { pattern: &long_cycle }).unwrap_err(),
        SessionError::TooLong
    );
    let long_session = pattern(4, Some(7), 8, None, Some(PatternLength::Iterations(u64::MAX)));
    assert_eq!(
        BreathingSession::try_with_opt(&BreathSessionOpt { pattern: &long_session }).unwrap_err(),
        SessionError::TooLong
    );
    let fine = pattern(4, Some(7), 8, None, Some(PatternLength::Iterations(u64::MAX / 19)));
    let session = BreathingSession::try_with_opt(&BreathSessionOpt { pattern: &fine }).unwrap();
    assert_eq!(session.session_length(), u64::MAX / 19 * 19);
    assert_eq!(session.get_lengths_lcm(), 56);
    let copy = session.clone();
    assert_eq!(copy.session_length(), session.session_length());
}

#[test]
fn tick_tells_the_display_what_to_do() {
    let p = pattern(2, None, 4, None, Some(PatternLength::Time(7)));
    let mut session = BreathingSession::with_opt(&BreathSessionOpt { pattern: &p });
    assert_eq!(session.get_lengths_lcm(), 4);
    assert_eq!(session.phase_step(), 2);
    let expected = [
        TickAction::Advanced { phase_step: 2, phase_changed: false },
        TickAction::Advanced { phase_step: 1, phase_changed: true },
        TickAction::Advanced { phase_step: 1, phase_changed: false },
        TickAction::Advanced { phase_step: 1, phase_changed: false },
        TickAction::Advanced { phase_step: 1, phase_changed: false },
        TickAction::Advanced { phase_step: 2, phase_changed: true },
        TickAction::Advanced { phase_step: 2, phase_changed: false },
        TickAction::Finished,
        TickAction::Finished,
    ];
    for action in expected {
        assert_eq!(session.tick(), action);
    }
    assert_eq!(session.total_counter(), 7);
}

#[test]
fn every_phase_fills_the_bar_exactly() {
    let p = pattern(4, Some(7), 8, Some(2), Some(PatternLength::Iterations(1)));
    let mut session = BreathingSession::with_opt(&BreathSessionOpt { pattern: &p });
    let lcm = session.get_lengths_lcm();
    assert_eq!(lcm, 56);
    while !session.is_completed() {
        assert_eq!(session.phase_step() * session.get_current_phase_length(), lcm);
        session.inc();
    }
}

#[test]
fn summary_and_params_are_worded_as_shown() {
    let timed = Pattern {
        breath_in: 4,
        hold_in: Some(7),
        breath_out: 8,
        hold_out: None,
        pattern_length: Some(PatternLength::Time(60)),
        description: "Relax".to_string(),
    };
    assert_eq!(
        BreathSessionOpt { pattern: &timed }.summary(),
        "Description:   Relax\nBreathe in:     4\nHold:           7\nBreathe out:    8\nHold:           0\nSession length: Time=60 seconds"
    );
    let counted = Pattern { pattern_length: Some(PatternLength::Iterations(2)), ..timed };
    assert_eq!(
        BreathSessionOpt { pattern: &counted }.summary(),
        "Description:   Relax\nBreathe in:     4\nHold:           7\nBreathe out:    8\nHold:           0\nSession length: Iterations=2 "
    );
    let session = BreathingSession::with_opt(&BreathSessionOpt { pattern: &counted });
    assert_eq!(session.params(), "Session length: 38 seconds");
}

#[test]
fn lcm_is_the_same_in_whatever_order_the_lengths_come() {
    let lengths = [4u64, 6, 10, 0];
    let mut seen = Vec::new();
    for a in 0..4 {
        for b in 0..4 {
            for c in 0..4 {
                for d in 0..4 {
                    let mut picked = [a, b, c, d];
                    picked.sort();
                    if picked != [0, 1, 2, 3] {
                        continue;
                    }
                    let p = pattern(
                        lengths[a],
                        Some(lengths[b]),
                        lengths[c],
                        Some(lengths[d]),
                        None,
                    );
                    seen.push(from_pattern(&p).lcm());
                }
            }
        }
    }
    assert_eq!(seen.len(), 24);
    assert!(seen.iter().all(|lcm| *lcm == 60));
}
