use be_tween::{
    BufferApplier, Cleanup, Completion, Diagnostic, Duration, EventSink, Interpolator, Lerp,
    NoEvent, PlayTween, Position, RepeatTimes, Store, ToTween, Tween, TweenApplier, TweenBuffer,
    TweenProgress,
};

/// Notes every position that it is handed.
#[derive(Clone)]
struct Trace;

impl TweenApplier<Vec<Position>, Position> for Trace {
    fn apply(&mut self, target: &mut Vec<Position>, value: Position) {
        target.push(value);
    }
}

/// Counts its own calls and writes the count to the target.
#[derive(Clone)]
struct Calls(u32);

impl TweenApplier<u32, Position> for Calls {
    fn apply(&mut self, target: &mut u32, _value: Position) {
        self.0 += 1;
        *target = self.0;
    }
}

/// Eases to the thousandth of the fraction that has run.
#[derive(Clone)]
struct Permille;

impl Interpolator for Permille {
    type Value = u128;

    fn interpolate(&self, position: Position) -> u128 {
        position.elapsed.as_nanos() * 1000 / position.duration.as_nanos()
    }
}


type Quiet = Tween<Lerp, Trace, NoEvent>;

type Loud = Tween<Lerp, Trace, u8>;

fn ms(millis: u64) -> Duration {
    Duration::from_millis(millis)
}

fn at(elapsed: u64, duration: u64) -> Position {
    Position { elapsed: ms(elapsed), duration: ms(duration) }
}

fn done(millis: u64) -> TweenProgress {
    TweenProgress::Done { surplus: ms(millis) }
}

fn pause(millis: u64) -> Quiet {
    Tween::pause(ms(millis))
}

fn clock(tween: &Quiet) -> Duration {
    match tween {
        Tween::Once { elapsed, .. } => *elapsed,
        Tween::Pause { elapsed, .. } => *elapsed,
        _ => panic!(),
    }
}

#[test]
fn duration_counts_nanoseconds() {
    assert_eq!(Duration::from_secs(2).as_nanos(), 2_000_000_000);
    assert_eq!(Duration::from_millis(3).as_nanos(), 3_000_000);
    assert_eq!(Duration::from_nanos(17).as_nanos(), 17);
    assert_eq!(Duration::from_secs(2), Duration::from_millis(2000));
    assert_eq!(Duration::zero().as_nanos(), 0);
    assert_eq!(Duration::default(), Duration::zero());
    assert!(Duration::from_millis(999) < Duration::from_secs(1));
}

#[test]
fn duration_splits_into_seconds_and_rest() {
    let span = Duration::from_nanos(3_000_000_042);
    assert_eq!(span.as_secs(), 3);
    assert_eq!(span.subsec_nanos(), 42);
    let largest = Duration::from_secs(u64::MAX);
    assert_eq!(largest.as_secs(), u64::MAX as u128);
    assert_eq!(largest.subsec_nanos(), 0);
}

#[test]
fn defaults_are_one_run_and_an_empty_pause() {
    assert_eq!(RepeatTimes::default(), RepeatTimes::N(1));
    let mut tween: Quiet = Tween::default();
    assert!(tween.is_complete());
    assert_eq!(tween.skip(ms(1000)), done(1000));
}

#[test]
fn lerp_hands_the_position_on() {
    assert_eq!(Lerp.interpolate(at(250, 1000)), at(250, 1000));
}

#[test]
fn progress_tells_done_from_running() {
    assert!(done(0).is_done());
    assert!(!TweenProgress::Running.is_done());
}

#[test]
fn once_applies_on_every_call() {
    let mut tween = Tween::new(ms(1000), Lerp, Trace);
    let mut sink: EventSink<NoEvent> = EventSink::new();
    let mut seen = Vec::new();
    assert_eq!(tween.advance(&mut seen, &mut sink, ms(250)), TweenProgress::Running);
    assert_eq!(tween.advance(&mut seen, &mut sink, ms(0)), TweenProgress::Running);
    assert_eq!(tween.advance(&mut seen, &mut sink, ms(500)), TweenProgress::Running);
    assert_eq!(seen, vec![at(250, 1000), at(250, 1000), at(750, 1000)]);
}

#[test]
fn once_ends_on_the_end_position() {
    let mut tween = Tween::new(ms(1000), Lerp, Trace);
    let mut sink: EventSink<NoEvent> = EventSink::new();
    let mut seen = Vec::new();
    assert_eq!(tween.advance(&mut seen, &mut sink, ms(1500)), done(500));
    assert_eq!(clock(&tween), ms(1000));
    assert_eq!(tween.advance(&mut seen, &mut sink, ms(250)), done(250));
    assert_eq!(tween.advance(&mut seen, &mut sink, ms(0)), done(0));
    assert_eq!(seen, vec![at(1000, 1000), at(1000, 1000), at(1000, 1000)]);
}

#[test]
fn once_eases_before_it_applies() {
    let mut tween = Tween::new(ms(2000), Permille, Store);
    let mut sink: EventSink<NoEvent> = EventSink::new();
    let mut value = 0;
    tween.advance(&mut value, &mut sink, ms(500));
    assert_eq!(value, 250);
    tween.advance(&mut value, &mut sink, ms(5000));
    assert_eq!(value, 1000);
}

#[test]
fn store_keeps_the_eased_value() {
    let mut tween = Tween::new(ms(1000), Lerp, Store);
    let mut sink: EventSink<NoEvent> = EventSink::new();
    let mut target = at(0, 0);
    assert_eq!(tween.advance(&mut target, &mut sink, ms(400)), TweenProgress::Running);
    assert_eq!(target, at(400, 1000));
    assert_eq!(tween.advance(&mut target, &mut sink, ms(700)), done(100));
    assert_eq!(target, at(1000, 1000));
}

#[test]
fn buffer_holds_what_it_was_given() {
    let buffer = TweenBuffer::new(Store);
    assert_eq!(buffer.tween, Store);
    assert_eq!(buffer.clone().tween, Store);
    let empty: TweenBuffer<u8> = TweenBuffer::default();
    assert_eq!(empty.tween, 0);
}

#[test]
fn once_of_no_length_hands_on_an_empty_position() {
    let mut tween = Tween::new(ms(0), Lerp, Trace);
    let mut sink: EventSink<NoEvent> = EventSink::new();
    let mut seen = Vec::new();
    assert_eq!(tween.advance(&mut seen, &mut sink, ms(40)), done(40));
    assert_eq!(seen, vec![at(0, 0)]);
}

#[test]
fn applier_keeps_its_own_state() {
    let mut tween = Tween::repeat(RepeatTimes::N(3), Tween::new(ms(1000), Lerp, Calls(0)));
    let mut sink: EventSink<NoEvent> = EventSink::new();
    let mut value = 0;
    assert_eq!(tween.advance(&mut value, &mut sink, ms(2500)), TweenProgress::Running);
    assert_eq!(value, 3);
    assert_eq!(tween.advance(&mut value, &mut sink, ms(500)), done(0));
    assert_eq!(value, 4);
}

#[test]
fn leaf_surplus_is_what_the_inputs_exceed() {
    let mut tween = pause(1000);
    assert_eq!(tween.skip(ms(300)), TweenProgress::Running);
    assert_eq!(tween.skip(ms(300)), TweenProgress::Running);
    assert_eq!(clock(&tween), ms(600));
    assert_eq!(tween.skip(ms(500)), done(100));
    assert_eq!(clock(&tween), ms(1000));
    assert_eq!(tween.skip(ms(50)), done(50));
    assert_eq!(clock(&tween), ms(1000));
}

#[test]
fn leaf_is_done_when_it_just_reaches_its_end() {
    let mut tween = pause(1000);
    assert_eq!(tween.skip(ms(999)), TweenProgress::Running);
    assert!(!tween.is_complete());
    assert_eq!(tween.skip(ms(1)), done(0));
    assert!(tween.is_complete());
}

#[test]
fn skip_after_advance_reports_the_rest() {
    let mut tween = Tween::pause(ms(2000));
    let mut sink: EventSink<NoEvent> = EventSink::new();
    let mut seen: Vec<Position> = Vec::new();
    let progress: TweenProgress = Tween::<Lerp, Trace, NoEvent>::advance(&mut tween, &mut seen, &mut sink, ms(1000));
    assert_eq!(progress, TweenProgress::Running);
    assert_eq!(tween.skip(ms(2000)), done(1000));
    assert!(seen.is_empty());
}

#[test]
fn skip_moves_time_as_advance_does() {
    let build = || {
        Tween::sequence(vec![
            Tween::new(ms(700), Lerp, Trace),
            Tween::repeat(RepeatTimes::N(2), Tween::pause(ms(400))),
            Tween::parallel(vec![Tween::pause(ms(100)), Tween::new(ms(300), Lerp, Trace)]),
        ])
    };
    let mut skipped: Quiet = build();
    let mut advanced: Quiet = build();
    let mut sink: EventSink<NoEvent> = EventSink::new();
    let mut seen = Vec::new();
    for step in [0_u64, 650, 100, 1, 799, 250, 1000, 5] {
        let quiet = skipped.skip(ms(step));
        let live = advanced.advance(&mut seen, &mut sink, ms(step));
        assert_eq!(quiet, live);
        assert_eq!(skipped.is_complete(), advanced.is_complete());
    }
    assert_eq!(skipped.skip(ms(9)), done(9));
}

#[test]
fn time_adds_up_however_it_is_handed_out() {
    let build = || {
        Tween::sequence(vec![
            pause(700),
            Tween::repeat(RepeatTimes::N(3), Tween::sequence(vec![pause(100), pause(50)])),
            Tween::parallel(vec![pause(400), Tween::repeat(RepeatTimes::N(2), pause(300)), pause(0)]),
            Tween::repeat(RepeatTimes::N(0), pause(1000)),
        ])
    };
    // 700 + 3 * 150 + 600 + 0
    let span = 1750;
    let mut at_once: Quiet = build();
    assert_eq!(at_once.skip(ms(span + 25)), done(25));
    let mut exactly: Quiet = build();
    assert_eq!(exactly.skip(ms(span)), done(0));
    let mut short: Quiet = build();
    assert_eq!(short.skip(ms(span - 1)), TweenProgress::Running);
    assert_eq!(short.skip(ms(1)), done(0));
    for chunk in [1_u64, 7, 50, 149, 150, 151, 700, 1749] {
        let mut tween: Quiet = build();
        let mut given = 0;
        while given + chunk < span {
            assert_eq!(tween.skip(ms(chunk)), TweenProgress::Running);
            given += chunk;
        }
        assert_eq!(tween.skip(ms(chunk)), done(given + chunk - span));
        assert_eq!(tween.skip(ms(chunk)), done(chunk));
    }
}

#[test]
fn repeat_counts_its_runs() {
    let mut tween = Tween::repeat(RepeatTimes::N(3), pause(1000));
    assert_eq!(tween.skip(ms(3700)), done(700));
    let Tween::Repeat { count, tween: child, .. } = &tween else {
        panic!()
    };
    assert_eq!(*count, 3);
    assert_eq!(clock(child), ms(0));
    assert_eq!(tween.skip(ms(20)), done(20));
}

#[test]
fn repeat_stops_inside_a_run() {
    let mut tween = Tween::repeat(RepeatTimes::N(3), pause(1000));
    assert_eq!(tween.skip(ms(400)), TweenProgress::Running);
    assert_eq!(tween.skip(ms(1000)), TweenProgress::Running);
    let Tween::Repeat { count, tween: child, .. } = &tween else {
        panic!()
    };
    assert_eq!(*count, 1);
    assert_eq!(clock(child), ms(400));
    assert_eq!(tween.skip(ms(1599)), TweenProgress::Running);
    assert_eq!(tween.skip(ms(1)), done(0));
}

#[test]
fn repeat_of_no_runs_is_done_at_once() {
    let mut tween = Tween::repeat(RepeatTimes::N(0), pause(1000));
    assert!(tween.is_complete());
    assert_eq!(tween.skip(ms(10)), done(10));
    let Tween::Repeat { count, tween: child, .. } = &tween else {
        panic!()
    };
    assert_eq!(*count, 0);
    assert_eq!(clock(child), ms(0));
}

#[test]
fn repeat_of_an_empty_child_runs_through() {
    let mut tween = Tween::repeat(RepeatTimes::N(4), pause(0));
    assert_eq!(tween.skip(ms(10)), done(10));
    let Tween::Repeat { count, .. } = tween else {
        panic!()
    };
    assert_eq!(count, 4);
}

#[test]
fn endless_repeat_of_an_empty_child_stalls() {
    let mut tween = Tween::repeat(RepeatTimes::Infinite, Tween::new(ms(0), Lerp, Trace));
    let mut sink: EventSink<NoEvent> = EventSink::new();
    let mut seen = Vec::new();
    assert_eq!(tween.advance(&mut seen, &mut sink, ms(1000)), TweenProgress::Running);
    assert_eq!(sink.diagnostics, vec![Diagnostic::ZeroProgressRepeat]);
    assert_eq!(seen.len(), 1);
    assert_eq!(tween.advance(&mut seen, &mut sink, ms(1)), TweenProgress::Running);
    assert_eq!(tween.advance(&mut seen, &mut sink, ms(0)), TweenProgress::Running);
    assert_eq!(sink.diagnostics.len(), 3);
    assert_eq!(seen.len(), 3);
    assert!(sink.events.is_empty());
    assert_eq!(tween.skip(ms(1000)), TweenProgress::Running);
    assert_eq!(sink.diagnostics.len(), 3);
    let Tween::Repeat { count, .. } = tween else {
        panic!()
    };
    assert_eq!(count, 4);
}

#[test]
fn endless_repeat_keeps_running() {
    let mut tween = Tween::repeat(RepeatTimes::Infinite, pause(1000));
    assert_eq!(tween.skip(ms(20_500)), TweenProgress::Running);
    assert!(!tween.is_complete());
    let Tween::Repeat { count, tween: child, .. } = &tween else {
        panic!()
    };
    assert_eq!(*count, 20);
    assert_eq!(clock(child), ms(500));
}

#[test]
fn endless_repeat_that_ends_on_a_run_does_not_stall() {
    let mut tween = Tween::repeat(RepeatTimes::Infinite, Tween::new(ms(1000), Lerp, Trace));
    let mut sink: EventSink<NoEvent> = EventSink::new();
    let mut seen = Vec::new();
    assert_eq!(tween.advance(&mut seen, &mut sink, ms(2000)), TweenProgress::Running);
    assert!(sink.diagnostics.is_empty());
    assert_eq!(seen, vec![at(1000, 1000), at(1000, 1000), at(0, 1000)]);
}

#[test]
fn sequence_hands_the_surplus_on() {
    let mut tween = Tween::sequence(vec![pause(1000), pause(2000), pause(3000)]);
    assert_eq!(tween.skip(ms(3500)), TweenProgress::Running);
    let Tween::Sequence { index, tweens, .. } = &tween else {
        panic!()
    };
    assert_eq!(*index, 2);
    assert_eq!(clock(&tweens[0]), ms(1000));
    assert_eq!(clock(&tweens[1]), ms(2000));
    assert_eq!(clock(&tweens[2]), ms(500));
    assert_eq!(tween.skip(ms(2600)), done(100));
    assert_eq!(tween.skip(ms(30)), done(30));
}

#[test]
fn sequence_leaves_finished_children_alone() {
    let mut tween = Tween::sequence(vec![
        Tween::new(ms(1000), Lerp, Trace),
        Tween::new(ms(1000), Lerp, Trace),
    ]);
    let mut sink: EventSink<NoEvent> = EventSink::new();
    let mut seen = Vec::new();
    assert_eq!(tween.advance(&mut seen, &mut sink, ms(1200)), TweenProgress::Running);
    assert_eq!(tween.advance(&mut seen, &mut sink, ms(1200)), done(400));
    assert_eq!(tween.advance(&mut seen, &mut sink, ms(70)), done(70));
    assert_eq!(seen, vec![at(1000, 1000), at(200, 1000), at(1000, 1000)]);
}

#[test]
fn empty_sequence_is_done() {
    let mut tween: Quiet = Tween::sequence(Vec::new());
    assert!(tween.is_complete());
    assert_eq!(tween.skip(ms(5)), done(5));
}

#[test]
fn parallel_reports_the_smallest_surplus() {
    let mut tween = Tween::parallel(vec![pause(1000), pause(3000), pause(2000)]);
    assert_eq!(tween.skip(ms(2500)), TweenProgress::Running);
    assert!(!tween.is_complete());
    assert_eq!(tween.skip(ms(1500)), done(1000));
    assert!(tween.is_complete());
    assert_eq!(tween.skip(ms(60)), done(60));
}

#[test]
fn parallel_done_in_one_call() {
    let mut tween = Tween::parallel(vec![pause(1000), pause(3000), pause(2000)]);
    assert_eq!(tween.skip(ms(3400)), done(400));
}

#[test]
fn parallel_drives_every_child() {
    let mut tween = Tween::parallel(vec![
        Tween::new(ms(2000), Lerp, Trace),
        Tween::new(ms(1000), Lerp, Trace),
        Tween::new(ms(4000), Lerp, Trace),
    ]);
    let mut sink: EventSink<NoEvent> = EventSink::new();
    let mut seen = Vec::new();
    assert_eq!(tween.advance(&mut seen, &mut sink, ms(1500)), TweenProgress::Running);
    assert_eq!(seen, vec![at(1500, 2000), at(1000, 1000), at(1500, 4000)]);
}

#[test]
fn empty_parallel_is_done() {
    let mut tween: Quiet = Tween::parallel(Vec::new());
    assert!(tween.is_complete());
    assert_eq!(tween.skip(ms(5)), done(5));
}

#[test]
fn reset_after_the_end_starts_over() {
    let build = || {
        Tween::sequence(vec![
            Tween::new(ms(1000), Lerp, Trace),
            Tween::repeat(RepeatTimes::N(2), Tween::new(ms(1000), Lerp, Trace)),
            Tween::parallel(vec![Tween::pause(ms(500)), Tween::pause(ms(250))]),
        ])
    };
    let steps = [500_u64, 1000, 1900, 300];
    let mut sink: EventSink<NoEvent> = EventSink::new();

    let mut built: Quiet = build();
    let mut first = Vec::new();
    let mut reports = Vec::new();
    for step in steps {
        reports.push(built.advance(&mut first, &mut sink, ms(step)));
    }
    assert_eq!(
        reports,
        vec![TweenProgress::Running, TweenProgress::Running, TweenProgress::Running, done(200)]
    );

    built.reset();
    assert!(!built.is_complete());
    let mut second = Vec::new();
    let mut again = Vec::new();
    for step in steps {
        again.push(built.advance(&mut second, &mut sink, ms(step)));
    }
    assert_eq!(again, reports);
    assert_eq!(second, first);
}

#[test]
fn reset_rewinds_leaves_repeats_and_groups() {
    let mut tween = Tween::parallel(vec![
        Tween::repeat(RepeatTimes::N(3), pause(1000)),
        pause(5000),
    ]);
    assert_eq!(tween.skip(ms(1400)), TweenProgress::Running);
    tween.reset();
    let Tween::Parallel { tweens, .. } = &tween else {
        panic!()
    };
    let Tween::Repeat { count, tween: child, .. } = &tweens[0] else {
        panic!()
    };
    assert_eq!(*count, 0);
    assert_eq!(clock(child), ms(0));
    assert_eq!(clock(&tweens[1]), ms(0));
}

#[test]
fn reset_of_a_sequence_stops_at_its_cursor() {
    let mut tween = Tween::sequence(vec![pause(1000), pause(1000), pause(1000)]);
    assert_eq!(tween.skip(ms(1500)), TweenProgress::Running);
    tween.reset();
    let Tween::Sequence { index, tweens, .. } = &tween else {
        panic!()
    };
    assert_eq!(*index, 0);
    assert_eq!(clock(&tweens[0]), ms(0));
    assert_eq!(clock(&tweens[1]), ms(500));
    assert_eq!(clock(&tweens[2]), ms(0));
}

#[test]
fn completion_event_is_sent_once() {
    let mut tween: Loud = Tween::new(ms(1000), Lerp, Trace).with_completed(7);
    let mut sink = EventSink::new();
    let mut seen = Vec::new();
    assert_eq!(tween.advance(&mut seen, &mut sink, ms(500)), TweenProgress::Running);
    assert!(sink.events.is_empty());
    assert_eq!(tween.advance(&mut seen, &mut sink, ms(600)), done(100));
    assert_eq!(sink.events, vec![7]);
    assert_eq!(tween.advance(&mut seen, &mut sink, ms(600)), done(600));
    assert_eq!(tween.advance(&mut seen, &mut sink, ms(0)), done(0));
    assert_eq!(sink.events, vec![7]);
    assert!(sink.diagnostics.is_empty());
}

#[test]
fn completion_event_comes_again_after_reset() {
    let mut tween: Loud = Tween::pause(ms(1000)).with_completed(7);
    let mut sink = EventSink::new();
    let mut seen = Vec::new();
    assert_eq!(tween.advance(&mut seen, &mut sink, ms(1000)), done(0));
    tween.reset();
    assert_eq!(tween.advance(&mut seen, &mut sink, ms(1000)), done(0));
    assert_eq!(sink.events, vec![7, 7]);
}

#[test]
fn skip_sends_nothing_and_uses_the_completion_up() {
    let mut tween: Loud = Tween::pause(ms(1000)).with_completed(7);
    let mut sink = EventSink::new();
    let mut seen = Vec::new();
    assert_eq!(tween.skip(ms(1000)), done(0));
    assert_eq!(tween.advance(&mut seen, &mut sink, ms(1000)), done(1000));
    assert!(sink.events.is_empty());
}

#[test]
fn events_of_children_come_before_their_parents() {
    let mut tween: Loud = Tween::sequence(vec![
        Tween::pause(ms(1000)).with_completed(1),
        Tween::repeat(RepeatTimes::N(2), Tween::pause(ms(1000)).with_completed(2)).with_completed(3),
        Tween::parallel(vec![
            Tween::pause(ms(500)).with_completed(4),
            Tween::pause(ms(250)).with_completed(5),
        ])
        .with_completed(6),
    ])
    .with_completed(9);
    let mut sink = EventSink::new();
    let mut seen = Vec::new();
    assert_eq!(tween.advance(&mut seen, &mut sink, ms(2500)), TweenProgress::Running);
    assert_eq!(sink.events, vec![1, 2]);
    assert_eq!(tween.advance(&mut seen, &mut sink, ms(800)), TweenProgress::Running);
    assert_eq!(sink.events, vec![1, 2, 2, 3, 5]);
    assert_eq!(tween.advance(&mut seen, &mut sink, ms(800)), done(600));
    assert_eq!(sink.events, vec![1, 2, 2, 3, 5, 4, 6, 9]);
    assert_eq!(tween.advance(&mut seen, &mut sink, ms(800)), done(800));
    assert_eq!(sink.events, vec![1, 2, 2, 3, 5, 4, 6, 9]);
}

#[test]
fn nodes_that_are_complete_when_built_send_nothing() {
    let mut tween: Loud = Tween::parallel(vec![
        Tween::pause(ms(0)).with_completed(1),
        Tween::repeat(RepeatTimes::N(0), Tween::pause(ms(1000))).with_completed(2),
        Tween::sequence(Vec::new()).with_completed(3),
    ])
    .with_completed(4);
    let mut sink = EventSink::new();
    let mut seen = Vec::new();
    assert!(tween.is_complete());
    assert_eq!(tween.advance(&mut seen, &mut sink, ms(100)), done(100));
    assert!(sink.events.is_empty());
}

#[test]
fn with_completed_keeps_the_node() {
    let tween: Loud = Tween::repeat(RepeatTimes::N(2), Tween::pause(ms(1000))).with_completed(3);
    assert_eq!(*tween.completed(), Completion::Emit(3));
    let Tween::Repeat { times, count, .. } = tween else {
        panic!()
    };
    assert_eq!(times, RepeatTimes::N(2));
    assert_eq!(count, 0);
    let silent: Loud = Tween::pause(ms(1));
    assert_eq!(*silent.completed(), Completion::Silent);
}

#[test]
fn sink_starts_empty() {
    let sink: EventSink<u8> = EventSink::new();
    assert!(sink.events.is_empty());
    assert!(sink.diagnostics.is_empty());
}

#[test]
fn copy_keeps_the_time() {
    let mut tween = Tween::sequence(vec![
        pause(1000),
        Tween::repeat(RepeatTimes::N(2), Tween::new(ms(1000), Lerp, Trace)),
    ]);
    assert_eq!(tween.skip(ms(2300)), TweenProgress::Running);
    let mut copy = tween.clone();
    let mut other = tween.duplicate();
    assert_eq!(tween.skip(ms(600)), TweenProgress::Running);
    assert_eq!(copy.skip(ms(600)), TweenProgress::Running);
    assert_eq!(tween.skip(ms(150)), done(50));
    assert_eq!(copy.skip(ms(150)), done(50));
    assert_eq!(other.skip(ms(750)), done(50));
}

#[test]
fn applier_makes_its_own_leaf() {
    let mut tween: Quiet = Trace.tween(ms(1000), Lerp);
    let mut sink = EventSink::new();
    let mut seen = Vec::new();
    assert_eq!(tween.advance(&mut seen, &mut sink, ms(400)), TweenProgress::Running);
    assert_eq!(seen, vec![at(400, 1000)]);
}

#[test]
fn buffer_applier_plays_what_the_buffer_holds() {
    let mut tween = Tween::new(ms(1000), Lerp, BufferApplier::new());
    let mut sink: EventSink<NoEvent> = EventSink::new();
    let mut target = (0_u32, TweenBuffer::new(Calls(10)));
    assert_eq!(tween.advance(&mut target, &mut sink, ms(100)), TweenProgress::Running);
    assert_eq!(target.0, 11);
    assert_eq!(target.1.tween.0, 11);
    assert_eq!(tween.advance(&mut target, &mut sink, ms(100)), TweenProgress::Running);
    assert_eq!(target.0, 12);
}

#[test]
fn play_cleans_up_when_done() {
    let mut play = PlayTween::new(Tween::new(ms(1000), Lerp, Trace)).despawn();
    let mut sink: EventSink<NoEvent> = EventSink::new();
    let mut seen = Vec::new();
    assert_eq!(
        play.tick(&mut seen, &mut sink, ms(400)),
        Cleanup { remove: false, despawn: false }
    );
    assert_eq!(
        play.tick(&mut seen, &mut sink, ms(600)),
        Cleanup { remove: false, despawn: true }
    );
    assert_eq!(seen, vec![at(400, 1000), at(1000, 1000)]);
}

#[test]
fn play_asks_for_nothing_unless_told() {
    let mut plain = PlayTween::new(pause(10));
    let mut both = PlayTween::new(pause(10)).remove_when_done().despawn();
    let mut removed = PlayTween::new(pause(10)).remove_when_done();
    let mut sink: EventSink<NoEvent> = EventSink::new();
    let mut seen = Vec::new();
    assert_eq!(
        plain.tick(&mut seen, &mut sink, ms(10)),
        Cleanup { remove: false, despawn: false }
    );
    assert_eq!(
        both.tick(&mut seen, &mut sink, ms(10)),
        Cleanup { remove: true, despawn: true }
    );
    assert_eq!(
        removed.tick(&mut seen, &mut sink, ms(10)),
        Cleanup { remove: true, despawn: false }
    );
}
