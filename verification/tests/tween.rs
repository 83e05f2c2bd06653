use be_tween::{
    Duration, EventSink, Lerp, NoEvent, Position, RepeatTimes, Tween, TweenApplier, TweenProgress,
};

/// Writes its factor times the position times two into an `f32`.
#[derive(Clone)]
struct Scale(f32);

fn secs(span: Duration) -> f32 {
    std::time::Duration::new(span.as_secs() as u64, span.subsec_nanos()).as_secs_f32()
}

impl TweenApplier<f32, Position> for Scale {
    fn apply(&mut self, target: &mut f32, value: Position) {
        *target = self.0 * (secs(value.elapsed) / secs(value.duration)) * 2.0;
    }
}

#[test]
fn tween_once() {
    let mut tween = Tween::new(Duration::from_secs(2), Lerp, Scale(1.0_f32));
    let mut sink: EventSink<NoEvent> = EventSink::new();
    tween.skip(Duration::from_millis(3));

    let mut value = 0.0;
    tween.advance(&mut value, &mut sink, Duration::from_millis(1));

    let Tween::Once { elapsed, .. } = tween else {
        panic!()
    };
    assert_eq!(elapsed, Duration::from_millis(4));
    assert_eq!(value, 0.004);
}

#[test]
fn tween_repeat() {
    let mut tween = Tween::repeat(
        RepeatTimes::N(2),
        Tween::new(Duration::from_secs(1), Lerp, Scale(2.0_f32)),
    );
    let mut sink: EventSink<NoEvent> = EventSink::new();

    let mut value = 0.0;
    let progress = tween.advance(&mut value, &mut sink, Duration::from_millis(1500));
    assert_eq!(progress, TweenProgress::Running);

    let Tween::Repeat {
        count,
        tween: ref delegate,
        ..
    } = tween
    else {
        panic!()
    };
    assert_eq!(count, 1);
    let Tween::Once { elapsed, .. } = **delegate else {
        panic!();
    };
    assert_eq!(elapsed, Duration::from_millis(500));
    assert_eq!(value, 2.0);

    let progress = tween.advance(&mut value, &mut sink, Duration::from_millis(505));
    assert_eq!(
        progress,
        TweenProgress::Done {
            surplus: Duration::from_millis(5)
        }
    );
    let Tween::Repeat {
        count,
        tween: delegate,
        ..
    } = tween
    else {
        panic!()
    };
    assert_eq!(count, 2);
    let Tween::Once { elapsed, .. } = *delegate else {
        panic!();
    };
    assert_eq!(elapsed, Duration::from_millis(0));
    assert_eq!(value, 4.0);
}

#[test]
fn tween_sequence() {
    let mut tween = Tween::sequence(vec![
        Tween::new(Duration::from_secs(1), Lerp, Scale(2.0_f32)),
        Tween::repeat(
            RepeatTimes::N(2),
            Tween::new(Duration::from_secs(1), Lerp, Scale(4.0_f32)),
        ),
    ]);
    let mut sink: EventSink<NoEvent> = EventSink::new();

    let mut value = 0.0;
    let progress = tween.advance(&mut value, &mut sink, Duration::from_millis(500));
    assert_eq!(progress, TweenProgress::Running);
    assert_eq!(value, 2.0);

    let progress = tween.advance(&mut value, &mut sink, Duration::from_millis(1000));
    assert_eq!(progress, TweenProgress::Running);
    assert_eq!(value, 4.0);

    let progress = tween.advance(&mut value, &mut sink, Duration::from_millis(2000));
    assert_eq!(
        progress,
        TweenProgress::Done {
            surplus: Duration::from_millis(500)
        }
    );
    assert_eq!(value, 8.0);
}

#[test]
fn tween_sequence_with_endless_loop() {
    let mut tween = Tween::sequence(vec![
        Tween::new(Duration::from_secs(1), Lerp, Scale(2.0_f32)),
        Tween::repeat(
            RepeatTimes::Infinite,
            Tween::new(Duration::from_secs(1), Lerp, Scale(5.0_f32)),
        ),
    ]);
    let mut sink: EventSink<NoEvent> = EventSink::new();

    let mut value = 0.0;
    let progress = tween.advance(&mut value, &mut sink, Duration::from_millis(20000));
    assert_eq!(progress, TweenProgress::Running);
    assert_eq!(value, 0.0);
}

#[test]
fn tween_parallel() {
    let mut tween = Tween::parallel(vec![
        Tween::new(Duration::from_secs(1), Lerp, Scale(2.0_f32)),
        Tween::repeat(
            RepeatTimes::N(2),
            Tween::new(Duration::from_secs(1), Lerp, Scale(4.0_f32)),
        ),
    ]);
    let mut sink: EventSink<NoEvent> = EventSink::new();

    let mut value = 0.0;
    let progress = tween.advance(&mut value, &mut sink, Duration::from_millis(1000));
    assert_eq!(progress, TweenProgress::Running);

    let progress = tween.advance(&mut value, &mut sink, Duration::from_millis(1000));
    assert_eq!(
        progress,
        TweenProgress::Done {
            surplus: Duration::zero()
        }
    );
}
