use audio_core::stream::{ChannelCount, Duration, Instant, Period, SampleRate, TimeError};

#[test]
fn instant_sub() {
    let rate = SampleRate::new(1);
    assert_eq!(
        Instant::new(42, rate).sub(Instant::new(32, rate)),
        Ok(Duration::new(10, rate))
    );
}

#[test]
fn instant_cmp() {
    let rate = SampleRate::new(1);
    assert!(Instant::new(10, rate) > Instant::new(5, rate));
}

#[test]
fn instant_sub_underflow() {
    let rate = SampleRate::new(1);
    assert_eq!(
        Instant::new(32, rate).sub(Instant::new(42, rate)),
        Err(TimeError::Underflow)
    );
}

#[test]
fn instant_rate_mismatch() {
    let a = Instant::new(10, SampleRate::new(1));
    let b = Instant::new(5, SampleRate::new(2));
    assert_eq!(a.sub(b), Err(TimeError::RateMismatch));
    // Instants of different rates are incomparable.
    assert_eq!(a.partial_cmp(&b), None);
    assert!(!(a > b));
    assert!(!(a < b));
}

#[test]
fn instant_add_duration() {
    let rate = SampleRate::new(48000);
    let t = Instant::new(100, rate);
    assert_eq!(t.add(Duration::new(28, rate)), Ok(Instant::new(128, rate)));
    assert_eq!(t.sub_duration(Duration::new(28, rate)), Ok(Instant::new(72, rate)));
    assert_eq!(
        t.sub_duration(Duration::new(200, rate)),
        Err(TimeError::Underflow)
    );
    assert_eq!(
        t.add(Duration::new(1, SampleRate::new(1))),
        Err(TimeError::RateMismatch)
    );
}

#[test]
fn duration_to_secs_nanos() {
    // 72000 samples at 48 kHz is exactly 1.5 s.
    let d = Duration::new(72000, SampleRate::new(48000));
    assert_eq!(d.to_secs_nanos(), (1, 500_000_000));
    // 1 sample at 44100 Hz is 22675 ns, rounded down.
    let d = Duration::new(1, SampleRate::new(44100));
    assert_eq!(d.to_secs_nanos(), (0, 22675));
}

#[test]
fn period_accessors() {
    let rate = SampleRate::new(44100);
    let p = Period::new(42, 100, rate);
    assert_eq!(p.start(), Instant::new(42, rate));
    assert_eq!(p.end(), Instant::new(142, rate));
    assert_eq!(p.duration(), Duration::new(100, rate));
    assert_eq!(p.sample_rate(), rate);
}

#[test]
fn count_accessors() {
    assert_eq!(ChannelCount::new(2).get(), 2);
    assert_eq!(ChannelCount::new(2).as_usize(), 2);
    assert_eq!(SampleRate::new(44100).get(), 44100);
    assert_eq!(SampleRate::new(44100).as_usize(), 44100);
    assert_eq!(Duration::new(7, SampleRate::new(3)).sample_count(), 7);
    assert_eq!(Instant::new(9, SampleRate::new(3)).index(SampleRate::new(3)), 9);
    assert_eq!(Duration::from_start(Instant::new(9, SampleRate::new(3))).sample_count(), 9);
}
