use audio_core::stream::buffer::{
    BufferedInput, FrameAccumulator, PeriodBuffer, SampleBuffer, StreamError,
};
use audio_core::stream::input::{Input, InputError};
use audio_core::stream::{ChannelCount, Frame, Instant, Period, SampleRate};

fn frame(channels: u16, samples: Vec<f32>) -> Frame<f32> {
    Frame {
        channels: ChannelCount::new(channels),
        sample_rate: SampleRate::new(44100),
        samples,
    }
}

#[test]
fn deinterlacing() {
    let mut buf: SampleBuffer<f32> =
        SampleBuffer::new(ChannelCount::new(2), SampleRate::new(44100), 100);
    buf.push(&frame(2, vec![1., 2., 3., 4.])).unwrap();
    assert_eq!(buf.peek_tail(0, 2), [1., 3.]);
    assert_eq!(buf.peek_tail(1, 2), [2., 4.]);
}

#[test]
fn wrap_around() {
    let mut buf: SampleBuffer<f32> =
        SampleBuffer::new(ChannelCount::new(1), SampleRate::new(44100), 4);
    // Add 3 1's, almost filling the max length of 4
    buf.push(&frame(1, vec![1.; 3])).unwrap();
    // Add 2 2's, filling the ring, and then replacing the first 1
    buf.push(&frame(1, vec![2.; 2])).unwrap();
    // The ring should have wrapped around and therefore be split
    // into two slices. It is important that this happens because it proves
    // that the ringbuffer didn't get accidentally rotated
    assert_eq!(
        buf.channel_segments(0),
        ([1., 1., 2.].as_slice(), [2.].as_slice())
    );
}

#[test]
fn from_iter_mono() {
    let mut buf = SampleBuffer::from_mono(SampleRate::new(1), &[1., 2., 3.], 16);
    assert_eq!(buf.channel_segments(0).0, [1., 2., 3.].as_slice());
    assert_eq!(buf.push_some_mono(&[4., 5., 6.], 2), 2);
    assert_eq!(
        buf.channel_segments(0).0,
        [1., 2., 3., 4., 5.].as_slice()
    );
    assert_eq!(buf.len(), 5);
}

#[test]
fn push_format_mismatch() {
    let mut buf: SampleBuffer<f32> =
        SampleBuffer::new(ChannelCount::new(2), SampleRate::new(44100), 8);
    assert_eq!(
        buf.push(&frame(1, vec![1., 2.])),
        Err(StreamError::FormatMismatch)
    );
    let wrong_rate = Frame {
        channels: ChannelCount::new(2),
        sample_rate: SampleRate::new(48000),
        samples: vec![1., 2.],
    };
    assert_eq!(buf.push(&wrong_rate), Err(StreamError::FormatMismatch));
    // An odd number of samples cannot be de-interlaced over 2 channels.
    assert_eq!(
        buf.push(&frame(2, vec![1., 2., 3.])),
        Err(StreamError::Malformed)
    );
    // The buffer is untouched by the rejected frames.
    assert_eq!(buf.sample_count(), 0);
}

#[test]
fn window_availability() {
    let rate = SampleRate::new(44100);
    let mut buf: SampleBuffer<f32> = SampleBuffer::new(ChannelCount::new(1), rate, 4);
    buf.push(&frame(1, vec![0., 1., 2., 3., 4., 5.])).unwrap();
    // Samples 0 and 1 are evicted; 2..6 are retained.
    assert_eq!(buf.len(), 4);
    assert_eq!(buf.oldest_sample_index(), 2);
    assert!(matches!(
        buf.get_window(Period::new(1, 2, rate)),
        Err(StreamError::WindowEvicted)
    ));
    assert!(matches!(
        buf.get_window(Period::new(4, 3, rate)),
        Err(StreamError::WindowNotReady)
    ));
    let w = buf.get_window(Period::new(2, 4, rate)).unwrap();
    assert_eq!(w.len(), 4);
    assert!(!w.is_empty());
    assert_eq!(w.start_time(), Instant::new(2, rate));
    assert_eq!(w.end_time(), Instant::new(6, rate));
    assert_eq!(w.get_channel(0).to_vec(), vec![2., 3., 4., 5.]);
}

#[test]
fn basic_period_stream() {
    let mut stream = PeriodBuffer::new(
        SampleBuffer::new(ChannelCount::new(1), SampleRate::new(44100), 100),
        4,
        2,
    );
    stream
        .push(&frame(1, (1..8).map(|x| x as f32).collect()))
        .unwrap();

    if let Some(p) = stream.next() {
        let (a, b) = p.get_channel(0).slices;
        assert_eq!(a, [1., 2., 3., 4.]);
        assert_eq!(b, []);
    } else {
        panic!("expected period");
    }

    if let Some(p) = stream.next() {
        let (a, b) = p.get_channel(0).slices;
        assert_eq!(a, [3., 4., 5., 6.]);
        assert_eq!(b, []);
    } else {
        panic!("expected period");
    }

    assert!(stream.next().is_none());

    stream
        .push(&frame(1, (8..9).map(|x| x as f32).collect()))
        .unwrap();

    if let Some(p) = stream.next() {
        let (a, b) = p.get_channel(0).slices;
        assert_eq!(a, [5., 6., 7., 8.]);
        assert_eq!(b, []);
    } else {
        panic!("expected period");
    }
}

#[test]
fn periods_split_ring() {
    // Fill an 8-sample ring buffer (but don't wrap yet)
    let mut stream = PeriodBuffer::new(
        SampleBuffer::new(ChannelCount::new(1), SampleRate::new(44100), 8),
        4,
        2,
    );
    stream
        .push(&frame(1, (0..8).map(|x| x as f32).collect()))
        .unwrap();

    // First two periods are covered by the basic stream test
    for _ in 0..2 {
        assert!(stream.next().is_some());
    }

    // Should be able to get the period that reaches the end of the stream
    if let Some(p) = stream.next() {
        let (a, b) = p.get_channel(0).slices;
        assert_eq!(a, [4., 5., 6., 7.]);
        assert_eq!(b, []);
    } else {
        panic!("expected period");
    }

    // Add some more samples, which should produce a split ring:
    stream
        .push(&frame(1, (8..12).map(|x| x as f32).collect()))
        .unwrap();

    // And the next period should be split between sample 7 and 8:
    if let Some(p) = stream.next() {
        let (a, b) = p.get_channel(0).slices;
        assert_eq!(a, [6., 7.]);
        assert_eq!(b, [8., 9.]);
        let v: Vec<f32> = p.get_channel(0).to_vec();
        assert_eq!(v, [6., 7., 8., 9.])
    } else {
        panic!("expected period");
    }

    // And then the next sample won't be split, but is interesting
    // because, internally it's entirely within the second ring segment
    if let Some(p) = stream.next() {
        let (a, b) = p.get_channel(0).slices;
        assert_eq!(a, [8., 9., 10., 11.]);
        assert_eq!(b, []);
    } else {
        panic!("expected period");
    }
}

#[test]
fn window_lost() {
    let mut stream = PeriodBuffer::new(
        SampleBuffer::new(ChannelCount::new(1), SampleRate::new(44100), 4),
        4,
        2,
    );
    // 9 samples into a capacity-4 ring: the first scheduled window
    // ([0, 4)) has lost its start.
    assert_eq!(
        stream.push(&frame(1, (0..9).map(|x| x as f32).collect())),
        Err(StreamError::WindowLost)
    );
    assert!(stream.next().is_none());
}

#[test]
fn timeseries_pairs() {
    let rate = SampleRate::new(44100);
    let mut stream = PeriodBuffer::new(
        SampleBuffer::new(ChannelCount::new(1), rate, 8),
        4,
        2,
    );
    stream
        .push(&frame(1, (0..8).map(|x| x as f32).collect()))
        .unwrap();
    // Consume the first three windows, then wrap the ring.
    stream.next().unwrap();
    stream.next().unwrap();
    stream.next().unwrap();
    stream
        .push(&frame(1, (8..12).map(|x| x as f32).collect()))
        .unwrap();
    // The window [6, 10) straddles the physical wrap.
    let p = stream.next().expect("expected period");
    let cp = p.get_channel(0);
    assert_eq!(cp.len(), 4);
    assert_eq!(cp.sample_rate(), rate);
    let mut ts = cp.into_timeseries();
    let mut got: Vec<(Instant, f32)> = Vec::new();
    while let Some(pair) = ts.next() {
        got.push(pair);
    }
    let want: Vec<(Instant, f32)> = (6..10).map(|i| (Instant::new(i, rate), i as f32)).collect();
    assert_eq!(got, want);
    assert!(ts.next().is_none());
}

#[test]
fn channels_views() {
    let rate = SampleRate::new(44100);
    let mut buf: SampleBuffer<f32> = SampleBuffer::new(ChannelCount::new(2), rate, 8);
    buf.push(&frame(2, vec![1., 10., 2., 20., 3., 30.])).unwrap();
    let w = buf.get_window(Period::new(0, 3, rate)).unwrap();
    assert_eq!(w.channel_count().get(), 2);
    assert_eq!(w.sample_rate(), rate);
    let chans = w.channels();
    assert_eq!(chans.len(), 2);
    assert_eq!(chans[0].to_vec(), vec![1., 2., 3.]);
    assert_eq!(chans[1].to_vec(), vec![10., 20., 30.]);
    assert!(!chans[0].is_empty());
}

#[test]
fn test_frame_accumulator() {
    let mut accum = FrameAccumulator::new(ChannelCount::new(1), SampleRate::new(44100), 4);
    for i in 0..3 {
        accum.push_input(i as f32);
        assert!(accum.pop_output().is_none());
    }
    accum.push_input(3.);
    let f = accum.pop_output().unwrap();
    assert_eq!(f.samples, [0., 1., 2., 3.]);

    for i in 4..8 {
        accum.push_input(i as f32);
    }
    let f = accum.pop_output().unwrap();
    assert_eq!(f.samples, [4., 5., 6., 7.]);
    assert!(accum.pop_output().is_none());
}

#[test]
fn frame_accumulator_with_frame_len() {
    let accum: FrameAccumulator<f32> =
        FrameAccumulator::new(ChannelCount::new(2), SampleRate::new(44100), 4);
    let mut accum = accum.with_frame_len(6);
    for i in 0..6 {
        accum.push_input(i as f32);
    }
    let f = accum.pop_output().unwrap();
    assert_eq!(f.samples, [0., 1., 2., 3., 4., 5.]);
    assert_eq!(f.channels.get(), 2);
}

struct FrameSource {
    frames: Vec<Vec<f32>>,
    at: usize,
}

impl Input for FrameSource {
    type Item = Frame<f32>;

    fn read(&mut self) -> Result<Frame<f32>, InputError> {
        if self.at < self.frames.len() {
            let samples = self.frames[self.at].clone();
            self.at += 1;
            Ok(frame(1, samples))
        } else {
            Err(InputError::Closed)
        }
    }
}

#[test]
fn buffered_input_windows() {
    let source = FrameSource {
        frames: vec![vec![1., 2.], vec![3.], vec![4., 5., 6.], vec![7., 8.]],
        at: 0,
    };
    let mut input = BufferedInput::new(source, 4).unwrap();
    let w = input.next().unwrap();
    assert_eq!(w.get_channel(0).to_vec(), vec![1., 2., 3., 4.]);
    let w = input.next().unwrap();
    assert_eq!(w.get_channel(0).to_vec(), vec![5., 6., 7., 8.]);
    // The source is exhausted before another full window arrives.
    let err = match input.next() {
        Ok(_) => panic!("expected the source to be exhausted"),
        Err(e) => e,
    };
    assert_eq!(err, StreamError::Input(InputError::Closed));
}

struct SampleSource {
    samples: Vec<f32>,
    at: usize,
}

impl Input for SampleSource {
    type Item = f32;

    fn read(&mut self) -> Result<f32, InputError> {
        if self.at < self.samples.len() {
            let s = self.samples[self.at];
            self.at += 1;
            Ok(s)
        } else {
            Err(InputError::Closed)
        }
    }
}

#[test]
fn buffered_input_from_samples() {
    let source = SampleSource {
        samples: (0..8).map(|x| x as f32).collect(),
        at: 0,
    };
    let mut input = BufferedInput::from_sample_input(
        source,
        ChannelCount::new(1),
        SampleRate::new(44100),
        4,
    )
    .unwrap();
    let w = input.next().unwrap();
    assert_eq!(w.get_channel(0).to_vec(), vec![0., 1., 2., 3.]);
    let w = input.next().unwrap();
    assert_eq!(w.get_channel(0).to_vec(), vec![4., 5., 6., 7.]);
    let err = match input.next() {
        Ok(_) => panic!("expected the source to be exhausted"),
        Err(e) => e,
    };
    assert_eq!(err, StreamError::Input(InputError::Closed));
}
