use audio_core::pitch::{Pitch, PitchError, Semitone};

#[test]
fn semitone_from() {
    assert_eq!(Semitone::from_u8(2), Some(Semitone::D));
    assert_eq!(Semitone::try_from("F♯"), Ok(Semitone::Fs));
    assert_eq!(Semitone::try_from("G"), Ok(Semitone::G));
    assert_eq!(Semitone::try_from("G♭"), Ok(Semitone::Fs));
    assert!(Semitone::try_from("F♯4").is_err());
}

#[test]
fn semitone_all_roundtrip() {
    for i in 0..12 {
        let start = Semitone::from_u8(i).unwrap();
        assert_eq!(Ok(start), Semitone::try_from(start.to_string().as_str()))
    }
}

#[test]
fn pitch_from() {
    assert_eq!(Pitch::try_from("C42"), Ok(Pitch::new(Semitone::C, 42)));
    assert_eq!(Pitch::try_from("C-2"), Ok(Pitch::new(Semitone::C, -2)));
    assert_eq!(Pitch::try_from("F♯4"), Ok(Pitch::new(Semitone::Fs, 4)));
    assert_eq!(Pitch::try_from("F♯-1"), Ok(Pitch::new(Semitone::Fs, -1)));
}

#[test]
fn pitch_display() {
    assert_eq!(Pitch::new(Semitone::C, 4).to_string(), "C4");
    assert_eq!(Pitch::new_with_cents(Semitone::C, 4, 7).to_string(), "C4+7");
    assert_eq!(Pitch::new_with_cents(Semitone::C, 4, -14).to_string(), "C4-14");
}

#[test]
fn pitch_display_sharps_and_octaves() {
    assert_eq!(Pitch::new(Semitone::Fs, -1).to_string(), "F♯-1");
    assert_eq!(Pitch::new(Semitone::As, 10).to_string(), "A♯10");
    assert_eq!(Pitch::new_with_cents(Semitone::B, 0, 49).to_string(), "B0+49");
}

#[test]
fn pitch_parse_errors() {
    assert_eq!(Semitone::try_from(""), Err(PitchError::EmptyNote));
    // E♯ names no semitone.
    assert_eq!(Semitone::try_from("E♯"), Err(PitchError::BadSign));
    assert_eq!(Semitone::try_from("Cb"), Err(PitchError::BadSign));
    assert_eq!(Semitone::try_from("H"), Err(PitchError::BadNote));
    assert_eq!(Semitone::try_from("F♯♯"), Err(PitchError::TrailingGarbage));
    // A pitch needs an octave, all of it digits, and in range.
    assert_eq!(Pitch::try_from("C"), Err(PitchError::BadOctave));
    assert_eq!(Pitch::try_from("C+"), Err(PitchError::BadOctave));
    assert_eq!(Pitch::try_from("F♯4ZZZ"), Err(PitchError::TrailingGarbage));
    assert_eq!(Pitch::try_from("C99999"), Err(PitchError::BadOctave));
    assert_eq!(Pitch::try_from("C-99999999999"), Err(PitchError::BadOctave));
    assert_eq!(Pitch::try_from("E♯3"), Err(PitchError::BadSign));
}

#[test]
fn pitch_parse_signs_and_zeros() {
    assert_eq!(Pitch::try_from("C+5"), Ok(Pitch::new(Semitone::C, 5)));
    assert_eq!(Pitch::try_from("C007"), Ok(Pitch::new(Semitone::C, 7)));
    assert_eq!(Pitch::try_from("C-0"), Ok(Pitch::new(Semitone::C, 0)));
    assert_eq!(Pitch::try_from("C32767"), Ok(Pitch::new(Semitone::C, 32767)));
    assert_eq!(Pitch::try_from("C-32768"), Ok(Pitch::new(Semitone::C, -32768)));
    assert_eq!(Pitch::try_from("C32768"), Err(PitchError::BadOctave));
}

#[test]
fn semitone_index_roundtrip() {
    for i in 0..12 {
        let s = Semitone::from_u8(i).unwrap();
        assert_eq!(s.index(), i);
    }
    assert_eq!(Semitone::from_u8(12), None);
}

#[test]
fn semitone_counts() {
    let a4 = Pitch::new(Semitone::A, 4);
    // A pitch is zero semitones from itself.
    assert_eq!(a4.semitone_distance(&a4), 0);
    // B3 is ten semitones below A4.
    assert_eq!(Pitch::new(Semitone::B, 3).semitone_distance(&a4), -10);
    // E5 is seven semitones above A4.
    assert_eq!(Pitch::new(Semitone::E, 5).semitone_distance(&a4), 7);
}

#[test]
fn pitch_from_semitone_count() {
    // 0 semitones up from the C of octave 4 is C4 itself.
    assert_eq!(
        Pitch::from_semitone_count(0, 4, 0),
        Some(Pitch::new(Semitone::C, 4))
    );
    // 9 semitones up is A4: the count a 440 Hz estimate produces under the
    // standard tuning.
    assert_eq!(
        Pitch::from_semitone_count(9, 4, 0),
        Some(Pitch::new(Semitone::A, 4))
    );
    // -57 semitones lands on D♯ of octave -1 (floored, not truncated,
    // division): the count a 9.722 Hz estimate produces.
    assert_eq!(
        Pitch::from_semitone_count(-57, 4, 0),
        Some(Pitch::new(Semitone::Ds, -1))
    );
    // Cents ride along unchanged.
    assert_eq!(
        Pitch::from_semitone_count(19, 3, -21),
        Some(Pitch::new_with_cents(Semitone::G, 4, -21))
    );
    // An octave outside i16 is refused.
    assert_eq!(Pitch::from_semitone_count(i32::MAX, 4, 0), None);
}

#[test]
fn semitone_count_roundtrip() {
    // Distance-then-split restores every pitch exactly, mirroring the
    // integer part of converting a pitch to a frequency and back.
    let reference = Pitch::new(Semitone::A, 4);
    for i in 0..12 {
        for octave in [-2i16, -1, 0, 3, 4, 9] {
            let p = Pitch::new(Semitone::from_u8(i).unwrap(), octave);
            let count = p.semitone_distance(&reference) + reference.semitone.index() as i32;
            assert_eq!(
                Pitch::from_semitone_count(count, reference.octave, 0),
                Some(p)
            );
        }
    }
}
