use voca::typing::append_new_words;
use voca::whisper::{
    clean_whisper_output, join_segments, split_windows, trailing_speech_end, Segmenter,
    MAX_SEGMENT_SAMPLES, MIN_SEGMENT_SAMPLES, RMS_WINDOW_SAMPLES, SILENCE_TRIGGER_SAMPLES,
    WHISPER_SAMPLE_RATE,
};

const W: usize = RMS_WINDOW_SAMPLES;

#[test]
fn durations() {
    assert_eq!(WHISPER_SAMPLE_RATE, 16_000);
    assert_eq!(W, 1_600);
    assert_eq!(SILENCE_TRIGGER_SAMPLES, 8_000);
    assert_eq!(MIN_SEGMENT_SAMPLES, 4_000);
    assert_eq!(MAX_SEGMENT_SAMPLES, 448_000);
}

#[test]
fn quiet_windows_at_the_end_are_cut_off() {
    let mut loud = vec![false; 10];
    loud[3] = true;
    assert_eq!(trailing_speech_end(10 * W + 7, &loud), 7 * W + 7);
    loud[0] = true;
    assert_eq!(trailing_speech_end(10 * W + 7, &loud), 10 * W + 7);
    assert_eq!(trailing_speech_end(10 * W, &vec![false; 10]), MIN_SEGMENT_SAMPLES);
    assert_eq!(trailing_speech_end(2 * W, &vec![false; 2]), 2 * W);
    assert_eq!(trailing_speech_end(5, &vec![]), 5);
}

#[test]
fn noise_is_stripped() {
    assert_eq!(clean_whisper_output(" [BLANK_AUDIO]  hello (Music) world "), "hello world");
    assert_eq!(clean_whisper_output("(soft music)"), "(soft music)");
    assert_eq!(clean_whisper_output("[BLANK_AUDIO]"), "");
    assert_eq!(clean_whisper_output("[a) (b] [ ] ( ) []"), "[a) (b] [ ] ( )");
    assert_eq!(clean_whisper_output("a[b] [c]d"), "a[b] [c]d");
    let once = clean_whisper_output("x [y] z");
    assert_eq!(clean_whisper_output(&once), once);
}

#[test]
fn segments_of_text_are_joined() {
    let parts = vec![" one ".to_string(), "  ".to_string(), "two three".to_string(), String::new()];
    assert_eq!(join_segments(&parts), "one two three");
    assert_eq!(join_segments(&vec![]), "");
}

#[test]
fn windows_are_cut() {
    let samples: Vec<u32> = (0..(2 * W as u32 + 3)).collect();
    let windows = split_windows(&samples);
    assert_eq!(windows.len(), 3);
    assert_eq!(windows[0].len(), W);
    assert_eq!(windows[1][0], W as u32);
    assert_eq!(windows[2], vec![2 * W as u32, 2 * W as u32 + 1, 2 * W as u32 + 2]);
    assert_eq!(windows.concat(), samples);
    assert!(split_windows(&Vec::<u8>::new()).is_empty());
    assert_eq!(split_windows(&vec![0u8; W]).len(), 1);
}

#[test]
fn silence_ends_a_segment() {
    let mut s: Segmenter<i16> = Segmenter::new();
    assert!(!s.push_window(&vec![0; W], false));
    for _ in 0..3 {
        assert!(!s.push_window(&vec![9; W], true));
    }
    for _ in 0..4 {
        assert!(!s.push_window(&vec![0; W], false));
    }
    assert!(s.push_window(&vec![0; W], false));
    let loud: Vec<bool> = s.tail_windows().iter().map(|w| w[0] == 9).collect();
    assert_eq!(loud, vec![false, false, false, false, false, true, true, true, false]);
    let segment = s.take_segment(&loud).unwrap();
    assert_eq!(segment.len(), 4 * W);
    assert_eq!(segment[0], 0);
    assert_eq!(segment[4 * W - 1], 9);
    assert!(s.sample_buf.is_empty());
    assert_eq!(s.consecutive_silence, 0);
    assert!(!s.has_speech);
}

#[test]
fn silence_alone_is_no_segment() {
    let mut s: Segmenter<i16> = Segmenter::new();
    for _ in 0..300 {
        assert!(!s.push_window(&vec![0; W], false));
    }
    assert!(s.push_window(&vec![9; W], true));
}

#[test]
fn long_speech_is_cut() {
    let mut s: Segmenter<u8> = Segmenter::new();
    for _ in 0..279 {
        assert!(!s.push_window(&vec![1; W], true));
    }
    assert!(s.push_window(&vec![1; W], true));
    let loud = vec![true; 280];
    assert_eq!(s.take_segment(&loud).unwrap().len(), MAX_SEGMENT_SAMPLES);
}

#[test]
fn short_bursts_are_no_segments() {
    let mut s: Segmenter<u8> = Segmenter::new();
    s.push_window(&vec![1; 100], true);
    assert!(s.take_segment(&vec![]).is_none());
    s.push_window(&vec![1; 100], true);
    assert!(s.last_segment(&vec![]).is_none());
}

#[test]
fn noise_bursts_before_silence_are_skipped() {
    let mut s: Segmenter<u8> = Segmenter::new();
    assert!(!s.push_window(&vec![1; W], true));
    for _ in 0..4 {
        assert!(!s.push_window(&vec![0; W], false));
    }
    assert!(s.last_segment(&vec![false, false, false, false, true]).is_none());
    assert!(s.push_window(&vec![0; W], false));
    assert!(s.take_segment(&vec![false, false, false, false, false, true]).is_none());
    assert!(s.sample_buf.is_empty());
    s.push_window(&vec![1; W], true);
    s.push_window(&vec![1; W], true);
    s.push_window(&vec![1; 800], true);
    assert_eq!(s.last_segment(&vec![true, true]).unwrap().len(), MIN_SEGMENT_SAMPLES);
}

#[test]
fn speech_after_long_silence_keeps_to_the_cap() {
    let mut s: Segmenter<u8> = Segmenter::new();
    for _ in 0..300 {
        assert!(!s.push_window(&vec![0; W], false));
    }
    assert!(s.push_window(&vec![9; W], true));
    let mut loud = vec![false; 301];
    loud[0] = true;
    let last = s.last_segment(&loud).unwrap();
    let segment = s.take_segment(&loud).unwrap();
    assert_eq!(segment, last);
    assert_eq!(segment.len(), MAX_SEGMENT_SAMPLES);
    assert!(segment[MAX_SEGMENT_SAMPLES - W..].iter().all(|&x| x == 9));
    assert!(segment[..MAX_SEGMENT_SAMPLES - W].iter().all(|&x| x == 0));
}

#[test]
fn last_segment_needs_speech() {
    let mut s: Segmenter<u8> = Segmenter::new();
    for _ in 0..3 {
        s.push_window(&vec![0; W], false);
    }
    assert!(s.last_segment(&vec![false; 3]).is_none());
    s.push_window(&vec![1; W], true);
    s.push_window(&vec![0; W], false);
    let segment = s.last_segment(&vec![false, true, false, false, false]).unwrap();
    assert_eq!(segment.len(), 4 * W);
}

#[test]
fn said_text_accumulates_and_is_typed_once() {
    let mut s: Segmenter<u8> = Segmenter::new();
    let mut typed = Vec::new();
    let mut screen = String::new();
    for text in ["one two", "[BLANK_AUDIO]", " two (noise) three", "one"] {
        if let Some(said) = s.add_text(text) {
            if let Some(t) = append_new_words(&mut typed, &said) {
                screen.push_str(&t);
            }
        }
    }
    assert_eq!(s.finalized, "one two two three one");
    assert_eq!(screen, "one two two three one ");
    assert!(s.add_text("(x)").is_none());
}
