use tokio::sync::mpsc::unbounded_channel;
use voca::audio::{peak, recording_rate, select_config, AudioRecorder, InputConfig, LiveStreamSink};
use voca::wav::{
    bytes_to_samples, decode_wav, encode_wav, first_channel, mono_audio, samples_to_bytes,
    MonoAudio, WavFile, WavSpec,
};

#[test]
fn samples_have_their_low_byte_first() {
    let samples = vec![0, 1, -1, 256, i16::MIN, i16::MAX, -300];
    let mut expected = Vec::new();
    for s in &samples {
        expected.extend_from_slice(&s.to_le_bytes());
    }
    assert_eq!(samples_to_bytes(&samples), expected);
    assert_eq!(bytes_to_samples(&expected), samples);
    expected.push(9);
    assert_eq!(bytes_to_samples(&expected), samples);
}

#[test]
fn all_samples_survive_bytes() {
    let samples: Vec<i16> = (i16::MIN..=i16::MAX).collect();
    assert_eq!(bytes_to_samples(&samples_to_bytes(&samples)), samples);
}

#[test]
fn wav_files_have_the_plain_layout() {
    let spec = WavSpec { channels: 1, sample_rate: 16_000, bits_per_sample: 16 };
    let wav = encode_wav(spec, &vec![1, -2]).unwrap();
    let mut expected: Vec<u8> = Vec::new();
    expected.extend_from_slice(b"RIFF");
    expected.extend_from_slice(&40u32.to_le_bytes());
    expected.extend_from_slice(b"WAVEfmt ");
    expected.extend_from_slice(&16u32.to_le_bytes());
    expected.extend_from_slice(&[1, 0, 1, 0]);
    expected.extend_from_slice(&16_000u32.to_le_bytes());
    expected.extend_from_slice(&32_000u32.to_le_bytes());
    expected.extend_from_slice(&[2, 0, 16, 0]);
    expected.extend_from_slice(b"data");
    expected.extend_from_slice(&4u32.to_le_bytes());
    expected.extend_from_slice(&[1, 0, 0xfe, 0xff]);
    assert_eq!(wav, expected);
}

#[test]
fn wav_rates_at_the_limits() {
    for sample_rate in [1, 44_100, u32::MAX / 2] {
        let spec = WavSpec { channels: 1, sample_rate, bits_per_sample: 16 };
        let wav = encode_wav(spec, &vec![7]).unwrap();
        match decode_wav(&wav).unwrap() {
            MonoAudio::Samples { sample_rate: r, samples } => {
                assert_eq!(r, sample_rate);
                assert_eq!(samples, vec![7]);
            }
            other => panic!("{:?}", other),
        }
    }
}

#[test]
fn recordings_are_read_back() {
    for n in [0usize, 1, 2, 1000] {
        let samples: Vec<i16> = (0..n).map(|i| (i as i32 * 37 - 9000) as i16).collect();
        let spec = WavSpec { channels: 1, sample_rate: 48_000, bits_per_sample: 16 };
        let wav = encode_wav(spec, &samples).unwrap();
        assert_eq!(wav.len(), 44 + 2 * n);
        match decode_wav(&wav).unwrap() {
            MonoAudio::Samples { sample_rate, samples: read } => {
                assert_eq!(sample_rate, 48_000);
                assert_eq!(read, samples);
            }
            other => panic!("{:?}", other),
        }
    }
}

fn stereo_wav(format: hound::SampleFormat, bits_per_sample: u16) -> Vec<u8> {
    let spec = hound::WavSpec { channels: 2, sample_rate: 8_000, bits_per_sample, sample_format: format };
    let mut cursor = std::io::Cursor::new(Vec::new());
    let mut writer = hound::WavWriter::new(&mut cursor, spec).unwrap();
    for i in 0..6i16 {
        match format {
            hound::SampleFormat::Int => writer.write_sample(i).unwrap(),
            hound::SampleFormat::Float => writer.write_sample(i as f32).unwrap(),
        }
    }
    writer.finalize().unwrap();
    cursor.into_inner()
}

#[test]
fn first_channel_of_a_stereo_file_is_read() {
    match decode_wav(&stereo_wav(hound::SampleFormat::Int, 16)).unwrap() {
        MonoAudio::Samples { sample_rate, samples } => {
            assert_eq!(sample_rate, 8_000);
            assert_eq!(samples, vec![0, 2, 4]);
        }
        other => panic!("{:?}", other),
    }
}

#[test]
fn wide_samples_are_dropped() {
    match decode_wav(&stereo_wav(hound::SampleFormat::Int, 24)).unwrap() {
        MonoAudio::Samples { samples, .. } => assert!(samples.is_empty()),
        other => panic!("{:?}", other),
    }
}

#[test]
fn truncated_files_give_what_is_there() {
    let mut wav = stereo_wav(hound::SampleFormat::Int, 16);
    wav.truncate(44 + 7);
    match decode_wav(&wav).unwrap() {
        MonoAudio::Samples { samples, .. } => assert_eq!(samples, vec![0, 2]),
        other => panic!("{:?}", other),
    }
}

#[test]
fn floating_point_files_are_told_apart() {
    match decode_wav(&stereo_wav(hound::SampleFormat::Float, 32)).unwrap() {
        MonoAudio::Float { sample_rate, channels } => {
            assert_eq!(sample_rate, 8_000);
            assert_eq!(channels, 2);
        }
        other => panic!("{:?}", other),
    }
}

#[test]
fn other_files_are_errors() {
    assert_eq!(decode_wav(b"").unwrap_err(), "Failed to read enough bytes.");
    assert_eq!(decode_wav(b"RIFX....").unwrap_err(), "Ill-formed WAVE file: no RIFF tag found");
}

#[test]
fn channels_are_picked() {
    assert_eq!(first_channel(&vec![1, 2, 3, 4, 5], 2), vec![1, 3, 5]);
    assert_eq!(first_channel(&vec![1, 2, 3], 1), vec![1, 2, 3]);
    assert_eq!(first_channel(&vec![1, 2, 3, 4, 5, 6, 7], 3), vec![1, 4, 7]);
    assert!(first_channel(&Vec::<i16>::new(), 0).is_empty());
    let file = WavFile { channels: 3, sample_rate: 5, float: false, samples: vec![9, 8, 7, 6] };
    match mono_audio(file) {
        MonoAudio::Samples { samples, .. } => assert_eq!(samples, vec![9, 6]),
        other => panic!("{:?}", other),
    }
}

#[test]
fn first_suitable_configuration_is_taken() {
    let c = |channels, min_sample_rate, max_sample_rate| InputConfig {
        channels,
        min_sample_rate,
        max_sample_rate,
    };
    let configs = vec![c(4, 8_000, 96_000), c(2, 44_100, 48_000), c(2, 16_000, 16_000), c(1, 1, 99_999)];
    assert_eq!(select_config(&configs, 16_000), Some(2));
    assert_eq!(select_config(&configs, 48_000), Some(1));
    assert_eq!(select_config(&configs, 8_000), Some(3));
    assert_eq!(select_config(&configs, 100_000), None);
    assert_eq!(select_config(&vec![], 16_000), None);
    assert_eq!(recording_rate(&configs, 16_000, 44_100), 16_000);
    assert_eq!(recording_rate(&configs, 100_000, 44_100), 44_100);
    assert_eq!(recording_rate(&vec![], 16_000, 48_000), 48_000);
    assert_eq!(recording_rate(&vec![c(3, 1, 99_999)], 16_000, 48_000), 48_000);
}

#[test]
fn peaks() {
    assert_eq!(peak(&vec![]), 0);
    assert_eq!(peak(&vec![3, -5, 4]), 5);
    assert_eq!(peak(&vec![i16::MAX, i16::MIN]), 32_768);
}

#[test]
fn chunks_last_a_tenth_of_a_second() {
    let mut rates: Vec<u32> = (0..200_000).collect();
    rates.extend((0..100_000).map(|i| u32::MAX - i * 7));
    rates.extend((0..200_000u32).map(|i| i.wrapping_mul(2_654_435_761)));
    for rate in rates {
        let (tx, _rx) = unbounded_channel();
        let expected = ((rate as f64) * std::time::Duration::from_millis(100).as_secs_f64()).round();
        let sink = LiveStreamSink::new(tx, rate);
        assert_eq!(sink.chunk_samples, (expected as usize).max(1), "{}", rate);
    }
}

#[test]
fn whole_chunks_are_streamed_and_the_rest_is_kept() {
    let (tx, mut rx) = unbounded_channel();
    let mut sink = LiveStreamSink::new(tx, 30);
    assert_eq!(sink.chunk_samples, 3);
    assert_eq!(sink.push_live_stream_samples(&vec![1, 2]), 0);
    assert!(rx.try_recv().is_err());
    assert_eq!(sink.push_live_stream_samples(&vec![3, 4, 5, 6, 7]), 2);
    assert_eq!(rx.try_recv().unwrap(), samples_to_bytes(&vec![1, 2, 3]));
    assert_eq!(rx.try_recv().unwrap(), samples_to_bytes(&vec![4, 5, 6]));
    assert!(rx.try_recv().is_err());
    assert_eq!(sink.pending_samples, vec![7]);
    assert!(sink.flush_live_stream_sink());
    assert_eq!(rx.try_recv().unwrap(), samples_to_bytes(&vec![7]));
    assert!(!sink.flush_live_stream_sink());
    assert!(rx.try_recv().is_err());
}

#[test]
fn refused_chunks_are_dropped() {
    let (tx, rx) = unbounded_channel();
    let mut sink = LiveStreamSink::new(tx, 20);
    drop(rx);
    assert_eq!(sink.push_live_stream_samples(&vec![1, 2, 3, 4, 5]), 0);
    assert!(sink.pending_samples.is_empty());
    assert_eq!(sink.push_live_stream_samples(&vec![1]), 0);
    assert_eq!(sink.pending_samples, vec![1]);
    assert!(!sink.flush_live_stream_sink());
    assert!(sink.pending_samples.is_empty());
}

#[test]
fn recorder_records_and_streams() {
    let (tx, mut rx) = unbounded_channel();
    let mut r = AudioRecorder::new(16_000);
    assert_eq!(r.sample_rate_hz(), None);
    r.set_preferred_sample_rate_hz(20);
    assert_eq!(r.preferred_sample_rate_hz, 20);
    r.buffer.push(99);
    r.input_level = 500;
    r.prepare();
    assert!(r.buffer.is_empty());
    assert_eq!(r.input_level, 0);
    r.start_streaming(tx, 20);
    assert_eq!(r.sample_rate_hz(), Some(20));
    assert_eq!(r.write_input_data(&vec![10, 0, -30, 0, 20, 0], 2), 30);
    assert_eq!(r.buffer, vec![10, -30, 20]);
    r.input_level = 7;
    let stopped = r.stop();
    assert_eq!(r.input_level, 0);
    assert_eq!(r.sample_rate_hz(), None);
    assert!(r.live_stream_sink.is_none());
    assert!(stopped.sink.unwrap().pending_samples.is_empty());
    assert_eq!(rx.try_recv().unwrap(), samples_to_bytes(&vec![10, -30]));
    assert_eq!(rx.try_recv().unwrap(), samples_to_bytes(&vec![20]));
    let wav = stopped.wav.unwrap();
    match decode_wav(&wav).unwrap() {
        MonoAudio::Samples { sample_rate, samples } => {
            assert_eq!(sample_rate, 20);
            assert_eq!(samples, vec![10, -30, 20]);
        }
        other => panic!("{:?}", other),
    }
}

#[test]
fn stopping_an_idle_recorder_is_an_error() {
    let mut r = AudioRecorder::new(16_000);
    let stopped = r.stop();
    assert_eq!(stopped.wav.unwrap_err(), "Recorder is not active. Start recording first.");
    assert!(stopped.sink.is_none());
}

#[test]
fn stream_carries_the_recording() {
    let (tx, mut rx) = unbounded_channel();
    let mut r = AudioRecorder::new(16_000);
    r.prepare();
    r.start_streaming(tx, 70);
    for n in [1usize, 20, 3, 7, 0, 15] {
        let input: Vec<i16> = (0..n).map(|i| i as i16 * 100 - 700).collect();
        r.write_input_data(&input, 2);
    }
    let recorded = samples_to_bytes(&r.buffer);
    r.stop();
    let mut streamed = Vec::new();
    while let Ok(chunk) = rx.try_recv() {
        streamed.extend_from_slice(&chunk);
    }
    assert_eq!(streamed, recorded);
}
