use tuner_rs::frame::FrameBuffer;
use tuner_rs::pcm::{audio_buffer_to_signal, sample_from_bytes};
use tuner_rs::tuner::{change_algorithm, detector_for, tuner_change_algorithm, Detector, Tuner, TunerError};

fn pcm_bytes(samples: &[i16]) -> Vec<u8> {
    let mut out = Vec::new();
    for s in samples {
        out.extend_from_slice(&s.to_le_bytes());
    }
    out
}

fn ramp(n: usize) -> Vec<i16> {
    (0..n).map(|i| ((i * 37) % 65536) as u16 as i16).collect()
}

#[test]
fn decodes_little_endian_samples() {
    let bytes = [0x01, 0x00, 0xff, 0xff, 0x00, 0x80, 0xff, 0x7f, 0x34, 0x12];
    assert_eq!(audio_buffer_to_signal(&bytes), Ok(vec![1, -1, -32768, 32767, 0x1234]));
    assert_eq!(sample_from_bytes(0x00, 0x80), i16::MIN);
    assert_eq!(audio_buffer_to_signal(&[]), Ok(Vec::<i16>::new()));
}

#[test]
fn odd_length_buffer_fails_to_decode() {
    assert_eq!(audio_buffer_to_signal(&[1, 0, 7]), Err(TunerError::OddBufferLength));
    assert_eq!(audio_buffer_to_signal(&[7]), Err(TunerError::OddBufferLength));
}

#[test]
fn unknown_algorithm_is_refused() {
    assert!(matches!(Tuner::new("yin", 16, 44000), Err(TunerError::UnknownAlgorithm)));
    assert_eq!(detector_for("rawfft"), Ok(Detector::RawFftDetector));
    assert_eq!(detector_for("power"), Ok(Detector::PowerCepstrum));
    assert_eq!(detector_for("complex"), Ok(Detector::ComplexCepstrum));
    assert_eq!(detector_for("autocorrelation"), Ok(Detector::AutocorrelationDetector));
    assert_eq!(detector_for("marco"), Ok(Detector::MarcoDetector));
    assert_eq!(detector_for("Power"), Err(TunerError::UnknownAlgorithm));
    assert_eq!(detector_for(""), Err(TunerError::UnknownAlgorithm));
}

#[test]
fn odd_length_buffer_changes_nothing() {
    let mut tuner = Tuner::new("power", 8, 44000).unwrap();
    assert_eq!(tuner.ingest(&pcm_bytes(&[5, 6, 7])).unwrap().len(), 0);
    let before = tuner.buffered();
    assert_eq!(tuner.ingest(&[1, 2, 3]), Err(TunerError::OddBufferLength));
    assert_eq!(tuner.buffered(), before);
    assert_eq!(tuner.remaining_capacity(), 5);
    assert_eq!(tuner.one_shot_frame(&[9]), Err(TunerError::OddBufferLength));
}

#[test]
fn chunked_frame_matches_one_shot() {
    let capacity = 17600;
    let samples = ramp(capacity);
    let bytes = pcm_bytes(&samples);
    for chunk in [1024usize, 2048, 4096, 8192, 16384] {
        let mut tuner = Tuner::new("autocorrelation", capacity, 44000).unwrap();
        let mut emitted = Vec::new();
        let pieces: Vec<&[u8]> = bytes.chunks(chunk).collect();
        for (k, piece) in pieces.iter().enumerate() {
            let frames = tuner.ingest(piece).unwrap();
            if k + 1 < pieces.len() {
                assert!(frames.is_empty());
            }
            emitted.extend(frames);
        }
        assert_eq!(emitted.len(), 1);
        assert_eq!(emitted[0], samples);
        assert_eq!(tuner.one_shot_frame(&bytes).unwrap(), emitted[0]);
        assert_eq!(tuner.remaining_capacity(), capacity);
    }
}

#[test]
fn same_frame_twice_gives_same_frame() {
    let samples = ramp(64);
    let bytes = pcm_bytes(&samples);
    let mut tuner = Tuner::new("rawfft", 64, 8000).unwrap();
    let first = tuner.ingest(&bytes).unwrap();
    let second = tuner.ingest(&bytes).unwrap();
    assert_eq!(first, vec![samples.clone()]);
    assert_eq!(first, second);
    assert!(tuner.buffered().is_empty());
}

#[test]
fn oversized_chunk_emits_whole_frames() {
    let samples = ramp(350);
    let mut tuner = Tuner::new("complex", 100, 44000).unwrap();
    let frames = tuner.ingest(&pcm_bytes(&samples)).unwrap();
    assert_eq!(frames.len(), 3);
    for (k, f) in frames.iter().enumerate() {
        assert_eq!(f.as_slice(), &samples[k * 100..k * 100 + 100]);
    }
    assert_eq!(tuner.buffered(), samples[300..].to_vec());
    assert_eq!(tuner.remaining_capacity(), 50);
}

#[test]
fn pending_samples_join_the_next_chunk() {
    let samples = ramp(30);
    let mut buffer = FrameBuffer::new(12);
    assert!(buffer.push_samples(&samples[..7]).is_empty());
    let frames = buffer.push_samples(&samples[7..]);
    assert_eq!(frames, vec![samples[..12].to_vec(), samples[12..24].to_vec()]);
    assert_eq!(buffer.buffered(), samples[24..].to_vec());
    assert_eq!(buffer.remaining_capacity(), 6);
    assert_eq!(buffer.capacity(), 12);
    buffer.reset();
    assert!(buffer.buffered().is_empty());
    assert_eq!(buffer.remaining_capacity(), 12);
}

#[test]
fn one_shot_pads_and_truncates() {
    let tuner = Tuner::new("power", 4, 44000).unwrap();
    assert_eq!(tuner.one_shot_frame(&pcm_bytes(&[1, 2])).unwrap(), vec![1, 2, 0, 0]);
    assert_eq!(tuner.one_shot_frame(&pcm_bytes(&[1, 2, 3, 4, 5, 6])).unwrap(), vec![1, 2, 3, 4]);
}

#[test]
fn switching_algorithm_keeps_buffer() {
    let samples = ramp(10);
    let mut tuner = Tuner::new("autocorrelation", 8, 44000).unwrap();
    tuner.ingest(&pcm_bytes(&samples[..5])).unwrap();
    assert_eq!(tuner.set_algorithm("power"), Ok(()));
    assert_eq!(tuner.detector(), Detector::PowerCepstrum);
    assert_eq!(tuner.buffered(), samples[..5].to_vec());
    let frames = tuner.ingest(&pcm_bytes(&samples[5..])).unwrap();
    assert_eq!(frames, vec![samples[..8].to_vec()]);
    assert_eq!(tuner.set_algorithm("nope"), Err(TunerError::UnknownAlgorithm));
    assert_eq!(tuner.detector(), Detector::PowerCepstrum);
    assert_eq!(tuner.sample_rate(), 44000);
    assert_eq!(tuner.capacity(), 8);
}

#[test]
fn changing_algorithm_needs_a_tuner() {
    let mut slot: Option<Tuner> = None;
    assert_eq!(tuner_change_algorithm(&mut slot, "power"), Err(TunerError::TunerNotInitialized));
    assert_eq!(change_algorithm(&mut slot, "power".to_string()), Err(TunerError::TunerNotInitialized));
    slot = Some(Tuner::new("rawfft", 16, 44000).unwrap());
    assert_eq!(change_algorithm(&mut slot, "marco".to_string()), Ok(()));
    assert_eq!(slot.as_ref().unwrap().detector(), Detector::MarcoDetector);
    assert_eq!(tuner_change_algorithm(&mut slot, "bogus"), Err(TunerError::UnknownAlgorithm));
    assert_eq!(slot.as_ref().unwrap().detector(), Detector::MarcoDetector);
    tuner_change_algorithm(&mut slot, "complex").unwrap();
    assert_eq!(slot.unwrap().detector(), Detector::ComplexCepstrum);
}

#[test]
fn it_works() {}
