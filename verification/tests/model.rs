use aetherion::audio::AudioBuffer;
use aetherion::config::WhisperConfig;
use aetherion::whisper::{
    WhisperModel, WhisperError, DecodeState, decode_transition, detokenize, TOKEN_EOT,
    MAX_TOKENS, MIN_SAMPLES,
};
use aetherion::pipeline::TranscriptionPipeline;

#[test]
fn test_whisper_config_tiny() {
    let config = WhisperConfig::tiny();
    assert_eq!(config.n_vocab, 51864);
    assert_eq!(config.n_audio_layer, 4);
    assert_eq!(config.n_text_layer, 4);
    assert_eq!(config.n_audio_state, 384);
}

#[test]
fn test_whisper_config_base() {
    let config = WhisperConfig::base();
    assert_eq!(config.n_vocab, 51864);
    assert_eq!(config.n_audio_layer, 6);
    assert_eq!(config.n_text_layer, 6);
    assert_eq!(config.n_audio_state, 512);
}

#[test]
fn test_whisper_model_creation() {
    let config = WhisperConfig::tiny();
    let model = WhisperModel::new(config.clone());
    assert_eq!(model.config.n_vocab, config.n_vocab);
}

#[test]
fn test_audio_buffer_creation() {
    let buffer = AudioBuffer::new(16000, 1000); // 1 second
    assert_eq!(buffer.sample_rate, 16000);
    assert_eq!(buffer.capacity, 16000);
}

#[test]
fn test_audio_buffer_push() {
    let mut buffer = AudioBuffer::new(16000, 100); // 100ms = 1600 samples
    let samples = vec![1, 2, 3, 4, 5];

    buffer.push(&samples);
    assert_eq!(buffer.get_samples().len(), 5);
}

#[test]
fn test_audio_buffer_overflow() {
    let mut buffer = AudioBuffer::new(16000, 10); // Only 160 samples capacity
    let samples = vec![0i16; 200];

    buffer.push(&samples);

    // Should not exceed capacity
    assert!(buffer.get_samples().len() <= 160);
}

#[test]
fn test_audio_buffer_overflow_keeps_oldest() {
    let mut buffer = AudioBuffer::new(16000, 10); // 160 samples capacity
    let first: Vec<i16> = (0..150).collect();
    let second: Vec<i16> = (1000..1100).collect();
    buffer.push(&first);
    buffer.push(&second);
    let stored = buffer.get_samples();
    // exactly at capacity: the first 150 plus the first 10 of the second
    assert_eq!(stored.len(), 160);
    assert_eq!(stored[149], 149);
    assert_eq!(stored[150], 1000);
    assert_eq!(stored[159], 1009);
}

#[test]
fn test_audio_buffer_clear() {
    let mut buffer = AudioBuffer::new(16000, 10);
    buffer.push(&vec![7i16; 32]);
    assert_eq!(buffer.len(), 32);
    buffer.clear();
    assert_eq!(buffer.len(), 0);
    assert_eq!(buffer.capacity, 160);
}

fn push_u32(out: &mut Vec<u8>, v: u32) {
    out.extend_from_slice(&[v as u8, (v >> 8) as u8, (v >> 16) as u8, (v >> 24) as u8]);
}

fn push_i64(out: &mut Vec<u8>, v: i64) {
    let u = v as u64;
    for b in 0..8 {
        out.push((u >> (8 * b)) as u8);
    }
}

/// A deliberately small architecture whose weight table fits in a test.
fn small_config() -> WhisperConfig {
    WhisperConfig::new(30, 2, 4, 1, 1, 1)
}

/// Serialize a complete weight table for `small_config`, every value
/// set from a simple pattern.
fn small_weights() -> Vec<u8> {
    let c = small_config();
    let mut out: Vec<u8> = Vec::new();
    out.extend_from_slice(b"WTBL");
    push_u32(&mut out, 1); // version
    let count = 3 + 6 * c.n_audio_layer + 10 * c.n_text_layer;
    push_u32(&mut out, count as u32);
    for i in 0..count {
        let name = format!("tensor{}", i);
        push_u32(&mut out, name.len() as u32);
        out.extend_from_slice(name.as_bytes());
        let dims: Vec<usize> = if i == 0 {
            vec![c.n_vocab, c.n_audio_state]
        } else if i == 1 {
            vec![c.n_mels, c.n_audio_state]
        } else if i == 2 {
            vec![c.n_audio_state, c.n_vocab]
        } else {
            vec![c.n_audio_state, c.n_audio_state]
        };
        push_u32(&mut out, dims.len() as u32);
        for &d in &dims {
            push_u32(&mut out, d as u32);
        }
        let n: usize = dims.iter().product();
        for k in 0..n {
            push_i64(&mut out, ((k % 7) as i64 - 3) * 4096);
        }
    }
    out
}

#[test]
fn test_load_weights_success() {
    let mut model = WhisperModel::new(small_config());
    assert!(model.load_weights(&small_weights()).is_ok());
}

#[test]
fn test_load_weights_bad_magic() {
    let mut model = WhisperModel::new(small_config());
    let mut data = small_weights();
    data[0] = b'X';
    assert_eq!(model.load_weights(&data).unwrap_err(), WhisperError::WeightFormatError);
}

#[test]
fn test_load_weights_bad_version() {
    let mut model = WhisperModel::new(small_config());
    let mut data = small_weights();
    data[4] = 9;
    assert_eq!(model.load_weights(&data).unwrap_err(), WhisperError::WeightFormatError);
}

#[test]
fn test_load_weights_truncated() {
    let mut model = WhisperModel::new(small_config());
    let data = small_weights();
    let cut = &data[..data.len() - 5];
    assert_eq!(model.load_weights(cut).unwrap_err(), WhisperError::WeightFormatError);
}

#[test]
fn test_load_weights_wrong_count() {
    let mut model = WhisperModel::new(small_config());
    let mut data = small_weights();
    data[8] = data[8] + 1;
    assert_eq!(model.load_weights(&data).unwrap_err(), WhisperError::WeightShapeError);
}

#[test]
fn test_load_weights_wrong_shape() {
    // a table serialized for a wider hidden state does not fit
    let wide = WhisperConfig::new(30, 2, 2, 1, 1, 1);
    let mut model = WhisperModel::new(wide);
    assert_eq!(
        model.load_weights(&small_weights()).unwrap_err(),
        WhisperError::WeightShapeError
    );
}

#[test]
fn test_transcribe_without_weights() {
    let model = WhisperModel::new(small_config());
    let samples = vec![0i16; 1600];
    assert_eq!(model.transcribe(&samples).unwrap_err(), WhisperError::InferenceError);
}

#[test]
fn test_transcribe_short_audio() {
    let mut model = WhisperModel::new(small_config());
    model.load_weights(&small_weights()).unwrap();
    let samples = vec![0i16; MIN_SAMPLES - 1];
    assert_eq!(model.transcribe(&samples).unwrap_err(), WhisperError::AudioTooShortError);
}

#[test]
fn test_transcribe_produces_bounded_result() {
    let mut model = WhisperModel::new(small_config());
    model.load_weights(&small_weights()).unwrap();
    let samples: Vec<i16> = (0..4000).map(|k| ((k * 37) % 251) as i16 - 125).collect();
    let result = model.transcribe(&samples).unwrap();
    assert!(result.confidence >= 0);
    assert!(result.confidence <= 65536);
    assert!(result.text.len() <= MAX_TOKENS);
    let alphabet = "abcdefghijklmnopqrstuvwxyz ";
    for &c in result.text.iter() {
        assert!(alphabet.contains(c));
    }
}

#[test]
fn test_decode_transition_rules() {
    // first token that is not end-of-sequence keeps decoding
    assert_eq!(decode_transition(DecodeState::Start, false, 5, 1, 8), DecodeState::Decoding);
    // end-of-sequence completes from either live state
    assert_eq!(
        decode_transition(DecodeState::Start, false, TOKEN_EOT, 1, 8),
        DecodeState::Complete
    );
    assert_eq!(
        decode_transition(DecodeState::Decoding, false, TOKEN_EOT, 3, 8),
        DecodeState::Complete
    );
    // the length bound completes
    assert_eq!(decode_transition(DecodeState::Decoding, false, 5, 8, 8), DecodeState::Complete);
    // a fault aborts a live state
    assert_eq!(decode_transition(DecodeState::Decoding, true, 5, 2, 8), DecodeState::Aborted);
    // final states never change
    assert_eq!(decode_transition(DecodeState::Complete, true, 5, 2, 8), DecodeState::Complete);
    assert_eq!(decode_transition(DecodeState::Aborted, false, 5, 2, 8), DecodeState::Aborted);
}

#[test]
fn test_detokenize_table() {
    // tokens below the character base spell nothing
    let tokens = vec![2usize, 3, 0, 1, 28, 27 + 2];
    let text = detokenize(&tokens);
    assert_eq!(text, vec!['a', 'b', ' ', 'a']);
}

#[test]
fn test_pipeline_full_round() {
    let mut p = TranscriptionPipeline::new(small_config(), 16000, 1000);
    assert!(p.load_weights(&small_weights()).is_ok());
    let samples: Vec<i16> = (0..2000).map(|k| ((k * 13) % 200) as i16 - 100).collect();
    p.push_audio(&samples);
    let result = p.process().unwrap();
    assert!(result.confidence >= 0 && result.confidence <= 65536);
    // the buffer was drained for the next utterance
    assert_eq!(p.buffer.len(), 0);
}

#[test]
fn test_pipeline_too_short_keeps_audio() {
    let mut p = TranscriptionPipeline::new(small_config(), 16000, 1000);
    p.load_weights(&small_weights()).unwrap();
    p.push_audio(&vec![5i16; 100]);
    assert_eq!(p.process().unwrap_err(), WhisperError::AudioTooShortError);
    assert_eq!(p.buffer.len(), 100);
}

#[test]
fn test_pipeline_rejects_unloaded_model() {
    let mut p = TranscriptionPipeline::new(small_config(), 16000, 100);
    p.push_audio(&vec![0i16; 800]);
    assert_eq!(p.process().unwrap_err(), WhisperError::InferenceError);
}

#[test]
fn test_transcribe_is_a_function_of_weights_and_samples() {
    // the contract pins the result to the weight table and the samples:
    // two identically loaded models must transcribe identically
    let mut a = WhisperModel::new(small_config());
    let mut b = WhisperModel::new(small_config());
    a.load_weights(&small_weights()).unwrap();
    b.load_weights(&small_weights()).unwrap();
    let samples: Vec<i16> = (0..3000).map(|k| ((k * 91) % 401) as i16 - 200).collect();
    let ra = a.transcribe(&samples).unwrap();
    let rb = b.transcribe(&samples).unwrap();
    assert_eq!(ra.text, rb.text);
    assert_eq!(ra.confidence, rb.confidence);
}
