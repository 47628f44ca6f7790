//! Immutable architecture description of the speech model: vocabulary
//! size, encoder/decoder depth, hidden width, attention heads and mel
//! bins, with the two canonical presets.

use vstd::prelude::*;

verus! {

/// Architecture parameters of a transformer speech model.  Immutable
/// once built; models copy it rather than share it.
#[derive(Debug, Clone, Copy, PartialEq, Eq, Structural)]
pub struct WhisperConfig {
    /// Number of entries in the token vocabulary.
    pub n_vocab: usize,
    /// Number of mel bins produced by feature extraction.
    pub n_mels: usize,
    /// Hidden width of both the audio encoder and the text decoder.
    pub n_audio_state: usize,
    /// Number of attention heads per layer.
    pub n_audio_head: usize,
    /// Number of transformer layers in the audio encoder.
    pub n_audio_layer: usize,
    /// Number of transformer layers in the text decoder.
    pub n_text_layer: usize,
}

impl WhisperConfig {
    /// General constructor for custom architectures.
    pub fn new(
        n_vocab: usize,
        n_mels: usize,
        n_audio_state: usize,
        n_audio_head: usize,
        n_audio_layer: usize,
        n_text_layer: usize,
    ) -> (c: WhisperConfig)
        ensures
            c.n_vocab == n_vocab,
            c.n_mels == n_mels,
            c.n_audio_state == n_audio_state,
            c.n_audio_head == n_audio_head,
            c.n_audio_layer == n_audio_layer,
            c.n_text_layer == n_text_layer,
    {
        WhisperConfig { n_vocab, n_mels, n_audio_state, n_audio_head, n_audio_layer, n_text_layer }
    }

    /// The tiny preset: 51864 tokens, four encoder and four decoder
    /// layers, hidden width 384.
    pub fn tiny() -> (c: WhisperConfig)
        ensures
            c.n_vocab == 51864,
            c.n_mels == 80,
            c.n_audio_state == 384,
            c.n_audio_head == 6,
            c.n_audio_layer == 4,
            c.n_text_layer == 4,
    {
        WhisperConfig {
            n_vocab: 51864,
            n_mels: 80,
            n_audio_state: 384,
            n_audio_head: 6,
            n_audio_layer: 4,
            n_text_layer: 4,
        }
    }

    /// The base preset: 51864 tokens, six encoder and six decoder
    /// layers, hidden width 512.
    pub fn base() -> (c: WhisperConfig)
        ensures
            c.n_vocab == 51864,
            c.n_mels == 80,
            c.n_audio_state == 512,
            c.n_audio_head == 8,
            c.n_audio_layer == 6,
            c.n_text_layer == 6,
    {
        WhisperConfig {
            n_vocab: 51864,
            n_mels: 80,
            n_audio_state: 512,
            n_audio_head: 8,
            n_audio_layer: 6,
            n_text_layer: 6,
        }
    }
}

} // verus!
