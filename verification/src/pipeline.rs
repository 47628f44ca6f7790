//! Orchestration: audio samples are admitted into the bounded buffer;
//! on demand the pipeline drains the buffer, runs the model and hands
//! back the transcription result.

use vstd::prelude::*;
use crate::audio::AudioBuffer;
use crate::config::WhisperConfig;
use crate::fixed::FX_ONE;
use crate::whisper::{
    WhisperModel, WhisperError, TranscriptionResult, alphabet, MIN_SAMPLES, MAX_TOKENS,
};

verus! {

/// Audio buffer and model, wired together.
#[derive(Debug)]
pub struct TranscriptionPipeline {
    /// The speech model, weights loaded once at startup.
    pub model: WhisperModel,
    /// The bounded store the capture path feeds.
    pub buffer: AudioBuffer,
}

impl TranscriptionPipeline {
    /// Both components keep their structural invariants.
    pub open spec fn wf(&self) -> bool {
        &&& self.model.wf()
        &&& self.buffer.wf()
    }

    /// Build a pipeline for the given architecture with a capture buffer
    /// of `buffer_ms` milliseconds at `sample_rate` hertz.
    pub fn new(config: WhisperConfig, sample_rate: u32, buffer_ms: u32) -> (p:
        TranscriptionPipeline)
        requires
            sample_rate as int * buffer_ms as int / 1000 <= usize::MAX as int,
        ensures
            p.wf(),
            p.model.spec_config() == config,
            !p.model.spec_loaded(),
            p.buffer.sample_rate == sample_rate,
            p.buffer.capacity as int == sample_rate as int * buffer_ms as int / 1000,
            p.buffer.spec_samples() == Seq::<i16>::empty(),
    {
        TranscriptionPipeline {
            model: WhisperModel::new(config),
            buffer: AudioBuffer::new(sample_rate, buffer_ms),
        }
    }

    /// Load the model's weight table; see `WhisperModel::load_weights`.
    pub fn load_weights(&mut self, data: &[u8]) -> (r: Result<(), WhisperError>)
        requires
            old(self).wf(),
        ensures
            final(self).wf(),
            final(self).model.spec_config() == old(self).model.spec_config(),
            final(self).buffer == old(self).buffer,
            r == crate::whisper::load_weights_spec(data@, old(self).model.spec_config()),
            match r {
                Ok(()) => final(self).model.spec_loaded(),
                Err(e) => !final(self).model.spec_loaded() && (e
                    == WhisperError::WeightFormatError || e == WhisperError::WeightShapeError),
            },
    {
        self.model.load_weights(data)
    }

    /// Admit captured samples into the buffer (bounded admission; the
    /// excess is dropped).
    pub fn push_audio(&mut self, samples: &[i16])
        requires
            old(self).wf(),
        ensures
            final(self).wf(),
            final(self).model == old(self).model,
            final(self).buffer.capacity == old(self).buffer.capacity,
            final(self).buffer.sample_rate == old(self).buffer.sample_rate,
            final(self).buffer.spec_samples() == old(self).buffer.spec_samples()
                + samples@.take(
                if samples@.len() <= old(self).buffer.capacity - old(
                    self,
                ).buffer.spec_samples().len() {
                    samples@.len() as int
                } else {
                    old(self).buffer.capacity - old(self).buffer.spec_samples().len()
                },
            ),
    {
        self.buffer.push(samples);
    }

    /// Drain the buffer and transcribe what it held.  On success the
    /// buffer is left empty for the next utterance; a failed invocation
    /// leaves the stored samples untouched, and both components stay
    /// valid and reusable either way.
    pub fn process(&mut self) -> (r: Result<TranscriptionResult, WhisperError>)
        requires
            old(self).wf(),
        ensures
            final(self).wf(),
            final(self).model == old(self).model,
            final(self).buffer.capacity == old(self).buffer.capacity,
            final(self).buffer.sample_rate == old(self).buffer.sample_rate,
            match r {
                Ok(res) => {
                    &&& old(self).model.spec_loaded()
                    &&& old(self).buffer.spec_samples().len() >= MIN_SAMPLES
                    &&& final(self).buffer.spec_samples() == Seq::<i16>::empty()
                    &&& 0 <= res.confidence <= FX_ONE
                    &&& res.text@.len() <= MAX_TOKENS
                    &&& forall|i: int|
                        0 <= i < res.text@.len() ==> alphabet().contains(#[trigger] res.text@[i])
                    &&& res.text@ == crate::whisper::transcribe_spec(
                        old(self).model.spec_weights(),
                        old(self).model.spec_config(),
                        old(self).buffer.spec_samples(),
                    ).0
                    &&& res.confidence as int == crate::whisper::transcribe_spec(
                        old(self).model.spec_weights(),
                        old(self).model.spec_config(),
                        old(self).buffer.spec_samples(),
                    ).1
                },
                Err(e) => {
                    &&& final(self).buffer == old(self).buffer
                    &&& (e == WhisperError::InferenceError <==> !old(self).model.spec_loaded())
                    &&& (e == WhisperError::AudioTooShortError <==> old(
                        self,
                    ).model.spec_loaded() && old(self).buffer.spec_samples().len()
                        < MIN_SAMPLES)
                    &&& (e == WhisperError::InferenceError || e
                        == WhisperError::AudioTooShortError)
                },
            },
    {
        let samples = self.buffer.get_samples();
        match self.model.transcribe(samples.as_slice()) {
            Ok(res) => {
                self.buffer.clear();
                Ok(res)
            },
            Err(e) => Err(e),
        }
    }
}

} // verus!
