//! Transformer speech model: owns an architecture description and a table
//! of weight tensors, and turns raw audio samples into text through
//! feature extraction, an audio encoder and an autoregressive text
//! decoder, all built from the tensor primitives.

use vstd::prelude::*;
use crate::config::WhisperConfig;
use crate::tensor::{Tensor, shape_product, mm_entry, softmax_out, ln_out};
use crate::fixed::FX_ONE;

verus! {

/// Failures of weight loading and inference.
#[derive(Debug, Clone, Copy, PartialEq, Eq, Structural)]
pub enum WhisperError {
    /// The weight container is structurally malformed.
    WeightFormatError,
    /// A stored tensor's shape disagrees with the shape the
    /// configuration implies.
    WeightShapeError,
    /// Weights are not loaded, so no inference can run.
    InferenceError,
    /// Fewer samples than one analysis window.
    AudioTooShortError,
}

/// States of the autoregressive decode loop.
#[derive(Debug, Clone, Copy, PartialEq, Eq, Structural)]
pub enum DecodeState {
    /// No token emitted yet.
    Start,
    /// At least one token emitted, neither end-of-sequence nor the
    /// length bound reached.
    Decoding,
    /// End-of-sequence emitted or the length bound reached.
    Complete,
    /// A fatal fault surfaced mid-decode.
    Aborted,
}

/// Token that opens every decoded sequence.
pub const TOKEN_SOT: usize = 0;

/// Token that closes a decoded sequence.
pub const TOKEN_EOT: usize = 1;

/// First token that stands for a character of the output alphabet.
pub const TOKEN_CHAR_BASE: usize = 2;

/// Samples in one analysis window; also the minimum number of samples
/// `transcribe` accepts.
pub const MIN_SAMPLES: usize = 400;

/// Samples between the starts of two consecutive analysis windows.
pub const HOP: usize = 160;

/// Most analysis frames one transcription examines.
pub const MAX_FRAMES: usize = 100;

/// Most tokens one transcription emits, end-of-sequence included.
pub const MAX_TOKENS: usize = 32;

/// Next state of the decode machine after one step.
///
/// From `Start`, emitting the first token moves to `Decoding`, or
/// straight to `Complete` when that token already ends the sequence or
/// fills the length bound.  From `Decoding`, the machine stays in
/// `Decoding` while the token is not end-of-sequence and the emitted
/// count is below the bound, and moves to `Complete` otherwise.  A fatal
/// fault moves any live state to `Aborted`; the two final states never
/// change.
pub open spec fn decode_transition_spec(
    state: DecodeState,
    fault: bool,
    token: usize,
    produced: usize,
    max: usize,
) -> DecodeState {
    match state {
        DecodeState::Complete => DecodeState::Complete,
        DecodeState::Aborted => DecodeState::Aborted,
        _ => {
            if fault {
                DecodeState::Aborted
            } else if token == TOKEN_EOT || produced >= max {
                DecodeState::Complete
            } else {
                DecodeState::Decoding
            }
        },
    }
}

/// One step of the decode state machine; `produced` counts the tokens
/// emitted including the one just decided.
pub fn decode_transition(
    state: DecodeState,
    fault: bool,
    token: usize,
    produced: usize,
    max: usize,
) -> (s: DecodeState)
    ensures
        s == decode_transition_spec(state, fault, token, produced, max),
{
    match state {
        DecodeState::Complete => DecodeState::Complete,
        DecodeState::Aborted => DecodeState::Aborted,
        _ => {
            if fault {
                DecodeState::Aborted
            } else if token == TOKEN_EOT || produced >= max {
                DecodeState::Complete
            } else {
                DecodeState::Decoding
            }
        },
    }
}

/// Result of one transcription: the recognized characters, a confidence
/// score in `[0, FX_ONE]`, and a processing-time measurement that the
/// surrounding system fills in (this core reads no clock).
#[derive(Debug, Clone)]
pub struct TranscriptionResult {
    /// Recognized text, as a sequence of alphabet characters.
    pub text: Vec<char>,
    /// Mean probability of the chosen tokens, in fixed point.
    pub confidence: i64,
    /// Wall-clock milliseconds, supplied by the caller.
    pub processing_time_ms: u64,
}

/// Number of tensors the weight table of a configuration holds: three
/// shared tables (token embedding, feature projection, output
/// projection), six square matrices per encoder layer and ten per
/// decoder layer.
pub open spec fn expected_weight_count(c: WhisperConfig) -> int {
    3 + 6 * c.n_audio_layer as int + 10 * c.n_text_layer as int
}

/// Shape the configuration implies for weight tensor `i`.
pub open spec fn expected_shape(c: WhisperConfig, i: int) -> Seq<usize> {
    if i == 0 {
        seq![c.n_vocab, c.n_audio_state]
    } else if i == 1 {
        seq![c.n_mels, c.n_audio_state]
    } else if i == 2 {
        seq![c.n_audio_state, c.n_vocab]
    } else {
        seq![c.n_audio_state, c.n_audio_state]
    }
}

/// An architecture a weight table can exist for: at least the special
/// tokens plus one character in the vocabulary, a positive hidden width
/// and at least one mel bin.
pub open spec fn config_usable(c: WhisperConfig) -> bool {
    &&& c.n_vocab >= 3
    &&& c.n_audio_state >= 1
    &&& c.n_mels >= 1
}

/// Little-endian unsigned 32-bit value at `off`.
pub open spec fn u32_at(d: Seq<u8>, off: int) -> int
    recommends
        0 <= off,
        off + 4 <= d.len(),
{
    d[off] as int + d[off + 1] as int * 0x100 + d[off + 2] as int * 0x10000 + d[off + 3] as int
        * 0x1000000
}

/// Whether the dimension dwords stored at `off` spell exactly the shape
/// the configuration implies for tensor `i`.
pub open spec fn stored_dims_match(d: Seq<u8>, off: int, rank: int, c: WhisperConfig, i: int) -> bool {
    &&& rank == expected_shape(c, i).len()
    &&& forall|j: int|
        0 <= j < rank ==> u32_at(d, off + 4 * j) == #[trigger] expected_shape(c, i)[j] as int
}

/// Outcome of reading one serialized tensor entry at `off`: the offset
/// after it, or the first error its bytes force.
pub open spec fn parse_entry_spec(d: Seq<u8>, c: WhisperConfig, i: int, off: int) -> Result<
    int,
    WhisperError,
> {
    if d.len() - off < 4 {
        Err(WhisperError::WeightFormatError)
    } else {
        let name_len = u32_at(d, off);
        let o1 = off + 4;
        if name_len > 256 {
            Err(WhisperError::WeightFormatError)
        } else if d.len() - o1 < name_len {
            Err(WhisperError::WeightFormatError)
        } else {
            let o2 = o1 + name_len;
            if d.len() - o2 < 4 {
                Err(WhisperError::WeightFormatError)
            } else {
                let rank = u32_at(d, o2);
                let o3 = o2 + 4;
                if rank < 1 || rank > 4 {
                    Err(WhisperError::WeightFormatError)
                } else if d.len() - o3 < 4 * rank {
                    Err(WhisperError::WeightFormatError)
                } else if exists|j: int|
                    0 <= j < rank && #[trigger] u32_at(d, o3 + 4 * j) > usize::MAX as int {
                    Err(WhisperError::WeightFormatError)
                } else {
                    let o4 = o3 + 4 * rank;
                    if !stored_dims_match(d, o3, rank, c, i) {
                        Err(WhisperError::WeightShapeError)
                    } else {
                        let n = shape_product(expected_shape(c, i));
                        if n > usize::MAX as int {
                            Err(WhisperError::WeightFormatError)
                        } else if n > usize::MAX as int / 8 {
                            Err(WhisperError::WeightFormatError)
                        } else if d.len() - o4 < n * 8 {
                            Err(WhisperError::WeightFormatError)
                        } else {
                            Ok(o4 + n * 8)
                        }
                    }
                }
            }
        }
    }
}

/// Outcome of reading entries `i..n`, starting at `off`.
pub open spec fn parse_entries_spec(
    d: Seq<u8>,
    c: WhisperConfig,
    i: int,
    n: int,
    off: int,
) -> Result<(), WhisperError>
    decreases n - i,
{
    if i >= n {
        Ok(())
    } else {
        match parse_entry_spec(d, c, i, off) {
            Err(e) => Err(e),
            Ok(o2) => parse_entries_spec(d, c, i + 1, n, o2),
        }
    }
}

/// Outcome of loading a serialized weight table against a
/// configuration: success exactly when the buffer is a well-formed
/// container of the right version whose tensor count and shapes all
/// match the configuration.
pub open spec fn load_weights_spec(d: Seq<u8>, c: WhisperConfig) -> Result<(), WhisperError> {
    if !config_usable(c) {
        Err(WhisperError::WeightShapeError)
    } else if d.len() < 12 {
        Err(WhisperError::WeightFormatError)
    } else if !(d[0] == 87 && d[1] == 84 && d[2] == 66 && d[3] == 76) {
        Err(WhisperError::WeightFormatError)
    } else if u32_at(d, 4) != 1 {
        Err(WhisperError::WeightFormatError)
    } else if expected_weight_count(c) > usize::MAX as int {
        Err(WhisperError::WeightShapeError)
    } else if u32_at(d, 8) != expected_weight_count(c) {
        Err(WhisperError::WeightShapeError)
    } else {
        parse_entries_spec(d, c, 0, expected_weight_count(c), 12)
    }
}

/// Byte offset at which serialized tensor entry `i` starts; meaningful
/// while every earlier entry parses.
pub open spec fn entry_offset_spec(d: Seq<u8>, c: WhisperConfig, i: int) -> int
    decreases i,
{
    if i <= 0 {
        12
    } else {
        match parse_entry_spec(d, c, i - 1, entry_offset_spec(d, c, i - 1)) {
            Ok(o) => o,
            Err(_) => 0,
        }
    }
}

/// Byte offset of entry `i`'s element data: past its name, rank and
/// dimension dwords.
pub open spec fn entry_values_offset_spec(d: Seq<u8>, c: WhisperConfig, i: int) -> int {
    let off = entry_offset_spec(d, c, i);
    let o2 = off + 4 + u32_at(d, off);
    o2 + 4 + 4 * u32_at(d, o2)
}

/// The element values stored for tensor `i` of the table.
pub open spec fn weight_data_spec(d: Seq<u8>, c: WhisperConfig, i: int) -> Seq<i64> {
    Seq::new(
        shape_product(expected_shape(c, i)) as nat,
        |j: int| i64_le_at(d, entry_values_offset_spec(d, c, i) + 8 * j) as i64,
    )
}

/// Transformer speech model: one configuration (copied, not shared) and
/// a table of weight tensors, populated by an explicit load step and
/// read-only afterwards.
#[derive(Debug)]
pub struct WhisperModel {
    /// Architecture parameters this model was built for.
    pub config: WhisperConfig,
    weights: Vec<Tensor>,
    loaded: bool,
}

impl WhisperModel {
    /// The configuration, as seen by specifications.
    pub closed spec fn spec_config(&self) -> WhisperConfig {
        self.config
    }

    /// Whether a complete weight table is loaded.
    pub closed spec fn spec_loaded(&self) -> bool {
        self.loaded
    }

    /// The stored weight values, tensor by tensor, as seen by
    /// specifications.
    pub closed spec fn spec_weights(&self) -> Seq<Seq<i64>> {
        self.weights@.map(|i: int, t: Tensor| t.spec_data())
    }

    /// Structural invariant: whenever the model reports its weights
    /// loaded, the table is complete, every tensor is well formed, and
    /// every shape is the one the configuration implies.
    pub closed spec fn wf(&self) -> bool {
        self.loaded ==> {
            &&& config_usable(self.config)
            &&& self.weights@.len() == expected_weight_count(self.config)
            &&& forall|i: int|
                0 <= i < self.weights@.len() ==> #[trigger] self.weights@[i].wf()
                    && self.weights@[i].spec_shape() == expected_shape(self.config, i)
        }
    }

    /// Construct a model shell for the given architecture, with no
    /// weights loaded.
    pub fn new(config: WhisperConfig) -> (m: WhisperModel)
        ensures
            m.wf(),
            m.spec_config() == config,
            !m.spec_loaded(),
    {
        WhisperModel { config, weights: Vec::new(), loaded: false }
    }

    /// Populate the weight table from a serialized byte buffer (the
    /// versioned named-tensor container above).  On success the table is
    /// complete and every shape matches the configuration.  A
    /// structurally malformed buffer fails with `WeightFormatError`, a
    /// well-structured one whose tensor count or shapes disagree with
    /// the configuration fails with `WeightShapeError`, and on any
    /// failure the model keeps rejecting inference until a successful
    /// reload.
    #[verifier::rlimit(100)]
    #[verifier::spinoff_prover]
    pub fn load_weights(&mut self, data: &[u8]) -> (r: Result<(), WhisperError>)
        ensures
            final(self).spec_config() == old(self).spec_config(),
            final(self).wf(),
            r == load_weights_spec(data@, old(self).spec_config()),
            match r {
                Ok(()) => final(self).spec_loaded() && config_usable(final(self).spec_config())
                    && final(self).spec_weights().len() == expected_weight_count(
                    old(self).spec_config(),
                ) && (forall|k: int|
                    0 <= k < expected_weight_count(old(self).spec_config())
                        ==> #[trigger] final(self).spec_weights()[k] == weight_data_spec(
                        data@,
                        old(self).spec_config(),
                        k,
                    )),
                Err(e) => !final(self).spec_loaded() && (e == WhisperError::WeightFormatError
                    || e == WhisperError::WeightShapeError),
            },
    {
        self.loaded = false;
        self.weights = Vec::new();
        if !(self.config.n_vocab >= 3 && self.config.n_audio_state >= 1 && self.config.n_mels
            >= 1) {
            return Err(WhisperError::WeightShapeError);
        }
        let dlen: usize = data.len();
        // header: magic "WTBL", version 1, tensor count
        if dlen < 12 {
            return Err(WhisperError::WeightFormatError);
        }
        if !(data[0] == 87 && data[1] == 84 && data[2] == 66 && data[3] == 76) {
            return Err(WhisperError::WeightFormatError);
        }
        let version: u64 = read_u32_le(data, 4);
        if version != 1 {
            return Err(WhisperError::WeightFormatError);
        }
        let stored_count: u64 = read_u32_le(data, 8);
        let expected: usize = match expected_count_exec(&self.config) {
            Some(n) => n,
            None => {
                // no real buffer could hold that many tensors
                return Err(WhisperError::WeightShapeError);
            },
        };
        if stored_count != expected as u64 {
            return Err(WhisperError::WeightShapeError);
        }
        let mut off: usize = 12;
        let mut table: Vec<Tensor> = Vec::new();
        let mut i: usize = 0;
        while i < expected
            invariant
                0 <= i <= expected,
                expected as int == expected_weight_count(self.config),
                self.config == old(self).spec_config(),
                !self.loaded,
                config_usable(self.config),
                dlen == data@.len(),
                12 <= off <= dlen,
                table@.len() == i,
                forall|k: int|
                    0 <= k < i ==> #[trigger] table@[k].wf() && table@[k].spec_shape()
                        == expected_shape(self.config, k),
                forall|k: int|
                    0 <= k < i ==> #[trigger] table@[k].spec_data() == weight_data_spec(
                        data@,
                        self.config,
                        k,
                    ),
                off as int == entry_offset_spec(data@, self.config, i as int),
                load_weights_spec(data@, old(self).spec_config()) == parse_entries_spec(
                    data@,
                    self.config,
                    i as int,
                    expected as int,
                    off as int,
                ),
            decreases expected - i,
        {
            let ghost cfg = self.config;
            let ghost off0 = off as int;
            // name: length-prefixed bytes, recorded but not interpreted
            if dlen - off < 4 {
                return Err(WhisperError::WeightFormatError);
            }
            let name_len: u64 = read_u32_le(data, off);
            off = off + 4;
            if name_len > 256 {
                return Err(WhisperError::WeightFormatError);
            }
            if ((dlen - off) as u64) < name_len {
                return Err(WhisperError::WeightFormatError);
            }
            off = off + name_len as usize;
            let ghost o2 = off as int;
            // rank and dimensions
            if dlen - off < 4 {
                return Err(WhisperError::WeightFormatError);
            }
            let rank: u64 = read_u32_le(data, off);
            off = off + 4;
            let ghost o3 = off as int;
            if rank < 1 || rank > 4 {
                return Err(WhisperError::WeightFormatError);
            }
            let ghost name_len_g = name_len as int;
            let mut dims: Vec<usize> = Vec::new();
            let mut dj: usize = 0;
            while dj < rank as usize
                invariant
                    0 <= dj <= rank as usize,
                    1 <= rank <= 4,
                    self.config == old(self).spec_config(),
                    cfg == self.config,
                    config_usable(cfg),
                    !self.loaded,
                    dims@.len() == dj,
                    dlen == data@.len(),
                    off as int == o3 + 4 * dj as int,
                    off <= dlen,
                    12 <= o3 <= dlen,
                    0 <= i as int && (i as int) < expected as int,
                    load_weights_spec(data@, old(self).spec_config()) == parse_entries_spec(
                        data@,
                        cfg,
                        i as int,
                        expected as int,
                        off0,
                    ),
                    12 <= off0,
                    data@.len() - off0 >= 4,
                    name_len_g == u32_at(data@, off0),
                    name_len_g <= 256,
                    data@.len() - (off0 + 4) >= name_len_g,
                    o2 == off0 + 4 + name_len_g,
                    data@.len() - o2 >= 4,
                    rank as int == u32_at(data@, o2),
                    o3 == o2 + 4,
                    forall|j: int|
                        0 <= j < dj ==> #[trigger] u32_at(data@, o3 + 4 * j)
                            <= usize::MAX as int,
                    forall|j: int|
                        0 <= j < dj ==> #[trigger] dims@[j] as int == u32_at(
                            data@,
                            o3 + 4 * j,
                        ),
                decreases rank as usize - dj,
            {
                if dlen - off < 4 {
                    proof {
                        assert(data@.len() - o3 < 4 * rank as int);
                    }
                    return Err(WhisperError::WeightFormatError);
                }
                let d: u64 = read_u32_le(data, off);
                off = off + 4;
                if d > usize::MAX as u64 {
                    proof {
                        assert(u32_at(data@, o3 + 4 * dj as int) > usize::MAX as int);
                    }
                    return Err(WhisperError::WeightFormatError);
                }
                dims.push(d as usize);
                dj += 1;
            }
            let ghost o4 = off as int;
            proof {
                assert(data@.len() - o3 >= 4 * rank as int);
                assert(!(exists|j: int|
                    0 <= j < rank as int && #[trigger] u32_at(data@, o3 + 4 * j)
                        > usize::MAX as int));
            }
            let want: Vec<usize> = expected_dims_exec(&self.config, i);
            if !dims_equal(&dims, &want) {
                proof {
                    if stored_dims_match(data@, o3, rank as int, cfg, i as int) {
                        assert forall|j: int| 0 <= j < dims@.len() implies dims@[j]
                            == want@[j] by {
                            assert(u32_at(data@, o3 + 4 * j) == expected_shape(
                                cfg,
                                i as int,
                            )[j] as int);
                        }
                        assert(dims@ =~= want@);
                    }
                }
                return Err(WhisperError::WeightShapeError);
            }
            proof {
                assert forall|j: int|
                    0 <= j < rank as int implies u32_at(data@, o3 + 4 * j) == #[trigger]
                expected_shape(cfg, i as int)[j] as int by {
                    assert(dims@[j] == want@[j]);
                }
                assert(stored_dims_match(data@, o3, rank as int, cfg, i as int));
                assert(dims@ == want@);
            }
            // element data
            let n: usize = match crate::tensor::shape_count(dims.as_slice()) {
                Some(n) => n,
                None => {
                    // more elements than any real buffer could carry
                    return Err(WhisperError::WeightFormatError);
                },
            };
            if n > usize::MAX / 8 {
                return Err(WhisperError::WeightFormatError);
            }
            if dlen - off < n * 8 {
                return Err(WhisperError::WeightFormatError);
            }
            let mut vals: Vec<i64> = Vec::new();
            let mut vj: usize = 0;
            while vj < n
                invariant
                    0 <= vj <= n,
                    n <= usize::MAX as int / 8,
                    self.config == old(self).spec_config(),
                    !self.loaded,
                    dlen == data@.len(),
                    off + n * 8 <= dlen,
                    vals@.len() == vj,
                    forall|j: int|
                        0 <= j < vj ==> #[trigger] vals@[j] as int == i64_le_at(
                            data@,
                            off as int + 8 * j,
                        ),
                decreases n - vj,
            {
                vals.push(read_i64_le(data, off + vj * 8));
                vj += 1;
            }
            proof {
                assert(off as int == entry_values_offset_spec(data@, cfg, i as int));
            }
            off = off + n * 8;
            let t = match Tensor::from_slice(vals.as_slice(), dims.as_slice()) {
                Ok(t) => t,
                Err(_) => {
                    proof {
                        assert(false);
                    }
                    vstd::pervasive::unreached()
                },
            };
            proof {
                assert(parse_entry_spec(data@, cfg, i as int, off0) == Ok::<
                    int,
                    WhisperError,
                >(off as int));
                assert(t.spec_data() =~= weight_data_spec(data@, cfg, i as int));
            }
            table.push(t);
            i += 1;
        }
        self.weights = table;
        self.loaded = true;
        proof {
            assert forall|k: int|
                0 <= k < expected_weight_count(old(self).spec_config())
                    implies #[trigger] self.spec_weights()[k] == weight_data_spec(
                data@,
                old(self).spec_config(),
                k,
            ) by {
                assert(self.spec_weights()[k] == self.weights@[k].spec_data());
            }
        }
        Ok(())
    }

    /// Weight tensor `idx` of the loaded table.
    fn weight_ref(&self, idx: usize) -> (r: &Tensor)
        requires
            self.wf(),
            self.spec_loaded(),
            idx < expected_weight_count(self.spec_config()),
        ensures
            r.wf(),
            r.spec_shape() == expected_shape(self.spec_config(), idx as int),
            r.spec_data() == self.spec_weights()[idx as int],
    {
        proof {
            assert(idx < self.weights@.len());
            assert(self.weights@[idx as int].wf());
            assert(self.weights@[idx as int].spec_shape() == expected_shape(
                self.config,
                idx as int,
            ));
            assert(self.spec_weights()[idx as int] == self.weights@[idx as int].spec_data());
        }
        &self.weights[idx]
    }

    /// Turn raw audio samples into text: feature extraction, the audio
    /// encoder stack, then autoregressive decoding against the encoder
    /// output, stopping on end-of-sequence or the length bound.
    ///
    /// Fails with `InferenceError` exactly when no weight table is
    /// loaded, and with `AudioTooShortError` exactly when fewer samples
    /// than one analysis window arrive; with a loaded table the shapes
    /// of every intermediate tensor are consistent by construction, so
    /// no fault can arise mid-pipeline.  On success the text and the
    /// confidence are exactly the values `transcribe_spec` determines
    /// from the loaded weights and the samples; in particular the
    /// confidence lies in `[0, FX_ONE]`, every character of the text
    /// comes from the fixed alphabet, and at most `MAX_TOKENS`
    /// characters are produced.  The processing-time field is returned
    /// as zero: this core reads no clock, and the surrounding system
    /// fills the measurement in.
    #[verifier::rlimit(100)]
    #[verifier::spinoff_prover]
    pub fn transcribe(&self, samples: &[i16]) -> (r: Result<
        TranscriptionResult,
        WhisperError,
    >)
        requires
            self.wf(),
        ensures
            match r {
                Ok(res) => {
                    &&& self.spec_loaded()
                    &&& samples@.len() >= MIN_SAMPLES
                    &&& 0 <= res.confidence <= FX_ONE
                    &&& res.text@.len() <= MAX_TOKENS
                    &&& forall|i: int|
                        0 <= i < res.text@.len() ==> alphabet().contains(#[trigger] res.text@[i])
                    &&& res.processing_time_ms == 0
                    &&& res.text@ == transcribe_spec(
                        self.spec_weights(),
                        self.spec_config(),
                        samples@,
                    ).0
                    &&& res.confidence as int == transcribe_spec(
                        self.spec_weights(),
                        self.spec_config(),
                        samples@,
                    ).1
                },
                Err(e) => {
                    &&& (e == WhisperError::InferenceError <==> !self.spec_loaded())
                    &&& (e == WhisperError::AudioTooShortError <==> self.spec_loaded()
                        && samples@.len() < MIN_SAMPLES)
                    &&& (e == WhisperError::InferenceError || e
                        == WhisperError::AudioTooShortError)
                },
            },
    {
        if !self.loaded {
            return Err(WhisperError::InferenceError);
        }
        if samples.len() < MIN_SAMPLES {
            return Err(WhisperError::AudioTooShortError);
        }
        let d: usize = self.config.n_audio_state;
        let n_vocab: usize = self.config.n_vocab;
        let al: usize = self.config.n_audio_layer;
        let tl: usize = self.config.n_text_layer;
        let wcount: usize = self.weights.len();
        proof {
            assert(wcount as int == expected_weight_count(self.spec_config()));
        }
        // how many frames keep every row-major size addressable
        let by_d: usize = usize::MAX / d;
        proof {
            vstd::arithmetic::div_mod::lemma_div_non_zero(usize::MAX as int, d as int);
        }
        let fcap: usize = if by_d < MAX_FRAMES {
            by_d
        } else {
            MAX_FRAMES
        };
        proof {
            vstd::arithmetic::div_mod::lemma_fundamental_div_mod(usize::MAX as int, d as int);
            vstd::arithmetic::div_mod::lemma_mod_pos_bound(usize::MAX as int, d as int);
            vstd::arithmetic::mul::lemma_mul_inequality(
                fcap as int,
                usize::MAX as int / d as int,
                d as int,
            );
            vstd::arithmetic::mul::lemma_mul_is_commutative(
                usize::MAX as int / d as int,
                d as int,
            );
        }
        let n_mels: usize = self.config.n_mels;
        let by_m: usize = usize::MAX / n_mels;
        proof {
            vstd::arithmetic::div_mod::lemma_div_non_zero(usize::MAX as int, n_mels as int);
        }
        let tcap: usize = if by_m < fcap {
            by_m
        } else {
            fcap
        };
        proof {
            vstd::arithmetic::div_mod::lemma_fundamental_div_mod(
                usize::MAX as int,
                n_mels as int,
            );
            vstd::arithmetic::div_mod::lemma_mod_pos_bound(usize::MAX as int, n_mels as int);
            vstd::arithmetic::mul::lemma_mul_inequality(
                tcap as int,
                usize::MAX as int / n_mels as int,
                n_mels as int,
            );
            vstd::arithmetic::mul::lemma_mul_is_commutative(
                usize::MAX as int / n_mels as int,
                n_mels as int,
            );
        }
        // stage 1: features
        let ghost ws = self.spec_weights();
        let ghost cc = self.spec_config();
        let feats = extract_features(samples, n_mels, tcap);
        let wfeat = self.weight_ref(1);
        proof {
            vstd::arithmetic::mul::lemma_mul_inequality(
                feats.spec_shape()[0] as int,
                fcap as int,
                d as int,
            );
        }
        let mut x = mm(&feats, wfeat);
        let ghost tfr = feats.spec_shape()[0] as int;
        let ghost x0d = x.spec_data();
        proof {
            assert(x0d == mm_seq_spec(
                features_seq_spec(samples@, n_mels as int, tcap as int),
                ws[1],
                tfr,
                n_mels as int,
                d as int,
            ));
        }
        // stage 2: encoder stack
        let mut layer: usize = 0;
        while layer < al
            invariant
                0 <= layer <= al,
                self.wf(),
                self.spec_loaded(),
                d == self.spec_config().n_audio_state,
                al == self.spec_config().n_audio_layer,
                x.wf(),
                x.spec_shape().len() == 2,
                1 <= x.spec_shape()[0] <= 100,
                x.spec_shape()[0] <= fcap,
                x.spec_shape()[1] == d,
                fcap as int * d as int <= usize::MAX as int,
                fcap >= 1,
                fcap <= 100,
                tl == self.spec_config().n_text_layer,
                wcount as int == expected_weight_count(self.spec_config()),
                wcount as int == 3 + 6 * (al as int) + 10 * (tl as int),
                ws == self.spec_weights(),
                x.spec_shape()[0] as int == tfr,
                x.spec_data() == encode_layers_spec(ws, d as int, tfr, x0d, layer as int),
            decreases al - layer,
        {
            let base: usize = {
                proof {
                    assert(3 + 6 * (layer as int) + 5 < wcount as int) by (nonlinear_arith)
                        requires
                            0 <= layer as int && (layer as int) < al as int,
                            0 <= tl as int,
                            wcount as int == 3 + 6 * (al as int) + 10 * (tl as int),
                    ;
                }
                3 + 6 * layer
            };
            proof {
                vstd::arithmetic::mul::lemma_mul_inequality(
                    x.spec_shape()[0] as int,
                    fcap as int,
                    d as int,
                );
            }
            let y = encoder_block(
                &x,
                self.weight_ref(base),
                self.weight_ref(base + 1),
                self.weight_ref(base + 2),
                self.weight_ref(base + 3),
                self.weight_ref(base + 4),
                self.weight_ref(base + 5),
            );
            proof {
                assert(y.spec_data() == encode_layers_spec(
                    ws,
                    d as int,
                    tfr,
                    x0d,
                    layer as int + 1,
                ));
            }
            x = y;
            layer += 1;
        }
        let enc = x;
        let ghost encd = enc.spec_data();
        // stage 3: autoregressive decoding
        let emb = self.weight_ref(0);
        let proj = self.weight_ref(2);
        proof {
            crate::tensor::lemma_product_rank2(emb.spec_shape());
        }
        let gcap: usize = if fcap < MAX_TOKENS + 1 {
            fcap
        } else {
            MAX_TOKENS + 1
        };
        // context: embeddings of start-of-transcript plus the characters
        // generated so far
        let mut cvals: Vec<i64> = Vec::new();
        let first = row_of(emb, TOKEN_SOT);
        append_data(&mut cvals, &first);
        proof {
            crate::tensor::lemma_product_rank2(first.spec_shape());
            assert(first.spec_data().len() == d as int) by (nonlinear_arith)
                requires
                    first.spec_data().len() == 1 * d as int,
            ;
            assert(cvals@ =~= row_seq_spec(ws[0], d as int, TOKEN_SOT as int));
        }
        let ghost goal = decode_rest_spec(
            ws,
            cc,
            encd,
            tfr,
            row_seq_spec(ws[0], d as int, TOKEN_SOT as int),
            1,
            gcap as int,
            DecodeState::Start,
            0,
            0,
            Seq::empty(),
        );
        let mut grows: usize = 1;
        let mut tokens: Vec<usize> = Vec::new();
        let mut state: DecodeState = DecodeState::Start;
        let mut conf_sum: i128 = 0;
        let mut emitted: usize = 0;
        while !(matches!(state, DecodeState::Complete))
            invariant
                self.wf(),
                self.spec_loaded(),
                d == self.spec_config().n_audio_state,
                n_vocab == self.spec_config().n_vocab,
                n_vocab >= 3,
                tl == self.spec_config().n_text_layer,
                al == self.spec_config().n_audio_layer,
                wcount as int == expected_weight_count(self.spec_config()),
                wcount as int == 3 + 6 * (al as int) + 10 * (tl as int),
                emb.wf(),
                emb.spec_shape() == expected_shape(self.spec_config(), 0),
                proj.wf(),
                proj.spec_shape() == expected_shape(self.spec_config(), 2),
                enc.wf(),
                enc.spec_shape().len() == 2,
                1 <= enc.spec_shape()[0] <= 100,
                enc.spec_shape()[0] <= fcap,
                enc.spec_shape()[1] == d,
                fcap as int * d as int <= usize::MAX as int,
                1 <= fcap <= 100,
                1 <= gcap <= fcap,
                gcap <= MAX_TOKENS + 1,
                1 <= grows <= gcap,
                cvals@.len() == grows as int * d as int,
                state == DecodeState::Start || state == DecodeState::Decoding || state
                    == DecodeState::Complete,
                state == DecodeState::Start ==> emitted == 0,
                state == DecodeState::Decoding ==> 1 <= emitted < MAX_TOKENS,
                state == DecodeState::Complete ==> 1 <= emitted <= MAX_TOKENS,
                tokens@.len() == emitted,
                0 <= conf_sum as int <= emitted as int * 65536,
                ws == self.spec_weights(),
                cc == self.spec_config(),
                encd == enc.spec_data(),
                tfr == enc.spec_shape()[0] as int,
                emb.spec_data() == ws[0],
                proj.spec_data() == ws[2],
                decode_rest_spec(
                    ws,
                    cc,
                    encd,
                    tfr,
                    cvals@,
                    grows as int,
                    gcap as int,
                    state,
                    emitted as int,
                    conf_sum as int,
                    tokens@,
                ) == goal,
            decreases MAX_TOKENS - emitted,
        {
            let ghost ocv = cvals@;
            let ghost ogr = grows as int;
            let ghost ost = state;
            let ghost oem = emitted as int;
            let ghost ocs = conf_sum as int;
            let ghost otk = tokens@;
            // current context matrix and its last row
            let cmat = tensor_from(&cvals, grows, d);
            let y0 = row_of(&cmat, grows - 1);
            proof {
                assert(y0.spec_data() == row_seq_spec(ocv, d as int, ogr - 1));
            }
            let ghost y0d = y0.spec_data();
            let mut y = y0;
            let mut l: usize = 0;
            while l < tl
                invariant
                    0 <= l <= tl,
                    self.wf(),
                    self.spec_loaded(),
                    d == self.spec_config().n_audio_state,
                    tl == self.spec_config().n_text_layer,
                    al == self.spec_config().n_audio_layer,
                    wcount as int == expected_weight_count(self.spec_config()),
                    wcount as int == 3 + 6 * (al as int) + 10 * (tl as int),
                    enc.wf(),
                    enc.spec_shape().len() == 2,
                    1 <= enc.spec_shape()[0] <= 100,
                    enc.spec_shape()[0] <= fcap,
                    enc.spec_shape()[1] == d,
                    cmat.wf(),
                    cmat.spec_shape().len() == 2,
                    1 <= cmat.spec_shape()[0] <= 100,
                    cmat.spec_shape()[1] == d,
                    fcap as int * d as int <= usize::MAX as int,
                    1 <= fcap <= 100,
                    cmat.spec_shape()[0] <= fcap,
                    y.wf(),
                    y.spec_shape().len() == 2,
                    y.spec_shape()[0] == 1,
                    y.spec_shape()[1] == d,
                    ws == self.spec_weights(),
                    encd == enc.spec_data(),
                    cmat.spec_data() == ocv,
                    cmat.spec_shape()[0] as int == ogr,
                    enc.spec_shape()[0] as int == tfr,
                    y.spec_data() == decode_layers_spec(
                        ws,
                        al as int,
                        d as int,
                        y0d,
                        ocv,
                        encd,
                        ogr,
                        tfr,
                        l as int,
                    ),
                decreases tl - l,
            {
                let base: usize = {
                    proof {
                        assert(3 + 6 * (al as int) + 10 * (l as int) + 9
                            < wcount as int) by (nonlinear_arith)
                            requires
                                0 <= l as int && (l as int) < tl as int,
                                0 <= al as int,
                                wcount as int == 3 + 6 * (al as int) + 10 * (tl as int),
                        ;
                    }
                    3 + 6 * al + 10 * l
                };
                proof {
                    vstd::arithmetic::mul::lemma_mul_inequality(
                        cmat.spec_shape()[0] as int,
                        fcap as int,
                        d as int,
                    );
                    vstd::arithmetic::mul::lemma_mul_inequality(
                        enc.spec_shape()[0] as int,
                        fcap as int,
                        d as int,
                    );
                }
                let y2 = decoder_block(
                    &y,
                    &cmat,
                    &enc,
                    self.weight_ref(base),
                    self.weight_ref(base + 1),
                    self.weight_ref(base + 2),
                    self.weight_ref(base + 3),
                    self.weight_ref(base + 4),
                    self.weight_ref(base + 5),
                    self.weight_ref(base + 6),
                    self.weight_ref(base + 7),
                    self.weight_ref(base + 8),
                    self.weight_ref(base + 9),
                );
                proof {
                    assert(y2.spec_data() == decode_layers_spec(
                        ws,
                        al as int,
                        d as int,
                        y0d,
                        ocv,
                        encd,
                        ogr,
                        tfr,
                        l as int + 1,
                    ));
                }
                y = y2;
                l += 1;
            }
            // next-token distribution
            let mut logits = mm(&y, proj);
            let ghost lpre = logits.spec_data();
            logits.softmax();
            proof {
                crate::tensor::lemma_product_rank2(logits.spec_shape());
                assert(logits.spec_data().len() == n_vocab as int) by (nonlinear_arith)
                    requires
                        logits.spec_data().len() == 1 * n_vocab as int,
                ;
                assert(logits.spec_data() =~= softmax_seq_spec(lpre));
            }
            let ghost probs_s = softmax_seq_spec(
                mm_seq_spec(
                    decode_layers_spec(
                        ws,
                        al as int,
                        d as int,
                        row_seq_spec(ocv, d as int, ogr - 1),
                        ocv,
                        encd,
                        ogr,
                        tfr,
                        tl as int,
                    ),
                    ws[2],
                    1,
                    d as int,
                    cc.n_vocab as int,
                ),
            );
            proof {
                assert(logits.spec_data() == probs_s);
            }
            let picked = argmax_flat(&logits);
            let tok: usize = picked.0;
            let p: i64 = picked.1;
            conf_sum = conf_sum + p as i128;
            emitted += 1;
            tokens.push(tok);
            state = decode_transition(state, false, tok, emitted, MAX_TOKENS);
            if tok >= TOKEN_CHAR_BASE && grows < gcap {
                let erow = row_of(emb, tok);
                append_data(&mut cvals, &erow);
                proof {
                    crate::tensor::lemma_product_rank2(erow.spec_shape());
                    assert(erow.spec_data().len() == d as int) by (nonlinear_arith)
                        requires
                            erow.spec_data().len() == 1 * d as int,
                    ;
                    assert(grows as int * d as int + d as int == (grows as int + 1)
                        * d as int) by (nonlinear_arith);
                }
                grows += 1;
            }
            proof {
                let tok_s = argmax_seq_spec(probs_s);
                assert(tok_s == tok as int);
                assert(probs_s[tok_s] as int == p as int);
                assert(decode_rest_spec(
                    ws,
                    cc,
                    encd,
                    tfr,
                    ocv,
                    ogr,
                    gcap as int,
                    ost,
                    oem,
                    ocs,
                    otk,
                ) == decode_rest_spec(
                    ws,
                    cc,
                    encd,
                    tfr,
                    cvals@,
                    grows as int,
                    gcap as int,
                    state,
                    emitted as int,
                    conf_sum as int,
                    tokens@,
                ));
            }
        }
        proof {
            assert((tokens@, conf_sum as int) == goal);
            assert(transcribe_spec(ws, cc, samples@) == (
                detok_spec(goal.0),
                goal.1 / goal.0.len() as int,
            ));
        }
        let text = detokenize(&tokens);
        let confidence: i64 = {
            proof {
                vstd::arithmetic::div_mod::lemma_div_pos_is_pos(
                    conf_sum as int,
                    emitted as int,
                );
                vstd::arithmetic::div_mod::lemma_multiply_divide_le(
                    conf_sum as int,
                    emitted as int,
                    65536,
                );
                vstd::arithmetic::mul::lemma_mul_is_commutative(emitted as int, 65536);
            }
            ((conf_sum as u128) / (emitted as u128)) as i64
        };
        Ok(TranscriptionResult { text, confidence, processing_time_ms: 0 })
    }
}

/// Append every stored value of a tensor to a flat buffer.
fn append_data(buf: &mut Vec<i64>, t: &Tensor)
    ensures
        final(buf)@ == old(buf)@ + t.spec_data(),
{
    let data = t.data();
    let n: usize = data.len();
    let mut i: usize = 0;
    while i < n
        invariant
            0 <= i <= n,
            n == data@.len(),
            data@ == t.spec_data(),
            buf@ =~= old(buf)@ + t.spec_data().take(i as int),
        decreases n - i,
    {
        buf.push(data[i]);
        i += 1;
    }
    proof {
        assert(t.spec_data().take(n as int) =~= t.spec_data());
    }
}

/// Rank-2 tensor over a copy of the given values; the value count must
/// equal the requested element count.
fn tensor_from(vals: &Vec<i64>, rows: usize, cols: usize) -> (r: Tensor)
    requires
        vals@.len() == rows as int * cols as int,
    ensures
        r.wf(),
        r.spec_shape().len() == 2,
        r.spec_shape()[0] == rows,
        r.spec_shape()[1] == cols,
        r.spec_data() == vals@,
{
    let mut shape: Vec<usize> = Vec::new();
    shape.push(rows);
    shape.push(cols);
    proof {
        crate::tensor::lemma_product_rank2(shape@);
    }
    match Tensor::from_slice(vals.as_slice(), shape.as_slice()) {
        Ok(r) => r,
        Err(_) => {
            proof {
                assert(false);
            }
            vstd::pervasive::unreached()
        },
    }
}

/// Characters the fixed output vocabulary can produce.
pub open spec fn alphabet() -> Seq<char> {
    "abcdefghijklmnopqrstuvwxyz "@
}

/// Text spelled by a token sequence: every character token, in order,
/// mapped through the fixed alphabet; special tokens spell nothing.
pub open spec fn detok_spec(toks: Seq<usize>) -> Seq<char>
    decreases toks.len(),
{
    if toks.len() == 0 {
        Seq::empty()
    } else {
        let rest = detok_spec(toks.drop_last());
        let t = toks.last();
        if t >= TOKEN_CHAR_BASE {
            rest.push(alphabet()[(t - TOKEN_CHAR_BASE) as int % 27])
        } else {
            rest
        }
    }
}

/// Map a token sequence to text through the fixed vocabulary table.
pub fn detokenize(tokens: &Vec<usize>) -> (r: Vec<char>)
    ensures
        r@ == detok_spec(tokens@),
        r@.len() <= tokens@.len(),
        forall|i: int| 0 <= i < r@.len() ==> alphabet().contains(#[trigger] r@[i]),
{
    let table: &str = "abcdefghijklmnopqrstuvwxyz ";
    proof {
        reveal_strlit("abcdefghijklmnopqrstuvwxyz ");
    }
    let mut out: Vec<char> = Vec::new();
    let n: usize = tokens.len();
    let mut i: usize = 0;
    while i < n
        invariant
            0 <= i <= n,
            n == tokens@.len(),
            table@ == alphabet(),
            table@.len() == 27,
            out@ == detok_spec(tokens@.take(i as int)),
            out@.len() <= i,
            forall|j: int| 0 <= j < out@.len() ==> alphabet().contains(#[trigger] out@[j]),
        decreases n - i,
    {
        proof {
            assert(tokens@.take(i as int + 1).drop_last() =~= tokens@.take(i as int));
            assert(tokens@.take(i as int + 1).last() == tokens@[i as int]);
        }
        let t: usize = tokens[i];
        if t >= TOKEN_CHAR_BASE {
            let idx: usize = (t - TOKEN_CHAR_BASE) % 27;
            let c: char = table.get_char(idx);
            proof {
                assert(alphabet()[idx as int] == c);
                assert(alphabet().contains(c));
            }
            out.push(c);
        }
        i += 1;
    }
    proof {
        assert(tokens@.take(n as int) =~= tokens@);
    }
    out
}

/// Row-major matrix product of an `m x n` and an `n x p` table of
/// fixed-point values.
pub open spec fn mm_seq_spec(av: Seq<i64>, bv: Seq<i64>, m: int, n: int, p: int) -> Seq<i64> {
    Seq::new((m * p) as nat, |e: int| mm_entry(av, bv, n, p, e / p, e % p, n) as i64)
}

/// Elementwise saturating sum of two equally long tables.
pub open spec fn add_seq_spec(a: Seq<i64>, b: Seq<i64>) -> Seq<i64> {
    Seq::new(a.len(), |i: int| crate::fixed::fx_add_spec(a[i] as int, b[i] as int) as i64)
}

/// Elementwise rectified linear unit.
pub open spec fn relu_seq_spec(s: Seq<i64>) -> Seq<i64> {
    Seq::new(
        s.len(),
        |i: int|
            if s[i] < 0 {
                0i64
            } else {
                s[i]
            },
    )
}

/// The whole buffer as one softmax distribution.
pub open spec fn softmax_seq_spec(s: Seq<i64>) -> Seq<i64> {
    Seq::new(s.len(), |i: int| softmax_out(s, i) as i64)
}

/// The whole buffer layer-normalized.
pub open spec fn ln_seq_spec(s: Seq<i64>, eps: int) -> Seq<i64> {
    Seq::new(s.len(), |i: int| ln_out(s, eps, i) as i64)
}

/// Transpose of an `m x n` row-major table.
pub open spec fn transpose_seq_spec(s: Seq<i64>, m: int, n: int) -> Seq<i64> {
    Seq::new((n * m) as nat, |e: int| s[(e % m) * n + e / m])
}

/// Row `i` of an `m x n` row-major table.
pub open spec fn row_seq_spec(s: Seq<i64>, n: int, i: int) -> Seq<i64> {
    Seq::new(n as nat, |j: int| s[i * n + j])
}

/// A `t x t` score table with every row turned into its own softmax
/// distribution.
pub open spec fn attn_rows_spec(scores: Seq<i64>, t: int) -> Seq<i64> {
    Seq::new(
        (t * t) as nat,
        |e: int| softmax_out(row_seq_spec(scores, t, e / t), e % t) as i64,
    )
}

/// A flat row-major position splits into its row and column.
proof fn lemma_flat_index(e: int, m: int, p: int)
    requires
        0 <= e,
        e < m * p,
        0 <= m,
        0 <= p,
    ensures
        0 <= e / p && e / p < m,
        0 <= e % p && e % p < p,
        (e / p) * p + e % p == e,
{
    assert(p > 0) by (nonlinear_arith)
        requires
            0 <= e,
            e < m * p,
            0 <= p,
    ;
    vstd::arithmetic::div_mod::lemma_fundamental_div_mod(e, p);
    vstd::arithmetic::div_mod::lemma_mod_pos_bound(e, p);
    vstd::arithmetic::div_mod::lemma_div_pos_is_pos(e, p);
    assert(e / p < m) by (nonlinear_arith)
        requires
            e < m * p,
            p > 0,
            e == p * (e / p) + e % p,
            0 <= e % p && e % p < p,
    ;
    assert((e / p) * p + e % p == e) by (nonlinear_arith)
        requires
            e == p * (e / p) + e % p,
    ;
}

/// A dimension bounded by a hundred rows keeps row-major sizes inside
/// the address space.
proof fn lemma_hundred_dim(d: int, cap: int)
    by (nonlinear_arith)
    requires
        0 <= d,
        d * d <= cap || d <= cap / 100,
        10000 <= cap,
    ensures
        d <= 100 ==> d * d <= 10000,
{
}

/// Matrix product of compatible operands; the compatibility is a
/// precondition, so the operation cannot fail.
fn mm(a: &Tensor, b: &Tensor) -> (r: Tensor)
    requires
        a.wf(),
        b.wf(),
        a.spec_shape().len() == 2,
        b.spec_shape().len() == 2,
        a.spec_shape()[1] == b.spec_shape()[0],
        a.spec_shape()[0] as int * b.spec_shape()[1] as int <= usize::MAX as int,
    ensures
        r.wf(),
        r.spec_shape() == seq![a.spec_shape()[0], b.spec_shape()[1]],
        forall|i: int, j: int|
            0 <= i < a.spec_shape()[0] as int && 0 <= j < b.spec_shape()[1] as int
                ==> #[trigger] r.spec_data()[i * b.spec_shape()[1] as int + j] as int
                == mm_entry(
                a.spec_data(),
                b.spec_data(),
                a.spec_shape()[1] as int,
                b.spec_shape()[1] as int,
                i,
                j,
                a.spec_shape()[1] as int,
            ),
        r.spec_data() == mm_seq_spec(
            a.spec_data(),
            b.spec_data(),
            a.spec_shape()[0] as int,
            a.spec_shape()[1] as int,
            b.spec_shape()[1] as int,
        ),
{
    let t = match a.matmul(b) {
        Ok(t) => t,
        Err(_) => {
            proof {
                assert(false);
            }
            vstd::pervasive::unreached()
        },
    };
    proof {
        let m = a.spec_shape()[0] as int;
        let n = a.spec_shape()[1] as int;
        let p = b.spec_shape()[1] as int;
        let av = a.spec_data();
        let bv = b.spec_data();
        assert forall|e: int| 0 <= e < m * p implies t.spec_data()[e] == mm_seq_spec(
            av,
            bv,
            m,
            n,
            p,
        )[e] by {
            lemma_flat_index(e, m, p);
            assert(t.spec_data()[(e / p) * p + e % p] as int == mm_entry(
                av,
                bv,
                n,
                p,
                e / p,
                e % p,
                n,
            ));
        }
        assert(t.spec_data() =~= mm_seq_spec(av, bv, m, n, p));
    }
    t
}

/// Elementwise sum of tensors of one shape; cannot fail.
fn add_t(a: &Tensor, b: &Tensor) -> (r: Tensor)
    requires
        a.wf(),
        b.wf(),
        a.spec_shape() == b.spec_shape(),
    ensures
        r.wf(),
        r.spec_shape() == a.spec_shape(),
        r.spec_data().len() == a.spec_data().len(),
        forall|i: int|
            0 <= i < r.spec_data().len() ==> #[trigger] r.spec_data()[i] as int
                == crate::fixed::fx_add_spec(a.spec_data()[i] as int, b.spec_data()[i] as int),
        r.spec_data() == add_seq_spec(a.spec_data(), b.spec_data()),
{
    let t = match a.add(b) {
        Ok(t) => t,
        Err(_) => {
            proof {
                assert(false);
            }
            vstd::pervasive::unreached()
        },
    };
    proof {
        assert(t.spec_data() =~= add_seq_spec(a.spec_data(), b.spec_data()));
    }
    t
}

/// Transpose of a rank-2 tensor.
fn transpose(t: &Tensor) -> (r: Tensor)
    requires
        t.wf(),
        t.spec_shape().len() == 2,
    ensures
        r.wf(),
        r.spec_shape() == seq![t.spec_shape()[1], t.spec_shape()[0]],
        forall|i: int, j: int|
            0 <= i < t.spec_shape()[0] as int && 0 <= j < t.spec_shape()[1] as int
                ==> #[trigger] r.spec_data()[j * t.spec_shape()[0] as int + i]
                == t.spec_data()[i * t.spec_shape()[1] as int + j],
        r.spec_data() == transpose_seq_spec(
            t.spec_data(),
            t.spec_shape()[0] as int,
            t.spec_shape()[1] as int,
        ),
{
    let m: usize = t.shape()[0];
    let n: usize = t.shape()[1];
    let data = t.data();
    let dlen: usize = data.len();
    proof {
        crate::tensor::lemma_product_rank2(t.spec_shape());
    }
    let mut vals: Vec<i64> = Vec::new();
    let mut j: usize = 0;
    while j < n
        invariant
            0 <= j <= n,
            t.wf(),
            t.spec_shape().len() == 2,
            m == t.spec_shape()[0],
            n == t.spec_shape()[1],
            data@ == t.spec_data(),
            dlen == data@.len(),
            dlen as int == m as int * n as int,
            vals@.len() == j as int * m as int,
            forall|i2: int, j2: int|
                0 <= i2 < m as int && 0 <= j2 < j as int ==> #[trigger] vals@[j2 * m as int
                    + i2] == t.spec_data()[i2 * n as int + j2],
        decreases n - j,
    {
        let mut i: usize = 0;
        while i < m
            invariant
                0 <= i <= m,
                t.wf(),
                m == t.spec_shape()[0],
                n == t.spec_shape()[1],
                0 <= j < n,
                data@ == t.spec_data(),
                dlen == data@.len(),
                dlen as int == m as int * n as int,
                vals@.len() == j as int * m as int + i as int,
                forall|i2: int, j2: int|
                    0 <= i2 < m as int && 0 <= j2 < j as int ==> #[trigger] vals@[j2 * m as int
                        + i2] == t.spec_data()[i2 * n as int + j2],
                forall|i2: int|
                    0 <= i2 < i as int ==> #[trigger] vals@[j as int * m as int + i2]
                        == t.spec_data()[i2 * n as int + j as int],
            decreases m - i,
        {
            proof {
                crate::tensor::lemma_rm_index(i as int, j as int, m as int, n as int);
            }
            vals.push(data[i * n + j]);
            proof {
                assert forall|i2: int, j2: int|
                    0 <= i2 < m as int && 0 <= j2 < j as int implies #[trigger] vals@[j2
                    * m as int + i2] == t.spec_data()[i2 * n as int + j2] by {
                    crate::tensor::lemma_rm_index(j2, i2, j as int, m as int);
                }
            }
            i += 1;
        }
        proof {
            assert(j as int * m as int + m as int == (j as int + 1) * m as int)
                by (nonlinear_arith);
        }
        j += 1;
    }
    let mut shape: Vec<usize> = Vec::new();
    shape.push(n);
    shape.push(m);
    proof {
        crate::tensor::lemma_product_rank2(shape@);
        assert(n as int * m as int == m as int * n as int) by (nonlinear_arith);
    }
    match Tensor::from_slice(vals.as_slice(), shape.as_slice()) {
        Ok(r) => {
            proof {
                assert(r.spec_shape() =~= seq![t.spec_shape()[1], t.spec_shape()[0]]);
                assert forall|e: int| 0 <= e < n as int * m as int implies r.spec_data()[e]
                    == transpose_seq_spec(t.spec_data(), m as int, n as int)[e] by {
                    lemma_flat_index(e, n as int, m as int);
                    assert(r.spec_data()[(e / m as int) * m as int + e % m as int]
                        == t.spec_data()[(e % m as int) * n as int + e / m as int]);
                }
                assert(r.spec_data() =~= transpose_seq_spec(t.spec_data(), m as int, n as int));
            }
            r
        },
        Err(_) => {
            proof {
                assert(false);
            }
            vstd::pervasive::unreached()
        },
    }
}

/// Row `i` of a rank-2 tensor, as a `1 x n` tensor holding exactly that
/// row's values.
fn row_of(t: &Tensor, i: usize) -> (r: Tensor)
    requires
        t.wf(),
        t.spec_shape().len() == 2,
        i < t.spec_shape()[0],
    ensures
        r.wf(),
        r.spec_shape() == seq![1usize, t.spec_shape()[1]],
        forall|j: int|
            0 <= j < t.spec_shape()[1] as int ==> #[trigger] r.spec_data()[j]
                == t.spec_data()[i as int * t.spec_shape()[1] as int + j],
        r.spec_data() == row_seq_spec(t.spec_data(), t.spec_shape()[1] as int, i as int),
{
    let m: usize = t.shape()[0];
    let n: usize = t.shape()[1];
    let data = t.data();
    let dlen: usize = data.len();
    proof {
        crate::tensor::lemma_product_rank2(t.spec_shape());
    }
    let mut vals: Vec<i64> = Vec::new();
    let mut j: usize = 0;
    while j < n
        invariant
            0 <= j <= n,
            t.wf(),
            m == t.spec_shape()[0],
            n == t.spec_shape()[1],
            0 <= i < m,
            data@ == t.spec_data(),
            dlen == data@.len(),
            dlen as int == m as int * n as int,
            vals@.len() == j,
            forall|j2: int|
                0 <= j2 < j as int ==> #[trigger] vals@[j2] == t.spec_data()[i as int
                    * n as int + j2],
        decreases n - j,
    {
        proof {
            crate::tensor::lemma_rm_index(i as int, j as int, m as int, n as int);
        }
        vals.push(data[i * n + j]);
        j += 1;
    }
    let mut shape: Vec<usize> = Vec::new();
    shape.push(1);
    shape.push(n);
    proof {
        crate::tensor::lemma_product_rank2(shape@);
        assert(shape@[0] as int * shape@[1] as int == n as int) by (nonlinear_arith)
            requires
                shape@[0] == 1usize && shape@[1] == n,
        ;
    }
    match Tensor::from_slice(vals.as_slice(), shape.as_slice()) {
        Ok(r) => {
            proof {
                assert(r.spec_shape() =~= seq![1usize, t.spec_shape()[1]]);
                assert(r.spec_data() =~= row_seq_spec(
                    t.spec_data(),
                    t.spec_shape()[1] as int,
                    i as int,
                ));
            }
            r
        },
        Err(_) => {
            proof {
                assert(false);
            }
            vstd::pervasive::unreached()
        },
    }
}

/// Index of the first largest element of a non-empty sequence.
pub open spec fn argmax_seq_spec(s: Seq<i64>) -> int
    decreases s.len(),
{
    if s.len() <= 1 {
        0
    } else {
        let p = argmax_seq_spec(s.drop_last());
        if s.last() > s[p] {
            s.len() - 1
        } else {
            p
        }
    }
}

/// Index and value of the first largest element of the backing store.
fn argmax_flat(t: &Tensor) -> (r: (usize, i64))
    requires
        t.wf(),
        t.spec_data().len() >= 1,
    ensures
        r.0 as int == argmax_seq_spec(t.spec_data()),
        r.0 < t.spec_data().len(),
        t.spec_data()[r.0 as int] == r.1,
        forall|j: int| 0 <= j < t.spec_data().len() ==> t.spec_data()[j] <= r.1,
        forall|j: int| 0 <= j < r.0 ==> t.spec_data()[j] < r.1,
{
    let data = t.data();
    let n: usize = data.len();
    let mut best: usize = 0;
    let mut bv: i64 = data[0];
    let mut i: usize = 1;
    proof {
        assert(t.spec_data().take(1).len() == 1);
        assert(t.spec_data().take(1)[0] == t.spec_data()[0]);
    }
    while i < n
        invariant
            1 <= i <= n,
            n == t.spec_data().len(),
            data@ == t.spec_data(),
            best < i,
            best as int == argmax_seq_spec(t.spec_data().take(i as int)),
            t.spec_data()[best as int] == bv,
            forall|j: int| 0 <= j < i ==> t.spec_data()[j] <= bv,
            forall|j: int| 0 <= j < best ==> t.spec_data()[j] < bv,
        decreases n - i,
    {
        proof {
            assert(t.spec_data().take(i as int + 1).drop_last() =~= t.spec_data().take(
                i as int,
            ));
            assert(t.spec_data().take(i as int + 1).last() == t.spec_data()[i as int]);
        }
        if data[i] > bv {
            best = i;
            bv = data[i];
        }
        i += 1;
    }
    proof {
        assert(t.spec_data().take(n as int) =~= t.spec_data());
    }
    (best, bv)
}

/// The feature table of a sample buffer, flattened row-major.
pub open spec fn features_seq_spec(s: Seq<i16>, n_mels: int, cap: int) -> Seq<i64> {
    Seq::new(
        (frame_count_spec(s.len() as int, cap) * n_mels) as nat,
        |e: int| feature_spec(s, n_mels, e / n_mels, e % n_mels) as i64,
    )
}

/// Value of one encoder layer on a `t x d` state table: single-head
/// self-attention over the rows, then a feed-forward, each with a
/// residual sum, and a closing layer normalization.
pub open spec fn encoder_block_spec(
    x: Seq<i64>,
    t: int,
    d: int,
    wq: Seq<i64>,
    wk: Seq<i64>,
    wv: Seq<i64>,
    wo: Seq<i64>,
    w1: Seq<i64>,
    w2: Seq<i64>,
) -> Seq<i64> {
    let q = mm_seq_spec(x, wq, t, d, d);
    let k = mm_seq_spec(x, wk, t, d, d);
    let v = mm_seq_spec(x, wv, t, d, d);
    let kt = transpose_seq_spec(k, t, d);
    let scores = mm_seq_spec(q, kt, t, d, t);
    let attn = attn_rows_spec(scores, t);
    let ctx = mm_seq_spec(attn, v, t, t, d);
    let proj = mm_seq_spec(ctx, wo, t, d, d);
    let y = add_seq_spec(x, proj);
    let h = relu_seq_spec(mm_seq_spec(y, w1, t, d, d));
    let h2 = mm_seq_spec(h, w2, t, d, d);
    ln_seq_spec(add_seq_spec(y, h2), 1)
}

/// Value of one decoder layer on a single query row: causal
/// self-attention over the `g x d` generated context, cross-attention
/// against the `t x d` encoder output, and a feed-forward, each with a
/// residual sum, and a closing layer normalization.
pub open spec fn decoder_block_spec(
    y: Seq<i64>,
    c: Seq<i64>,
    e: Seq<i64>,
    g: int,
    t: int,
    d: int,
    sq: Seq<i64>,
    sk: Seq<i64>,
    sv: Seq<i64>,
    so: Seq<i64>,
    cq: Seq<i64>,
    ck: Seq<i64>,
    cv: Seq<i64>,
    co: Seq<i64>,
    w1: Seq<i64>,
    w2: Seq<i64>,
) -> Seq<i64> {
    let qs = mm_seq_spec(y, sq, 1, d, d);
    let ks = mm_seq_spec(c, sk, g, d, d);
    let vs = mm_seq_spec(c, sv, g, d, d);
    let sc = softmax_seq_spec(mm_seq_spec(qs, transpose_seq_spec(ks, g, d), 1, d, g));
    let y1 = add_seq_spec(y, mm_seq_spec(mm_seq_spec(sc, vs, 1, g, d), so, 1, d, d));
    let qc = mm_seq_spec(y1, cq, 1, d, d);
    let kc = mm_seq_spec(e, ck, t, d, d);
    let vc = mm_seq_spec(e, cv, t, d, d);
    let cc = softmax_seq_spec(mm_seq_spec(qc, transpose_seq_spec(kc, t, d), 1, d, t));
    let y2 = add_seq_spec(y1, mm_seq_spec(mm_seq_spec(cc, vc, 1, t, d), co, 1, d, d));
    let h = relu_seq_spec(mm_seq_spec(y2, w1, 1, d, d));
    ln_seq_spec(add_seq_spec(y2, mm_seq_spec(h, w2, 1, d, d)), 1)
}

/// The `t x d` state table after the first `l` encoder layers.
pub open spec fn encode_layers_spec(
    ws: Seq<Seq<i64>>,
    d: int,
    t: int,
    x: Seq<i64>,
    l: int,
) -> Seq<i64>
    decreases l,
{
    if l <= 0 {
        x
    } else {
        let prev = encode_layers_spec(ws, d, t, x, l - 1);
        let b = 3 + 6 * (l - 1);
        encoder_block_spec(
            prev,
            t,
            d,
            ws[b],
            ws[b + 1],
            ws[b + 2],
            ws[b + 3],
            ws[b + 4],
            ws[b + 5],
        )
    }
}

/// The query row after the first `l` decoder layers.
pub open spec fn decode_layers_spec(
    ws: Seq<Seq<i64>>,
    al: int,
    d: int,
    y: Seq<i64>,
    c: Seq<i64>,
    e: Seq<i64>,
    g: int,
    t: int,
    l: int,
) -> Seq<i64>
    decreases l,
{
    if l <= 0 {
        y
    } else {
        let prev = decode_layers_spec(ws, al, d, y, c, e, g, t, l - 1);
        let b = 3 + 6 * al + 10 * (l - 1);
        decoder_block_spec(
            prev,
            c,
            e,
            g,
            t,
            d,
            ws[b],
            ws[b + 1],
            ws[b + 2],
            ws[b + 3],
            ws[b + 4],
            ws[b + 5],
            ws[b + 6],
            ws[b + 7],
            ws[b + 8],
            ws[b + 9],
        )
    }
}

/// Tokens and summed probabilities the decode loop still produces from
/// the given machine state: one greedy token per step until
/// end-of-sequence or the length bound completes the machine.
pub open spec fn decode_rest_spec(
    ws: Seq<Seq<i64>>,
    c: WhisperConfig,
    enc: Seq<i64>,
    t: int,
    cvals: Seq<i64>,
    grows: int,
    gcap: int,
    state: DecodeState,
    emitted: int,
    conf: int,
    toks: Seq<usize>,
) -> (Seq<usize>, int)
    decreases MAX_TOKENS - emitted,
{
    if state == DecodeState::Complete || emitted >= MAX_TOKENS as int {
        (toks, conf)
    } else {
        let d = c.n_audio_state as int;
        let y0 = row_seq_spec(cvals, d, grows - 1);
        let y = decode_layers_spec(
            ws,
            c.n_audio_layer as int,
            d,
            y0,
            cvals,
            enc,
            grows,
            t,
            c.n_text_layer as int,
        );
        let probs = softmax_seq_spec(mm_seq_spec(y, ws[2], 1, d, c.n_vocab as int));
        let tok = argmax_seq_spec(probs);
        let p = probs[tok] as int;
        let emitted2 = emitted + 1;
        let state2 = decode_transition_spec(
            state,
            false,
            tok as usize,
            emitted2 as usize,
            MAX_TOKENS,
        );
        let extend = tok >= TOKEN_CHAR_BASE as int && grows < gcap;
        let cvals2 = if extend {
            cvals + row_seq_spec(ws[0], d, tok)
        } else {
            cvals
        };
        let grows2 = if extend {
            grows + 1
        } else {
            grows
        };
        decode_rest_spec(
            ws,
            c,
            enc,
            t,
            cvals2,
            grows2,
            gcap,
            state2,
            emitted2,
            conf + p,
            toks.push(tok as usize),
        )
    }
}

/// The transcription a loaded weight table and a sample buffer
/// determine: the text spelled by the greedy token sequence, and the
/// summed probability of the chosen tokens divided by their count.
pub open spec fn transcribe_spec(ws: Seq<Seq<i64>>, c: WhisperConfig, samples: Seq<i16>) -> (
    Seq<char>,
    int,
) {
    let d = c.n_audio_state as int;
    let by_d = usize::MAX as int / d;
    let fcap = if by_d < MAX_FRAMES as int {
        by_d
    } else {
        MAX_FRAMES as int
    };
    let by_m = usize::MAX as int / c.n_mels as int;
    let tcap = if by_m < fcap {
        by_m
    } else {
        fcap
    };
    let feats = features_seq_spec(samples, c.n_mels as int, tcap);
    let t = frame_count_spec(samples.len() as int, tcap);
    let x0 = mm_seq_spec(feats, ws[1], t, c.n_mels as int, d);
    let enc = encode_layers_spec(ws, d, t, x0, c.n_audio_layer as int);
    let gcap = if fcap < MAX_TOKENS as int + 1 {
        fcap
    } else {
        MAX_TOKENS as int + 1
    };
    let pair = decode_rest_spec(
        ws,
        c,
        enc,
        t,
        row_seq_spec(ws[0], d, TOKEN_SOT as int),
        1,
        gcap,
        DecodeState::Start,
        0,
        0,
        Seq::empty(),
    );
    (detok_spec(pair.0), pair.1 / pair.0.len() as int)
}

/// One encoder layer: single-head self-attention over the frame rows
/// followed by a two-matrix feed-forward, each with a residual sum, and
/// a closing layer normalization.
fn encoder_block(
    x: &Tensor,
    wq: &Tensor,
    wk: &Tensor,
    wv: &Tensor,
    wo: &Tensor,
    w1: &Tensor,
    w2: &Tensor,
) -> (r: Tensor)
    requires
        x.wf(),
        x.spec_shape().len() == 2,
        x.spec_shape()[0] <= 100,
        x.spec_shape()[0] as int * x.spec_shape()[1] as int <= usize::MAX as int,
        wq.wf() && wq.spec_shape() == seq![x.spec_shape()[1], x.spec_shape()[1]],
        wk.wf() && wk.spec_shape() == seq![x.spec_shape()[1], x.spec_shape()[1]],
        wv.wf() && wv.spec_shape() == seq![x.spec_shape()[1], x.spec_shape()[1]],
        wo.wf() && wo.spec_shape() == seq![x.spec_shape()[1], x.spec_shape()[1]],
        w1.wf() && w1.spec_shape() == seq![x.spec_shape()[1], x.spec_shape()[1]],
        w2.wf() && w2.spec_shape() == seq![x.spec_shape()[1], x.spec_shape()[1]],
    ensures
        r.wf(),
        r.spec_shape() == x.spec_shape(),
        r.spec_data() == encoder_block_spec(
            x.spec_data(),
            x.spec_shape()[0] as int,
            x.spec_shape()[1] as int,
            wq.spec_data(),
            wk.spec_data(),
            wv.spec_data(),
            wo.spec_data(),
            w1.spec_data(),
            w2.spec_data(),
        ),
{
    let ghost tdim = x.spec_shape()[0] as int;
    proof {
        assert(tdim * tdim <= 10000) by (nonlinear_arith)
            requires
                0 <= tdim <= 100,
        ;
    }
    let q = mm(x, wq);
    let k = mm(x, wk);
    let v = mm(x, wv);
    let kt = transpose(&k);
    let scores = mm(&q, &kt);
    // one softmax distribution per query row
    let t_rows: usize = x.shape()[0];
    proof {
        crate::tensor::lemma_product_rank2(scores.spec_shape());
    }
    let ghost sd = scores.spec_data();
    let mut avals: Vec<i64> = Vec::new();
    let mut i: usize = 0;
    while i < t_rows
        invariant
            0 <= i <= t_rows,
            scores.wf(),
            scores.spec_shape().len() == 2,
            t_rows == scores.spec_shape()[0],
            t_rows == scores.spec_shape()[1],
            t_rows <= 100,
            sd == scores.spec_data(),
            avals@.len() == i as int * t_rows as int,
            forall|i2: int, j2: int|
                0 <= i2 < i as int && 0 <= j2 < t_rows as int ==> #[trigger] avals@[i2
                    * t_rows as int + j2] as int == softmax_out(
                    row_seq_spec(sd, t_rows as int, i2),
                    j2,
                ),
        decreases t_rows - i,
    {
        let mut row = row_of(&scores, i);
        proof {
            assert(row.spec_data() == row_seq_spec(sd, t_rows as int, i as int));
        }
        row.softmax();
        let rd = row.data();
        proof {
            crate::tensor::lemma_product_rank2(row.spec_shape());
            assert(rd@.len() == t_rows as int) by (nonlinear_arith)
                requires
                    rd@.len() == 1 * t_rows as int,
            ;
        }
        let mut j: usize = 0;
        while j < t_rows
            invariant
                0 <= j <= t_rows,
                0 <= i < t_rows,
                rd@.len() == t_rows,
                avals@.len() == i as int * t_rows as int + j as int,
                forall|i2: int, j2: int|
                    0 <= i2 < i as int && 0 <= j2 < t_rows as int ==> #[trigger] avals@[i2
                        * t_rows as int + j2] as int == softmax_out(
                        row_seq_spec(sd, t_rows as int, i2),
                        j2,
                    ),
                forall|j2: int|
                    0 <= j2 < j as int ==> #[trigger] avals@[i as int * t_rows as int + j2]
                        == rd@[j2],
                forall|j2: int|
                    0 <= j2 < t_rows as int ==> #[trigger] rd@[j2] as int == softmax_out(
                        row_seq_spec(sd, t_rows as int, i as int),
                        j2,
                    ),
            decreases t_rows - j,
        {
            avals.push(rd[j]);
            proof {
                assert forall|i2: int, j2: int|
                    0 <= i2 < i as int && 0 <= j2 < t_rows as int implies #[trigger] avals@[i2
                    * t_rows as int + j2] as int == softmax_out(
                    row_seq_spec(sd, t_rows as int, i2),
                    j2,
                ) by {
                    crate::tensor::lemma_rm_index(i2, j2, i as int, t_rows as int);
                }
            }
            j += 1;
        }
        proof {
            assert(i as int * t_rows as int + t_rows as int == (i as int + 1)
                * t_rows as int) by (nonlinear_arith);
        }
        i += 1;
    }
    let mut ashape: Vec<usize> = Vec::new();
    ashape.push(t_rows);
    ashape.push(t_rows);
    proof {
        crate::tensor::lemma_product_rank2(ashape@);
    }
    let attn = match Tensor::from_slice(avals.as_slice(), ashape.as_slice()) {
        Ok(t) => t,
        Err(_) => {
            proof {
                assert(false);
            }
            vstd::pervasive::unreached()
        },
    };
    proof {
        assert forall|e: int| 0 <= e < t_rows as int * t_rows as int implies attn.spec_data()[e]
            == attn_rows_spec(sd, t_rows as int)[e] by {
            lemma_flat_index(e, t_rows as int, t_rows as int);
            assert(avals@[(e / t_rows as int) * t_rows as int + e % t_rows as int] as int
                == softmax_out(row_seq_spec(sd, t_rows as int, e / t_rows as int), e
                % t_rows as int));
        }
        assert(attn.spec_data() =~= attn_rows_spec(sd, t_rows as int));
    }
    let ctx = mm(&attn, &v);
    let proj = mm(&ctx, wo);
    proof {
        assert(proj.spec_shape() =~= x.spec_shape());
    }
    let y = add_t(x, &proj);
    let mut h = mm(&y, w1);
    let ghost hpre = h.spec_data();
    h.relu();
    proof {
        assert(h.spec_data() =~= relu_seq_spec(hpre));
    }
    let h2 = mm(&h, w2);
    proof {
        assert(h2.spec_shape() =~= y.spec_shape());
    }
    let mut z = add_t(&y, &h2);
    let ghost zpre = z.spec_data();
    z.layer_norm(1);
    proof {
        assert(z.spec_shape() =~= x.spec_shape());
        assert(z.spec_data() =~= ln_seq_spec(zpre, 1));
        assert(z.spec_data() == encoder_block_spec(
            x.spec_data(),
            tdim,
            x.spec_shape()[1] as int,
            wq.spec_data(),
            wk.spec_data(),
            wv.spec_data(),
            wo.spec_data(),
            w1.spec_data(),
            w2.spec_data(),
        ));
    }
    z
}

/// One decoder layer for a single query state: causal self-attention
/// over the already-generated context rows, cross-attention against the
/// encoder output, and a feed-forward, each with a residual sum, and a
/// closing layer normalization.
fn decoder_block(
    y: &Tensor,
    ctx: &Tensor,
    enc: &Tensor,
    sq: &Tensor,
    sk: &Tensor,
    sv: &Tensor,
    so: &Tensor,
    cq: &Tensor,
    ck: &Tensor,
    cv: &Tensor,
    co: &Tensor,
    w1: &Tensor,
    w2: &Tensor,
) -> (r: Tensor)
    requires
        y.wf(),
        y.spec_shape().len() == 2,
        y.spec_shape()[0] == 1,
        ctx.wf(),
        ctx.spec_shape().len() == 2,
        ctx.spec_shape()[1] == y.spec_shape()[1],
        ctx.spec_shape()[0] as int * ctx.spec_shape()[1] as int <= usize::MAX as int,
        ctx.spec_shape()[0] >= 1,
        enc.wf(),
        enc.spec_shape().len() == 2,
        enc.spec_shape()[1] == y.spec_shape()[1],
        enc.spec_shape()[0] as int * enc.spec_shape()[1] as int <= usize::MAX as int,
        enc.spec_shape()[0] >= 1,
        sq.wf() && sq.spec_shape() == seq![y.spec_shape()[1], y.spec_shape()[1]],
        sk.wf() && sk.spec_shape() == seq![y.spec_shape()[1], y.spec_shape()[1]],
        sv.wf() && sv.spec_shape() == seq![y.spec_shape()[1], y.spec_shape()[1]],
        so.wf() && so.spec_shape() == seq![y.spec_shape()[1], y.spec_shape()[1]],
        cq.wf() && cq.spec_shape() == seq![y.spec_shape()[1], y.spec_shape()[1]],
        ck.wf() && ck.spec_shape() == seq![y.spec_shape()[1], y.spec_shape()[1]],
        cv.wf() && cv.spec_shape() == seq![y.spec_shape()[1], y.spec_shape()[1]],
        co.wf() && co.spec_shape() == seq![y.spec_shape()[1], y.spec_shape()[1]],
        w1.wf() && w1.spec_shape() == seq![y.spec_shape()[1], y.spec_shape()[1]],
        w2.wf() && w2.spec_shape() == seq![y.spec_shape()[1], y.spec_shape()[1]],
    ensures
        r.wf(),
        r.spec_shape() == y.spec_shape(),
        r.spec_data() == decoder_block_spec(
            y.spec_data(),
            ctx.spec_data(),
            enc.spec_data(),
            ctx.spec_shape()[0] as int,
            enc.spec_shape()[0] as int,
            y.spec_shape()[1] as int,
            sq.spec_data(),
            sk.spec_data(),
            sv.spec_data(),
            so.spec_data(),
            cq.spec_data(),
            ck.spec_data(),
            cv.spec_data(),
            co.spec_data(),
            w1.spec_data(),
            w2.spec_data(),
        ),
{
    // self-attention over the generated context
    let qs = mm(y, sq);
    let ks = mm(ctx, sk);
    let vs = mm(ctx, sv);
    let kst = transpose(&ks);
    let mut sc = mm(&qs, &kst);
    let ghost scpre = sc.spec_data();
    sc.softmax();
    proof {
        assert(sc.spec_data() =~= softmax_seq_spec(scpre));
    }
    let att = mm(&sc, &vs);
    let po = mm(&att, so);
    proof {
        assert(po.spec_shape() =~= y.spec_shape());
    }
    let y1 = add_t(y, &po);
    // cross-attention against the encoder output
    let qc = mm(&y1, cq);
    let kc = mm(enc, ck);
    let vc = mm(enc, cv);
    let kct = transpose(&kc);
    let mut cc = mm(&qc, &kct);
    let ghost ccpre = cc.spec_data();
    cc.softmax();
    proof {
        assert(cc.spec_data() =~= softmax_seq_spec(ccpre));
    }
    let catt = mm(&cc, &vc);
    let pc = mm(&catt, co);
    proof {
        assert(pc.spec_shape() =~= y1.spec_shape());
    }
    let y2 = add_t(&y1, &pc);
    // feed-forward
    let mut h = mm(&y2, w1);
    let ghost hpre = h.spec_data();
    h.relu();
    proof {
        assert(h.spec_data() =~= relu_seq_spec(hpre));
    }
    let h2 = mm(&h, w2);
    proof {
        assert(h2.spec_shape() =~= y2.spec_shape());
    }
    let mut z = add_t(&y2, &h2);
    let ghost zpre = z.spec_data();
    z.layer_norm(1);
    proof {
        assert(z.spec_shape() =~= y.spec_shape());
        assert(z.spec_data() =~= ln_seq_spec(zpre, 1));
        assert(z.spec_data() == decoder_block_spec(
            y.spec_data(),
            ctx.spec_data(),
            enc.spec_data(),
            ctx.spec_shape()[0] as int,
            enc.spec_shape()[0] as int,
            y.spec_shape()[1] as int,
            sq.spec_data(),
            sk.spec_data(),
            sv.spec_data(),
            so.spec_data(),
            cq.spec_data(),
            ck.spec_data(),
            cv.spec_data(),
            co.spec_data(),
            w1.spec_data(),
            w2.spec_data(),
        ));
    }
    z
}

/// Number of binary digits of `x` (0 for 0).
pub open spec fn bits_spec(x: int) -> int
    decreases x,
{
    if x <= 0 {
        0
    } else {
        1 + bits_spec(x / 2)
    }
}

proof fn lemma_bits_nonneg(x: int)
    ensures
        bits_spec(x) >= 0,
    decreases x,
{
    if x > 0 {
        lemma_bits_nonneg(x / 2);
    }
}

proof fn lemma_bits_bound(x: int, n: nat)
    requires
        0 <= x,
        x < vstd::arithmetic::power2::pow2(n),
    ensures
        bits_spec(x) <= n,
    decreases n,
{
    if x > 0 {
        if n == 0 {
            vstd::arithmetic::power2::lemma2_to64();
        } else {
            vstd::arithmetic::power2::lemma_pow2_unfold(n);
            vstd::arithmetic::div_mod::lemma_multiply_divide_lt(
                x,
                2,
                vstd::arithmetic::power2::pow2((n - 1) as nat) as int,
            );
            lemma_bits_bound(x / 2, (n - 1) as nat);
        }
    }
}

/// Number of bits needed to write `x` in binary (0 for 0).
fn bit_width(x: u64) -> (c: u64)
    ensures
        c as int == bits_spec(x as int),
        c <= 64,
{
    proof {
        vstd::arithmetic::power2::lemma2_to64();
        lemma_bits_bound(x as int, 64);
        lemma_bits_nonneg(x as int);
    }
    let mut v: u64 = x;
    let mut c: u64 = 0;
    while v > 0
        invariant
            c as int + bits_spec(v as int) == bits_spec(x as int),
            bits_spec(x as int) <= 64,
            c <= 64,
        decreases v,
    {
        proof {
            lemma_bits_nonneg(v as int / 2);
        }
        v = v / 2;
        c += 1;
    }
    c
}

/// Number of analysis frames taken from a sample buffer: one per hop
/// that still fits a whole window, capped.
pub open spec fn frame_count_spec(slen: int, cap: int) -> int {
    let avail = (slen - 400) / 160 + 1;
    if avail < cap {
        avail
    } else {
        cap
    }
}

/// Sum of squared samples over window positions `[lo, hi)` of the frame
/// starting at `start`.
pub open spec fn bin_energy_spec(s: Seq<i16>, start: int, lo: int, hi: int) -> int
    decreases hi - lo,
{
    if lo >= hi {
        0
    } else {
        bin_energy_spec(s, start, lo, hi - 1) + s[start + hi - 1] as int * s[start + hi
            - 1] as int
    }
}

/// Fixed-point log-energy of mel bin `m` of frame `f`: the bit width of
/// the bin's energy, scaled and centred.
pub open spec fn feature_spec(s: Seq<i16>, n_mels: int, f: int, m: int) -> int {
    let width = 400int / n_mels;
    let lo = if width == 0 {
        400int
    } else if m > 400int / width {
        400int
    } else {
        m * width
    };
    let hi = if 400 - lo < width {
        400int
    } else {
        lo + width
    };
    bits_spec(bin_energy_spec(s, f * 160, lo, hi)) * 4096 - 65536
}

/// Log-mel-style spectrogram of the samples: one frame per hop, one
/// fixed-point log-energy per mel bin.
fn extract_features(samples: &[i16], n_mels: usize, max_frames: usize) -> (t: Tensor)
    requires
        samples@.len() >= MIN_SAMPLES,
        n_mels >= 1,
        max_frames >= 1,
        max_frames as int * n_mels as int <= usize::MAX as int,
    ensures
        t.wf(),
        t.spec_shape().len() == 2,
        1 <= t.spec_shape()[0] <= max_frames,
        t.spec_shape()[0] as int == frame_count_spec(samples@.len() as int, max_frames as int),
        t.spec_shape()[1] == n_mels,
        forall|f: int, m: int|
            0 <= f < t.spec_shape()[0] as int && 0 <= m < n_mels ==> #[trigger] t.spec_data()[f
                * n_mels as int + m] as int == feature_spec(samples@, n_mels as int, f, m),
        t.spec_data() == features_seq_spec(samples@, n_mels as int, max_frames as int),
{
    let slen: usize = samples.len();
    let avail: usize = (slen - MIN_SAMPLES) / HOP + 1;
    let frames: usize = if avail < max_frames {
        avail
    } else {
        max_frames
    };
    let width: usize = MIN_SAMPLES / n_mels;
    let mut vals: Vec<i64> = Vec::new();
    proof {
        vstd::arithmetic::mul::lemma_mul_inequality(
            frames as int,
            max_frames as int,
            n_mels as int,
        );
    }
    let mut f: usize = 0;
    while f < frames
        invariant
            0 <= f <= frames,
            1 <= frames <= max_frames,
            frames <= avail,
            frames as int == frame_count_spec(slen as int, max_frames as int),
            avail as int == (slen as int - 400) / 160 + 1,
            slen == samples@.len(),
            slen >= 400,
            n_mels >= 1,
            width <= 400,
            width as int == 400int / n_mels as int,
            vals@.len() == f as int * n_mels as int,
            frames as int * n_mels as int <= usize::MAX as int,
            forall|f2: int, m2: int|
                0 <= f2 < f as int && 0 <= m2 < n_mels ==> #[trigger] vals@[f2 * n_mels as int
                    + m2] as int == feature_spec(samples@, n_mels as int, f2, m2),
        decreases frames - f,
    {
        let start: usize = f * HOP;
        proof {
            vstd::arithmetic::mul::lemma_mul_inequality(f as int, avail as int - 1, 160);
            vstd::arithmetic::div_mod::lemma_fundamental_div_mod(slen as int - 400, 160);
            assert((avail as int - 1) * 160 <= slen - 400) by (nonlinear_arith)
                requires
                    avail as int - 1 == (slen as int - 400) / 160,
                    slen as int - 400 == 160 * ((slen as int - 400) / 160) + (slen as int - 400)
                        % 160,
                    (slen as int - 400) % 160 >= 0,
            ;
        }
        let mut m: usize = 0;
        while m < n_mels
            invariant
                0 <= m <= n_mels,
                0 <= f < frames,
                slen == samples@.len(),
                start == f as int * 160,
                start + 400 <= slen,
                n_mels >= 1,
                width <= 400,
                width as int == 400int / n_mels as int,
                vals@.len() == f as int * n_mels as int + m as int,
                forall|f2: int, m2: int|
                    0 <= f2 < f as int && 0 <= m2 < n_mels ==> #[trigger] vals@[f2
                        * n_mels as int + m2] as int == feature_spec(
                        samples@,
                        n_mels as int,
                        f2,
                        m2,
                    ),
                forall|m2: int|
                    0 <= m2 < m as int ==> #[trigger] vals@[f as int * n_mels as int
                        + m2] as int == feature_spec(samples@, n_mels as int, f as int, m2),
            decreases n_mels - m,
        {
            let lo: usize = if width == 0 {
                400
            } else {
                let k: usize = 400 / width;
                if m > k {
                    400
                } else {
                    proof {
                        vstd::arithmetic::mul::lemma_mul_inequality(
                            m as int,
                            k as int,
                            width as int,
                        );
                        vstd::arithmetic::div_mod::lemma_fundamental_div_mod(400, width as int);
                        vstd::arithmetic::mul::lemma_mul_is_commutative(k as int, width as int);
                    }
                    m * width
                }
            };
            let hi: usize = if 400 - lo < width {
                400
            } else {
                lo + width
            };
            let mut energy: u64 = 0;
            let mut q: usize = lo;
            while q < hi
                invariant
                    lo <= q <= hi,
                    hi <= 400,
                    slen == samples@.len(),
                    start + 400 <= slen,
                    start == f as int * 160,
                    energy <= 0x4000_0000u64 * q as u64,
                    energy as int == bin_energy_spec(
                        samples@,
                        start as int,
                        lo as int,
                        q as int,
                    ),
                decreases hi - q,
            {
                let s: i64 = samples[start + q] as i64;
                proof {
                    assert(0 <= (s as int * s as int) && (s as int * s as int)
                        <= 0x4000_0000) by (nonlinear_arith)
                        requires
                            -32768 <= s as int <= 32767,
                    ;
                    assert(0x4000_0000u64 * (q as u64 + 1) == 0x4000_0000u64 * q as u64
                        + 0x4000_0000u64) by (nonlinear_arith);
                }
                energy = energy + (s * s) as u64;
                q += 1;
            }
            let lvl: u64 = bit_width(energy);
            vals.push((lvl as i64) * 4096 - 65536);
            proof {
                assert(vals@[f as int * n_mels as int + m as int] as int == feature_spec(
                    samples@,
                    n_mels as int,
                    f as int,
                    m as int,
                ));
                assert forall|f2: int, m2: int|
                    0 <= f2 < f as int && 0 <= m2 < n_mels implies #[trigger] vals@[f2
                    * n_mels as int + m2] as int == feature_spec(
                    samples@,
                    n_mels as int,
                    f2,
                    m2,
                ) by {
                    crate::tensor::lemma_rm_index(f2, m2, f as int, n_mels as int);
                }
            }
            m += 1;
        }
        proof {
            assert(f as int * n_mels as int + n_mels as int == (f as int + 1)
                * n_mels as int) by (nonlinear_arith);
        }
        f += 1;
    }
    let mut shape: Vec<usize> = Vec::new();
    shape.push(frames);
    shape.push(n_mels);
    proof {
        crate::tensor::lemma_product_rank2(shape@);
    }
    match Tensor::from_slice(vals.as_slice(), shape.as_slice()) {
        Ok(r) => {
            proof {
                assert(r.spec_shape()[0] == frames && r.spec_shape()[1] == n_mels);
                assert forall|e: int| 0 <= e < frames as int * n_mels as int implies
                    r.spec_data()[e] == features_seq_spec(
                    samples@,
                    n_mels as int,
                    max_frames as int,
                )[e] by {
                    lemma_flat_index(e, frames as int, n_mels as int);
                    assert(r.spec_data()[(e / n_mels as int) * n_mels as int + e
                        % n_mels as int] as int == feature_spec(
                        samples@,
                        n_mels as int,
                        e / n_mels as int,
                        e % n_mels as int,
                    ));
                }
                assert(r.spec_data() =~= features_seq_spec(
                    samples@,
                    n_mels as int,
                    max_frames as int,
                ));
            }
            r
        },
        Err(_) => {
            proof {
                assert(false);
            }
            vstd::pervasive::unreached()
        },
    }
}

/// Little-endian unsigned 32-bit read, widened so the value carries no
/// wrap-around.
fn read_u32_le(data: &[u8], off: usize) -> (r: u64)
    requires
        off + 4 <= data@.len(),
    ensures
        r as int == u32_at(data@, off as int),
        r < 0x1_0000_0000,
{
    data[off] as u64 + data[off + 1] as u64 * 0x100 + data[off + 2] as u64 * 0x10000 + data[off
        + 3] as u64 * 0x1000000
}

/// Little-endian unsigned 64-bit value at `off`.
pub open spec fn u64_le_at(d: Seq<u8>, off: int) -> int
    recommends
        0 <= off,
        off + 8 <= d.len(),
{
    d[off] as int + d[off + 1] as int * 0x100 + d[off + 2] as int * 0x10000 + d[off + 3] as int
        * 0x1000000 + d[off + 4] as int * 0x100000000 + d[off + 5] as int * 0x10000000000 + d[off
        + 6] as int * 0x1000000000000 + d[off + 7] as int * 0x100000000000000
}

/// Little-endian signed 64-bit value at `off` (two's complement).
pub open spec fn i64_le_at(d: Seq<u8>, off: int) -> int {
    let u = u64_le_at(d, off);
    if u < 0x8000_0000_0000_0000 {
        u
    } else {
        u - 0x1_0000_0000_0000_0000
    }
}

/// Little-endian signed 64-bit read.
fn read_i64_le(data: &[u8], off: usize) -> (r: i64)
    requires
        off + 8 <= data@.len(),
    ensures
        r as int == i64_le_at(data@, off as int),
{
    let u: u64 = data[off] as u64 + data[off + 1] as u64 * 0x100 + data[off + 2] as u64
        * 0x10000 + data[off + 3] as u64 * 0x1000000 + data[off + 4] as u64 * 0x100000000 + data[
        off + 5] as u64 * 0x10000000000 + data[off + 6] as u64 * 0x1000000000000 + data[off
        + 7] as u64 * 0x100000000000000;
    if u < 0x8000_0000_0000_0000 {
        u as i64
    } else {
        // two's complement: the value is `u - 2^64`
        let m: u64 = (0xFFFF_FFFF_FFFF_FFFF - u) + 1;
        if m == 0x8000_0000_0000_0000 {
            i64::MIN
        } else {
            -(m as i64)
        }
    }
}

fn dims_equal(a: &Vec<usize>, b: &Vec<usize>) -> (r: bool)
    ensures
        r <==> a@ == b@,
{
    if a.len() != b.len() {
        return false;
    }
    let n: usize = a.len();
    let mut i: usize = 0;
    while i < n
        invariant
            0 <= i <= n,
            a@.len() == n,
            b@.len() == n,
            forall|j: int| 0 <= j < i ==> a@[j] == b@[j],
        decreases n - i,
    {
        if a[i] != b[i] {
            return false;
        }
        i += 1;
    }
    proof {
        assert(a@ =~= b@);
    }
    true
}

/// Runtime value of `expected_weight_count`, or `None` when it exceeds
/// what a `usize` can count (unreachable for any buildable
/// configuration).
fn expected_count_exec(c: &WhisperConfig) -> (r: Option<usize>)
    ensures
        match r {
            Some(n) => n as int == expected_weight_count(*c),
            None => expected_weight_count(*c) > usize::MAX as int,
        },
{
    if c.n_audio_layer as u64 > (u64::MAX - 3) / 6 {
        return None;
    }
    let a: u64 = 3 + 6 * (c.n_audio_layer as u64);
    if c.n_text_layer as u64 > (u64::MAX - a) / 10 {
        proof {
            assert(expected_weight_count(*c) > u64::MAX) by (nonlinear_arith)
                requires
                    expected_weight_count(*c) == 3 + 6 * c.n_audio_layer as int + 10
                        * c.n_text_layer as int,
                    a == 3 + 6 * c.n_audio_layer as int,
                    a <= u64::MAX,
                    c.n_text_layer as int > ((u64::MAX - a) as int) / 10,
            ;
        }
        return None;
    }
    let total: u64 = a + 10 * (c.n_text_layer as u64);
    if total <= usize::MAX as u64 {
        Some(total as usize)
    } else {
        None
    }
}

/// Runtime value of `expected_shape`.
fn expected_dims_exec(c: &WhisperConfig, i: usize) -> (r: Vec<usize>)
    ensures
        r@ == expected_shape(*c, i as int),
{
    let mut v: Vec<usize> = Vec::new();
    if i == 0 {
        v.push(c.n_vocab);
        v.push(c.n_audio_state);
    } else if i == 1 {
        v.push(c.n_mels);
        v.push(c.n_audio_state);
    } else if i == 2 {
        v.push(c.n_audio_state);
        v.push(c.n_vocab);
    } else {
        v.push(c.n_audio_state);
        v.push(c.n_audio_state);
    }
    proof {
        assert(v@ =~= expected_shape(*c, i as int));
    }
    v
}

} // verus!
