use vstd::prelude::*;

verus! {

/// The sizes that define a Whisper model.
#[derive(Debug, Clone, Copy, PartialEq, Eq, Structural)]
pub struct ModelDimensions {
    pub n_mels: usize,
    pub n_audio_ctx: usize,
    pub n_audio_state: usize,
    pub n_audio_head: usize,
    pub n_audio_layer: usize,
    pub n_vocab: usize,
    pub n_text_ctx: usize,
    pub n_text_state: usize,
    pub n_text_head: usize,
    pub n_text_layer: usize,
}

/// The fields of a Hugging Face Whisper `config.json` that give the model's sizes.
#[derive(Debug, Clone, Copy, PartialEq, Eq, Structural)]
pub struct HuggingFaceWhisperConfig {
    /// Mel bands of the input.
    pub num_mel_bins: usize,
    /// Width of both the encoder and the decoder.
    pub d_model: usize,
    /// Audio context length.
    pub max_source_positions: usize,
    /// Attention heads of the encoder.
    pub encoder_attention_heads: usize,
    /// Layers of the encoder.
    pub encoder_layers: usize,
    /// Text context length.
    pub max_target_positions: usize,
    /// Attention heads of the decoder.
    pub decoder_attention_heads: usize,
    /// Layers of the decoder.
    pub decoder_layers: usize,
    /// Size of the token vocabulary.
    pub vocab_size: usize,
}

/// The model dimensions that a Hugging Face configuration describes; `d_model` gives the
/// width of both the audio and the text side.
pub fn whisper_dimensions(config: &HuggingFaceWhisperConfig) -> (d: ModelDimensions)
    ensures
        d.n_mels == config.num_mel_bins,
        d.n_audio_ctx == config.max_source_positions,
        d.n_audio_state == config.d_model,
        d.n_audio_head == config.encoder_attention_heads,
        d.n_audio_layer == config.encoder_layers,
        d.n_vocab == config.vocab_size,
        d.n_text_ctx == config.max_target_positions,
        d.n_text_state == config.d_model,
        d.n_text_head == config.decoder_attention_heads,
        d.n_text_layer == config.decoder_layers,
{
    ModelDimensions {
        n_mels: config.num_mel_bins,
        n_audio_ctx: config.max_source_positions,
        n_audio_state: config.d_model,
        n_audio_head: config.encoder_attention_heads,
        n_audio_layer: config.encoder_layers,
        n_vocab: config.vocab_size,
        n_text_ctx: config.max_target_positions,
        n_text_state: config.d_model,
        n_text_head: config.decoder_attention_heads,
        n_text_layer: config.decoder_layers,
    }
}

} // verus!
