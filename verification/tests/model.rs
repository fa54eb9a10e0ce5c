use navi::model::{whisper_dimensions, HuggingFaceWhisperConfig, ModelDimensions};

#[test]
fn tiny_english_config() {
    let config = HuggingFaceWhisperConfig {
        num_mel_bins: 80,
        d_model: 384,
        max_source_positions: 1500,
        encoder_attention_heads: 6,
        encoder_layers: 4,
        max_target_positions: 448,
        decoder_attention_heads: 6,
        decoder_layers: 4,
        vocab_size: 51864,
    };
    let expected = ModelDimensions {
        n_mels: 80,
        n_audio_ctx: 1500,
        n_audio_state: 384,
        n_audio_head: 6,
        n_audio_layer: 4,
        n_vocab: 51864,
        n_text_ctx: 448,
        n_text_state: 384,
        n_text_head: 6,
        n_text_layer: 4,
    };
    assert_eq!(whisper_dimensions(&config), expected);
}
