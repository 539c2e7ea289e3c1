use gnosis::embed::EmbedConfig;

#[test]
fn embed_config_default_matches_previous_values() {
    let cfg = EmbedConfig::default();
    assert_eq!(cfg.text.model, "bge-small-en-v1.5");
    assert!(!cfg.image.enabled);
    assert_eq!(cfg.image.model, "clip-vit-b-32");
}

#[test]
fn embed_config_default_batches_images() {
    assert_eq!(EmbedConfig::default().image.batch_size, 32);
}
