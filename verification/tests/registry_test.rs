use alayasiki::lightweight::{
    register_default_lightweight_models, GlmFlashLiteExtractor, LightweightModel,
    TriplexLiteExtractor,
};
use alayasiki::ner::{EntityExtractor, MockEntityExtractor};
use alayasiki::registry::{parse_model_ref, ModelRegistry, RegistryError};
use alayasiki::worker::Worker;

#[test]
fn test_parse_model_ref() {
    let (model_id, version) = parse_model_ref("triplex-lite@1.0.0");
    assert_eq!(model_id, "triplex-lite");
    assert_eq!(version.as_deref(), Some("1.0.0"));

    let (model_id, version) = parse_model_ref("triplex-lite");
    assert_eq!(model_id, "triplex-lite");
    assert_eq!(version, None);
}

#[test]
fn test_register_duplicate_fails() {
    let mut registry = ModelRegistry::new();
    registry
        .register("triplex-lite", "1.0.0", LightweightModel::TriplexLite)
        .unwrap();

    let err = registry
        .register("triplex-lite", "1.0.0", LightweightModel::TriplexLite)
        .unwrap_err();

    assert_eq!(
        err,
        RegistryError::VersionAlreadyExists {
            model_id: "triplex-lite".to_string(),
            version: "1.0.0".to_string(),
        }
    );
}

#[test]
fn test_registry_register_activate_and_resolve() {
    let mut registry = ModelRegistry::new();
    registry
        .register("triplex-lite", "1.0.0", LightweightModel::TriplexLite)
        .unwrap();

    registry.activate("triplex-lite", "1.0.0").unwrap();

    let resolved = registry.resolve("triplex-lite").unwrap();
    assert_eq!(resolved.model_id, "triplex-lite");
    assert_eq!(resolved.version, "1.0.0");
}

#[test]
fn test_registry_rollback_restores_previous_active_version() {
    let mut registry = ModelRegistry::new();
    registry
        .register("glm-flash-lite", "1.0.0", LightweightModel::GlmFlashLite)
        .unwrap();
    registry
        .register("glm-flash-lite", "1.1.0", LightweightModel::GlmFlashLite)
        .unwrap();

    registry.activate("glm-flash-lite", "1.0.0").unwrap();
    registry.activate("glm-flash-lite", "1.1.0").unwrap();
    let rolled_back = registry.rollback("glm-flash-lite").unwrap();

    assert_eq!(rolled_back.version, "1.0.0");
}

#[test]
fn test_registry_resolve_missing_model_returns_error() {
    let registry: ModelRegistry<LightweightModel> = ModelRegistry::new();
    let result = registry.resolve("missing-model");
    assert!(matches!(result, Err(RegistryError::ModelNotFound(_))));
}

#[test]
fn model_ref_with_empty_side_names_the_whole_reference() {
    assert_eq!(parse_model_ref("@1.0.0"), ("@1.0.0".to_string(), None));
    assert_eq!(parse_model_ref("model@"), ("model@".to_string(), None));
    assert_eq!(
        parse_model_ref("a@b@c"),
        ("a".to_string(), Some("b@c".to_string()))
    );
    assert_eq!(parse_model_ref(""), ("".to_string(), None));
}

#[test]
fn resolve_pinned_version_and_report_unknown_version() {
    let mut registry = ModelRegistry::new();
    registry.register("m", "1", LightweightModel::TriplexLite).unwrap();
    registry.register("m", "2", LightweightModel::GlmFlashLite).unwrap();
    let pinned = registry.resolve("m@2").unwrap();
    assert_eq!(pinned.version, "2");
    assert_eq!(pinned.extractor, LightweightModel::GlmFlashLite);
    let active = registry.resolve("m").unwrap();
    assert_eq!(active.version, "1");
    assert_eq!(
        registry.resolve("m@3").unwrap_err(),
        RegistryError::VersionNotFound { model_id: "m".to_string(), version: "3".to_string() }
    );
    assert_eq!(
        registry.activate("m", "9").unwrap_err(),
        RegistryError::VersionNotFound { model_id: "m".to_string(), version: "9".to_string() }
    );
    assert_eq!(
        registry.activate("x", "1").unwrap_err(),
        RegistryError::ModelNotFound("x".to_string())
    );
}

#[test]
fn rollback_needs_an_earlier_activation() {
    let mut registry = ModelRegistry::new();
    assert_eq!(
        registry.rollback("m").unwrap_err(),
        RegistryError::ModelNotFound("m".to_string())
    );
    registry.register("m", "1", LightweightModel::TriplexLite).unwrap();
    assert_eq!(
        registry.rollback("m").unwrap_err(),
        RegistryError::NoRollbackTarget("m".to_string())
    );
    registry.activate("m", "1").unwrap();
    assert_eq!(
        registry.rollback("m").unwrap_err(),
        RegistryError::NoRollbackTarget("m".to_string())
    );
}

#[test]
fn default_lightweight_models_are_registered() {
    let mut registry = ModelRegistry::new();
    register_default_lightweight_models(&mut registry).unwrap();
    assert_eq!(registry.resolve("triplex-lite").unwrap().version, "1.0.0");
    assert_eq!(
        registry.resolve("glm-4-flash-lite").unwrap().extractor,
        LightweightModel::GlmFlashLite
    );
    assert!(register_default_lightweight_models(&mut registry).is_err());
}

#[test]
fn worker_falls_back_to_its_default_model() {
    let mut registry = ModelRegistry::new();
    register_default_lightweight_models(&mut registry).unwrap();
    let worker = Worker::with_registry(registry, "triplex-lite");
    assert_eq!(worker.resolve_model("glm-4-flash-lite").unwrap().model_id, "glm-4-flash-lite");
    assert_eq!(worker.resolve_model("unknown").unwrap().model_id, "triplex-lite");
    let legacy = Worker::new(LightweightModel::GlmFlashLite);
    assert_eq!(legacy.resolve_model("whatever").unwrap().model_id, "legacy-default");
}

#[test]
fn test_mock_extraction() {
    let extractor = MockEntityExtractor::new();
    let text = "I love programming in Rust and building AI systems.";
    let entities = extractor.extract(text).unwrap();

    assert!(entities
        .iter()
        .any(|e| e.text == "Rust" && e.label == "Language"));
    assert!(entities
        .iter()
        .any(|e| e.text == "AI" && e.label == "Topic"));
}

#[test]
fn test_triplex_extractor_returns_relation_signals() {
    let extractor = TriplexLiteExtractor;
    let out = extractor
        .extract("The startup acquired another company in a partnership")
        .unwrap();

    assert!(!out.is_empty());
    assert!(out.iter().any(|e| e.label == "RelationSignal"));
}

#[test]
fn test_glm_flash_extractor_returns_technical_topics() {
    let extractor = GlmFlashLiteExtractor;
    let out = extractor
        .extract("Graph database query over vector index")
        .unwrap();

    assert!(out.iter().any(|e| e.label == "TechnicalTopic"));
}

#[test]
fn extractors_list_keywords_in_order_with_their_confidence() {
    let out = TriplexLiteExtractor
        .extract("A company merged; Rust was invested in")
        .unwrap();
    let texts: Vec<&str> = out.iter().map(|e| e.text.as_str()).collect();
    assert_eq!(texts, vec!["merged", "invested", "company", "rust"]);
    assert_eq!(f32::from_bits(out[0].confidence), 0.86);
    assert_eq!(f32::from_bits(out[2].confidence), 0.82);
    assert_eq!(f32::from_bits(out[3].confidence), 0.8);
    let glm = GlmFlashLiteExtractor.extract("INDEX and Query").unwrap();
    assert_eq!(glm.len(), 2);
    assert_eq!(f32::from_bits(glm[0].confidence), 0.84);
    let mock = MockEntityExtractor::new().extract("python").unwrap();
    assert_eq!(mock.len(), 1);
    assert_eq!(mock[0].text, "Python");
    assert_eq!(f32::from_bits(mock[0].confidence), 0.9);
}
