use alayasiki::api::{
    ApiPayloadError, AudioIngestionPayload, ImageIngestionPayload, JsonIngestionPayload,
    MultipartIngestionPayload,
};
use alayasiki::ingest::IngestionRequest;
use alayasiki::sorted_map::Metadata;

fn value_of<'a>(metadata: &'a Metadata, key: &str) -> Option<&'a str> {
    metadata.get(&key.to_string()).map(|v| v.as_str())
}

#[test]
fn test_json_payload_for_json_content_maps_to_file_request() {
    let payload = JsonIngestionPayload {
        content: "{\"title\":\"doc\"}".to_string(),
        content_type: "application/json".to_string(),
        metadata: Metadata::new(),
        idempotency_key: Some("json-key".to_string()),
        model_id: Some("embedding-default-v1".to_string()),
    };

    match payload.into_request() {
        IngestionRequest::File {
            filename,
            mime_type,
            idempotency_key,
            model_id,
            ..
        } => {
            assert_eq!(filename, "payload.json");
            assert_eq!(mime_type, "application/json");
            assert_eq!(idempotency_key.as_deref(), Some("json-key"));
            assert_eq!(model_id.as_deref(), Some("embedding-default-v1"));
        }
        other => panic!("expected file request, got {:?}", other),
    }
}

#[test]
fn test_image_payload_into_request_sets_image_modality() {
    let payload = ImageIngestionPayload {
        filename: "graph.png".to_string(),
        content: vec![0x89, 0x50],
        mime_type: "image/png".to_string(),
        metadata: Metadata::new(),
        idempotency_key: Some("image-key".to_string()),
        model_id: None,
    };

    match payload.try_into_request().unwrap() {
        IngestionRequest::File {
            metadata,
            mime_type,
            idempotency_key,
            ..
        } => {
            assert_eq!(mime_type, "image/png");
            assert_eq!(value_of(&metadata, "modality"), Some("image"));
            assert_eq!(idempotency_key.as_deref(), Some("image-key"));
        }
        other => panic!("expected file request, got {:?}", other),
    }
}

#[test]
fn test_audio_payload_into_request_sets_audio_modality() {
    let payload = AudioIngestionPayload {
        filename: "voice.wav".to_string(),
        content: vec![0x52, 0x49, 0x46, 0x46],
        mime_type: "audio/wav".to_string(),
        metadata: Metadata::new(),
        idempotency_key: None,
        model_id: Some("embedding-default-v1".to_string()),
    };

    match payload.try_into_request().unwrap() {
        IngestionRequest::File {
            metadata,
            model_id,
            mime_type,
            ..
        } => {
            assert_eq!(mime_type, "audio/wav");
            assert_eq!(value_of(&metadata, "modality"), Some("audio"));
            assert_eq!(model_id.as_deref(), Some("embedding-default-v1"));
        }
        other => panic!("expected file request, got {:?}", other),
    }
}

#[test]
fn test_media_payload_from_multipart_preserves_existing_modality() {
    let mut metadata = Metadata::new();
    metadata.insert("modality".to_string(), "custom-modality".to_string());

    let multipart = MultipartIngestionPayload {
        filename: "call.mp3".to_string(),
        content: vec![1, 2, 3],
        mime_type: "audio/mpeg".to_string(),
        metadata,
        idempotency_key: Some("audio-1".to_string()),
        model_id: None,
    };

    let audio_payload: AudioIngestionPayload = multipart.into();
    match audio_payload.try_into_request().unwrap() {
        IngestionRequest::File { metadata, .. } => {
            assert_eq!(value_of(&metadata, "modality"), Some("custom-modality"));
        }
        other => panic!("expected file request, got {:?}", other),
    }
}

#[test]
fn json_payload_with_other_content_type_is_a_text_request() {
    let payload = JsonIngestionPayload {
        content: "plain words".to_string(),
        content_type: "text/plain".to_string(),
        metadata: Metadata::new(),
        idempotency_key: None,
        model_id: None,
    };
    assert_eq!(
        payload.into_request(),
        IngestionRequest::text("plain words".to_string(), Metadata::new())
    );
}

#[test]
fn json_content_type_is_matched_in_any_case() {
    let payload = JsonIngestionPayload {
        content: "{}".to_string(),
        content_type: "Application/JSON".to_string(),
        metadata: Metadata::new(),
        idempotency_key: None,
        model_id: None,
    };
    match payload.into_request() {
        IngestionRequest::File { content, mime_type, .. } => {
            assert_eq!(content, b"{}".to_vec());
            assert_eq!(mime_type, "Application/JSON");
        }
        other => panic!("expected file request, got {:?}", other),
    }
}

#[test]
fn media_payload_with_wrong_type_is_rejected() {
    let payload = ImageIngestionPayload {
        filename: "voice.wav".to_string(),
        content: vec![1],
        mime_type: "audio/wav".to_string(),
        metadata: Metadata::new(),
        idempotency_key: None,
        model_id: None,
    };
    assert_eq!(
        payload.try_into_request(),
        Err(ApiPayloadError::InvalidMediaMimeType {
            expected_modality: "image",
            actual_mime_type: "audio/wav".to_string(),
        })
    );
}

#[test]
fn media_type_parameters_and_case_are_ignored() {
    let payload = ImageIngestionPayload {
        filename: "a.png".to_string(),
        content: vec![1],
        mime_type: " IMAGE/PNG ; charset=binary".to_string(),
        metadata: Metadata::new(),
        idempotency_key: None,
        model_id: None,
    };
    assert!(payload.try_into_request().is_ok());
}

#[test]
fn multipart_payload_becomes_its_file() {
    let multipart = MultipartIngestionPayload {
        filename: "notes.txt".to_string(),
        content: b"hello".to_vec(),
        mime_type: "text/plain".to_string(),
        metadata: Metadata::new(),
        idempotency_key: None,
        model_id: None,
    };
    assert_eq!(
        multipart.into_request(),
        IngestionRequest::file(
            "notes.txt".to_string(),
            b"hello".to_vec(),
            "text/plain".to_string(),
            Metadata::new()
        )
    );
}

#[test]
fn image_payload_from_multipart_keeps_every_field() {
    let multipart = MultipartIngestionPayload {
        filename: "a.png".to_string(),
        content: vec![7, 8],
        mime_type: "image/png".to_string(),
        metadata: Metadata::new(),
        idempotency_key: Some("k".to_string()),
        model_id: Some("m".to_string()),
    };
    let image = ImageIngestionPayload::from(multipart);
    assert_eq!(image.filename, "a.png");
    assert_eq!(image.content, vec![7, 8]);
    assert_eq!(image.mime_type, "image/png");
    assert_eq!(image.idempotency_key.as_deref(), Some("k"));
    assert_eq!(image.model_id.as_deref(), Some("m"));
}
