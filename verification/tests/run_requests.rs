use sentinel::routes::{decode_config_text, ConfigDecodeError, CreateRunRequest, RunResponse};

#[test]
fn config_text_is_decoded_from_base64() {
    assert_eq!(
        decode_config_text("dmVyc2lvbiA9ICIxIgo=").unwrap(),
        "version = \"1\"\n"
    );
    assert_eq!(decode_config_text("").unwrap(), "");
}

#[test]
fn config_that_is_not_base64_is_refused() {
    assert_eq!(decode_config_text("!!not base64!!"), Err(ConfigDecodeError::NotBase64));
    assert_eq!(decode_config_text("dmVyc2lvbg"), Err(ConfigDecodeError::NotBase64));
}

#[test]
fn config_that_is_not_utf8_is_refused() {
    assert_eq!(decode_config_text("//4="), Err(ConfigDecodeError::NotUtf8));
}

#[test]
fn accepted_requests_are_answered_queued() {
    let req = CreateRunRequest {
        repo: "https://example.com/r.git".to_string(),
        commit_sha: "deadbeef".to_string(),
        pr_number: None,
        config_b64: String::new(),
    };
    let a = RunResponse::queued(&req);
    let b = RunResponse::queued(&req);
    assert_eq!(a.status, "queued");
    assert_eq!(a.repo, "https://example.com/r.git");
    assert_eq!(a.commit_sha, "deadbeef");
    let id = uuid::Uuid::parse_str(&a.id).unwrap();
    assert_eq!(id.to_string(), a.id);
    assert_eq!(id.get_version_num(), 4);
    assert_ne!(a.id, b.id);
}
