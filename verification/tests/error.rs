use petbuddy::error::{AppError, ErrorCode};

#[test]
fn codes_have_stable_names() {
    assert_eq!(ErrorCode::InvalidPetId.as_str(), "invalid_pet_id");
    assert_eq!(ErrorCode::ZipSlip.as_str(), "zip_slip");
    assert_eq!(ErrorCode::TooLarge.as_str(), "too_large");
    assert_eq!(ErrorCode::BadRequest.as_str(), "bad_request");
    assert_eq!(ErrorCode::Network.as_str(), "network");
    assert_eq!(ErrorCode::Io.as_str(), "io");
    assert_eq!(ErrorCode::Platform.as_str(), "platform");
    assert_eq!(ErrorCode::Serialization.as_str(), "serialization");
}

#[test]
fn error_text_is_code_then_message() {
    let e = AppError::invalid_pet_id("../x");
    assert_eq!(e.to_string(), "[invalid_pet_id] 宠物 id 含非法字符或为空: ../x");
    let e = AppError::new(ErrorCode::Platform, "boom".to_string());
    assert_eq!(e.to_string(), "[platform] boom");
}

#[test]
fn outside_errors_keep_their_text() {
    let io = std::io::Error::new(std::io::ErrorKind::NotFound, "gone");
    let e = AppError::from_io(io);
    assert_eq!(e.code, ErrorCode::Io);
    assert_eq!(e.message, "gone");

    let json = serde_json::from_str::<serde_json::Value>("{").unwrap_err();
    let text = json.to_string();
    let e = AppError::from_json(json);
    assert_eq!(e.code, ErrorCode::Serialization);
    assert_eq!(e.message, text);
}

#[test]
fn zip_slip_shows_the_path() {
    let e = AppError::zip_slip(&std::path::PathBuf::from("/etc"));
    assert_eq!(e.code, ErrorCode::ZipSlip);
    assert_eq!(e.message, "路径逃逸出允许目录: \"/etc\"");
}
