use hurlin::failure::{RequestError, StatusCode};
use hurlin::hexkey::HexKey;
use hurlin::keys::{AsyncKey, HurlinKey, TaskId};

#[test]
fn sixteen_digits_make_a_key() {
    for text in ["0123456789abcdef", "0123456789ABCDEF", "aAbBcCdDeEfF0099"] {
        assert_eq!(HexKey::validate(text).ok().unwrap().as_str(), text);
    }
}

#[test]
fn anything_else_makes_none() {
    for text in [
        "",
        "0123456789abcde",
        "0123456789abcdef0",
        "0123456789abcdeg",
        "0123456789abcde ",
        "0123456789abcd/f",
        "0123456789abcd:f",
        "0123456789abcd@f",
        "0123456789abcd`f",
        "0123456789abcdé",
        "éééééééé",
        "éééééééééééééééé",
    ] {
        assert!(HexKey::validate(text).is_err());
        assert!(HurlinKey::validate(text).is_err());
        assert!(TaskId::validate(text).is_err());
        assert!(AsyncKey::validate(text).is_err());
    }
}

#[test]
fn bytes_make_a_key_in_hexadecimal() {
    let key = HexKey::from_bytes([0x00, 0x1f, 0xa0, 0xff, 0x09, 0x90, 0xbe, 0xef]);
    assert_eq!(key.as_str(), "001fa0ff0990beef");
}

#[test]
fn new_keys_are_keys() {
    let a = HexKey::new();
    assert!(a.as_str().bytes().all(|b| b.is_ascii_digit() || (b'a'..=b'f').contains(&b)));
    assert!(HexKey::validate(a.as_str()).ok().unwrap() == a);
    let b = HexKey::new();
    let c = HexKey::new();
    assert!(!(a == b && b == c));
}

#[test]
fn new_keys_of_each_kind_read_back() {
    let key = HurlinKey::new();
    assert!(HurlinKey::validate(key.as_str()) == Ok(key));
    assert_eq!(key.to_string(), key.as_str());
    let key = TaskId::new();
    assert!(TaskId::validate(key.as_str()) == Ok(key));
    assert_eq!(key.to_string(), key.as_str());
    let key = AsyncKey::new();
    assert!(AsyncKey::validate(key.as_str()) == Ok(key));
    assert_eq!(key.to_string(), key.as_str());
}

#[test]
fn keys_are_told_apart_by_their_text() {
    let a = TaskId::validate("0123456789abcdef").ok().unwrap();
    let b = TaskId::validate("0123456789abcdef").ok().unwrap();
    let c = TaskId::validate("0123456789abcdeF").ok().unwrap();
    assert!(a == b);
    assert!(a != c);
}

#[test]
fn malformed_keys_are_bad_requests() {
    let Err(error) = HurlinKey::validate_or_log("xyz") else {
        panic!("a malformed key passed");
    };
    assert!(matches!(error, RequestError::BadHurlinKey));
    assert_eq!(error.status(), StatusCode::BadRequest);
    let Err(error) = TaskId::validate_or_log("xyz") else {
        panic!("a malformed key passed");
    };
    assert!(matches!(error, RequestError::BadTaskId));
    assert_eq!(error.status(), StatusCode::BadRequest);
    assert!(TaskId::validate_or_log("0123456789abcdef").is_ok());
    assert!(HurlinKey::validate_or_log("0123456789abcdef").is_ok());
}

#[test]
fn statuses_have_their_numbers() {
    assert_eq!(StatusCode::BadRequest.as_u16(), 400);
    assert_eq!(StatusCode::Unauthorized.as_u16(), 401);
    assert_eq!(StatusCode::Forbidden.as_u16(), 403);
    assert_eq!(StatusCode::FailedDependency.as_u16(), 424);
    assert_eq!(StatusCode::InternalServerError.as_u16(), 500);
}

#[test]
fn no_refusal_looks_like_success() {
    let text = || "x".to_string();
    let task = TaskId::new();
    for (error, number) in [
        (RequestError::BadPath, 400),
        (RequestError::BadHurlinKey, 400),
        (RequestError::BadTaskId, 400),
        (RequestError::WrongHurlinKey, 403),
        (RequestError::UnknownTask, 400),
        (RequestError::BadImportQuery, 400),
        (RequestError::ExtraImportParameters(vec![text()]), 400),
        (RequestError::NotRunning, 401),
        (RequestError::NotCanonical(text()), 500),
        (RequestError::InternerFull, 500),
        (
            RequestError::ImportCycle {
                imported: text(),
                chain: vec![text()],
            },
            424,
        ),
        (RequestError::BadAsyncKey, 400),
        (RequestError::UnclaimedAsyncKey, 400),
        (RequestError::TaskFailed { task, file: text() }, 424),
    ] {
        assert_eq!(error.status().as_u16(), number);
        assert!(!(200..300).contains(&error.status().as_u16()));
    }
}
