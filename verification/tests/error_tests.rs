use electric_client::ElectricError;

#[test]
fn fetch_error_display() {
    let e = ElectricError::Fetch {
        status: 409,
        body: "must-refetch".to_string(),
        headers: Vec::new(),
        url: "http://localhost:3000/v1/shape".to_string(),
    };
    assert!(e.to_string().contains("409"));
    assert!(e.to_string().contains("must-refetch"));
}

#[test]
fn null_value_error_display() {
    let e = ElectricError::ParserNullValue {
        column: "user_id".to_string(),
    };
    assert!(e.to_string().contains("user_id"));
}

#[test]
fn missing_header_error_display() {
    let e = ElectricError::MissingHeader {
        header: "electric-handle".to_string(),
    };
    assert!(e.to_string().contains("electric-handle"));
}

#[test]
fn fetch_error_text_is_exact() {
    let e = ElectricError::Fetch {
        status: 503,
        body: "busy".to_string(),
        headers: vec![("retry-after".to_string(), "2".to_string())],
        url: "http://x/v1/shape".to_string(),
    };
    assert_eq!(e.to_string(), "HTTP 503 from http://x/v1/shape: busy");
}

#[test]
fn every_variant_has_its_text() {
    assert_eq!(ElectricError::BackoffAborted.to_string(), "Fetch aborted during backoff");
    assert_eq!(ElectricError::MissingShapeUrl.to_string(), "Missing required option: url");
    assert_eq!(ElectricError::MissingShapeTable.to_string(), "Missing required option: table");
    assert_eq!(
        ElectricError::MissingShapeHandle.to_string(),
        "shape handle is required when offset is not -1"
    );
    assert_eq!(
        ElectricError::ReservedParam(vec!["offset".to_string(), "live".to_string()]).to_string(),
        "Cannot use reserved Electric parameter names: [\"offset\", \"live\"]"
    );
    assert_eq!(
        ElectricError::ParserNullValue { column: "c".to_string() }.to_string(),
        "Column \"c\" is NOT NULL but received a null value"
    );
    assert_eq!(
        ElectricError::MissingHeader { header: "h".to_string() }.to_string(),
        "Missing required response header: h"
    );
    assert_eq!(ElectricError::Network("down".to_string()).to_string(), "Network error: down");
    assert_eq!(ElectricError::Json("bad".to_string()).to_string(), "JSON error: bad");
    assert_eq!(ElectricError::Url("rel".to_string()).to_string(), "URL parse error: rel");
    assert_eq!(
        ElectricError::InvalidOffset("x".to_string()).to_string(),
        "Invalid offset string: \"x\""
    );
    assert_eq!(ElectricError::StreamClosed.to_string(), "Stream closed unexpectedly");
    assert_eq!(ElectricError::Stream("gone".to_string()).to_string(), "gone");
}
