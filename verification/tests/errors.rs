use ferrite_db::errors::{Error, ErrorClass, Result};

#[test]
fn every_variant_constructs_and_classifies() {
    let cases = [
        (Error::Busy, ErrorClass::CallerFixable),
        (
            Error::DimensionMismatch {
                expected: 512,
                actual: 384,
            },
            ErrorClass::CallerFixable,
        ),
        (
            Error::SchemaViolation {
                reason: "duplicate column".to_string(),
            },
            ErrorClass::CallerFixable,
        ),
        (
            Error::TableNotFound {
                name: "embeddings".to_string(),
            },
            ErrorClass::CallerFixable,
        ),
        (
            Error::Io(std::io::Error::other("disk offline")),
            ErrorClass::Operational,
        ),
        (
            Error::CorruptSegment {
                detail: "footer checksum mismatch".to_string(),
            },
            ErrorClass::Operational,
        ),
    ];
    for (error, want) in cases {
        assert_eq!(error.class(), want, "wrong class for {error:?}");
    }
}

#[test]
fn display_is_actionable() {
    let e = Error::DimensionMismatch {
        expected: 512,
        actual: 384,
    };
    let s = e.to_string();
    assert!(s.contains("512") && s.contains("384"), "got: {s}");

    let e = Error::TableNotFound {
        name: "embeddings".to_string(),
    };
    assert!(e.to_string().contains("embeddings"));

    let e = Error::CorruptSegment {
        detail: "footer checksum mismatch".to_string(),
    };
    assert!(e.to_string().contains("footer checksum mismatch"));
}

#[test]
fn only_io_exposes_a_source() {
    let io_error = std::io::Error::other("disk offline");
    let e: Error = Error::from_io(io_error);
    assert!(e.io_source().is_some());

    let e = Error::Busy;
    assert!(e.io_source().is_none());
}

#[test]
fn result_alias_defaults_to_taxonomy() {
    fn falls() -> Result<()> {
        Err(Error::Busy)
    }
    let r: Result<()> = falls();
    assert_eq!(r.unwrap_err().class(), ErrorClass::CallerFixable);
}

#[test]
fn messages_are_exact() {
    assert_eq!(
        Error::DimensionMismatch { expected: 512, actual: 384 }.to_string(),
        "dimension mismatch: table expects 512, got 384"
    );
    assert_eq!(
        Error::DimensionMismatch { expected: 0, actual: 4294967295 }.to_string(),
        "dimension mismatch: table expects 0, got 4294967295"
    );
    assert_eq!(Error::Busy.to_string(), "search admission shed this call; retry later");
    assert_eq!(
        Error::from_io(std::io::Error::other("disk offline")).to_string(),
        "io error: disk offline"
    );
    assert_eq!(
        Error::CorruptSegment { detail: "bad magic".to_string() }.to_string(),
        "corrupt segment: bad magic"
    );
}
