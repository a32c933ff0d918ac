use rev_init::naming::parse_service;
use rev_init::naming::ParseServiceError;

#[test]
fn test_parse_service_name() {
    let cases = vec![
        ("com.rovelstars.files", None),
        (
            "com.rovelstars.files/indexer",
            Some((
                "com.rovelstars.files",
                "indexer",
                "com.rovelstars.files/indexer.rsc",
            )),
        ),
        (
            "com.rovelstars.files/indexer.rsc",
            Some((
                "com.rovelstars.files",
                "indexer.rsc",
                "com.rovelstars.files/indexer.rsc",
            )),
        ),
        ("com.rovelstars", None),
        ("com.rovelstars/files/indexer", None),
        ("com.rovelstars.files/", None),
        ("com.rovelstars.files/.rsc", None),
        ("com.rovelstars.files/indexer.txt", None),
        (
            "com.rovelstars.files/backup/cloud-service-a",
            Some((
                "com.rovelstars.files",
                "backup/cloud-service-a",
                "com.rovelstars.files/backup/cloud-service-a.rsc",
            )),
        ),
        ("files/indexer", None),
    ];

    for (input, expected) in cases {
        let result = parse_service(input);
        match expected {
            Some((app_id, service, file_path)) => {
                let (res_app_id, res_service, res_file_path) =
                    result.expect("Expected valid result");
                assert_eq!(res_app_id, app_id);
                assert_eq!(res_service, service);
                assert_eq!(res_file_path, file_path);
            }
            None => {
                assert!(
                    result.is_err(),
                    "Expected error for input: {}, but got Ok",
                    input
                );
            }
        }
    }
}

#[test]
fn parse_service_error_variants() {
    assert_eq!(
        parse_service("com.rovelstars.files"),
        Err(ParseServiceError::InvalidFormat)
    );
    assert_eq!(
        parse_service("files/indexer"),
        Err(ParseServiceError::InvalidAppId)
    );
    assert_eq!(
        parse_service("com.rovelstars.files/"),
        Err(ParseServiceError::EmptyServiceName)
    );
    assert_eq!(
        parse_service("com.rovelstars.files/.rsc"),
        Err(ParseServiceError::EmptyServiceName)
    );
    assert_eq!(
        parse_service("com.rovelstars.files/indexer.txt"),
        Err(ParseServiceError::InvalidExtension)
    );
}
