use covert::sdk::{client_headers, get_mount_path, kv_data_path, Response};

#[test]
fn mount_paths_get_slashes() {
    assert_eq!(get_mount_path("kv", "data/foo"), "/kv/data/foo");
    assert_eq!(get_mount_path("/kv/", "data/foo"), "/kv/data/foo");
    assert_eq!(get_mount_path("kv/", "config"), "/kv/config");
}

#[test]
fn kv_paths_with_versions() {
    assert_eq!(kv_data_path("kv", "foo", None), "/kv/data/foo");
    assert_eq!(kv_data_path("kv", "foo", Some(12)), "/kv/data/foo?version=12");
    assert_eq!(kv_data_path("/kv/", "foo", Some(0)), "/kv/data/foo?version=0");
}

#[test]
fn response_into_result() {
    let ok: Response<u8> = Response {
        data: Some(1),
        error: None,
    };
    assert_eq!(ok.into_result(), Ok(1));
    let err: Response<u8> = Response {
        data: None,
        error: Some("boom".to_string()),
    };
    assert_eq!(err.into_result(), Err("boom".to_string()));
    let empty: Response<u8> = Response {
        data: None,
        error: None,
    };
    assert_eq!(
        empty.into_result(),
        Err("Unexpected emtpy response from server".to_string())
    );
}

#[test]
fn headers_carry_token_and_namespace() {
    assert!(client_headers(None, None).is_empty());
    assert_eq!(
        client_headers(Some("t".to_string()), Some("root/foo".to_string())),
        vec![
            ("X-Covert-Token".to_string(), "t".to_string()),
            ("X-Covert-Namespace".to_string(), "root/foo".to_string())
        ]
    );
    assert_eq!(
        client_headers(None, Some("root".to_string())),
        vec![("X-Covert-Namespace".to_string(), "root".to_string())]
    );
}
