use iboardbot::response::{check_board_id, ApiResponse};

#[test]
fn ok_carries_data() {
    let (code, r) = ApiResponse::ok(Some(5u32));
    assert_eq!(code, 200);
    assert!(r.success);
    assert_eq!(r.error, None);
    assert_eq!(r.data, Some(5));
}

#[test]
fn not_found_names_what() {
    let (code, r) = ApiResponse::<u32>::not_found("Board");
    assert_eq!(code, 404);
    assert!(!r.success);
    assert_eq!(r.error.as_deref(), Some("Board not found"));
    assert_eq!(r.data, None);
}

#[test]
fn option_chooses() {
    let (code, r) = ApiResponse::option(Some("x".to_string()), "Job");
    assert_eq!((code, r.data), (200, Some("x".to_string())));
    let (code, r) = ApiResponse::<String>::option(None, "Job");
    assert_eq!((code, r.error), (404, Some("Job not found".to_string())));
}

#[test]
fn bad_request_keeps_reason() {
    let (code, r) = ApiResponse::<u8>::bad_req("Invalid file".to_string());
    assert_eq!(code, 400);
    assert_eq!(r.error.as_deref(), Some("Invalid file"));
    assert!(!r.success);
}

#[test]
fn server_errors_hide_details() {
    let (code, r) = ApiResponse::<u8>::internal_server_error();
    assert_eq!((code, r.error.as_deref()), (500, Some("internal server error")));
    let (code, r) = ApiResponse::<u8>::err();
    assert_eq!((code, r.error.as_deref(), r.success), (500, Some("internal server error"), false));
}

#[test]
fn placeholder_board_is_refused() {
    let r = check_board_id::<u8>("{boardId}").expect("refused");
    assert_eq!(r.0, 400);
    assert_eq!(r.1.error.as_deref(), Some("Skipping {boardId} board"));
    assert!(check_board_id::<u8>("main").is_none());
    assert!(check_board_id::<u8>("{boardid}").is_none());
}
