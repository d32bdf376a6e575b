use oblivion_session::logging::log_line;

#[test]
fn log_line_is_timestamp_service_event() {
    assert_eq!(
        log_line("1700000000", "compositor", "launched"),
        "1700000000 compositor launched"
    );
}

#[test]
fn log_line_keeps_fields_verbatim() {
    assert_eq!(log_line("0", "session", "shutdown-requested"), "0 session shutdown-requested");
}
