use comsrv_protocols::http::{
    check_host, check_response_size, validate_url, initial_poll_state, poll_step, PollAction, PollEvent, PollLinkState, HttpError, MAX_RESPONSE_BYTES, HttpMethod, HttpMode, HttpParamsConfig, UrlHost, WebhookError,
    WebhookHandler,
};

#[test]
fn test_http_params_default() {
    let params = HttpParamsConfig::default();
    assert_eq!(params.mode, HttpMode::Polling);
    assert!(params.url.is_none());
    assert_eq!(params.method, HttpMethod::GET);
    assert!(params.headers.is_empty());
}

#[test]
fn params_to_config() {
    let mut params = HttpParamsConfig::default();
    params.url = Some("http://192.168.1.100/api/data".to_string());
    params.headers.insert("Authorization".to_string(), "Bearer xxx".to_string());
    let c = params.to_config();
    assert_eq!(c.url.as_deref(), Some("http://192.168.1.100/api/data"));
    assert_eq!(c.interval, std::time::Duration::from_millis(5000));
    assert_eq!(c.timeout, std::time::Duration::from_millis(3000));
    assert_eq!(c.retry_delay, std::time::Duration::from_millis(1000));
    assert_eq!(c.max_retries, 3);
    assert_eq!(c.headers.get("Authorization").map(String::as_str), Some("Bearer xxx"));
    assert_eq!(HttpMethod::POST.name(), "POST");
    assert_eq!(HttpMode::default(), HttpMode::Polling);
}

#[test]
fn internal_hosts_are_refused() {
    assert_eq!(check_host(&UrlHost::Name("LocalHost".to_string())), Err(HttpError::BlockedHost));
    assert_eq!(check_host(&UrlHost::Name("0.0.0.0".to_string())), Err(HttpError::BlockedHost));
    assert_eq!(check_host(&UrlHost::Name("device.local".to_string())), Ok(()));
    assert_eq!(check_host(&UrlHost::V4([127, 0, 0, 1])), Err(HttpError::BlockedHost));
    assert_eq!(check_host(&UrlHost::V4([169, 254, 1, 1])), Err(HttpError::BlockedHost));
    assert_eq!(check_host(&UrlHost::V4([0, 0, 0, 0])), Err(HttpError::BlockedHost));
    assert_eq!(check_host(&UrlHost::V4([192, 168, 1, 100])), Ok(()));
    assert_eq!(check_host(&UrlHost::V6([0, 0, 0, 0, 0, 0, 0, 1])), Err(HttpError::BlockedHost));
    assert_eq!(check_host(&UrlHost::V6([0; 8])), Err(HttpError::BlockedHost));
    assert_eq!(check_host(&UrlHost::V6([0xfe80, 0, 0, 0, 0, 0, 0, 1])), Ok(()));
}

#[test]
fn webhook_authorization() {
    let open = WebhookHandler::new(1, None);
    assert_eq!(open.authorize(None), Ok(()));
    let h = WebhookHandler::new(2, Some("s3cret".to_string()));
    assert_eq!(h.authorize(None), Err(WebhookError::MissingAuthorization));
    assert_eq!(h.authorize(Some("Bearer s3cret")), Ok(()));
    assert_eq!(h.authorize(Some("s3cret")), Ok(()));
    assert_eq!(h.authorize(Some("Bearer wrong")), Err(WebhookError::InvalidToken));
    assert_eq!(h.authorize(Some("bearer s3cret")), Err(WebhookError::InvalidToken));
}

#[test]
fn response_size_limit() {
    assert_eq!(check_response_size(None), Ok(()));
    assert_eq!(check_response_size(Some(MAX_RESPONSE_BYTES)), Ok(()));
    assert_eq!(
        check_response_size(Some(10 * 1024 * 1024 + 1)),
        Err(HttpError::ResponseTooLarge(10 * 1024 * 1024 + 1))
    );
}

#[test]
fn urls_with_internal_hosts_are_refused() {
    assert_eq!(validate_url("http://192.168.1.10:8080/api/data"), Ok(()));
    assert_eq!(validate_url("https://example.com/x"), Ok(()));
    assert_eq!(validate_url("http://localhost:8080/"), Err(HttpError::BlockedHost));
    assert_eq!(validate_url("http://LOCALHOST/"), Err(HttpError::BlockedHost));
    assert_eq!(validate_url("http://127.0.0.1/"), Err(HttpError::BlockedHost));
    assert_eq!(validate_url("http://0.0.0.0/"), Err(HttpError::BlockedHost));
    assert_eq!(validate_url("http://169.254.169.254/latest"), Err(HttpError::BlockedHost));
    assert_eq!(validate_url("http://[::1]:80/"), Err(HttpError::BlockedHost));
    assert_eq!(validate_url("not a url"), Err(HttpError::InvalidUrl));
    assert_eq!(validate_url("data:text/plain,Stuff"), Err(HttpError::MissingHost));
}

#[test]
fn poll_failures_reach_error_state_and_reset() {
    let mut s = initial_poll_state();
    let (n, a) = poll_step(s, PollEvent::RequestFailed, 3);
    assert_eq!((n.consecutive_failures, n.link), (1, PollLinkState::Connected));
    assert!(a.record_error && !a.announce_error);
    s = n;
    let (n, _) = poll_step(s, PollEvent::BadStatus(500), 3);
    assert_eq!(n.consecutive_failures, 2);
    s = n;
    let (n, a) = poll_step(s, PollEvent::BodyFailed, 3);
    assert_eq!(n, s);
    assert!(a.record_error);
    let (n, a) = poll_step(s, PollEvent::RequestFailed, 3);
    assert_eq!((n.consecutive_failures, n.link), (3, PollLinkState::Error));
    assert!(a.announce_error);
    s = n;
    let (n, a) = poll_step(s, PollEvent::TooLarge(20_000_000), 3);
    assert_eq!((n.consecutive_failures, n.link), (4, PollLinkState::Error));
    assert!(!a.announce_error);
    s = n;
    let (n, a) = poll_step(s, PollEvent::Parsed(2), 3);
    assert_eq!((n.consecutive_failures, n.link), (0, PollLinkState::Connected));
    assert_eq!(a, PollAction { record_error: false, announce_error: false, publish: true });
    let (_, a) = poll_step(n, PollEvent::Parsed(0), 3);
    assert!(!a.publish);
    let (n, a) = poll_step(initial_poll_state(), PollEvent::RequestFailed, 0);
    assert_eq!(n.link, PollLinkState::Connected);
    assert!(!a.announce_error);
}

#[test]
fn ip_literal_names_are_refused() {
    assert_eq!(check_host(&UrlHost::Name("127.0.0.1".to_string())), Err(HttpError::BlockedHost));
    assert_eq!(check_host(&UrlHost::Name("169.254.0.9".to_string())), Err(HttpError::BlockedHost));
    assert_eq!(check_host(&UrlHost::Name("10.0.0.1".to_string())), Ok(()));
    // Rust's address parser refuses leading zeros and fewer than four octets.
    assert_eq!(check_host(&UrlHost::Name("127.0.0.01".to_string())), Ok(()));
    assert_eq!(check_host(&UrlHost::Name("127.1".to_string())), Ok(()));
    assert_eq!(check_host(&UrlHost::Name("127.0.0.256".to_string())), Ok(()));
    assert_eq!(validate_url("foo://127.0.0.1/"), Err(HttpError::BlockedHost));
    assert_eq!(validate_url("foo://device.local/"), Ok(()));
}
