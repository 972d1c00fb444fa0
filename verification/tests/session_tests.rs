use pinterest_parser::session::{limited_amount, server_url, GUEST_PIN_CAP};

#[test]
fn limited_amount_keeps_small_requests() {
    assert_eq!(limited_amount(0), 0);
    assert_eq!(limited_amount(10), 10);
    assert_eq!(limited_amount(30), 30);
}

#[test]
fn limited_amount_caps_at_thirty() {
    assert_eq!(GUEST_PIN_CAP, 30);
    assert_eq!(limited_amount(31), 30);
    assert_eq!(limited_amount(200), 30);
    assert_eq!(limited_amount(usize::MAX), 30);
}

#[test]
fn server_url_names_the_local_port() {
    assert_eq!(server_url(9515), "http://localhost:9515");
    assert_eq!(server_url(0), "http://localhost:0");
    assert_eq!(server_url(65535), "http://localhost:65535");
}
