use socket::parser::HttpHeaders;

#[test]
fn new_collector_is_empty() {
    let h = HttpHeaders::new();
    assert!(h.field.is_empty());
    assert!(h.value.is_empty());
    assert!(h.get_all_headers().is_empty());
}

#[test]
fn name_then_value_stores_pair() {
    let mut h = HttpHeaders::new();
    assert!(h.on_header_field(b"Host"));
    assert_eq!(h.field, "Host");
    assert!(h.on_header_value(b"example.com"));
    assert!(h.field.is_empty());
    assert!(h.value.is_empty());
    let m = h.get_all_headers();
    assert_eq!(m.len(), 1);
    assert_eq!(m.get("Host").map(|s| s.as_str()), Some("example.com"));
}

#[test]
fn several_headers_are_collected() {
    let mut h = HttpHeaders::new();
    h.on_header_field(b"Upgrade");
    h.on_header_value(b"websocket");
    h.on_header_field(b"Connection");
    h.on_header_value(b"Upgrade");
    let m = h.get_all_headers();
    assert_eq!(m.len(), 2);
    assert_eq!(m["Upgrade"], "websocket");
    assert_eq!(m["Connection"], "Upgrade");
}

#[test]
fn empty_value_is_not_stored() {
    let mut h = HttpHeaders::new();
    h.on_header_field(b"X-Empty");
    h.on_header_value(b"");
    assert_eq!(h.field, "X-Empty");
    assert!(h.value.is_empty());
    assert!(h.get_all_headers().is_empty());
}

#[test]
fn value_without_name_is_kept_pending() {
    let mut h = HttpHeaders::new();
    h.on_header_value(b"orphan");
    assert_eq!(h.value, "orphan");
    assert!(h.field.is_empty());
    assert!(h.get_all_headers().is_empty());
}

#[test]
fn last_value_for_a_name_wins() {
    let mut h = HttpHeaders::new();
    h.on_header_field(b"Accept");
    h.on_header_value(b"text/html");
    h.on_header_field(b"Accept");
    h.on_header_value(b"*/*");
    let m = h.get_all_headers();
    assert_eq!(m.len(), 1);
    assert_eq!(m["Accept"], "*/*");
}

#[test]
fn utf8_text_is_decoded() {
    let mut h = HttpHeaders::new();
    h.on_header_field("Größe".as_bytes());
    h.on_header_value("黑风".as_bytes());
    assert_eq!(h.get_all_headers()["Größe"], "黑风");
}
