use response_compression::headers::HeaderMap;

#[test]
fn test_header_map_basic_ops() {
    let mut h = HeaderMap::new();
    assert_eq!(h.len(), 0);
    assert!(h.get(b"content-type").is_none());

    h.append(b"content-type".to_vec(), b"text/html".to_vec());
    h.append(b"vary".to_vec(), b"origin".to_vec());
    assert_eq!(h.len(), 2);
    assert_eq!(h.get(b"content-type").unwrap().as_slice(), b"text/html");

    // Names compare case-insensitively.
    assert_eq!(h.get(b"Content-Type").unwrap().as_slice(), b"text/html");
    assert!(h.contains_name(b"VARY"));
}

#[test]
fn test_header_map_get_returns_first_value() {
    let mut h = HeaderMap::new();
    h.append(b"vary".to_vec(), b"origin".to_vec());
    h.append(b"vary".to_vec(), b"accept".to_vec());
    assert_eq!(h.get(b"vary").unwrap().as_slice(), b"origin");
    let all = h.values(b"vary");
    assert_eq!(all.len(), 2);
    assert_eq!(all[0].as_slice(), b"origin");
    assert_eq!(all[1].as_slice(), b"accept");
}

#[test]
fn test_header_map_insert_replaces_all() {
    let mut h = HeaderMap::new();
    h.append(b"vary".to_vec(), b"origin".to_vec());
    h.append(b"other".to_vec(), b"x".to_vec());
    h.append(b"Vary".to_vec(), b"accept".to_vec());
    h.insert(b"vary".to_vec(), b"*".to_vec());
    let all = h.values(b"vary");
    assert_eq!(all.len(), 1);
    assert_eq!(all[0].as_slice(), b"*");
    assert_eq!(h.get(b"other").unwrap().as_slice(), b"x");
}

#[test]
fn test_header_map_remove_removes_all() {
    let mut h = HeaderMap::new();
    h.append(b"set-cookie".to_vec(), b"a=1".to_vec());
    h.append(b"Set-Cookie".to_vec(), b"b=2".to_vec());
    h.append(b"other".to_vec(), b"x".to_vec());
    h.remove(b"set-cookie");
    assert!(h.get(b"set-cookie").is_none());
    assert_eq!(h.len(), 1);
    assert_eq!(h.get(b"other").unwrap().as_slice(), b"x");
}
