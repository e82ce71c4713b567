use session_auth::cookies::{Cookie, Jar};

fn plain_cookie(name: &[u8], value: &[u8], max_age: i64) -> Cookie {
    Cookie {
        name: name.to_vec(),
        value: value.to_vec(),
        domain: b"localhost".to_vec(),
        path: b"/".to_vec(),
        max_age,
        secure: true,
        http_only: true,
    }
}

#[test]
fn parses_a_cookie_header() {
    let jar = Jar::from_request(&b"a=1; b=2".to_vec());
    assert_eq!(jar.get(&b"a".to_vec()), Some(b"1".to_vec()));
    assert_eq!(jar.get(&b"b".to_vec()), Some(b"2".to_vec()));
    assert_eq!(jar.get(&b"c".to_vec()), None);
    assert!(jar.delta().is_empty());
}

#[test]
fn malformed_header_pieces_are_skipped() {
    let jar = Jar::from_request(&b"junk; =anon; c=3; d=".to_vec());
    assert_eq!(jar.get(&b"junk".to_vec()), None);
    assert_eq!(jar.get(&b"c".to_vec()), Some(b"3".to_vec()));
    assert_eq!(jar.get(&b"d".to_vec()), Some(Vec::new()));
    let empty = Jar::from_request(&Vec::new());
    assert_eq!(empty.get(&b"c".to_vec()), None);
    assert!(empty.delta().is_empty());
}

#[test]
fn later_duplicate_name_wins() {
    let jar = Jar::from_request(&b"a=1; a=2".to_vec());
    assert_eq!(jar.get(&b"a".to_vec()), Some(b"2".to_vec()));
}

#[test]
fn added_cookie_appears_in_delta() {
    let mut jar = Jar::from_request(&b"a=1".to_vec());
    jar.add(plain_cookie(b"b", b"fresh", 60));
    assert_eq!(jar.get(&b"b".to_vec()), Some(b"fresh".to_vec()));
    let delta = jar.delta();
    assert_eq!(delta.len(), 1);
    assert_eq!(delta[0].name, b"b".to_vec());
    assert_eq!(delta[0].value, b"fresh".to_vec());
}

#[test]
fn overwriting_with_the_same_value_stays_out_of_delta() {
    let mut jar = Jar::from_request(&b"a=1".to_vec());
    jar.add(plain_cookie(b"a", b"1", 60));
    assert!(jar.delta().is_empty());
    jar.add(plain_cookie(b"a", b"2", 60));
    let delta = jar.delta();
    assert_eq!(delta.len(), 1);
    assert_eq!(delta[0].value, b"2".to_vec());
}

#[test]
fn removal_of_a_request_cookie_is_sent() {
    let mut jar = Jar::from_request(&b"a=1".to_vec());
    jar.remove(b"a".to_vec());
    assert_eq!(jar.get(&b"a".to_vec()), None);
    let delta = jar.delta();
    assert_eq!(delta.len(), 1);
    assert_eq!(delta[0].name, b"a".to_vec());
    assert!(delta[0].max_age <= 0);
    assert!(delta[0].value.is_empty());
}

#[test]
fn removal_of_an_absent_cookie_is_not_sent() {
    let mut jar = Jar::from_request(&b"a=1".to_vec());
    jar.remove(b"ghost".to_vec());
    assert_eq!(jar.get(&b"ghost".to_vec()), None);
    assert!(jar.delta().is_empty());
}

#[test]
fn change_then_removal_collapses_to_one_entry() {
    let mut jar = Jar::new();
    jar.add(plain_cookie(b"a", b"1", 60));
    jar.remove(b"a".to_vec());
    assert_eq!(jar.get(&b"a".to_vec()), None);
    assert!(jar.delta().is_empty());
}
