use jwx_rs::url::URL;

#[test]
pub fn test_url_0() {
    let data = "/some/url?query0=0&query1=1";
    let url = URL::parse(data);
    assert!(url.is_some());

    let url = url.unwrap();
    assert_eq!(url.uri, "/some/url");
    assert_eq!(url.queries.len(), 2);

    assert!(url.queries.get("query0").is_some());
    assert_eq!(url.queries.get("query0").unwrap(), "0");

    assert!(url.queries.get("query1").is_some());
    assert_eq!(url.queries.get("query1").unwrap(), "1");
}

#[test]
pub fn test_url_1() {
    let data = "/lmao";

    let url = URL::parse(data);
    assert!(url.is_some());

    let url = url.unwrap();
    assert_eq!(url.uri, "/lmao");
    assert_eq!(url.queries.len(), 0);
}

#[test]
pub fn test_url_2() {
    let data = "/test?a=b&c=&d=e";
    let url = URL::parse(data);
    assert!(url.is_some());

    let url = url.unwrap();
    assert_eq!(url.uri, "/test");
    assert_eq!(url.queries.len(), 3);

    assert!(url.queries.get("a").is_some());
    assert_eq!(url.queries.get("a").unwrap(), "b");

    assert!(url.queries.get("c").is_some());
    assert_eq!(url.queries.get("c").unwrap(), "");

    assert!(url.queries.get("d").is_some());
    assert_eq!(url.queries.get("d").unwrap(), "e");
}
