use polite_crawler::link::{Link, LinkError};

#[test]
fn parse_keeps_a_normal_url() {
    let link = Link::parse("https://a.example/x?y=1#z").unwrap();
    assert_eq!(link.as_str(), "https://a.example/x?y=1#z");
    assert_eq!(link.origin_str(), "https://a.example");
}

#[test]
fn parse_normalises_case_default_port_and_dots() {
    let link = Link::parse("HTTP://A.Example:80/a/../b").unwrap();
    assert_eq!(link.as_str(), "http://a.example/b");
    assert_eq!(link.origin_str(), "http://a.example");
}

#[test]
fn origin_keeps_a_port_that_is_not_the_default() {
    let link = Link::parse("https://a.example:8443/").unwrap();
    assert_eq!(link.origin_str(), "https://a.example:8443");
    let plain = Link::parse("https://a.example/").unwrap();
    assert_ne!(link.origin_str(), plain.origin_str());
}

#[test]
fn scheme_is_part_of_the_origin() {
    let http = Link::parse("http://a.example/").unwrap();
    let https = Link::parse("https://a.example/").unwrap();
    assert_ne!(http.origin_str(), https.origin_str());
}

#[test]
fn same_site_urls_share_an_origin() {
    let one = Link::parse("https://a.example/one").unwrap();
    let two = Link::parse("https://a.example/two/three?q").unwrap();
    assert_eq!(one.origin_str(), two.origin_str());
}

#[test]
fn relative_text_is_no_link() {
    assert_eq!(Link::parse("/just/a/path").err(), Some(LinkError::Invalid));
    assert_eq!(Link::parse("").err(), Some(LinkError::Invalid));
    assert_eq!(Link::parse("https://").err(), Some(LinkError::Invalid));
}

#[test]
fn url_without_host_has_the_null_origin() {
    let link = Link::parse("data:text/plain,hello").unwrap();
    assert_eq!(link.origin_str(), "null");
}

#[test]
fn robots_document_sits_at_the_root_of_the_origin() {
    let link = Link::parse("https://a.example:8443/deep/page.html?q=1").unwrap();
    let robots = link.robots_txt().unwrap();
    assert_eq!(robots.as_str(), "https://a.example:8443/robots.txt");
    assert_eq!(robots.origin_str(), "https://a.example:8443");
}

#[test]
fn null_origin_has_no_robots_document() {
    let link = Link::parse("data:text/plain,hello").unwrap();
    assert_eq!(link.robots_txt().err(), Some(LinkError::Invalid));
}

#[test]
fn clone_is_equal_in_both_parts() {
    let link = Link::parse("https://a.example/x").unwrap();
    let copy = link.clone();
    assert_eq!(copy.as_str(), link.as_str());
    assert_eq!(copy.origin_str(), link.origin_str());
}
