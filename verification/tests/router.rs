use server_fx::http::router::{Part, Pattern};

#[test]
fn compile_pattern() {
    let p = Pattern::new("/api/:item");

    let mut pattern_iter = p.parts().iter();

    assert_eq!(Some(&Part::Exact("api".to_owned())), pattern_iter.next());
    assert_eq!(Some(&Part::Param("item".to_owned())), pattern_iter.next());
}

#[test]
fn match_wildcard() {
    let p = Pattern::new("/static/*");
    assert!(p.1);

    assert!(p.match_uri("/static/css/site.css").is_ok());
}

#[test]
fn match_uri() {
    let p = Pattern::new("/api/:item");
    let params = p.match_uri("/api/resource?_filter=hello+world");
    assert!(params.is_ok());
    assert_eq!(("item", "resource".to_string()), params.unwrap()[0]);
}
