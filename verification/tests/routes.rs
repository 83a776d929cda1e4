use server_fx::http::router::{
    split_segments, HandleRouteResult, NoMatchError, Parameters, Part, Pattern, Route,
    RouteHandler,
};
use server_fx::http::parser::Slice;
use server_fx::http::types::{HttpMethod, Request, RequestBuilder, Response, ResponseBuilder};

#[test]
fn segments_are_the_pieces_between_slashes() {
    assert_eq!(vec![Slice(1, 4), Slice(5, 9)], split_segments(b"/api/item"));
    assert_eq!(vec![Slice(0, 3), Slice(6, 7)], split_segments(b"api///x/"));
    assert_eq!(Vec::<Slice>::new(), split_segments(b""));
    assert_eq!(Vec::<Slice>::new(), split_segments(b"///"));
}

#[test]
fn pattern_parts() {
    let p = Pattern::new("/api/:item/*");
    assert_eq!(
        &[
            Part::Exact("api".to_owned()),
            Part::Param("item".to_owned()),
            Part::Wildcard
        ][..],
        p.parts()
    );
    assert!(p.1);
}

#[test]
fn lone_colon_is_no_part() {
    let p = Pattern::new("/a/:/b");
    assert_eq!(
        &[Part::Exact("a".to_owned()), Part::Exact("b".to_owned())][..],
        p.parts()
    );
    assert!(!p.1);
}

#[test]
fn only_a_last_star_makes_the_pattern_open() {
    let p = Pattern::new("/*/b");
    assert_eq!(&[Part::Wildcard, Part::Exact("b".to_owned())][..], p.parts());
    assert!(!p.1);
    assert!(p.match_uri("/x/b").is_ok());
    assert_eq!(Err(NoMatchError), p.match_uri("/x/b/c"));
}

#[test]
fn empty_pattern_matches_only_the_root() {
    let p = Pattern::new("/");
    assert!(p.parts().is_empty());
    assert_eq!(Ok(vec![]), p.match_uri("/"));
    assert_eq!(Ok(vec![]), p.match_uri(""));
    assert_eq!(Err(NoMatchError), p.match_uri("/a"));
}

#[test]
fn path_with_another_segment_does_not_match() {
    let p = Pattern::new("/api/:item");
    assert_eq!(Err(NoMatchError), p.match_uri("/apx/resource"));
    assert_eq!(Err(NoMatchError), p.match_uri("/API/resource"));
}

#[test]
fn path_longer_than_the_pattern_does_not_match() {
    let p = Pattern::new("/api/:item");
    assert_eq!(Err(NoMatchError), p.match_uri("/api/resource/more"));
}

#[test]
fn path_shorter_than_the_pattern_matches() {
    let p = Pattern::new("/api/:item");
    assert_eq!(Ok(vec![]), p.match_uri("/api"));
}

#[test]
fn query_and_fragment_are_no_part_of_the_path() {
    let p = Pattern::new("/:a/:b");
    assert_eq!(
        Ok(vec![("a", "x".to_string()), ("b", "y".to_string())]),
        p.match_uri("/x/y#z/w")
    );
    assert_eq!(Ok(vec![("a", "x".to_string())]), p.match_uri("/x?y/z"));
}

#[test]
fn wildcard_matches_what_follows() {
    let p = Pattern::new("/static/*");
    assert_eq!(Ok(vec![]), p.match_uri("/static/css/site.css"));
    assert_eq!(Ok(vec![]), p.match_uri("/static"));
    assert_eq!(Err(NoMatchError), p.match_uri("/dynamic/css"));
}

#[test]
fn parameters_beyond_ascii() {
    let p = Pattern::new("/caf\u{e9}/:n\u{e4}me");
    let params = p.match_uri("/caf\u{e9}/Zo\u{eb}").unwrap();
    assert_eq!(vec![("n\u{e4}me", "Zo\u{eb}".to_string())], params);
}

struct Echo;

impl RouteHandler for Echo {
    fn handle<'a>(&'a self, request: Request, params: &Parameters<'a>) -> Response {
        let mut response = ResponseBuilder::new(200, "OK").build();
        response.add_header("X-Path", request.path());
        for (name, value) in params.iter() {
            response.add_header(name, value);
        }
        response
    }
}

#[test]
fn route_answers_what_matches() {
    let route = Route::new(HttpMethod::Get, "/api/:item", Echo);
    let request = RequestBuilder::new(HttpMethod::Get, "/api/resource?x=1").build();
    match route.handle(request) {
        HandleRouteResult::Handled(response) => {
            assert_eq!(Some("/api/resource?x=1"), response.header_value("x-path"));
            assert_eq!(Some("resource"), response.header_value("item"));
        }
        HandleRouteResult::NotHandled(_) => panic!("the route did not answer"),
    }
}

#[test]
fn route_hands_back_another_method() {
    let route = Route::new(HttpMethod::Get, "/api/:item", Echo);
    let request = RequestBuilder::new(HttpMethod::Post, "/api/resource").build();
    match route.handle(request) {
        HandleRouteResult::NotHandled(request) => {
            assert_eq!(HttpMethod::Post, request.method());
            assert_eq!("/api/resource", request.path());
        }
        HandleRouteResult::Handled(_) => panic!("the route answered"),
    }
}

#[test]
fn route_hands_back_another_path() {
    let route = Route::new(HttpMethod::Get, "/api/:item", Echo);
    let request = RequestBuilder::new(HttpMethod::Get, "/other/resource").build();
    assert!(matches!(
        route.handle(request),
        HandleRouteResult::NotHandled(_)
    ));
}
