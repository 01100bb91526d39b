use http::{Method, Request};
use profiles::request_match::{RequestHead, RequestMatch};
use regex::Regex;

fn request(method: Method, uri: &str) -> Request<()> {
    Request::builder().method(method).uri(uri).body(()).unwrap()
}

fn path(pattern: &str) -> RequestMatch {
    RequestMatch::Path(Regex::new(pattern).unwrap())
}

fn not(m: RequestMatch) -> RequestMatch {
    RequestMatch::Not(Box::new(m))
}

#[test]
fn method_is_compared() {
    let get = RequestMatch::Method(Method::GET);
    assert!(get.is_match(&request(Method::GET, "/")));
    assert!(!get.is_match(&request(Method::POST, "/")));
    let purge = RequestMatch::Method(Method::from_bytes(b"PURGE").unwrap());
    assert!(purge.is_match(&request(Method::from_bytes(b"PURGE").unwrap(), "/")));
    assert!(!purge.is_match(&request(Method::from_bytes(b"purge").unwrap(), "/")));
    assert!(!purge.is_match(&request(Method::GET, "/")));
}

#[test]
fn pattern_is_searched_in_the_path() {
    let m = path("b+c");
    assert!(m.is_match(&request(Method::GET, "/a/bbc/d")));
    assert!(!m.is_match(&request(Method::GET, "/a/c")));
    assert!(!path("^/b$").is_match(&request(Method::GET, "/a/b")));
    assert!(path("^/b$").is_match(&request(Method::GET, "/b")));
}

#[test]
fn only_the_path_of_the_target_is_searched() {
    let m = path("example|key");
    assert!(!m.is_match(&request(Method::GET, "http://example.com/a?key=1")));
    assert!(m.is_match(&request(Method::GET, "http://localhost/key?a=1")));
    assert!(path("^/$").is_match(&request(Method::GET, "http://example.com")));
}

#[test]
fn no_conditions_at_all() {
    let req = request(Method::GET, "/");
    assert!(RequestMatch::All(Vec::new()).is_match(&req));
    assert!(!RequestMatch::Any(Vec::new()).is_match(&req));
    assert!(!not(RequestMatch::All(Vec::new())).is_match(&req));
    assert!(not(RequestMatch::Any(Vec::new())).is_match(&req));
}

#[test]
fn all_and_any() {
    let get_a = request(Method::GET, "/a");
    let get_b = request(Method::GET, "/b");
    let put_b = request(Method::PUT, "/b");
    let parts = || vec![RequestMatch::Method(Method::GET), path("^/a")];
    assert!(RequestMatch::All(parts()).is_match(&get_a));
    assert!(!RequestMatch::All(parts()).is_match(&get_b));
    assert!(RequestMatch::Any(parts()).is_match(&get_a));
    assert!(RequestMatch::Any(parts()).is_match(&get_b));
    assert!(!RequestMatch::Any(parts()).is_match(&put_b));
}

#[test]
fn nested_conditions() {
    let m = RequestMatch::All(vec![
        RequestMatch::Any(vec![RequestMatch::Method(Method::GET), RequestMatch::Method(Method::HEAD)]),
        not(path("^/private")),
    ]);
    assert!(m.is_match(&request(Method::GET, "/public")));
    assert!(m.is_match(&request(Method::HEAD, "/public")));
    assert!(!m.is_match(&request(Method::POST, "/public")));
    assert!(!m.is_match(&request(Method::GET, "/private/a")));
}

#[test]
fn negation_undoes_negation() {
    for uri in ["/a", "/b"].iter() {
        let req = request(Method::GET, uri);
        assert_eq!(not(not(path("a"))).is_match(&req), path("a").is_match(&req));
        assert_ne!(not(path("a")).is_match(&req), path("a").is_match(&req));
    }
}

#[test]
fn negated_conjunction_and_disjunction() {
    let parts = || vec![RequestMatch::Method(Method::GET), path("a")];
    let nots = || vec![not(RequestMatch::Method(Method::GET)), not(path("a"))];
    for method in [Method::GET, Method::PUT].iter() {
        for uri in ["/a", "/b"].iter() {
            let req = request(method.clone(), uri);
            assert_eq!(
                not(RequestMatch::All(parts())).is_match(&req),
                RequestMatch::Any(nots()).is_match(&req)
            );
            assert_eq!(
                not(RequestMatch::Any(parts())).is_match(&req),
                RequestMatch::All(nots()).is_match(&req)
            );
        }
    }
}

#[test]
fn clone_holds_of_the_same_requests() {
    let m = RequestMatch::Any(vec![
        RequestMatch::All(vec![RequestMatch::Method(Method::PUT), path("a")]),
        not(path("b")),
    ]);
    let copy = m.clone();
    for method in [Method::GET, Method::PUT].iter() {
        for uri in ["/a", "/b", "/ab", "/c"].iter() {
            let req = request(method.clone(), uri);
            assert_eq!(copy.is_match(&req), m.is_match(&req));
        }
    }
    assert!(copy.is_match(&request(Method::PUT, "/ab")));
    assert!(!copy.is_match(&request(Method::GET, "/ab")));
}

#[test]
fn clone_is_made_alike() {
    let m = RequestMatch::All(vec![
        not(path("^/a+$")),
        RequestMatch::Any(vec![RequestMatch::Method(Method::PUT), path("b")]),
        RequestMatch::Any(Vec::new()),
    ]);
    assert_eq!(format!("{:?}", m.clone()), format!("{:?}", m));
    match m.clone() {
        RequestMatch::All(parts) => {
            assert_eq!(parts.len(), 3);
            assert!(matches!(&parts[0], RequestMatch::Not(_)));
            assert!(matches!(&parts[1], RequestMatch::Any(ms) if ms.len() == 2));
            assert!(matches!(&parts[2], RequestMatch::Any(ms) if ms.is_empty()));
        }
        _ => panic!("the same variant"),
    }
    assert!(matches!(path("b").clone(), RequestMatch::Path(re) if re.as_str() == "b"));
}

#[test]
fn head_of_a_request() {
    let method = Method::DELETE;
    let head = RequestHead { method: &method, path: "/users/7" };
    assert!(path("^/users/[0-9]+$").is_match_head(&head));
    assert!(RequestMatch::Method(Method::DELETE).is_match_head(&head));
    assert!(!RequestMatch::Method(Method::GET).is_match_head(&head));
}
