//! Of conditions on requests.
use vstd::prelude::*;

use crate::request_match::{
    law_by_parts, law_same_shape, parts, reads, regex_found, uri_path, RequestHead, RequestMatch,
};

verus! {

/// A pattern is searched for in the whole path, whatever the method.
pub proof fn law_path(re: regex::Regex, method: http::Method, path: Seq<char>)
    ensures
        RequestMatch::Path(re).matches(method, path) <==> regex_found(re, path),
{
}

/// A method holds of the requests that have it, whatever the path.
pub proof fn law_method(m: http::Method, method: http::Method, path: Seq<char>)
    ensures
        RequestMatch::Method(m).matches(method, path) <==> m == method,
{
}

/// A negation holds of the requests of which the condition does not.
pub proof fn law_not(m: RequestMatch, method: http::Method, path: Seq<char>)
    ensures
        RequestMatch::Not(Box::new(m)).matches(method, path) <==> !m.matches(method, path),
{
    law_by_parts(RequestMatch::Not(Box::new(m)), method, path);
}

/// All conditions of a list hold where each of them does.
pub proof fn law_all(ms: Vec<RequestMatch>, method: http::Method, path: Seq<char>)
    ensures
        RequestMatch::All(ms).matches(method, path) <==> forall|i: int|
            0 <= i < ms@.len() ==> (#[trigger] ms@[i]).matches(method, path),
{
    law_by_parts(RequestMatch::All(ms), method, path);
    assert(parts(RequestMatch::All(ms)) == ms@);
}

/// Any condition of a list holds where one of them does.
pub proof fn law_any(ms: Vec<RequestMatch>, method: http::Method, path: Seq<char>)
    ensures
        RequestMatch::Any(ms).matches(method, path) <==> exists|i: int|
            0 <= i < ms@.len() && (#[trigger] ms@[i]).matches(method, path),
{
    law_by_parts(RequestMatch::Any(ms), method, path);
    assert(parts(RequestMatch::Any(ms)) == ms@);
}

/// What is read of a request is its method, and the path of its target.
pub proof fn law_head_of<B>(
    req: &http::Request<B>,
    method: &http::Method,
    uri: &http::Uri,
    head: RequestHead,
)
    requires
        call_ensures(RequestHead::of::<B>, (req,), head),
        call_ensures(http::Request::<B>::method, (req,), method),
        call_ensures(http::Request::<B>::uri, (req,), uri),
    ensures
        *head.method == *method,
        head.path@ == uri_path(*uri),
{
    assert(reads(*req, *method, uri_path(*uri)));
}

/// Whether a condition holds of a request is decided by the method of the request and
/// the path of its target.
pub proof fn law_is_match<B>(
    m: &RequestMatch,
    req: &http::Request<B>,
    method: &http::Method,
    uri: &http::Uri,
    res: bool,
)
    requires
        call_ensures(RequestMatch::is_match::<B>, (m, req), res),
        call_ensures(http::Request::<B>::method, (req,), method),
        call_ensures(http::Request::<B>::uri, (req,), uri),
    ensures
        res == m.matches(*method, uri_path(*uri)),
{
    assert(reads(*req, *method, uri_path(*uri)));
}

/// Whether a condition holds of what was read of a request is decided by the method
/// and the path that were read.
pub proof fn law_is_match_head(m: &RequestMatch, head: &RequestHead, res: bool)
    requires
        call_ensures(RequestMatch::is_match_head, (m, head), res),
    ensures
        res == m.matches(*head.method, head.path@),
        *m matches RequestMatch::Path(re) ==> res == regex_found(re, head.path@),
        *m matches RequestMatch::Method(method) ==> res == (method == *head.method),
{
}

/// A pattern is searched for in the whole path of the request.
pub proof fn law_is_match_path<B>(
    re: regex::Regex,
    req: &http::Request<B>,
    uri: &http::Uri,
    res: bool,
)
    requires
        call_ensures(RequestMatch::is_match::<B>, (&RequestMatch::Path(re), req), res),
        call_ensures(http::Request::<B>::uri, (req,), uri),
    ensures
        res == regex_found(re, uri_path(*uri)),
{
    let (method, path) = choose|method: http::Method, path: Seq<char>| #[trigger]
        reads(*req, method, path);
    assert(reads(*req, method, uri_path(*uri)));
    law_path(re, method, uri_path(*uri));
}

/// The method of the request is compared.
pub proof fn law_is_match_method<B>(
    m: http::Method,
    req: &http::Request<B>,
    method: &http::Method,
    res: bool,
)
    requires
        call_ensures(RequestMatch::is_match::<B>, (&RequestMatch::Method(m), req), res),
        call_ensures(http::Request::<B>::method, (req,), method),
    ensures
        res == (m == *method),
{
    let (other, path) = choose|other: http::Method, path: Seq<char>| #[trigger]
        reads(*req, other, path);
    assert(reads(*req, *method, path));
    law_method(m, *method, path);
}

/// Asked of one request, a condition and its negation come to opposite answers.
pub proof fn law_is_match_not<B>(m: RequestMatch, req: &http::Request<B>, plain: bool, negated: bool)
    requires
        call_ensures(RequestMatch::is_match::<B>, (&m, req), plain),
        call_ensures(
            RequestMatch::is_match::<B>,
            (&RequestMatch::Not(Box::new(m)), req),
            negated,
        ),
    ensures
        negated == !plain,
{
    let (method, path) = choose|method: http::Method, path: Seq<char>| #[trigger]
        reads(*req, method, path);
    law_not(m, method, path);
}

/// Asked of one request, all and any come to what the answers of the parts say.
pub proof fn law_is_match_all_any<B>(
    ms: Vec<RequestMatch>,
    req: &http::Request<B>,
    answers: Seq<bool>,
    all: bool,
    any: bool,
)
    requires
        answers.len() == ms@.len(),
        forall|i: int|
            0 <= i < ms@.len() ==> call_ensures(
                RequestMatch::is_match::<B>,
                (&ms@[i], req),
                #[trigger] answers[i],
            ),
        call_ensures(RequestMatch::is_match::<B>, (&RequestMatch::All(ms), req), all),
        call_ensures(RequestMatch::is_match::<B>, (&RequestMatch::Any(ms), req), any),
    ensures
        all <==> forall|i: int| 0 <= i < answers.len() ==> #[trigger] answers[i],
        any <==> exists|i: int| 0 <= i < answers.len() && #[trigger] answers[i],
{
    let (method, path) = choose|method: http::Method, path: Seq<char>| #[trigger]
        reads(*req, method, path);
    assert forall|i: int|
        #![trigger answers[i]]
        #![trigger ms@[i]]
        0 <= i < ms@.len() implies answers[i] == ms@[i].matches(method, path) by {}
    law_all(ms, method, path);
    law_any(ms, method, path);
}

/// The whole request and what was read of it come to the same answer.
pub proof fn law_is_match_as_head<B>(
    m: &RequestMatch,
    req: &http::Request<B>,
    head: &RequestHead,
    whole: bool,
    read: bool,
)
    requires
        call_ensures(RequestHead::of::<B>, (req,), *head),
        call_ensures(RequestMatch::is_match::<B>, (m, req), whole),
        call_ensures(RequestMatch::is_match_head, (m, head), read),
    ensures
        whole == read,
{
}

/// A clone comes to the same answer of every request.
pub proof fn law_clone_is_match<B>(
    m: &RequestMatch,
    copy: RequestMatch,
    req: &http::Request<B>,
    before: bool,
    after: bool,
)
    requires
        call_ensures(<RequestMatch as Clone>::clone, (m,), copy),
        call_ensures(RequestMatch::is_match::<B>, (m, req), before),
        call_ensures(RequestMatch::is_match::<B>, (&copy, req), after),
    ensures
        before == after,
{
    let (method, path) = choose|method: http::Method, path: Seq<char>| #[trigger]
        reads(*req, method, path);
    assert(m.same_shape(copy));
    law_same_shape(*m, copy);
    assert(m.matches(method, path) == copy.matches(method, path));
}

/// A clone is made alike: the same pattern or method, or as many parts, each of which
/// is made like the one in its place.
pub proof fn law_clone(m: &RequestMatch, copy: RequestMatch)
    requires
        call_ensures(<RequestMatch as Clone>::clone, (m,), copy),
    ensures
        m is Path || m is Method ==> copy == *m,
        *m matches RequestMatch::Not(part) ==> copy matches RequestMatch::Not(other)
            && part.same_shape(*other),
        *m matches RequestMatch::All(ms) ==> copy matches RequestMatch::All(os) && os@.len()
            == ms@.len() && forall|i: int|
            0 <= i < ms@.len() ==> (#[trigger] ms@[i]).same_shape(os@[i]),
        *m matches RequestMatch::Any(ms) ==> copy matches RequestMatch::Any(os) && os@.len()
            == ms@.len() && forall|i: int|
            0 <= i < ms@.len() ==> (#[trigger] ms@[i]).same_shape(os@[i]),
{
    law_made_alike(*m, copy);
}

/// What it is to be made alike: the same pattern or method, or as many parts, each of
/// which is made like the one in its place.
pub proof fn law_made_alike(m: RequestMatch, other: RequestMatch)
    requires
        m.same_shape(other),
    ensures
        m is Path || m is Method ==> other == m,
        m matches RequestMatch::Not(part) ==> other matches RequestMatch::Not(like)
            && part.same_shape(*like),
        m matches RequestMatch::All(ms) ==> other matches RequestMatch::All(os) && os@.len()
            == ms@.len() && forall|i: int|
            0 <= i < ms@.len() ==> (#[trigger] ms@[i]).same_shape(os@[i]),
        m matches RequestMatch::Any(ms) ==> other matches RequestMatch::Any(os) && os@.len()
            == ms@.len() && forall|i: int|
            0 <= i < ms@.len() ==> (#[trigger] ms@[i]).same_shape(os@[i]),
{
}

} // verus!
