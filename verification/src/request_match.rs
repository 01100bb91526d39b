//! Conditions on requests.
use vstd::prelude::*;

verus! {

/// `regex::Regex`, opaque: a compiled pattern.
#[verifier::external_type_specification]
#[verifier::external_body]
pub struct ExRegex(regex::Regex);

/// `http::Method`, opaque: a request method.
#[verifier::external_type_specification]
#[verifier::external_body]
pub struct ExMethod(http::Method);

/// `http::Request`, opaque: what a condition reads of it is a [`RequestHead`].
#[verifier::external_type_specification]
#[verifier::external_body]
#[verifier::reject_recursive_types(T)]
pub struct ExRequest<T>(http::Request<T>);

/// `http::Uri`, opaque: the target of a request.
#[verifier::external_type_specification]
#[verifier::external_body]
pub struct ExUri(http::Uri);

/// The path of a request's target.
pub uninterp spec fn uri_path(uri: http::Uri) -> Seq<char>;

/// Whether a pattern is found somewhere in a text.
pub uninterp spec fn regex_found(re: regex::Regex, text: Seq<char>) -> bool;

/// `regex::Regex::is_match`: whether the pattern is found somewhere in the text,
/// which the pattern and the text alone decide.
pub assume_specification[ regex::Regex::is_match ](re: &regex::Regex, haystack: &str) -> (res: bool)
    ensures
        res == regex_found(*re, haystack@),
;

/// `<regex::Regex as Clone>::clone`: the same compiled pattern, shared.
pub assume_specification[ <regex::Regex as Clone>::clone ](re: &regex::Regex) -> (res: regex::Regex)
    ensures
        res == *re,
;

/// `<http::Method as Clone>::clone`: derived, the same method.
pub assume_specification[ <http::Method as Clone>::clone ](method: &http::Method) -> (res:
    http::Method)
    ensures
        res == *method,
;

/// `<http::Method as PartialEq>::eq`: derived, so two methods are equal exactly
/// where they are the same standard method or spell the same extension.
#[verifier::external_body]
fn same_method(a: &http::Method, b: &http::Method) -> (res: bool)
    ensures
        res == (*a == *b),
{
    a == b
}

/// What a condition reads of a request.
pub struct RequestHead<'a> {
    pub method: &'a http::Method,
    pub path: &'a str,
}

/// `http::Request::method`: the method of the request. What is claimed of it is said
/// by [`method_of`].
pub assume_specification<T>[ http::Request::<T>::method ](req: &http::Request<T>) -> &http::Method
;

/// `http::Request::uri`: the target of the request. What is claimed of it is said by
/// [`uri_of`].
pub assume_specification<T>[ http::Request::<T>::uri ](req: &http::Request<T>) -> &http::Uri
;

/// Calls `http::Request::method`, which reads a field: a request has one method,
/// however often it is asked for.
#[verifier::external_body]
fn method_of<T>(req: &http::Request<T>) -> (res: &http::Method)
    ensures
        call_ensures(http::Request::<T>::method, (req,), res),
        forall|other: &http::Method| #[trigger]
            call_ensures(http::Request::<T>::method, (req,), other) ==> other == res,
{
    req.method()
}

/// Calls `http::Request::uri`, which reads a field: a request has one target, however
/// often it is asked for.
#[verifier::external_body]
fn uri_of<T>(req: &http::Request<T>) -> (res: &http::Uri)
    ensures
        call_ensures(http::Request::<T>::uri, (req,), res),
        forall|other: &http::Uri| #[trigger]
            call_ensures(http::Request::<T>::uri, (req,), other) ==> other == res,
{
    req.uri()
}

/// `http::Uri::path`: the path of the target, without the query, which the target
/// alone decides; it may be empty.
pub assume_specification[ http::Uri::path ](uri: &http::Uri) -> (res: &str)
    ensures
        res@ == uri_path(*uri),
;

/// Whether reading the request gives this method and, of its target, this path.
pub open spec fn reads<B>(req: http::Request<B>, method: http::Method, path: Seq<char>) -> bool {
    &&& call_ensures(http::Request::<B>::method, (&req,), &method)
    &&& exists|uri: http::Uri| #[trigger]
        call_ensures(http::Request::<B>::uri, (&req,), &uri) && path == uri_path(uri)
}

impl<'a> RequestHead<'a> {
    /// What is read of the request.
    pub fn of<B>(req: &'a http::Request<B>) -> (res: RequestHead<'a>)
        ensures
            reads(*req, *res.method, res.path@),
            forall|method: http::Method, path: Seq<char>| #[trigger]
                reads(*req, method, path) ==> method == *res.method && path == res.path@,
    {
        let method = method_of(req);
        let uri = uri_of(req);
        let res = RequestHead { method, path: uri.path() };
        assert(reads(*req, *res.method, res.path@));
        assert forall|method: http::Method, path: Seq<char>| #[trigger]
            reads(*req, method, path) implies method == *res.method && path == res.path@ by {
            assert(call_ensures(http::Request::<B>::method, (req,), &method));
        }
        res
    }
}

/// A condition on a request.
#[derive(Debug)]
pub enum RequestMatch {
    /// All of these hold.
    All(Vec<RequestMatch>),
    /// At least one of these holds.
    Any(Vec<RequestMatch>),
    /// This does not hold.
    Not(Box<RequestMatch>),
    /// The pattern is found in the path.
    Path(regex::Regex),
    /// The method is this one.
    Method(http::Method),
}

impl RequestMatch {
    /// Whether the condition holds of a request with this method and path.
    pub open spec fn matches(self, method: http::Method, path: Seq<char>) -> bool
        decreases self,
    {
        match self {
            RequestMatch::Method(m) => m == method,
            RequestMatch::Path(re) => regex_found(re, path),
            RequestMatch::Not(m) => !m.matches(method, path),
            RequestMatch::All(ms) => forall|i: int|
                0 <= i < ms@.len() ==> (#[trigger] ms@[i]).matches(method, path),
            RequestMatch::Any(ms) => exists|i: int|
                0 <= i < ms@.len() && (#[trigger] ms@[i]).matches(method, path),
        }
    }
}

impl RequestMatch {
    /// Whether the condition holds of the request.
    pub fn is_match<B>(&self, req: &http::Request<B>) -> (res: bool)
        ensures
            exists|method: http::Method, path: Seq<char>| #[trigger] reads(*req, method, path),
            forall|method: http::Method, path: Seq<char>| #[trigger]
                reads(*req, method, path) ==> res == self.matches(method, path),
    {
        let head = RequestHead::of(req);
        self.is_match_head(&head)
    }

    /// Whether the condition holds of a request with this head.
    #[verifier::loop_isolation(false)]
    pub fn is_match_head(&self, head: &RequestHead) -> (res: bool)
        ensures
            res == self.matches(*head.method, head.path@),
        decreases self,
    {
        match self {
            RequestMatch::Method(method) => same_method(head.method, method),
            RequestMatch::Path(re) => re.is_match(head.path),
            RequestMatch::Not(m) => !m.is_match_head(head),
            RequestMatch::All(matches) => {
                for i in 0..matches.len()
                    invariant
                        forall|j: int|
                            0 <= j < i ==> (#[trigger] matches@[j]).matches(*head.method, head.path@),
                {
                    if !matches[i].is_match_head(head) {
                        return false;
                    }
                }
                true
            },
            RequestMatch::Any(matches) => {
                for i in 0..matches.len()
                    invariant
                        forall|j: int|
                            0 <= j < i ==> !(#[trigger] matches@[j]).matches(*head.method, head.path@),
                {
                    if matches[i].is_match_head(head) {
                        return true;
                    }
                }
                false
            },
        }
    }
}

/// Clones each of the conditions.
fn clone_all(matches: &Vec<RequestMatch>) -> (res: Vec<RequestMatch>)
    ensures
        res@.len() == matches@.len(),
        forall|i: int| 0 <= i < res@.len() ==> matches@[i].same_shape(#[trigger] res@[i]),
    decreases matches,
{
    let mut res: Vec<RequestMatch> = Vec::new();
    for i in 0..matches.len()
        invariant
            res@.len() == i,
            forall|j: int| 0 <= j < i ==> matches@[j].same_shape(#[trigger] res@[j]),
    {
        res.push(matches[i].clone());
    }
    res
}

impl RequestMatch {
    /// Whether both conditions hold of the same requests.
    pub open spec fn same_as(self, other: RequestMatch) -> bool {
        forall|method: http::Method, path: Seq<char>| #[trigger]
            self.matches(method, path) == other.matches(method, path)
    }

    /// Whether both conditions are made alike: in the same way, of as many parts, which
    /// are made alike in their places, with the same pattern or the same method.
    pub open spec fn same_shape(self, other: RequestMatch) -> bool
        decreases self,
    {
        match self {
            RequestMatch::All(ms) => other matches RequestMatch::All(os) && ms@.len() == os@.len()
                && forall|i: int|
                0 <= i < ms@.len() ==> (#[trigger] ms@[i]).same_shape(os@[i]),
            RequestMatch::Any(ms) => other matches RequestMatch::Any(os) && ms@.len() == os@.len()
                && forall|i: int|
                0 <= i < ms@.len() ==> (#[trigger] ms@[i]).same_shape(os@[i]),
            RequestMatch::Not(m) => other matches RequestMatch::Not(o) && m.same_shape(*o),
            RequestMatch::Path(re) => other == RequestMatch::Path(re),
            RequestMatch::Method(method) => other == RequestMatch::Method(method),
        }
    }
}

/// The conditions that a condition is made of.
pub open spec fn parts(m: RequestMatch) -> Seq<RequestMatch> {
    match m {
        RequestMatch::All(ms) => ms@,
        RequestMatch::Any(ms) => ms@,
        RequestMatch::Not(m) => seq![*m],
        _ => Seq::empty(),
    }
}

/// What the parts of a condition decide: all of them have to hold, any of them, or
/// the one there is must not.
pub proof fn law_by_parts(m: RequestMatch, method: http::Method, path: Seq<char>)
    ensures
        m is All ==> (m.matches(method, path) <==> forall|i: int|
            0 <= i < parts(m).len() ==> (#[trigger] parts(m)[i]).matches(method, path)),
        m is Any ==> (m.matches(method, path) <==> exists|i: int|
            0 <= i < parts(m).len() && (#[trigger] parts(m)[i]).matches(method, path)),
        m is Not ==> (m.matches(method, path) <==> !parts(m)[0].matches(method, path)),
{
    match m {
        RequestMatch::All(ms) => {
            assert(m.matches(method, path) ==> forall|i: int|
                0 <= i < ms@.len() ==> (#[trigger] ms@[i]).matches(method, path));
        },
        RequestMatch::Any(ms) => {
            if m.matches(method, path) {
                let i = choose|i: int|
                    0 <= i < ms@.len() && (#[trigger] ms@[i]).matches(method, path);
                assert(parts(m)[i].matches(method, path));
            }
        },
        _ => {},
    }
}

/// Whether both conditions join their parts in the same way.
spec fn same_kind(a: RequestMatch, b: RequestMatch) -> bool {
    a is All && b is All || a is Any && b is Any || a is Not && b is Not
}

/// Conditions that join the same parts in the same way hold of the same requests.
proof fn lemma_same_parts(a: RequestMatch, b: RequestMatch)
    requires
        same_kind(a, b),
        parts(a).len() == parts(b).len(),
        forall|i: int| 0 <= i < parts(a).len() ==> (#[trigger] parts(a)[i]).same_as(parts(b)[i]),
    ensures
        a.same_as(b),
{
    assert forall|method: http::Method, path: Seq<char>| #[trigger]
        a.matches(method, path) == b.matches(method, path) by {
        law_by_parts(a, method, path);
        law_by_parts(b, method, path);
        assert forall|i: int|
            #![trigger parts(a)[i]]
            #![trigger parts(b)[i]]
            0 <= i < parts(a).len() implies parts(a)[i].matches(method, path) == parts(
            b,
        )[i].matches(method, path) by {
            assert(parts(a)[i].same_as(parts(b)[i]));
        }
    }
}

/// Conditions that are made alike hold of the same requests.
pub proof fn law_same_shape(a: RequestMatch, b: RequestMatch)
    requires
        a.same_shape(b),
    ensures
        a.same_as(b),
    decreases a,
{
    if same_kind(a, b) {
        assert forall|i: int| 0 <= i < parts(a).len() implies (#[trigger] parts(a)[i]).same_as(
            parts(b)[i],
        ) by {
            law_same_shape(parts(a)[i], parts(b)[i]);
        }
        lemma_same_parts(a, b);
    }
}

impl Clone for RequestMatch {
    /// A condition that is made alike, and so holds of the same requests.
    fn clone(&self) -> (res: RequestMatch)
        ensures
            self.same_shape(res),
            self.same_as(res),
        decreases self,
    {
        let res = match self {
            RequestMatch::All(matches) => RequestMatch::All(clone_all(matches)),
            RequestMatch::Any(matches) => RequestMatch::Any(clone_all(matches)),
            RequestMatch::Not(m) => RequestMatch::Not(Box::new((**m).clone())),
            RequestMatch::Path(re) => RequestMatch::Path(re.clone()),
            RequestMatch::Method(method) => RequestMatch::Method(method.clone()),
        };
        proof {
            law_same_shape(*self, res);
        }
        res
    }
}

/// All of no conditions hold of every request, and any of none holds of no request.
pub proof fn law_no_parts(
    none: Vec<RequestMatch>,
    method: http::Method,
    path: Seq<char>,
)
    requires
        none@.len() == 0,
    ensures
        RequestMatch::All(none).matches(method, path),
        !RequestMatch::Any(none).matches(method, path),
{
    law_by_parts(RequestMatch::All(none), method, path);
    law_by_parts(RequestMatch::Any(none), method, path);
}

/// A condition holds of exactly the requests of which its negation does not.
pub proof fn law_double_negation(m: RequestMatch)
    ensures
        RequestMatch::Not(Box::new(RequestMatch::Not(Box::new(m)))).same_as(m),
{
    let not = RequestMatch::Not(Box::new(m));
    let not_not = RequestMatch::Not(Box::new(not));
    assert forall|method: http::Method, path: Seq<char>| #[trigger]
        not_not.matches(method, path) == m.matches(method, path) by {
        law_by_parts(not, method, path);
        law_by_parts(not_not, method, path);
    }
}

/// That not all conditions hold is that the negation of any does; that not any does
/// is that the negations of all do.
pub proof fn law_de_morgan(ms: Vec<RequestMatch>, nots: Vec<RequestMatch>)
    requires
        nots@.len() == ms@.len(),
        forall|i: int| 0 <= i < ms@.len() ==> #[trigger] nots@[i] == RequestMatch::Not(
            Box::new(ms@[i]),
        ),
    ensures
        RequestMatch::Not(Box::new(RequestMatch::All(ms))).same_as(RequestMatch::Any(nots)),
        RequestMatch::Not(Box::new(RequestMatch::Any(ms))).same_as(RequestMatch::All(nots)),
{
    let all = RequestMatch::All(ms);
    let any = RequestMatch::Any(ms);
    let any_not = RequestMatch::Any(nots);
    let all_not = RequestMatch::All(nots);
    assert forall|method: http::Method, path: Seq<char>| #[trigger]
        RequestMatch::Not(Box::new(all)).matches(method, path) == any_not.matches(method, path) by {
        lemma_negated_parts(all, any_not, method, path);
    }
    assert forall|method: http::Method, path: Seq<char>| #[trigger]
        RequestMatch::Not(Box::new(any)).matches(method, path) == all_not.matches(method, path) by {
        lemma_negated_parts(any, all_not, method, path);
    }
}

/// What [`law_de_morgan`] says, for one request.
proof fn lemma_negated_parts(
    m: RequestMatch,
    dual: RequestMatch,
    method: http::Method,
    path: Seq<char>,
)
    requires
        m is All && dual is Any || m is Any && dual is All,
        parts(dual).len() == parts(m).len(),
        forall|i: int| 0 <= i < parts(m).len() ==> #[trigger] parts(dual)[i] == RequestMatch::Not(
            Box::new(parts(m)[i]),
        ),
    ensures
        RequestMatch::Not(Box::new(m)).matches(method, path) == dual.matches(method, path),
{
    law_by_parts(RequestMatch::Not(Box::new(m)), method, path);
    law_by_parts(m, method, path);
    law_by_parts(dual, method, path);
    assert forall|i: int|
        #![trigger parts(m)[i]]
        #![trigger parts(dual)[i]]
        0 <= i < parts(m).len() implies parts(dual)[i].matches(method, path) == !parts(
        m,
    )[i].matches(method, path) by {
        law_by_parts(parts(dual)[i], method, path);
    }
}

} // verus!
