//! HTTP endpoints declared by annotated Java methods.
use vstd::prelude::*;

use crate::java::annotations::{annotation_uri, applied, apply_annotations, extract_uri, is_path_annotation, parens_ok};
use crate::java::params::{callable_params, parse_callable_params};
use crate::model::{endpoint_view, endpoints_view, opt_view, Endpoint, EndpointView, HttpMethod};
use crate::text::{normalize_whitespace, normalize_whitespace_exec, string_of, text_of};

verus! {

/// One capture of an endpoint match, in the order of the match: an
/// annotation of the enclosing class, the method's return type, name and
/// parameter list, one of its annotations, or the whole method text.
pub enum EndpointCapture {
    ClassAnnotation(String),
    ReturnType(String),
    CallableName(String),
    CallableParams(String),
    Annotation(String),
    Callable(String),
    Other,
}

/// Finds the endpoints of Java sources.
pub struct EndpointsExtractor;

/// What the matches have read: the shared class URI, and the current
/// match's annotations, return type, name, parameter list and hash.
pub type EndpointState = (
    Option<Seq<char>>,
    Seq<Seq<char>>,
    Option<Seq<char>>,
    Option<Seq<char>>,
    Option<Seq<char>>,
    Option<Seq<char>>,
);

pub open spec fn endpoint_step(st: EndpointState, c: EndpointCapture) -> EndpointState {
    match c {
        EndpointCapture::ClassAnnotation(v) => (annotation_uri(v@), st.1, st.2, st.3, st.4, st.5),
        EndpointCapture::ReturnType(v) => (st.0, st.1, Some(v@), st.3, st.4, st.5),
        EndpointCapture::CallableName(v) => (st.0, st.1, st.2, Some(v@), st.4, st.5),
        EndpointCapture::CallableParams(v) => (st.0, st.1, st.2, st.3, Some(v@), st.5),
        EndpointCapture::Annotation(v) => (st.0, st.1.push(v@), st.2, st.3, st.4, st.5),
        EndpointCapture::Callable(v) => (st.0, st.1, st.2, st.3, st.4, Some(crate::hashing::text_hash(v@))),
        EndpointCapture::Other => st,
    }
}

pub open spec fn run_endpoint_captures(cs: Seq<EndpointCapture>, shared: Option<Seq<char>>) -> EndpointState
    decreases cs.len(),
{
    if cs.len() == 0 {
        (shared, Seq::empty(), None, None, None, None)
    } else {
        endpoint_step(run_endpoint_captures(cs.drop_last(), shared), cs.last())
    }
}

pub open spec fn or_empty(o: Option<Seq<char>>) -> Seq<char> {
    match o {
        Some(x) => x,
        None => Seq::empty(),
    }
}

/// The endpoint of a method: named `return-type name(params)` with the
/// parameter whitespace normalized, `GET` with an empty URI before its
/// annotations are applied.
pub open spec fn method_endpoint(st: EndpointState, hash: Seq<char>, file_path: Seq<char>) -> EndpointView {
    let params = normalize_whitespace(or_empty(st.4));
    let (m, u) = applied(HttpMethod::GET, Seq::empty(), st.1);
    (or_empty(st.2) + " "@ + or_empty(st.3) + params, hash, m, callable_params(params), u, file_path, None)
}

/// The shared URI and the endpoints (before the shared URI is prefixed)
/// after the matches; a match without a method text gives no endpoint.
pub open spec fn endpoints_after(ms: Seq<Vec<EndpointCapture>>, file_path: Seq<char>) -> (
    Option<Seq<char>>,
    Seq<EndpointView>,
)
    decreases ms.len(),
{
    if ms.len() == 0 {
        (None, Seq::empty())
    } else {
        let prev = endpoints_after(ms.drop_last(), file_path);
        let st = run_endpoint_captures(ms.last()@, prev.0);
        match st.5 {
            Some(h) => (st.0, prev.1.push(method_endpoint(st, h, file_path))),
            None => (st.0, prev.1),
        }
    }
}

pub open spec fn with_prefix(e: EndpointView, prefix: Seq<char>) -> EndpointView {
    (e.0, e.1, e.2, e.3, prefix + e.4, e.5, e.6)
}

/// The endpoints of the matches, each URI prefixed by the class URI.
pub open spec fn java_endpoints(ms: Seq<Vec<EndpointCapture>>, file_path: Seq<char>) -> Seq<EndpointView> {
    let r = endpoints_after(ms, file_path);
    r.1.map_values(|e: EndpointView| with_prefix(e, or_empty(r.0)))
}

/// The URI arguments read are well formed: no `)` of a class annotation or
/// of a path annotation stands before its first `(`.
pub open spec fn readable_annotations(ms: Seq<Vec<EndpointCapture>>) -> bool {
    forall|i: int, j: int|
        0 <= i < ms.len() && 0 <= j < ms[i]@.len() ==> match #[trigger] ms[i]@[j] {
            EndpointCapture::ClassAnnotation(v) => parens_ok(v@),
            EndpointCapture::Annotation(v) => is_path_annotation(v@) ==> parens_ok(v@),
            _ => true,
        }
}

/// Prefixes the URI of every endpoint with `shared_uri`.
pub fn prepend_shared_uri(endpoints: &mut Vec<Endpoint>, shared_uri: &str)
    ensures
        endpoints_view(final(endpoints)@) == endpoints_view(old(endpoints)@).map_values(
            |e: EndpointView| with_prefix(e, shared_uri@),
        ),
{
    let ghost ov = endpoints_view(endpoints@);
    let mut i: usize = 0;
    while i < endpoints.len()
        invariant
            i <= endpoints@.len(),
            endpoints@.len() == ov.len(),
            forall|k: int| 0 <= k < i ==> endpoint_view(#[trigger] endpoints@[k]) == with_prefix(ov[k], shared_uri@),
            forall|k: int| i <= k < endpoints@.len() ==> endpoint_view(#[trigger] endpoints@[k]) == ov[k],
        decreases endpoints.len() - i,
    {
        let mut e = endpoints.remove(i);
        let ghost ev = endpoint_view(e);
        assert(ev == ov[i as int]);
        let mut u = crate::text::chars_of(shared_uri);
        crate::text::append_chars(&mut u, &text_of(&e.uri));
        e.uri = string_of(&u);
        endpoints.insert(i, e);
        i = i + 1;
    }
    assert(endpoints_view(endpoints@) =~= ov.map_values(|e: EndpointView| with_prefix(e, shared_uri@)));
}

impl EndpointsExtractor {
    /// The endpoints of annotated methods: each method's annotations set its
    /// method and URI, and the last URI that a class annotation names is
    /// prefixed to every endpoint's URI.
    pub fn extract(&self, matches: &[Vec<EndpointCapture>], file_name: &str) -> (r: Vec<Endpoint>)
        requires
            readable_annotations(matches@),
        ensures
            endpoints_view(r@) == java_endpoints(matches@, file_name@),
    {
        let mut endpoints: Vec<Endpoint> = Vec::new();
        let mut shared: Option<String> = None;
        let mut m: usize = 0;
        while m < matches.len()
            invariant
                m <= matches@.len(),
                readable_annotations(matches@),
                (opt_view(shared), endpoints_view(endpoints@)) == endpoints_after(
                    matches@.take(m as int),
                    file_name@,
                ),
            decreases matches.len() - m,
        {
            assert(matches@.take(m + 1).drop_last() =~= matches@.take(m as int));
            assert(matches@.take(m + 1).last() == matches@[m as int]);
            let caps = &matches[m];
            let ghost shared0 = opt_view(shared);
            let mut annotations: Vec<String> = Vec::new();
            let mut return_type: Option<String> = None;
            let mut name: Option<String> = None;
            let mut params: Option<String> = None;
            let mut hash: Option<String> = None;
            assert(annotations@.map_values(|a: String| a@) =~= Seq::<Seq<char>>::empty());
            let mut i: usize = 0;
            while i < caps.len()
                invariant
                    i <= caps@.len(),
                    m < matches@.len(),
                    caps@ == matches@[m as int]@,
                    readable_annotations(matches@),
                    (
                        opt_view(shared),
                        annotations@.map_values(|a: String| a@),
                        opt_view(return_type),
                        opt_view(name),
                        opt_view(params),
                        opt_view(hash),
                    ) == run_endpoint_captures(caps@.take(i as int), shared0),
                    forall|k: int|
                        0 <= k < annotations@.len() && is_path_annotation(#[trigger] annotations@[k]@)
                            ==> parens_ok(annotations@[k]@),
                decreases caps.len() - i,
            {
                assert(caps@.take(i + 1).drop_last() =~= caps@.take(i as int));
                assert(caps@.take(i + 1).last() == caps@[i as int]);
                let c = &caps[i];
                assert(matches@[m as int]@[i as int] == *c);
                match c {
                    EndpointCapture::ClassAnnotation(v) => {
                        shared = extract_uri(v.as_str());
                    },
                    EndpointCapture::ReturnType(v) => {
                        return_type = Some(v.clone());
                    },
                    EndpointCapture::CallableName(v) => {
                        name = Some(v.clone());
                    },
                    EndpointCapture::CallableParams(v) => {
                        params = Some(v.clone());
                    },
                    EndpointCapture::Annotation(v) => {
                        let ghost before = annotations@;
                        annotations.push(v.clone());
                        assert(annotations@.map_values(|a: String| a@) =~= before.map_values(
                            |a: String| a@,
                        ).push(v@));
                    },
                    EndpointCapture::Callable(v) => {
                        hash = Some(crate::hashing::hash_text(v.as_str()));
                    },
                    EndpointCapture::Other => {},
                }
                i = i + 1;
            }
            assert(caps@.take(caps@.len() as int) =~= caps@);
            match hash {
                Some(h) => {
                    let ghost st = run_endpoint_captures(caps@, shared0);
                    let raw_params = match &params {
                        Some(p) => text_of(p),
                        None => Vec::new(),
                    };
                    let normalized = string_of(&normalize_whitespace_exec(&raw_params));
                    let mut fname = match &return_type {
                        Some(t) => text_of(t),
                        None => Vec::new(),
                    };
                    fname.push(' ');
                    match &name {
                        Some(n) => crate::text::append_chars(&mut fname, &text_of(n)),
                        None => {},
                    }
                    crate::text::append_chars(&mut fname, &text_of(&normalized));
                    assert(fname@ =~= or_empty(st.2) + " "@ + or_empty(st.3) + normalize_whitespace(
                        or_empty(st.4),
                    )) by {
                        reveal_strlit(" ");
                    }
                    let mut endpoint = Endpoint {
                        function_name: string_of(&fname),
                        function_hash: h,
                        http_method: HttpMethod::GET,
                        parameters: parse_callable_params(normalized.as_str()),
                        uri: String::new(),
                        file_path: file_name.to_string(),
                        router_variable: None,
                    };
                    proof {
                        reveal_strlit("");
                    }
                    apply_annotations(&mut endpoint, annotations.as_slice());
                    let ghost before = endpoints_view(endpoints@);
                    endpoints.push(endpoint);
                    assert(endpoints_view(endpoints@) =~= before.push(endpoint_view(endpoint)));
                    assert(endpoint_view(endpoint) == method_endpoint(st, st.5->0, file_name@));
                },
                None => {},
            }
            m = m + 1;
        }
        assert(matches@.take(matches@.len() as int) =~= matches@);
        let prefix = match &shared {
            Some(s) => s.clone(),
            None => String::new(),
        };
        proof {
            reveal_strlit("");
        }
        prepend_shared_uri(&mut endpoints, prefix.as_str());
        endpoints
    }
}

} // verus!
