//! Methods and constructors of Java sources as callables.
use vstd::prelude::*;

use crate::java::enclosing::{is_type_declaration, AncestorNode};
use crate::java::params::{callable_params, parse_callable_params};
use crate::model::{callable_view, opt_view, Callable, CallableView, Namespace};
use crate::text::{chars_eq, chars_of, normalize_whitespace, normalize_whitespace_exec, string_of, text_of, trim, trim_exec};

verus! {

/// One capture of a callable match, in the order of the match: the name,
/// the return type, the parameter list, the whole declaration (its text
/// and its ancestors, nearest first), or the mark of a constructor.
pub enum CallableCapture {
    Name(String),
    Type(String),
    Params(String),
    Callable { text: String, ancestors: Vec<AncestorNode> },
    TypeConstructor,
    Other,
}

/// Finds the callables of Java sources.
pub struct CallablesExtractor;

/// The name of the nearest enclosing class, interface, record or enum that
/// has one; empty when there is none.
pub open spec fn enclosing_element_name(ancestors: Seq<AncestorNode>) -> Seq<char>
    decreases ancestors.len(),
{
    if ancestors.len() == 0 {
        Seq::empty()
    } else if is_type_declaration(ancestors[0].kind@) && ancestors[0].name is Some {
        ancestors[0].name->0@
    } else {
        enclosing_element_name(ancestors.drop_first())
    }
}

pub fn get_enclosing_element_name(ancestors: &[AncestorNode]) -> (r: String)
    ensures
        r@ == enclosing_element_name(ancestors@),
{
    let n = ancestors.len();
    let mut i: usize = 0;
    proof {
        reveal_strlit("");
    }
    assert(ancestors@.skip(0) =~= ancestors@);
    while i < n
        invariant
            i <= n,
            n == ancestors@.len(),
            enclosing_element_name(ancestors@) == enclosing_element_name(ancestors@.skip(i as int)),
        decreases n - i,
    {
        let a = &ancestors[i];
        let k = text_of(&a.kind);
        assert(ancestors@.skip(i as int)[0] == ancestors@[i as int]);
        assert(ancestors@.skip(i as int).drop_first() =~= ancestors@.skip(i + 1));
        let is_type = chars_eq(&k, &chars_of("class_declaration")) || chars_eq(&k, &chars_of("interface_declaration"))
            || chars_eq(&k, &chars_of("record_declaration")) || chars_eq(&k, &chars_of("enum_declaration"));
        if is_type {
            match &a.name {
                Some(name) => {
                    return name.clone();
                },
                None => {},
            }
        }
        i = i + 1;
    }
    assert(ancestors@.skip(n as int) =~= Seq::<AncestorNode>::empty());
    String::new()
}

/// What a callable match has read: name, parameter list, return type,
/// constructor mark, hash and namespace.
pub type CallableState = (
    Option<Seq<char>>,
    Option<Seq<char>>,
    Option<Seq<char>>,
    bool,
    Option<Seq<char>>,
    Option<(bool, Seq<char>)>,
);

pub open spec fn callable_step(st: CallableState, c: CallableCapture) -> CallableState {
    match c {
        CallableCapture::Name(v) => (Some(v@), st.1, st.2, st.3, st.4, st.5),
        CallableCapture::Type(v) => (st.0, st.1, Some(v@), st.3, st.4, st.5),
        CallableCapture::Params(v) => (st.0, Some(v@), st.2, st.3, st.4, st.5),
        CallableCapture::Callable { text, ancestors } => (
            st.0,
            st.1,
            st.2,
            st.3,
            Some(crate::hashing::text_hash(text@)),
            Some((true, enclosing_element_name(ancestors@))),
        ),
        CallableCapture::TypeConstructor => (st.0, st.1, st.2, true, st.4, st.5),
        CallableCapture::Other => st,
    }
}

pub open spec fn run_callable_captures(cs: Seq<CallableCapture>) -> CallableState
    decreases cs.len(),
{
    if cs.len() == 0 {
        (None, None, None, false, None, None)
    } else {
        callable_step(run_callable_captures(cs.drop_last()), cs.last())
    }
}

pub open spec fn or_empty(o: Option<Seq<char>>) -> Seq<char> {
    match o {
        Some(x) => x,
        None => Seq::empty(),
    }
}

/// The callable a match describes: named `return-type name(params)`
/// (trimmed, parameter whitespace normalized), signed `namespace/name` with
/// the name of its enclosing type as namespace (an empty module where the
/// match has no declaration).
pub open spec fn match_callable(cs: Seq<CallableCapture>, file_path: Seq<char>) -> CallableView {
    let st = run_callable_captures(cs);
    let params = normalize_whitespace(or_empty(st.1));
    let name = trim(or_empty(st.2) + " "@ + or_empty(st.0) + params);
    let ns = match st.5 {
        Some(n) => n,
        None => (false, Seq::empty()),
    };
    (
        (name, ns.1 + "/"@ + name, ns),
        (callable_params(params), st.2, false, st.3),
        (or_empty(st.4), file_path),
    )
}

impl CallablesExtractor {
    fn match_callable_exec(caps: &Vec<CallableCapture>, file_name: &str) -> (r: Callable)
        ensures
            callable_view(r) == match_callable(caps@, file_name@),
    {
        let mut name: Option<String> = None;
        let mut params: Option<String> = None;
        let mut return_type: Option<String> = None;
        let mut is_constructor = false;
        let mut hash: Option<String> = None;
        let mut namespace: Option<Namespace> = None;
        let mut i: usize = 0;
        while i < caps.len()
            invariant
                i <= caps@.len(),
                (
                    opt_view(name),
                    opt_view(params),
                    opt_view(return_type),
                    is_constructor,
                    opt_view(hash),
                    match namespace {
                        Some(n) => Some(crate::model::namespace_view(n)),
                        None => None,
                    },
                ) == run_callable_captures(caps@.take(i as int)),
            decreases caps.len() - i,
        {
            assert(caps@.take(i + 1).drop_last() =~= caps@.take(i as int));
            assert(caps@.take(i + 1).last() == caps@[i as int]);
            match &caps[i] {
                CallableCapture::Name(v) => {
                    name = Some(v.clone());
                },
                CallableCapture::Type(v) => {
                    return_type = Some(v.clone());
                },
                CallableCapture::Params(v) => {
                    params = Some(v.clone());
                },
                CallableCapture::Callable { text, ancestors } => {
                    namespace = Some(Namespace::Class(get_enclosing_element_name(ancestors.as_slice())));
                    hash = Some(crate::hashing::hash_text(text.as_str()));
                },
                CallableCapture::TypeConstructor => {
                    is_constructor = true;
                },
                CallableCapture::Other => {},
            }
            i = i + 1;
        }
        assert(caps@.take(caps@.len() as int) =~= caps@);
        let ghost st = run_callable_captures(caps@);
        let raw_params = match &params {
            Some(p) => text_of(p),
            None => Vec::new(),
        };
        let normalized = string_of(&normalize_whitespace_exec(&raw_params));
        let mut full = match &return_type {
            Some(t) => text_of(t),
            None => Vec::new(),
        };
        full.push(' ');
        match &name {
            Some(n) => crate::text::append_chars(&mut full, &text_of(n)),
            None => {},
        }
        crate::text::append_chars(&mut full, &text_of(&normalized));
        assert(full@ =~= or_empty(st.2) + " "@ + or_empty(st.0) + normalize_whitespace(or_empty(st.1))) by {
            reveal_strlit(" ");
        }
        let callable_name = trim_exec(&full);
        let ns = match namespace {
            Some(n) => n,
            None => Namespace::Module(String::new()),
        };
        proof {
            reveal_strlit("");
        }
        let mut sig = match &ns {
            Namespace::Module(m) => text_of(m),
            Namespace::Class(c) => text_of(c),
        };
        sig.push('/');
        crate::text::append_chars(&mut sig, &callable_name);
        assert(sig@ =~= crate::model::namespace_view(ns).1 + "/"@ + callable_name@) by {
            reveal_strlit("/");
        }
        let r = Callable {
            name: string_of(&callable_name),
            signature: string_of(&sig),
            namespace: ns,
            parameters: parse_callable_params(normalized.as_str()),
            return_type,
            is_async: false,
            is_constructor,
            hash: match hash {
                Some(h) => h,
                None => String::new(),
            },
            file_path: file_name.to_string(),
        };
        r
    }

    /// The callable of every match, in order.
    pub fn extract(&self, matches: &[Vec<CallableCapture>], file_name: &str) -> (r: Vec<Callable>)
        ensures
            r@.len() == matches@.len(),
            forall|i: int|
                0 <= i < r@.len() ==> callable_view(#[trigger] r@[i]) == match_callable(matches@[i]@, file_name@),
    {
        let mut out: Vec<Callable> = Vec::new();
        let mut i: usize = 0;
        while i < matches.len()
            invariant
                i <= matches@.len(),
                out@.len() == i,
                forall|k: int|
                    0 <= k < i ==> callable_view(#[trigger] out@[k]) == match_callable(matches@[k]@, file_name@),
            decreases matches.len() - i,
        {
            out.push(Self::match_callable_exec(&matches[i], file_name));
            i = i + 1;
        }
        out
    }
}

} // verus!
