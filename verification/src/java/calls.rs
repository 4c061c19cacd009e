//! Call statements of Java sources: the invoked name, its arguments and the
//! method and class they stand in.
use vstd::prelude::*;

use crate::java::enclosing::{
    call_span, enclosing_function, enclosing_function_exec, first_of_kind,
    get_enclosing_node_by_kind, get_hashed_node_value, last_class_first_function_span, lemma_first_of_kind, AncestorNode,
};
use crate::model::{argument_view, copy_arguments, opt_view, Argument, CallStatement, SourceSpan};
use crate::text::{
    chars_eq, chars_of, normalize_whitespace, normalize_whitespace_exec, starts_with,
    starts_with_exec, string_of, text_of, trim_str, trim_str_exec, one,
};

verus! {

/// One capture of a call match, in the order of the match: the object
/// invoked on, the argument list (its text and its arguments), the method
/// name, an explicit `this(...)`/`super(...)` constructor call, or the call
/// node itself (given by its ancestors, nearest first).
pub enum CallCapture {
    InvokedOn(String),
    Args { text: String, arguments: Vec<Argument> },
    Name(String),
    ExplicitConstructorCall(String),
    Call(Vec<AncestorNode>),
    Other,
}

/// Finds the call statements of Java sources.
pub struct CallStatementsExtractor;

pub type ArgView = (Seq<char>, Seq<char>, Option<Seq<char>>);

/// What a call match has read so far: invoked object, arguments, argument
/// text, explicit constructor call, name, enclosing function, class and
/// function hash, self and super invocation, span.
pub type CallState = (
    Option<Seq<char>>,
    Seq<ArgView>,
    Seq<char>,
    Option<Seq<char>>,
    Option<Seq<char>>,
    (Option<Seq<char>>, Option<Seq<char>>, Option<Seq<char>>),
    (bool, bool),
    SourceSpan,
);

pub open spec fn args_view(a: Seq<Argument>) -> Seq<ArgView> {
    a.map_values(|x: Argument| argument_view(x))
}

/// The enclosing class, interface, record or enum, looked up in that order.
pub open spec fn enclosing_type(ancestors: Seq<AncestorNode>) -> Option<int> {
    match first_of_kind(ancestors, "class_declaration"@) {
        Some(i) => Some(i),
        None => match first_of_kind(ancestors, "interface_declaration"@) {
            Some(i) => Some(i),
            None => match first_of_kind(ancestors, "record_declaration"@) {
                Some(i) => Some(i),
                None => first_of_kind(ancestors, "enum_declaration"@),
            },
        },
    }
}

/// What the call node tells: its span, its enclosing function's signature
/// and hash (when the function has a name and parameters), and its
/// enclosing type's name.
pub open spec fn call_node_step(st: CallState, ancestors: Seq<AncestorNode>, code_len: u32) -> CallState {
    let f = match enclosing_function(ancestors) {
        Some(i) => {
            let n = ancestors[i];
            match (opt_view(n.name), opt_view(n.parameters)) {
                (Some(name), Some(params)) => (
                    Some(
                        match opt_view(n.type_text) {
                            Some(ft) => ft + " "@ + name + params,
                            None => name + params,
                        },
                    ),
                    Some(crate::hashing::text_hash(n.text@)),
                ),
                _ => (st.5.0, st.5.2),
            }
        },
        None => (st.5.0, st.5.2),
    };
    let cls = match enclosing_type(ancestors) {
        Some(j) => opt_view(ancestors[j].name),
        None => st.5.1,
    };
    (st.0, st.1, st.2, st.3, st.4, (f.0, cls, f.1), st.6, call_span(ancestors, code_len))
}

pub open spec fn call_capture_step(st: CallState, c: CallCapture, code_len: u32) -> CallState {
    match c {
        CallCapture::InvokedOn(v) => (
            Some(v@),
            st.1,
            st.2,
            st.3,
            st.4,
            st.5,
            (st.6.0 || v@ == "this"@, st.6.1 || v@ == "super"@),
            st.7,
        ),
        CallCapture::Args { text, arguments } => (st.0, args_view(arguments@), text@, st.3, st.4, st.5, st.6, st.7),
        CallCapture::Name(v) => (st.0, st.1, st.2, st.3, Some(v@), st.5, st.6, st.7),
        CallCapture::ExplicitConstructorCall(v) => (
            st.0,
            st.1,
            st.2,
            Some(v@),
            st.4,
            st.5,
            (st.6.0 || starts_with(v@, "this"@), st.6.1 || starts_with(v@, "super"@)),
            st.7,
        ),
        CallCapture::Call(a) => call_node_step(st, a@, code_len),
        CallCapture::Other => st,
    }
}

pub open spec fn initial_call_state() -> CallState {
    (
        None,
        Seq::empty(),
        Seq::empty(),
        None,
        None,
        (None, None, None),
        (false, false),
        SourceSpan { start: 0, end: 0 },
    )
}

pub open spec fn run_call_captures(cs: Seq<CallCapture>, code_len: u32) -> CallState
    decreases cs.len(),
{
    if cs.len() == 0 {
        initial_call_state()
    } else {
        call_capture_step(run_call_captures(cs.drop_last(), code_len), cs.last(), code_len)
    }
}

pub open spec fn or_empty(o: Option<Seq<char>>) -> Seq<char> {
    match o {
        Some(x) => x,
        None => Seq::empty(),
    }
}

/// The invoked name: object, method name and constructor call joined by
/// `.` with outer dots trimmed, then the argument text with its whitespace
/// normalized.
pub open spec fn call_function_name(st: CallState) -> Seq<char> {
    trim_str(or_empty(st.0) + "."@ + or_empty(st.4) + "."@ + or_empty(st.3), "."@) + normalize_whitespace(st.2)
}

pub type CallView = (
    Seq<char>,
    Seq<ArgView>,
    (Option<Seq<char>>, Option<Seq<char>>, Option<Seq<char>>),
    (bool, bool),
    Option<Seq<char>>,
    SourceSpan,
);

/// A call statement as plain values.
pub open spec fn call_view(c: CallStatement) -> CallView {
    (
        c.function_name@,
        args_view(c.arguments@),
        (opt_view(c.enclosing_function_name), opt_view(c.enclosing_class_name), opt_view(c.enclosing_function_hash)),
        (c.is_self_invoke, c.is_super_invoke),
        opt_view(c.invoked_on),
        c.source_span,
    )
}

/// The call statement one match describes (the invoked type is left for
/// later evaluation).
pub open spec fn match_call(cs: Seq<CallCapture>, code_len: u32) -> CallView {
    let st = run_call_captures(cs, code_len);
    (call_function_name(st), st.1, st.5, st.6, None, st.7)
}

fn copy_text(o: &Option<String>) -> (r: Option<String>)
    ensures
        opt_view(r) == opt_view(*o),
{
    crate::model::copy_opt(o)
}

fn joined_signature(ft: &Option<String>, name: &String, params: &String) -> (r: String)
    ensures
        r@ == match opt_view(*ft) {
            Some(t) => t + " "@ + name@ + params@,
            None => name@ + params@,
        },
{
    let mut v: Vec<char> = Vec::new();
    match ft {
        Some(t) => {
            v = text_of(t);
            v.push(' ');
        },
        None => {},
    }
    let ghost v0 = v@;
    crate::text::append_chars(&mut v, &text_of(name));
    crate::text::append_chars(&mut v, &text_of(params));
    proof {
        reveal_strlit(" ");
    }
    assert(v@ =~= v0 + name@ + params@);
    string_of(&v)
}

impl CallStatementsExtractor {
    fn match_call_exec(caps: &Vec<CallCapture>, code_len: u32) -> (r: CallStatement)
        ensures
            call_view(r) == match_call(caps@, code_len),
    {
        let mut invoked_on: Option<String> = None;
        let mut arguments: Vec<Argument> = Vec::new();
        let mut args_text: String = String::new();
        let mut explicit: Option<String> = None;
        let mut name: Option<String> = None;
        let mut efn: Option<String> = None;
        let mut ecls: Option<String> = None;
        let mut ehash: Option<String> = None;
        let mut is_self = false;
        let mut is_super = false;
        let mut span = SourceSpan { start: 0, end: 0 };
        proof {
            reveal_strlit("");
        }
        assert(args_view(arguments@) =~= Seq::empty());
        let mut i: usize = 0;
        while i < caps.len()
            invariant
                i <= caps@.len(),
                (
                    opt_view(invoked_on),
                    args_view(arguments@),
                    args_text@,
                    opt_view(explicit),
                    opt_view(name),
                    (opt_view(efn), opt_view(ecls), opt_view(ehash)),
                    (is_self, is_super),
                    span,
                ) == run_call_captures(caps@.take(i as int), code_len),
            decreases caps.len() - i,
        {
            assert(caps@.take(i + 1).drop_last() =~= caps@.take(i as int));
            assert(caps@.take(i + 1).last() == caps@[i as int]);
            match &caps[i] {
                CallCapture::InvokedOn(v) => {
                    let t = text_of(v);
                    if chars_eq(&t, &chars_of("this")) {
                        is_self = true;
                    }
                    if chars_eq(&t, &chars_of("super")) {
                        is_super = true;
                    }
                    invoked_on = Some(v.clone());
                },
                CallCapture::Args { text, arguments: a } => {
                    arguments = copy_arguments(a);
                    assert(args_view(arguments@) =~= args_view(a@)) by {
                        assert forall|k: int| 0 <= k < a@.len() implies args_view(arguments@)[k]
                            == args_view(a@)[k] by {
                            assert(crate::model::same_arguments(arguments@, a@));
                        }
                    }
                    args_text = text.clone();
                },
                CallCapture::Name(v) => {
                    name = Some(v.clone());
                },
                CallCapture::ExplicitConstructorCall(v) => {
                    let t = text_of(v);
                    if starts_with_exec(&t, &chars_of("this")) {
                        is_self = true;
                    }
                    if starts_with_exec(&t, &chars_of("super")) {
                        is_super = true;
                    }
                    explicit = Some(v.clone());
                },
                CallCapture::Call(ancestors) => {
                    span = last_class_first_function_span(ancestors.as_slice(), code_len);
                    match enclosing_function_exec(ancestors.as_slice()) {
                        Some(k) => {
                            let n = &ancestors[k];
                            match (&n.name, &n.parameters) {
                                (Some(fname), Some(params)) => {
                                    efn = Some(joined_signature(&n.type_text, fname, params));
                                    ehash = Some(get_hashed_node_value(n));
                                },
                                _ => {},
                            }
                        },
                        None => {},
                    }
                    proof {
                        lemma_first_of_kind(ancestors@, "class_declaration"@);
                        lemma_first_of_kind(ancestors@, "interface_declaration"@);
                        lemma_first_of_kind(ancestors@, "record_declaration"@);
                        lemma_first_of_kind(ancestors@, "enum_declaration"@);
                    }
                    let a = ancestors.as_slice();
                    let found = match get_enclosing_node_by_kind(a, "class_declaration") {
                        Some(j) => Some(j),
                        None => match get_enclosing_node_by_kind(a, "interface_declaration") {
                            Some(j) => Some(j),
                            None => match get_enclosing_node_by_kind(a, "record_declaration") {
                                Some(j) => Some(j),
                                None => get_enclosing_node_by_kind(a, "enum_declaration"),
                            },
                        },
                    };
                    match found {
                        Some(j) => {
                            ecls = copy_text(&ancestors[j].name);
                        },
                        None => {},
                    }
                },
                CallCapture::Other => {},
            }
            i = i + 1;
        }
        assert(caps@.take(caps@.len() as int) =~= caps@);
        let mut joined = match &invoked_on {
            Some(v) => text_of(v),
            None => Vec::new(),
        };
        joined.push('.');
        match &name {
            Some(v) => crate::text::append_chars(&mut joined, &text_of(v)),
            None => {},
        }
        joined.push('.');
        match &explicit {
            Some(v) => crate::text::append_chars(&mut joined, &text_of(v)),
            None => {},
        }
        let ghost st = run_call_captures(caps@, code_len);
        assert(joined@ =~= or_empty(st.0) + "."@ + or_empty(st.4) + "."@ + or_empty(st.3)) by {
            reveal_strlit(".");
        }
        let dot = one('.');
        assert(dot@ == "."@) by {
            reveal_strlit(".");
        }
        let mut fname = trim_str_exec(&joined, &dot);
        crate::text::append_chars(&mut fname, &normalize_whitespace_exec(&text_of(&args_text)));
        CallStatement {
            function_name: string_of(&fname),
            arguments,
            enclosing_function_name: efn,
            enclosing_class_name: ecls,
            enclosing_function_hash: ehash,
            is_self_invoke: is_self,
            is_super_invoke: is_super,
            invoked_on: None,
            source_span: span,
        }
    }

    /// The call statement of every match, in order.  `code_len` is the
    /// length of the source in bytes, the span of a call outside any method
    /// or type.
    pub fn extract(&self, matches: &[Vec<CallCapture>], code_len: u32) -> (r: Vec<CallStatement>)
        ensures
            r@.len() == matches@.len(),
            forall|i: int| 0 <= i < r@.len() ==> call_view(#[trigger] r@[i]) == match_call(matches@[i]@, code_len),
    {
        let mut out: Vec<CallStatement> = Vec::new();
        let mut i: usize = 0;
        while i < matches.len()
            invariant
                i <= matches@.len(),
                out@.len() == i,
                forall|k: int| 0 <= k < i ==> call_view(#[trigger] out@[k]) == match_call(matches@[k]@, code_len),
            decreases matches.len() - i,
        {
            out.push(Self::match_call_exec(&matches[i], code_len));
            i = i + 1;
        }
        out
    }
}

} // verus!
