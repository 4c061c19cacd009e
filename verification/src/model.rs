//! The records that extraction produces and consumes.
use vstd::prelude::*;

use crate::text::{chars_eq, chars_of, upper, upper_exec};

verus! {

/// An HTTP request method.
#[allow(non_camel_case_types, clippy::upper_case_acronyms)]
#[derive(Clone, Copy, Debug, PartialEq, Eq, Structural, Hash)]
pub enum HttpMethod {
    GET,
    POST,
    PUT,
    DELETE,
    PATCH,
    HEAD,
    OPTIONS,
}

/// The method whose upper-case name is exactly `name`.
pub open spec fn method_named(name: Seq<char>) -> Option<HttpMethod> {
    if name == "GET"@ {
        Some(HttpMethod::GET)
    } else if name == "POST"@ {
        Some(HttpMethod::POST)
    } else if name == "PUT"@ {
        Some(HttpMethod::PUT)
    } else if name == "DELETE"@ {
        Some(HttpMethod::DELETE)
    } else if name == "PATCH"@ {
        Some(HttpMethod::PATCH)
    } else if name == "HEAD"@ {
        Some(HttpMethod::HEAD)
    } else if name == "OPTIONS"@ {
        Some(HttpMethod::OPTIONS)
    } else {
        None
    }
}

impl HttpMethod {
    /// The upper-case name of the method.
    pub open spec fn name(self) -> Seq<char> {
        match self {
            HttpMethod::GET => "GET"@,
            HttpMethod::POST => "POST"@,
            HttpMethod::PUT => "PUT"@,
            HttpMethod::DELETE => "DELETE"@,
            HttpMethod::PATCH => "PATCH"@,
            HttpMethod::HEAD => "HEAD"@,
            HttpMethod::OPTIONS => "OPTIONS"@,
        }
    }

    pub fn as_str(&self) -> (r: &'static str)
        ensures
            r@ == self.name(),
    {
        match self {
            HttpMethod::GET => "GET",
            HttpMethod::POST => "POST",
            HttpMethod::PUT => "PUT",
            HttpMethod::DELETE => "DELETE",
            HttpMethod::PATCH => "PATCH",
            HttpMethod::HEAD => "HEAD",
            HttpMethod::OPTIONS => "OPTIONS",
        }
    }

    /// Parses a method name, ignoring ASCII case.
    pub fn from_name(s: &str) -> (r: Option<HttpMethod>)
        ensures
            r == method_named(upper(s@)),
    {
        let u = upper_exec(&chars_of(s));
        method_named_exec(&u)
    }
}

/// The method whose upper-case name is exactly `name`.
pub fn method_named_exec(name: &[char]) -> (r: Option<HttpMethod>)
    ensures
        r == method_named(name@),
{
    if chars_eq(name, &chars_of("GET")) {
        Some(HttpMethod::GET)
    } else if chars_eq(name, &chars_of("POST")) {
        Some(HttpMethod::POST)
    } else if chars_eq(name, &chars_of("PUT")) {
        Some(HttpMethod::PUT)
    } else if chars_eq(name, &chars_of("DELETE")) {
        Some(HttpMethod::DELETE)
    } else if chars_eq(name, &chars_of("PATCH")) {
        Some(HttpMethod::PATCH)
    } else if chars_eq(name, &chars_of("HEAD")) {
        Some(HttpMethod::HEAD)
    } else if chars_eq(name, &chars_of("OPTIONS")) {
        Some(HttpMethod::OPTIONS)
    } else {
        None
    }
}

/// Where a callable is declared: a module (file) or a class-like receiver type.
#[derive(Clone, Debug, PartialEq, Eq, Hash)]
pub enum Namespace {
    Module(String),
    Class(String),
}

/// A namespace as a plain value: whether it is a class, and its name.
pub open spec fn namespace_view(n: Namespace) -> (bool, Seq<char>) {
    match n {
        Namespace::Module(m) => (false, m@),
        Namespace::Class(c) => (true, c@),
    }
}

/// The scope an assignment belongs to.
#[derive(Clone, Debug, PartialEq, Eq, Hash)]
pub enum Scope {
    Global,
    Function(String),
    Class(String),
}

/// The scope as a plain value: 0 global, 1 function, 2 class, with the name.
pub open spec fn scope_view(s: Scope) -> (int, Seq<char>) {
    match s {
        Scope::Global => (0, Seq::empty()),
        Scope::Function(n) => (1, n@),
        Scope::Class(n) => (2, n@),
    }
}

pub fn same_scope(a: &Scope, b: &Scope) -> (r: bool)
    ensures
        r == (scope_view(*a) == scope_view(*b)),
{
    match (a, b) {
        (Scope::Global, Scope::Global) => true,
        (Scope::Function(x), Scope::Function(y)) => chars_eq(&crate::text::text_of(x), &crate::text::text_of(y)),
        (Scope::Class(x), Scope::Class(y)) => chars_eq(&crate::text::text_of(x), &crate::text::text_of(y)),
        _ => false,
    }
}

/// Where an assignment is keyed: its scope and the assigned name.
#[derive(Clone, Debug, PartialEq, Eq, Hash)]
pub struct AssignmentKey {
    pub scope: Scope,
    pub variable_name: String,
}

/// A value assigned to a name.
#[derive(Clone, Debug, PartialEq, Eq)]
pub struct Assignment {
    pub variable_name: String,
    pub variable_type: String,
    pub value: String,
}

/// One argument of a call as written in the source.
#[derive(Clone, Debug, PartialEq, Eq)]
pub struct Argument {
    pub assigned_variable: String,
    pub value: String,
    pub datatype: Option<String>,
}

/// A call found in a callable's body.
#[derive(Clone, Debug, PartialEq, Eq)]
pub struct CallStatement {
    pub function_name: String,
    pub arguments: Vec<Argument>,
    pub enclosing_function_name: Option<String>,
    pub enclosing_class_name: Option<String>,
    pub enclosing_function_hash: Option<String>,
    pub is_self_invoke: bool,
    pub is_super_invoke: bool,
    pub invoked_on: Option<String>,
    pub source_span: SourceSpan,
}

/// A byte span of the source.
#[derive(Clone, Copy, Debug, PartialEq, Eq, Structural, Default)]
pub struct SourceSpan {
    pub start: u32,
    pub end: u32,
}

/// A declared parameter of a callable.
#[derive(Clone, Debug, PartialEq, Eq)]
pub struct Parameter {
    pub name: String,
    pub datatype: Option<String>,
    pub initial_value: Option<String>,
}

/// The metadata of a function, method or constructor.
#[derive(Clone, Debug, PartialEq, Eq)]
pub struct Callable {
    pub name: String,
    pub signature: String,
    pub namespace: Namespace,
    pub parameters: Vec<Parameter>,
    pub return_type: Option<String>,
    pub is_async: bool,
    pub is_constructor: bool,
    pub hash: String,
    pub file_path: String,
}

/// An expression of the small intermediate language callables are lowered to.
#[derive(Debug, PartialEq, Eq)]
pub enum Expr {
    Literal(String),
    Var(String),
    Concat(Box<Expr>, Box<Expr>),
    StructLiteral { literal_type: Option<String>, fields: Vec<(String, Expr)> },
    Attr { object: Box<Expr>, field: String },
    Call { name: String, receiver: Option<Box<Expr>>, args: Vec<Expr> },
    Joined { vals: Vec<Expr> },
    Empty,
}

/// A statement of the intermediate language.
#[derive(Debug, PartialEq, Eq)]
pub enum Stmt {
    Declaration { name: String, dtype: Option<String>, value: Expr },
    Assignment { name: String, value: Expr },
    Return(Expr),
    Other,
}

/// A callable together with its lowered body.
#[derive(Debug, PartialEq, Eq)]
pub struct ParsedCallable {
    pub metadata: Callable,
    pub statements: Vec<Stmt>,
}

/// An import of a module (Go) or a type or package (Java).
#[derive(Clone, Debug, PartialEq, Eq)]
pub struct Import {
    pub orig_module: String,
    pub orig_name: String,
    pub module_alias: String,
    pub name_alias: String,
    pub codeword: String,
}

/// An HTTP endpoint served by a handler.
#[derive(Clone, Debug, PartialEq, Eq)]
pub struct Endpoint {
    pub function_name: String,
    pub function_hash: String,
    pub http_method: HttpMethod,
    pub parameters: Vec<Parameter>,
    pub uri: String,
    pub file_path: String,
    pub router_variable: Option<String>,
}

/// An outgoing HTTP (or RPC) call.
#[derive(Clone, Debug, PartialEq, Eq)]
pub struct RestCall {
    pub function_name: String,
    pub function_hash: String,
    pub call_arguments: Vec<Argument>,
    pub http_method: HttpMethod,
    pub target_uri: String,
    pub file_path: String,
}

#[derive(Clone, Copy, Debug, PartialEq, Eq, Structural, Hash)]
pub enum CommunicationProtocol {
    Kafka,
    RabbitMq,
    Grpc,
}

#[derive(Clone, Copy, Debug, PartialEq, Eq, Structural, Hash)]
pub enum MessageRole {
    Producer,
    Consumer,
    Binding,
    QueueDeclaration,
    TopicDeclaration,
}

#[derive(Clone, Copy, Debug, PartialEq, Eq, Structural, Hash)]
pub enum MessageDestinationKind {
    Topic,
    Queue,
    ExchangeRoutingKey,
    GrpcService,
}

/// An asynchronous message flow recognised at a call site or declaration.
#[derive(Clone, Debug, PartialEq, Eq)]
pub struct MessageEdge {
    pub protocol: CommunicationProtocol,
    pub role: MessageRole,
    pub destination_kind: MessageDestinationKind,
    pub destination: String,
    pub exchange: Option<String>,
    pub routing_key: Option<String>,
    pub queue: Option<String>,
    pub topic: Option<String>,
    pub handler: Option<String>,
    pub function_name: String,
    pub function_hash: String,
    pub call_arguments: Vec<Argument>,
    pub file_path: String,
}

/// The language a source file is written in.
#[derive(Clone, Copy, Debug, PartialEq, Eq, Structural)]
pub enum Language {
    Go,
    Java,
}

/// What extraction knows of one source file when calls are identified.
pub struct TypedFileRecord {
    pub file_path: String,
    pub language: Language,
    pub imports: Vec<Import>,
    pub endpoints: Vec<Endpoint>,
    pub callables: Vec<ParsedCallable>,
    pub call_statements: Vec<CallStatement>,
    pub assignments: Vec<(AssignmentKey, Assignment)>,
    pub raw_restcalls: Vec<RestCall>,
    pub raw_message_edges: Vec<MessageEdge>,
}

/// A field of an entity or a record component.
#[derive(Clone, Debug, PartialEq, Eq)]
pub struct Field {
    pub name: String,
    pub datatype: Option<String>,
    pub initial_value: Option<String>,
    pub datatype_signature: Option<String>,
    pub is_collection: bool,
}

/// The text of an optional string.
pub open spec fn opt_view(o: Option<String>) -> Option<Seq<char>> {
    match o {
        Some(s) => Some(s@),
        None => None,
    }
}

/// A copy of an optional string.
pub fn copy_opt(o: &Option<String>) -> (r: Option<String>)
    ensures
        opt_view(r) == opt_view(*o),
{
    match o {
        Some(s) => Some(s.clone()),
        None => None,
    }
}

/// The text of an optional string, or the empty text.
pub open spec fn opt_or_empty(o: Option<String>) -> Seq<char> {
    match o {
        Some(s) => s@,
        None => Seq::empty(),
    }
}

pub fn opt_or_empty_exec(o: &Option<String>) -> (r: String)
    ensures
        r@ == opt_or_empty(*o),
{
    match o {
        Some(s) => s.clone(),
        None => String::new(),
    }
}

/// The values of arguments, in order.
pub open spec fn argument_values(args: Seq<Argument>) -> Seq<Seq<char>> {
    args.map_values(|a: Argument| a.value@)
}

/// Two argument lists hold the same texts.
pub open spec fn same_arguments(a: Seq<Argument>, b: Seq<Argument>) -> bool {
    a.len() == b.len() && forall|i: int|
        0 <= i < a.len() ==> {
            &&& #[trigger] a[i].value@ == b[i].value@
            &&& a[i].assigned_variable@ == b[i].assigned_variable@
            &&& opt_view(a[i].datatype) == opt_view(b[i].datatype)
        }
}

pub fn copy_argument(a: &Argument) -> (r: Argument)
    ensures
        r.value@ == a.value@,
        r.assigned_variable@ == a.assigned_variable@,
        opt_view(r.datatype) == opt_view(a.datatype),
{
    Argument {
        assigned_variable: a.assigned_variable.clone(),
        value: a.value.clone(),
        datatype: copy_opt(&a.datatype),
    }
}

pub fn copy_arguments(args: &Vec<Argument>) -> (r: Vec<Argument>)
    ensures
        same_arguments(r@, args@),
{
    let mut r: Vec<Argument> = Vec::new();
    let mut i: usize = 0;
    while i < args.len()
        invariant
            i <= args.len(),
            r.len() == i,
            forall|j: int|
                0 <= j < i ==> {
                    &&& #[trigger] r@[j].value@ == args@[j].value@
                    &&& r@[j].assigned_variable@ == args@[j].assigned_variable@
                    &&& opt_view(r@[j].datatype) == opt_view(args@[j].datatype)
                },
        decreases args.len() - i,
    {
        r.push(copy_argument(&args[i]));
        i = i + 1;
    }
    r
}

/// A parameter as plain values: name, type and initial value.
pub open spec fn parameter_view(p: Parameter) -> (Seq<char>, Option<Seq<char>>, Option<Seq<char>>) {
    (p.name@, opt_view(p.datatype), opt_view(p.initial_value))
}

pub open spec fn parameters_view(ps: Seq<Parameter>) -> Seq<(Seq<char>, Option<Seq<char>>, Option<Seq<char>>)> {
    ps.map_values(|p: Parameter| parameter_view(p))
}

pub type CallableView = (
    (Seq<char>, Seq<char>, (bool, Seq<char>)),
    (Seq<(Seq<char>, Option<Seq<char>>, Option<Seq<char>>)>, Option<Seq<char>>, bool, bool),
    (Seq<char>, Seq<char>),
);

/// A callable as plain values: (name, signature, namespace), (parameters,
/// return type, async, constructor), (hash, file).
pub open spec fn callable_view(c: Callable) -> CallableView {
    (
        (c.name@, c.signature@, namespace_view(c.namespace)),
        (parameters_view(c.parameters@), opt_view(c.return_type), c.is_async, c.is_constructor),
        (c.hash@, c.file_path@),
    )
}

pub fn copy_namespace(n: &Namespace) -> (r: Namespace)
    ensures
        namespace_view(r) == namespace_view(*n),
{
    match n {
        Namespace::Module(m) => Namespace::Module(m.clone()),
        Namespace::Class(c) => Namespace::Class(c.clone()),
    }
}

pub fn copy_callable(c: &Callable) -> (r: Callable)
    ensures
        callable_view(r) == callable_view(*c),
{
    let mut parameters: Vec<Parameter> = Vec::new();
    let mut i: usize = 0;
    while i < c.parameters.len()
        invariant
            i <= c.parameters@.len(),
            parameters@.len() == i,
            parameters_view(parameters@) == parameters_view(c.parameters@.take(i as int)),
        decreases c.parameters.len() - i,
    {
        let p = &c.parameters[i];
        let ghost before = parameters@;
        parameters.push(
            Parameter {
                name: p.name.clone(),
                datatype: copy_opt(&p.datatype),
                initial_value: copy_opt(&p.initial_value),
            },
        );
        assert forall|j: int| 0 <= j < i + 1 implies parameters_view(parameters@)[j]
            == parameters_view(c.parameters@.take(i + 1))[j] by {
            if j < i {
                assert(parameters@[j] == before[j]);
                assert(parameters_view(before)[j] == parameters_view(c.parameters@.take(i as int))[j]);
            }
        }
        assert(parameters_view(parameters@) =~= parameters_view(c.parameters@.take(i + 1)));
        i = i + 1;
    }
    assert(c.parameters@.take(c.parameters@.len() as int) =~= c.parameters@);
    Callable {
        name: c.name.clone(),
        signature: c.signature.clone(),
        namespace: copy_namespace(&c.namespace),
        parameters,
        return_type: copy_opt(&c.return_type),
        is_async: c.is_async,
        is_constructor: c.is_constructor,
        hash: c.hash.clone(),
        file_path: c.file_path.clone(),
    }
}

/// A callable with no parameters, no return type, neither async nor a
/// constructor.
pub open spec fn bare_callable(
    name: Seq<char>,
    signature: Seq<char>,
    namespace: (bool, Seq<char>),
    hash: Seq<char>,
    file_path: Seq<char>,
) -> CallableView {
    ((name, signature, namespace), (Seq::empty(), None, false, false), (hash, file_path))
}

pub open spec fn callables_view(v: Seq<Callable>) -> Seq<CallableView> {
    v.map_values(|c: Callable| callable_view(c))
}

/// The metadata of parsed callables.
pub open spec fn parsed_view(v: Seq<ParsedCallable>) -> Seq<CallableView> {
    v.map_values(|c: ParsedCallable| callable_view(c.metadata))
}

/// An argument as plain values: assigned variable, value and type.
pub open spec fn argument_view(a: Argument) -> (Seq<char>, Seq<char>, Option<Seq<char>>) {
    (a.assigned_variable@, a.value@, opt_view(a.datatype))
}

pub type EndpointView = (
    Seq<char>,
    Seq<char>,
    HttpMethod,
    Seq<(Seq<char>, Option<Seq<char>>, Option<Seq<char>>)>,
    Seq<char>,
    Seq<char>,
    Option<Seq<char>>,
);

/// An endpoint as plain values: handler name and hash, method, parameters,
/// URI, file and router variable.
pub open spec fn endpoint_view(e: Endpoint) -> EndpointView {
    (
        e.function_name@,
        e.function_hash@,
        e.http_method,
        parameters_view(e.parameters@),
        e.uri@,
        e.file_path@,
        opt_view(e.router_variable),
    )
}

pub open spec fn endpoints_view(v: Seq<Endpoint>) -> Seq<EndpointView> {
    v.map_values(|e: Endpoint| endpoint_view(e))
}

pub type RestCallView = (
    Seq<char>,
    Seq<char>,
    Seq<(Seq<char>, Seq<char>, Option<Seq<char>>)>,
    HttpMethod,
    Seq<char>,
    Seq<char>,
);

/// A REST call as plain values: caller name and hash, arguments, method,
/// target URI and file.
pub open spec fn restcall_view(c: RestCall) -> RestCallView {
    (
        c.function_name@,
        c.function_hash@,
        c.call_arguments@.map_values(|a: Argument| argument_view(a)),
        c.http_method,
        c.target_uri@,
        c.file_path@,
    )
}

pub open spec fn restcalls_view(v: Seq<RestCall>) -> Seq<RestCallView> {
    v.map_values(|c: RestCall| restcall_view(c))
}

/// What syntactic extraction records of one source file.
pub struct FileRecord {
    pub file_path: String,
    pub language: Language,
    pub imports: Vec<Import>,
    pub entities: Vec<Entity>,
    pub endpoints: Vec<Endpoint>,
    pub callables: Vec<ParsedCallable>,
    pub call_statements: Vec<CallStatement>,
    pub assignments: Vec<(AssignmentKey, Assignment)>,
    pub raw_message_edges: Vec<MessageEdge>,
}

pub type FieldView = (Seq<char>, Option<Seq<char>>, Option<Seq<char>>, Option<Seq<char>>, bool);

/// A field as plain values: name, type, initial value, resolved type
/// signature and whether it is a collection.
pub open spec fn field_view(f: Field) -> FieldView {
    (f.name@, opt_view(f.datatype), opt_view(f.initial_value), opt_view(f.datatype_signature), f.is_collection)
}

pub open spec fn fields_view(v: Seq<Field>) -> Seq<FieldView> {
    v.map_values(|f: Field| field_view(f))
}

/// A class, interface, record or enum with its fields.
pub struct Entity {
    pub name: String,
    pub superclasses: Vec<String>,
    pub fields: Vec<Field>,
    pub signature: String,
    pub file_path: String,
}

pub type EntityView = (Seq<char>, Seq<Seq<char>>, Seq<FieldView>, Seq<char>, Seq<char>);

pub open spec fn entity_view(e: Entity) -> EntityView {
    (e.name@, crate::sorting::texts(e.superclasses@), fields_view(e.fields@), e.signature@, e.file_path@)
}

pub open spec fn entities_view(v: Seq<Entity>) -> Seq<EntityView> {
    v.map_values(|e: Entity| entity_view(e))
}

/// What an import resolves to.
#[derive(Clone, Copy, Debug, PartialEq, Eq, Structural)]
pub enum ImportKind {
    Entity,
    Other,
}

/// An import resolved to the declaration it names.
pub struct ResolvedImport {
    pub source_file: String,
    pub fully_qualified_name: String,
    pub kind: ImportKind,
}

/// Resolved imports keyed by (importing file, name used in it); a later
/// entry of the same key replaces an earlier one.
pub struct ImportGraph {
    pub resolved_imports: Vec<((String, String), ResolvedImport)>,
}

pub type ImportEntryView = ((Seq<char>, Seq<char>), (Seq<char>, Seq<char>, ImportKind));

pub open spec fn import_entry_view(e: ((String, String), ResolvedImport)) -> ImportEntryView {
    ((e.0.0@, e.0.1@), (e.1.source_file@, e.1.fully_qualified_name@, e.1.kind))
}

pub open spec fn import_entries_view(v: Seq<((String, String), ResolvedImport)>) -> Seq<ImportEntryView> {
    v.map_values(|e: ((String, String), ResolvedImport)| import_entry_view(e))
}

/// The position of the entry for `(file, name)`: the last one with that key.
pub open spec fn import_position(es: Seq<ImportEntryView>, file: Seq<char>, name: Seq<char>) -> Option<int>
    decreases es.len(),
{
    if es.len() == 0 {
        None
    } else if es.last().0 == (file, name) {
        Some(es.len() - 1)
    } else {
        import_position(es.drop_last(), file, name)
    }
}

pub proof fn lemma_import_position(es: Seq<ImportEntryView>, file: Seq<char>, name: Seq<char>)
    ensures
        import_position(es, file, name) matches Some(i) ==> 0 <= i < es.len() && es[i].0 == (file, name),
    decreases es.len(),
{
    if es.len() > 0 {
        lemma_import_position(es.drop_last(), file, name);
    }
}

/// What `(file, name)` resolves to.
pub open spec fn import_lookup(es: Seq<ImportEntryView>, file: Seq<char>, name: Seq<char>) -> Option<
    (Seq<char>, Seq<char>, ImportKind),
> {
    match import_position(es, file, name) {
        Some(i) => Some(es[i].1),
        None => None,
    }
}

impl ImportGraph {
    /// The resolved import of `name` in `file`.
    pub fn lookup(&self, file: &[char], name: &[char]) -> (r: Option<&ResolvedImport>)
        ensures
            r matches Some(ri) ==> import_lookup(import_entries_view(self.resolved_imports@), file@, name@)
                == Some((ri.source_file@, ri.fully_qualified_name@, ri.kind)),
            r is None ==> import_lookup(import_entries_view(self.resolved_imports@), file@, name@) is None,
    {
        let ghost es = import_entries_view(self.resolved_imports@);
        let mut i: usize = self.resolved_imports.len();
        assert(es.take(i as int) =~= es);
        while i > 0
            invariant
                i <= self.resolved_imports@.len(),
                es == import_entries_view(self.resolved_imports@),
                import_position(es, file@, name@) == import_position(es.take(i as int), file@, name@),
            decreases i,
        {
            assert(es.take(i as int).drop_last() =~= es.take(i - 1));
            assert(es.take(i as int).last() == es[i - 1]);
            let e = &self.resolved_imports[i - 1];
            if crate::text::chars_eq(&crate::text::text_of(&e.0.0), file) && crate::text::chars_eq(
                &crate::text::text_of(&e.0.1),
                name,
            ) {
                assert(import_position(es.take(i as int), file@, name@) == Some(i - 1));
                return Some(&e.1);
            }
            i = i - 1;
        }
        assert(es.take(0) =~= Seq::<ImportEntryView>::empty());
        None
    }
}

} // verus!
