//! Boundaries between services in PHP sources.
//!
//! Whether a call is a route or a request is told by the shape of its
//! arguments, a bound handler or a URL, and never by the name of its receiver.

use vstd::prelude::*;

use crate::boundaries::{
    http_verb, is_http_verb, is_path, no_detail, normalize_http_path, normalized, path_like, BoundaryRef, BoundaryView,
    Detail,
};
use crate::php::names::NAME_KINDS;
use crate::strings::{after_last, begins, contains, contains_char, ends, ends_with, has, has_char, one_of, starts_with, tail_after};
use crate::text::{add_item, concat2, concat3, copy, lowercase, opt_view, same, to_lower, to_upper, uppercase, views};
use crate::tree::{
    capture_lists, captured, captured_is_in_tree, group_tree, parse, parsed_hits, parsed_tree, Capture, Grammar, Parsed,
    Syntax, TreeView,
};

verus! {

broadcast use {group_tree, captured_is_in_tree};

/// A call on an object, such as `$client->get('/x')`.
pub const Q_MEMBER_CALL: &'static str = "(member_call_expression object: (_) name: (name) @method arguments: (arguments) @args) (nullsafe_member_call_expression object: (_) name: (name) @method arguments: (arguments) @args)";

/// A call on a class, such as `Route::get('/x', $handler)`.
pub const Q_SCOPED_CALL: &'static str = "(scoped_call_expression scope: (_) name: (name) @method arguments: (arguments) @args)";

/// A call of a function, such as `file_get_contents('http://x')`.
pub const Q_FUNCTION_CALL: &'static str = "(function_call_expression function: [(name) (qualified_name)] @callee arguments: (arguments) @args)";

/// An attribute, such as `#[Route('/x', methods: ['GET'])]`.
pub const Q_ATTRIBUTE: &'static str = "(attribute [(name) (qualified_name) (relative_name)] @attr parameters: (arguments) @args)";

/// The number of the capture of what is called, in each of the queries.
pub const CALLEE: u32 = 0;

/// The number of the capture of the arguments.
pub const ARGS: u32 = 1;

/// The verb of a route that answers every method.
pub const ANY_METHOD: &'static str = "ANY";

// ---------------------------------------------------------------------------
// Strings and arguments
// ---------------------------------------------------------------------------

/// What one part of a string contributes: its text, or a placeholder for an
/// expression in it. Delimiters contribute nothing.
pub open spec fn string_part(t: TreeView, n: usize) -> Seq<char> {
    if t.kind(n) == "string_content"@ || t.kind(n) == "escape_sequence"@ {
        t.text(n)
    } else if t.nodes[n as int].named {
        "{}"@
    } else {
        Seq::empty()
    }
}

/// What the first `k` parts of a string contribute.
pub open spec fn string_parts(t: TreeView, list: Seq<usize>, k: int) -> Seq<char>
    decreases k,
{
    if k <= 0 || k > list.len() {
        Seq::empty()
    } else {
        string_parts(t, list, k - 1) + string_part(t, list[k - 1])
    }
}

/// Whether a node is a string, or the body of one.
pub open spec fn quoted(t: TreeView, n: usize) -> bool {
    t.kind(n) == "string"@ || t.kind(n) == "encapsed_string"@ || t.kind(n) == "heredoc_body"@ || t.kind(n)
        == "nowdoc_body"@
}

/// A string with a placeholder for each expression in it; `None` for what is no
/// string.
pub open spec fn template(t: TreeView, n: usize) -> Option<Seq<char>>
    decreases t.nodes.len() - n,
{
    if quoted(t, n) {
        Some(string_parts(t, t.kids(n), t.kids(n).len() as int))
    } else if t.kind(n) == "heredoc"@ || t.kind(n) == "nowdoc"@ {
        match t.field(n, "value"@) {
            Some(body) => template(t, body),
            None => Some(Seq::empty()),
        }
    } else {
        None
    }
}

/// One argument of a call.
pub struct ArgView {
    /// The label of a named argument.
    pub label: Option<Seq<char>>,
    pub value: usize,
}

/// The argument that a node is: its last named child that is not its label.
pub open spec fn argument_at(t: TreeView, n: usize) -> Option<ArgView> {
    let list = t.named_kids(n);
    if t.kind(n) == "argument"@ && list.len() > 0 && Some(list.last()) != t.field(n, "name"@) {
        Some(
            ArgView {
                label: match t.field(n, "name"@) {
                    Some(label) => Some(t.text(label)),
                    None => None,
                },
                value: list.last(),
            },
        )
    } else {
        None
    }
}

/// The arguments among the first `k` nodes.
pub open spec fn arguments_in(t: TreeView, list: Seq<usize>, k: int) -> Seq<ArgView>
    decreases k,
{
    if k <= 0 || k > list.len() {
        Seq::empty()
    } else {
        match argument_at(t, list[k - 1]) {
            Some(a) => arguments_in(t, list, k - 1).push(a),
            None => arguments_in(t, list, k - 1),
        }
    }
}

/// The arguments of a call, in source order.
pub open spec fn arguments_of(t: TreeView, n: usize) -> Seq<ArgView> {
    arguments_in(t, t.kids(n), t.kids(n).len() as int)
}

/// The argument without a label that has `index` such arguments before it,
/// among those from `i` on.
pub open spec fn positional_from(args: Seq<ArgView>, index: int, i: int) -> Option<usize>
    decreases args.len() - i,
{
    if i < 0 || i >= args.len() {
        None
    } else if args[i].label is Some {
        positional_from(args, index, i + 1)
    } else if index == 0 {
        Some(args[i].value)
    } else {
        positional_from(args, index - 1, i + 1)
    }
}

/// The argument without a label that has `index` such arguments before it.
pub open spec fn positional(args: Seq<ArgView>, index: int) -> Option<usize> {
    positional_from(args, index, 0)
}

/// The first argument from `i` on with a label.
pub open spec fn labelled_from(args: Seq<ArgView>, label: Seq<char>, i: int) -> Option<usize>
    decreases args.len() - i,
{
    if i < 0 || i >= args.len() {
        None
    } else if args[i].label == Some(label) {
        Some(args[i].value)
    } else {
        labelled_from(args, label, i + 1)
    }
}

/// The string that an argument is, if there is one.
pub open spec fn template_of(t: TreeView, n: Option<usize>) -> Option<Seq<char>> {
    match n {
        Some(n) => template(t, n),
        None => None,
    }
}

/// The string that an element of an array literal is.
pub open spec fn element_template(t: TreeView, n: usize) -> Option<Seq<char>> {
    if t.named_kids(n).len() > 0 {
        template(t, t.named_kids(n)[0])
    } else {
        None
    }
}

/// The strings among the first `k` elements of an array literal.
pub open spec fn element_templates(t: TreeView, list: Seq<usize>, k: int) -> Seq<Seq<char>>
    decreases k,
{
    if k <= 0 || k > list.len() {
        Seq::empty()
    } else {
        match element_template(t, list[k - 1]) {
            Some(s) => element_templates(t, list, k - 1).push(s),
            None => element_templates(t, list, k - 1),
        }
    }
}

/// The strings of an array literal, or the single string itself.
pub open spec fn strings_of(t: TreeView, n: usize) -> Seq<Seq<char>> {
    match template(t, n) {
        Some(s) => seq![s],
        None => element_templates(t, t.named_kids(n), t.named_kids(n).len() as int),
    }
}

// ---------------------------------------------------------------------------
// Shapes
// ---------------------------------------------------------------------------

/// What the second argument of `verb(path, ..)` says about a call.
#[derive(Clone, Copy, PartialEq, Eq, Structural)]
pub enum Shape {
    /// Something is bound: a closure, a callable array, the name of an action.
    Handler,
    /// Options for a request.
    Options,
    /// The shape decides nothing.
    Ambiguous,
}

/// Whether an array literal has keys.
pub open spec fn keyed(t: TreeView, n: usize) -> bool {
    exists|i: int| 0 <= i < t.named_kids(n).len() && t.named_kids(#[trigger] t.named_kids(n)[i]).len() > 1
}

/// The shape of an argument.
pub open spec fn shape_of(t: TreeView, n: usize) -> Shape {
    if t.kind(n) == "anonymous_function"@ || t.kind(n) == "arrow_function"@ || t.kind(n)
        == "class_constant_access_expression"@ || t.kind_among(n, NAME_KINDS@) {
        Shape::Handler
    } else if t.kind(n) == "array_creation_expression"@ {
        if keyed(t, n) {
            Shape::Options
        } else {
            Shape::Handler
        }
    } else if t.kind(n) == "string"@ || t.kind(n) == "encapsed_string"@ {
        if has_char(t.text(n), '@') || has(t.text(n), "::"@) {
            Shape::Handler
        } else {
            Shape::Options
        }
    } else {
        Shape::Ambiguous
    }
}

/// The side that a request is on, and how sure that is: a relative path is
/// worth more than a URL, whose host may be anybody's.
pub open spec fn request_side(path: Seq<char>) -> (Seq<char>, u32) {
    (
        "client"@,
        if begins(path, "/"@) {
            90
        } else {
            80
        },
    )
}

/// The side that `verb(path, ..)` is on, and how sure that is. A bound handler
/// makes a route. What decides nothing is a route when called on a class.
pub open spec fn side_of(t: TreeView, args: Seq<ArgView>, is_static: bool, path: Seq<char>) -> (Seq<char>, u32) {
    match positional(args, 1) {
        Some(n) => match shape_of(t, n) {
            Shape::Handler => ("server"@, 100),
            Shape::Ambiguous => if is_static {
                ("server"@, 75)
            } else {
                request_side(path)
            },
            Shape::Options => request_side(path),
        },
        None => request_side(path),
    }
}

// ---------------------------------------------------------------------------
// Ports
// ---------------------------------------------------------------------------

/// An HTTP port.
pub open spec fn http_port(
    t: TreeView,
    role: Seq<char>,
    verb: Seq<char>,
    path: Seq<char>,
    confidence: u32,
    n: usize,
) -> BoundaryView {
    let norm = normalized(path);
    BoundaryView {
        mechanism: "http"@,
        role,
        key: verb + " "@ + norm,
        line: t.span(n).start_line,
        col: t.span(n).start_col,
        confidence,
        detail: no_detail().push(("method"@, verb)).push(("path"@, norm)),
    }
}

/// Routes for the first `k` verbs.
pub open spec fn verb_routes(t: TreeView, verbs: Seq<Seq<char>>, path: Seq<char>, n: usize, k: int) -> Seq<BoundaryView>
    decreases k,
{
    if k <= 0 || k > verbs.len() {
        Seq::empty()
    } else {
        verb_routes(t, verbs, path, n, k - 1).push(http_port(t, "server"@, uppercase(verbs[k - 1]), path, 100, n))
    }
}

/// One port, or none.
pub open spec fn at_most_one(p: Option<BoundaryView>) -> Seq<BoundaryView> {
    match p {
        Some(b) => seq![b],
        None => Seq::empty(),
    }
}

/// A route or a request by verb. What is neither a path nor a URL is no port.
pub open spec fn verb_port(t: TreeView, verb: Seq<char>, args: Seq<ArgView>, is_static: bool, n: usize) -> Option<
    BoundaryView,
> {
    match template_of(t, positional(args, 0)) {
        Some(path) => if path_like(path) {
            let side = side_of(t, args, is_static, path);
            Some(http_port(t, side.0, uppercase(verb), path, side.1, n))
        } else {
            None
        },
        None => None,
    }
}

/// A route that answers every method. It has no counterpart.
pub open spec fn any_port(t: TreeView, args: Seq<ArgView>, is_static: bool, n: usize) -> Option<BoundaryView> {
    match template_of(t, positional(args, 0)) {
        Some(path) => {
            let side = side_of(t, args, is_static, path);
            if side.0 == "server"@ {
                Some(http_port(t, side.0, ANY_METHOD@, path, side.1, n))
            } else {
                None
            }
        },
        None => None,
    }
}

/// A request whose verb is an argument.
pub open spec fn request_port(t: TreeView, args: Seq<ArgView>, n: usize) -> Option<BoundaryView> {
    match (template_of(t, positional(args, 0)), template_of(t, positional(args, 1))) {
        (Some(verb), Some(url)) => if http_verb(lowercase(verb)) {
            Some(http_port(t, "client"@, uppercase(verb), url, 90, n))
        } else {
            None
        },
        _ => None,
    }
}

/// The ports that a call of a method is.
pub open spec fn call_ports(t: TreeView, method: usize, args_node: usize, is_static: bool) -> Seq<BoundaryView> {
    let name = lowercase(t.text(method));
    let args = arguments_of(t, args_node);
    if http_verb(name) {
        at_most_one(verb_port(t, name, args, is_static, method))
    } else if name == "any"@ {
        at_most_one(any_port(t, args, is_static, method))
    } else if name == "match"@ {
        match (positional(args, 0), template_of(t, positional(args, 1))) {
            (Some(verbs), Some(path)) => verb_routes(
                t,
                strings_of(t, verbs),
                path,
                method,
                strings_of(t, verbs).len() as int,
            ),
            _ => Seq::empty(),
        }
    } else if name == "request"@ {
        at_most_one(request_port(t, args, method))
    } else {
        Seq::empty()
    }
}

/// The ports that an attribute is. The declaration it stands on is the handler.
pub open spec fn attribute_ports(t: TreeView, attr: usize, args_node: usize) -> Seq<BoundaryView> {
    let name = lowercase(after_last(t.text(attr), "\\"@));
    let args = arguments_of(t, args_node);
    let path_node = match labelled_from(args, "path"@, 0) {
        Some(n) => Some(n),
        None => positional(args, 0),
    };
    match template_of(t, path_node) {
        Some(path) => if name == "route"@ {
            let named = match labelled_from(args, "methods"@, 0) {
                Some(n) => strings_of(t, n),
                None => Seq::empty(),
            };
            let verbs = if named.len() > 0 {
                named
            } else {
                seq![ANY_METHOD@]
            };
            verb_routes(t, verbs, path, attr, verbs.len() as int)
        } else if http_verb(name) {
            seq![http_port(t, "server"@, uppercase(name), path, 100, attr)]
        } else {
            Seq::empty()
        },
        None => Seq::empty(),
    }
}

/// Whether an argument names the option of the URL.
pub open spec fn url_option(t: TreeView, n: Option<usize>) -> bool {
    match n {
        Some(n) => ends(uppercase(t.text(n)), "CURLOPT_URL"@),
        None => false,
    }
}

/// The request that a call of a function is. A bare path is a file, not a port.
pub open spec fn function_port(t: TreeView, callee: usize, args_node: usize) -> Option<BoundaryView> {
    let name = lowercase(after_last(t.text(callee), "\\"@));
    let args = arguments_of(t, args_node);
    if name == "file_get_contents"@ {
        match template_of(t, positional(args, 0)) {
            Some(url) => if has(url, "://"@) {
                Some(http_port(t, "client"@, "GET"@, url, 80, callee))
            } else {
                None
            },
            None => None,
        }
    } else if name == "curl_setopt"@ && url_option(t, positional(args, 1)) {
        match template_of(t, positional(args, 2)) {
            Some(url) => Some(http_port(t, "client"@, "GET"@, url, 70, callee)),
            None => None,
        }
    } else {
        None
    }
}

/// Whether a method produces for a topic. A bare `send` does not say so: every
/// socket has one.
pub open spec fn produces(method: Seq<char>) -> bool {
    exists|i: int| 0 <= i < PRODUCERS@.len() && (#[trigger] PRODUCERS@[i])@ == method
}

/// Whether a method consumes from a topic.
pub open spec fn consumes(method: Seq<char>) -> bool {
    exists|i: int| 0 <= i < CONSUMERS@.len() && (#[trigger] CONSUMERS@[i])@ == method
}

/// Whether a method hands over a job, whose class is the name of the queue.
pub open spec fn dispatches(method: Seq<char>) -> bool {
    exists|i: int| 0 <= i < DISPATCHERS@.len() && (#[trigger] DISPATCHERS@[i])@ == method
}

/// The methods that produce.
pub const PRODUCERS: [&'static str; 8] = [
    "publish",
    "produce",
    "sendmessage",
    "basic_publish",
    "xadd",
    "enqueue",
    "delay",
    "emit",
];

/// The methods that consume.
pub const CONSUMERS: [&'static str; 4] = ["subscribe", "consume", "basic_consume", "xreadgroup"];

/// The methods that hand over a job.
pub const DISPATCHERS: [&'static str; 5] = ["push", "pushon", "later", "dispatch", "dispatchnow"];

/// The side of a queue that a method is on.
pub open spec fn queue_side(method: Seq<char>) -> Option<Seq<char>> {
    if produces(method) {
        Some("client"@)
    } else if consumes(method) {
        Some("server"@)
    } else {
        None
    }
}

/// A producer or a consumer of a topic.
pub open spec fn topic_port(t: TreeView, role: Seq<char>, topic: Seq<char>, n: usize) -> BoundaryView {
    BoundaryView {
        mechanism: "queue"@,
        role,
        key: topic,
        line: t.span(n).start_line,
        col: t.span(n).start_col,
        confidence: if role == "server"@ {
            75
        } else {
            70
        },
        detail: no_detail().push(("topic"@, topic)),
    }
}

/// A job that is handed over.
pub open spec fn job_port(t: TreeView, job: Seq<char>, n: usize) -> BoundaryView {
    BoundaryView {
        mechanism: "queue"@,
        role: "client"@,
        key: job,
        line: t.span(n).start_line,
        col: t.span(n).start_col,
        confidence: 70,
        detail: no_detail().push(("job"@, job)),
    }
}

/// The class of the first object that the arguments from `i` on create.
pub open spec fn job_from(t: TreeView, args: Seq<ArgView>, i: int) -> Option<Seq<char>>
    decreases args.len() - i,
{
    if i < 0 || i >= args.len() {
        None
    } else if t.kind(args[i].value) == "object_creation_expression"@ {
        match t.kid_among(args[i].value, NAME_KINDS@) {
            Some(class) => Some(after_last(t.text(class), "\\"@)),
            None => None,
        }
    } else {
        job_from(t, args, i + 1)
    }
}

/// The job that arguments hand over, if the method is one that does.
pub open spec fn job_of(t: TreeView, name: Seq<char>, args: Seq<ArgView>, n: usize) -> Option<BoundaryView> {
    if dispatches(name) {
        match job_from(t, args, 0) {
            Some(job) => Some(job_port(t, job, n)),
            None => None,
        }
    } else {
        None
    }
}

/// The side of a queue that a call of a method is.
pub open spec fn queue_call(t: TreeView, method: usize, args_node: usize) -> Option<BoundaryView> {
    let name = lowercase(t.text(method));
    let args = arguments_of(t, args_node);
    match (queue_side(name), template_of(t, positional(args, 0))) {
        (Some(role), Some(topic)) => Some(topic_port(t, role, topic, method)),
        _ => job_of(t, name, args, method),
    }
}

/// The job that a call of a function hands over.
pub open spec fn queue_function(t: TreeView, callee: usize, args_node: usize) -> Option<BoundaryView> {
    job_of(t, lowercase(after_last(t.text(callee), "\\"@)), arguments_of(t, args_node), callee)
}

/// What kind of port an extractor looks for.
#[derive(Clone, Copy, PartialEq, Eq, Structural)]
pub enum Port {
    Attribute,
    StaticCall,
    MemberCall,
    Function,
    QueueCall,
    QueueFunction,
}

/// The ports that one match is.
pub open spec fn ports_at(port: Port, t: TreeView, hit: Seq<Capture>) -> Seq<BoundaryView> {
    match (captured(t, hit, CALLEE), captured(t, hit, ARGS)) {
        (Some(callee), Some(args)) => match port {
            Port::Attribute => attribute_ports(t, callee, args),
            Port::StaticCall => call_ports(t, callee, args, true),
            Port::MemberCall => call_ports(t, callee, args, false),
            Port::Function => at_most_one(function_port(t, callee, args)),
            Port::QueueCall => at_most_one(queue_call(t, callee, args)),
            Port::QueueFunction => at_most_one(queue_function(t, callee, args)),
        },
        _ => Seq::empty(),
    }
}

/// The ports that the first `k` matches are.
pub open spec fn ports_of(port: Port, t: TreeView, hits: Seq<Seq<Capture>>, k: int) -> Seq<BoundaryView>
    decreases k,
{
    if k <= 0 || k > hits.len() {
        Seq::empty()
    } else {
        ports_of(port, t, hits, k - 1) + ports_at(port, t, hits[k - 1])
    }
}

/// Every port of a file: attributes, calls on classes, calls on objects, calls
/// of functions, queues.
pub open spec fn ports_in(
    t: TreeView,
    members: Seq<Seq<Capture>>,
    statics: Seq<Seq<Capture>>,
    functions: Seq<Seq<Capture>>,
    attributes: Seq<Seq<Capture>>,
) -> Seq<BoundaryView> {
    ports_of(Port::Attribute, t, attributes, attributes.len() as int) + ports_of(
        Port::StaticCall,
        t,
        statics,
        statics.len() as int,
    ) + ports_of(Port::MemberCall, t, members, members.len() as int) + ports_of(
        Port::Function,
        t,
        functions,
        functions.len() as int,
    ) + ports_of(Port::QueueCall, t, members, members.len() as int) + ports_of(
        Port::QueueCall,
        t,
        statics,
        statics.len() as int,
    ) + ports_of(Port::QueueFunction, t, functions, functions.len() as int)
}

// ---------------------------------------------------------------------------
// Extraction
// ---------------------------------------------------------------------------

/// The content of a string or of the body of one.
#[verifier::loop_isolation(false)]
fn content(t: &Syntax, n: usize) -> (r: String)
    requires
        t@.wf(),
        n < t@.nodes.len(),
    ensures
        r@ == string_parts(t@, t@.kids(n), t@.kids(n).len() as int),
{
    let kids = t.kids(n);
    let mut out = String::new();
    let mut k: usize = 0;
    assert(out@ =~= Seq::<char>::empty());
    while k < kids.len()
        invariant
            k <= kids@.len(),
            out@ == string_parts(t@, kids@, k as int),
        decreases kids@.len() - k,
    {
        let c = kids[k];
        assert(t@.below(n, kids@[k as int]));
        if t.is(c, "string_content") || t.is(c, "escape_sequence") {
            let text = t.text(c);
            out = concat2(out.as_str(), text.as_str());
        } else if t.is_named(c) {
            out = concat2(out.as_str(), "{}");
        } else {
            assert(out@ + Seq::<char>::empty() =~= out@);
        }
        k += 1;
    }
    out
}

/// A string with a placeholder for each expression in it.
fn string_template(t: &Syntax, n: usize) -> (r: Option<String>)
    requires
        t@.wf(),
        n < t@.nodes.len(),
    ensures
        opt_view(r) == template(t@, n),
    decreases t@.nodes.len() - n,
{
    if t.is(n, "string") || t.is(n, "encapsed_string") || t.is(n, "heredoc_body") || t.is(n, "nowdoc_body") {
        Some(content(t, n))
    } else if t.is(n, "heredoc") || t.is(n, "nowdoc") {
        match t.field(n, "value") {
            Some(body) => string_template(t, body),
            None => {
                let s = String::new();
                assert(s@ =~= Seq::<char>::empty());
                Some(s)
            },
        }
    } else {
        None
    }
}

/// One argument of a call.
struct Arg {
    label: Option<String>,
    value: usize,
}

impl View for Arg {
    type V = ArgView;

    closed spec fn view(&self) -> ArgView {
        ArgView { label: opt_view(self.label), value: self.value }
    }
}

/// Whether the values of arguments are in a tree.
spec fn in_tree(t: TreeView, args: Seq<Arg>) -> bool {
    forall|i: int| 0 <= i < args.len() ==> (#[trigger] args[i]).value < t.nodes.len()
}

/// The argument that a node is.
fn argument(t: &Syntax, n: usize) -> (r: Option<Arg>)
    requires
        t@.wf(),
        n < t@.nodes.len(),
    ensures
        opt_view(r) == argument_at(t@, n),
        r is Some ==> r->0.value < t@.nodes.len(),
{
    if !t.is(n, "argument") {
        return None;
    }
    let list = t.named_kids(n);
    if list.len() == 0 {
        return None;
    }
    let value = list[list.len() - 1];
    assert(t@.below(n, list@[list@.len() - 1]));
    match t.field(n, "name") {
        Some(label) => {
            if label == value {
                None
            } else {
                Some(Arg { label: Some(t.text(label)), value })
            }
        },
        None => Some(Arg { label: None, value }),
    }
}

/// The arguments of a call, in source order.
#[verifier::loop_isolation(false)]
fn arguments(t: &Syntax, n: usize) -> (r: Vec<Arg>)
    requires
        t@.wf(),
        n < t@.nodes.len(),
    ensures
        views(r@) == arguments_of(t@, n),
        in_tree(t@, r@),
{
    let kids = t.kids(n);
    let mut out: Vec<Arg> = Vec::new();
    let mut k: usize = 0;
    assert(views(out@) =~= Seq::<ArgView>::empty());
    while k < kids.len()
        invariant
            k <= kids@.len(),
            views(out@) == arguments_in(t@, kids@, k as int),
            in_tree(t@, out@),
        decreases kids@.len() - k,
    {
        assert(t@.below(n, kids@[k as int]));
        if let Some(a) = argument(t, kids[k]) {
            add_item(&mut out, a);
        }
        k += 1;
    }
    out
}

/// The argument without a label that has `index` such arguments before it.
#[verifier::loop_isolation(false)]
fn unlabelled(t: &Syntax, args: &Vec<Arg>, index: usize) -> (r: Option<usize>)
    requires
        in_tree(t@, args@),
    ensures
        r == positional(views(args@), index as int),
        r is Some ==> r->0 < t@.nodes.len(),
{
    let ghost all = views(args@);
    let mut left: usize = index;
    let mut i: usize = 0;
    while i < args.len()
        invariant
            i <= args@.len(),
            left <= index,
            positional_from(all, index as int, 0) == positional_from(all, left as int, i as int),
        decreases args@.len() - i,
    {
        assert(all[i as int] == args@[i as int]@);
        if args[i].label.is_none() {
            if left == 0 {
                return Some(args[i].value);
            }
            left -= 1;
        }
        i += 1;
    }
    None
}

/// The value of an argument with a label.
#[verifier::loop_isolation(false)]
fn labelled(t: &Syntax, args: &Vec<Arg>, label: &str) -> (r: Option<usize>)
    requires
        in_tree(t@, args@),
    ensures
        r == labelled_from(views(args@), label@, 0),
        r is Some ==> r->0 < t@.nodes.len(),
{
    let ghost all = views(args@);
    let mut i: usize = 0;
    while i < args.len()
        invariant
            i <= args@.len(),
            labelled_from(all, label@, 0) == labelled_from(all, label@, i as int),
        decreases args@.len() - i,
    {
        assert(all[i as int] == args@[i as int]@);
        if let Some(l) = &args[i].label {
            if same(l.as_str(), label) {
                return Some(args[i].value);
            }
        }
        i += 1;
    }
    None
}

/// The string that an argument is, if there is one.
fn string_at(t: &Syntax, n: Option<usize>) -> (r: Option<String>)
    requires
        t@.wf(),
        n is Some ==> n->0 < t@.nodes.len(),
    ensures
        opt_view(r) == template_of(t@, n),
{
    match n {
        Some(n) => string_template(t, n),
        None => None,
    }
}

/// The strings of an array literal, or the single string itself.
#[verifier::loop_isolation(false)]
fn string_list(t: &Syntax, n: usize) -> (r: Vec<String>)
    requires
        t@.wf(),
        n < t@.nodes.len(),
    ensures
        views(r@) == strings_of(t@, n),
{
    let mut out: Vec<String> = Vec::new();
    assert(views(out@) =~= Seq::<Seq<char>>::empty());
    match string_template(t, n) {
        Some(s) => {
            add_item(&mut out, s);
            assert(views(out@) =~= seq![s@]);
        },
        None => {
            let list = t.named_kids(n);
            let mut k: usize = 0;
            while k < list.len()
                invariant
                    k <= list@.len(),
                    views(out@) == element_templates(t@, list@, k as int),
                decreases list@.len() - k,
            {
                assert(t@.below(n, list@[k as int]));
                let inner = t.named_kids(list[k]);
                if inner.len() > 0 {
                    assert(t@.below(list@[k as int], inner@[0]));
                    if let Some(s) = string_template(t, inner[0]) {
                        add_item(&mut out, s);
                    }
                }
                k += 1;
            }
        },
    }
    out
}

/// Tells whether an array literal has keys.
#[verifier::loop_isolation(false)]
fn is_keyed_array(t: &Syntax, n: usize) -> (r: bool)
    requires
        t@.wf(),
        n < t@.nodes.len(),
    ensures
        r == keyed(t@, n),
{
    let list = t.named_kids(n);
    let mut k: usize = 0;
    while k < list.len()
        invariant
            k <= list@.len(),
            forall|i: int| 0 <= i < k ==> t@.named_kids(#[trigger] t@.named_kids(n)[i]).len() <= 1,
        decreases list@.len() - k,
    {
        assert(t@.below(n, list@[k as int]));
        let inner = t.named_kids(list[k]);
        assert(t@.named_kids(n)[k as int] == list@[k as int]);
        if inner.len() > 1 {
            return true;
        }
        k += 1;
    }
    false
}

/// The shape of an argument.
fn shape(t: &Syntax, n: usize) -> (r: Shape)
    requires
        t@.wf(),
        n < t@.nodes.len(),
    ensures
        r == shape_of(t@, n),
{
    if t.is(n, "anonymous_function") || t.is(n, "arrow_function") || t.is(n, "class_constant_access_expression")
        || t.is_among(n, &NAME_KINDS) {
        Shape::Handler
    } else if t.is(n, "array_creation_expression") {
        if is_keyed_array(t, n) {
            Shape::Options
        } else {
            Shape::Handler
        }
    } else if t.is(n, "string") || t.is(n, "encapsed_string") {
        let text = t.text(n);
        if contains_char(text.as_str(), '@') || contains(text.as_str(), "::") {
            Shape::Handler
        } else {
            Shape::Options
        }
    } else {
        Shape::Ambiguous
    }
}

/// The side that `verb(path, ..)` is on, and how sure that is.
fn route_role(t: &Syntax, args: &Vec<Arg>, is_static: bool, path: &str) -> (r: (&'static str, u32))
    requires
        t@.wf(),
        in_tree(t@, args@),
    ensures
        (r.0@, r.1) == side_of(t@, views(args@), is_static, path@),
{
    if let Some(n) = unlabelled(t, args, 1) {
        match shape(t, n) {
            Shape::Handler => {
                return ("server", 100);
            },
            Shape::Ambiguous => {
                if is_static {
                    return ("server", 75);
                }
            },
            Shape::Options => {},
        }
    }
    if starts_with(path, "/") {
        ("client", 90)
    } else {
        ("client", 80)
    }
}

/// An HTTP port.
fn http_ref(t: &Syntax, role: &str, verb: &str, path: &str, confidence: u32, n: usize) -> (r: BoundaryRef)
    requires
        n < t@.nodes.len(),
    ensures
        r@ == http_port(t@, role@, verb@, path@, confidence, n),
{
    let norm = normalize_http_path(path);
    let span = t.span(n);
    BoundaryRef {
        mechanism: copy("http"),
        role: copy(role),
        key: concat3(verb, " ", norm.as_str()),
        line: span.start_line,
        col: span.start_col,
        confidence,
        detail: Detail::new().with("method", verb).with("path", norm.as_str()),
    }
}

/// Appends a port, if there is one.
fn add_one(out: &mut Vec<BoundaryRef>, p: Option<BoundaryRef>)
    ensures
        views(final(out)@) == views(old(out)@) + at_most_one(opt_view(p)),
{
    let ghost start = views(out@);
    match p {
        Some(b) => {
            let ghost v = b@;
            add_item(out, b);
            assert(views(out@) =~= start + seq![v]);
        },
        None => {
            assert(start + Seq::<BoundaryView>::empty() =~= start);
        },
    }
}

/// Appends routes for verbs.
#[verifier::loop_isolation(false)]
fn add_routes(out: &mut Vec<BoundaryRef>, t: &Syntax, verbs: &Vec<String>, path: &str, n: usize)
    requires
        n < t@.nodes.len(),
    ensures
        views(final(out)@) == views(old(out)@) + verb_routes(t@, views(verbs@), path@, n, verbs@.len() as int),
{
    let ghost start = views(out@);
    let ghost all = views(verbs@);
    let mut k: usize = 0;
    assert(start + Seq::<BoundaryView>::empty() =~= start);
    while k < verbs.len()
        invariant
            k <= verbs@.len(),
            views(out@) == start + verb_routes(t@, all, path@, n, k as int),
        decreases verbs@.len() - k,
    {
        assert(all[k as int] == verbs@[k as int]@);
        let upper = to_upper(verbs[k].as_str());
        add_item(out, http_ref(t, "server", upper.as_str(), path, 100, n));
        assert(views(out@) =~= start + verb_routes(t@, all, path@, n, k + 1));
        k += 1;
    }
}

/// A route or a request by verb.
fn by_verb(t: &Syntax, verb: &str, args: &Vec<Arg>, is_static: bool, n: usize) -> (r: Option<BoundaryRef>)
    requires
        t@.wf(),
        n < t@.nodes.len(),
        in_tree(t@, args@),
    ensures
        opt_view(r) == verb_port(t@, verb@, views(args@), is_static, n),
{
    match string_at(t, unlabelled(t, args, 0)) {
        Some(path) => {
            if !is_path(path.as_str()) {
                return None;
            }
            let side = route_role(t, args, is_static, path.as_str());
            let upper = to_upper(verb);
            Some(http_ref(t, side.0, upper.as_str(), path.as_str(), side.1, n))
        },
        None => None,
    }
}

/// A route that answers every method.
fn by_any(t: &Syntax, args: &Vec<Arg>, is_static: bool, n: usize) -> (r: Option<BoundaryRef>)
    requires
        t@.wf(),
        n < t@.nodes.len(),
        in_tree(t@, args@),
    ensures
        opt_view(r) == any_port(t@, views(args@), is_static, n),
{
    match string_at(t, unlabelled(t, args, 0)) {
        Some(path) => {
            let side = route_role(t, args, is_static, path.as_str());
            if same(side.0, "server") {
                Some(http_ref(t, side.0, ANY_METHOD, path.as_str(), side.1, n))
            } else {
                None
            }
        },
        None => None,
    }
}

/// A request whose verb is an argument.
fn by_request(t: &Syntax, args: &Vec<Arg>, n: usize) -> (r: Option<BoundaryRef>)
    requires
        t@.wf(),
        n < t@.nodes.len(),
        in_tree(t@, args@),
    ensures
        opt_view(r) == request_port(t@, views(args@), n),
{
    match (string_at(t, unlabelled(t, args, 0)), string_at(t, unlabelled(t, args, 1))) {
        (Some(verb), Some(url)) => {
            let lower = to_lower(verb.as_str());
            if is_http_verb(lower.as_str()) {
                let upper = to_upper(verb.as_str());
                Some(http_ref(t, "client", upper.as_str(), url.as_str(), 90, n))
            } else {
                None
            }
        },
        _ => None,
    }
}

/// Appends the ports that a call of a method is.
fn add_call(out: &mut Vec<BoundaryRef>, t: &Syntax, method: usize, args_node: usize, is_static: bool)
    requires
        t@.wf(),
        method < t@.nodes.len(),
        args_node < t@.nodes.len(),
    ensures
        views(final(out)@) == views(old(out)@) + call_ports(t@, method, args_node, is_static),
{
    let text = t.text(method);
    let name = to_lower(text.as_str());
    let args = arguments(t, args_node);
    if is_http_verb(name.as_str()) {
        add_one(out, by_verb(t, name.as_str(), &args, is_static, method));
    } else if same(name.as_str(), "any") {
        add_one(out, by_any(t, &args, is_static, method));
    } else if same(name.as_str(), "match") {
        match (unlabelled(t, &args, 0), string_at(t, unlabelled(t, &args, 1))) {
            (Some(verbs), Some(path)) => {
                let list = string_list(t, verbs);
                assert(views(list@).len() == list@.len());
                add_routes(out, t, &list, path.as_str(), method);
            },
            _ => {
                assert(views(out@) + Seq::<BoundaryView>::empty() =~= views(out@));
            },
        }
    } else if same(name.as_str(), "request") {
        add_one(out, by_request(t, &args, method));
    } else {
        assert(views(out@) + Seq::<BoundaryView>::empty() =~= views(out@));
    }
}

/// The last segment of a name, in lower case.
fn short_name(t: &Syntax, n: usize) -> (r: String)
    requires
        t@.wf(),
        n < t@.nodes.len(),
    ensures
        r@ == lowercase(after_last(t@.text(n), "\\"@)),
{
    let text = t.text(n);
    let last = tail_after(text.as_str(), "\\");
    to_lower(last.as_str())
}

/// Appends the ports that an attribute is.
fn add_attribute(out: &mut Vec<BoundaryRef>, t: &Syntax, attr: usize, args_node: usize)
    requires
        t@.wf(),
        attr < t@.nodes.len(),
        args_node < t@.nodes.len(),
    ensures
        views(final(out)@) == views(old(out)@) + attribute_ports(t@, attr, args_node),
{
    let name = short_name(t, attr);
    let args = arguments(t, args_node);
    let path_node = match labelled(t, &args, "path") {
        Some(n) => Some(n),
        None => unlabelled(t, &args, 0),
    };
    let ghost start = views(out@);
    match string_at(t, path_node) {
        Some(path) => {
            if same(name.as_str(), "route") {
                let mut verbs: Vec<String> = Vec::new();
                assert(views(verbs@) =~= Seq::<Seq<char>>::empty());
                if let Some(n) = labelled(t, &args, "methods") {
                    verbs = string_list(t, n);
                }
                assert(views(verbs@).len() == verbs@.len());
                if verbs.len() == 0 {
                    add_item(&mut verbs, copy(ANY_METHOD));
                    assert(views(verbs@) =~= seq![ANY_METHOD@]);
                }
                add_routes(out, t, &verbs, path.as_str(), attr);
            } else if is_http_verb(name.as_str()) {
                let upper = to_upper(name.as_str());
                let p = http_ref(t, "server", upper.as_str(), path.as_str(), 100, attr);
                let ghost v = p@;
                add_item(out, p);
                assert(views(out@) =~= start + seq![v]);
            } else {
                assert(start + Seq::<BoundaryView>::empty() =~= start);
            }
        },
        None => {
            assert(start + Seq::<BoundaryView>::empty() =~= start);
        },
    }
}

/// The request that a call of a function is.
fn by_function(t: &Syntax, callee: usize, args_node: usize) -> (r: Option<BoundaryRef>)
    requires
        t@.wf(),
        callee < t@.nodes.len(),
        args_node < t@.nodes.len(),
    ensures
        opt_view(r) == function_port(t@, callee, args_node),
{
    let name = short_name(t, callee);
    let args = arguments(t, args_node);
    if same(name.as_str(), "file_get_contents") {
        match string_at(t, unlabelled(t, &args, 0)) {
            Some(url) => {
                if contains(url.as_str(), "://") {
                    Some(http_ref(t, "client", "GET", url.as_str(), 80, callee))
                } else {
                    None
                }
            },
            None => None,
        }
    } else if same(name.as_str(), "curl_setopt") {
        match unlabelled(t, &args, 1) {
            Some(option) => {
                let text = t.text(option);
                let upper = to_upper(text.as_str());
                if !ends_with(upper.as_str(), "CURLOPT_URL") {
                    return None;
                }
                match string_at(t, unlabelled(t, &args, 2)) {
                    Some(url) => Some(http_ref(t, "client", "GET", url.as_str(), 70, callee)),
                    None => None,
                }
            },
            None => None,
        }
    } else {
        None
    }
}

/// The side of a queue that a method is on.
fn queue_role(method: &str) -> (r: Option<&'static str>)
    ensures
        match r {
            Some(role) => queue_side(method@) == Some(role@),
            None => queue_side(method@) is None,
        },
{
    if one_of(method, &PRODUCERS) {
        Some("client")
    } else if one_of(method, &CONSUMERS) {
        Some("server")
    } else {
        None
    }
}

/// A producer or a consumer of a topic.
fn topic_ref(t: &Syntax, role: &str, topic: &str, n: usize) -> (r: BoundaryRef)
    requires
        n < t@.nodes.len(),
    ensures
        r@ == topic_port(t@, role@, topic@, n),
{
    let span = t.span(n);
    BoundaryRef {
        mechanism: copy("queue"),
        role: copy(role),
        key: copy(topic),
        line: span.start_line,
        col: span.start_col,
        confidence: if same(role, "server") {
            75
        } else {
            70
        },
        detail: Detail::new().with("topic", topic),
    }
}

/// A job that is handed over.
fn job_ref(t: &Syntax, job: &str, n: usize) -> (r: BoundaryRef)
    requires
        n < t@.nodes.len(),
    ensures
        r@ == job_port(t@, job@, n),
{
    let span = t.span(n);
    BoundaryRef {
        mechanism: copy("queue"),
        role: copy("client"),
        key: copy(job),
        line: span.start_line,
        col: span.start_col,
        confidence: 70,
        detail: Detail::new().with("job", job),
    }
}

/// The class of the first object that arguments create.
#[verifier::loop_isolation(false)]
fn dispatched_job(t: &Syntax, args: &Vec<Arg>) -> (r: Option<String>)
    requires
        t@.wf(),
        in_tree(t@, args@),
    ensures
        opt_view(r) == job_from(t@, views(args@), 0),
{
    let ghost all = views(args@);
    let mut i: usize = 0;
    while i < args.len()
        invariant
            i <= args@.len(),
            job_from(t@, all, 0) == job_from(t@, all, i as int),
        decreases args@.len() - i,
    {
        assert(all[i as int] == args@[i as int]@);
        if t.is(args[i].value, "object_creation_expression") {
            return match t.kid_among(args[i].value, &NAME_KINDS) {
                Some(class) => {
                    let text = t.text(class);
                    Some(tail_after(text.as_str(), "\\"))
                },
                None => None,
            };
        }
        i += 1;
    }
    None
}

/// The job that arguments hand over, if the method is one that does.
fn by_job(t: &Syntax, name: &str, args: &Vec<Arg>, n: usize) -> (r: Option<BoundaryRef>)
    requires
        t@.wf(),
        n < t@.nodes.len(),
        in_tree(t@, args@),
    ensures
        opt_view(r) == job_of(t@, name@, views(args@), n),
{
    if one_of(name, &DISPATCHERS) {
        match dispatched_job(t, args) {
            Some(job) => Some(job_ref(t, job.as_str(), n)),
            None => None,
        }
    } else {
        None
    }
}

/// The side of a queue that a call of a method is.
fn by_queue(t: &Syntax, method: usize, args_node: usize) -> (r: Option<BoundaryRef>)
    requires
        t@.wf(),
        method < t@.nodes.len(),
        args_node < t@.nodes.len(),
    ensures
        opt_view(r) == queue_call(t@, method, args_node),
{
    let text = t.text(method);
    let name = to_lower(text.as_str());
    let args = arguments(t, args_node);
    match (queue_role(name.as_str()), string_at(t, unlabelled(t, &args, 0))) {
        (Some(role), Some(topic)) => Some(topic_ref(t, role, topic.as_str(), method)),
        _ => by_job(t, name.as_str(), &args, method),
    }
}

/// Appends the ports that one match is.
fn add_match(out: &mut Vec<BoundaryRef>, port: Port, t: &Syntax, hit: &Vec<Capture>)
    requires
        t@.wf(),
    ensures
        views(final(out)@) == views(old(out)@) + ports_at(port, t@, hit@),
{
    match (t.captured(hit, CALLEE), t.captured(hit, ARGS)) {
        (Some(callee), Some(args)) => match port {
            Port::Attribute => add_attribute(out, t, callee, args),
            Port::StaticCall => add_call(out, t, callee, args, true),
            Port::MemberCall => add_call(out, t, callee, args, false),
            Port::Function => add_one(out, by_function(t, callee, args)),
            Port::QueueCall => add_one(out, by_queue(t, callee, args)),
            Port::QueueFunction => {
                let name = short_name(t, callee);
                let list = arguments(t, args);
                add_one(out, by_job(t, name.as_str(), &list, callee))
            },
        },
        _ => {
            assert(views(out@) + Seq::<BoundaryView>::empty() =~= views(out@));
        },
    }
}

/// Appends the ports that matches are.
#[verifier::loop_isolation(false)]
fn add_ports(out: &mut Vec<BoundaryRef>, port: Port, t: &Syntax, hits: &Vec<Vec<Capture>>)
    requires
        t@.wf(),
    ensures
        views(final(out)@) == views(old(out)@) + ports_of(port, t@, capture_lists(hits@), hits@.len() as int),
{
    let ghost start = views(out@);
    let ghost all = capture_lists(hits@);
    let mut k: usize = 0;
    assert(start + Seq::<BoundaryView>::empty() =~= start);
    while k < hits.len()
        invariant
            k <= hits@.len(),
            views(out@) == start + ports_of(port, t@, all, k as int),
        decreases hits@.len() - k,
    {
        assert(all[k as int] == hits@[k as int]@);
        add_match(out, port, t, &hits[k]);
        assert(views(out@) =~= start + ports_of(port, t@, all, k + 1));
        k += 1;
    }
}

/// Every port of a file, given the matches of the four queries.
pub fn extract_boundaries(
    t: &Syntax,
    members: &Vec<Vec<Capture>>,
    statics: &Vec<Vec<Capture>>,
    functions: &Vec<Vec<Capture>>,
    attributes: &Vec<Vec<Capture>>,
) -> (r: Vec<BoundaryRef>)
    requires
        t@.wf(),
    ensures
        views(r@) == ports_in(
            t@,
            capture_lists(members@),
            capture_lists(statics@),
            capture_lists(functions@),
            capture_lists(attributes@),
        ),
{
    let mut out: Vec<BoundaryRef> = Vec::new();
    assert(views(out@) =~= Seq::<BoundaryView>::empty());
    add_ports(&mut out, Port::Attribute, t, attributes);
    add_ports(&mut out, Port::StaticCall, t, statics);
    add_ports(&mut out, Port::MemberCall, t, members);
    add_ports(&mut out, Port::Function, t, functions);
    add_ports(&mut out, Port::QueueCall, t, members);
    add_ports(&mut out, Port::QueueCall, t, statics);
    add_ports(&mut out, Port::QueueFunction, t, functions);
    assert(views(out@) =~= ports_in(
        t@,
        capture_lists(members@),
        capture_lists(statics@),
        capture_lists(functions@),
        capture_lists(attributes@),
    ));
    out
}

/// The ports of a parsed file.
pub open spec fn parsed_ports(p: Parsed) -> Seq<BoundaryView> {
    ports_in(
        p.tree(),
        p.hits(Q_MEMBER_CALL@),
        p.hits(Q_SCOPED_CALL@),
        p.hits(Q_FUNCTION_CALL@),
        p.hits(Q_ATTRIBUTE@),
    )
}

/// The ports of a source with a tree.
pub open spec fn source_ports(t: TreeView, source: Seq<u8>) -> Seq<BoundaryView> {
    ports_in(
        t,
        parsed_hits(Grammar::Php, source, Q_MEMBER_CALL@),
        parsed_hits(Grammar::Php, source, Q_SCOPED_CALL@),
        parsed_hits(Grammar::Php, source, Q_FUNCTION_CALL@),
        parsed_hits(Grammar::Php, source, Q_ATTRIBUTE@),
    )
}

/// Every port of a parsed file.
pub fn parsed_boundaries(p: &Parsed) -> (r: Vec<BoundaryRef>)
    requires
        p.tree().wf(),
    ensures
        views(r@) == parsed_ports(*p),
{
    let members = p.query(Q_MEMBER_CALL);
    let statics = p.query(Q_SCOPED_CALL);
    let functions = p.query(Q_FUNCTION_CALL);
    let attributes = p.query(Q_ATTRIBUTE);
    extract_boundaries(p.syntax(), &members, &statics, &functions, &attributes)
}

/// Every port of a PHP source; `None` where the parser gives no tree.
pub fn extract_php_boundaries(source: &[u8]) -> (r: Option<Vec<BoundaryRef>>)
    ensures
        match (r, parsed_tree(Grammar::Php, source@)) {
            (Some(v), Some(t)) => views(v@) == source_ports(t, source@),
            (None, None) => true,
            _ => false,
        },
{
    match parse(Grammar::Php, source) {
        Some(p) => Some(parsed_boundaries(&p)),
        None => None,
    }
}

}
