//! Graph nodes: a flat record with a `kind` instead of a hierarchy of types.

use vstd::prelude::*;

use crate::meta::{entries_equal_themselves, keys_distinct, same_entries, same_entries_either_way, MetaView, Metadata};
use crate::span::Span;
use crate::text::{concat2, concat4, copy, copy_opt, debug, debug_text, opt_view, same, same_opt, to_upper, uppercase};

verus! {

/// What a node stands for.
#[derive(Clone, Copy, Debug, PartialEq, Eq, Structural, Hash)]
pub enum NodeKind {
    Project,
    Module,
    File,
    Class,
    Function,
    Method,
    Parameter,
    Import,
    Dependency,
    ExternalSymbol,
    Variable,
    Attribute,
    TypeAlias,
    Boundary,
}

impl NodeKind {
    /// The text of the kind.
    pub open spec fn name(self) -> Seq<char> {
        match self {
            NodeKind::Project => "project"@,
            NodeKind::Module => "module"@,
            NodeKind::File => "file"@,
            NodeKind::Class => "class"@,
            NodeKind::Function => "function"@,
            NodeKind::Method => "method"@,
            NodeKind::Parameter => "parameter"@,
            NodeKind::Import => "import"@,
            NodeKind::Dependency => "dependency"@,
            NodeKind::ExternalSymbol => "external_symbol"@,
            NodeKind::Variable => "variable"@,
            NodeKind::Attribute => "attribute"@,
            NodeKind::TypeAlias => "type_alias"@,
            NodeKind::Boundary => "boundary"@,
        }
    }

    /// The text of the kind.
    pub fn as_str(self) -> (r: &'static str)
        ensures
            r@ == self.name(),
    {
        match self {
            NodeKind::Project => "project",
            NodeKind::Module => "module",
            NodeKind::File => "file",
            NodeKind::Class => "class",
            NodeKind::Function => "function",
            NodeKind::Method => "method",
            NodeKind::Parameter => "parameter",
            NodeKind::Import => "import",
            NodeKind::Dependency => "dependency",
            NodeKind::ExternalSymbol => "external_symbol",
            NodeKind::Variable => "variable",
            NodeKind::Attribute => "attribute",
            NodeKind::TypeAlias => "type_alias",
            NodeKind::Boundary => "boundary",
        }
    }

    /// The kind a text names.
    pub open spec fn named(s: Seq<char>) -> Option<NodeKind> {
        if s == "project"@ {
            Some(NodeKind::Project)
        } else if s == "module"@ {
            Some(NodeKind::Module)
        } else if s == "file"@ {
            Some(NodeKind::File)
        } else if s == "class"@ {
            Some(NodeKind::Class)
        } else if s == "function"@ {
            Some(NodeKind::Function)
        } else if s == "method"@ {
            Some(NodeKind::Method)
        } else if s == "parameter"@ {
            Some(NodeKind::Parameter)
        } else if s == "import"@ {
            Some(NodeKind::Import)
        } else if s == "dependency"@ {
            Some(NodeKind::Dependency)
        } else if s == "external_symbol"@ {
            Some(NodeKind::ExternalSymbol)
        } else if s == "variable"@ {
            Some(NodeKind::Variable)
        } else if s == "attribute"@ {
            Some(NodeKind::Attribute)
        } else if s == "type_alias"@ {
            Some(NodeKind::TypeAlias)
        } else if s == "boundary"@ {
            Some(NodeKind::Boundary)
        } else {
            None
        }
    }

    /// Reads a kind from its text.
    pub fn parse(value: &str) -> (r: Option<NodeKind>)
        ensures
            r == NodeKind::named(value@),
    {
        if same(value, "project") {
            Some(NodeKind::Project)
        } else if same(value, "module") {
            Some(NodeKind::Module)
        } else if same(value, "file") {
            Some(NodeKind::File)
        } else if same(value, "class") {
            Some(NodeKind::Class)
        } else if same(value, "function") {
            Some(NodeKind::Function)
        } else if same(value, "method") {
            Some(NodeKind::Method)
        } else if same(value, "parameter") {
            Some(NodeKind::Parameter)
        } else if same(value, "import") {
            Some(NodeKind::Import)
        } else if same(value, "dependency") {
            Some(NodeKind::Dependency)
        } else if same(value, "external_symbol") {
            Some(NodeKind::ExternalSymbol)
        } else if same(value, "variable") {
            Some(NodeKind::Variable)
        } else if same(value, "attribute") {
            Some(NodeKind::Attribute)
        } else if same(value, "type_alias") {
            Some(NodeKind::TypeAlias)
        } else if same(value, "boundary") {
            Some(NodeKind::Boundary)
        } else {
            None
        }
    }

}

/// Every kind is read back from its own text.
pub proof fn node_kind_round_trip(kind: NodeKind)
    ensures
        NodeKind::named(kind.name()) == Some(kind),
{
    reveal_strlit("project");
    assert("project"@.len() == 7 && "project"@[0] == 'p' && "project"@[1] == 'r' && "project"@[3] == 'j');
    reveal_strlit("module");
    assert("module"@.len() == 6 && "module"@[0] == 'm' && "module"@[1] == 'o' && "module"@[3] == 'u');
    reveal_strlit("file");
    assert("file"@.len() == 4 && "file"@[0] == 'f' && "file"@[1] == 'i' && "file"@[3] == 'e');
    reveal_strlit("class");
    assert("class"@.len() == 5 && "class"@[0] == 'c' && "class"@[1] == 'l' && "class"@[3] == 's');
    reveal_strlit("function");
    assert("function"@.len() == 8 && "function"@[0] == 'f' && "function"@[1] == 'u' && "function"@[3] == 'c');
    reveal_strlit("method");
    assert("method"@.len() == 6 && "method"@[0] == 'm' && "method"@[1] == 'e' && "method"@[3] == 'h');
    reveal_strlit("parameter");
    assert("parameter"@.len() == 9 && "parameter"@[0] == 'p' && "parameter"@[1] == 'a' && "parameter"@[3] == 'a');
    reveal_strlit("import");
    assert("import"@.len() == 6 && "import"@[0] == 'i' && "import"@[1] == 'm' && "import"@[3] == 'o');
    reveal_strlit("dependency");
    assert("dependency"@.len() == 10 && "dependency"@[0] == 'd' && "dependency"@[1] == 'e' && "dependency"@[3] == 'e');
    reveal_strlit("external_symbol");
    assert("external_symbol"@.len() == 15 && "external_symbol"@[0] == 'e' && "external_symbol"@[1] == 'x' && "external_symbol"@[3] == 'e');
    reveal_strlit("variable");
    assert("variable"@.len() == 8 && "variable"@[0] == 'v' && "variable"@[1] == 'a' && "variable"@[3] == 'i');
    reveal_strlit("attribute");
    assert("attribute"@.len() == 9 && "attribute"@[0] == 'a' && "attribute"@[1] == 't' && "attribute"@[3] == 'r');
    reveal_strlit("type_alias");
    assert("type_alias"@.len() == 10 && "type_alias"@[0] == 't' && "type_alias"@[1] == 'y' && "type_alias"@[3] == 'e');
    reveal_strlit("boundary");
    assert("boundary"@.len() == 8 && "boundary"@[0] == 'b' && "boundary"@[1] == 'o' && "boundary"@[3] == 'n');
}

/// Different kinds have different texts.
pub proof fn node_kind_names_differ(a: NodeKind, b: NodeKind)
    requires
        a != b,
    ensures
        a.name() != b.name(),
{
    node_kind_round_trip(a);
    node_kind_round_trip(b);
}

/// A text that names a kind is that kind's text.
pub proof fn node_kind_named_is_exact(s: Seq<char>)
    ensures
        match NodeKind::named(s) {
            Some(kind) => kind.name() == s,
            None => forall|kind: NodeKind| (#[trigger] kind.name()) != s,
        },
{
    if NodeKind::named(s) is None {
        assert forall|kind: NodeKind| (#[trigger] kind.name()) != s by {
            node_kind_round_trip(kind);
        }
    }
}
impl NodeKind {
    /// The text of the kind, under the name that the wire format uses.
    pub fn value(self) -> (r: &'static str)
        ensures
            r@ == self.name(),
    {
        self.as_str()
    }

    /// Reads a kind from its text; an unknown text gives the message to report.
    pub fn from_value(value: &str) -> (r: Result<NodeKind, String>)
        ensures
            match r {
                Ok(kind) => NodeKind::named(value@) == Some(kind),
                Err(message) => NodeKind::named(value@) is None && message@ == "unknown NodeKind: "@ + debug_text(
                    value@,
                ),
            },
    {
        match NodeKind::parse(value) {
            Some(kind) => Ok(kind),
            None => Err(concat2("unknown NodeKind: ", debug(value).as_str())),
        }
    }

    /// The name of the enumeration member: the type's name and the kind's text
    /// in capitals.
    pub fn member_name(self) -> (r: String)
        ensures
            r@ == "NodeKind."@ + uppercase(self.name()),
    {
        let upper = to_upper(self.as_str());
        concat2("NodeKind.", upper.as_str())
    }
}

/// A node of the graph.
#[derive(Debug)]
pub struct Node {
    pub id: String,
    pub kind: NodeKind,
    pub qualified_name: String,
    pub name: String,
    pub file_path: Option<String>,
    pub span: Option<Span>,
    pub metadata: Metadata,
}

/// The mathematical reading of a node.
pub struct NodeView {
    pub id: Seq<char>,
    pub kind: NodeKind,
    pub qualified_name: Seq<char>,
    pub name: Seq<char>,
    pub file_path: Option<Seq<char>>,
    pub span: Option<Span>,
    pub metadata: MetaView,
}

impl View for Node {
    type V = NodeView;

    open spec fn view(&self) -> NodeView {
        NodeView {
            id: self.id@,
            kind: self.kind,
            qualified_name: self.qualified_name@,
            name: self.name@,
            file_path: opt_view(self.file_path),
            span: self.span,
            metadata: self.metadata@,
        }
    }
}

/// Whether two nodes are equal: every field agrees, and the metadata holds the
/// same values whatever their order.
pub open spec fn nodes_equal(a: NodeView, b: NodeView) -> bool {
    &&& a.id == b.id
    &&& a.kind == b.kind
    &&& a.qualified_name == b.qualified_name
    &&& a.name == b.name
    &&& a.file_path == b.file_path
    &&& a.span == b.span
    &&& same_entries(a.metadata, b.metadata)
}

impl Node {
    /// A copy of the node.
    pub fn copy(&self) -> (r: Node)
        ensures
            r@ == self@,
    {
        Node {
            id: copy(self.id.as_str()),
            kind: self.kind,
            qualified_name: copy(self.qualified_name.as_str()),
            name: copy(self.name.as_str()),
            file_path: copy_opt(&self.file_path),
            span: self.span,
            metadata: self.metadata.copy(),
        }
    }

    /// The node in words.
    pub fn repr(&self) -> (r: String)
        ensures
            r@ == "Node(id="@ + debug_text(self.id@) + ", kind="@ + self.kind.name() + ", qualified_name="@
                + debug_text(self.qualified_name@) + ")"@,
    {
        let known = concat4("Node(id=", debug(self.id.as_str()).as_str(), ", kind=", self.kind.as_str());
        concat4(known.as_str(), ", qualified_name=", debug(self.qualified_name.as_str()).as_str(), ")")
    }

    /// Tells whether two nodes are equal.
    pub fn equals(&self, other: &Node) -> (r: bool)
        ensures
            r == nodes_equal(self@, other@),
    {
        same(self.id.as_str(), other.id.as_str()) && self.kind == other.kind && same(
            self.qualified_name.as_str(),
            other.qualified_name.as_str(),
        ) && same(self.name.as_str(), other.name.as_str()) && same_opt(&self.file_path, &other.file_path)
            && same_span(&self.span, &other.span) && self.metadata.same(&other.metadata)
    }
}

/// Tells whether two optional ranges agree.
pub fn same_span(a: &Option<Span>, b: &Option<Span>) -> (r: bool)
    ensures
        r == (*a == *b),
{
    match (a, b) {
        (Some(x), Some(y)) => *x == *y,
        (None, None) => true,
        _ => false,
    }
}

/// A node whose metadata keys are distinct equals itself.
pub proof fn node_equals_itself(a: NodeView)
    requires
        keys_distinct(a.metadata),
    ensures
        nodes_equal(a, a),
{
    entries_equal_themselves(a.metadata);
}

/// Nodes are equal either way round.
pub proof fn nodes_equal_either_way(a: NodeView, b: NodeView)
    requires
        keys_distinct(a.metadata),
        keys_distinct(b.metadata),
    ensures
        nodes_equal(a, b) == nodes_equal(b, a),
{
    if same_entries(a.metadata, b.metadata) {
        same_entries_either_way(a.metadata, b.metadata);
    }
    if same_entries(b.metadata, a.metadata) {
        same_entries_either_way(b.metadata, a.metadata);
    }
}

/// Equal nodes have the same id, so grouping nodes by id never separates equal
/// ones.
pub proof fn equal_nodes_share_their_id(a: NodeView, b: NodeView)
    requires
        nodes_equal(a, b),
    ensures
        a.id == b.id,
{
}

}
