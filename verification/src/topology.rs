//! The topology: hosts, the tree of nodes, and what each node runs with.

use vstd::prelude::*;
use crate::json::Json;
use crate::json::JsonView;
use crate::path::opt_text;
use crate::resolve::resolve;
use crate::resolve::run_conf;
use crate::sorted_map::SortedMap;
use crate::tree::build;
use crate::tree::run_root;
use crate::validate::check;
use crate::validate::check_locations;
use crate::value::TableView;
use crate::value::Table;
use crate::value::table_view;

verus! {

/// A machine: where it is reached.
#[derive(Debug, Clone, PartialEq)]
pub struct Host {
    pub host: String,
    pub port: u16,
}

/// What a `Host` holds.
pub struct HostView {
    pub host: Seq<char>,
    pub port: u16,
}

impl View for Host {
    type V = HostView;

    open spec fn view(&self) -> HostView {
        HostView { host: self.host@, port: self.port }
    }
}

/// How far a location may be seen.
#[derive(Debug, Clone, Copy, PartialEq, Eq)]
pub enum Publicity {
    Local,
    Internal,
    External,
}

/// Where a node listens: the alias of a host, and a port on it.
#[derive(Debug, PartialEq)]
pub struct Location {
    pub host: String,
    pub port: u16,
    pub publicity: Option<Publicity>,
}

/// What a `Location` holds.
pub struct LocationView {
    pub host: Seq<char>,
    pub port: u16,
    pub publicity: Option<Publicity>,
}

impl View for Location {
    type V = LocationView;

    open spec fn view(&self) -> LocationView {
        LocationView { host: self.host@, port: self.port, publicity: self.publicity }
    }
}

/// What a node runs with.
#[derive(Debug, PartialEq)]
pub enum RunConf {
    /// Nothing: the root has no configuration.
    Absent,
    /// Parameters and a location.
    Active { params: Json, location: Location },
    /// A location alone.
    Passive { location: Location },
}

/// What a `RunConf` holds.
pub enum RunConfView {
    Absent,
    Active { params: JsonView, location: LocationView },
    Passive { location: LocationView },
}

impl View for RunConf {
    type V = RunConfView;

    open spec fn view(&self) -> RunConfView {
        match self {
            RunConf::Absent => RunConfView::Absent,
            RunConf::Active { params, location } => RunConfView::Active {
                params: params@,
                location: location@,
            },
            RunConf::Passive { location } => RunConfView::Passive { location: location@ },
        }
    }
}

/// The location that a configuration declares, if it declares one.
pub open spec fn location_of(c: RunConfView) -> Option<LocationView> {
    match c {
        RunConfView::Absent => None,
        RunConfView::Active { params, location } => Some(location),
        RunConfView::Passive { location } => Some(location),
    }
}

/// A node of the tree. The root has no name; the name of any other node is
/// its dotted path, and its parent the path above it.
#[derive(Debug, PartialEq)]
pub struct TopologyNode {
    pub name: Option<String>,
    pub parent: Option<String>,
    pub config: RunConf,
    pub node_type: TopologyNodeType,
}

/// A leaf, or a node with its children in order.
#[derive(Debug, PartialEq)]
pub enum TopologyNodeType {
    Terminal,
    Node(Vec<TopologyNode>),
}

/// What a `TopologyNode` holds.
pub struct NodeView {
    pub name: Option<Seq<char>>,
    pub parent: Option<Seq<char>>,
    pub config: RunConfView,
    pub node_type: NodeTypeView,
}

/// What a `TopologyNodeType` holds.
pub enum NodeTypeView {
    Terminal,
    Node(Seq<NodeView>),
}

/// The root of an empty tree: no name, no parent, no configuration, no
/// children.
pub open spec fn bare_node() -> NodeView {
    NodeView {
        name: None,
        parent: None,
        config: RunConfView::Absent,
        node_type: NodeTypeView::Terminal,
    }
}

/// What `n` holds.
pub open spec fn node_view(n: TopologyNode) -> NodeView
    decreases n,
{
    NodeView {
        name: opt_text(n.name),
        parent: opt_text(n.parent),
        config: n.config@,
        node_type: match n.node_type {
            TopologyNodeType::Terminal => NodeTypeView::Terminal,
            TopologyNodeType::Node(c) => NodeTypeView::Node(
                Seq::new(
                    c@.len(),
                    |i: int|
                        if 0 <= i < c@.len() {
                            node_view(c@[i])
                        } else {
                            bare_node()
                        },
                ),
            ),
        },
    }
}

impl View for TopologyNode {
    type V = NodeView;

    open spec fn view(&self) -> NodeView {
        node_view(*self)
    }
}

/// What the nodes of `s` hold.
pub open spec fn nodes_view(s: Seq<TopologyNode>) -> Seq<NodeView> {
    Seq::new(s.len(), |i: int| s[i]@)
}

/// The view of a node with children holds the views of the children.
pub proof fn lemma_node_view_unfolds(n: TopologyNode)
    ensures
        n.node_type matches TopologyNodeType::Node(c) ==> n@.node_type == NodeTypeView::Node(
            nodes_view(c@),
        ),
        n.node_type is Terminal ==> n@.node_type is Terminal,
{
    match n.node_type {
        TopologyNodeType::Node(c) => {
            assert(n@.node_type->Node_0 =~= nodes_view(c@));
        },
        _ => {},
    }
}

/// A topology: the hosts by alias, and the tree of nodes under a root.
#[derive(Debug, PartialEq)]
pub struct Topology {
    pub hosts: SortedMap<Host>,
    pub root: TopologyNode,
}

/// What a `Topology` holds.
pub struct TopologyView {
    pub hosts: Seq<(Seq<char>, HostView)>,
    pub root: NodeView,
}

impl View for Topology {
    type V = TopologyView;

    open spec fn view(&self) -> TopologyView {
        TopologyView { hosts: self.hosts@, root: self.root@ }
    }
}

/// What is wrong with a location.
#[derive(Debug, Clone, Copy, PartialEq, Eq)]
pub enum LocationDefect {
    NotATable,
    NoHost,
    HostNotString,
    NoPort,
    PortNotInteger,
    PortOutOfRange,
    PublicityNotString,
    PublicityUnknown,
}

/// What is wrong with the configuration of a node.
#[derive(Debug, Clone, Copy, PartialEq, Eq)]
pub enum ConfDefect {
    /// It has parameters and no location.
    NoLocation,
    /// It has a location and no parameters.
    NoParams,
    /// It has neither.
    Neither,
    /// Its location cannot be read.
    BadLocation(LocationDefect),
}

/// The kinds of error.
#[derive(Debug, PartialEq)]
pub enum ErrorKind {
    /// A value is of a kind that may not stand where it stands.
    UnexpectedValueShape,
    /// A configuration lacks its location or its parameters.
    MissingLocationOrParams(ConfDefect),
    /// A node of the tree has no configuration.
    MissingConfig,
    /// A location names a host that is not declared.
    UnknownHost { alias: String },
    /// A node listens where the node `first` listens already.
    DuplicateBinding { first: String, host: String, port: u16 },
}

/// What an `ErrorKind` holds.
pub enum ErrorKindView {
    UnexpectedValueShape,
    MissingLocationOrParams(ConfDefect),
    MissingConfig,
    UnknownHost { alias: Seq<char> },
    DuplicateBinding { first: Seq<char>, host: Seq<char>, port: u16 },
}

impl View for ErrorKind {
    type V = ErrorKindView;

    open spec fn view(&self) -> ErrorKindView {
        match self {
            ErrorKind::UnexpectedValueShape => ErrorKindView::UnexpectedValueShape,
            ErrorKind::MissingLocationOrParams(d) => ErrorKindView::MissingLocationOrParams(*d),
            ErrorKind::MissingConfig => ErrorKindView::MissingConfig,
            ErrorKind::UnknownHost { alias } => ErrorKindView::UnknownHost { alias: alias@ },
            ErrorKind::DuplicateBinding { first, host, port } => ErrorKindView::DuplicateBinding {
                first: first@,
                host: host@,
                port: *port,
            },
        }
    }
}

/// Why a topology could not be made: where, under which name, and what.
#[derive(Debug, PartialEq)]
pub struct ParseError {
    pub parent: String,
    pub name: String,
    pub error: ErrorKind,
}

/// What a `ParseError` holds.
pub struct ErrorView {
    pub parent: Seq<char>,
    pub name: Seq<char>,
    pub error: ErrorKindView,
}

impl View for ParseError {
    type V = ErrorView;

    open spec fn view(&self) -> ErrorView {
        ErrorView { parent: self.parent@, name: self.name@, error: self.error@ }
    }
}

/// The document that a topology is made from: the hosts by alias, the shape
/// of the tree, and the configuration of its nodes.
#[derive(Debug, PartialEq)]
pub struct RawTopology {
    pub hosts: SortedMap<Host>,
    pub root: Table,
    pub config: Table,
}

/// What a `RawTopology` holds.
pub struct RawView {
    pub hosts: Seq<(Seq<char>, HostView)>,
    pub root: TableView,
    pub config: TableView,
}

impl View for RawTopology {
    type V = RawView;

    open spec fn view(&self) -> RawView {
        RawView {
            hosts: self.hosts@,
            root: table_view(self.root@),
            config: table_view(self.config@),
        }
    }
}

/// The root over these nodes.
pub open spec fn root_over(nodes: Seq<NodeView>) -> NodeView {
    NodeView {
        name: None,
        parent: None,
        config: RunConfView::Absent,
        node_type: NodeTypeView::Node(nodes),
    }
}

/// The topology of a document, or the first error in it: the configuration
/// section is flattened, the locations found are checked against the hosts,
/// and the tree is built from the shape section with what was found.
pub open spec fn assemble(raw: RawView) -> Result<TopologyView, ErrorView> {
    let resolved = resolve(None, raw.config, raw.config.len(), false, Seq::empty());
    match resolved.error {
        Some(e) => Err(e),
        None => match check(resolved.confs, raw.hosts) {
            Some(e) => Err(e),
            None => {
                let built = build(None, raw.root, raw.root.len(), resolved.confs);
                match built.error {
                    Some(e) => Err(e),
                    None => Ok(TopologyView { hosts: raw.hosts, root: root_over(built.nodes) }),
                }
            },
        },
    }
}

impl Topology {
    /// Makes the topology of a document, or finds the first error in it.
    pub fn try_from(t: RawTopology) -> (r: Result<Topology, ParseError>)
        ensures
            match r {
                Ok(x) => assemble(t@) == Ok::<TopologyView, ErrorView>(x@),
                Err(e) => assemble(t@) == Err::<TopologyView, ErrorView>(e@),
            },
    {
        let RawTopology { hosts, root, config } = t;
        let mut conf: SortedMap<RunConf> = SortedMap::new();
        match run_conf(&None, &config, &mut conf) {
            Ok(_) => {},
            Err(e) => {
                return Err(e);
            },
        }
        match check_locations(&conf, &hosts) {
            Ok(_) => {},
            Err(e) => {
                return Err(e);
            },
        }
        let nodes = match run_root(&None, &root, &mut conf) {
            Ok(n) => n,
            Err(e) => {
                return Err(e);
            },
        };
        let top = TopologyNode {
            name: None,
            parent: None,
            config: RunConf::Absent,
            node_type: TopologyNodeType::Node(nodes),
        };
        proof {
            lemma_node_view_unfolds(top);
        }
        Ok(Topology { hosts, root: top })
    }
}

/// Whether `x` is the node `n` or a node below it.
pub open spec fn reaches(n: TopologyNode, x: TopologyNode) -> bool
    decreases n,
{
    n == x || match n.node_type {
        TopologyNodeType::Terminal => false,
        TopologyNodeType::Node(c) => exists|i: int| 0 <= i < c@.len() && reaches(#[trigger] c@[i], x),
    }
}

fn visit<F: Fn(&TopologyNode)>(n: &TopologyNode, f: &F)
    requires
        forall|x: TopologyNode| reaches(*n, x) ==> call_requires(*f, (&x,)),
    ensures
        forall|x: TopologyNode| reaches(*n, x) ==> call_ensures(*f, (&x,), ()),
    decreases *n,
{
    assert(reaches(*n, *n));
    f(n);
    match &n.node_type {
        TopologyNodeType::Terminal => {},
        TopologyNodeType::Node(c) => {
            let mut i: usize = 0;
            while i < c.len()
                invariant
                    i <= c.len(),
                    n.node_type == TopologyNodeType::Node(*c),
                    forall|x: TopologyNode| reaches(*n, x) ==> call_requires(*f, (&x,)),
                    forall|j: int, x: TopologyNode|
                        0 <= j < i && reaches(#[trigger] c@[j], x) ==> #[trigger] call_ensures(
                            *f,
                            (&x,),
                            (),
                        ),
                decreases c.len() - i,
            {
                proof {
                    assert(decreases_to!(*n => n.node_type->Node_0@[i as int]));
                    assert forall|x: TopologyNode| reaches(c@[i as int], x) implies call_requires(
                        *f,
                        (&x,),
                    ) by {
                        assert(reaches(*n, x));
                    }
                }
                visit(&c[i], f);
                i += 1;
            }
        },
    }
}

impl TopologyNode {
    /// Calls `f` on this node and on every node below it, a node before its
    /// children and the children in their order.
    pub fn for_each<F: Fn(&TopologyNode)>(&self, f: F)
        requires
            forall|x: TopologyNode| reaches(*self, x) ==> call_requires(f, (&x,)),
        ensures
            forall|x: TopologyNode| reaches(*self, x) ==> call_ensures(f, (&x,), ()),
    {
        visit(self, &f)
    }
}

} // verus!
