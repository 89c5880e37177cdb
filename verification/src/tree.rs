//! Building the tree of nodes from the shape section, each node with its
//! configuration.

use vstd::prelude::*;
use crate::path::join;
use crate::path::join_path;
use crate::path::opt_text;
use crate::path::clone_opt;
use crate::path::parent_text;
use crate::resolve::Confs;
use crate::resolve::fault;
use crate::sorted_map::SortedMap;
use crate::sorted_map::del;
use crate::sorted_map::find;
use crate::topology::ErrorKind;
use crate::topology::ErrorKindView;
use crate::topology::ErrorView;
use crate::topology::NodeTypeView;
use crate::topology::NodeView;
use crate::topology::ParseError;
use crate::topology::RunConf;
use crate::topology::RunConfView;
use crate::topology::TopologyNode;
use crate::topology::TopologyNodeType;
use crate::topology::lemma_node_view_unfolds;
use crate::topology::nodes_view;
use crate::value::Table;
use crate::value::TableView;
use crate::value::Value;
use crate::value::ValueView;
use crate::value::array_view;
use crate::value::lemma_view_unfolds;
use crate::value::table_view;

verus! {

/// How far building came: the nodes built, the configurations not yet
/// taken, and the error that stopped it, if one did.
pub struct Built {
    pub nodes: Seq<NodeView>,
    pub confs: Confs,
    pub error: Option<ErrorView>,
}

/// The leaf `name` of the group `group`, with the configuration `config`.
pub open spec fn leaf(group: Seq<char>, name: Seq<char>, config: RunConfView) -> NodeView {
    NodeView {
        name: Some(group + seq!['.'] + name),
        parent: Some(group),
        config,
        node_type: NodeTypeView::Terminal,
    }
}

/// The group `name` of the scope of `prefix`, with its configuration and its
/// leaves.
pub open spec fn group_node(
    prefix: Option<Seq<char>>,
    name: Seq<char>,
    config: RunConfView,
    leaves: Seq<NodeView>,
) -> NodeView {
    NodeView {
        name: Some(join(prefix, name)),
        parent: prefix,
        config,
        node_type: NodeTypeView::Node(leaves),
    }
}

/// Building the leaves that the first `n` items of the group `name` declare.
/// Each item is a string, the name of a leaf, whose configuration is taken
/// out of `confs` from under the leaf's path. The first item that is no
/// string, or whose leaf has no configuration, stops it.
pub open spec fn leaves(
    prefix: Option<Seq<char>>,
    name: Seq<char>,
    items: Seq<ValueView>,
    n: nat,
    confs: Confs,
) -> Built
    decreases n,
{
    if n == 0 || n > items.len() {
        Built { nodes: Seq::empty(), confs, error: None }
    } else {
        let before = leaves(prefix, name, items, (n - 1) as nat, confs);
        let group = join(prefix, name);
        if before.error is Some {
            before
        } else {
            match items[n - 1] {
                ValueView::String(s) => match find(before.confs, group + seq!['.'] + s) {
                    None => Built {
                        nodes: before.nodes,
                        confs: before.confs,
                        error: Some(
                            ErrorView { parent: group, name: s, error: ErrorKindView::MissingConfig },
                        ),
                    },
                    Some(c) => Built {
                        nodes: before.nodes.push(leaf(group, s, c)),
                        confs: del(before.confs, group + seq!['.'] + s),
                        error: None,
                    },
                },
                _ => Built {
                    nodes: before.nodes,
                    confs: before.confs,
                    error: Some(fault(prefix, name, ErrorKindView::UnexpectedValueShape)),
                },
            }
        }
    }
}

/// Building the nodes that the first `n` entries of `shape`, the scope of
/// `prefix`, declare, in their order. The first error stops it.
pub open spec fn build(prefix: Option<Seq<char>>, shape: TableView, n: nat, confs: Confs) -> Built
    decreases shape, n,
{
    if n == 0 || n > shape.len() {
        Built { nodes: Seq::empty(), confs, error: None }
    } else {
        let before = build(prefix, shape, (n - 1) as nat, confs);
        if before.error is Some {
            before
        } else {
            let entry = build_entry(prefix, shape[n - 1].0, shape[n - 1].1, before.confs);
            Built { nodes: before.nodes + entry.nodes, confs: entry.confs, error: entry.error }
        }
    }
}

/// Building the nodes that the entry `name` of the scope of `prefix`
/// declares. A table is a scope of its own and declares what its entries
/// declare, but no node itself. An array of strings declares one node, the
/// group `name`, with a leaf for each string; the group's configuration is
/// taken out of `confs` after those of its leaves. Nothing else may stand in
/// a shape.
pub open spec fn build_entry(
    prefix: Option<Seq<char>>,
    name: Seq<char>,
    v: ValueView,
    confs: Confs,
) -> Built
    decreases v, 0nat,
{
    match v {
        ValueView::Table(t) => build(Some(join(prefix, name)), t, t.len(), confs),
        ValueView::Array(items) => {
            let below = leaves(prefix, name, items, items.len(), confs);
            if below.error is Some {
                Built { nodes: Seq::empty(), confs: below.confs, error: below.error }
            } else {
                match find(below.confs, join(prefix, name)) {
                    None => Built {
                        nodes: Seq::empty(),
                        confs: below.confs,
                        error: Some(fault(prefix, name, ErrorKindView::MissingConfig)),
                    },
                    Some(c) => Built {
                        nodes: seq![group_node(prefix, name, c, below.nodes)],
                        confs: del(below.confs, join(prefix, name)),
                        error: None,
                    },
                }
            }
        },
        _ => Built {
            nodes: Seq::empty(),
            confs,
            error: Some(fault(prefix, name, ErrorKindView::UnexpectedValueShape)),
        },
    }
}

/// Once an error has stopped the leaves, further items change nothing.
pub proof fn lemma_leaves_stop(
    prefix: Option<Seq<char>>,
    name: Seq<char>,
    items: Seq<ValueView>,
    i: nat,
    n: nat,
    confs: Confs,
)
    requires
        i <= n <= items.len(),
        leaves(prefix, name, items, i, confs).error is Some,
    ensures
        leaves(prefix, name, items, n, confs) == leaves(prefix, name, items, i, confs),
    decreases n - i,
{
    if i < n {
        lemma_leaves_stop(prefix, name, items, i, (n - 1) as nat, confs);
    }
}

/// Once an error has stopped the building, further entries change nothing.
pub proof fn lemma_build_stops(
    prefix: Option<Seq<char>>,
    shape: TableView,
    i: nat,
    n: nat,
    confs: Confs,
)
    requires
        i <= n <= shape.len(),
        build(prefix, shape, i, confs).error is Some,
    ensures
        build(prefix, shape, n, confs) == build(prefix, shape, i, confs),
    decreases n - i,
{
    if i < n {
        lemma_build_stops(prefix, shape, i, (n - 1) as nat, confs);
    }
}

/// Whether `r`, with `left` left of the configurations, is what `b` says.
pub open spec fn built_as(b: Built, r: Result<Vec<TopologyNode>, ParseError>, left: Confs) -> bool {
    &&& left == b.confs
    &&& match r {
        Ok(nodes) => b.error is None && nodes_view(nodes@) == b.nodes,
        Err(e) => b.error == Some(e@),
    }
}

fn leaf_nodes(
    parent: &Option<String>,
    name: &String,
    items: &Vec<Value>,
    confs: &mut SortedMap<RunConf>,
) -> (r: Result<Vec<TopologyNode>, ParseError>)
    ensures
        built_as(
            leaves(opt_text(*parent), name@, array_view(items@), items@.len(), old(confs)@),
            r,
            final(confs)@,
        ),
{
    let ghost prefix = opt_text(*parent);
    let ghost iv = array_view(items@);
    let ghost start = confs@;
    let mut nodes: Vec<TopologyNode> = Vec::new();
    assert(nodes_view(nodes@) =~= Seq::<NodeView>::empty());
    let mut i: usize = 0;
    while i < items.len()
        invariant
            i <= items.len(),
            prefix == opt_text(*parent),
            iv == array_view(items@),
            start == old(confs)@,
            leaves(prefix, name@, iv, i as nat, start) == (Built {
                nodes: nodes_view(nodes@),
                confs: confs@,
                error: None,
            }),
        decreases items.len() - i,
    {
        match &items[i] {
            Value::String(s) => {
                let group = join_path(parent, name);
                let below = Some(group);
                let path = join_path(&below, s);
                match confs.remove(path.as_str()) {
                    None => {
                        proof {
                            lemma_leaves_stop(prefix, name@, iv, (i + 1) as nat, iv.len(), start);
                        }
                        return Err(
                            ParseError {
                                parent: parent_text(&below),
                                name: s.clone(),
                                error: ErrorKind::MissingConfig,
                            },
                        );
                    },
                    Some(config) => {
                        let node = TopologyNode {
                            name: Some(path),
                            parent: below,
                            config,
                            node_type: TopologyNodeType::Terminal,
                        };
                        proof {
                            assert(nodes_view(nodes@.push(node)) =~= nodes_view(nodes@).push(
                                node@,
                            ));
                        }
                        nodes.push(node);
                    },
                }
            },
            _ => {
                proof {
                    lemma_leaves_stop(prefix, name@, iv, (i + 1) as nat, iv.len(), start);
                }
                return Err(
                    ParseError {
                        parent: parent_text(parent),
                        name: name.clone(),
                        error: ErrorKind::UnexpectedValueShape,
                    },
                );
            },
        }
        i += 1;
    }
    Ok(nodes)
}

fn root_entry(
    parent: &Option<String>,
    name: &String,
    v: &Value,
    confs: &mut SortedMap<RunConf>,
) -> (r: Result<Vec<TopologyNode>, ParseError>)
    ensures
        built_as(build_entry(opt_text(*parent), name@, v@, old(confs)@), r, final(confs)@),
    decreases *v, 0nat,
{
    proof {
        lemma_view_unfolds(*v);
    }
    match v {
        Value::Table(t) => {
            let below = Some(join_path(parent, name));
            run_root(&below, t, confs)
        },
        Value::Array(items) => {
            let leaves = match leaf_nodes(parent, name, items, confs) {
                Ok(l) => l,
                Err(e) => {
                    return Err(e);
                },
            };
            let path = join_path(parent, name);
            match confs.remove(path.as_str()) {
                None => Err(
                    ParseError {
                        parent: parent_text(parent),
                        name: name.clone(),
                        error: ErrorKind::MissingConfig,
                    },
                ),
                Some(config) => {
                    let node = TopologyNode {
                        name: Some(path),
                        parent: clone_opt(parent),
                        config,
                        node_type: TopologyNodeType::Node(leaves),
                    };
                    proof {
                        lemma_node_view_unfolds(node);
                    }
                    let mut nodes: Vec<TopologyNode> = Vec::new();
                    nodes.push(node);
                    assert(nodes_view(nodes@) =~= seq![node@]);
                    Ok(nodes)
                },
            }
        },
        _ => Err(
            ParseError {
                parent: parent_text(parent),
                name: name.clone(),
                error: ErrorKind::UnexpectedValueShape,
            },
        ),
    }
}

/// Builds the nodes that `table`, the scope of `parent` in the shape section,
/// declares, and takes the configuration of each out of `confs`. Stops at
/// the first error.
pub fn run_root(
    parent: &Option<String>,
    table: &Table,
    confs: &mut SortedMap<RunConf>,
) -> (r: Result<Vec<TopologyNode>, ParseError>)
    ensures
        built_as(
            build(opt_text(*parent), table_view(table@), table@.len(), old(confs)@),
            r,
            final(confs)@,
        ),
    decreases *table, 1nat,
{
    let ghost prefix = opt_text(*parent);
    let ghost tv = table_view(table@);
    let ghost start = confs@;
    let mut nodes: Vec<TopologyNode> = Vec::new();
    assert(nodes_view(nodes@) =~= Seq::<NodeView>::empty());
    let mut i: usize = 0;
    while i < table.len()
        invariant
            i <= table.len(),
            prefix == opt_text(*parent),
            tv == table_view(table@),
            start == old(confs)@,
            build(prefix, tv, i as nat, start) == (Built {
                nodes: nodes_view(nodes@),
                confs: confs@,
                error: None,
            }),
        decreases table.len() - i,
    {
        proof {
            assert(decreases_to!(*table => table@[i as int].1));
        }
        match root_entry(parent, &table[i].0, &table[i].1, confs) {
            Err(e) => {
                proof {
                    lemma_build_stops(prefix, tv, (i + 1) as nat, tv.len(), start);
                }
                return Err(e);
            },
            Ok(mut more) => {
                proof {
                    assert(nodes_view(nodes@ + more@) =~= nodes_view(nodes@) + nodes_view(more@));
                }
                nodes.append(&mut more);
            },
        }
        i += 1;
    }
    Ok(nodes)
}

} // verus!
