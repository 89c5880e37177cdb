//! The names of the nodes that building declares, and what building takes
//! out of the configurations.

use vstd::prelude::*;
use crate::path::join;
use crate::resolve::Confs;
use crate::sorted_map::find;
use crate::sorted_map::increasing;
use crate::sorted_map::lemma_del_increasing;
use crate::sorted_map::lemma_find_del;
use crate::topology::NodeTypeView;
use crate::topology::NodeView;
use crate::topology::RunConfView;
use crate::tree::build;
use crate::tree::build_entry;
use crate::tree::group_node;
use crate::tree::leaf;
use crate::tree::leaves;
use crate::value::TableView;
use crate::value::ValueView;

verus! {

/// Whether `n`, or a node below it, has the name `q`.
pub open spec fn node_named(n: NodeView, q: Seq<char>) -> bool
    decreases n,
{
    n.name == Some(q) || match n.node_type {
        NodeTypeView::Terminal => false,
        NodeTypeView::Node(c) => exists|i: int| 0 <= i < c.len() && node_named(#[trigger] c[i], q),
    }
}

/// Whether a node of `nodes`, or a node below one, has the name `q`.
pub open spec fn named_in(nodes: Seq<NodeView>, q: Seq<char>) -> bool {
    exists|i: int| 0 <= i < nodes.len() && node_named(#[trigger] nodes[i], q)
}

/// Whether `item`, in the group at the path `group`, declares the leaf `q`.
pub open spec fn item_declares(group: Seq<char>, item: ValueView, q: Seq<char>) -> bool {
    item matches ValueView::String(s) && q == group + seq!['.'] + s
}

/// Whether one of the first `n` items of the group at `group` declares the
/// leaf `q`.
pub open spec fn items_declare(group: Seq<char>, items: Seq<ValueView>, n: nat, q: Seq<char>) -> bool {
    exists|i: int| 0 <= i < n && i < items.len() && item_declares(group, #[trigger] items[i], q)
}

/// Whether one of the first `n` entries of `shape`, the scope of `prefix`,
/// declares a node named `q`.
pub open spec fn declares(prefix: Option<Seq<char>>, shape: TableView, n: nat, q: Seq<char>) -> bool
    decreases shape, n,
{
    if n == 0 || n > shape.len() {
        false
    } else {
        declares(prefix, shape, (n - 1) as nat, q) || entry_declares(
            prefix,
            shape[n - 1].0,
            shape[n - 1].1,
            q,
        )
    }
}

/// Whether the entry `name` of the scope of `prefix` declares a node named
/// `q`: a table declares what its entries declare, an array of strings the
/// group `name` and its leaves.
pub open spec fn entry_declares(
    prefix: Option<Seq<char>>,
    name: Seq<char>,
    v: ValueView,
    q: Seq<char>,
) -> bool
    decreases v, 0nat,
{
    match v {
        ValueView::Table(t) => declares(Some(join(prefix, name)), t, t.len(), q),
        ValueView::Array(items) => q == join(prefix, name) || items_declare(
            join(prefix, name),
            items,
            items.len(),
            q,
        ),
        _ => false,
    }
}

/// Whether `shape` holds tables alone, down to any depth.
pub open spec fn tables_only(shape: TableView, n: nat) -> bool
    decreases shape, n,
{
    if n == 0 || n > shape.len() {
        true
    } else {
        tables_only(shape, (n - 1) as nat) && match shape[n - 1].1 {
            ValueView::Table(t) => tables_only(t, t.len()),
            _ => false,
        }
    }
}

/// A name is among nodes with one more node if it is among them or in the
/// one.
pub proof fn lemma_named_in_push(nodes: Seq<NodeView>, x: NodeView, q: Seq<char>)
    ensures
        named_in(nodes.push(x), q) <==> named_in(nodes, q) || node_named(x, q),
{
    let more = nodes.push(x);
    if named_in(more, q) {
        let i = choose|i: int| 0 <= i < more.len() && node_named(#[trigger] more[i], q);
        if i < nodes.len() {
            assert(node_named(nodes[i], q));
        }
    }
    if named_in(nodes, q) {
        let i = choose|i: int| 0 <= i < nodes.len() && node_named(#[trigger] nodes[i], q);
        assert(node_named(more[i], q));
    }
    if node_named(x, q) {
        assert(node_named(more[nodes.len() as int], q));
    }
}

/// A name is among two runs of nodes if it is among either.
pub proof fn lemma_named_in_concat(a: Seq<NodeView>, b: Seq<NodeView>, q: Seq<char>)
    ensures
        named_in(a + b, q) <==> named_in(a, q) || named_in(b, q),
{
    let both = a + b;
    if named_in(both, q) {
        let i = choose|i: int| 0 <= i < both.len() && node_named(#[trigger] both[i], q);
        if i < a.len() {
            assert(node_named(a[i], q));
        } else {
            assert(node_named(b[i - a.len()], q));
        }
    }
    if named_in(a, q) {
        let i = choose|i: int| 0 <= i < a.len() && node_named(#[trigger] a[i], q);
        assert(node_named(both[i], q));
    }
    if named_in(b, q) {
        let i = choose|i: int| 0 <= i < b.len() && node_named(#[trigger] b[i], q);
        assert(node_named(both[a.len() + i], q));
    }
}

/// The names in a group are its own and those of its leaves.
pub proof fn lemma_named_in_group(g: NodeView, below: Seq<NodeView>, q: Seq<char>)
    requires
        g.node_type == NodeTypeView::Node(below),
    ensures
        named_in(seq![g], q) <==> g.name == Some(q) || named_in(below, q),
{
    let one = seq![g];
    if named_in(one, q) {
        let i = choose|i: int| 0 <= i < one.len() && node_named(#[trigger] one[i], q);
        assert(one[i] == g);
    }
    if named_in(below, q) {
        let i = choose|i: int| 0 <= i < below.len() && node_named(#[trigger] below[i], q);
        assert(node_named(g.node_type->Node_0[i], q));
    }
    if g.name == Some(q) || named_in(below, q) {
        assert(node_named(one[0], q));
    }
}

/// Leaves that were built: the paths stay increasing; a path holds nothing
/// afterwards if a leaf has its name, and else what it held; and each leaf
/// is named by a path that held a configuration.
pub proof fn lemma_leaves_take(
    prefix: Option<Seq<char>>,
    name: Seq<char>,
    items: Seq<ValueView>,
    n: nat,
    confs: Confs,
    q: Seq<char>,
)
    requires
        increasing(confs),
        n <= items.len(),
        leaves(prefix, name, items, n, confs).error is None,
    ensures
        increasing(leaves(prefix, name, items, n, confs).confs),
        find(leaves(prefix, name, items, n, confs).confs, q) == if named_in(
            leaves(prefix, name, items, n, confs).nodes,
            q,
        ) {
            None
        } else {
            find(confs, q)
        },
        named_in(leaves(prefix, name, items, n, confs).nodes, q) ==> find(confs, q) is Some,
        named_in(leaves(prefix, name, items, n, confs).nodes, q) <==> items_declare(
            join(prefix, name),
            items,
            n,
            q,
        ),
    decreases n,
{
    let l = leaves(prefix, name, items, n, confs);
    let group = join(prefix, name);
    if n == 0 || n > items.len() {
        assert(!named_in(l.nodes, q));
        assert(!items_declare(group, items, n, q));
    } else {
        let before = leaves(prefix, name, items, (n - 1) as nat, confs);
        lemma_leaves_take(prefix, name, items, (n - 1) as nat, confs, q);
        let s = items[n - 1]->String_0;
        let path = group + seq!['.'] + s;
        let c = find(before.confs, path)->0;
        lemma_leaves_take(prefix, name, items, (n - 1) as nat, confs, path);
        lemma_named_in_push(before.nodes, leaf(group, s, c), q);
        lemma_find_del(before.confs, path, q);
        lemma_del_increasing(before.confs, path);
        assert(node_named(leaf(group, s, c), q) <==> q == path);
        if items_declare(group, items, n, q) {
            let i = choose|i: int|
                0 <= i < n && i < items.len() && item_declares(group, #[trigger] items[i], q);
            if i < n - 1 {
                assert(items_declare(group, items, (n - 1) as nat, q));
            }
        }
        if items_declare(group, items, (n - 1) as nat, q) {
            let i = choose|i: int|
                0 <= i < n - 1 && i < items.len() && item_declares(group, #[trigger] items[i], q);
            assert(item_declares(group, items[i], q));
        }
        if q == path {
            assert(item_declares(group, items[n - 1], q));
        }
    }
}

/// Nodes that were built: the paths stay increasing; a path holds nothing
/// afterwards if a node built has its name, and else what it held; each node
/// is named by a path that held a configuration; and the names of the nodes
/// are those that the shape declares.
pub proof fn lemma_build_takes(
    prefix: Option<Seq<char>>,
    shape: TableView,
    n: nat,
    confs: Confs,
    q: Seq<char>,
)
    requires
        increasing(confs),
        build(prefix, shape, n, confs).error is None,
    ensures
        increasing(build(prefix, shape, n, confs).confs),
        find(build(prefix, shape, n, confs).confs, q) == if named_in(
            build(prefix, shape, n, confs).nodes,
            q,
        ) {
            None
        } else {
            find(confs, q)
        },
        named_in(build(prefix, shape, n, confs).nodes, q) ==> find(confs, q) is Some,
        named_in(build(prefix, shape, n, confs).nodes, q) <==> declares(prefix, shape, n, q),
    decreases shape, n,
{
    let b = build(prefix, shape, n, confs);
    if n == 0 || n > shape.len() {
        assert(!named_in(b.nodes, q));
    } else {
        let before = build(prefix, shape, (n - 1) as nat, confs);
        lemma_build_takes(prefix, shape, (n - 1) as nat, confs, q);
        let entry = build_entry(prefix, shape[n - 1].0, shape[n - 1].1, before.confs);
        lemma_build_entry_takes(prefix, shape[n - 1].0, shape[n - 1].1, before.confs, q);
        lemma_named_in_concat(before.nodes, entry.nodes, q);
    }
}

/// The same of the nodes that one entry declares.
pub proof fn lemma_build_entry_takes(
    prefix: Option<Seq<char>>,
    name: Seq<char>,
    v: ValueView,
    confs: Confs,
    q: Seq<char>,
)
    requires
        increasing(confs),
        build_entry(prefix, name, v, confs).error is None,
    ensures
        increasing(build_entry(prefix, name, v, confs).confs),
        find(build_entry(prefix, name, v, confs).confs, q) == if named_in(
            build_entry(prefix, name, v, confs).nodes,
            q,
        ) {
            None
        } else {
            find(confs, q)
        },
        named_in(build_entry(prefix, name, v, confs).nodes, q) ==> find(confs, q) is Some,
        named_in(build_entry(prefix, name, v, confs).nodes, q) <==> entry_declares(
            prefix,
            name,
            v,
            q,
        ),
    decreases v, 0nat,
{
    match v {
        ValueView::Table(t) => {
            lemma_build_takes(Some(join(prefix, name)), t, t.len(), confs, q);
        },
        ValueView::Array(items) => {
            let group = join(prefix, name);
            let below = leaves(prefix, name, items, items.len(), confs);
            lemma_leaves_take(prefix, name, items, items.len(), confs, q);
            lemma_leaves_take(prefix, name, items, items.len(), confs, group);
            let c = find(below.confs, group)->0;
            let g = group_node(prefix, name, c, below.nodes);
            lemma_named_in_group(g, below.nodes, q);
            lemma_find_del(below.confs, group, q);
            lemma_del_increasing(below.confs, group);
        },
        _ => {},
    }
}

/// Whether `n`, or a node below it, has the name `q` and the configuration
/// `c`.
pub open spec fn node_carries(n: NodeView, q: Seq<char>, c: RunConfView) -> bool
    decreases n,
{
    (n.name == Some(q) && n.config == c) || match n.node_type {
        NodeTypeView::Terminal => false,
        NodeTypeView::Node(below) => exists|i: int|
            0 <= i < below.len() && node_carries(#[trigger] below[i], q, c),
    }
}

/// Whether a node of `nodes`, or a node below one, has the name `q` and the
/// configuration `c`.
pub open spec fn carried_in(nodes: Seq<NodeView>, q: Seq<char>, c: RunConfView) -> bool {
    exists|i: int| 0 <= i < nodes.len() && node_carries(#[trigger] nodes[i], q, c)
}

/// A leaf that was built carries what stood under its name.
pub proof fn lemma_leaves_carry(
    prefix: Option<Seq<char>>,
    name: Seq<char>,
    items: Seq<ValueView>,
    confs: Confs,
    q: Seq<char>,
    c: RunConfView,
)
    requires
        increasing(confs),
        leaves(prefix, name, items, items.len(), confs).error is None,
        carried_in(leaves(prefix, name, items, items.len(), confs).nodes, q, c),
    ensures
        find(confs, q) == Some(c),
{
    let l = leaves(prefix, name, items, items.len(), confs);
    let i = choose|i: int| 0 <= i < l.nodes.len() && node_carries(#[trigger] l.nodes[i], q, c);
    lemma_leaves_shape(prefix, name, items, items.len(), confs, 0);
    lemma_leaves_shape(prefix, name, items, items.len(), confs, i);
}

/// The leaves that were built: one for each item, in order; each item is a
/// string, and its leaf has the item's path under the group as its name, the
/// group as its parent, no children, and the configuration that stood under
/// its name.
pub proof fn lemma_leaves_shape(
    prefix: Option<Seq<char>>,
    name: Seq<char>,
    items: Seq<ValueView>,
    n: nat,
    confs: Confs,
    i: int,
)
    requires
        increasing(confs),
        n <= items.len(),
        leaves(prefix, name, items, n, confs).error is None,
    ensures
        leaves(prefix, name, items, n, confs).nodes.len() == n,
        0 <= i < n ==> (items[i] matches ValueView::String(s) && find(
            confs,
            join(prefix, name) + seq!['.'] + s,
        ) matches Some(c) && leaves(prefix, name, items, n, confs).nodes[i] == leaf(
            join(prefix, name),
            s,
            c,
        )),
    decreases n,
{
    if n > 0 {
        lemma_leaves_shape(prefix, name, items, (n - 1) as nat, confs, i);
        if i == n - 1 {
            let s = items[i]->String_0;
            lemma_leaves_take(
                prefix,
                name,
                items,
                (n - 1) as nat,
                confs,
                join(prefix, name) + seq!['.'] + s,
            );
        }
    }
}

/// A node that was built carries what stood under its name.
pub proof fn lemma_build_carries(
    prefix: Option<Seq<char>>,
    shape: TableView,
    n: nat,
    confs: Confs,
    q: Seq<char>,
    c: RunConfView,
)
    requires
        increasing(confs),
        build(prefix, shape, n, confs).error is None,
        carried_in(build(prefix, shape, n, confs).nodes, q, c),
    ensures
        find(confs, q) == Some(c),
    decreases shape, n,
{
    let b = build(prefix, shape, n, confs);
    if n == 0 || n > shape.len() {
    } else {
        let before = build(prefix, shape, (n - 1) as nat, confs);
        let entry = build_entry(prefix, shape[n - 1].0, shape[n - 1].1, before.confs);
        let i = choose|i: int| 0 <= i < b.nodes.len() && node_carries(#[trigger] b.nodes[i], q, c);
        lemma_build_takes(prefix, shape, (n - 1) as nat, confs, q);
        if i < before.nodes.len() {
            assert(node_carries(before.nodes[i], q, c));
            lemma_build_carries(prefix, shape, (n - 1) as nat, confs, q, c);
        } else {
            assert(node_carries(entry.nodes[i - before.nodes.len()], q, c));
            lemma_build_entry_carries(prefix, shape[n - 1].0, shape[n - 1].1, before.confs, q, c);
        }
    }
}

/// The same of the nodes that one entry declares.
pub proof fn lemma_build_entry_carries(
    prefix: Option<Seq<char>>,
    name: Seq<char>,
    v: ValueView,
    confs: Confs,
    q: Seq<char>,
    c: RunConfView,
)
    requires
        increasing(confs),
        build_entry(prefix, name, v, confs).error is None,
        carried_in(build_entry(prefix, name, v, confs).nodes, q, c),
    ensures
        find(confs, q) == Some(c),
    decreases v, 0nat,
{
    match v {
        ValueView::Table(t) => {
            lemma_build_carries(Some(join(prefix, name)), t, t.len(), confs, q, c);
        },
        ValueView::Array(items) => {
            let group = join(prefix, name);
            let below = leaves(prefix, name, items, items.len(), confs);
            let b = build_entry(prefix, name, v, confs);
            let i = choose|i: int| 0 <= i < b.nodes.len() && node_carries(#[trigger] b.nodes[i], q, c);
            lemma_leaves_take(prefix, name, items, items.len(), confs, group);
            if b.nodes[i].name == Some(q) && b.nodes[i].config == c {
            } else {
                let j = choose|j: int|
                    0 <= j < below.nodes.len() && node_carries(#[trigger] below.nodes[j], q, c);
                assert(node_carries(below.nodes[j], q, c));
                lemma_leaves_carry(prefix, name, items, confs, q, c);
            }
        },
        _ => {},
    }
}

/// A shape of tables alone builds no node and takes no configuration.
pub proof fn lemma_tables_only_build(
    prefix: Option<Seq<char>>,
    shape: TableView,
    n: nat,
    confs: Confs,
    q: Seq<char>,
)
    requires
        tables_only(shape, n),
    ensures
        build(prefix, shape, n, confs) == (crate::tree::Built {
            nodes: Seq::empty(),
            confs,
            error: None,
        }),
        !declares(prefix, shape, n, q),
    decreases shape, n,
{
    if n == 0 || n > shape.len() {
    } else {
        lemma_tables_only_build(prefix, shape, (n - 1) as nat, confs, q);
        assert(shape[n - 1].1 is Table);
        let t = shape[n - 1].1->Table_0;
        assert(tables_only(t, t.len()));
        lemma_tables_only_build(Some(join(prefix, shape[n - 1].0)), t, t.len(), confs, q);
        let before = build(prefix, shape, (n - 1) as nat, confs);
        let entry = build_entry(prefix, shape[n - 1].0, shape[n - 1].1, before.confs);
        assert(entry == build(Some(join(prefix, shape[n - 1].0)), t, t.len(), confs));
        assert(before.nodes + entry.nodes =~= Seq::<NodeView>::empty());
        assert(!entry_declares(prefix, shape[n - 1].0, shape[n - 1].1, q));
    }
}

} // verus!
