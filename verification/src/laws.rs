//! What holds of every topology and of every document.

use vstd::prelude::*;
use crate::names::declares;
use crate::order::lex_less;
use crate::order::lemma_lex_less_asymmetric;
use crate::names::items_declare;
use crate::names::item_declares;
use crate::names::lemma_build_takes;
use crate::names::lemma_leaves_take;
use crate::names::lemma_leaves_shape;
use crate::names::lemma_build_carries;
use crate::names::node_carries;
use crate::topology::RunConfView;
use crate::names::lemma_tables_only_build;
use crate::names::named_in;
use crate::names::tables_only;
use crate::path::join;
use crate::resolve::Confs;
use crate::resolve::Resolved;
use crate::resolve::lemma_resolve_increasing;
use crate::resolve::resolve;
use crate::sorted_map::find;
use crate::sorted_map::increasing;
use crate::sorted_map::lemma_position_of_key;
use crate::sorted_map::lemma_position_splits;
use crate::sorted_map::position;
use crate::topology::ErrorKindView;
use crate::topology::ErrorView;
use crate::topology::NodeTypeView;
use crate::topology::RawView;
use crate::topology::assemble;
use crate::topology::location_of;
use crate::tree::build;
use crate::tree::build_entry;
use crate::tree::leaf;
use crate::tree::leaves;
use crate::tree::lemma_leaves_stop;
use crate::validate::bindings_distinct;
use crate::validate::claims;
use crate::validate::collide;
use crate::validate::hosts_known;
use crate::validate::lemma_check_finds_duplicate;
use crate::validate::lemma_check_finds_unknown_host;
use crate::validate::lemma_check_passes_iff;
use crate::value::TableView;
use crate::value::ValueView;

verus! {

/// The configuration section of `raw`, flattened.
pub open spec fn flattened(raw: RawView) -> Resolved {
    resolve(None, raw.config, raw.config.len(), false, Seq::empty())
}

/// The flattened configurations have their paths in increasing order, so
/// that each path stands once.
pub proof fn lemma_flattened_increasing(raw: RawView)
    ensures
        increasing(flattened(raw).confs),
{
    lemma_resolve_increasing(None, raw.config, raw.config.len(), false, Seq::empty());
}

/// Where the shape was built, the names of the nodes are those that the
/// shape declares and, if these are the paths that hold a configuration, the
/// paths of all configurations, of which none is left.
pub proof fn lemma_names_round_trip(prefix: Option<Seq<char>>, shape: TableView, confs: Confs)
    requires
        increasing(confs),
        build(prefix, shape, shape.len(), confs).error is None,
        forall|q: Seq<char>| #[trigger]
            declares(prefix, shape, shape.len(), q) <==> find(confs, q) is Some,
    ensures
        forall|q: Seq<char>| #[trigger]
            named_in(build(prefix, shape, shape.len(), confs).nodes, q) <==> find(confs, q) is Some,
        build(prefix, shape, shape.len(), confs).confs.len() == 0,
{
    let b = build(prefix, shape, shape.len(), confs);
    assert forall|q: Seq<char>| #[trigger] named_in(b.nodes, q) <==> find(confs, q) is Some by {
        lemma_build_takes(prefix, shape, shape.len(), confs, q);
        assert(declares(prefix, shape, shape.len(), q) <==> find(confs, q) is Some);
    }
    if b.confs.len() > 0 {
        let q = b.confs[0].0;
        lemma_build_takes(prefix, shape, shape.len(), confs, q);
        lemma_position_of_key(b.confs, 0);
        assert(declares(prefix, shape, shape.len(), q) <==> find(confs, q) is Some);
    }
}

/// A shape of tables alone is built without error; and where it declares the
/// paths that hold a configuration, the names of the nodes built are those
/// paths, and no configuration is left.
pub proof fn lemma_tables_round_trip(prefix: Option<Seq<char>>, shape: TableView, confs: Confs)
    requires
        increasing(confs),
        tables_only(shape, shape.len()),
        forall|q: Seq<char>| #[trigger]
            declares(prefix, shape, shape.len(), q) <==> find(confs, q) is Some,
    ensures
        build(prefix, shape, shape.len(), confs).error is None,
        forall|q: Seq<char>| #[trigger]
            named_in(build(prefix, shape, shape.len(), confs).nodes, q) <==> find(confs, q) is Some,
        build(prefix, shape, shape.len(), confs).confs.len() == 0,
{
    lemma_tables_only_build(prefix, shape, shape.len(), confs, Seq::empty());
    lemma_names_round_trip(prefix, shape, confs);
}

/// Where two different paths declare locations at one host and port, and
/// every location up to the later of the two paths names a declared host, no
/// topology is made: the error is a duplicate binding.
pub proof fn lemma_duplicate_binding_fails(raw: RawView, p: Seq<char>, q: Seq<char>)
    requires
        flattened(raw).error is None,
        p != q,
        find(flattened(raw).confs, p) matches Some(c) && find(flattened(raw).confs, q) matches Some(
            d,
        ) && location_of(c) matches Some(l) && claims(d, l),
        hosts_known(
            flattened(raw).confs,
            raw.hosts,
            if lex_less(p, q) {
                position(flattened(raw).confs, q) + 1
            } else {
                position(flattened(raw).confs, p) + 1
            },
        ),
    ensures
        assemble(raw) matches Err(e) && e.error is DuplicateBinding,
{
    let confs = flattened(raw).confs;
    lemma_flattened_increasing(raw);
    lemma_position_splits(confs, p);
    lemma_position_splits(confs, q);
    let i = position(confs, p);
    let j = position(confs, q);
    if i < j {
        lemma_lex_less_asymmetric(confs[i].0, confs[j].0);
        assert(collide(confs, i, j));
        lemma_check_finds_duplicate(confs, raw.hosts, i, j);
    } else {
        assert(lex_less(confs[j].0, confs[i].0));
        lemma_lex_less_asymmetric(confs[j].0, confs[i].0);
        assert(collide(confs, j, i));
        lemma_check_finds_duplicate(confs, raw.hosts, j, i);
    }
}

/// A topology is made exactly if the configuration section can be
/// flattened, every location names a declared host, no two paths declare
/// locations at one host and port, and the shape can be built.
pub proof fn lemma_construction_succeeds_iff(raw: RawView)
    ensures
        assemble(raw) is Ok <==> flattened(raw).error is None && hosts_known(
            flattened(raw).confs,
            raw.hosts,
            flattened(raw).confs.len() as int,
        ) && bindings_distinct(flattened(raw).confs, flattened(raw).confs.len() as int) && build(
            None,
            raw.root,
            raw.root.len(),
            flattened(raw).confs,
        ).error is None,
{
    lemma_check_passes_iff(flattened(raw).confs, raw.hosts);
}

/// Where a path declares a location at a host that is not declared, and no
/// two paths before it declare locations at one host and port, no topology is
/// made: the error is an unknown host.
pub proof fn lemma_unknown_host_fails(raw: RawView, p: Seq<char>)
    requires
        flattened(raw).error is None,
        find(flattened(raw).confs, p) matches Some(c) && location_of(c) matches Some(l) && find(
            raw.hosts,
            l.host,
        ) is None,
        bindings_distinct(flattened(raw).confs, position(flattened(raw).confs, p)),
    ensures
        assemble(raw) matches Err(e) && e.error is UnknownHost,
{
    let confs = flattened(raw).confs;
    lemma_position_splits(confs, p);
    lemma_check_finds_unknown_host(confs, raw.hosts, position(confs, p));
}

/// A group that was built is one node: it has the group's path as its name
/// and the scope as its parent, it carries the configuration that stood
/// under its own path, and its children are the leaves of its items, one for
/// each and in their order.
pub proof fn lemma_group_node(
    prefix: Option<Seq<char>>,
    name: Seq<char>,
    items: Seq<ValueView>,
    confs: Confs,
)
    requires
        increasing(confs),
        build_entry(prefix, name, ValueView::Array(items), confs).error is None,
    ensures
        ({
            let b = build_entry(prefix, name, ValueView::Array(items), confs);
            let group = join(prefix, name);
            &&& b.nodes.len() == 1
            &&& b.nodes[0].name == Some(group)
            &&& b.nodes[0].parent == prefix
            &&& find(confs, group) == Some(b.nodes[0].config)
            &&& b.nodes[0].node_type matches NodeTypeView::Node(below)
            &&& below.len() == items.len()
            &&& forall|i: int|
                0 <= i < items.len() ==> ((#[trigger] items[i]) matches ValueView::String(s)
                    && find(confs, group + seq!['.'] + s) matches Some(c) && below[i] == leaf(
                    group,
                    s,
                    c,
                ))
        }),
{
    let group = join(prefix, name);
    let l = leaves(prefix, name, items, items.len(), confs);
    lemma_leaves_take(prefix, name, items, items.len(), confs, group);
    lemma_leaves_shape(prefix, name, items, items.len(), confs, 0);
    assert forall|i: int| 0 <= i < items.len() implies ((#[trigger] items[i]) matches ValueView::String(
        s,
    ) && find(confs, group + seq!['.'] + s) matches Some(c) && l.nodes[i] == leaf(group, s, c)) by {
        lemma_leaves_shape(prefix, name, items, items.len(), confs, i);
    }
}

/// A string is known by what follows a common beginning.
proof fn lemma_same_ending(a: Seq<char>, b: Seq<char>, c: Seq<char>)
    requires
        a + b == a + c,
    ensures
        b == c,
{
    assert(b =~= (a + b).subrange(a.len() as int, (a + b).len() as int));
    assert(c =~= (a + c).subrange(a.len() as int, (a + c).len() as int));
}

/// Leaves whose names differ and whose configurations are there are built.
proof fn lemma_leaves_go_on(
    prefix: Option<Seq<char>>,
    name: Seq<char>,
    items: Seq<ValueView>,
    n: nat,
    confs: Confs,
)
    requires
        increasing(confs),
        n <= items.len(),
        forall|j: int|
            0 <= j < n ==> ((#[trigger] items[j]) matches ValueView::String(s) && find(
                confs,
                join(prefix, name) + seq!['.'] + s,
            ) is Some),
        forall|j: int, k: int| 0 <= j < k < n ==> items[j] != items[k],
    ensures
        leaves(prefix, name, items, n, confs).error is None,
    decreases n,
{
    if n > 0 {
        lemma_leaves_go_on(prefix, name, items, (n - 1) as nat, confs);
        let group = join(prefix, name);
        let s = items[n - 1]->String_0;
        let path = group + seq!['.'] + s;
        assert(items[n - 1] is String);
        lemma_leaves_take(prefix, name, items, (n - 1) as nat, confs, path);
        if items_declare(group, items, (n - 1) as nat, path) {
            let j = choose|j: int|
                0 <= j < n - 1 && j < items.len() && item_declares(group, #[trigger] items[j], path);
            lemma_same_ending(group + seq!['.'], items[j]->String_0, s);
            assert(items[j] == items[n - 1]);
        }
    }
}

/// Where the configuration of one leaf of a group is missing, and those of
/// the leaves before it are there under names that differ, the error names
/// that leaf under the group.
pub proof fn lemma_missing_leaf_is_named(
    prefix: Option<Seq<char>>,
    name: Seq<char>,
    items: Seq<ValueView>,
    confs: Confs,
    i: int,
)
    requires
        increasing(confs),
        0 <= i < items.len(),
        forall|j: int|
            0 <= j < i ==> ((#[trigger] items[j]) matches ValueView::String(s) && find(
                confs,
                join(prefix, name) + seq!['.'] + s,
            ) is Some),
        forall|j: int, k: int| 0 <= j < k < i ==> items[j] != items[k],
        items[i] matches ValueView::String(s) && find(confs, join(prefix, name) + seq!['.'] + s)
            is None,
    ensures
        build_entry(prefix, name, ValueView::Array(items), confs).error == Some(
            ErrorView {
                parent: join(prefix, name),
                name: items[i]->String_0,
                error: ErrorKindView::MissingConfig,
            },
        ),
{
    let group = join(prefix, name);
    let s = items[i]->String_0;
    lemma_leaves_go_on(prefix, name, items, i as nat, confs);
    lemma_leaves_take(prefix, name, items, i as nat, confs, group + seq!['.'] + s);
    assert(leaves(prefix, name, items, (i + 1) as nat, confs).error == Some(
        ErrorView { parent: group, name: s, error: ErrorKindView::MissingConfig },
    ));
    lemma_leaves_stop(prefix, name, items, (i + 1) as nat, items.len(), confs);
}

/// In a topology that was made, every node carries the configuration that
/// the configuration section declares under the node's name.
pub proof fn lemma_topology_carries_declared(raw: RawView, q: Seq<char>, c: RunConfView)
    requires
        assemble(raw) matches Ok(t) && node_carries(t.root, q, c),
    ensures
        find(flattened(raw).confs, q) == Some(c),
{
    let confs = flattened(raw).confs;
    let b = build(None, raw.root, raw.root.len(), confs);
    lemma_flattened_increasing(raw);
    let i = choose|i: int| 0 <= i < b.nodes.len() && node_carries(#[trigger] b.nodes[i], q, c);
    assert(node_carries(b.nodes[i], q, c));
    lemma_build_carries(None, raw.root, raw.root.len(), confs, q, c);
}

/// In a topology that was made, the host of every location in the tree is a
/// declared host.
pub proof fn lemma_topology_hosts_declared(raw: RawView, q: Seq<char>, c: RunConfView)
    requires
        assemble(raw) matches Ok(t) && node_carries(t.root, q, c),
    ensures
        assemble(raw)->Ok_0.hosts == raw.hosts,
        location_of(c) matches Some(l) ==> find(raw.hosts, l.host) is Some,
{
    let confs = flattened(raw).confs;
    lemma_topology_carries_declared(raw, q, c);
    lemma_check_passes_iff(confs, raw.hosts);
    lemma_position_splits(confs, q);
    assert(confs[position(confs, q)].1 == c);
}

/// In a topology that was made, no two nodes of different names listen at
/// one host and port.
pub proof fn lemma_topology_bindings_distinct(
    raw: RawView,
    p: Seq<char>,
    c: RunConfView,
    q: Seq<char>,
    d: RunConfView,
)
    requires
        assemble(raw) matches Ok(t) && node_carries(t.root, p, c) && node_carries(t.root, q, d),
        p != q,
    ensures
        location_of(c) matches Some(l) ==> !claims(d, l),
{
    let confs = flattened(raw).confs;
    lemma_topology_carries_declared(raw, p, c);
    lemma_topology_carries_declared(raw, q, d);
    lemma_check_passes_iff(confs, raw.hosts);
    lemma_position_splits(confs, p);
    lemma_position_splits(confs, q);
    let i = position(confs, p);
    let j = position(confs, q);
    if i < j {
        assert(!collide(confs, i, j));
    } else {
        assert(!collide(confs, j, i));
    }
}

} // verus!
