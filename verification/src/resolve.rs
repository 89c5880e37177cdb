//! Flattening the configuration section: from nested tables to one
//! configuration under each dotted path.

use vstd::prelude::*;
use vstd::string::StringExecFns;
use crate::json::json_of;
use crate::json::toml_into_json;
use crate::location::decode_location;
use crate::path::join;
use crate::path::join_path;
use crate::path::opt_text;
use crate::path::parent_text;
use crate::path::text_of;
use crate::sorted_map::SortedMap;
use crate::sorted_map::put;
use crate::sorted_map::increasing;
use crate::sorted_map::lemma_put_increasing;
use crate::topology::ConfDefect;
use crate::topology::ErrorKind;
use crate::topology::ErrorKindView;
use crate::topology::ErrorView;
use crate::topology::Location;
use crate::topology::ParseError;
use crate::topology::RunConf;
use crate::topology::RunConfView;
use crate::value::Table;
use crate::value::TableView;
use crate::value::Value;
use crate::value::ValueView;
use crate::value::lemma_view_unfolds;
use crate::value::lookup;
use crate::value::table_get;
use crate::value::table_view;

verus! {

/// The configurations by dotted path, in increasing order of the paths.
pub type Confs = Seq<(Seq<char>, RunConfView)>;

/// The error of this kind at `name` under `prefix`.
pub open spec fn fault(prefix: Option<Seq<char>>, name: Seq<char>, error: ErrorKindView) -> ErrorView {
    ErrorView { parent: text_of(prefix), name, error }
}

/// Whether `k` names a field of the node itself, not a node below it.
pub open spec fn reserved(k: Seq<char>) -> bool {
    k == "params"@ || k == "location"@
}

/// The configuration that the table `t` of the node `name` declares: its
/// parameters and its location, both of which it must have.
pub open spec fn conf_of(prefix: Option<Seq<char>>, name: Seq<char>, t: TableView) -> Result<
    RunConfView,
    ErrorView,
> {
    match (lookup(t, "params"@), lookup(t, "location"@)) {
        (Some(params), Some(location)) => match decode_location(location) {
            Ok(l) => Ok(RunConfView::Active { params: json_of(params), location: l }),
            Err(d) => Err(
                fault(
                    prefix,
                    name,
                    ErrorKindView::MissingLocationOrParams(ConfDefect::BadLocation(d)),
                ),
            ),
        },
        (Some(_), None) => Err(
            fault(prefix, name, ErrorKindView::MissingLocationOrParams(ConfDefect::NoLocation)),
        ),
        (None, Some(_)) => Err(
            fault(prefix, name, ErrorKindView::MissingLocationOrParams(ConfDefect::NoParams)),
        ),
        (None, None) => Err(
            fault(prefix, name, ErrorKindView::MissingLocationOrParams(ConfDefect::Neither)),
        ),
    }
}

/// How far flattening came: the configurations found, and the error that
/// stopped it, if one did.
pub struct Resolved {
    pub confs: Confs,
    pub error: Option<ErrorView>,
}

/// Flattening the first `n` entries of `table`, the scope of `prefix`, into
/// `acc`. Each entry is a node; in the table of a node (`nested`) the entries
/// `params` and `location` are the node's own and are passed over. The first
/// error stops it.
pub open spec fn resolve(
    prefix: Option<Seq<char>>,
    table: TableView,
    n: nat,
    nested: bool,
    acc: Confs,
) -> Resolved
    decreases table, n,
{
    if n == 0 || n > table.len() {
        Resolved { confs: acc, error: None }
    } else {
        let before = resolve(prefix, table, (n - 1) as nat, nested, acc);
        if before.error is Some || (nested && reserved(table[n - 1].0)) {
            before
        } else {
            resolve_entry(prefix, table[n - 1].0, table[n - 1].1, before.confs)
        }
    }
}

/// Flattening the node `name` of the scope of `prefix` into `acc`: `v` is a
/// table; the node's configuration goes under its path, and the rest of the
/// table is the scope below it.
pub open spec fn resolve_entry(
    prefix: Option<Seq<char>>,
    name: Seq<char>,
    v: ValueView,
    acc: Confs,
) -> Resolved
    decreases v, 0nat,
{
    match v {
        ValueView::Table(t) => match conf_of(prefix, name, t) {
            Err(e) => Resolved { confs: acc, error: Some(e) },
            Ok(c) => resolve(
                Some(join(prefix, name)),
                t,
                t.len(),
                true,
                put(acc, join(prefix, name), c),
            ),
        },
        _ => Resolved { confs: acc, error: Some(fault(prefix, name, ErrorKindView::UnexpectedValueShape)) },
    }
}

/// Once an error has stopped the flattening, further entries change nothing.
pub proof fn lemma_resolve_stops(
    prefix: Option<Seq<char>>,
    table: TableView,
    i: nat,
    n: nat,
    nested: bool,
    acc: Confs,
)
    requires
        i <= n <= table.len(),
        resolve(prefix, table, i, nested, acc).error is Some,
    ensures
        resolve(prefix, table, n, nested, acc) == resolve(prefix, table, i, nested, acc),
    decreases n - i,
{
    if i < n {
        lemma_resolve_stops(prefix, table, i, (n - 1) as nat, nested, acc);
    }
}

/// Flattening keeps the paths increasing.
pub proof fn lemma_resolve_increasing(
    prefix: Option<Seq<char>>,
    table: TableView,
    n: nat,
    nested: bool,
    acc: Confs,
)
    requires
        increasing(acc),
    ensures
        increasing(resolve(prefix, table, n, nested, acc).confs),
    decreases table, n,
{
    if n == 0 || n > table.len() {
    } else {
        lemma_resolve_increasing(prefix, table, (n - 1) as nat, nested, acc);
        let before = resolve(prefix, table, (n - 1) as nat, nested, acc);
        if before.error is Some || (nested && reserved(table[n - 1].0)) {
        } else {
            lemma_resolve_entry_increasing(prefix, table[n - 1].0, table[n - 1].1, before.confs);
        }
    }
}

/// Flattening a node keeps the paths increasing.
pub proof fn lemma_resolve_entry_increasing(
    prefix: Option<Seq<char>>,
    name: Seq<char>,
    v: ValueView,
    acc: Confs,
)
    requires
        increasing(acc),
    ensures
        increasing(resolve_entry(prefix, name, v, acc).confs),
    decreases v, 0nat,
{
    match v {
        ValueView::Table(t) => match conf_of(prefix, name, t) {
            Err(_) => {},
            Ok(c) => {
                lemma_put_increasing(acc, join(prefix, name), c);
                lemma_resolve_increasing(
                    Some(join(prefix, name)),
                    t,
                    t.len(),
                    true,
                    put(acc, join(prefix, name), c),
                );
            },
        },
        _ => {},
    }
}

/// What the outcome of a flattening holds.
pub open spec fn outcome(r: Result<(), ParseError>) -> Option<ErrorView> {
    match r {
        Ok(_) => None,
        Err(e) => Some(e@),
    }
}

fn fail(parent: &Option<String>, name: &String, error: ErrorKind) -> (e: ParseError)
    ensures
        e@ == fault(opt_text(*parent), name@, error@),
{
    ParseError { parent: parent_text(parent), name: name.clone(), error }
}

fn conf_from(parent: &Option<String>, name: &String, t: &Table) -> (r: Result<
    RunConf,
    ParseError,
>)
    ensures
        match r {
            Ok(c) => conf_of(opt_text(*parent), name@, table_view(t@)) == Ok::<
                RunConfView,
                ErrorView,
            >(c@),
            Err(e) => conf_of(opt_text(*parent), name@, table_view(t@)) == Err::<
                RunConfView,
                ErrorView,
            >(e@),
        },
{
    let params = table_get(t, &String::from_str("params"));
    let location = table_get(t, &String::from_str("location"));
    match (params, location) {
        (Some(ps), Some(loc)) => match Location::decode(loc) {
            Ok(location) => Ok(RunConf::Active { params: toml_into_json(ps), location }),
            Err(d) => Err(
                fail(parent, name, ErrorKind::MissingLocationOrParams(ConfDefect::BadLocation(d))),
            ),
        },
        (Some(_), None) => Err(
            fail(parent, name, ErrorKind::MissingLocationOrParams(ConfDefect::NoLocation)),
        ),
        (None, Some(_)) => Err(
            fail(parent, name, ErrorKind::MissingLocationOrParams(ConfDefect::NoParams)),
        ),
        (None, None) => Err(
            fail(parent, name, ErrorKind::MissingLocationOrParams(ConfDefect::Neither)),
        ),
    }
}

fn run_entry(parent: &Option<String>, name: &String, v: &Value, map: &mut SortedMap<RunConf>) -> (r:
    Result<(), ParseError>)
    ensures
        resolve_entry(opt_text(*parent), name@, v@, old(map)@) == (Resolved {
            confs: final(map)@,
            error: outcome(r),
        }),
    decreases *v, 0nat,
{
    proof {
        lemma_view_unfolds(*v);
    }
    match v {
        Value::Table(t) => {
            let conf = match conf_from(parent, name, t) {
                Ok(c) => c,
                Err(e) => {
                    return Err(e);
                },
            };
            let path = join_path(parent, name);
            map.insert(path.clone(), conf);
            let below = Some(path);
            run_scope(&below, t, true, map)
        },
        _ => Err(fail(parent, name, ErrorKind::UnexpectedValueShape)),
    }
}

fn run_scope(
    parent: &Option<String>,
    table: &Table,
    nested: bool,
    map: &mut SortedMap<RunConf>,
) -> (r: Result<(), ParseError>)
    ensures
        resolve(opt_text(*parent), table_view(table@), table@.len(), nested, old(map)@)
            == (Resolved { confs: final(map)@, error: outcome(r) }),
    decreases *table, 1nat,
{
    let params = String::from_str("params");
    let location = String::from_str("location");
    let ghost prefix = opt_text(*parent);
    let ghost tv = table_view(table@);
    let ghost acc = map@;
    let mut i: usize = 0;
    while i < table.len()
        invariant
            i <= table.len(),
            prefix == opt_text(*parent),
            tv == table_view(table@),
            acc == old(map)@,
            params@ == "params"@,
            location@ == "location"@,
            resolve(prefix, tv, i as nat, nested, acc) == (Resolved { confs: map@, error: None }),
        decreases table.len() - i,
    {
        if nested && (table[i].0 == params || table[i].0 == location) {
        } else {
            proof {
                assert(decreases_to!(*table => table@[i as int].1));
            }
            match run_entry(parent, &table[i].0, &table[i].1, map) {
                Ok(_) => {},
                Err(e) => {
                    proof {
                        lemma_resolve_stops(prefix, tv, (i + 1) as nat, tv.len(), nested, acc);
                    }
                    return Err(e);
                },
            }
        }
        i += 1;
    }
    Ok(())
}

/// Flattens the configuration section: each entry of `table` is a node named
/// by its key under `parent`, and so is each entry of a node's table but its
/// `params` and `location`. Puts the configuration of each node into `map`
/// under the node's dotted path, and stops at the first error.
pub fn run_conf(parent: &Option<String>, table: &Table, map: &mut SortedMap<RunConf>) -> (r: Result<
    (),
    ParseError,
>)
    ensures
        resolve(opt_text(*parent), table_view(table@), table@.len(), false, old(map)@)
            == (Resolved { confs: final(map)@, error: outcome(r) }),
{
    run_scope(parent, table, false, map)
}

} // verus!
