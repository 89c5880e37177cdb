//! Checking the locations of the configurations: each names a declared
//! host, and no two share a host and port.

use vstd::prelude::*;
use vstd::string::StringExecFns;
use crate::resolve::Confs;
use crate::resolve::outcome;
use crate::sorted_map::SortedMap;
use crate::sorted_map::find;
use crate::topology::ErrorKind;
use crate::topology::ErrorKindView;
use crate::topology::ErrorView;
use crate::topology::Host;
use crate::topology::HostView;
use crate::topology::Location;
use crate::topology::LocationView;
use crate::topology::ParseError;
use crate::topology::RunConf;
use crate::topology::RunConfView;
use crate::topology::location_of;

verus! {

/// The hosts by alias, in increasing order of the aliases.
pub type Hosts = Seq<(Seq<char>, HostView)>;

/// Whether the configuration `c` declares a location at the host and port
/// of `l`.
pub open spec fn claims(c: RunConfView, l: LocationView) -> bool {
    location_of(c) matches Some(m) && m.host == l.host && m.port == l.port
}

/// The first entry from `j` up to `i` that claims the host and port of `l`.
pub open spec fn owner_from(confs: Confs, l: LocationView, j: int, i: int) -> Option<int>
    decreases i - j,
{
    if j < 0 || j >= i || j >= confs.len() {
        None
    } else if claims(confs[j].1, l) {
        Some(j)
    } else {
        owner_from(confs, l, j + 1, i)
    }
}

/// The error of this kind at the path `name`.
pub open spec fn config_fault(name: Seq<char>, error: ErrorKindView) -> ErrorView {
    ErrorView { parent: "config"@, name, error }
}

/// What is wrong with the entry at `i`, given the entries before it: its
/// location names no host of `hosts`, or else an entry before it claims the
/// same host and port, of which the first is named.
pub open spec fn fault_at(confs: Confs, hosts: Hosts, i: int) -> Option<ErrorView> {
    match location_of(confs[i].1) {
        None => None,
        Some(l) => if find(hosts, l.host) is None {
            Some(config_fault(confs[i].0, ErrorKindView::UnknownHost { alias: l.host }))
        } else {
            match owner_from(confs, l, 0, i) {
                None => None,
                Some(j) => Some(
                    config_fault(
                        confs[i].0,
                        ErrorKindView::DuplicateBinding {
                            first: confs[j].0,
                            host: l.host,
                            port: l.port,
                        },
                    ),
                ),
            }
        },
    }
}

/// What is wrong with the first entry from `i` on with which something is.
pub open spec fn first_fault(confs: Confs, hosts: Hosts, i: int) -> Option<ErrorView>
    decreases confs.len() - i,
{
    if i < 0 || i >= confs.len() {
        None
    } else {
        match fault_at(confs, hosts, i) {
            Some(e) => Some(e),
            None => first_fault(confs, hosts, i + 1),
        }
    }
}

/// What is wrong with the locations of `confs`, walked by increasing path:
/// the fault of the first entry that has one.
pub open spec fn check(confs: Confs, hosts: Hosts) -> Option<ErrorView> {
    first_fault(confs, hosts, 0)
}

/// Every location of the entries of `confs` before `n` names a host of
/// `hosts`.
pub open spec fn hosts_known(confs: Confs, hosts: Hosts, n: int) -> bool {
    forall|i: int|
        0 <= i < n && i < confs.len() ==> (location_of((#[trigger] confs[i]).1) matches Some(l)
            ==> find(hosts, l.host) is Some)
}

/// Whether the entries at `a` and `b` declare locations at one host and
/// port.
pub open spec fn collide(confs: Confs, a: int, b: int) -> bool {
    location_of(confs[a].1) matches Some(l) && claims(confs[b].1, l)
}

/// No two entries of `confs` before `n` declare locations at one host and
/// port.
pub open spec fn bindings_distinct(confs: Confs, n: int) -> bool {
    forall|a: int, b: int| 0 <= a < b < n && b < confs.len() ==> !#[trigger] collide(confs, a, b)
}

/// The owner found is an entry in range that claims the host and port.
pub proof fn lemma_owner_claims(confs: Confs, l: LocationView, j: int, i: int)
    ensures
        owner_from(confs, l, j, i) matches Some(o) ==> 0 <= j <= o < i && o < confs.len() && claims(
            confs[o].1,
            l,
        ),
    decreases i - j,
{
    if !(j < 0 || j >= i || j >= confs.len()) && !claims(confs[j].1, l) {
        lemma_owner_claims(confs, l, j + 1, i);
    }
}

/// Where an entry from `j` up to `i` claims the host and port, an owner is
/// found, and none comes before it.
pub proof fn lemma_owner_found(confs: Confs, l: LocationView, j: int, i: int, w: int)
    requires
        0 <= j <= w < i,
        w < confs.len(),
        claims(confs[w].1, l),
    ensures
        owner_from(confs, l, j, i) matches Some(o) && j <= o <= w,
    decreases w - j,
{
    if !claims(confs[j].1, l) {
        lemma_owner_found(confs, l, j + 1, i, w);
    }
}

/// Where checking from `k` on finds nothing, no entry from `k` on has a
/// fault.
pub proof fn lemma_fault_free(confs: Confs, hosts: Hosts, k: int, n: int)
    requires
        0 <= k <= n < confs.len(),
        first_fault(confs, hosts, k) is None,
    ensures
        fault_at(confs, hosts, n) is None,
    decreases n - k,
{
    if k < n {
        lemma_fault_free(confs, hosts, k + 1, n);
    }
}

/// Where an entry from `k` on has a fault, checking from `k` on finds one.
pub proof fn lemma_fault_found(confs: Confs, hosts: Hosts, k: int, n: int)
    requires
        0 <= k <= n < confs.len(),
        fault_at(confs, hosts, n) is Some,
    ensures
        first_fault(confs, hosts, k) is Some,
    decreases n - k,
{
    if k < n && fault_at(confs, hosts, k) is None {
        lemma_fault_found(confs, hosts, k + 1, n);
    }
}

/// An entry has no fault exactly if it declares no location, or one at a
/// known host that collides with no entry before it.
pub proof fn lemma_fault_at_none(confs: Confs, hosts: Hosts, n: int)
    requires
        0 <= n < confs.len(),
    ensures
        fault_at(confs, hosts, n) is None <==> (location_of(confs[n].1) matches Some(l) ==> find(
            hosts,
            l.host,
        ) is Some && forall|a: int| 0 <= a < n ==> !#[trigger] collide(confs, a, n)),
{
    match location_of(confs[n].1) {
        None => {},
        Some(l) => {
            lemma_owner_claims(confs, l, 0, n);
            if owner_from(confs, l, 0, n) is None {
                assert forall|a: int| 0 <= a < n implies !#[trigger] collide(confs, a, n) by {
                    if collide(confs, a, n) {
                        lemma_owner_found(confs, l, 0, n, a);
                    }
                }
            } else {
                let o = owner_from(confs, l, 0, n)->0;
                assert(collide(confs, o, n));
            }
        },
    }
}

/// Checking passes exactly if every location names a known host and no two
/// entries declare locations at one host and port.
pub proof fn lemma_check_passes_iff(confs: Confs, hosts: Hosts)
    ensures
        check(confs, hosts) is None <==> hosts_known(confs, hosts, confs.len() as int)
            && bindings_distinct(confs, confs.len() as int),
{
    if check(confs, hosts) is None {
        assert forall|n: int| 0 <= n < confs.len() implies (location_of(
            (#[trigger] confs[n]).1,
        ) matches Some(l) ==> find(hosts, l.host) is Some) by {
            lemma_fault_free(confs, hosts, 0, n);
            lemma_fault_at_none(confs, hosts, n);
        }
        assert forall|a: int, b: int| 0 <= a < b < confs.len() implies !#[trigger] collide(
            confs,
            a,
            b,
        ) by {
            lemma_fault_free(confs, hosts, 0, b);
            lemma_fault_at_none(confs, hosts, b);
        }
    } else {
        lemma_first_fault_is_a_fault(confs, hosts, 0);
        let n = choose|n: int|
            0 <= n < confs.len() && fault_at(confs, hosts, n) == first_fault(confs, hosts, 0);
        lemma_fault_at_none(confs, hosts, n);
        if hosts_known(confs, hosts, confs.len() as int) {
            assert(location_of(confs[n].1) is Some);
            let a = choose|a: int| 0 <= a < n && #[trigger] collide(confs, a, n);
            assert(collide(confs, a, n));
        }
    }
}

/// What checking from `k` on finds is the fault of an entry from `k` on
/// before which, from `k` on, no entry has a fault.
pub proof fn lemma_first_fault_is_a_fault(confs: Confs, hosts: Hosts, k: int)
    requires
        0 <= k,
        first_fault(confs, hosts, k) is Some,
    ensures
        exists|n: int|
            k <= n < confs.len() && fault_at(confs, hosts, n) == first_fault(confs, hosts, k)
                && forall|m: int| k <= m < n ==> fault_at(confs, hosts, m) is None,
    decreases confs.len() - k,
{
    if fault_at(confs, hosts, k) is None {
        lemma_first_fault_is_a_fault(confs, hosts, k + 1);
        let n = choose|n: int|
            k + 1 <= n < confs.len() && fault_at(confs, hosts, n) == first_fault(confs, hosts, k + 1)
                && forall|m: int| k + 1 <= m < n ==> fault_at(confs, hosts, m) is None;
        assert(k <= n < confs.len() && fault_at(confs, hosts, n) == first_fault(confs, hosts, k)
            && forall|m: int| k <= m < n ==> fault_at(confs, hosts, m) is None);
    } else {
        assert(k <= k < confs.len() && fault_at(confs, hosts, k) == first_fault(confs, hosts, k)
            && forall|m: int| k <= m < k ==> fault_at(confs, hosts, m) is None);
    }
}

/// Where two entries declare locations at one host and port, and every
/// location up to the later of them names a known host, checking fails with
/// a duplicate binding.
pub proof fn lemma_check_finds_duplicate(confs: Confs, hosts: Hosts, a: int, b: int)
    requires
        0 <= a < b < confs.len(),
        collide(confs, a, b),
        hosts_known(confs, hosts, b + 1),
    ensures
        check(confs, hosts) matches Some(e) && e.error is DuplicateBinding,
{
    lemma_fault_at_none(confs, hosts, b);
    lemma_fault_found(confs, hosts, 0, b);
    lemma_first_fault_is_a_fault(confs, hosts, 0);
    let n = choose|n: int|
        0 <= n < confs.len() && fault_at(confs, hosts, n) == first_fault(confs, hosts, 0)
            && forall|m: int| 0 <= m < n ==> fault_at(confs, hosts, m) is None;
    assert(fault_at(confs, hosts, b) is Some);
    assert(n <= b);
    assert(location_of(confs[n].1) is Some);
}

/// Where the entry at `u` names an unknown host, and no two entries before
/// it declare locations at one host and port, checking fails with an unknown
/// host.
pub proof fn lemma_check_finds_unknown_host(confs: Confs, hosts: Hosts, u: int)
    requires
        0 <= u < confs.len(),
        location_of(confs[u].1) matches Some(l) && find(hosts, l.host) is None,
        bindings_distinct(confs, u),
    ensures
        check(confs, hosts) matches Some(e) && e.error is UnknownHost,
{
    lemma_fault_found(confs, hosts, 0, u);
    lemma_first_fault_is_a_fault(confs, hosts, 0);
    let n = choose|n: int|
        0 <= n < confs.len() && fault_at(confs, hosts, n) == first_fault(confs, hosts, 0)
            && forall|m: int| 0 <= m < n ==> fault_at(confs, hosts, m) is None;
    assert(fault_at(confs, hosts, u) is Some);
    assert(n <= u);
    if n < u {
        lemma_fault_at_none(confs, hosts, n);
        if location_of(confs[n].1) matches Some(l) && find(hosts, l.host) is Some {
            let a = choose|a: int| 0 <= a < n && #[trigger] collide(confs, a, n);
            assert(collide(confs, a, n));
        }
    }
}

/// What an optional location holds.
pub open spec fn opt_location(l: Option<&Location>) -> Option<LocationView> {
    match l {
        None => None,
        Some(x) => Some(x@),
    }
}

impl RunConf {
    /// The location that this configuration declares.
    pub fn location(&self) -> (l: Option<&Location>)
        ensures
            opt_location(l) == location_of(self@),
    {
        match self {
            RunConf::Absent => None,
            RunConf::Active { params, location } => Some(location),
            RunConf::Passive { location } => Some(location),
        }
    }
}

/// The first entry before `i` that claims the host and port of `l`.
fn first_owner<'a>(confs: &'a SortedMap<RunConf>, l: &Location, i: usize) -> (r: Option<&'a String>)
    requires
        i <= confs@.len(),
    ensures
        match r {
            None => owner_from(confs@, l@, 0, i as int) is None,
            Some(p) => owner_from(confs@, l@, 0, i as int) matches Some(j) && confs@[j].0 == p@,
        },
{
    let mut j: usize = 0;
    while j < i
        invariant
            j <= i <= confs@.len(),
            owner_from(confs@, l@, 0, i as int) == owner_from(confs@, l@, j as int, i as int),
        decreases i - j,
    {
        match confs.entry(j) {
            Some((path, conf)) => {
                match conf.location() {
                    Some(m) => {
                        if m.host == l.host && m.port == l.port {
                            return Some(path);
                        }
                    },
                    None => {},
                }
            },
            None => {},
        }
        j += 1;
    }
    None
}

fn config_fail(name: &String, error: ErrorKind) -> (e: ParseError)
    ensures
        e@ == config_fault(name@, error@),
{
    ParseError { parent: String::from_str("config"), name: name.clone(), error }
}

/// What is wrong with the entry at `i`.
fn entry_fault(confs: &SortedMap<RunConf>, hosts: &SortedMap<Host>, i: usize) -> (r: Result<
    (),
    ParseError,
>)
    requires
        i < confs@.len(),
    ensures
        outcome(r) == fault_at(confs@, hosts@, i as int),
{
    match confs.entry(i) {
        Some((path, conf)) => {
            match conf.location() {
                None => Ok(()),
                Some(l) => {
                    if !hosts.contains_key(l.host.as_str()) {
                        Err(config_fail(path, ErrorKind::UnknownHost { alias: l.host.clone() }))
                    } else {
                        match first_owner(confs, l, i) {
                            None => Ok(()),
                            Some(first) => Err(
                                config_fail(
                                    path,
                                    ErrorKind::DuplicateBinding {
                                        first: first.clone(),
                                        host: l.host.clone(),
                                        port: l.port,
                                    },
                                ),
                            ),
                        }
                    }
                },
            }
        },
        None => Ok(()),
    }
}

/// Checks the locations of `confs` by increasing path, and stops at the
/// first entry whose host is unknown or whose host and port an entry before
/// it has claimed.
pub fn check_locations(confs: &SortedMap<RunConf>, hosts: &SortedMap<Host>) -> (r: Result<
    (),
    ParseError,
>)
    ensures
        outcome(r) == check(confs@, hosts@),
{
    let n = confs.len();
    let mut i: usize = 0;
    while i < n
        invariant
            i <= n == confs@.len(),
            check(confs@, hosts@) == first_fault(confs@, hosts@, i as int),
        decreases n - i,
    {
        match entry_fault(confs, hosts, i) {
            Ok(_) => {},
            Err(e) => {
                return Err(e);
            },
        }
        i += 1;
    }
    Ok(())
}

} // verus!
