use universum::json::{Json, Number};
use universum::sorted_map::SortedMap;
use universum::topology::{
    ConfDefect, ErrorKind, Host, Location, LocationDefect, ParseError, Publicity, RawTopology,
    RunConf, Topology, TopologyNode, TopologyNodeType,
};
use universum::value::{Date, Datetime, Offset, Time, Value};

fn example() -> &'static str {
    "# Hosts

[hosts]
r1 = { host = \"r1.local\", port = 25000 }
r2 = { host = \"r2.local\", port = 25000 }


# Topology

[root]
r1 = [\"d-a\", \"s-2\"]

[root.r2]
d = []
s = [\"s-1\", \"s-2\", \"s-3\"]




# Soft specific data

[config.r1]
params = { mode = \"p\", cache = true }
location = { host = \"r1\", port = 25100, publicity = \"internal\"}

[config.r1.d-a]
params = { mode = \"d\", data = [ \"data1\" ] }
location = { host = \"r1\", port = 25101, publicity = \"local\" }

[config.r1.s-2]
params = { mode = \"s\", data = [ \"data2\", \"data3\"] }
location = { host = \"r1\", port = 25102 }

[config.r2]
params = { mode = \"p\", cache = true }
location = { host = \"r2\", port = 25100, publicity = \"internal\"}

[config.r2.d]
params = { mode = \"p\" }
location = { host = \"r2\", port = 25200, publicity = \"internal\"}

[config.r2.s]
params = { mode = \"p\" }
location = { host = \"r2\", port = 25201, publicity = \"internal\"}

[config.r2.s.s-1]
params = { mode = \"s\", data = [ \"data1\" ] }
location = { host = \"r2\", port = 25101, publicity = \"local\" }

[config.r2.s.s-2]
params = { mode = \"s\", data = [ \"data2\" ] }
location = { host = \"r2\", port = 25102, publicity = \"local\" }

[config.r2.s.s-3]
params = { mode = \"s\", data = [ \"data3\" ] }
location = { host = \"r2\", port = 25103, publicity = \"local\" }
"
}

fn datetime_of(d: toml::value::Datetime) -> Datetime {
    let date = d.date.map(|x| Date { year: x.year, month: x.month, day: x.day });
    let time = d.time.map(|x| Time {
        hour: x.hour,
        minute: x.minute,
        second: x.second,
        nanosecond: x.nanosecond,
    });
    let offset = d.offset.map(|x| match x {
        toml::value::Offset::Z => Offset::Z,
        toml::value::Offset::Custom { minutes } => Offset::Custom { minutes },
    });
    Datetime::new(date, time, offset).unwrap()
}

fn value_of(v: toml::Value) -> Value {
    match v {
        toml::Value::String(s) => Value::String(s),
        toml::Value::Integer(i) => Value::Integer(i),
        toml::Value::Float(f) => Value::Float(f.to_bits()),
        toml::Value::Boolean(b) => Value::Boolean(b),
        toml::Value::Datetime(d) => Value::Datetime(datetime_of(d)),
        toml::Value::Array(a) => Value::Array(a.into_iter().map(value_of).collect()),
        toml::Value::Table(t) => Value::Table(table_of(t)),
    }
}

fn table_of(t: toml::Table) -> Vec<(String, Value)> {
    t.into_iter().map(|(k, v)| (k, value_of(v))).collect()
}

fn raw_of(text: &str) -> RawTopology {
    let mut doc: toml::Table = toml::from_str(text).unwrap();
    let mut hosts = SortedMap::new();
    if let Some(toml::Value::Table(t)) = doc.remove("hosts") {
        for (alias, h) in t {
            let host = h.get("host").unwrap().as_str().unwrap().to_string();
            let port = h.get("port").unwrap().as_integer().unwrap() as u16;
            hosts.insert(alias, Host { host, port });
        }
    }
    let root = match doc.remove("root") {
        Some(toml::Value::Table(t)) => table_of(t),
        _ => Vec::new(),
    };
    let config = match doc.remove("config") {
        Some(toml::Value::Table(t)) => table_of(t),
        _ => Vec::new(),
    };
    RawTopology { hosts, root, config }
}

fn build(text: &str) -> Result<Topology, ParseError> {
    Topology::try_from(raw_of(text))
}

fn hosts_of(s: Vec<(&str, &str, u16)>) -> SortedMap<Host> {
    let mut hosts = SortedMap::new();
    for (alias, host, port) in s {
        hosts.insert(alias.to_string(), Host { host: host.to_string(), port });
    }
    hosts
}

fn vec_into_table(s: Vec<(&str, Value)>) -> Vec<(String, Value)> {
    s.into_iter().map(|(s, v)| (s.to_string(), v)).collect()
}

fn strs_into_array(s: &[&str]) -> Value {
    Value::Array(s.iter().map(|s| Value::String(s.to_string())).collect())
}

fn location(host: &str, port: i64, publicity: Option<&str>) -> Value {
    Value::Table(vec_into_table(match publicity {
        Some(publicity) => vec![
            ("host", Value::String(host.to_string())),
            ("port", Value::Integer(port)),
            ("publicity", Value::String(publicity.to_string())),
        ],
        None => vec![
            ("host", Value::String(host.to_string())),
            ("port", Value::Integer(port)),
        ],
    }))
}

fn params_p(cache: Option<bool>) -> Value {
    Value::Table(vec_into_table(match cache {
        Some(cache) => vec![
            ("cache", Value::Boolean(cache)),
            ("mode", Value::String("p".to_string())),
        ],
        None => vec![("mode", Value::String("p".to_string()))],
    }))
}

fn params_ds(mode: &str, data: &[&str]) -> Value {
    Value::Table(vec_into_table(vec![
        (
            "data",
            Value::Array(data.iter().map(|v| Value::String(v.to_string())).collect()),
        ),
        ("mode", Value::String(mode.to_string())),
    ]))
}

fn json_p(cache: Option<bool>) -> Json {
    let mut members = Vec::new();
    if let Some(c) = cache {
        members.push(("cache".to_string(), Json::Bool(c)));
    }
    members.push(("mode".to_string(), Json::String("p".to_string())));
    Json::Object(members)
}

fn json_ds(mode: &str, data: &[&str]) -> Json {
    Json::Object(vec![
        (
            "data".to_string(),
            Json::Array(data.iter().map(|d| Json::String(d.to_string())).collect()),
        ),
        ("mode".to_string(), Json::String(mode.to_string())),
    ])
}

fn active(params: Json, host: &str, port: u16, publicity: Option<Publicity>) -> RunConf {
    RunConf::Active {
        params,
        location: Location { host: host.to_string(), port, publicity },
    }
}

fn node(name: &str, parent: Option<&str>, config: RunConf, node_type: TopologyNodeType) -> TopologyNode {
    TopologyNode {
        name: Some(name.to_string()),
        parent: parent.map(|p| p.to_string()),
        config,
        node_type,
    }
}

fn conf(host: &str, port: i64) -> Value {
    Value::Table(vec_into_table(vec![
        ("location", location(host, port, None)),
        ("params", params_p(None)),
    ]))
}

fn conf_with(host: &str, port: i64, below: Vec<(&str, Value)>) -> Value {
    let mut t = vec_into_table(vec![
        ("location", location(host, port, None)),
        ("params", params_p(None)),
    ]);
    t.extend(vec_into_table(below));
    Value::Table(t)
}

fn two_hosts() -> SortedMap<Host> {
    hosts_of(vec![("r1", "r1.local", 25000), ("r2", "r2.local", 25000)])
}

#[test]
fn toml_topology() {
    let t = raw_of(example());

    let r = RawTopology {
        hosts: hosts_of(vec![("r1", "r1.local", 25000), ("r2", "r2.local", 25000)]),
        root: vec_into_table(vec![
            ("r1", strs_into_array(&["d-a", "s-2"])),
            (
                "r2",
                Value::Table(vec_into_table(vec![
                    ("d", strs_into_array(&[])),
                    ("s", strs_into_array(&["s-1", "s-2", "s-3"])),
                ])),
            ),
        ]),
        config: vec_into_table(vec![
            (
                "r1",
                Value::Table(vec_into_table(vec![
                    (
                        "d-a",
                        Value::Table(vec_into_table(vec![
                            ("location", location("r1", 25101, Some("local"))),
                            ("params", params_ds("d", &["data1"])),
                        ])),
                    ),
                    ("location", location("r1", 25100, Some("internal"))),
                    ("params", params_p(Some(true))),
                    (
                        "s-2",
                        Value::Table(vec_into_table(vec![
                            ("location", location("r1", 25102, None)),
                            ("params", params_ds("s", &["data2", "data3"])),
                        ])),
                    ),
                ])),
            ),
            (
                "r2",
                Value::Table(vec_into_table(vec![
                    (
                        "d",
                        Value::Table(vec_into_table(vec![
                            ("location", location("r2", 25200, Some("internal"))),
                            ("params", params_p(None)),
                        ])),
                    ),
                    ("location", location("r2", 25100, Some("internal"))),
                    ("params", params_p(Some(true))),
                    (
                        "s",
                        Value::Table(vec_into_table(vec![
                            ("location", location("r2", 25201, Some("internal"))),
                            ("params", params_p(None)),
                            (
                                "s-1",
                                Value::Table(vec_into_table(vec![
                                    ("location", location("r2", 25101, Some("local"))),
                                    ("params", params_ds("s", &["data1"])),
                                ])),
                            ),
                            (
                                "s-2",
                                Value::Table(vec_into_table(vec![
                                    ("location", location("r2", 25102, Some("local"))),
                                    ("params", params_ds("s", &["data2"])),
                                ])),
                            ),
                            (
                                "s-3",
                                Value::Table(vec_into_table(vec![
                                    ("location", location("r2", 25103, Some("local"))),
                                    ("params", params_ds("s", &["data3"])),
                                ])),
                            ),
                        ])),
                    ),
                ])),
            ),
        ]),
    };

    assert_eq!(t, r);
}

#[test]
fn topology_basic() {
    let t: Topology = build(example()).unwrap();

    let r = Topology {
        hosts: hosts_of(vec![("r1", "r1.local", 25000), ("r2", "r2.local", 25000)]),
        root: TopologyNode {
            name: None,
            parent: None,
            config: RunConf::Absent,
            node_type: TopologyNodeType::Node(vec![
                node(
                    "r1",
                    None,
                    active(json_p(Some(true)), "r1", 25100, Some(Publicity::Internal)),
                    TopologyNodeType::Node(vec![
                        node(
                            "r1.d-a",
                            Some("r1"),
                            active(json_ds("d", &["data1"]), "r1", 25101, Some(Publicity::Local)),
                            TopologyNodeType::Terminal,
                        ),
                        node(
                            "r1.s-2",
                            Some("r1"),
                            active(json_ds("s", &["data2", "data3"]), "r1", 25102, None),
                            TopologyNodeType::Terminal,
                        ),
                    ]),
                ),
                node(
                    "r2.d",
                    Some("r2"),
                    active(json_p(None), "r2", 25200, Some(Publicity::Internal)),
                    TopologyNodeType::Node(vec![]),
                ),
                node(
                    "r2.s",
                    Some("r2"),
                    active(json_p(None), "r2", 25201, Some(Publicity::Internal)),
                    TopologyNodeType::Node(vec![
                        node(
                            "r2.s.s-1",
                            Some("r2.s"),
                            active(json_ds("s", &["data1"]), "r2", 25101, Some(Publicity::Local)),
                            TopologyNodeType::Terminal,
                        ),
                        node(
                            "r2.s.s-2",
                            Some("r2.s"),
                            active(json_ds("s", &["data2"]), "r2", 25102, Some(Publicity::Local)),
                            TopologyNodeType::Terminal,
                        ),
                        node(
                            "r2.s.s-3",
                            Some("r2.s"),
                            active(json_ds("s", &["data3"]), "r2", 25103, Some(Publicity::Local)),
                            TopologyNodeType::Terminal,
                        ),
                    ]),
                ),
            ]),
        },
    };

    assert_eq!(t, r);
}

#[test]
fn end_to_end_one_group() {
    let raw = RawTopology {
        hosts: two_hosts(),
        root: vec_into_table(vec![("r1", strs_into_array(&["d-a", "s-2"]))]),
        config: vec_into_table(vec![(
            "r1",
            conf_with("r1", 25100, vec![("d-a", conf("r1", 25101)), ("s-2", conf("r1", 25102))]),
        )]),
    };
    let t = Topology::try_from(raw).unwrap();
    assert_eq!(t.hosts, two_hosts());
    assert_eq!(t.root.name, None);
    assert_eq!(t.root.parent, None);
    assert_eq!(t.root.config, RunConf::Absent);
    let top = match &t.root.node_type {
        TopologyNodeType::Node(c) => c,
        TopologyNodeType::Terminal => panic!("the root has children"),
    };
    assert_eq!(top.len(), 1);
    assert_eq!(top[0].name, Some("r1".to_string()));
    assert_eq!(top[0].parent, None);
    assert_eq!(top[0].config, active(json_p(None), "r1", 25100, None));
    let leaves = match &top[0].node_type {
        TopologyNodeType::Node(c) => c,
        TopologyNodeType::Terminal => panic!("a group has children"),
    };
    assert_eq!(leaves.len(), 2);
    assert_eq!(leaves[0].name, Some("r1.d-a".to_string()));
    assert_eq!(leaves[0].parent, Some("r1".to_string()));
    assert_eq!(leaves[0].node_type, TopologyNodeType::Terminal);
    assert_eq!(leaves[0].config, active(json_p(None), "r1", 25101, None));
    assert_eq!(leaves[1].name, Some("r1.s-2".to_string()));
    assert_eq!(leaves[1].parent, Some("r1".to_string()));
    assert_eq!(leaves[1].node_type, TopologyNodeType::Terminal);
    assert_eq!(leaves[1].config, active(json_p(None), "r1", 25102, None));
}

#[test]
fn group_under_a_prefix_has_both_roles() {
    let raw = RawTopology {
        hosts: two_hosts(),
        root: vec_into_table(vec![(
            "p",
            Value::Table(vec_into_table(vec![("g", strs_into_array(&["a", "b"]))])),
        )]),
        config: vec_into_table(vec![(
            "p",
            conf_with(
                "r1",
                1,
                vec![("g", conf_with("r1", 2, vec![("a", conf("r1", 3)), ("b", conf("r2", 3))]))],
            ),
        )]),
    };
    let t = Topology::try_from(raw).unwrap();
    assert_eq!(
        t.root.node_type,
        TopologyNodeType::Node(vec![node(
            "p.g",
            Some("p"),
            active(json_p(None), "r1", 2, None),
            TopologyNodeType::Node(vec![
                node("p.g.a", Some("p.g"), active(json_p(None), "r1", 3, None), TopologyNodeType::Terminal),
                node("p.g.b", Some("p.g"), active(json_p(None), "r2", 3, None), TopologyNodeType::Terminal),
            ]),
        )])
    );
}

#[test]
fn shape_of_tables_alone_builds_no_node() {
    let raw = RawTopology {
        hosts: two_hosts(),
        root: vec_into_table(vec![(
            "a",
            Value::Table(vec_into_table(vec![("b", Value::Table(Vec::new()))])),
        )]),
        config: Vec::new(),
    };
    let t = Topology::try_from(raw).unwrap();
    assert_eq!(t.root.node_type, TopologyNodeType::Node(vec![]));
}

#[test]
fn unused_configurations_are_no_error() {
    let raw = RawTopology {
        hosts: two_hosts(),
        root: vec_into_table(vec![("r1", strs_into_array(&[]))]),
        config: vec_into_table(vec![("r1", conf("r1", 1)), ("r9", conf("r2", 1))]),
    };
    let t = Topology::try_from(raw).unwrap();
    assert_eq!(
        t.root.node_type,
        TopologyNodeType::Node(vec![node(
            "r1",
            None,
            active(json_p(None), "r1", 1, None),
            TopologyNodeType::Node(vec![]),
        )])
    );
}

fn error_of(raw: RawTopology) -> ParseError {
    match Topology::try_from(raw) {
        Ok(t) => panic!("unexpected topology: {:?}", t),
        Err(e) => e,
    }
}

#[test]
fn duplicate_binding_is_found_and_a_changed_port_mends_it() {
    let doc = |port: i64| RawTopology {
        hosts: two_hosts(),
        root: vec_into_table(vec![("r1", strs_into_array(&["a", "b"]))]),
        config: vec_into_table(vec![(
            "r1",
            conf_with("r1", 1, vec![("a", conf("r2", 7)), ("b", conf("r2", port))]),
        )]),
    };
    assert_eq!(
        error_of(doc(7)),
        ParseError {
            parent: "config".to_string(),
            name: "r1.b".to_string(),
            error: ErrorKind::DuplicateBinding {
                first: "r1.a".to_string(),
                host: "r2".to_string(),
                port: 7,
            },
        }
    );
    assert!(Topology::try_from(doc(8)).is_ok());
}

#[test]
fn same_port_on_two_hosts_is_no_duplicate() {
    let raw = RawTopology {
        hosts: two_hosts(),
        root: Vec::new(),
        config: vec_into_table(vec![("a", conf("r1", 7)), ("b", conf("r2", 7))]),
    };
    assert!(Topology::try_from(raw).is_ok());
}

#[test]
fn unknown_host_is_found_at_any_depth() {
    let raw = RawTopology {
        hosts: two_hosts(),
        root: Vec::new(),
        config: vec_into_table(vec![(
            "a",
            conf_with("r1", 1, vec![("b", conf_with("r2", 1, vec![("c", conf("r3", 1))]))]),
        )]),
    };
    assert_eq!(
        error_of(raw),
        ParseError {
            parent: "config".to_string(),
            name: "a.b.c".to_string(),
            error: ErrorKind::UnknownHost { alias: "r3".to_string() },
        }
    );
}

#[test]
fn faults_are_reported_by_increasing_path() {
    let raw = RawTopology {
        hosts: two_hosts(),
        root: Vec::new(),
        config: vec_into_table(vec![("z", conf("r3", 1)), ("b", conf("r1", 1)), ("a", conf("r1", 1))]),
    };
    assert_eq!(
        error_of(raw),
        ParseError {
            parent: "config".to_string(),
            name: "b".to_string(),
            error: ErrorKind::DuplicateBinding {
                first: "a".to_string(),
                host: "r1".to_string(),
                port: 1,
            },
        }
    );
}

#[test]
fn missing_config_names_the_leaf() {
    let raw = RawTopology {
        hosts: two_hosts(),
        root: vec_into_table(vec![("r1", strs_into_array(&["a", "b", "c"]))]),
        config: vec_into_table(vec![(
            "r1",
            conf_with("r1", 1, vec![("a", conf("r1", 2)), ("c", conf("r1", 4))]),
        )]),
    };
    assert_eq!(
        error_of(raw),
        ParseError {
            parent: "r1".to_string(),
            name: "b".to_string(),
            error: ErrorKind::MissingConfig,
        }
    );
}

#[test]
fn missing_config_names_the_group() {
    let raw = RawTopology {
        hosts: two_hosts(),
        root: vec_into_table(vec![(
            "x",
            Value::Table(vec_into_table(vec![("g", strs_into_array(&[]))])),
        )]),
        config: Vec::new(),
    };
    assert_eq!(
        error_of(raw),
        ParseError {
            parent: "x".to_string(),
            name: "g".to_string(),
            error: ErrorKind::MissingConfig,
        }
    );
}

#[test]
fn a_leaf_named_twice_has_no_second_configuration() {
    let raw = RawTopology {
        hosts: two_hosts(),
        root: vec_into_table(vec![("g", strs_into_array(&["a", "a"]))]),
        config: vec_into_table(vec![("g", conf_with("r1", 1, vec![("a", conf("r1", 2))]))]),
    };
    assert_eq!(
        error_of(raw),
        ParseError {
            parent: "g".to_string(),
            name: "a".to_string(),
            error: ErrorKind::MissingConfig,
        }
    );
}

#[test]
fn shape_refuses_scalars_and_arrays_of_other_things() {
    let scalar = RawTopology {
        hosts: two_hosts(),
        root: vec_into_table(vec![("g", Value::Integer(1))]),
        config: Vec::new(),
    };
    assert_eq!(
        error_of(scalar),
        ParseError {
            parent: "".to_string(),
            name: "g".to_string(),
            error: ErrorKind::UnexpectedValueShape,
        }
    );
    let mixed = RawTopology {
        hosts: two_hosts(),
        root: vec_into_table(vec![(
            "p",
            Value::Table(vec_into_table(vec![(
                "g",
                Value::Array(vec![Value::String("a".to_string()), Value::Boolean(true)]),
            )])),
        )]),
        config: vec_into_table(vec![(
            "p",
            conf_with("r1", 1, vec![("g", conf_with("r1", 2, vec![("a", conf("r1", 3))]))]),
        )]),
    };
    assert_eq!(
        error_of(mixed),
        ParseError {
            parent: "p".to_string(),
            name: "g".to_string(),
            error: ErrorKind::UnexpectedValueShape,
        }
    );
}

#[test]
fn config_refuses_what_is_no_table() {
    let raw = RawTopology {
        hosts: two_hosts(),
        root: Vec::new(),
        config: vec_into_table(vec![("a", conf_with("r1", 1, vec![("b", Value::Boolean(true))]))]),
    };
    assert_eq!(
        error_of(raw),
        ParseError {
            parent: "a".to_string(),
            name: "b".to_string(),
            error: ErrorKind::UnexpectedValueShape,
        }
    );
}

fn defect_of(entries: Vec<(&str, Value)>) -> ParseError {
    error_of(RawTopology {
        hosts: two_hosts(),
        root: Vec::new(),
        config: vec_into_table(vec![("n", Value::Table(vec_into_table(entries)))]),
    })
}

fn conf_defect(d: ConfDefect) -> ParseError {
    ParseError {
        parent: "".to_string(),
        name: "n".to_string(),
        error: ErrorKind::MissingLocationOrParams(d),
    }
}

#[test]
fn config_needs_location_and_params() {
    assert_eq!(
        defect_of(vec![("params", params_p(None))]),
        conf_defect(ConfDefect::NoLocation)
    );
    assert_eq!(
        defect_of(vec![("location", location("r1", 1, None))]),
        conf_defect(ConfDefect::NoParams)
    );
    assert_eq!(defect_of(vec![]), conf_defect(ConfDefect::Neither));
    assert_eq!(
        defect_of(vec![("below", conf("r1", 1))]),
        conf_defect(ConfDefect::Neither)
    );
}

fn location_defect(loc: Value) -> ParseError {
    defect_of(vec![("location", loc), ("params", params_p(None))])
}

fn bad_location(d: LocationDefect) -> ParseError {
    conf_defect(ConfDefect::BadLocation(d))
}

#[test]
fn config_forwards_what_is_wrong_with_a_location() {
    let s = |x: &str| Value::String(x.to_string());
    assert_eq!(location_defect(s("r1")), bad_location(LocationDefect::NotATable));
    assert_eq!(
        location_defect(Value::Table(vec_into_table(vec![("port", Value::Integer(1))]))),
        bad_location(LocationDefect::NoHost)
    );
    assert_eq!(
        location_defect(Value::Table(vec_into_table(vec![
            ("host", Value::Integer(1)),
            ("port", Value::Integer(1)),
        ]))),
        bad_location(LocationDefect::HostNotString)
    );
    assert_eq!(
        location_defect(Value::Table(vec_into_table(vec![("host", s("r1"))]))),
        bad_location(LocationDefect::NoPort)
    );
    assert_eq!(
        location_defect(Value::Table(vec_into_table(vec![("host", s("r1")), ("port", s("1"))]))),
        bad_location(LocationDefect::PortNotInteger)
    );
    assert_eq!(
        location_defect(location("r1", 65536, None)),
        bad_location(LocationDefect::PortOutOfRange)
    );
    assert_eq!(
        location_defect(location("r1", -1, None)),
        bad_location(LocationDefect::PortOutOfRange)
    );
    assert_eq!(
        location_defect(Value::Table(vec_into_table(vec![
            ("host", s("r1")),
            ("port", Value::Integer(1)),
            ("publicity", Value::Boolean(true)),
        ]))),
        bad_location(LocationDefect::PublicityNotString)
    );
    assert_eq!(
        location_defect(location("r1", 1, Some("secret"))),
        bad_location(LocationDefect::PublicityUnknown)
    );
}

#[test]
fn location_takes_the_whole_range_of_ports_and_each_publicity() {
    assert_eq!(
        Location::decode(&location("h", 0, Some("local"))),
        Ok(Location { host: "h".to_string(), port: 0, publicity: Some(Publicity::Local) })
    );
    assert_eq!(
        Location::decode(&location("h", 65535, Some("external"))),
        Ok(Location { host: "h".to_string(), port: 65535, publicity: Some(Publicity::External) })
    );
    assert_eq!(
        Location::decode(&location("h", 80, Some("internal"))),
        Ok(Location { host: "h".to_string(), port: 80, publicity: Some(Publicity::Internal) })
    );
    assert_eq!(
        Location::decode(&location("h", 80, None)),
        Ok(Location { host: "h".to_string(), port: 80, publicity: None })
    );
}

#[test]
fn params_carry_numbers_and_timestamps() {
    let stamp = Datetime::new(
        Some(Date { year: 1979, month: 5, day: 27 }),
        Some(Time { hour: 7, minute: 32, second: 0, nanosecond: 0 }),
        Some(Offset::Z),
    )
    .unwrap();
    let raw = RawTopology {
        hosts: two_hosts(),
        root: vec_into_table(vec![("n", strs_into_array(&[]))]),
        config: vec_into_table(vec![(
            "n",
            Value::Table(vec_into_table(vec![
                ("location", location("r1", 1, None)),
                (
                    "params",
                    Value::Array(vec![
                        Value::Integer(-3),
                        Value::Float(1.5f64.to_bits()),
                        Value::Float(f64::NAN.to_bits()),
                        Value::Datetime(stamp),
                    ]),
                ),
            ])),
        )]),
    };
    let t = Topology::try_from(raw).unwrap();
    assert_eq!(
        t.root.node_type,
        TopologyNodeType::Node(vec![node(
            "n",
            None,
            active(
                Json::Array(vec![
                    Json::Number(Number::Integer(-3)),
                    Json::Number(Number::Float(1.5f64.to_bits())),
                    Json::Null,
                    Json::String("1979-05-27T07:32:00Z".to_string()),
                ]),
                "r1",
                1,
                None,
            ),
            TopologyNodeType::Node(vec![]),
        )])
    );
}

#[test]
fn for_each_visits_every_node_parents_first() {
    let t = build(example()).unwrap();
    let names = std::cell::RefCell::new(Vec::new());
    t.root.for_each(|n: &TopologyNode| names.borrow_mut().push(n.name.clone()));
    let expected: Vec<Option<String>> = vec![
        None,
        Some("r1".to_string()),
        Some("r1.d-a".to_string()),
        Some("r1.s-2".to_string()),
        Some("r2.d".to_string()),
        Some("r2.s".to_string()),
        Some("r2.s.s-1".to_string()),
        Some("r2.s.s-2".to_string()),
        Some("r2.s.s-3".to_string()),
    ];
    assert_eq!(names.into_inner(), expected);
}

#[test]
fn names_built_and_configurations_left_are_the_flattened_paths() {
    let raw = raw_of(example());
    let mut confs = SortedMap::new();
    universum::resolve::run_conf(&None, &raw.config, &mut confs).unwrap();
    let mut paths = Vec::new();
    let mut i = 0;
    while let Some((path, _)) = confs.entry(i) {
        paths.push(path.clone());
        i += 1;
    }
    assert_eq!(
        paths,
        vec!["r1", "r1.d-a", "r1.s-2", "r2", "r2.d", "r2.s", "r2.s.s-1", "r2.s.s-2", "r2.s.s-3"]
    );
    let nodes = universum::tree::run_root(&None, &raw.root, &mut confs).unwrap();
    let names = std::cell::RefCell::new(Vec::new());
    for n in &nodes {
        n.for_each(|x: &TopologyNode| names.borrow_mut().push(x.name.clone().unwrap()));
    }
    let mut names = names.into_inner();
    assert_eq!(confs.len(), 1);
    names.push(confs.entry(0).unwrap().0.clone());
    names.sort();
    assert_eq!(names, paths);
}
