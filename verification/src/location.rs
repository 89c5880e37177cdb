//! Reading a location out of the document.

use vstd::prelude::*;
use vstd::string::StringExecFns;
use crate::topology::Location;
use crate::topology::LocationDefect;
use crate::topology::LocationView;
use crate::topology::Publicity;
use crate::value::Value;
use crate::value::ValueView;
use crate::value::lookup;
use crate::value::table_get;
use crate::value::lemma_view_unfolds;

verus! {

/// The publicity that a word stands for.
pub open spec fn publicity_of(s: Seq<char>) -> Option<Publicity> {
    if s == "local"@ {
        Some(Publicity::Local)
    } else if s == "internal"@ {
        Some(Publicity::Internal)
    } else if s == "external"@ {
        Some(Publicity::External)
    } else {
        None
    }
}

/// The publicity of a location whose table holds `p` under `publicity`.
pub open spec fn publicity_in(p: Option<ValueView>) -> Result<Option<Publicity>, LocationDefect> {
    match p {
        None => Ok(None),
        Some(ValueView::String(s)) => match publicity_of(s) {
            Some(x) => Ok(Some(x)),
            None => Err(LocationDefect::PublicityUnknown),
        },
        Some(_) => Err(LocationDefect::PublicityNotString),
    }
}

/// The port of a location whose table holds `p` under `port`.
pub open spec fn port_in(p: Option<ValueView>) -> Result<u16, LocationDefect> {
    match p {
        None => Err(LocationDefect::NoPort),
        Some(ValueView::Integer(i)) => if 0 <= i <= 65535 {
            Ok(i as u16)
        } else {
            Err(LocationDefect::PortOutOfRange)
        },
        Some(_) => Err(LocationDefect::PortNotInteger),
    }
}

/// The host of a location whose table holds `h` under `host`.
pub open spec fn host_in(h: Option<ValueView>) -> Result<Seq<char>, LocationDefect> {
    match h {
        None => Err(LocationDefect::NoHost),
        Some(ValueView::String(s)) => Ok(s),
        Some(_) => Err(LocationDefect::HostNotString),
    }
}

/// The location that `v` declares. `v` is a table with a string under
/// `host`, an integer from 0 to 65535 under `port` and, if it has anything
/// under `publicity`, one of the words `local`, `internal` and `external`.
/// Other entries do not count. Of several defects the one of the host is
/// named before that of the port, and that before the one of the publicity.
pub open spec fn decode_location(v: ValueView) -> Result<LocationView, LocationDefect> {
    match v {
        ValueView::Table(t) => match host_in(lookup(t, "host"@)) {
            Err(d) => Err(d),
            Ok(host) => match port_in(lookup(t, "port"@)) {
                Err(d) => Err(d),
                Ok(port) => match publicity_in(lookup(t, "publicity"@)) {
                    Err(d) => Err(d),
                    Ok(publicity) => Ok(LocationView { host, port, publicity }),
                },
            },
        },
        _ => Err(LocationDefect::NotATable),
    }
}

/// What a location read or refused holds.
pub open spec fn decoded_view(r: Result<Location, LocationDefect>) -> Result<
    LocationView,
    LocationDefect,
> {
    match r {
        Ok(l) => Ok(l@),
        Err(d) => Err(d),
    }
}

fn publicity_from(p: Option<&Value>) -> (r: Result<Option<Publicity>, LocationDefect>)
    ensures
        r == publicity_in(
            match p {
                Some(v) => Some(v@),
                None => None,
            },
        ),
{
    match p {
        None => Ok(None),
        Some(Value::String(s)) => {
            if *s == String::from_str("local") {
                Ok(Some(Publicity::Local))
            } else if *s == String::from_str("internal") {
                Ok(Some(Publicity::Internal))
            } else if *s == String::from_str("external") {
                Ok(Some(Publicity::External))
            } else {
                Err(LocationDefect::PublicityUnknown)
            }
        },
        Some(_) => Err(LocationDefect::PublicityNotString),
    }
}

impl Location {
    /// Reads the location that `v` declares.
    pub fn decode(v: &Value) -> (r: Result<Location, LocationDefect>)
        ensures
            decoded_view(r) == decode_location(v@),
    {
        proof {
            lemma_view_unfolds(*v);
        }
        match v {
            Value::Table(t) => {
                let host = match table_get(t, &String::from_str("host")) {
                    None => {
                        return Err(LocationDefect::NoHost);
                    },
                    Some(Value::String(s)) => s.clone(),
                    Some(_) => {
                        return Err(LocationDefect::HostNotString);
                    },
                };
                let port: u16 = match table_get(t, &String::from_str("port")) {
                    None => {
                        return Err(LocationDefect::NoPort);
                    },
                    Some(Value::Integer(i)) => {
                        if 0 <= *i && *i <= 65535 {
                            *i as u16
                        } else {
                            return Err(LocationDefect::PortOutOfRange);
                        }
                    },
                    Some(_) => {
                        return Err(LocationDefect::PortNotInteger);
                    },
                };
                match publicity_from(table_get(t, &String::from_str("publicity"))) {
                    Err(d) => Err(d),
                    Ok(publicity) => Ok(Location { host, port, publicity }),
                }
            },
            _ => Err(LocationDefect::NotATable),
        }
    }
}

} // verus!
