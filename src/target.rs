use vstd::prelude::*;

use crate::error::{Error, ErrorModel};
use crate::text::{find_char, index_of, parse_i32, parse_i32_spec};

verus! {

/// How the port of a target is chosen on each endpoint subset.
#[derive(Debug, Clone, PartialEq, Eq)]
pub enum PortSpec {
    /// Take the first port that the subset declares.
    Unspecified,
    /// Use this number as it is, declared or not.
    Numeric(i32),
    /// Take the declared port of this name.
    Named(String),
}

pub enum PortSpecModel {
    Unspecified,
    Numeric(i32),
    Named(Seq<char>),
}

impl View for PortSpec {
    type V = PortSpecModel;

    open spec fn view(&self) -> PortSpecModel {
        match self {
            PortSpec::Unspecified => PortSpecModel::Unspecified,
            PortSpec::Numeric(n) => PortSpecModel::Numeric(*n),
            PortSpec::Named(s) => PortSpecModel::Named(s@),
        }
    }
}

pub open spec fn opt_str_view(o: Option<String>) -> Option<Seq<char>> {
    match o {
        Some(s) => Some(s@),
        None => None,
    }
}

/// A parsed locator: the service to watch, where, and which port to use.
#[derive(Debug, Clone, PartialEq, Eq)]
pub struct TargetInfo {
    service_name: String,
    service_namespace: Option<String>,
    port: PortSpec,
}

pub struct TargetModel {
    pub service_name: Seq<char>,
    pub service_namespace: Option<Seq<char>>,
    pub port: PortSpecModel,
}

impl View for TargetInfo {
    type V = TargetModel;

    closed spec fn view(&self) -> TargetModel {
        TargetModel {
            service_name: self.service_name@,
            service_namespace: opt_str_view(self.service_namespace),
            port: self.port@,
        }
    }
}

/// Whether `s` starts with a scheme, that is with `<scheme>://`.
pub open spec fn has_scheme(s: Seq<char>) -> bool {
    let i = index_of(s, ':');
    i + 2 < s.len() && s[i + 1] == '/' && s[i + 2] == '/'
}

pub open spec fn scheme_of(s: Seq<char>) -> Seq<char> {
    s.subrange(0, index_of(s, ':'))
}

pub open spec fn after_scheme(s: Seq<char>) -> Seq<char> {
    if has_scheme(s) {
        s.subrange(index_of(s, ':') + 3, s.len() as int)
    } else {
        s
    }
}

/// `host[:port]`: what follows the scheme, up to a path.
pub open spec fn authority_of(s: Seq<char>) -> Seq<char> {
    let r = after_scheme(s);
    r.subrange(0, index_of(r, '/'))
}

/// `service[.namespace]`: the authority up to its first `:`.
pub open spec fn host_of(a: Seq<char>) -> Seq<char> {
    a.subrange(0, index_of(a, ':'))
}

pub open spec fn port_text_of(a: Seq<char>) -> Option<Seq<char>> {
    let i = index_of(a, ':');
    if i < a.len() {
        Some(a.subrange(i + 1, a.len() as int))
    } else {
        None
    }
}

pub open spec fn service_of(h: Seq<char>) -> Seq<char> {
    h.subrange(0, index_of(h, '.'))
}

/// The second dot-separated segment of the host; later segments are ignored.
pub open spec fn namespace_of(h: Seq<char>) -> Option<Seq<char>> {
    let d = index_of(h, '.');
    if d < h.len() {
        let rest = h.subrange(d + 1, h.len() as int);
        Some(rest.subrange(0, index_of(rest, '.')))
    } else {
        None
    }
}

/// A port text that reads as an integer is a number, any other is a name.
pub open spec fn port_spec_of(p: Option<Seq<char>>) -> PortSpecModel {
    match p {
        None => PortSpecModel::Unspecified,
        Some(t) => match parse_i32_spec(t) {
            Some(n) => PortSpecModel::Numeric(n),
            None => PortSpecModel::Named(t),
        },
    }
}

/// The target that a locator `[kubernetes://]service[.namespace][:port]` names.
pub open spec fn parse_target(s: Seq<char>) -> Result<TargetModel, ErrorModel> {
    if has_scheme(s) && scheme_of(s) != "kubernetes"@ {
        Err(ErrorModel::NotMatchSchema(scheme_of(s)))
    } else {
        let a = authority_of(s);
        let h = host_of(a);
        if h.len() == 0 {
            Err(ErrorModel::HostIsEmpty)
        } else {
            Ok(
                TargetModel {
                    service_name: service_of(h),
                    service_namespace: namespace_of(h),
                    port: port_spec_of(port_text_of(a)),
                },
            )
        }
    }
}

pub open spec fn target_result_view(r: Result<TargetInfo, Error>) -> Result<TargetModel, ErrorModel> {
    match r {
        Ok(t) => Ok(t@),
        Err(e) => Err(e@),
    }
}

fn port_spec_from_text(t: &str) -> (r: PortSpec)
    ensures
        r@ == port_spec_of(Some(t@)),
{
    match parse_i32(t) {
        Some(n) => PortSpec::Numeric(n),
        None => PortSpec::Named(String::from_str(t)),
    }
}

impl TargetInfo {
    /// Parses a locator of the form `[kubernetes://]service[.namespace][:port]`.
    pub fn parse(s: &str) -> (r: Result<TargetInfo, Error>)
        ensures
            target_result_view(r) == parse_target(s@),
    {
        let n = s.unicode_len();
        let i = find_char(s, ':');
        let scheme_present = i < n && n - i > 2 && s.get_char(i + 1) == '/' && s.get_char(i + 2)
            == '/';
        assert(scheme_present == has_scheme(s@));
        let rest: &str = if scheme_present {
            let sch = String::from_str(s.substring_char(0, i));
            let kube = String::from_str("kubernetes");
            if !(sch == kube) {
                return Err(Error::NotMatchSchema(sch));
            }
            s.substring_char(i + 3, n)
        } else {
            s
        };
        assert(rest@ == after_scheme(s@));
        let authority = rest.substring_char(0, find_char(rest, '/'));
        let alen = authority.unicode_len();
        let j = find_char(authority, ':');
        if j == 0 {
            return Err(Error::HostIsEmpty);
        }
        let host = authority.substring_char(0, j);
        let port = if j < alen {
            port_spec_from_text(authority.substring_char(j + 1, alen))
        } else {
            PortSpec::Unspecified
        };
        let hlen = host.unicode_len();
        let d = find_char(host, '.');
        let service_name = String::from_str(host.substring_char(0, d));
        let service_namespace = if d < hlen {
            let rest2 = host.substring_char(d + 1, hlen);
            Some(String::from_str(rest2.substring_char(0, find_char(rest2, '.'))))
        } else {
            None
        };
        Ok(TargetInfo { service_name, service_namespace, port })
    }

    pub fn service_name(&self) -> (r: &String)
        ensures
            r@ == self@.service_name,
    {
        &self.service_name
    }

    pub fn service_namespace(&self) -> (r: &Option<String>)
        ensures
            opt_str_view(*r) == self@.service_namespace,
    {
        &self.service_namespace
    }

    pub fn port(&self) -> (r: &PortSpec)
        ensures
            r@ == self@.port,
    {
        &self.port
    }
}

} // verus!
