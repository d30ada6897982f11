use vstd::prelude::*;

use crate::error::{Error, ErrorModel};
use crate::target::{PortSpec, PortSpecModel};

verus! {

/// A port that an endpoint subset declares, with its optional name.
#[derive(Debug, Clone, PartialEq, Eq)]
pub struct PortDecl {
    pub name: Option<String>,
    pub port: i32,
}

pub struct PortDeclModel {
    pub name: Option<Seq<char>>,
    pub port: i32,
}

impl View for PortDecl {
    type V = PortDeclModel;

    open spec fn view(&self) -> PortDeclModel {
        PortDeclModel { name: crate::target::opt_str_view(self.name), port: self.port }
    }
}

pub open spec fn decls_view(v: Seq<PortDecl>) -> Seq<PortDeclModel> {
    v.map_values(|p: PortDecl| p@)
}

/// The number of the first declared port called `name`, if any.
pub open spec fn first_named(ports: Seq<PortDeclModel>, name: Seq<char>) -> Option<i32>
    decreases ports.len(),
{
    if ports.len() == 0 {
        None
    } else if ports[0].name == Some(name) {
        Some(ports[0].port)
    } else {
        first_named(ports.drop_first(), name)
    }
}

/// The port that a subset declaring `ports` is reached on, under `spec`.
pub open spec fn resolve_port_spec(ports: Seq<PortDeclModel>, spec: PortSpecModel) -> Result<
    i32,
    ErrorModel,
> {
    match spec {
        PortSpecModel::Unspecified => if ports.len() == 0 {
            Err(ErrorModel::PortListEmpty)
        } else {
            Ok(ports[0].port)
        },
        PortSpecModel::Numeric(n) => Ok(n),
        PortSpecModel::Named(name) => match first_named(ports, name) {
            Some(p) => Ok(p),
            None => Err(ErrorModel::NotFoundPort(name)),
        },
    }
}

pub open spec fn port_result_view(r: Result<i32, Error>) -> Result<i32, ErrorModel> {
    match r {
        Ok(p) => Ok(p),
        Err(e) => Err(e@),
    }
}

/// Picks the port of one subset: the first declared one, the given number, or
/// the first declared one of the given name.
pub fn resolve_port(ports: &Vec<PortDecl>, spec: &PortSpec) -> (r: Result<i32, Error>)
    ensures
        port_result_view(r) == resolve_port_spec(decls_view(ports@), spec@),
{
    match spec {
        PortSpec::Unspecified => {
            if ports.len() == 0 {
                Err(Error::PortListEmpty)
            } else {
                Ok(ports[0].port)
            }
        },
        PortSpec::Numeric(n) => Ok(*n),
        PortSpec::Named(name) => {
            let ghost m = decls_view(ports@);
            let mut i: usize = 0;
            assert(m.subrange(0, m.len() as int) =~= m);
            while i < ports.len()
                invariant
                    m == decls_view(ports@),
                    spec@ == PortSpecModel::Named(name@),
                    i <= ports.len(),
                    first_named(m, name@) == first_named(m.subrange(i as int, m.len() as int), name@),
                decreases ports.len() - i,
            {
                let ghost rest = m.subrange(i as int, m.len() as int);
                assert(rest.drop_first() =~= m.subrange(i + 1, m.len() as int));
                assert(rest[0] == ports@[i as int]@);
                let p = &ports[i];
                let hit = match &p.name {
                    Some(n) => *n == *name,
                    None => false,
                };
                if hit {
                    assert(rest[0].name == Some(name@));
                    return Ok(p.port);
                }
                i = i + 1;
            }
            assert(m.subrange(i as int, m.len() as int).len() == 0);
            Err(Error::NotFoundPort(String::from_str(name.as_str())))
        },
    }
}

} // verus!
