use vstd::prelude::*;

use crate::error::{Error, ErrorModel};
use crate::ports::{decls_view, resolve_port, resolve_port_spec, PortDecl, PortDeclModel};
use crate::target::{PortSpecModel, TargetInfo};

verus! {

/// A group of addresses that share one list of declared ports.
#[derive(Debug, Clone, PartialEq, Eq)]
pub struct Subset {
    pub addresses: Vec<String>,
    pub ports: Vec<PortDecl>,
}

pub struct SubsetModel {
    pub addresses: Seq<Seq<char>>,
    pub ports: Seq<PortDeclModel>,
}

pub open spec fn strs_view(v: Seq<String>) -> Seq<Seq<char>> {
    v.map_values(|s: String| s@)
}

impl View for Subset {
    type V = SubsetModel;

    open spec fn view(&self) -> SubsetModel {
        SubsetModel { addresses: strs_view(self.addresses@), ports: decls_view(self.ports@) }
    }
}

/// The endpoint records of the watched service at one instant.
#[derive(Debug, Clone, PartialEq, Eq)]
pub struct Snapshot {
    pub subsets: Vec<Subset>,
}

impl View for Snapshot {
    type V = Seq<SubsetModel>;

    open spec fn view(&self) -> Seq<SubsetModel> {
        self.subsets@.map_values(|s: Subset| s@)
    }
}

pub open spec fn digit_char(d: int) -> char {
    "0123456789"@[d]
}

/// Decimal digits of a natural number, most significant first.
pub open spec fn nat_text(n: nat) -> Seq<char>
    decreases n,
{
    if n < 10 {
        seq![digit_char(n as int)]
    } else {
        nat_text(n / 10).push(digit_char((n % 10) as int))
    }
}

/// An integer written in decimal, with a leading `-` when negative.
pub open spec fn decimal_text(n: int) -> Seq<char> {
    if n < 0 {
        seq!['-'] + nat_text((-n) as nat)
    } else {
        nat_text(n as nat)
    }
}

/// `ip:port`.
pub open spec fn address_of(ip: Seq<char>, port: i32) -> Seq<char> {
    ip + seq![':'] + decimal_text(port as int)
}

fn push_nat(out: &mut String, n: u32)
    ensures
        final(out)@ == old(out)@ + nat_text(n as nat),
    decreases n,
{
    if n >= 10 {
        push_nat(out, n / 10);
    }
    let digits = "0123456789";
    proof {
        reveal_strlit("0123456789");
    }
    let d = (n % 10) as usize;
    out.append(digits.substring_char(d, d + 1));
    assert(digits@.subrange(d as int, d + 1) =~= seq![digit_char(d as int)]);
    if n >= 10 {
        assert(old(out)@ + nat_text(n as nat) =~= old(out)@ + nat_text((n / 10) as nat) + seq![
            digit_char(d as int),
        ]);
    } else {
        assert(old(out)@ + nat_text(n as nat) =~= old(out)@ + seq![digit_char(d as int)]);
    }
}

/// Writes `ip:port`.
pub fn format_address(ip: &String, port: i32) -> (r: String)
    ensures
        r@ == address_of(ip@, port),
{
    let mut out = String::from_str(ip.as_str());
    let colon = ":";
    proof {
        reveal_strlit(":");
    }
    out.append(colon);
    if port < 0 {
        let minus = "-";
        proof {
            reveal_strlit("-");
        }
        out.append(minus);
        let magnitude = (-(port as i64)) as u32;
        push_nat(&mut out, magnitude);
    } else {
        push_nat(&mut out, port as u32);
    }
    assert(out@ =~= address_of(ip@, port));
    out
}

/// The addresses of one subset, each joined to `port`.
pub open spec fn subset_addresses(sub: SubsetModel, port: i32) -> Seq<Seq<char>> {
    sub.addresses.map_values(|ip: Seq<char>| address_of(ip, port))
}

/// Every subset's addresses in order, duplicates kept; the first subset whose
/// port cannot be resolved makes the whole walk fail.
pub open spec fn raw_addresses(spec: PortSpecModel, subs: Seq<SubsetModel>) -> Result<
    Seq<Seq<char>>,
    ErrorModel,
>
    decreases subs.len(),
{
    if subs.len() == 0 {
        Ok(seq![])
    } else {
        match raw_addresses(spec, subs.drop_last()) {
            Err(e) => Err(e),
            Ok(prev) => match resolve_port_spec(subs.last().ports, spec) {
                Err(e) => Err(e),
                Ok(p) => Ok(prev + subset_addresses(subs.last(), p)),
            },
        }
    }
}

/// `s` with every repeated entry after its first occurrence dropped.
pub open spec fn dedup(s: Seq<Seq<char>>) -> Seq<Seq<char>>
    decreases s.len(),
{
    if s.len() == 0 {
        seq![]
    } else if s.drop_last().contains(s.last()) {
        dedup(s.drop_last())
    } else {
        dedup(s.drop_last()).push(s.last())
    }
}

/// The address set of a snapshot, as a duplicate-free list in discovery order.
pub open spec fn address_list(spec: PortSpecModel, subs: Seq<SubsetModel>) -> Result<
    Seq<Seq<char>>,
    ErrorModel,
> {
    match raw_addresses(spec, subs) {
        Ok(l) => Ok(dedup(l)),
        Err(e) => Err(e),
    }
}

/// Deduplication keeps exactly the entries that occur, each once.
pub proof fn lemma_dedup(s: Seq<Seq<char>>)
    ensures
        dedup(s).no_duplicates(),
        forall|x: Seq<char>| #[trigger] dedup(s).contains(x) <==> s.contains(x),
    decreases s.len(),
{
    if s.len() > 0 {
        let p = s.drop_last();
        lemma_dedup(p);
        assert(s =~= p.push(s.last()));
        if !p.contains(s.last()) {
            let d = dedup(s);
            assert forall|i: int, j: int|
                0 <= i < d.len() && 0 <= j < d.len() && i != j implies d[i] != d[j] by {
                if i == d.len() - 1 {
                    assert(!dedup(p).contains(s.last()));
                    assert(dedup(p)[j] == d[j]);
                } else if j == d.len() - 1 {
                    assert(!dedup(p).contains(s.last()));
                    assert(dedup(p)[i] == d[i]);
                } else {
                    assert(dedup(p)[i] == d[i]);
                    assert(dedup(p)[j] == d[j]);
                }
            }
        }
        assert forall|x: Seq<char>| #[trigger] dedup(s).contains(x) <==> s.contains(x) by {
            if s.contains(x) && x != s.last() {
                let j = choose|j: int| 0 <= j < s.len() && s[j] == x;
                assert(p[j] == x);
            }
            if dedup(s).contains(x) && !p.contains(s.last()) && x != s.last() {
                let j = choose|j: int| 0 <= j < dedup(s).len() && dedup(s)[j] == x;
                assert(dedup(p)[j] == x);
            }
            if p.contains(x) {
                let j = choose|j: int| 0 <= j < p.len() && p[j] == x;
                assert(s[j] == x);
            }
            if x == s.last() {
                assert(s[s.len() - 1] == x);
            }
            if !p.contains(s.last()) && dedup(p).contains(x) {
                let j = choose|j: int| 0 <= j < dedup(p).len() && dedup(p)[j] == x;
                assert(dedup(s)[j] == x);
            }
            if !p.contains(s.last()) && x == s.last() {
                assert(dedup(s)[dedup(p).len() as int] == x);
            }
        }
    }
}

pub open spec fn list_result_view(r: Result<Vec<String>, Error>) -> Result<
    Seq<Seq<char>>,
    ErrorModel,
> {
    match r {
        Ok(v) => Ok(strs_view(v@)),
        Err(e) => Err(e@),
    }
}

/// Whether `v` holds a string equal to `x`.
pub fn contains_str(v: &Vec<String>, x: &String) -> (r: bool)
    ensures
        r == strs_view(v@).contains(x@),
{
    let mut i: usize = 0;
    while i < v.len()
        invariant
            i <= v.len(),
            forall|j: int| 0 <= j < i ==> v@[j]@ != x@,
        decreases v.len() - i,
    {
        if v[i] == *x {
            assert(strs_view(v@)[i as int] == x@);
            return true;
        }
        i = i + 1;
    }
    assert forall|j: int| 0 <= j < strs_view(v@).len() implies strs_view(v@)[j] != x@ by {
        assert(v@[j]@ != x@);
    }
    false
}

/// Once a prefix of the subsets fails, the whole walk fails the same way.
proof fn lemma_raw_error_extends(spec: PortSpecModel, subs: Seq<SubsetModel>, k: int)
    requires
        0 <= k <= subs.len(),
        raw_addresses(spec, subs.subrange(0, k)) is Err,
    ensures
        raw_addresses(spec, subs) == raw_addresses(spec, subs.subrange(0, k)),
    decreases subs.len(),
{
    if k == subs.len() {
        assert(subs.subrange(0, k) =~= subs);
    } else {
        assert(subs.drop_last().subrange(0, k) =~= subs.subrange(0, k));
        lemma_raw_error_extends(spec, subs.drop_last(), k);
    }
}

/// Builds the address set of a snapshot: each subset's port is resolved under
/// the target's port policy and joined to each of its addresses.
pub fn endpoints_to_addresses(target: &TargetInfo, snapshot: &Snapshot) -> (r: Result<
    Vec<String>,
    Error,
>)
    ensures
        list_result_view(r) == address_list(target@.port, snapshot@),
{
    let spec = target.port();
    let ghost subs = snapshot@;
    let mut out: Vec<String> = Vec::new();
    let ghost mut raw: Seq<Seq<char>> = seq![];
    let mut i: usize = 0;
    assert(subs.subrange(0, 0) =~= seq![]);
    assert(strs_view(out@) =~= dedup(raw));
    while i < snapshot.subsets.len()
        invariant
            spec@ == target@.port,
            subs == snapshot@,
            i <= snapshot.subsets.len(),
            raw_addresses(spec@, subs.subrange(0, i as int)) == Ok::<
                Seq<Seq<char>>,
                ErrorModel,
            >(raw),
            strs_view(out@) == dedup(raw),
        decreases snapshot.subsets.len() - i,
    {
        let sub = &snapshot.subsets[i];
        let ghost prefix = subs.subrange(0, i + 1);
        assert(prefix.drop_last() =~= subs.subrange(0, i as int));
        assert(prefix.last() == sub@);
        let port = match resolve_port(&sub.ports, spec) {
            Ok(p) => p,
            Err(e) => {
                proof {
                    lemma_raw_error_extends(spec@, subs, i + 1);
                    assert(subs.subrange(0, subs.len() as int) =~= subs);
                }
                return Err(e);
            },
        };
        let ghost base = raw;
        let ghost added = subset_addresses(sub@, port);
        let mut k: usize = 0;
        assert(base + added.subrange(0, 0) =~= base);
        while k < sub.addresses.len()
            invariant
                added == subset_addresses(sub@, port),
                added.len() == sub.addresses.len(),
                k <= sub.addresses.len(),
                raw == base + added.subrange(0, k as int),
                strs_view(out@) == dedup(raw),
            decreases sub.addresses.len() - k,
        {
            let a = format_address(&sub.addresses[k], port);
            assert(added[k as int] == a@);
            proof {
                lemma_dedup(raw);
                assert(raw.push(a@).drop_last() =~= raw);
            }
            if !contains_str(&out, &a) {
                out.push(a);
                assert(strs_view(out@) =~= dedup(raw).push(a@));
            }
            proof {
                raw = raw.push(a@);
                assert(raw =~= base + added.subrange(0, k + 1));
            }
            k = k + 1;
        }
        assert(added.subrange(0, k as int) =~= added);
        i = i + 1;
    }
    assert(subs.subrange(0, i as int) =~= subs);
    Ok(out)
}

} // verus!
