//! Nets and the combinators that compose them.
//!
//! A net answers three operations. Composite nets forward each call to one
//! of their sub-nets; a call ends at a leaf, a net implemented outside the
//! composition (a protocol client, the local network), or fails.
use crate::domain::{method_accepts, DomainMatcher};
use crate::error::{Address, Error};
use crate::name_map::NameMap;
use std::sync::Arc;
use vstd::prelude::*;

verus! {

/// The operations of the networking interface.
#[derive(Clone, Copy, Debug, PartialEq, Eq)]
pub enum Operation {
    TcpConnect,
    TcpBind,
    UdpBind,
}

/// A shared handle to a net.
pub type Net = Arc<NetNode>;

/// The kinds of nets.
pub enum NetNode {
    /// A net implemented outside the composition, named by its instance.
    Leaf(String),
    Noop(NoopNet),
    Combine(CombineNet),
    Select(SelectNet),
    Rule(RuleNet),
}

/// A net that answers every call with `NotImplemented`.
pub struct NoopNet;

/// A net that sends each operation to a net of its own.
pub struct CombineNet {
    pub tcp_connect: Net,
    pub tcp_bind: Net,
    pub udp_bind: Net,
}

/// A net that picks one of several candidates for each call.
pub struct SelectNet {
    pub nets: Vec<Net>,
}

/// A test on a destination address.
pub enum Matcher {
    Domain(DomainMatcher),
    /// Accepts every address.
    Any,
}

/// A matcher and the net that serves the addresses it accepts.
pub struct Rule {
    pub matcher: Matcher,
    pub target: Net,
}

/// A net that forwards each call to the target of the first rule whose
/// matcher accepts the destination.
pub struct RuleNet {
    pub rules: Vec<Rule>,
}

/// A rule as configured: its target is the name of a net.
pub struct RuleConfig {
    pub matcher: Matcher,
    pub target: String,
}

/// The composite kinds that a configuration can ask for.
pub enum Composite {
    Rule(Vec<RuleConfig>),
    Select,
}

pub open spec fn matcher_accepts(m: Matcher, addr: Address) -> bool {
    match m {
        Matcher::Any => true,
        Matcher::Domain(d) => match addr {
            Address::Domain(name, _) => method_accepts(d.method, d.domain@, name@),
            Address::SocketAddr(..) => false,
        },
    }
}

/// Position of the first rule that accepts `addr`.
pub open spec fn first_match(rules: Seq<Rule>, addr: Address) -> Option<int> {
    if exists|i: int| 0 <= i < rules.len() && matcher_accepts(rules[i].matcher, addr) {
        Some(
            choose|i: int|
                0 <= i < rules.len() && matcher_accepts(rules[i].matcher, addr) && forall|j: int|
                    0 <= j < i ==> !matcher_accepts(rules[j].matcher, addr),
        )
    } else {
        None
    }
}

/// The leaf that serves operation `op` towards `addr` on net `n`, or `None`
/// where the call fails with `NotImplemented`.
pub open spec fn route(n: NetNode, op: Operation, addr: Address) -> Option<Seq<char>>
    decreases n,
{
    match n {
        NetNode::Leaf(name) => Some(name@),
        NetNode::Noop(_) => None,
        NetNode::Combine(c) => match op {
            Operation::TcpConnect => route(*c.tcp_connect, op, addr),
            Operation::TcpBind => route(*c.tcp_bind, op, addr),
            Operation::UdpBind => route(*c.udp_bind, op, addr),
        },
        NetNode::Select(s) => if s.nets@.len() > 0 {
            route(*s.nets@[0], op, addr)
        } else {
            None
        },
        NetNode::Rule(r) => match first_match(r.rules@, addr) {
            Some(i) => if 0 <= i < r.rules@.len() {
                route(*r.rules@[i].target, op, addr)
            } else {
                None
            },
            None => None,
        },
    }
}

/// How the outcome of a call relates to the leaf that `route` names.
pub open spec fn outcome_is(r: Result<String, Error>, leaf: Option<Seq<char>>) -> bool {
    match leaf {
        Some(name) => r matches Ok(s) && s@ == name,
        None => r == Err::<String, Error>(Error::NotImplemented),
    }
}

impl Matcher {
    pub fn match_rule(&self, addr: &Address) -> (r: bool)
        ensures
            r == matcher_accepts(*self, *addr),
    {
        match self {
            Matcher::Any => true,
            Matcher::Domain(d) => d.match_rule(addr),
        }
    }
}

impl NoopNet {
    pub fn tcp_connect(&self, _addr: &Address) -> (r: Result<String, Error>)
        ensures
            r == Err::<String, Error>(Error::NotImplemented),
    {
        Err(Error::NotImplemented)
    }

    pub fn tcp_bind(&self, _addr: &Address) -> (r: Result<String, Error>)
        ensures
            r == Err::<String, Error>(Error::NotImplemented),
    {
        Err(Error::NotImplemented)
    }

    pub fn udp_bind(&self, _addr: &Address) -> (r: Result<String, Error>)
        ensures
            r == Err::<String, Error>(Error::NotImplemented),
    {
        Err(Error::NotImplemented)
    }
}

impl CombineNet {
    /// The net that serves `op`.
    pub fn net_for(&self, op: Operation) -> (r: &Net)
        ensures
            r == match op {
                Operation::TcpConnect => &self.tcp_connect,
                Operation::TcpBind => &self.tcp_bind,
                Operation::UdpBind => &self.udp_bind,
            },
    {
        match op {
            Operation::TcpConnect => &self.tcp_connect,
            Operation::TcpBind => &self.tcp_bind,
            Operation::UdpBind => &self.udp_bind,
        }
    }
}

/// The nets of a map, in its order, as shared handles.
fn net_values(net: &NameMap<Net>) -> (r: Vec<Net>)
    ensures
        r@ == net.values(),
{
    let n = net.len();
    let mut r: Vec<Net> = Vec::new();
    let mut i: usize = 0;
    while i < n
        invariant
            n == net.pairs().len(),
            i <= n,
            r@ == net.values().take(i as int),
        decreases n - i,
    {
        let (_, v) = net.entry(i);
        r.push(v.clone());
        proof {
            assert(net.values().take(i + 1) =~= net.values().take(i as int).push(net.values()[i as int]));
        }
        i += 1;
    }
    assert(net.values().take(n as int) =~= net.values());
    r
}

impl SelectNet {
    /// A select net over the nets of `net`, in the map's order; at least
    /// one candidate is required.
    pub fn new(net: NameMap<Net>) -> (r: Result<Net, Error>)
        ensures
            r is Err <==> net.pairs().len() == 0,
            r matches Ok(n) ==> (*n matches NetNode::Select(s) && s.nets@ == net.values()),
    {
        let nets = net_values(&net);
        if nets.len() == 0 {
            return Err(Error::Other("net_list is required".to_owned()));
        }
        Ok(Arc::new(NetNode::Select(SelectNet { nets })))
    }

    /// The candidate that serves a call: the first one.
    pub fn get(&self) -> (r: &Net)
        requires
            self.nets@.len() > 0,
        ensures
            r == self.nets@[0],
    {
        &self.nets[0]
    }
}

impl RuleNet {
    /// A rule net whose targets are looked up by name in `net`; fails with
    /// `NotFound` for the first target that `net` lacks.
    pub fn new(net: &NameMap<Net>, rules: Vec<RuleConfig>) -> (r: Result<Net, Error>)
        requires
            net.wf(),
        ensures
            r is Ok <==> forall|i: int|
                0 <= i < rules@.len() ==> net.view().dom().contains(#[trigger] rules@[i].target@),
            r matches Err(e) ==> (e matches Error::NotFound(name) && exists|i: int|
                0 <= i < rules@.len() && rules@[i].target@ == name@ && !net.view().dom().contains(
                    name@,
                )),
            r matches Ok(n) ==> (*n matches NetNode::Rule(rn) && rn.rules@.len() == rules@.len()
                && forall|i: int|
                0 <= i < rules@.len() ==> (#[trigger] rn.rules@[i]).matcher == rules@[i].matcher
                    && rn.rules@[i].target == net.view()[rules@[i].target@]),
    {
        let ghost cfg = rules@;
        let mut out: Vec<Rule> = Vec::new();
        let mut rest = rules;
        let n = rest.len();
        let mut i: usize = 0;
        while i < n
            invariant
                cfg == rules@,
                n == cfg.len(),
                i <= n,
                rest@ == cfg.skip(i as int),
                net.wf(),
                out@.len() == i,
                forall|k: int| 0 <= k < i ==> net.view().dom().contains(#[trigger] cfg[k].target@),
                forall|k: int|
                    0 <= k < i ==> (#[trigger] out@[k]).matcher == cfg[k].matcher && out@[k].target
                        == net.view()[cfg[k].target@],
            decreases n - i,
        {
            let item = rest.remove(0);
            assert(item == cfg[i as int]);
            assert(rest@ =~= cfg.skip(i + 1));
            match net.get(&item.target) {
                Some(t) => {
                    out.push(Rule { matcher: item.matcher, target: t.clone() });
                },
                None => {
                    return Err(Error::NotFound(item.target));
                },
            }
            i += 1;
        }
        Ok(Arc::new(NetNode::Rule(RuleNet { rules: out })))
    }
}

impl NetNode {
    /// The leaf that serves `op` towards `addr`: each composite forwards the
    /// call to one of its nets, a no-op net fails with `NotImplemented`.
    pub fn route(&self, op: Operation, addr: &Address) -> (r: Result<String, Error>)
        ensures
            outcome_is(r, route(*self, op, *addr)),
        decreases self,
    {
        match self {
            NetNode::Leaf(name) => Ok(name.clone()),
            NetNode::Noop(n) => match op {
                Operation::TcpConnect => n.tcp_connect(addr),
                Operation::TcpBind => n.tcp_bind(addr),
                Operation::UdpBind => n.udp_bind(addr),
            },
            NetNode::Combine(c) => c.net_for(op).route(op, addr),
            NetNode::Select(s) => {
                if s.nets.len() == 0 {
                    return Err(Error::NotImplemented);
                }
                s.get().route(op, addr)
            },
            NetNode::Rule(rn) => {
                let mut i: usize = 0;
                while i < rn.rules.len()
                    invariant
                        *self == NetNode::Rule(*rn),
                        i <= rn.rules@.len(),
                        forall|j: int| 0 <= j < i ==> !matcher_accepts(rn.rules@[j].matcher, *addr),
                    decreases rn.rules@.len() - i,
                {
                    if rn.rules[i].matcher.match_rule(addr) {
                        proof {
                            let rs = rn.rules@;
                            assert(matcher_accepts(rs[i as int].matcher, *addr));
                            assert(0 <= i < rs.len() && matcher_accepts(rs[i as int].matcher, *addr)
                                && forall|j: int| 0 <= j < i ==> !matcher_accepts(rs[j].matcher, *addr));
                            let f = first_match(rs, *addr);
                            assert(f is Some);
                            let k = f->0;
                            assert(k == i as int) by {
                                if k < i {
                                    assert(!matcher_accepts(rs[k].matcher, *addr));
                                } else if k > i {
                                    assert(!matcher_accepts(rs[i as int].matcher, *addr));
                                }
                            }
                        }
                        let t = &rn.rules[i].target;
                        proof {
                            let ghost rules = rn.rules;
                            assert(decreases_to!(*self => *rules[i as int].target));
                        }
                        return t.route(op, addr);
                    }
                    i += 1;
                }
                Err(Error::NotImplemented)
            },
        }
    }

    pub fn tcp_connect(&self, addr: &Address) -> (r: Result<String, Error>)
        ensures
            outcome_is(r, route(*self, Operation::TcpConnect, *addr)),
    {
        self.route(Operation::TcpConnect, addr)
    }

    pub fn tcp_bind(&self, addr: &Address) -> (r: Result<String, Error>)
        ensures
            outcome_is(r, route(*self, Operation::TcpBind, *addr)),
    {
        self.route(Operation::TcpBind, addr)
    }

    pub fn udp_bind(&self, addr: &Address) -> (r: Result<String, Error>)
        ensures
            outcome_is(r, route(*self, Operation::UdpBind, *addr)),
    {
        self.route(Operation::UdpBind, addr)
    }
}

/// A select net with at least one candidate routes every call exactly as its
/// first candidate does: picking the candidate never fails by itself.
pub proof fn lemma_select_forwards(s: SelectNet, op: Operation, addr: Address)
    requires
        s.nets@.len() >= 1,
    ensures
        route(NetNode::Select(s), op, addr) == route(*s.nets@[0], op, addr),
{
}

/// A composite net of the configured kind over the nets of `net`.
pub fn build_composite(net: NameMap<Net>, config: Composite) -> (r: Result<Net, Error>)
    requires
        net.wf(),
    ensures
        match config {
            Composite::Select => (r is Err <==> net.pairs().len() == 0) && (r matches Ok(n) ==> (
            *n matches NetNode::Select(s) && s.nets@ == net.values())),
            Composite::Rule(rules) => r is Ok <==> forall|i: int|
                0 <= i < rules@.len() ==> net.view().dom().contains(#[trigger] rules@[i].target@),
        },
{
    match config {
        Composite::Rule(rules) => RuleNet::new(&net, rules),
        Composite::Select => SelectNet::new(net),
    }
}

} // verus!
