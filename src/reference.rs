//! Named references between nets, and resolving them.
use crate::error::Error;
use crate::name_map::NameMap;
use crate::net::{Net, NetNode, NoopNet};
use std::sync::Arc;
use vstd::prelude::*;
use vstd::set_lib::lemma_len_subset;

verus! {

/// Nets by instance name.
pub type NetMap = NameMap<Net>;

/// A reference to another net: a name in the configuration, filled with the
/// net of that name once resolved.
#[derive(Clone)]
pub struct NetRef {
    name: String,
    net: Option<Net>,
}

/// The reference used where a configuration names none.
pub fn default_net() -> (r: NetRef)
    ensures
        r.ref_name() == "local"@,
        r.resolved_net() is None,
{
    NetRef { name: "local".to_owned(), net: None }
}

impl Default for NetRef {
    fn default() -> (r: NetRef)
        ensures
            r.ref_name() == "local"@,
            r.resolved_net() is None,
    {
        default_net()
    }
}

impl NetRef {
    /// The name this reference stands for.
    pub closed spec fn ref_name(&self) -> Seq<char> {
        self.name@
    }

    /// The net filled in by the last successful resolution, if any.
    pub closed spec fn resolved_net(&self) -> Option<Net> {
        self.net
    }

    /// An unresolved reference to `name`.
    pub fn from(name: String) -> (r: NetRef)
        ensures
            r.ref_name() == name@,
            r.resolved_net() is None,
    {
        NetRef { name, net: None }
    }

    pub fn name(&self) -> (r: &str)
        ensures
            r@ == self.ref_name(),
    {
        self.name.as_str()
    }

    /// The referenced net; the reference must have been resolved.
    pub fn net(&self) -> (r: Net)
        requires
            self.resolved_net() is Some,
        ensures
            r == self.resolved_net()->0,
    {
        match &self.net {
            Some(n) => n.clone(),
            None => {
                assert(false);
                Arc::new(NetNode::Noop(NoopNet))
            },
        }
    }
}

/// Values that may hold references to nets, at any depth.
pub trait ResolveNetRef: Sized {
    /// The names referenced, in order of traversal.
    spec fn refs(&self) -> Seq<Seq<char>>;

    /// Every reference holds the net that `nets` maps its name to.
    spec fn resolved_by(&self, nets: Map<Seq<char>, Net>) -> bool;

    /// Fills every reference with the net of its name in `nets`. Fails with
    /// `NotFound` for a referenced name that `nets` lacks.
    fn resolve(&mut self, nets: &NetMap) -> (r: Result<(), Error>)
        requires
            nets.wf(),
        ensures
            final(self).refs() == old(self).refs(),
            r is Ok <==> forall|n: Seq<char>| #[trigger]
                old(self).refs().contains(n) ==> nets.view().dom().contains(n),
            r is Ok ==> final(self).resolved_by(nets.view()),
            r matches Err(e) ==> (e matches Error::NotFound(n) && old(self).refs().contains(n@)
                && !nets.view().dom().contains(n@)),
    ;

    /// The distinct names referenced, found by resolving against a growing
    /// map of placeholder nets until resolution succeeds.
    fn get_dependency(&mut self) -> (r: Result<Vec<String>, Error>)
        ensures
            r matches Ok(names) ==> names@.map_values(|s: String| s@).no_duplicates(),
            r matches Ok(names) ==> names@.map_values(|s: String| s@).to_set() == old(
                self,
            ).refs().to_set(),
            r is Ok,
    {
        let ghost refs = self.refs();
        let noop: Net = Arc::new(NetNode::Noop(NoopNet));
        let mut tmp: NetMap = NameMap::new();
        loop
            invariant
                tmp.wf(),
                self.refs() == refs,
                refs == old(self).refs(),
                forall|k: int| 0 <= k < tmp.names().len() ==> refs.contains(#[trigger] tmp.names()[k]),
            ensures
                tmp.wf(),
                forall|k: int| 0 <= k < tmp.names().len() ==> refs.contains(#[trigger] tmp.names()[k]),
                forall|x: Seq<char>| #[trigger] refs.contains(x) ==> tmp.view().dom().contains(x),
            decreases refs.to_set().len() - tmp.names().len(),
        {
            proof {
                lemma_names_bounded(tmp.names(), refs);
            }
            match self.resolve(&tmp) {
                Ok(()) => {
                    break;
                },
                Err(Error::NotFound(key)) => {
                    let ghost names0 = tmp.names();
                    let ghost k = key@;
                    tmp.insert(key, noop.clone());
                    proof {
                        assert(tmp.names() =~= names0.push(k));
                        assert forall|j: int| 0 <= j < tmp.names().len() implies refs.contains(
                            #[trigger] tmp.names()[j],
                        ) by {
                            if j < names0.len() {
                                assert(tmp.names()[j] == names0[j]);
                            }
                        }
                        lemma_names_bounded(tmp.names(), refs);
                    }
                },
                Err(e) => {
                    return Err(e);
                },
            }
        }
        proof {
            crate::name_map::lemma_map_of_dom(tmp.pairs());
        }
        let n = tmp.len();
        let mut out: Vec<String> = Vec::new();
        let mut i: usize = 0;
        while i < n
            invariant
                n == tmp.pairs().len(),
                i <= n,
                out@.map_values(|s: String| s@) == tmp.names().take(i as int),
            decreases n - i,
        {
            let (k, _) = tmp.entry(i);
            let ghost out0 = out@;
            out.push(k.clone());
            proof {
                assert(tmp.names()[i as int] == k@);
                assert(out0.map_values(|s: String| s@).len() == i);
                let ghost view_now = out@.map_values(|s: String| s@);
                assert forall|j: int| 0 <= j < i + 1 implies #[trigger] view_now[j]
                    == tmp.names().take(i + 1)[j] by {
                    if j < i {
                        assert(out@[j] == out0[j]);
                        assert(out0.map_values(|s: String| s@)[j] == tmp.names().take(i as int)[j]);
                    }
                }
                assert(out@.map_values(|s: String| s@) =~= tmp.names().take(i + 1));
            }
            i += 1;
        }
        proof {
            let names = out@.map_values(|s: String| s@);
            assert(names =~= tmp.names());
            assert(names.to_set() =~= refs.to_set()) by {
                assert forall|x: Seq<char>| names.to_set().contains(x) <==> refs.to_set().contains(x) by {
                    if names.contains(x) {
                        let k = choose|k: int| 0 <= k < names.len() && names[k] == x;
                        assert(refs.contains(tmp.names()[k]));
                    }
                    if refs.contains(x) {
                        assert(tmp.view().dom().contains(x));
                    }
                }
            }
        }
        Ok(out)
    }
}

/// A duplicate-free sequence of referenced names has at most as many
/// entries as there are distinct references.
proof fn lemma_names_bounded(names: Seq<Seq<char>>, refs: Seq<Seq<char>>)
    requires
        names.no_duplicates(),
        forall|k: int| 0 <= k < names.len() ==> refs.contains(#[trigger] names[k]),
    ensures
        names.len() <= refs.to_set().len(),
{
    names.unique_seq_to_set();
    assert(names.to_set().subset_of(refs.to_set())) by {
        assert forall|x: Seq<char>| names.to_set().contains(x) implies refs.to_set().contains(x) by {
            let k = choose|k: int| 0 <= k < names.len() && names[k] == x;
        }
    }
    lemma_len_subset(names.to_set(), refs.to_set());
}

impl ResolveNetRef for NetRef {
    closed spec fn refs(&self) -> Seq<Seq<char>> {
        seq![self.name@]
    }

    closed spec fn resolved_by(&self, nets: Map<Seq<char>, Net>) -> bool {
        self.net == Some(nets[self.name@])
    }

    fn resolve(&mut self, nets: &NetMap) -> (r: Result<(), Error>) {
        proof {
            assert forall|n: Seq<char>| #[trigger] self.refs().contains(n) implies n == self.name@ by {
                let k = choose|k: int| 0 <= k < self.refs().len() && self.refs()[k] == n;
            }
            assert(self.refs().contains(self.name@)) by {
                assert(self.refs()[0] == self.name@);
            }
        }
        match nets.get(&self.name) {
            Some(n) => {
                let c = n.clone();
                assert(c == nets.view()[self.name@]);
                self.net = Some(c);
                assert(self.resolved_by(nets.view()));
                Ok(())
            },
            None => {
                assert(self.refs()[0] == self.name@);
                Err(Error::NotFound(self.name.clone()))
            },
        }
    }
}

/// The references of a sequence of values, in order.
pub open spec fn refs_of_seq<T: ResolveNetRef>(s: Seq<T>) -> Seq<Seq<char>>
    decreases s.len(),
{
    if s.len() == 0 {
        Seq::empty()
    } else {
        refs_of_seq(s.drop_last()) + s.last().refs()
    }
}

proof fn lemma_refs_of_seq_contains<T: ResolveNetRef>(s: Seq<T>, n: Seq<char>)
    ensures
        refs_of_seq(s).contains(n) <==> exists|k: int| 0 <= k < s.len() && (#[trigger] s[k]).refs().contains(n),
    decreases s.len(),
{
    if s.len() > 0 {
        let t = s.drop_last();
        lemma_refs_of_seq_contains(t, n);
        let a = refs_of_seq(t);
        let b = s.last().refs();
        if (a + b).contains(n) {
            let x = choose|x: int| 0 <= x < (a + b).len() && (a + b)[x] == n;
            if x < a.len() {
                assert(a.contains(n));
                let k = choose|k: int| 0 <= k < t.len() && (#[trigger] t[k]).refs().contains(n);
                assert(s[k] == t[k]);
            } else {
                assert(b[x - a.len()] == n);
                assert(s[s.len() - 1].refs().contains(n));
            }
        }
        if exists|k: int| 0 <= k < s.len() && (#[trigger] s[k]).refs().contains(n) {
            let k = choose|k: int| 0 <= k < s.len() && (#[trigger] s[k]).refs().contains(n);
            if k < s.len() - 1 {
                assert(t[k] == s[k]);
                let x = choose|x: int| 0 <= x < a.len() && a[x] == n;
                assert((a + b)[x] == n);
            } else {
                let x = choose|x: int| 0 <= x < b.len() && b[x] == n;
                assert((a + b)[a.len() + x] == n);
            }
        }
    }
}

proof fn lemma_refs_of_seq_same<T: ResolveNetRef>(s1: Seq<T>, s2: Seq<T>)
    requires
        s1.len() == s2.len(),
        forall|k: int| 0 <= k < s1.len() ==> (#[trigger] s1[k]).refs() == s2[k].refs(),
    ensures
        refs_of_seq(s1) == refs_of_seq(s2),
    decreases s1.len(),
{
    if s1.len() > 0 {
        lemma_refs_of_seq_same(s1.drop_last(), s2.drop_last());
        assert(s1.last().refs() == s2.last().refs());
    }
}

impl<T: ResolveNetRef> ResolveNetRef for Vec<T> {
    open spec fn refs(&self) -> Seq<Seq<char>> {
        refs_of_seq(self@)
    }

    open spec fn resolved_by(&self, nets: Map<Seq<char>, Net>) -> bool {
        forall|k: int| 0 <= k < self@.len() ==> (#[trigger] self@[k]).resolved_by(nets)
    }

    fn resolve(&mut self, nets: &NetMap) -> (r: Result<(), Error>) {
        let ghost s0 = self@;
        let n = self.len();
        let mut i: usize = 0;
        while i < n
            invariant
                nets.wf(),
                s0 == old(self)@,
                n == s0.len(),
                i <= n,
                self@.len() == n,
                forall|k: int| 0 <= k < n ==> (#[trigger] self@[k]).refs() == s0[k].refs(),
                forall|k: int| i <= k < n ==> self@[k] == s0[k],
                forall|k: int| 0 <= k < i ==> (#[trigger] self@[k]).resolved_by(nets.view()),
                forall|k: int, x: Seq<char>|
                    0 <= k < i && #[trigger] s0[k].refs().contains(x) ==> nets.view().dom().contains(x),
            decreases n - i,
        {
            let ghost before = self@;
            let res = self[i].resolve(nets);
            proof {
                assert forall|k: int| 0 <= k < n && k != i implies self@[k] == before[k] by {}
                assert(self@[i as int].refs() == s0[i as int].refs());
                assert forall|k: int| 0 <= k < n implies (#[trigger] self@[k]).refs() == s0[k].refs() by {
                    if k != i {
                        assert(self@[k] == before[k]);
                    }
                }
            }
            match res {
                Ok(()) => {},
                Err(e) => {
                    proof {
                        lemma_refs_of_seq_same(self@, s0);
                        let name = e->NotFound_0@;
                        assert(s0[i as int].refs().contains(name));
                        lemma_refs_of_seq_contains(s0, name);
                        assert(self.refs() == refs_of_seq(s0));
                        assert(old(self).refs() == refs_of_seq(s0));
                        assert(old(self).refs().contains(name));
                    }
                    return Err(e);
                },
            }
            i += 1;
        }
        proof {
            lemma_refs_of_seq_same(self@, s0);
            assert forall|x: Seq<char>| #[trigger] refs_of_seq(s0).contains(x) implies nets.view().dom().contains(x) by {
                lemma_refs_of_seq_contains(s0, x);
            }
            assert(self.refs() == refs_of_seq(s0));
            assert(old(self).refs() == refs_of_seq(s0));
            assert(self.resolved_by(nets.view()));
        }
        Ok(())
    }
}

impl<T: ResolveNetRef> ResolveNetRef for Option<T> {
    open spec fn refs(&self) -> Seq<Seq<char>> {
        match self {
            Some(t) => t.refs(),
            None => Seq::empty(),
        }
    }

    open spec fn resolved_by(&self, nets: Map<Seq<char>, Net>) -> bool {
        match self {
            Some(t) => t.resolved_by(nets),
            None => true,
        }
    }

    fn resolve(&mut self, nets: &NetMap) -> (r: Result<(), Error>) {
        match self {
            Some(t) => {
                let r = t.resolve(nets);
                assert(r is Ok ==> self.resolved_by(nets.view()));
                assert(self.refs() == old(self).refs());
                r
            },
            None => Ok(()),
        }
    }
}

impl ResolveNetRef for String {
    open spec fn refs(&self) -> Seq<Seq<char>> {
        Seq::empty()
    }

    open spec fn resolved_by(&self, nets: Map<Seq<char>, Net>) -> bool {
        true
    }

    fn resolve(&mut self, nets: &NetMap) -> (r: Result<(), Error>) {
        assert(self.resolved_by(nets.view()));
        Ok(())
    }
}

} // verus!
