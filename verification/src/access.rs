//! Typed accessors, indexed access and iteration. Every typed
//! accessor transparently unwraps anchored nodes and resolved
//! aliases; an unresolved alias answers "no value". Lookups never
//! fail destructively: anything absent or ill-shaped yields the
//! `BadValue` sentinel, on which further lookups yield it again.
use vstd::prelude::*;
use crate::value::{NodeV, YamlInput, node_view, nodes_view, pairs_view, lemma_nodes_view,
    lemma_pairs_view};
use crate::builder::find_key;


verus! {

broadcast use vstd::std_specs::vec::group_vec_axioms, vstd::seq::group_seq_axioms;

/// The concrete node behind anchor/alias wrappers: what a node
/// answers as. An unresolved alias has no value.
pub open spec fn unwrapped(n: NodeV) -> Option<NodeV>
    decreases n,
{
    match n {
        NodeV::Anchored(_, c) => unwrapped(*c),
        NodeV::Aliased(_, payload) => match payload {
            Some(c) => unwrapped(*c),
            None => None,
        },
        _ => Some(n),
    }
}

/// The value under the first entry with this key, or `Bad`.
pub open spec fn hash_get(es: Seq<(NodeV, NodeV)>, k: NodeV) -> NodeV {
    if find_key(es, k) == -1 {
        NodeV::Bad
    } else {
        es[find_key(es, k)].1
    }
}

/// What string-key indexing yields: the value under that string key
/// of the mapping the node answers as, else `Bad`.
pub open spec fn index_str_spec(n: NodeV, key: Seq<char>) -> NodeV {
    match unwrapped(n) {
        Some(NodeV::Hash(es)) => hash_get(es, NodeV::Str(key)),
        _ => NodeV::Bad,
    }
}

/// What integer indexing yields: the element of the sequence the
/// node answers as, the value under the integer key when it answers
/// as a mapping, else `Bad`.
pub open spec fn index_at_spec(n: NodeV, i: int) -> NodeV {
    match unwrapped(n) {
        Some(NodeV::Arr(s)) => if i < s.len() {
            s[i]
        } else {
            NodeV::Bad
        },
        Some(NodeV::Hash(es)) => if i <= i64::MAX {
            hash_get(es, NodeV::Int(i as i64))
        } else {
            NodeV::Bad
        },
        _ => NodeV::Bad,
    }
}

impl YamlInput {
    /// The node this one answers as, through anchored wrappers and
    /// resolved aliases.
    fn resolved(&self) -> (r: Option<&YamlInput>)
        ensures
            match r {
                Some(x) => unwrapped(self@) == Some(x@),
                None => unwrapped(self@) is None,
            },
        decreases *self,
    {
        match self {
            YamlInput::Anchored(_, c) => c.resolved(),
            YamlInput::Aliased(_, payload) => match payload {
                Some(c) => c.resolved(),
                None => None,
            },
            _ => Some(self),
        }
    }

    /// Whether the node answers as null: true exactly when what it
    /// answers as, through anchored wrappers and resolved aliases, is
    /// the null node. An unresolved alias answers false.
    pub fn is_null(&self) -> (r: bool)
        ensures
            r == (unwrapped(self@) == Some(NodeV::Null)),
    {
        match self.resolved() {
            Some(YamlInput::Null) => true,
            _ => false,
        }
    }

    /// Whether the node answers as the `BadValue` sentinel, through
    /// anchored wrappers and resolved aliases. An unresolved alias
    /// answers false.
    pub fn is_badvalue(&self) -> (r: bool)
        ensures
            r == (unwrapped(self@) == Some(NodeV::Bad)),
    {
        match self.resolved() {
            Some(YamlInput::BadValue) => true,
            _ => false,
        }
    }

    /// Whether the node answers as a sequence, through anchored
    /// wrappers and resolved aliases. An unresolved alias answers
    /// false.
    pub fn is_array(&self) -> (r: bool)
        ensures
            r == (unwrapped(self@) matches Some(NodeV::Arr(_))),
    {
        match self.resolved() {
            Some(YamlInput::Array(_)) => true,
            _ => false,
        }
    }

    /// The boolean the node answers as, if any.
    pub fn as_bool(&self) -> (r: Option<bool>)
        ensures
            r == (match unwrapped(self@) {
                Some(NodeV::Bool(b)) => Some(b),
                _ => None::<bool>,
            }),
    {
        match self.resolved() {
            Some(YamlInput::Boolean(b)) => Some(*b),
            _ => None,
        }
    }

    /// The integer the node answers as, if any.
    pub fn as_i64(&self) -> (r: Option<i64>)
        ensures
            r == (match unwrapped(self@) {
                Some(NodeV::Int(v)) => Some(v),
                _ => None::<i64>,
            }),
    {
        match self.resolved() {
            Some(YamlInput::Integer(v)) => Some(*v),
            _ => None,
        }
    }

    /// The string slice the node answers as, if any.
    pub fn as_str(&self) -> (r: Option<&str>)
        ensures
            match r {
                Some(s) => unwrapped(self@) == Some(NodeV::Str(s@)),
                None => !(unwrapped(self@) matches Some(NodeV::Str(_))),
            },
    {
        match self.resolved() {
            Some(YamlInput::String(s)) => Some(s.as_str()),
            _ => None,
        }
    }

    /// The float text the node answers as, if any. The text is the
    /// scalar's original spelling; parsing it is left to the caller.
    pub fn as_real_str(&self) -> (r: Option<&str>)
        ensures
            match r {
                Some(s) => unwrapped(self@) == Some(NodeV::Real(s@)),
                None => !(unwrapped(self@) matches Some(NodeV::Real(_))),
            },
    {
        match self.resolved() {
            Some(YamlInput::Real(s)) => Some(s.as_str()),
            _ => None,
        }
    }

    /// The element vector the node answers as, if any.
    pub fn as_vec(&self) -> (r: Option<&Vec<YamlInput>>)
        ensures
            match r {
                Some(v) => unwrapped(self@) == Some(NodeV::Arr(nodes_view(v@))),
                None => !(unwrapped(self@) matches Some(NodeV::Arr(_))),
            },
    {
        match self.resolved() {
            Some(YamlInput::Array(v)) => Some(v),
            _ => None,
        }
    }

    /// The entry vector the node answers as, if any, in insertion
    /// order.
    pub fn as_hash(&self) -> (r: Option<&Vec<(YamlInput, YamlInput)>>)
        ensures
            match r {
                Some(v) => unwrapped(self@) == Some(NodeV::Hash(pairs_view(v@))),
                None => !(unwrapped(self@) matches Some(NodeV::Hash(_))),
            },
    {
        match self.resolved() {
            Some(YamlInput::Hash(v)) => Some(v),
            _ => None,
        }
    }

    /// The boolean the node answers as, consuming it.
    pub fn into_bool(self) -> (r: Option<bool>)
        ensures
            r == (match unwrapped(self@) {
                Some(NodeV::Bool(b)) => Some(b),
                _ => None::<bool>,
            }),
        decreases self,
    {
        match self {
            YamlInput::Boolean(b) => Some(b),
            YamlInput::Anchored(_, c) => (*c).into_bool(),
            YamlInput::Aliased(_, payload) => match payload {
                Some(c) => (*c).into_bool(),
                None => None,
            },
            _ => None,
        }
    }

    /// The integer the node answers as, consuming it.
    pub fn into_i64(self) -> (r: Option<i64>)
        ensures
            r == (match unwrapped(self@) {
                Some(NodeV::Int(v)) => Some(v),
                _ => None::<i64>,
            }),
        decreases self,
    {
        match self {
            YamlInput::Integer(v) => Some(v),
            YamlInput::Anchored(_, c) => (*c).into_i64(),
            YamlInput::Aliased(_, payload) => match payload {
                Some(c) => (*c).into_i64(),
                None => None,
            },
            _ => None,
        }
    }

    /// The string the node answers as, consuming it.
    pub fn into_string(self) -> (r: Option<String>)
        ensures
            match r {
                Some(s) => unwrapped(self@) == Some(NodeV::Str(s@)),
                None => !(unwrapped(self@) matches Some(NodeV::Str(_))),
            },
        decreases self,
    {
        match self {
            YamlInput::String(s) => Some(s),
            YamlInput::Anchored(_, c) => (*c).into_string(),
            YamlInput::Aliased(_, payload) => match payload {
                Some(c) => (*c).into_string(),
                None => None,
            },
            _ => None,
        }
    }

    /// The element vector the node answers as, consuming it.
    pub fn into_vec(self) -> (r: Option<Vec<YamlInput>>)
        ensures
            match r {
                Some(v) => unwrapped(self@) == Some(NodeV::Arr(nodes_view(v@))),
                None => !(unwrapped(self@) matches Some(NodeV::Arr(_))),
            },
        decreases self,
    {
        match self {
            YamlInput::Array(v) => Some(v),
            YamlInput::Anchored(_, c) => (*c).into_vec(),
            YamlInput::Aliased(_, payload) => match payload {
                Some(c) => (*c).into_vec(),
                None => None,
            },
            _ => None,
        }
    }

    /// The entry vector the node answers as, consuming it.
    pub fn into_hash(self) -> (r: Option<Vec<(YamlInput, YamlInput)>>)
        ensures
            match r {
                Some(v) => unwrapped(self@) == Some(NodeV::Hash(pairs_view(v@))),
                None => !(unwrapped(self@) matches Some(NodeV::Hash(_))),
            },
        decreases self,
    {
        match self {
            YamlInput::Hash(v) => Some(v),
            YamlInput::Anchored(_, c) => (*c).into_hash(),
            YamlInput::Aliased(_, payload) => match payload {
                Some(c) => (*c).into_hash(),
                None => None,
            },
            _ => None,
        }
    }

    /// String-key lookup: the value under the key of the mapping
    /// this node answers as, copied out, and `BadValue` when the key
    /// is absent or the node answers as no mapping.
    pub fn index_str(&self, key: &str) -> (r: YamlInput)
        ensures
            r@ == index_str_spec(self@, key@),
    {
        let probe = YamlInput::String(key.to_owned());
        match self.as_hash() {
            Some(es) => {
                proof {
                    lemma_pairs_view(es@);
                    crate::builder::lemma_find_key(pairs_view(es@), probe@);
                }
                let n = es.len();
                let mut i: usize = 0;
                while i < n
                    invariant
                        0 <= i <= n,
                        n == es@.len(),
                        probe@ == NodeV::Str(key@),
                        unwrapped(self@) == Some(NodeV::Hash(pairs_view(es@))),
                        pairs_view(es@).len() == n,
                        forall|j: int| 0 <= j < n ==> #[trigger] pairs_view(es@)[j] == (
                            node_view(es@[j].0),
                            node_view(es@[j].1),
                        ),
                        forall|j: int| 0 <= j < i ==> (#[trigger] pairs_view(es@)[j]).0 != probe@,
                    decreases n - i,
                {
                    if es[i].0.equals(&probe) {
                        proof {
                            let pv = pairs_view(es@);
                            crate::builder::lemma_find_key(pv, probe@);
                            if find_key(pv, probe@) == -1 {
                                assert(pv[i as int].0 != probe@);
                                assert(false);
                            }
                            if find_key(pv, probe@) < i {
                                assert(pv[find_key(pv, probe@)].0 != probe@);
                                assert(false);
                            }
                            if find_key(pv, probe@) > i {
                                assert(pv[i as int].0 != probe@);
                                assert(false);
                            }
                        }
                        return es[i].1.duplicate();
                    }
                    i = i + 1;
                }
                proof {
                    let pv = pairs_view(es@);
                    crate::builder::lemma_find_key(pv, probe@);
                    if find_key(pv, probe@) != -1 {
                        assert(pv[find_key(pv, probe@)].0 != probe@);
                        assert(false);
                    }
                }
                YamlInput::BadValue
            },
            None => YamlInput::BadValue,
        }
    }

    /// Integer lookup: the element at this position of the sequence
    /// this node answers as; for a mapping, the value under the bare
    /// integer key; `BadValue` otherwise. Positions beyond the signed
    /// 64-bit range find no integer key.
    pub fn index_at(&self, idx: usize) -> (r: YamlInput)
        ensures
            r@ == index_at_spec(self@, idx as int),
    {
        if let Some(v) = self.as_vec() {
            proof {
                lemma_nodes_view(v@);
            }
            if idx < v.len() {
                return v[idx].duplicate();
            }
            return YamlInput::BadValue;
        }
        if idx as u64 > 0x7fff_ffff_ffff_ffffu64 {
            return YamlInput::BadValue;
        }
        let probe = YamlInput::Integer(idx as i64);
        match self.as_hash() {
            Some(es) => {
                proof {
                    lemma_pairs_view(es@);
                }
                let n = es.len();
                let mut i: usize = 0;
                while i < n
                    invariant
                        0 <= i <= n,
                        n == es@.len(),
                        idx <= i64::MAX,
                        probe@ == NodeV::Int(idx as i64),
                        unwrapped(self@) == Some(NodeV::Hash(pairs_view(es@))),
                        pairs_view(es@).len() == n,
                        forall|j: int| 0 <= j < n ==> #[trigger] pairs_view(es@)[j] == (
                            node_view(es@[j].0),
                            node_view(es@[j].1),
                        ),
                        forall|j: int| 0 <= j < i ==> (#[trigger] pairs_view(es@)[j]).0 != probe@,
                    decreases n - i,
                {
                    if es[i].0.equals(&probe) {
                        proof {
                            let pv = pairs_view(es@);
                            crate::builder::lemma_find_key(pv, probe@);
                            if find_key(pv, probe@) == -1 {
                                assert(pv[i as int].0 != probe@);
                                assert(false);
                            }
                            if find_key(pv, probe@) < i {
                                assert(pv[find_key(pv, probe@)].0 != probe@);
                                assert(false);
                            }
                            if find_key(pv, probe@) > i {
                                assert(pv[i as int].0 != probe@);
                                assert(false);
                            }
                        }
                        return es[i].1.duplicate();
                    }
                    i = i + 1;
                }
                proof {
                    let pv = pairs_view(es@);
                    crate::builder::lemma_find_key(pv, probe@);
                    if find_key(pv, probe@) != -1 {
                        assert(pv[find_key(pv, probe@)].0 != probe@);
                        assert(false);
                    }
                }
                YamlInput::BadValue
            },
            None => YamlInput::BadValue,
        }
    }

    /// An iterator over the node's own elements when it answers as a
    /// sequence, and over nothing otherwise.
    pub fn into_iter(self) -> (r: YamlInputIter)
        ensures
            r@ == (match unwrapped(self@) {
                Some(NodeV::Arr(s)) => s,
                _ => Seq::<NodeV>::empty(),
            }),
    {
        let items = match self.into_vec() {
            Some(v) => v,
            None => Vec::new(),
        };
        proof {
            lemma_nodes_view(items@);
            if items@.len() == 0 {
                assert(nodes_view(items@) =~= Seq::<NodeV>::empty());
            }
        }
        YamlInputIter { items, pos: 0 }
    }
}

/// An iterator over a node's elements, front to back.
pub struct YamlInputIter {
    items: Vec<YamlInput>,
    pos: usize,
}

impl View for YamlInputIter {
    type V = Seq<NodeV>;

    closed spec fn view(&self) -> Seq<NodeV> {
        let nv = nodes_view(self.items@);
        if self.pos <= nv.len() {
            nv.skip(self.pos as int)
        } else {
            Seq::empty()
        }
    }
}

impl YamlInputIter {
    /// The next element, front first, until none are left.
    pub fn next(&mut self) -> (r: Option<YamlInput>)
        ensures
            old(self)@.len() == 0 ==> r is None && final(self)@ == old(self)@,
            old(self)@.len() > 0 ==> match r {
                Some(x) => x@ == old(self)@[0] && final(self)@ == old(self)@.skip(1),
                None => false,
            },
    {
        proof {
            lemma_nodes_view(self.items@);
        }
        if self.pos < self.items.len() {
            let x = self.items[self.pos].duplicate();
            self.pos = self.pos + 1;
            proof {
                assert(old(self)@[0] == nodes_view(self.items@)[old(self).pos as int]);
                assert(nodes_view(self.items@).skip(self.pos as int) =~= old(
                    self,
                )@.skip(1));
            }
            Some(x)
        } else {
            proof {
                assert(old(self)@ =~= Seq::<NodeV>::empty());
            }
            None
        }
    }
}

} // verus!
