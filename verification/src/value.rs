//! The YAML node model: an input flavor that keeps anchor/alias
//! provenance and an output flavor for re-serialization, together with
//! their mathematical views.
use vstd::prelude::*;

verus! {

broadcast use vstd::std_specs::vec::group_vec_axioms, vstd::seq::group_seq_axioms;

/// Mathematical model of an input-flavor YAML node.
///
/// A mapping is modelled as a sequence of key/value pairs in insertion
/// order; well-formed mappings have pairwise distinct keys.
pub enum NodeV {
    Real(Seq<char>),
    Int(i64),
    Str(Seq<char>),
    Bool(bool),
    Arr(Seq<NodeV>),
    Hash(Seq<(NodeV, NodeV)>),
    Anchored(Seq<char>, Box<NodeV>),
    Aliased(Seq<char>, Option<Box<NodeV>>),
    Null,
    Bad,
}

/// Mathematical model of an output-flavor YAML node: identical to
/// `NodeV` except that an alias carries no payload.
pub enum OutNodeV {
    Real(Seq<char>),
    Int(i64),
    Str(Seq<char>),
    Bool(bool),
    Arr(Seq<OutNodeV>),
    Hash(Seq<(OutNodeV, OutNodeV)>),
    Anchored(Seq<char>, Box<OutNodeV>),
    Alias(Seq<char>),
    Null,
    Bad,
}

/// A read YAML node. Floats are stored as their original text and
/// parsed on demand, so that nodes have a total structural equality.
#[derive(Debug)]
pub enum YamlInput {
    /// Float scalar, kept as the original text.
    Real(String),
    /// Signed 64-bit integer scalar.
    Integer(i64),
    /// Text scalar.
    String(String),
    /// `true` or `false`.
    Boolean(bool),
    /// Ordered sequence of nodes.
    Array(Vec<YamlInput>),
    /// Insertion-ordered mapping; duplicate keys overwrite in place.
    Hash(Vec<(YamlInput, YamlInput)>),
    /// A node that carried an anchor name at its definition site.
    Anchored(String, Box<YamlInput>),
    /// An alias reference; the payload is absent when the alias was
    /// used before its anchor had closed.
    Aliased(String, Option<Box<YamlInput>>),
    /// `null` or `~`.
    Null,
    /// Sentinel for "absent or invalid"; lookups on it yield it again.
    BadValue,
}

/// A write YAML node: the shape handed to the serializer.
#[derive(Debug)]
pub enum YamlOutput {
    /// Float scalar, kept as its original text.
    Real(String),
    /// Signed 64-bit integer scalar.
    Integer(i64),
    /// Text scalar.
    String(String),
    /// `true` or `false`.
    Boolean(bool),
    /// Ordered sequence of nodes.
    Array(Vec<YamlOutput>),
    /// Insertion-ordered mapping.
    Hash(Vec<(YamlOutput, YamlOutput)>),
    /// A node that carries an anchor name.
    Anchored(String, Box<YamlOutput>),
    /// A bare named alias, with no payload.
    Alias(String),
    /// `null` or `~`.
    Null,
    /// Sentinel for "absent or invalid".
    BadValue,
}

/// Model of an input node as a mathematical value.
pub open spec fn node_view(y: YamlInput) -> NodeV
    decreases y,
{
    match y {
        YamlInput::Real(s) => NodeV::Real(s@),
        YamlInput::Integer(i) => NodeV::Int(i),
        YamlInput::String(s) => NodeV::Str(s@),
        YamlInput::Boolean(b) => NodeV::Bool(b),
        YamlInput::Array(v) => NodeV::Arr(nodes_view(v@)),
        YamlInput::Hash(v) => NodeV::Hash(pairs_view(v@)),
        YamlInput::Anchored(name, child) => NodeV::Anchored(name@, Box::new(node_view(*child))),
        YamlInput::Aliased(name, payload) => NodeV::Aliased(
            name@,
            match payload {
                Some(child) => Some(Box::new(node_view(*child))),
                None => None,
            },
        ),
        YamlInput::Null => NodeV::Null,
        YamlInput::BadValue => NodeV::Bad,
    }
}

/// Element-wise model of a sequence of input nodes.
pub open spec fn nodes_view(s: Seq<YamlInput>) -> Seq<NodeV>
    decreases s,
{
    if s.len() == 0 {
        Seq::empty()
    } else {
        nodes_view(s.drop_last()).push(node_view(s.last()))
    }
}

/// Element-wise model of a sequence of mapping entries.
pub open spec fn pairs_view(s: Seq<(YamlInput, YamlInput)>) -> Seq<(NodeV, NodeV)>
    decreases s,
{
    if s.len() == 0 {
        Seq::empty()
    } else {
        pairs_view(s.drop_last()).push((node_view(s.last().0), node_view(s.last().1)))
    }
}

/// Model of an output node as a mathematical value.
pub open spec fn out_view(y: YamlOutput) -> OutNodeV
    decreases y,
{
    match y {
        YamlOutput::Real(s) => OutNodeV::Real(s@),
        YamlOutput::Integer(i) => OutNodeV::Int(i),
        YamlOutput::String(s) => OutNodeV::Str(s@),
        YamlOutput::Boolean(b) => OutNodeV::Bool(b),
        YamlOutput::Array(v) => OutNodeV::Arr(outs_view(v@)),
        YamlOutput::Hash(v) => OutNodeV::Hash(out_pairs_view(v@)),
        YamlOutput::Anchored(name, child) => OutNodeV::Anchored(name@, Box::new(out_view(*child))),
        YamlOutput::Alias(name) => OutNodeV::Alias(name@),
        YamlOutput::Null => OutNodeV::Null,
        YamlOutput::BadValue => OutNodeV::Bad,
    }
}

/// Element-wise model of a sequence of output nodes.
pub open spec fn outs_view(s: Seq<YamlOutput>) -> Seq<OutNodeV>
    decreases s,
{
    if s.len() == 0 {
        Seq::empty()
    } else {
        outs_view(s.drop_last()).push(out_view(s.last()))
    }
}

/// Element-wise model of a sequence of output mapping entries.
pub open spec fn out_pairs_view(s: Seq<(YamlOutput, YamlOutput)>) -> Seq<(OutNodeV, OutNodeV)>
    decreases s,
{
    if s.len() == 0 {
        Seq::empty()
    } else {
        out_pairs_view(s.drop_last()).push((out_view(s.last().0), out_view(s.last().1)))
    }
}

impl View for YamlInput {
    type V = NodeV;

    open spec fn view(&self) -> NodeV {
        node_view(*self)
    }
}

impl View for YamlOutput {
    type V = OutNodeV;

    open spec fn view(&self) -> OutNodeV {
        out_view(*self)
    }
}

/// The element models of a node sequence are the models of its
/// elements, in order.
pub proof fn lemma_nodes_view(s: Seq<YamlInput>)
    ensures
        nodes_view(s).len() == s.len(),
        forall|i: int| 0 <= i < s.len() ==> nodes_view(s)[i] == node_view(s[i]),
    decreases s.len(),
{
    if s.len() > 0 {
        lemma_nodes_view(s.drop_last());
    }
}

/// The element models of an entry sequence are the models of its
/// entries, in order.
pub proof fn lemma_pairs_view(s: Seq<(YamlInput, YamlInput)>)
    ensures
        pairs_view(s).len() == s.len(),
        forall|i: int| 0 <= i < s.len() ==> pairs_view(s)[i] == (
            node_view(s[i].0),
            node_view(s[i].1),
        ),
    decreases s.len(),
{
    if s.len() > 0 {
        lemma_pairs_view(s.drop_last());
    }
}

/// The element models of an output node sequence are the models of
/// its elements, in order.
pub proof fn lemma_outs_view(s: Seq<YamlOutput>)
    ensures
        outs_view(s).len() == s.len(),
        forall|i: int| 0 <= i < s.len() ==> outs_view(s)[i] == out_view(s[i]),
    decreases s.len(),
{
    if s.len() > 0 {
        lemma_outs_view(s.drop_last());
    }
}

/// The element models of an output entry sequence are the models of
/// its entries, in order.
pub proof fn lemma_out_pairs_view(s: Seq<(YamlOutput, YamlOutput)>)
    ensures
        out_pairs_view(s).len() == s.len(),
        forall|i: int| 0 <= i < s.len() ==> out_pairs_view(s)[i] == (
            out_view(s[i].0),
            out_view(s[i].1),
        ),
    decreases s.len(),
{
    if s.len() > 0 {
        lemma_out_pairs_view(s.drop_last());
    }
}


impl YamlInput {
    /// Structural equality: two nodes are equal exactly when their
    /// models are.
    pub fn equals(&self, other: &YamlInput) -> (r: bool)
        ensures
            r == (self@ == other@),
        decreases *self,
    {
        match (self, other) {
            (YamlInput::Real(a), YamlInput::Real(b)) => *a == *b,
            (YamlInput::Integer(a), YamlInput::Integer(b)) => *a == *b,
            (YamlInput::String(a), YamlInput::String(b)) => *a == *b,
            (YamlInput::Boolean(a), YamlInput::Boolean(b)) => *a == *b,
            (YamlInput::Array(av), YamlInput::Array(bv)) => {
                proof {
                    lemma_nodes_view(av@);
                    lemma_nodes_view(bv@);
                }
                if av.len() != bv.len() {
                    return false;
                }
                let n = av.len();
                let mut i: usize = 0;
                while i < n
                    invariant
                        0 <= i <= n,
                        n == av@.len() == bv@.len(),
                        self == YamlInput::Array(*av),
                        other == YamlInput::Array(*bv),
                        forall|j: int| 0 <= j < i ==> nodes_view(av@)[j] == nodes_view(bv@)[j],
                        nodes_view(av@).len() == n,
                        nodes_view(bv@).len() == n,
                        forall|j: int|
                            0 <= j < n ==> nodes_view(av@)[j] == node_view(#[trigger] av@[j]),
                        forall|j: int|
                            0 <= j < n ==> nodes_view(bv@)[j] == node_view(#[trigger] bv@[j]),
                    decreases n - i,
                {
                    proof {
                        assert(decreases_to!(*self => self->Array_0));
                        assert(decreases_to!(*av => av@));
                        assert(decreases_to!(av@ => av@[i as int]));
                    }
                    if !av[i].equals(&bv[i]) {
                        return false;
                    }
                    i = i + 1;
                }
                proof {
                    assert(nodes_view(av@) =~= nodes_view(bv@));
                }
                true
            },
            (YamlInput::Hash(av), YamlInput::Hash(bv)) => {
                proof {
                    lemma_pairs_view(av@);
                    lemma_pairs_view(bv@);
                }
                if av.len() != bv.len() {
                    return false;
                }
                let n = av.len();
                let mut i: usize = 0;
                while i < n
                    invariant
                        0 <= i <= n,
                        n == av@.len() == bv@.len(),
                        self == YamlInput::Hash(*av),
                        other == YamlInput::Hash(*bv),
                        forall|j: int| 0 <= j < i ==> pairs_view(av@)[j] == pairs_view(bv@)[j],
                        pairs_view(av@).len() == n,
                        pairs_view(bv@).len() == n,
                        forall|j: int|
                            0 <= j < n ==> pairs_view(av@)[j] == (
                            node_view(#[trigger] av@[j].0),
                            node_view(av@[j].1),
                            ),
                        forall|j: int|
                            0 <= j < n ==> pairs_view(bv@)[j] == (
                            node_view(#[trigger] bv@[j].0),
                            node_view(bv@[j].1),
                            ),
                    decreases n - i,
                {
                    proof {
                        assert(decreases_to!(*self => self->Hash_0));
                        assert(decreases_to!(*av => av@));
                        assert(decreases_to!(av@ => av@[i as int]));
                        assert(decreases_to!(av@[i as int] => av@[i as int].0));
                        assert(decreases_to!(av@[i as int] => av@[i as int].1));
                    }
                    let ka = &av[i].0;
                    let kb = &bv[i].0;
                    if !ka.equals(kb) {
                        return false;
                    }
                    if !av[i].1.equals(&bv[i].1) {
                        return false;
                    }
                    i = i + 1;
                }
                proof {
                    assert(pairs_view(av@) =~= pairs_view(bv@));
                }
                true
            },
            (YamlInput::Anchored(an, ac), YamlInput::Anchored(bn, bc)) => *an == *bn
                && ac.equals(bc),
            (YamlInput::Aliased(an, ac), YamlInput::Aliased(bn, bc)) => {
                if !(*an == *bn) {
                    return false;
                }
                match (ac, bc) {
                    (None, None) => true,
                    (Some(a), Some(b)) => a.equals(b),
                    _ => false,
                }
            },
            (YamlInput::Null, YamlInput::Null) => true,
            (YamlInput::BadValue, YamlInput::BadValue) => true,
            _ => {
                proof {
                    assert(self@ != other@);
                }
                false
            },
        }
    }
}

impl PartialEq for YamlInput {
    fn eq(&self, other: &Self) -> bool {
        self.equals(other)
    }
}

impl Eq for YamlInput {}

impl vstd::std_specs::cmp::PartialEqSpecImpl for YamlInput {
    open spec fn obeys_eq_spec() -> bool {
        true
    }

    open spec fn eq_spec(&self, other: &YamlInput) -> bool {
        self@ == other@
    }
}


impl YamlInput {
    /// A deep copy with the same model.
    pub fn duplicate(&self) -> (r: YamlInput)
        ensures
            r@ == self@,
        decreases *self,
    {
        match self {
            YamlInput::Real(s) => YamlInput::Real(s.clone()),
            YamlInput::Integer(i) => YamlInput::Integer(*i),
            YamlInput::String(s) => YamlInput::String(s.clone()),
            YamlInput::Boolean(b) => YamlInput::Boolean(*b),
            YamlInput::Array(av) => {
                proof {
                    lemma_nodes_view(av@);
                }
                let n = av.len();
                let mut out: Vec<YamlInput> = Vec::new();
                let mut i: usize = 0;
                while i < n
                    invariant
                        0 <= i <= n,
                        n == av@.len(),
                        self == YamlInput::Array(*av),
                        out@.len() == i,
                        forall|j: int|
                            0 <= j < i ==> node_view(#[trigger] out@[j]) == node_view(av@[j]),
                    decreases n - i,
                {
                    proof {
                        assert(decreases_to!(*self => self->Array_0));
                        assert(decreases_to!(*av => av@));
                        assert(decreases_to!(av@ => av@[i as int]));
                    }
                    let c = av[i].duplicate();
                    out.push(c);
                    i = i + 1;
                }
                proof {
                    lemma_nodes_view(out@);
                    assert(nodes_view(out@) =~= nodes_view(av@));
                }
                YamlInput::Array(out)
            },
            YamlInput::Hash(av) => {
                proof {
                    lemma_pairs_view(av@);
                }
                let n = av.len();
                let mut out: Vec<(YamlInput, YamlInput)> = Vec::new();
                let mut i: usize = 0;
                while i < n
                    invariant
                        0 <= i <= n,
                        n == av@.len(),
                        self == YamlInput::Hash(*av),
                        out@.len() == i,
                        forall|j: int|
                            0 <= j < i ==> node_view(#[trigger] out@[j].0) == node_view(av@[j].0)
                                && node_view(out@[j].1) == node_view(av@[j].1),
                    decreases n - i,
                {
                    proof {
                        assert(decreases_to!(*self => self->Hash_0));
                        assert(decreases_to!(*av => av@));
                        assert(decreases_to!(av@ => av@[i as int]));
                        assert(decreases_to!(av@[i as int] => av@[i as int].0));
                        assert(decreases_to!(av@[i as int] => av@[i as int].1));
                    }
                    let k = av[i].0.duplicate();
                    let v = av[i].1.duplicate();
                    out.push((k, v));
                    i = i + 1;
                }
                proof {
                    lemma_pairs_view(out@);
                    assert(pairs_view(out@) =~= pairs_view(av@));
                }
                YamlInput::Hash(out)
            },
            YamlInput::Anchored(name, child) => YamlInput::Anchored(
                name.clone(),
                Box::new(child.duplicate()),
            ),
            YamlInput::Aliased(name, payload) => {
                let p = match payload {
                    Some(c) => Some(Box::new(c.duplicate())),
                    None => None,
                };
                YamlInput::Aliased(name.clone(), p)
            },
            YamlInput::Null => YamlInput::Null,
            YamlInput::BadValue => YamlInput::BadValue,
        }
    }
}


/// Pairwise-distinct mapping keys.
pub open spec fn unique_keys(es: Seq<(NodeV, NodeV)>) -> bool {
    forall|i: int, j: int| 0 <= i < j < es.len() ==> (#[trigger] es[i]).0 != (#[trigger] es[j]).0
}

/// A well-formed node: every mapping anywhere in it has pairwise
/// distinct keys.
pub open spec fn wf_node(n: NodeV) -> bool
    decreases n,
{
    match n {
        NodeV::Arr(s) => wf_nodes(s),
        NodeV::Hash(es) => wf_pairs(es) && unique_keys(es),
        NodeV::Anchored(_, c) => wf_node(*c),
        NodeV::Aliased(_, payload) => match payload {
            Some(c) => wf_node(*c),
            None => true,
        },
        _ => true,
    }
}

/// Well-formedness of each element of a node sequence.
pub open spec fn wf_nodes(s: Seq<NodeV>) -> bool
    decreases s,
{
    if s.len() == 0 {
        true
    } else {
        wf_nodes(s.drop_last()) && wf_node(s.last())
    }
}

/// Well-formedness of both components of each entry.
pub open spec fn wf_pairs(s: Seq<(NodeV, NodeV)>) -> bool
    decreases s,
{
    if s.len() == 0 {
        true
    } else {
        wf_pairs(s.drop_last()) && wf_node(s.last().0) && wf_node(s.last().1)
    }
}

/// A node sequence is well-formed exactly when each element is.
pub proof fn lemma_wf_nodes(s: Seq<NodeV>)
    ensures
        wf_nodes(s) <==> (forall|i: int| 0 <= i < s.len() ==> wf_node(#[trigger] s[i])),
    decreases s.len(),
{
    if s.len() > 0 {
        lemma_wf_nodes(s.drop_last());
        if wf_nodes(s) {
            assert forall|i: int| 0 <= i < s.len() implies wf_node(#[trigger] s[i]) by {
                if i < s.len() - 1 {
                    assert(s.drop_last()[i] == s[i]);
                    assert(wf_node(s.drop_last()[i]));
                } else {
                    assert(s[i] == s.last());
                }
            }
        }
        if forall|i: int| 0 <= i < s.len() ==> wf_node(#[trigger] s[i]) {
            assert forall|i: int|
                0 <= i < s.len() - 1 implies wf_node(#[trigger] s.drop_last()[i]) by {
                assert(s.drop_last()[i] == s[i]);
                assert(wf_node(s[i]));
            }
            assert(wf_nodes(s.drop_last()));
            assert(wf_node(s.last()));
        }
    }
}

/// An entry sequence is well-formed exactly when each entry is.
pub proof fn lemma_wf_pairs(s: Seq<(NodeV, NodeV)>)
    ensures
        wf_pairs(s) <==> (forall|i: int|
            0 <= i < s.len() ==> wf_node((#[trigger] s[i]).0) && wf_node(s[i].1)),
    decreases s.len(),
{
    if s.len() > 0 {
        lemma_wf_pairs(s.drop_last());
        if wf_pairs(s) {
            assert forall|i: int|
                0 <= i < s.len() implies wf_node((#[trigger] s[i]).0) && wf_node(s[i].1) by {
                if i < s.len() - 1 {
                    assert(s.drop_last()[i] == s[i]);
                    assert(wf_node(s.drop_last()[i].0) && wf_node(s.drop_last()[i].1));
                } else {
                    assert(s[i] == s.last());
                }
            }
        }
        if forall|i: int| 0 <= i < s.len() ==> wf_node((#[trigger] s[i]).0) && wf_node(s[i].1) {
            assert forall|i: int|
                0 <= i < s.len() - 1 implies wf_node(
                (#[trigger] s.drop_last()[i]).0,
            ) && wf_node(s.drop_last()[i].1) by {
                assert(s.drop_last()[i] == s[i]);
                assert(wf_node(s[i].0) && wf_node(s[i].1));
            }
            assert(wf_pairs(s.drop_last()));
            assert(wf_node(s.last().0) && wf_node(s.last().1));
        }
    }
}

} // verus!
