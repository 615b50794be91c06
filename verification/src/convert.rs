//! Input-to-output model conversion: total, recursive, never
//! failing. Every variant maps to its output counterpart; an alias
//! collapses to a bare named alias, dropping any resolved payload, so
//! that re-resolution falls to whoever consumes the serialized text.
use vstd::prelude::*;
use crate::value::{NodeV, OutNodeV, YamlInput, YamlOutput, node_view, out_view, nodes_view,
    pairs_view, outs_view, out_pairs_view, lemma_nodes_view, lemma_pairs_view, lemma_outs_view,
    lemma_out_pairs_view};

verus! {

broadcast use vstd::std_specs::vec::group_vec_axioms, vstd::seq::group_seq_axioms;

/// The output model a given input model converts to.
pub open spec fn convert_node(n: NodeV) -> OutNodeV
    decreases n,
{
    match n {
        NodeV::Real(s) => OutNodeV::Real(s),
        NodeV::Int(i) => OutNodeV::Int(i),
        NodeV::Str(s) => OutNodeV::Str(s),
        NodeV::Bool(b) => OutNodeV::Bool(b),
        NodeV::Arr(elems) => OutNodeV::Arr(convert_nodes(elems)),
        NodeV::Hash(es) => OutNodeV::Hash(convert_pairs(es)),
        NodeV::Anchored(name, c) => OutNodeV::Anchored(name, Box::new(convert_node(*c))),
        NodeV::Aliased(name, _) => OutNodeV::Alias(name),
        NodeV::Null => OutNodeV::Null,
        NodeV::Bad => OutNodeV::Bad,
    }
}

/// Element-wise conversion of a node sequence.
pub open spec fn convert_nodes(s: Seq<NodeV>) -> Seq<OutNodeV>
    decreases s,
{
    if s.len() == 0 {
        Seq::empty()
    } else {
        convert_nodes(s.drop_last()).push(convert_node(s.last()))
    }
}

/// Element-wise conversion of an entry sequence.
pub open spec fn convert_pairs(s: Seq<(NodeV, NodeV)>) -> Seq<(OutNodeV, OutNodeV)>
    decreases s,
{
    if s.len() == 0 {
        Seq::empty()
    } else {
        convert_pairs(s.drop_last()).push(
            (convert_node(s.last().0), convert_node(s.last().1)),
        )
    }
}

/// The converted elements are the conversions of the elements.
pub proof fn lemma_convert_nodes(s: Seq<NodeV>)
    ensures
        convert_nodes(s).len() == s.len(),
        forall|i: int| 0 <= i < s.len() ==> convert_nodes(s)[i] == convert_node(s[i]),
    decreases s.len(),
{
    if s.len() > 0 {
        lemma_convert_nodes(s.drop_last());
    }
}

/// The converted entries are the conversions of the entries.
pub proof fn lemma_convert_pairs(s: Seq<(NodeV, NodeV)>)
    ensures
        convert_pairs(s).len() == s.len(),
        forall|i: int| 0 <= i < s.len() ==> convert_pairs(s)[i] == (
            convert_node(s[i].0),
            convert_node(s[i].1),
        ),
    decreases s.len(),
{
    if s.len() > 0 {
        lemma_convert_pairs(s.drop_last());
    }
}

impl YamlInput {
    /// Converts this input node to its output form, recursively.
    #[verifier::loop_isolation(false)]
    pub fn into_output(self) -> (r: YamlOutput)
        ensures
            r@ == convert_node(self@),
        decreases self,
    {
        match self {
            YamlInput::Real(s) => YamlOutput::Real(s),
            YamlInput::Integer(i) => YamlOutput::Integer(i),
            YamlInput::String(s) => YamlOutput::String(s),
            YamlInput::Boolean(b) => YamlOutput::Boolean(b),
            YamlInput::Array(v) => {
                let ghost orig = v@;
                proof {
                    assert(v.len() == orig.len());
                    lemma_nodes_view(orig);
                    lemma_convert_nodes(nodes_view(orig));
                }
                let mut v = v;
                let mut out: Vec<YamlOutput> = Vec::new();
                let mut k: usize = 0;
                while v.len() > 0
                    invariant
                        k + v@.len() == orig.len(),
                        v@ =~= orig.skip(k as int),
                        out@.len() == k,
                        forall|j: int|
                            0 <= j < k ==> out_view(#[trigger] out@[j]) == convert_node(
                                nodes_view(orig)[j],
                            ),
                    decreases v@.len(),
                {
                    let x = v.remove(0);
                    proof {
                        assert(x == orig[k as int]);
                        assert(decreases_to!(self => self->Array_0));
                        assert(decreases_to!(orig => orig[k as int]));
                    }
                    let y = x.into_output();
                    out.push(y);
                    k = k + 1;
                }
                proof {
                    lemma_outs_view(out@);
                    assert(outs_view(out@) =~= convert_nodes(nodes_view(orig)));
                }
                YamlOutput::Array(out)
            },
            YamlInput::Hash(v) => {
                let ghost orig = v@;
                proof {
                    assert(v.len() == orig.len());
                    lemma_pairs_view(orig);
                    lemma_convert_pairs(pairs_view(orig));
                }
                let mut v = v;
                let mut out: Vec<(YamlOutput, YamlOutput)> = Vec::new();
                let mut k: usize = 0;
                while v.len() > 0
                    invariant
                        k + v@.len() == orig.len(),
                        v@ =~= orig.skip(k as int),
                        out@.len() == k,
                        forall|j: int|
                            0 <= j < k ==> (
                            out_view(#[trigger] out@[j].0),
                            out_view(out@[j].1),
                            ) == convert_pairs(pairs_view(orig))[j],
                    decreases v@.len(),
                {
                    let x = v.remove(0);
                    proof {
                        assert(x == orig[k as int]);
                        assert(decreases_to!(self => self->Hash_0));
                        assert(decreases_to!(orig => orig[k as int]));
                        assert(decreases_to!(orig[k as int] => orig[k as int].0));
                        assert(decreases_to!(orig[k as int] => orig[k as int].1));
                    }
                    let yk = x.0.into_output();
                    let yv = x.1.into_output();
                    out.push((yk, yv));
                    k = k + 1;
                }
                proof {
                    lemma_out_pairs_view(out@);
                    assert(out_pairs_view(out@) =~= convert_pairs(pairs_view(orig)));
                }
                YamlOutput::Hash(out)
            },
            YamlInput::Anchored(name, c) => YamlOutput::Anchored(
                name,
                Box::new((*c).into_output()),
            ),
            YamlInput::Aliased(name, _) => YamlOutput::Alias(name),
            YamlInput::Null => YamlOutput::Null,
            YamlInput::BadValue => YamlOutput::BadValue,
        }
    }
}

} // verus!
