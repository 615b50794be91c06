//! The library's general laws, stated and proved against the same
//! spec functions that the executable functions' contracts use.
use vstd::prelude::*;
use crate::value::{NodeV, OutNodeV, lemma_wf_nodes, lemma_wf_pairs, unique_keys, wf_node,
    wf_nodes, wf_pairs};
use crate::builder::{EvV, LoaderV, StepResV, MAX_NESTING_DEPTH, anchor_lookup, can_insert,
    do_insert, find_key, finish_node, hash_insert_entries, init_loader, lemma_find_key, run_steps,
    step};
use crate::access::{index_at_spec, index_str_spec, unwrapped};
use crate::scalar::{classify_plain, is_real_text, resolve_scalar_spec, parse_int_spec,
    valid_int_text, int_text_val, is_dec_digit, digit_val, mag, num_body, sign_neg};
use crate::convert::convert_node;
use crate::emit::{digit_char, nat_digits, int_chars, is_scalar_node};

verus! {

broadcast use vstd::seq::group_seq_axioms;

/// An alias used before its anchor's node has closed resolves to an
/// unresolved alias node — never an error, never retried: the machine
/// inserts `Aliased(name, None)` and moves on.
pub proof fn lemma_forward_alias_unresolved(m: LoaderV, name: Seq<char>)
    requires
        anchor_lookup(m.anchors, name) is None,
        can_insert(m),
    ensures
        step(m, EvV::Alias(name)) == StepResV::Next(
            do_insert(m, NodeV::Aliased(name, None), None),
        ),
{
}

/// Inserting a fresh key appends its entry at the end: iteration
/// order of a mapping is insertion order.
pub proof fn lemma_fresh_key_appends(es: Seq<(NodeV, NodeV)>, k: NodeV, v: NodeV)
    requires
        forall|i: int| 0 <= i < es.len() ==> (#[trigger] es[i]).0 != k,
    ensures
        hash_insert_entries(es, k, v) == es.push((k, v)),
{
    lemma_find_key(es, k);
    if find_key(es, k) != -1 {
        assert(es[find_key(es, k)].0 != k);
        assert(false);
    }
}

/// Rewriting an existing key keeps every other entry in its relative
/// order and moves the rewritten key to the end with the new value:
/// the newest write wins.
pub proof fn lemma_rewrite_moves_to_end(es: Seq<(NodeV, NodeV)>, k: NodeV, v: NodeV)
    requires
        find_key(es, k) != -1,
    ensures
        hash_insert_entries(es, k, v) == es.remove(find_key(es, k)).push((k, v)),
        hash_insert_entries(es, k, v).last() == (k, v),
{
    lemma_find_key(es, k);
}

/// Keys stay pairwise distinct under insertion: a mapping built by
/// overwriting inserts is a map.
pub proof fn lemma_insert_keeps_keys_unique(es: Seq<(NodeV, NodeV)>, k: NodeV, v: NodeV)
    requires
        forall|i: int, j: int|
            0 <= i < j < es.len() ==> (#[trigger] es[i]).0 != (#[trigger] es[j]).0,
    ensures
        forall|i: int, j: int|
            0 <= i < j < hash_insert_entries(es, k, v).len() ==> (#[trigger] hash_insert_entries(
                es,
                k,
                v,
            )[i]).0 != (#[trigger] hash_insert_entries(es, k, v)[j]).0,
{
    lemma_find_key(es, k);
    let out = hash_insert_entries(es, k, v);
    let r = find_key(es, k);
    if r == -1 {
        assert forall|i: int, j: int| 0 <= i < j < out.len() implies (#[trigger] out[i]).0 != (
        #[trigger] out[j]).0 by {
            if j < es.len() {
                assert(out[i] == es[i] && out[j] == es[j]);
            } else {
                assert(out[j] == (k, v));
                assert(out[i] == es[i]);
                assert(es[i].0 != k);
            }
        }
    } else {
        let base = es.remove(r);
        assert forall|i: int, j: int| 0 <= i < j < out.len() implies (#[trigger] out[i]).0 != (
        #[trigger] out[j]).0 by {
            let oi = if i < r {
                i
            } else {
                i + 1
            };
            let oj = if j < r {
                j
            } else {
                j + 1
            };
            if j < base.len() {
                assert(out[i] == es[oi] && out[j] == es[oj]);
            } else {
                assert(out[j] == (k, v));
                if i < base.len() {
                    assert(out[i] == es[oi]);
                    if es[oi].0 == k {
                        if oi < r {
                            assert(es[oi].0 != k);
                        } else {
                            assert(es[r].0 == k);
                            assert(false);
                        }
                    }
                }
            }
        }
    }
}

/// Indexing safety: a missing key, a receiver of the wrong shape and
/// an out-of-range position each yield the `Bad` sentinel, and any
/// further lookup on `Bad` yields `Bad` again.
pub proof fn lemma_indexing_safety(n: NodeV, key: Seq<char>, i: int)
    ensures
        index_str_spec(NodeV::Bad, key) == NodeV::Bad,
        index_at_spec(NodeV::Bad, i) == NodeV::Bad,
        !(unwrapped(n) matches Some(NodeV::Hash(_))) ==> index_str_spec(n, key) == NodeV::Bad,
        (unwrapped(n) matches Some(NodeV::Arr(s)) && i >= s.len()) ==> index_at_spec(n, i)
            == NodeV::Bad,
        (unwrapped(n) matches Some(NodeV::Hash(es)) && (forall|j: int|
            0 <= j < es.len() ==> (#[trigger] es[j]).0 != NodeV::Str(key))) ==> index_str_spec(
            n,
            key,
        ) == NodeV::Bad,
{
    match unwrapped(n) {
        Some(NodeV::Hash(es)) => {
            if forall|j: int| 0 <= j < es.len() ==> (#[trigger] es[j]).0 != NodeV::Str(key) {
                lemma_find_key(es, NodeV::Str(key));
                if find_key(es, NodeV::Str(key)) != -1 {
                    assert(es[find_key(es, NodeV::Str(key))].0 != NodeV::Str(key));
                    assert(false);
                }
            }
        },
        _ => {},
    }
}

/// Opening one more container above the nesting ceiling is reported
/// as the structured depth error, not built.
pub proof fn lemma_depth_ceiling(m: LoaderV, ev: EvV)
    requires
        m.stack.len() >= MAX_NESTING_DEPTH,
        ev is SeqStart || ev is MapStart,
    ensures
        step(m, ev) == StepResV::TooDeep,
{
}

/// The machine never holds more than the ceiling of open containers:
/// every step from a bounded state stays bounded.
pub proof fn lemma_depth_invariant(m: LoaderV, ev: EvV)
    requires
        m.stack.len() <= MAX_NESTING_DEPTH,
        step(m, ev) is Next,
    ensures
        (step(m, ev)->Next_0).stack.len() <= MAX_NESTING_DEPTH,
{
}

/// Every state the machine reaches from a bounded state is bounded:
/// no run ever holds more than the ceiling of open containers.
pub proof fn lemma_run_depth(m: LoaderV, evs: Seq<EvV>)
    requires
        m.stack.len() <= MAX_NESTING_DEPTH,
        run_steps(m, evs) is Next,
    ensures
        (run_steps(m, evs)->Next_0).stack.len() <= MAX_NESTING_DEPTH,
    decreases evs.len(),
{
    if evs.len() > 0 {
        match step(m, evs[0]) {
            StepResV::Next(m2) => {
                lemma_depth_invariant(m, evs[0]);
                lemma_run_depth(m2, evs.skip(1));
            },
            _ => {},
        }
    }
}


/// A machine state whose every node — finished documents, open
/// containers, pending keys and anchor-table entries — is
/// well-formed.
pub open spec fn wf_state(m: LoaderV) -> bool {
    &&& forall|i: int| 0 <= i < m.docs.len() ==> wf_node(#[trigger] m.docs[i])
    &&& forall|i: int| 0 <= i < m.stack.len() ==> wf_node((#[trigger] m.stack[i]).0)
    &&& forall|i: int| 0 <= i < m.keys.len() ==> wf_node(#[trigger] m.keys[i])
    &&& forall|i: int| 0 <= i < m.anchors.len() ==> wf_node((#[trigger] m.anchors[i]).1)
}

/// Scalar resolution yields scalars or the sentinel, all well-formed.
proof fn lemma_resolve_scalar_wf(
    text: Seq<char>,
    plain: bool,
    tag: Option<(Seq<char>, Seq<char>)>,
)
    ensures
        wf_node(resolve_scalar_spec(text, plain, tag)),
{
}

/// The anchor table only ever hands out well-formed nodes.
proof fn lemma_anchor_lookup_wf(a: Seq<(Seq<char>, NodeV)>, name: Seq<char>)
    requires
        forall|i: int| 0 <= i < a.len() ==> wf_node((#[trigger] a[i]).1),
    ensures
        anchor_lookup(a, name) matches Some(n) ==> wf_node(n),
    decreases a.len(),
{
    if a.len() > 0 && a.last().0 != name {
        assert(forall|i: int| 0 <= i < a.len() - 1 ==> #[trigger] a.drop_last()[i] == a[i]);
        lemma_anchor_lookup_wf(a.drop_last(), name);
    }
}

/// Mapping insertion preserves well-formedness and key uniqueness.
proof fn lemma_hash_insert_wf(es: Seq<(NodeV, NodeV)>, k: NodeV, v: NodeV)
    requires
        wf_pairs(es),
        unique_keys(es),
        wf_node(k),
        wf_node(v),
    ensures
        wf_pairs(hash_insert_entries(es, k, v)),
        unique_keys(hash_insert_entries(es, k, v)),
{
    lemma_insert_keeps_keys_unique(es, k, v);
    lemma_find_key(es, k);
    lemma_wf_pairs(es);
    let out = hash_insert_entries(es, k, v);
    let r = find_key(es, k);
    lemma_wf_pairs(out);
    assert forall|i: int|
        0 <= i < out.len() implies wf_node((#[trigger] out[i]).0) && wf_node(out[i].1) by {
        if r == -1 {
            if i < es.len() {
                assert(out[i] == es[i]);
            } else {
                assert(out[i] == (k, v));
            }
        } else {
            let base = es.remove(r);
            if i < base.len() {
                let oi = if i < r {
                    i
                } else {
                    i + 1
                };
                assert(out[i] == es[oi]);
            } else {
                assert(out[i] == (k, v));
            }
        }
    }
}

/// The Insert transition keeps every node in the state well-formed.
proof fn lemma_do_insert_wf(m: LoaderV, node: NodeV, anch: Option<Seq<char>>)
    requires
        wf_state(m),
        wf_node(node),
        can_insert(m),
    ensures
        wf_state(do_insert(m, node, anch)),
{
    if m.stack.len() > 0 {
        let top = m.stack.last();
        match top.0 {
            NodeV::Arr(elems) => {
                lemma_wf_nodes(elems);
                lemma_wf_nodes(elems.push(node));
                assert(forall|i: int|
                    0 <= i < elems.len() ==> #[trigger] elems.push(node)[i] == elems[i]);
                assert(elems.push(node).last() == node);
                assert(wf_node(NodeV::Arr(elems.push(node))));
            },
            NodeV::Hash(es) => {
                let ck = m.keys.last();
                if !(ck is Bad) {
                    lemma_hash_insert_wf(es, ck, node);
                    assert(wf_node(NodeV::Hash(hash_insert_entries(es, ck, node))));
                }
            },
            _ => {},
        }
    }
}

/// Finishing a node (recording its anchor, wrapping, inserting) keeps
/// the state well-formed.
proof fn lemma_finish_wf(m: LoaderV, node: NodeV, anchor: Option<Seq<char>>)
    requires
        wf_state(m),
        wf_node(node),
        finish_node(m, node, anchor) is Next,
    ensures
        wf_state(finish_node(m, node, anchor)->Next_0),
{
    match anchor {
        Some(name) => {
            let m1 = LoaderV { anchors: m.anchors.push((name, node)), ..m };
            assert(forall|i: int|
                0 <= i < m.anchors.len() ==> #[trigger] m1.anchors[i] == m.anchors[i]);
            assert(m1.anchors.last() == (name, node));
            assert(wf_state(m1));
            assert(wf_node(NodeV::Anchored(name, Box::new(node))));
            lemma_do_insert_wf(m1, NodeV::Anchored(name, Box::new(node)), Some(name));
        },
        None => {
            lemma_do_insert_wf(m, node, None);
        },
    }
}

/// One step of the machine keeps the state well-formed.
pub proof fn lemma_step_wf(m: LoaderV, ev: EvV)
    requires
        wf_state(m),
        step(m, ev) is Next,
    ensures
        wf_state(step(m, ev)->Next_0),
{
    match ev {
        EvV::DocStart => {},
        EvV::DocEnd => {},
        EvV::SeqStart(_) => {
            assert(wf_nodes(Seq::<NodeV>::empty()));
        },
        EvV::MapStart(_) => {
            assert(wf_pairs(Seq::<(NodeV, NodeV)>::empty()));
        },
        EvV::SeqEnd => {
            let top = m.stack.last();
            let m1 = LoaderV { stack: m.stack.drop_last(), ..m };
            assert(forall|i: int|
                0 <= i < m1.stack.len() ==> #[trigger] m1.stack[i] == m.stack[i]);
            lemma_finish_wf(m1, top.0, top.1);
        },
        EvV::MapEnd => {
            let top = m.stack.last();
            let m1 = LoaderV { stack: m.stack.drop_last(), keys: m.keys.drop_last(), ..m };
            assert(forall|i: int|
                0 <= i < m1.stack.len() ==> #[trigger] m1.stack[i] == m.stack[i]);
            assert(forall|i: int| 0 <= i < m1.keys.len() ==> #[trigger] m1.keys[i] == m.keys[i]);
            lemma_finish_wf(m1, top.0, top.1);
        },
        EvV::Scalar(text, plain, anchor, tag) => {
            lemma_resolve_scalar_wf(text, plain, tag);
            lemma_finish_wf(m, resolve_scalar_spec(text, plain, tag), anchor);
        },
        EvV::Alias(name) => {
            lemma_anchor_lookup_wf(m.anchors, name);
            let payload = match anchor_lookup(m.anchors, name) {
                Some(n) => Some(Box::new(n)),
                None => None,
            };
            assert(wf_node(NodeV::Aliased(name, payload)));
            lemma_finish_wf(m, NodeV::Aliased(name, payload), None);
        },
    }
}

/// A whole run from a well-formed state ends well-formed.
pub proof fn lemma_run_wf(m: LoaderV, evs: Seq<EvV>)
    requires
        wf_state(m),
        run_steps(m, evs) is Next,
    ensures
        wf_state(run_steps(m, evs)->Next_0),
    decreases evs.len(),
{
    if evs.len() > 0 {
        match step(m, evs[0]) {
            StepResV::Next(m2) => {
                lemma_step_wf(m, evs[0]);
                lemma_run_wf(m2, evs.skip(1));
            },
            _ => {},
        }
    }
}

/// Every document the machine finishes is well-formed: in particular,
/// every mapping anywhere in a loaded document has pairwise distinct
/// keys — duplicate keys were overwritten during building.
pub proof fn lemma_loaded_docs_wf(evs: Seq<EvV>)
    requires
        run_steps(init_loader(), evs) is Next,
    ensures
        forall|i: int|
            0 <= i < (run_steps(init_loader(), evs)->Next_0).docs.len() ==> wf_node(
                #[trigger] (run_steps(init_loader(), evs)->Next_0).docs[i],
            ),
{
    assert(wf_state(init_loader()));
    lemma_run_wf(init_loader(), evs);
}

proof fn lemma_nat_digits(v: int)
    requires
        v >= 0,
    ensures
        nat_digits(v).len() >= 1,
        v < 10 <==> nat_digits(v).len() == 1,
        forall|i: int| 0 <= i < nat_digits(v).len() ==> is_dec_digit(#[trigger] nat_digits(v)[i]),
        mag(nat_digits(v), 10) == v,
    decreases v,
{
    if v < 10 {
        assert(is_dec_digit(digit_char(v)));
        assert(digit_val(digit_char(v)) == v);
        assert(nat_digits(v) == seq![digit_char(v)]);
        assert(nat_digits(v).drop_last() =~= Seq::<char>::empty());
        assert(nat_digits(v).last() == digit_char(v));
        assert(mag(nat_digits(v), 10) == mag(Seq::<char>::empty(), 10) * 10 + digit_val(
            digit_char(v),
        ));
        assert(mag(Seq::<char>::empty(), 10) == 0);
        assert(mag(nat_digits(v), 10) == v);
    } else {
        lemma_nat_digits(v / 10);
        let s = nat_digits(v);
        assert(s == nat_digits(v / 10).push(digit_char(v % 10)));
        assert(s.drop_last() =~= nat_digits(v / 10));
        assert(is_dec_digit(digit_char(v % 10)));
        assert(digit_val(digit_char(v % 10)) == v % 10);
        assert(mag(s, 10) == mag(nat_digits(v / 10), 10) * 10 + (v % 10));
        vstd::arithmetic::div_mod::lemma_fundamental_div_mod(v, 10);
        assert(v == 10 * (v / 10) + (v % 10));
        assert(mag(nat_digits(v), 10) == v);
    }
}

/// The serializer's scalar forms re-classify, under the scalar
/// resolution rules, to exactly the node they rendered — the quoting
/// and tagging decisions stay in lockstep with the typing rules. The
/// absent-value sentinel is the one scalar without a spelling of its
/// own and is left out.
pub proof fn lemma_scalar_round_trip(n: OutNodeV)
    requires
        is_scalar_node(n),
        !(n is Bad),
        n is Real ==> is_real_text(n->Real_0),
    ensures
        convert_node(
            resolve_scalar_spec(
                crate::emit::scalar_event_text(n),
                crate::emit::scalar_event_plain(n),
                crate::emit::scalar_event_tag(n),
            ),
        ) == n,
{
    let text = crate::emit::scalar_event_text(n);
    match n {
        OutNodeV::Int(i) => {
            lemma_int_chars_classify(i);
        },
        OutNodeV::Bool(b) => {
            if b {
                assert(classify_plain(seq!['t', 'r', 'u', 'e']) == NodeV::Bool(true));
            } else {
                assert(classify_plain(seq!['f', 'a', 'l', 's', 'e']) == NodeV::Bool(false));
            }
        },
        OutNodeV::Null => {
            assert(classify_plain(seq!['~']) == NodeV::Null);
        },
        OutNodeV::Str(s) => {
            assert(resolve_scalar_spec(text, false, crate::emit::scalar_event_tag(n))
                == NodeV::Str(s));
        },
        OutNodeV::Real(s) => {
            if classify_plain(s) is Real {
                assert(classify_plain(s) == NodeV::Real(s));
            } else {
                let tag = crate::emit::scalar_event_tag(n);
                assert(tag == Some((seq!['!', '!'], seq!['f', 'l', 'o', 'a', 't'])));
                assert(resolve_scalar_spec(s, true, tag) == NodeV::Real(s));
            }
        },
        _ => {},
    }
}

/// The decimal spelling of a 64-bit integer classifies back to
/// exactly that integer.
pub proof fn lemma_int_chars_classify(i: i64)
    ensures
        classify_plain(int_chars(i as int)) == NodeV::Int(i),
{
    let s = int_chars(i as int);
    if i >= 0 {
        lemma_nat_digits(i as int);
        assert(s =~= nat_digits(i as int));
        assert(is_dec_digit(s[0]));
        // none of the earlier classification rules can match digits
        assert(s[0] != '+' && s[0] != '~' && s[0] != 'n' && s[0] != 't' && s[0] != 'f');
        if s.len() >= 2 {
            assert(is_dec_digit(s[1]));
            assert(s[1] != 'x' && s[1] != 'o');
        }
        assert(!sign_neg(s));
        assert(num_body(s) == s);
        assert(valid_int_text(s, 10));
        assert(int_text_val(s, 10) == i as int);
        assert(parse_int_spec(s, 10) == Some(i));
    } else {
        lemma_nat_digits(-(i as int));
        assert(s == seq!['-'] + nat_digits(-(i as int)));
        assert(s[0] == '-');
        assert(num_body(s) =~= nat_digits(-(i as int)));
        assert(sign_neg(s));
        assert(s[0] != '0' && s[0] != '+' && s[0] != '~' && s[0] != 'n' && s[0] != 't' && s[0]
            != 'f');
        assert(valid_int_text(s, 10));
        assert(int_text_val(s, 10) == i as int);
        assert(parse_int_spec(s, 10) == Some(i));
    }
}

} // verus!
