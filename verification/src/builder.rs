//! The document builder: a stack machine that consumes a flat
//! sequence of structural events and produces one document root per
//! document, resolving anchors and aliases in a single forward pass.
use vstd::prelude::*;
use crate::value::{NodeV, YamlInput, node_view, pairs_view, lemma_pairs_view};
use crate::scalar::{resolve_scalar, resolve_scalar_spec, tag_view};

verus! {

broadcast use vstd::std_specs::vec::group_vec_axioms, vstd::seq::group_seq_axioms;

/// The ceiling on open containers: one more open sequence or mapping
/// than this is reported as an error rather than building an
/// arbitrarily deep tree.
pub const MAX_NESTING_DEPTH: usize = 1024;

/// A structural event, as the event source hands them over: one
/// linear sequence per input, with optional anchor names at
/// definition sites.
#[derive(Debug)]
pub enum Event {
    DocumentStart,
    DocumentEnd,
    /// Start of a sequence, with its optional anchor name.
    SequenceStart(Option<String>),
    SequenceEnd,
    /// Start of a mapping, with its optional anchor name.
    MappingStart(Option<String>),
    MappingEnd,
    /// A scalar: text, whether it was plain (unquoted, unblocked),
    /// its optional anchor name, and its optional tag as a
    /// handle/suffix pair.
    Scalar(String, bool, Option<String>, Option<(String, String)>),
    /// A reference to an anchor by name.
    Alias(String),
}

/// Model of a structural event.
pub enum EvV {
    DocStart,
    DocEnd,
    SeqStart(Option<Seq<char>>),
    SeqEnd,
    MapStart(Option<Seq<char>>),
    MapEnd,
    Scalar(Seq<char>, bool, Option<Seq<char>>, Option<(Seq<char>, Seq<char>)>),
    Alias(Seq<char>),
}

/// Model of an optional anchor name.
pub open spec fn opt_str_view(o: Option<String>) -> Option<Seq<char>> {
    match o {
        Some(s) => Some(s@),
        None => None,
    }
}

impl View for Event {
    type V = EvV;

    open spec fn view(&self) -> EvV {
        match self {
            Event::DocumentStart => EvV::DocStart,
            Event::DocumentEnd => EvV::DocEnd,
            Event::SequenceStart(a) => EvV::SeqStart(opt_str_view(*a)),
            Event::SequenceEnd => EvV::SeqEnd,
            Event::MappingStart(a) => EvV::MapStart(opt_str_view(*a)),
            Event::MappingEnd => EvV::MapEnd,
            Event::Scalar(t, p, a, tag) => EvV::Scalar(t@, *p, opt_str_view(*a), tag_view(*tag)),
            Event::Alias(n) => EvV::Alias(n@),
        }
    }
}

/// The element models of an event sequence.
pub open spec fn events_view(s: Seq<Event>) -> Seq<EvV> {
    Seq::new(s.len(), |i: int| s[i]@)
}

/// Model of the builder state: finished document roots, the value
/// stack of open nodes with their pending anchor names, one pending
/// key slot per open mapping, and the anchor table as a record of
/// bindings, newest binding last.
pub struct LoaderV {
    pub docs: Seq<NodeV>,
    pub stack: Seq<(NodeV, Option<Seq<char>>)>,
    pub keys: Seq<NodeV>,
    pub anchors: Seq<(Seq<char>, NodeV)>,
}

/// What a step of the machine yields: the next state, a report that
/// the nesting ceiling was hit, or a protocol fault (the event source
/// broke its contract).
pub enum StepResV {
    Next(LoaderV),
    TooDeep,
    Fault,
}

/// The newest binding of a name in the anchor table, if any.
pub open spec fn anchor_lookup(a: Seq<(Seq<char>, NodeV)>, name: Seq<char>) -> Option<NodeV>
    decreases a.len(),
{
    if a.len() == 0 {
        None
    } else if a.last().0 == name {
        Some(a.last().1)
    } else {
        anchor_lookup(a.drop_last(), name)
    }
}

/// The position of the first entry with the given key, or -1.
pub open spec fn find_key(es: Seq<(NodeV, NodeV)>, k: NodeV) -> int
    decreases es.len(),
{
    if es.len() == 0 {
        -1
    } else if es[0].0 == k {
        0
    } else {
        let r = find_key(es.skip(1), k);
        if r < 0 {
            -1
        } else {
            r + 1
        }
    }
}

pub proof fn lemma_find_key(es: Seq<(NodeV, NodeV)>, k: NodeV)
    ensures
        find_key(es, k) == -1 ==> forall|i: int| 0 <= i < es.len() ==> (#[trigger] es[i]).0 != k,
        find_key(es, k) != -1 ==> {
            let r = find_key(es, k);
            &&& 0 <= r < es.len()
            &&& es[r].0 == k
            &&& forall|i: int| 0 <= i < r ==> (#[trigger] es[i]).0 != k
        },
    decreases es.len(),
{
    if es.len() > 0 && es[0].0 != k {
        lemma_find_key(es.skip(1), k);
        let r1 = find_key(es.skip(1), k);
        if r1 == -1 {
            assert forall|i: int| 0 <= i < es.len() implies (#[trigger] es[i]).0 != k by {
                if i > 0 {
                    assert(es.skip(1)[i - 1] == es[i]);
                }
            }
        } else {
            assert(es.skip(1)[r1] == es[r1 + 1]);
            assert forall|i: int| 0 <= i < r1 + 1 implies (#[trigger] es[i]).0 != k by {
                if i > 0 {
                    assert(es.skip(1)[i - 1] == es[i]);
                }
            }
        }
    }
}

/// Inserting into a mapping: an existing entry with an equal key is
/// removed, and the new pair goes to the end, so that the newest
/// write wins while iteration order remains insertion order.
pub open spec fn hash_insert_entries(es: Seq<(NodeV, NodeV)>, k: NodeV, v: NodeV) -> Seq<
    (NodeV, NodeV),
> {
    let r = find_key(es, k);
    if r == -1 {
        es.push((k, v))
    } else {
        es.remove(r).push((k, v))
    }
}

/// Recording a finished node in the anchor table under its anchor
/// name, when it has one: the newest binding wins at lookup time.
pub open spec fn record_anchor(m: LoaderV, node: NodeV, anch: Option<Seq<char>>) -> LoaderV {
    match anch {
        Some(name) => LoaderV { anchors: m.anchors.push((name, node)), ..m },
        None => m,
    }
}

/// Whether the Insert transition can accept a node: the stack is
/// empty, or its top is an open container in a consistent state.
pub open spec fn can_insert(m: LoaderV) -> bool {
    ||| m.stack.len() == 0
    ||| m.stack.last().0 is Arr
    ||| (m.stack.last().0 is Hash && m.keys.len() > 0)
}

/// The Insert transition: a finished node becomes the root candidate,
/// an element of the open sequence on top of the stack, or — for an
/// open mapping — the pending key or the pending key's value.
pub open spec fn do_insert(m: LoaderV, node: NodeV, anch: Option<Seq<char>>) -> LoaderV
    recommends
        can_insert(m),
{
    if m.stack.len() == 0 {
        LoaderV { stack: m.stack.push((node, anch)), ..m }
    } else {
        let top = m.stack.last();
        match top.0 {
            NodeV::Arr(elems) => LoaderV {
                stack: m.stack.update(
                    m.stack.len() - 1,
                    (NodeV::Arr(elems.push(node)), top.1),
                ),
                ..m
            },
            NodeV::Hash(es) => {
                let ck = m.keys.last();
                if ck is Bad {
                    LoaderV { keys: m.keys.update(m.keys.len() - 1, node), ..m }
                } else {
                    LoaderV {
                        stack: m.stack.update(
                            m.stack.len() - 1,
                            (NodeV::Hash(hash_insert_entries(es, ck, node)), top.1),
                        ),
                        keys: m.keys.update(m.keys.len() - 1, NodeV::Bad),
                        ..m
                    }
                }
            },
            _ => m,
        }
    }
}

/// A finished node is recorded in the anchor table under its anchor
/// name (unwrapped, exactly as finished), wrapped, and inserted.
pub open spec fn finish_node(m: LoaderV, node: NodeV, anchor: Option<Seq<char>>) -> StepResV {
    if !can_insert(m) {
        StepResV::Fault
    } else {
        match anchor {
            Some(name) => StepResV::Next(
                do_insert(
                    record_anchor(m, node, Some(name)),
                    NodeV::Anchored(name, Box::new(node)),
                    None,
                ),
            ),
            None => StepResV::Next(do_insert(m, node, None)),
        }
    }
}

/// One transition of the document builder.
pub open spec fn step(m: LoaderV, ev: EvV) -> StepResV {
    match ev {
        EvV::DocStart => StepResV::Next(m),
        EvV::DocEnd => {
            if m.stack.len() == 0 {
                // an empty document is a recoverable degenerate case
                StepResV::Next(LoaderV { docs: m.docs.push(NodeV::Bad), ..m })
            } else if m.stack.len() == 1 {
                StepResV::Next(
                    LoaderV { docs: m.docs.push(m.stack[0].0), stack: Seq::empty(), ..m },
                )
            } else {
                StepResV::Fault
            }
        },
        EvV::SeqStart(a) => {
            if m.stack.len() >= MAX_NESTING_DEPTH {
                StepResV::TooDeep
            } else {
                StepResV::Next(
                    LoaderV { stack: m.stack.push((NodeV::Arr(Seq::empty()), a)), ..m },
                )
            }
        },
        EvV::MapStart(a) => {
            if m.stack.len() >= MAX_NESTING_DEPTH {
                StepResV::TooDeep
            } else {
                StepResV::Next(
                    LoaderV {
                        stack: m.stack.push((NodeV::Hash(Seq::empty()), a)),
                        keys: m.keys.push(NodeV::Bad),
                        ..m
                    },
                )
            }
        },
        EvV::SeqEnd => {
            if m.stack.len() == 0 {
                StepResV::Fault
            } else {
                let top = m.stack.last();
                finish_node(LoaderV { stack: m.stack.drop_last(), ..m }, top.0, top.1)
            }
        },
        EvV::MapEnd => {
            if m.stack.len() == 0 || m.keys.len() == 0 || !(m.keys.last() is Bad) {
                // a pending key at close time breaks the protocol; a
                // key that itself resolved to the sentinel (a tag
                // mismatch) fills no slot, so its value ends up the
                // pending key and the close is reported as a fault
                // rather than silently discarded
                StepResV::Fault
            } else {
                let top = m.stack.last();
                finish_node(
                    LoaderV { stack: m.stack.drop_last(), keys: m.keys.drop_last(), ..m },
                    top.0,
                    top.1,
                )
            }
        },
        EvV::Scalar(text, plain, anchor, tag) => finish_node(
            m,
            resolve_scalar_spec(text, plain, tag),
            anchor,
        ),
        EvV::Alias(name) => {
            // aliases are never themselves anchorable
            let payload = match anchor_lookup(m.anchors, name) {
                Some(n) => Some(Box::new(n)),
                None => None,
            };
            finish_node(m, NodeV::Aliased(name, payload), None)
        },
    }
}

/// Running the machine over a whole event sequence.
pub open spec fn run_steps(m: LoaderV, evs: Seq<EvV>) -> StepResV
    decreases evs.len(),
{
    if evs.len() == 0 {
        StepResV::Next(m)
    } else {
        match step(m, evs[0]) {
            StepResV::Next(m2) => run_steps(m2, evs.skip(1)),
            StepResV::TooDeep => StepResV::TooDeep,
            StepResV::Fault => StepResV::Fault,
        }
    }
}

/// The machine's starting state: everything empty.
pub open spec fn init_loader() -> LoaderV {
    LoaderV { docs: Seq::empty(), stack: Seq::empty(), keys: Seq::empty(), anchors: Seq::empty() }
}

/// An error from building a document tree.
#[derive(Debug, PartialEq, Eq)]
pub enum BuildFault {
    /// The nesting ceiling was exceeded.
    TooDeep,
    /// The event source broke its contract.
    Protocol,
}

/// The pending-key slot test: the bare `BadValue` variant itself, not
/// unwrapped — an anchored or aliased `BadValue` arriving as a key is
/// a real pending key, not an empty slot.
fn is_pending_sentinel(n: &YamlInput) -> (r: bool)
    ensures
        r == (n@ is Bad),
{
    matches!(n, YamlInput::BadValue)
}

/// The document builder's state.
pub struct YamlLoader {
    docs: Vec<YamlInput>,
    doc_stack: Vec<(YamlInput, Option<String>)>,
    key_stack: Vec<YamlInput>,
    anchor_map: Vec<(String, YamlInput)>,
}

impl View for YamlLoader {
    type V = LoaderV;

    closed spec fn view(&self) -> LoaderV {
        LoaderV {
            docs: Seq::new(self.docs@.len(), |i: int| node_view(self.docs@[i])),
            stack: Seq::new(
                self.doc_stack@.len(),
                |i: int| (node_view(self.doc_stack@[i].0), opt_str_view(self.doc_stack@[i].1)),
            ),
            keys: Seq::new(self.key_stack@.len(), |i: int| node_view(self.key_stack@[i])),
            anchors: Seq::new(
                self.anchor_map@.len(),
                |i: int| (self.anchor_map@[i].0@, node_view(self.anchor_map@[i].1)),
            ),
        }
    }
}

impl YamlLoader {
    /// A fresh builder with empty state.
    pub fn new() -> (r: YamlLoader)
        ensures
            r@ == init_loader(),
    {
        let r = YamlLoader {
            docs: Vec::new(),
            doc_stack: Vec::new(),
            key_stack: Vec::new(),
            anchor_map: Vec::new(),
        };
        proof {
            assert(r@.docs =~= init_loader().docs);
            assert(r@.stack =~= init_loader().stack);
            assert(r@.keys =~= init_loader().keys);
            assert(r@.anchors =~= init_loader().anchors);
        }
        r
    }

    /// The finished document roots, handed out of the builder.
    pub fn take_docs(self) -> (r: Vec<YamlInput>)
        ensures
            Seq::new(r@.len(), |i: int| node_view(r@[i])) == self@.docs,
    {
        self.docs
    }

    /// The newest node recorded under this anchor name, copied out.
    fn lookup_anchor(&self, name: &String) -> (r: Option<YamlInput>)
        ensures
            match r {
                Some(n) => anchor_lookup(self@.anchors, name@) == Some(n@),
                None => anchor_lookup(self@.anchors, name@) is None,
            },
    {
        let ghost a = self@.anchors;
        proof {
            assert(a.take(self.anchor_map@.len() as int) =~= a);
        }
        let mut i: usize = self.anchor_map.len();
        while i > 0
            invariant
                0 <= i <= self.anchor_map@.len(),
                a == self@.anchors,
                a.len() == self.anchor_map@.len(),
                forall|j: int|
                    0 <= j < a.len() ==> #[trigger] a[j] == (
                    self.anchor_map@[j].0@,
                    node_view(self.anchor_map@[j].1),
                    ),
                anchor_lookup(a, name@) == anchor_lookup(a.take(i as int), name@),
            decreases i,
        {
            i = i - 1;
            let e = &self.anchor_map[i];
            proof {
                assert(a.take(i + 1).last() == a[i as int]);
                assert(a.take(i + 1).drop_last() =~= a.take(i as int));
            }
            if e.0 == *name {
                return Some(e.1.duplicate());
            }
        }
        proof {
            assert(a.take(0) =~= Seq::<(Seq<char>, NodeV)>::empty());
        }
        None
    }

    /// Last-write-wins insertion that keeps first-insertion order for
    /// fresh keys and moves a rewritten key to the end.
    fn hash_insert(h: &mut Vec<(YamlInput, YamlInput)>, k: YamlInput, v: YamlInput)
        ensures
            pairs_view(final(h)@) == hash_insert_entries(pairs_view(old(h)@), k@, v@),
    {
        let ghost es = pairs_view(old(h)@);
        proof {
            lemma_pairs_view(old(h)@);
            lemma_find_key(es, k@);
        }
        let n = h.len();
        let mut i: usize = 0;
        while i < n
            invariant
                0 <= i <= n,
                n == h@.len(),
                h@ == old(h)@,
                es == pairs_view(old(h)@),
                es.len() == n,
                forall|j: int| 0 <= j < n ==> #[trigger] es[j] == (
                    node_view(h@[j].0),
                    node_view(h@[j].1),
                ),
                forall|j: int| 0 <= j < i ==> (#[trigger] es[j]).0 != k@,
            decreases n - i,
        {
            if h[i].0.equals(&k) {
                proof {
                    lemma_find_key(es, k@);
                    if find_key(es, k@) == -1 {
                        assert(es[i as int].0 != k@);
                        assert(false);
                    }
                    if find_key(es, k@) < i {
                        assert(es[find_key(es, k@)].0 != k@);
                        assert(false);
                    }
                    if find_key(es, k@) > i {
                        assert(false);
                    }
                }
                h.remove(i);
                h.push((k, v));
                proof {
                    lemma_pairs_view(h@);
                    assert(pairs_view(h@) =~= es.remove(i as int).push((k@, v@)));
                }
                return ;
            }
            i = i + 1;
        }
        proof {
            lemma_find_key(es, k@);
            if find_key(es, k@) != -1 {
                assert(es[find_key(es, k@)].0 != k@);
                assert(false);
            }
        }
        h.push((k, v));
        proof {
            lemma_pairs_view(h@);
            assert(pairs_view(h@) =~= es.push((k@, v@)));
        }
    }

    /// Whether the Insert transition can accept a node now.
    fn may_insert(&self) -> (r: bool)
        ensures
            r == can_insert(self@),
    {
        if self.doc_stack.len() == 0 {
            return true;
        }
        let top = &self.doc_stack[self.doc_stack.len() - 1];
        match &top.0 {
            YamlInput::Array(_) => true,
            YamlInput::Hash(_) => self.key_stack.len() > 0,
            _ => false,
        }
    }

    /// The builder's record-and-Insert step: if the node carries an
    /// anchor name, it is first bound in the anchor table, exactly as
    /// given; then it becomes the root candidate, the next element of
    /// the open sequence on top of the value stack, or the pending
    /// key or the pending key's value of the open mapping there. Any
    /// other shape on top of the stack is a protocol fault, reported
    /// without a change.
    pub fn insert_new_node(&mut self, node: (YamlInput, Option<String>)) -> (r: Result<
        (),
        BuildFault,
    >)
        ensures
            can_insert(old(self)@) ==> r == Ok::<(), BuildFault>(()) && final(self)@ == do_insert(
                record_anchor(old(self)@, node.0@, opt_str_view(node.1)),
                node.0@,
                opt_str_view(node.1),
            ),
            !can_insert(old(self)@) ==> r == Err::<(), BuildFault>(BuildFault::Protocol) && final(self)@ == old(self)@,
    {
        if !self.may_insert() {
            return Err(BuildFault::Protocol);
        }
        if let Some(name) = &node.1 {
            let copy = node.0.duplicate();
            self.anchor_map.push((name.clone(), copy));
            proof {
                let m1 = record_anchor(old(self)@, node.0@, opt_str_view(node.1));
                assert(self@.docs =~= m1.docs);
                assert(self@.stack =~= m1.stack);
                assert(self@.keys =~= m1.keys);
                assert(self@.anchors =~= m1.anchors);
            }
        }
        let ghost m = self@;
        if self.doc_stack.len() == 0 {
            self.doc_stack.push(node);
            proof {
                assert(self@.docs =~= do_insert(m, node.0@, opt_str_view(node.1)).docs);
                assert(self@.stack =~= do_insert(m, node.0@, opt_str_view(node.1)).stack);
                assert(self@.keys =~= do_insert(m, node.0@, opt_str_view(node.1)).keys);
                assert(self@.anchors =~= do_insert(m, node.0@, opt_str_view(node.1)).anchors);
            }
            return Ok(());
        }
        let (top, ta) = self.doc_stack.pop().unwrap();
        match top {
            YamlInput::Array(mut elems) => {
                proof {
                    crate::value::lemma_nodes_view(elems@);
                }
                elems.push(node.0);
                proof {
                    crate::value::lemma_nodes_view(elems@);
                    assert(crate::value::nodes_view(elems@) =~= m.stack.last().0->Arr_0.push(
                        node.0@,
                    ));
                }
                self.doc_stack.push((YamlInput::Array(elems), ta));
                proof {
                    let want = do_insert(m, node.0@, opt_str_view(node.1));
                    assert(self@.docs =~= want.docs);
                    assert(self@.stack =~= want.stack);
                    assert(self@.keys =~= want.keys);
                    assert(self@.anchors =~= want.anchors);
                }
                Ok(())
            },
            YamlInput::Hash(mut es) => {
                let cur_is_key = {
                    let ck = &self.key_stack[self.key_stack.len() - 1];
                    is_pending_sentinel(ck)
                };
                if cur_is_key {
                    // the node is this mapping's next key
                    let _ = self.key_stack.pop();
                    self.key_stack.push(node.0);
                    self.doc_stack.push((YamlInput::Hash(es), ta));
                    proof {
                        lemma_pairs_view(es@);
                        let want = do_insert(m, node.0@, opt_str_view(node.1));
                        assert(self@.docs =~= want.docs);
                        assert(self@.stack =~= want.stack);
                        assert(self@.keys =~= want.keys);
                        assert(self@.anchors =~= want.anchors);
                    }
                    Ok(())
                } else {
                    // the node is the pending key's value
                    let newkey = self.key_stack.pop().unwrap();
                    self.key_stack.push(YamlInput::BadValue);
                    Self::hash_insert(&mut es, newkey, node.0);
                    self.doc_stack.push((YamlInput::Hash(es), ta));
                    proof {
                        let want = do_insert(m, node.0@, opt_str_view(node.1));
                        assert(self@.docs =~= want.docs);
                        assert(self@.stack =~= want.stack);
                        assert(self@.keys =~= want.keys);
                        assert(self@.anchors =~= want.anchors);
                    }
                    Ok(())
                }
            },
            _ => {
                // unreachable: may_insert held
                proof {
                    assert(false);
                }
                Err(BuildFault::Protocol)
            },
        }
    }

    /// Records the node under its anchor name if it has one, wraps
    /// it, and runs Insert.
    fn finish(&mut self, node: YamlInput, anchor: Option<String>) -> (r: Result<(), BuildFault>)
        ensures
            match finish_node(old(self)@, node@, opt_str_view(anchor)) {
                StepResV::Next(m) => r == Ok::<(), BuildFault>(()) && final(self)@ == m,
                StepResV::Fault => r == Err::<(), BuildFault>(BuildFault::Protocol) && final(self)@ == old(self)@,
                StepResV::TooDeep => false,
            },
    {
        if !self.may_insert() {
            return Err(BuildFault::Protocol);
        }
        match anchor {
            Some(name) => {
                let ghost m = self@;
                let copy = node.duplicate();
                let name2 = name.clone();
                self.anchor_map.push((name, copy));
                proof {
                    let m1 = record_anchor(m, node@, Some(name2@));
                    assert(self@.docs =~= m1.docs);
                    assert(self@.stack =~= m1.stack);
                    assert(self@.keys =~= m1.keys);
                    assert(self@.anchors =~= m1.anchors);
                }
                let wrapped = YamlInput::Anchored(name2, Box::new(node));
                self.insert_new_node((wrapped, None))
            },
            None => self.insert_new_node((node, None)),
        }
    }

    /// Feeds one event to the builder. On a nesting-ceiling or
    /// protocol error the state is left unchanged.
    pub fn on_event(&mut self, ev: Event) -> (r: Result<(), BuildFault>)
        ensures
            match step(old(self)@, ev@) {
                StepResV::Next(m) => r == Ok::<(), BuildFault>(()) && final(self)@ == m,
                StepResV::TooDeep => r == Err::<(), BuildFault>(BuildFault::TooDeep) && final(self)@ == old(self)@,
                StepResV::Fault => r == Err::<(), BuildFault>(BuildFault::Protocol) && final(self)@ == old(self)@,
            },
    {
        let ghost m = self@;
        match ev {
            Event::DocumentStart => Ok(()),
            Event::DocumentEnd => {
                if self.doc_stack.len() == 0 {
                    self.docs.push(YamlInput::BadValue);
                    proof {
                        let want = LoaderV { docs: m.docs.push(NodeV::Bad), ..m };
                        assert(self@.docs =~= want.docs);
                        assert(self@.stack =~= want.stack);
                        assert(self@.keys =~= want.keys);
                        assert(self@.anchors =~= want.anchors);
                    }
                    Ok(())
                } else if self.doc_stack.len() == 1 {
                    let (root, _) = self.doc_stack.pop().unwrap();
                    self.docs.push(root);
                    proof {
                        let want = LoaderV {
                            docs: m.docs.push(m.stack[0].0),
                            stack: Seq::empty(),
                            ..m
                        };
                        assert(self@.docs =~= want.docs);
                        assert(self@.stack =~= want.stack);
                        assert(self@.keys =~= want.keys);
                        assert(self@.anchors =~= want.anchors);
                    }
                    Ok(())
                } else {
                    Err(BuildFault::Protocol)
                }
            },
            Event::SequenceStart(a) => {
                if self.doc_stack.len() >= MAX_NESTING_DEPTH {
                    return Err(BuildFault::TooDeep);
                }
                self.doc_stack.push((YamlInput::Array(Vec::new()), a));
                proof {
                    let aa = opt_str_view(self.doc_stack@.last().1);
                    let want = LoaderV { stack: m.stack.push((NodeV::Arr(Seq::empty()), aa)), ..m };
                    assert(crate::value::nodes_view(Seq::<YamlInput>::empty()) =~= Seq::<
                        NodeV,
                    >::empty());
                    assert(self@.docs =~= want.docs);
                    assert(self@.stack =~= want.stack);
                    assert(self@.keys =~= want.keys);
                    assert(self@.anchors =~= want.anchors);
                }
                Ok(())
            },
            Event::MappingStart(a) => {
                if self.doc_stack.len() >= MAX_NESTING_DEPTH {
                    return Err(BuildFault::TooDeep);
                }
                self.doc_stack.push((YamlInput::Hash(Vec::new()), a));
                self.key_stack.push(YamlInput::BadValue);
                proof {
                    let aa = opt_str_view(self.doc_stack@.last().1);
                    let want = LoaderV {
                        stack: m.stack.push((NodeV::Hash(Seq::empty()), aa)),
                        keys: m.keys.push(NodeV::Bad),
                        ..m
                    };
                    assert(pairs_view(Seq::<(YamlInput, YamlInput)>::empty()) =~= Seq::<
                        (NodeV, NodeV),
                    >::empty());
                    assert(self@.docs =~= want.docs);
                    assert(self@.stack =~= want.stack);
                    assert(self@.keys =~= want.keys);
                    assert(self@.anchors =~= want.anchors);
                }
                Ok(())
            },
            Event::SequenceEnd => {
                if self.doc_stack.len() == 0 {
                    return Err(BuildFault::Protocol);
                }
                let ghost m1 = LoaderV { stack: m.stack.drop_last(), ..m };
                let saved = self.doc_stack.pop().unwrap();
                proof {
                    assert(self@.docs =~= m1.docs);
                    assert(self@.stack =~= m1.stack);
                    assert(self@.keys =~= m1.keys);
                    assert(self@.anchors =~= m1.anchors);
                }
                let ok = self.may_insert();
                if !ok {
                    self.doc_stack.push(saved);
                    proof {
                        assert(self@.docs =~= m.docs);
                        assert(self@.stack =~= m.stack);
                        assert(self@.keys =~= m.keys);
                        assert(self@.anchors =~= m.anchors);
                    }
                    return Err(BuildFault::Protocol);
                }
                let (node, anch) = saved;
                let res = self.finish(node, anch);
                proof {
                    assert(res is Ok);
                }
                res
            },
            Event::MappingEnd => {
                if self.doc_stack.len() == 0 || self.key_stack.len() == 0 {
                    return Err(BuildFault::Protocol);
                }
                {
                    let pending = &self.key_stack[self.key_stack.len() - 1];
                    if !is_pending_sentinel(pending) {
                        return Err(BuildFault::Protocol);
                    }
                }
                let ghost m1 = LoaderV { stack: m.stack.drop_last(), keys: m.keys.drop_last(), ..m };
                let saved_key = self.key_stack.pop().unwrap();
                let saved = self.doc_stack.pop().unwrap();
                proof {
                    assert(self@.docs =~= m1.docs);
                    assert(self@.stack =~= m1.stack);
                    assert(self@.keys =~= m1.keys);
                    assert(self@.anchors =~= m1.anchors);
                }
                let ok = self.may_insert();
                if !ok {
                    self.doc_stack.push(saved);
                    self.key_stack.push(saved_key);
                    proof {
                        assert(self@.docs =~= m.docs);
                        assert(self@.stack =~= m.stack);
                        assert(self@.keys =~= m.keys);
                        assert(self@.anchors =~= m.anchors);
                    }
                    return Err(BuildFault::Protocol);
                }
                let (node, anch) = saved;
                let res = self.finish(node, anch);
                proof {
                    assert(res is Ok);
                }
                res
            },
            Event::Scalar(text, plain, anchor, tag) => {
                let node = resolve_scalar(text.as_str(), plain, &tag);
                self.finish(node, anchor)
            },
            Event::Alias(name) => {
                let payload = match self.lookup_anchor(&name) {
                    Some(n) => Some(Box::new(n)),
                    None => None,
                };
                let node = YamlInput::Aliased(name, payload);
                self.finish(node, None)
            },
        }
    }

    /// Builds the documents that a whole event sequence denotes.
    #[verifier::loop_isolation(false)]
    pub fn load_from_events(events: Vec<Event>) -> (r: Result<Vec<YamlInput>, BuildFault>)
        ensures
            match run_steps(init_loader(), events_view(events@)) {
                StepResV::Next(m) => match r {
                    Ok(docs) => Seq::new(docs@.len(), |i: int| node_view(docs@[i])) == m.docs,
                    Err(_) => false,
                },
                StepResV::TooDeep => r == Err::<Vec<YamlInput>, BuildFault>(BuildFault::TooDeep),
                StepResV::Fault => r == Err::<Vec<YamlInput>, BuildFault>(BuildFault::Protocol),
            },
    {
        let ghost all = events_view(events@);
        let mut loader = YamlLoader::new();
        let mut rest = events;
        while rest.len() > 0
            invariant
                run_steps(init_loader(), all) == run_steps(loader@, events_view(rest@)),
            decreases rest@.len(),
        {
            let ghost before = events_view(rest@);
            let ev = rest.remove(0);
            proof {
                assert(before[0] == ev@);
                assert(before.skip(1) =~= events_view(rest@));
            }
            match loader.on_event(ev) {
                Ok(()) => {},
                Err(f) => {
                    proof {
                        match step(loader@, ev@) {
                            StepResV::Next(m2) => {
                                assert(false);
                            },
                            StepResV::TooDeep => {
                                assert(run_steps(loader@, before) is TooDeep);
                            },
                            StepResV::Fault => {
                                assert(run_steps(loader@, before) is Fault);
                            },
                        }
                    }
                    return Err(f);
                },
            }
        }
        proof {
            assert(events_view(rest@) =~= Seq::<EvV>::empty());
        }
        Ok(loader.take_docs())
    }
}

} // verus!
