//! The serializer: renders output trees to flow-style text whose
//! scalars re-classify, under the rules of `scalar`, to exactly the
//! nodes they came from. Strings are always quoted (with control
//! characters escaped losslessly), floats that would re-classify as
//! something else carry an explicit core float tag, and a non-scalar
//! mapping key is rendered in explicit-key form.
use vstd::prelude::*;
use crate::value::{OutNodeV, YamlOutput, out_view, outs_view, out_pairs_view, lemma_outs_view,
    lemma_out_pairs_view};
use crate::scalar::classify_plain;
use crate::text::string_of;

verus! {

broadcast use vstd::std_specs::vec::group_vec_axioms, vstd::seq::group_seq_axioms;

/// The character of a decimal digit value.
pub open spec fn digit_char(d: int) -> char {
    ((48 + d) as u8) as char
}

/// The character of a hexadecimal digit value, lower case.
pub open spec fn hex_char(d: int) -> char {
    if d < 10 {
        digit_char(d)
    } else {
        ((87 + d) as u8) as char
    }
}

/// The decimal digits of a non-negative value, most significant
/// first.
pub open spec fn nat_digits(v: int) -> Seq<char>
    decreases v,
{
    if v < 10 {
        seq![digit_char(v)]
    } else {
        nat_digits(v / 10).push(digit_char(v % 10))
    }
}

/// The decimal spelling of a signed integer.
pub open spec fn int_chars(i: int) -> Seq<char> {
    if i < 0 {
        seq!['-'] + nat_digits(-i)
    } else {
        nat_digits(i)
    }
}

/// How one character appears inside a double-quoted scalar.
pub open spec fn esc_char(c: char) -> Seq<char> {
    if c == '"' {
        seq!['\\', '"']
    } else if c == '\\' {
        seq!['\\', '\\']
    } else if c == '\n' {
        seq!['\\', 'n']
    } else if c == '\r' {
        seq!['\\', 'r']
    } else if c == '\t' {
        seq!['\\', 't']
    } else if (c as u32) < 32 || c as u32 == 127 {
        seq!['\\', 'x', hex_char(c as u32 as int / 16), hex_char(c as u32 as int % 16)]
    } else {
        seq![c]
    }
}

/// A text with each character escaped.
pub open spec fn escaped(s: Seq<char>) -> Seq<char>
    decreases s,
{
    if s.len() == 0 {
        Seq::empty()
    } else {
        escaped(s.drop_last()) + esc_char(s.last())
    }
}

/// A double-quoted scalar.
pub open spec fn quoted(s: Seq<char>) -> Seq<char> {
    seq!['"'] + escaped(s) + seq!['"']
}

/// The explicit core float tag, with its separating space.
pub open spec fn float_tag() -> Seq<char> {
    seq!['!', '!', 'f', 'l', 'o', 'a', 't', ' ']
}

/// How a scalar output node is rendered: integers in decimal,
/// booleans and null by their words, a float by its original text —
/// tagged explicitly when that text alone would re-classify as
/// something else — and a string always double-quoted. The absent
/// value renders as null.
pub open spec fn render_scalar(n: OutNodeV) -> Seq<char> {
    match n {
        OutNodeV::Int(i) => int_chars(i as int),
        OutNodeV::Bool(b) => if b {
            seq!['t', 'r', 'u', 'e']
        } else {
            seq!['f', 'a', 'l', 's', 'e']
        },
        OutNodeV::Null => seq!['~'],
        OutNodeV::Bad => seq!['~'],
        OutNodeV::Str(s) => quoted(s),
        OutNodeV::Real(s) => if classify_plain(s) is Real {
            s
        } else {
            float_tag() + s
        },
        _ => Seq::empty(),
    }
}

/// Whether a node renders as a single scalar token.
pub open spec fn is_scalar_node(n: OutNodeV) -> bool {
    n is Int || n is Bool || n is Null || n is Bad || n is Str || n is Real
}

/// The scalar text that `render_scalar` places in the output: what an
/// event source reading the rendering hands back as the scalar's
/// characters (quotes and tag are carried separately).
pub open spec fn scalar_event_text(n: OutNodeV) -> Seq<char> {
    match n {
        OutNodeV::Int(i) => int_chars(i as int),
        OutNodeV::Bool(b) => if b {
            seq!['t', 'r', 'u', 'e']
        } else {
            seq!['f', 'a', 'l', 's', 'e']
        },
        OutNodeV::Str(s) => s,
        OutNodeV::Real(s) => s,
        _ => seq!['~'],
    }
}

/// Whether the rendered scalar is a plain (unquoted) token: exactly
/// the non-string scalars, since strings are always quoted.
pub open spec fn scalar_event_plain(n: OutNodeV) -> bool {
    !(n is Str)
}

/// The explicit tag the rendered scalar carries: the core float tag
/// on a float whose bare text would re-classify as something else,
/// and none otherwise.
pub open spec fn scalar_event_tag(n: OutNodeV) -> Option<(Seq<char>, Seq<char>)> {
    match n {
        OutNodeV::Real(s) => if classify_plain(s) is Real {
            None
        } else {
            Some((seq!['!', '!'], seq!['f', 'l', 'o', 'a', 't']))
        },
        _ => None,
    }
}

/// How a node is rendered: scalars as above, sequences and mappings
/// in flow style, an anchored node behind its `&name`, an alias as
/// `*name`.
pub open spec fn render_node(n: OutNodeV) -> Seq<char>
    decreases n,
{
    match n {
        OutNodeV::Arr(elems) => seq!['['] + render_items(elems) + seq![']'],
        OutNodeV::Hash(es) => seq!['{'] + render_entries(es) + seq!['}'],
        OutNodeV::Anchored(name, c) => seq!['&'] + name + seq![' '] + render_node(*c),
        OutNodeV::Alias(name) => seq!['*'] + name,
        _ => render_scalar(n),
    }
}

/// Flow-sequence elements, comma-separated.
pub open spec fn render_items(s: Seq<OutNodeV>) -> Seq<char>
    decreases s,
{
    if s.len() == 0 {
        Seq::empty()
    } else if s.len() == 1 {
        render_node(s[0])
    } else {
        render_items(s.drop_last()) + seq![',', ' '] + render_node(s.last())
    }
}

/// One mapping entry: a scalar key before its colon, any other key in
/// explicit-key form.
pub open spec fn render_entry(p: (OutNodeV, OutNodeV)) -> Seq<char>
    decreases p,
{
    if is_scalar_node(p.0) {
        render_node(p.0) + seq![':', ' '] + render_node(p.1)
    } else {
        seq!['?', ' '] + render_node(p.0) + seq![' ', ':', ' '] + render_node(p.1)
    }
}

/// Flow-mapping entries, comma-separated.
pub open spec fn render_entries(s: Seq<(OutNodeV, OutNodeV)>) -> Seq<char>
    decreases s,
{
    if s.len() == 0 {
        Seq::empty()
    } else if s.len() == 1 {
        render_entry(s[0])
    } else {
        render_entries(s.drop_last()) + seq![',', ' '] + render_entry(s.last())
    }
}

/// A document stream: one rendered root per document, separated by
/// document markers.
pub open spec fn render_docs(docs: Seq<OutNodeV>) -> Seq<char>
    decreases docs,
{
    if docs.len() == 0 {
        Seq::empty()
    } else if docs.len() == 1 {
        render_node(docs[0])
    } else {
        render_docs(docs.drop_last()) + seq!['\n', '-', '-', '-', '\n'] + render_node(docs.last())
    }
}

fn push_nat(out: &mut Vec<char>, v: u64)
    ensures
        final(out)@ == old(out)@ + nat_digits(v as int),
    decreases v,
{
    if v < 10 {
        out.push(((48 + v as u8)) as char);
        proof {
            assert(out@ =~= old(out)@ + nat_digits(v as int));
        }
    } else {
        push_nat(out, v / 10);
        out.push((48 + (v % 10) as u8) as char);
        proof {
            assert(out@ =~= old(out)@ + nat_digits(v as int));
        }
    }
}

fn push_i64(out: &mut Vec<char>, i: i64)
    ensures
        final(out)@ == old(out)@ + int_chars(i as int),
{
    if i >= 0 {
        push_nat(out, i as u64);
    } else {
        out.push('-');
        let m: u64 = if i == i64::MIN {
            0x8000_0000_0000_0000u64
        } else {
            (-i) as u64
        };
        proof {
            assert(m as int == -(i as int));
        }
        push_nat(out, m);
        proof {
            assert(out@ =~= old(out)@ + int_chars(i as int));
        }
    }
}

fn push_escaped(out: &mut Vec<char>, s: &Vec<char>)
    ensures
        final(out)@ == old(out)@ + escaped(s@),
{
    let n = s.len();
    let mut i: usize = 0;
    proof {
        assert(out@ =~= old(out)@ + escaped(s@.take(0)));
    }
    while i < n
        invariant
            0 <= i <= n,
            n == s@.len(),
            out@ == old(out)@ + escaped(s@.take(i as int)),
        decreases n - i,
    {
        let c = s[i];
        proof {
            assert(s@.take(i + 1).drop_last() =~= s@.take(i as int));
            assert(s@.take(i + 1).last() == s@[i as int]);
        }
        let u = c as u32;
        if c == '"' {
            out.push('\\');
            out.push('"');
        } else if c == '\\' {
            out.push('\\');
            out.push('\\');
        } else if c == '\n' {
            out.push('\\');
            out.push('n');
        } else if c == '\r' {
            out.push('\\');
            out.push('r');
        } else if c == '\t' {
            out.push('\\');
            out.push('t');
        } else if u < 32 || u == 127 {
            out.push('\\');
            out.push('x');
            let hi = (u / 16) as u8;
            let lo = (u % 16) as u8;
            out.push((if hi < 10 { 48 + hi } else { 87 + hi }) as char);
            out.push((if lo < 10 { 48 + lo } else { 87 + lo }) as char);
        } else {
            out.push(c);
        }
        proof {
            assert(out@ =~= old(out)@ + escaped(s@.take(i + 1)));
        }
        i = i + 1;
    }
    proof {
        assert(s@.take(n as int) =~= s@);
    }
}

impl YamlOutput {
    /// Appends this node's rendering.
    #[verifier::loop_isolation(false)]
    #[verifier::rlimit(100)]
    fn push_node(&self, out: &mut Vec<char>)
        ensures
            final(out)@ == old(out)@ + render_node(self@),
        decreases *self,
    {
        match self {
            YamlOutput::Integer(i) => push_i64(out, *i),
            YamlOutput::Boolean(b) => {
                if *b {
                    out.push('t');
                    out.push('r');
                    out.push('u');
                    out.push('e');
                } else {
                    out.push('f');
                    out.push('a');
                    out.push('l');
                    out.push('s');
                    out.push('e');
                }
                proof {
                    assert(out@ =~= old(out)@ + render_node(self@));
                }
            },
            YamlOutput::Null => {
                out.push('~');
                proof {
                    assert(out@ =~= old(out)@ + render_node(self@));
                }
            },
            YamlOutput::BadValue => {
                out.push('~');
                proof {
                    assert(out@ =~= old(out)@ + render_node(self@));
                }
            },
            YamlOutput::String(s) => {
                out.push('"');
                let cs = crate::text::chars_of(s.as_str());
                push_escaped(out, &cs);
                out.push('"');
                proof {
                    assert(out@ =~= old(out)@ + render_node(self@));
                }
            },
            YamlOutput::Real(s) => {
                let cs = crate::text::chars_of(s.as_str());
                let keeps = match crate::value::YamlInput::from_str(s.as_str()) {
                    crate::value::YamlInput::Real(_) => true,
                    _ => false,
                };
                if !keeps {
                    out.push('!');
                    out.push('!');
                    out.push('f');
                    out.push('l');
                    out.push('o');
                    out.push('a');
                    out.push('t');
                    out.push(' ');
                }
                let mut j: usize = 0;
                let ghost base = out@;
                while j < cs.len()
                    invariant
                        0 <= j <= cs@.len(),
                        out@ == base + cs@.take(j as int),
                    decreases cs@.len() - j,
                {
                    out.push(cs[j]);
                    proof {
                        assert(out@ =~= base + cs@.take(j + 1));
                    }
                    j = j + 1;
                }
                proof {
                    assert(cs@.take(cs@.len() as int) =~= cs@);
                    assert(out@ =~= old(out)@ + render_node(self@));
                }
            },
            YamlOutput::Alias(name) => {
                out.push('*');
                let cs = crate::text::chars_of(name.as_str());
                let mut j: usize = 0;
                let ghost base = out@;
                while j < cs.len()
                    invariant
                        0 <= j <= cs@.len(),
                        out@ == base + cs@.take(j as int),
                    decreases cs@.len() - j,
                {
                    out.push(cs[j]);
                    proof {
                        assert(out@ =~= base + cs@.take(j + 1));
                    }
                    j = j + 1;
                }
                proof {
                    assert(cs@.take(cs@.len() as int) =~= cs@);
                    assert(out@ =~= old(out)@ + render_node(self@));
                }
            },
            YamlOutput::Anchored(name, c) => {
                out.push('&');
                let cs = crate::text::chars_of(name.as_str());
                let mut j: usize = 0;
                let ghost base = out@;
                while j < cs.len()
                    invariant
                        0 <= j <= cs@.len(),
                        out@ == base + cs@.take(j as int),
                    decreases cs@.len() - j,
                {
                    out.push(cs[j]);
                    proof {
                        assert(out@ =~= base + cs@.take(j + 1));
                    }
                    j = j + 1;
                }
                out.push(' ');
                c.push_node(out);
                proof {
                    assert(cs@.take(cs@.len() as int) =~= cs@);
                    assert(out@ =~= old(out)@ + render_node(self@));
                }
            },
            YamlOutput::Array(v) => {
                proof {
                    lemma_outs_view(v@);
                }
                out.push('[');
                let n = v.len();
                let mut i: usize = 0;
                let ghost ov = outs_view(v@);
                let ghost base = out@;
                while i < n
                    invariant
                        0 <= i <= n,
                        n == v@.len(),
                        out@ == base + render_items(ov.take(i as int)),
                    decreases n - i,
                {
                    if i > 0 {
                        out.push(',');
                        out.push(' ');
                    }
                    proof {
                        assert(decreases_to!(*self => self->Array_0));
                        assert(decreases_to!(*v => v@));
                        assert(decreases_to!(v@ => v@[i as int]));
                        assert(ov.take(i + 1).drop_last() =~= ov.take(i as int));
                        assert(ov.take(i + 1).last() == ov[i as int]);
                        assert(ov[i as int] == out_view(v@[i as int]));
                    }
                    let ghost mid = out@;
                    v[i].push_node(out);
                    proof {
                        if i == 0 {
                            assert(render_items(ov.take(1)) =~= render_node(ov[0]));
                            assert(out@ =~= base + render_items(ov.take(i + 1)));
                        } else {
                            assert(out@ =~= base + render_items(ov.take(i + 1)));
                        }
                    }
                    i = i + 1;
                }
                out.push(']');
                proof {
                    assert(ov.take(n as int) =~= ov);
                    assert(out@ =~= old(out)@ + render_node(self@));
                }
            },
            YamlOutput::Hash(v) => {
                proof {
                    lemma_out_pairs_view(v@);
                }
                out.push('{');
                let n = v.len();
                let mut i: usize = 0;
                let ghost ov = out_pairs_view(v@);
                let ghost base = out@;
                while i < n
                    invariant
                        0 <= i <= n,
                        n == v@.len(),
                        out@ == base + render_entries(ov.take(i as int)),
                    decreases n - i,
                {
                    if i > 0 {
                        out.push(',');
                        out.push(' ');
                    }
                    proof {
                        assert(decreases_to!(*self => self->Hash_0));
                        assert(decreases_to!(*v => v@));
                        assert(decreases_to!(v@ => v@[i as int]));
                        assert(decreases_to!(v@[i as int] => v@[i as int].0));
                        assert(decreases_to!(v@[i as int] => v@[i as int].1));
                        assert(ov.take(i + 1).drop_last() =~= ov.take(i as int));
                        assert(ov.take(i + 1).last() == ov[i as int]);
                        assert(ov[i as int] == (out_view(v@[i as int].0), out_view(
                            v@[i as int].1,
                        )));
                    }
                    let key_is_scalar = match &v[i].0 {
                        YamlOutput::Array(_) => false,
                        YamlOutput::Hash(_) => false,
                        YamlOutput::Anchored(_, _) => false,
                        YamlOutput::Alias(_) => false,
                        _ => true,
                    };
                    proof {
                        assert(key_is_scalar == is_scalar_node(ov[i as int].0));
                    }
                    let ghost prev = out@;
                    if key_is_scalar {
                        v[i].0.push_node(out);
                        out.push(':');
                        out.push(' ');
                        v[i].1.push_node(out);
                        proof {
                            assert(out@ =~= prev + render_entry(ov[i as int]));
                        }
                    } else {
                        out.push('?');
                        out.push(' ');
                        v[i].0.push_node(out);
                        out.push(' ');
                        out.push(':');
                        out.push(' ');
                        v[i].1.push_node(out);
                        proof {
                            assert(out@ =~= prev + render_entry(ov[i as int]));
                        }
                    }
                    proof {
                        if i == 0 {
                            assert(render_entries(ov.take(1)) =~= render_entry(ov[0]));
                        }
                        assert(out@ =~= base + render_entries(ov.take(i + 1)));
                    }
                    i = i + 1;
                }
                out.push('}');
                proof {
                    assert(ov.take(n as int) =~= ov);
                    assert(out@ =~= old(out)@ + render_node(self@));
                }
            },
        }
    }

    /// Renders this tree to flow-style text.
    pub fn serialize(&self) -> (r: String)
        ensures
            r@ == render_node(self@),
    {
        let mut out: Vec<char> = Vec::new();
        self.push_node(&mut out);
        proof {
            assert(out@ =~= render_node(self@));
        }
        string_of(out)
    }
}

/// Renders a whole document stream, with a document separator between
/// consecutive roots.
#[verifier::loop_isolation(false)]
pub fn serialize_docs(docs: &Vec<YamlOutput>) -> (r: String)
    ensures
        r@ == render_docs(outs_view(docs@)),
{
    proof {
        lemma_outs_view(docs@);
    }
    let mut out: Vec<char> = Vec::new();
    let n = docs.len();
    let mut i: usize = 0;
    let ghost ov = outs_view(docs@);
    while i < n
        invariant
            0 <= i <= n,
            n == docs@.len(),
            out@ == render_docs(ov.take(i as int)),
        decreases n - i,
    {
        if i > 0 {
            out.push('\n');
            out.push('-');
            out.push('-');
            out.push('-');
            out.push('\n');
        }
        proof {
            assert(ov.take(i + 1).drop_last() =~= ov.take(i as int));
            assert(ov.take(i + 1).last() == ov[i as int]);
            assert(ov[i as int] == out_view(docs@[i as int]));
        }
        docs[i].push_node(&mut out);
        proof {
            if i == 0 {
                assert(render_docs(ov.take(1)) =~= render_node(ov[0]));
            }
            assert(out@ =~= render_docs(ov.take(i + 1)));
        }
        i = i + 1;
    }
    proof {
        assert(ov.take(n as int) =~= ov);
    }
    string_of(out)
}

} // verus!
