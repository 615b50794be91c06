//! The event source: text goes through the external tokenizer and
//! syntactic parser, and comes back as the plain structural events
//! that the verified builder consumes. The parser reports anchors by
//! numeric registration id; the ids are mapped back to the anchor
//! names that a token-level pass collects in order. Both external
//! results are deterministic functions of the text alone, and are
//! named as such, so the loader's contract pins its whole behavior.
use vstd::prelude::*;
use yaml_rust::parser::Event as PEvent;
use yaml_rust::parser::Parser;
use yaml_rust::scanner::ScanError as SourceScanError;
use yaml_rust::scanner::{Scanner, TScalarStyle, TokenType};
use crate::builder::{
    BuildFault, Event, EvV, LoaderV, StepResV, YamlLoader, init_loader, opt_str_view, run_steps,
    step,
};
use crate::text::chars_of;
use vstd::string::StringExecFns;
use crate::value::{YamlInput, node_view};

verus! {

#[verifier::external_type_specification]
#[verifier::external_body]
pub struct ExPEvent(PEvent);

#[verifier::external_type_specification]
#[verifier::external_body]
pub struct ExTokenType(TokenType);

#[verifier::external_type_specification]
#[verifier::external_body]
pub struct ExSourceScanError(SourceScanError);

/// A positioned error from scanning or loading an input.
#[derive(Debug)]
pub struct ScanError {
    /// What went wrong, in words.
    pub msg: String,
    /// Line of the offending position, counting from one.
    pub line: usize,
    /// Column of the offending position, counting from zero.
    pub col: usize,
}

/// A structural event as the external parser reports it: anchors and
/// aliases carry the parser's numeric registration ids.
pub enum RawEvent {
    /// Stream bookkeeping with no effect on documents.
    Skip,
    StreamEnd,
    DocStart,
    DocEnd,
    Alias(usize),
    /// Text, plain style, anchor id, tag handle/suffix.
    Scalar(String, bool, usize, Option<(String, String)>),
    SeqStart(usize),
    SeqEnd,
    MapStart(usize),
    MapEnd,
}

/// Model of a parser-reported structural event.
pub enum RawEvV {
    Skip,
    StreamEnd,
    DocStart,
    DocEnd,
    Alias(nat),
    Scalar(Seq<char>, bool, nat, Option<(Seq<char>, Seq<char>)>),
    SeqStart(nat),
    SeqEnd,
    MapStart(nat),
    MapEnd,
}

impl View for RawEvent {
    type V = RawEvV;

    open spec fn view(&self) -> RawEvV {
        match self {
            RawEvent::Skip => RawEvV::Skip,
            RawEvent::StreamEnd => RawEvV::StreamEnd,
            RawEvent::DocStart => RawEvV::DocStart,
            RawEvent::DocEnd => RawEvV::DocEnd,
            RawEvent::Alias(id) => RawEvV::Alias(*id as nat),
            RawEvent::Scalar(t, p, aid, tag) => RawEvV::Scalar(
                t@,
                *p,
                *aid as nat,
                crate::scalar::tag_view(*tag),
            ),
            RawEvent::SeqStart(aid) => RawEvV::SeqStart(*aid as nat),
            RawEvent::SeqEnd => RawEvV::SeqEnd,
            RawEvent::MapStart(aid) => RawEvV::MapStart(*aid as nat),
            RawEvent::MapEnd => RawEvV::MapEnd,
        }
    }
}

/// Model of a positioned event list.
pub open spec fn raws_view(s: Seq<(RawEvent, usize, usize)>) -> Seq<(RawEvV, nat, nat)> {
    Seq::new(s.len(), |i: int| (s[i].0@, s[i].1 as nat, s[i].2 as nat))
}

/// Model of a positioned error: message, line, column.
pub open spec fn err_view(e: ScanError) -> (Seq<char>, nat, nat) {
    (e.msg@, e.line as nat, e.col as nat)
}

/// Model of a list of anchor names.
pub open spec fn names_view(s: Seq<String>) -> Seq<Seq<char>> {
    Seq::new(s.len(), |i: int| s[i]@)
}

/// The structural event stream that the external parser derives from
/// a text (positioned, up to but not including the stream end), or
/// the scan error that stops it: a function of the characters alone.
pub uninterp spec fn source_events(s: Seq<char>) -> Result<
    Seq<(RawEvV, nat, nat)>,
    (Seq<char>, nat, nat),
>;

/// The anchor-definition names that the external tokenizer finds in a
/// text, in token order: a function of the characters alone. The
/// parser registers anchors under the ids 1, 2, ... in this same
/// order.
pub uninterp spec fn anchor_names(s: Seq<char>) -> Seq<Seq<char>>;

/// The model of a whole parse outcome.
pub open spec fn parse_outcome(r: Result<Vec<(RawEvent, usize, usize)>, ScanError>) -> Result<
    Seq<(RawEvV, nat, nat)>,
    (Seq<char>, nat, nat),
> {
    match r {
        Ok(v) => Ok(raws_view(v@)),
        Err(e) => Err(err_view(e)),
    }
}

/// Relies on the variants of `yaml_rust::parser::Event`: each is
/// mapped to its plain form, a scalar's style to whether it was
/// plain, and a tag token to its handle and suffix.
#[verifier::external_body]
fn raw_of(ev: PEvent) -> RawEvent {
    match ev {
        PEvent::Nothing | PEvent::StreamStart => RawEvent::Skip,
        PEvent::StreamEnd => RawEvent::StreamEnd,
        PEvent::DocumentStart => RawEvent::DocStart,
        PEvent::DocumentEnd => RawEvent::DocEnd,
        PEvent::Alias(id) => RawEvent::Alias(id),
        PEvent::Scalar(v, st, aid, t) => RawEvent::Scalar(v, st == TScalarStyle::Plain, aid, tag_of(t)),
        PEvent::SequenceStart(aid) => RawEvent::SeqStart(aid),
        PEvent::SequenceEnd => RawEvent::SeqEnd,
        PEvent::MappingStart(aid) => RawEvent::MapStart(aid),
        PEvent::MappingEnd => RawEvent::MapEnd,
    }
}

/// Relies on `yaml_rust::scanner::TokenType::Tag`: a tag token holds
/// the handle and the suffix; any other token holds no tag.
#[verifier::external_body]
fn tag_of(t: Option<TokenType>) -> Option<(String, String)> {
    match t {
        Some(TokenType::Tag(h, s)) => Some((h, s)),
        _ => None,
    }
}

/// Relies on `yaml_rust::scanner::ScanError`: its display form is the
/// message, and its marker the position.
#[verifier::external_body]
fn scan_err_of(e: SourceScanError) -> ScanError {
    ScanError { msg: e.to_string(), line: e.marker().line(), col: e.marker().col() }
}

/// Relies on `yaml_rust::parser::Parser` (`new` and `next`, an
/// iterative state machine over the characters): the text's whole
/// positioned structural event stream up to the stream end, or the
/// scan error that stopped it — one value, deterministic in the
/// characters alone, named `source_events`.
#[verifier::external_body]
fn parse_source(chars: Vec<char>) -> (r: Result<Vec<(RawEvent, usize, usize)>, ScanError>)
    ensures
        parse_outcome(r) == source_events(chars@),
{
    let mut p = Parser::new(chars.into_iter());
    let mut out = Vec::new();
    loop {
        match p.next() {
            Ok((PEvent::StreamEnd, _)) => return Ok(out),
            Ok((ev, m)) => out.push((raw_of(ev), m.line(), m.col())),
            Err(e) => return Err(scan_err_of(e)),
        }
    }
}

/// Relies on `yaml_rust::scanner::Scanner` (`new` and its `Iterator`
/// impl): the anchor-definition names of the text in token order —
/// deterministic in the characters alone, named `anchor_names`. The
/// token walk stops at the end of the tokens or at the first scan
/// error (on a text whose events parse, no scan error occurs).
#[verifier::external_body]
fn scan_anchor_names(chars: Vec<char>) -> (r: Vec<String>)
    ensures
        names_view(r@) == anchor_names(chars@),
{
    let mut s = Scanner::new(chars.into_iter());
    let mut out = Vec::new();
    while let Some(tok) = s.next() {
        if let TokenType::Anchor(n) = tok.1 {
            out.push(n);
        }
    }
    out
}

/// The anchor name behind a positive parser id, when the id is in
/// range of the collected definition names; id zero means no anchor.
pub open spec fn name_of_id(aid: nat, names: Seq<Seq<char>>) -> Option<Option<Seq<char>>> {
    if aid == 0 {
        Some(None)
    } else if aid <= names.len() {
        Some(Some(names[aid - 1]))
    } else {
        None
    }
}

/// What one parser event translates to: nothing, a builder event, or
/// an id that no anchor definition matches.
pub enum TranslateV {
    Skip,
    BadId,
    Ev(EvV),
}

/// The translation of one parser event under the collected anchor
/// names. An alias must name a registered anchor.
pub open spec fn translate_raw(re: RawEvV, names: Seq<Seq<char>>) -> TranslateV {
    match re {
        RawEvV::Skip => TranslateV::Skip,
        RawEvV::StreamEnd => TranslateV::Skip,
        RawEvV::DocStart => TranslateV::Ev(EvV::DocStart),
        RawEvV::DocEnd => TranslateV::Ev(EvV::DocEnd),
        RawEvV::SeqEnd => TranslateV::Ev(EvV::SeqEnd),
        RawEvV::MapEnd => TranslateV::Ev(EvV::MapEnd),
        RawEvV::SeqStart(aid) => match name_of_id(aid, names) {
            Some(a) => TranslateV::Ev(EvV::SeqStart(a)),
            None => TranslateV::BadId,
        },
        RawEvV::MapStart(aid) => match name_of_id(aid, names) {
            Some(a) => TranslateV::Ev(EvV::MapStart(a)),
            None => TranslateV::BadId,
        },
        RawEvV::Scalar(t, p, aid, tag) => match name_of_id(aid, names) {
            Some(a) => TranslateV::Ev(EvV::Scalar(t, p, a, tag)),
            None => TranslateV::BadId,
        },
        RawEvV::Alias(aid) => if 1 <= aid <= names.len() {
            TranslateV::Ev(EvV::Alias(names[aid - 1]))
        } else {
            TranslateV::BadId
        },
    }
}

/// What loading yields: the final machine state, or the position of
/// the first failure with its kind.
pub enum DriveResV {
    Done(LoaderV),
    BadId(nat, nat),
    TooDeep(nat, nat),
    Fault(nat, nat),
}

/// Folding the builder over the translated event stream: the first
/// unknown anchor id, nesting-ceiling overrun or protocol fault stops
/// the load at that event's position.
pub open spec fn drive(m: LoaderV, raws: Seq<(RawEvV, nat, nat)>, names: Seq<Seq<char>>) -> DriveResV
    decreases raws.len(),
{
    if raws.len() == 0 {
        DriveResV::Done(m)
    } else {
        match translate_raw(raws[0].0, names) {
            TranslateV::Skip => drive(m, raws.skip(1), names),
            TranslateV::BadId => DriveResV::BadId(raws[0].1, raws[0].2),
            TranslateV::Ev(ev) => match step(m, ev) {
                StepResV::Next(m2) => drive(m2, raws.skip(1), names),
                StepResV::TooDeep => DriveResV::TooDeep(raws[0].1, raws[0].2),
                StepResV::Fault => DriveResV::Fault(raws[0].1, raws[0].2),
            },
        }
    }
}

/// The models of a list of document roots, in order.
pub open spec fn docs_model(docs: Seq<YamlInput>) -> Seq<crate::value::NodeV> {
    Seq::new(docs.len(), |i: int| node_view(docs[i]))
}

/// The message of the unknown-anchor-id error.
pub open spec fn unknown_anchor_text() -> Seq<char> {
    "unknown anchor id in event stream"@
}

/// The message of the nesting-depth error.
pub open spec fn depth_text() -> Seq<char> {
    "exceeded nesting depth limit while building document"@
}

/// The message of the event-protocol error.
pub open spec fn protocol_text() -> Seq<char> {
    "structural event protocol fault"@
}

proof fn lemma_run_push(m: LoaderV, s: Seq<EvV>, e: EvV)
    requires
        run_steps(m, s) is Next,
    ensures
        run_steps(m, s.push(e)) == step(run_steps(m, s)->Next_0, e),
    decreases s.len(),
{
    if s.len() == 0 {
        assert(s.push(e)[0] == e);
        assert(s.push(e).skip(1) =~= Seq::<EvV>::empty());
        match step(m, e) {
            StepResV::Next(m2) => {
                assert(run_steps(m2, s.push(e).skip(1)) == StepResV::Next(m2));
            },
            _ => {},
        }
    } else {
        assert(s.push(e)[0] == s[0]);
        assert(s.push(e).skip(1) =~= s.skip(1).push(e));
        match step(m, s[0]) {
            StepResV::Next(m2) => {
                lemma_run_push(m2, s.skip(1), e);
                assert(run_steps(m2, s.push(e).skip(1)) == run_steps(m2, s.skip(1).push(e)));
            },
            _ => {
                assert(false);
            },
        }
    }
}

/// Turns one parser event into a builder event under the collected
/// names, exactly as `translate_raw` says.
fn translate_event(raw: RawEvent, names: &Vec<String>) -> (r: Result<Option<Event>, ()>)
    ensures
        match r {
            Ok(oev) => match oev {
                Some(ev) => translate_raw(raw@, names_view(names@)) == TranslateV::Ev(ev@),
                None => translate_raw(raw@, names_view(names@)) == TranslateV::Skip,
            },
            Err(()) => translate_raw(raw@, names_view(names@)) == TranslateV::BadId,
        },
{
    let ghost nv = names_view(names@);
    match raw {
        RawEvent::Skip => Ok(None),
        RawEvent::StreamEnd => Ok(None),
        RawEvent::DocStart => Ok(Some(Event::DocumentStart)),
        RawEvent::DocEnd => Ok(Some(Event::DocumentEnd)),
        RawEvent::SeqEnd => Ok(Some(Event::SequenceEnd)),
        RawEvent::MapEnd => Ok(Some(Event::MappingEnd)),
        RawEvent::SeqStart(aid) => match opt_name(aid, names) {
            Ok(a) => Ok(Some(Event::SequenceStart(a))),
            Err(()) => Err(()),
        },
        RawEvent::MapStart(aid) => match opt_name(aid, names) {
            Ok(a) => Ok(Some(Event::MappingStart(a))),
            Err(()) => Err(()),
        },
        RawEvent::Scalar(text, plain, aid, tag) => match opt_name(aid, names) {
            Ok(a) => Ok(Some(Event::Scalar(text, plain, a, tag))),
            Err(()) => Err(()),
        },
        RawEvent::Alias(aid) => match opt_name(aid, names) {
            Ok(Some(n)) => Ok(Some(Event::Alias(n))),
            Ok(None) => Err(()),
            Err(()) => Err(()),
        },
    }
}

/// The anchor name registered under a positive parser id, when the
/// id is in range of the collected definition names.
fn opt_name(aid: usize, names: &Vec<String>) -> (r: Result<Option<String>, ()>)
    ensures
        match r {
            Ok(name) => name_of_id(aid as nat, names_view(names@)) == Some(opt_str_view(name)),
            Err(()) => name_of_id(aid as nat, names_view(names@)) is None,
        },
{
    if aid == 0 {
        Ok(None)
    } else if aid <= names.len() {
        let n = names[aid - 1].clone();
        proof {
            assert(names_view(names@)[aid - 1] == names@[aid - 1]@);
        }
        Ok(Some(n))
    } else {
        Err(())
    }
}

impl YamlLoader {
    /// Loads every document of a textual input. The whole behavior is
    /// a function of the text: if the external event source reports a
    /// scan error, that positioned error is returned; otherwise the
    /// verified builder folds the translated event stream, and either
    /// every finished document root is returned, in order, or the
    /// first unknown anchor id, nesting-ceiling overrun or protocol
    /// fault is reported at its event's position. Every returned root
    /// is well-formed. Each call starts from fresh, empty state.
    #[verifier::loop_isolation(false)]
    pub fn load_from_str(source: &str) -> (r: Result<Vec<YamlInput>, ScanError>)
        ensures
            match source_events(source@) {
                Err(e) => r matches Err(err) && err_view(err) == e,
                Ok(raws) => match drive(init_loader(), raws, anchor_names(source@)) {
                    DriveResV::Done(m) => r matches Ok(docs) && docs_model(docs@) == m.docs,
                    DriveResV::BadId(l, c) => r matches Err(err) && err_view(err) == (
                        unknown_anchor_text(),
                        l,
                        c,
                    ),
                    DriveResV::TooDeep(l, c) => r matches Err(err) && err_view(err) == (
                        depth_text(),
                        l,
                        c,
                    ),
                    DriveResV::Fault(l, c) => r matches Err(err) && err_view(err) == (
                        protocol_text(),
                        l,
                        c,
                    ),
                },
            },
            r matches Ok(docs) ==> forall|i: int|
                0 <= i < docs@.len() ==> crate::value::wf_node(node_view(#[trigger] docs@[i])),
    {
        let raws = match parse_source(chars_of(source)) {
            Ok(v) => v,
            Err(e) => {
                return Err(e);
            },
        };
        let ghost all = raws_view(raws@);
        let names = scan_anchor_names(chars_of(source));
        let ghost nv = names_view(names@);
        let mut loader = YamlLoader::new();
        let ghost mut processed: Seq<EvV> = Seq::empty();
        let mut rest = raws;
        while rest.len() > 0
            invariant
                run_steps(init_loader(), processed) == StepResV::Next(loader@),
                drive(init_loader(), all, nv) == drive(loader@, raws_view(rest@), nv),
            decreases rest@.len(),
        {
            let ghost before = raws_view(rest@);
            let (raw, line, col) = rest.remove(0);
            proof {
                assert(before[0] == (raw@, line as nat, col as nat));
                assert(before.skip(1) =~= raws_view(rest@));
            }
            let ev: Event = match translate_event(raw, &names) {
                Ok(Some(ev)) => ev,
                Ok(None) => {
                    proof {
                        assert(drive(loader@, before, nv) == drive(
                            loader@,
                            before.skip(1),
                            nv,
                        ));
                    }
                    continue ;
                },
                Err(()) => {
                    proof {
                        assert(drive(loader@, before, nv) == DriveResV::BadId(
                            line as nat,
                            col as nat,
                        ));
                    }
                    return Err(unknown_anchor_error(line, col));
                },
            };
            let ghost pre = loader@;
            match loader.on_event(ev) {
                Ok(()) => {
                    proof {
                        lemma_run_push(init_loader(), processed, ev@);
                        processed = processed.push(ev@);
                        assert(drive(pre, before, nv) == drive(loader@, before.skip(1), nv));
                    }
                },
                Err(BuildFault::TooDeep) => {
                    proof {
                        assert(drive(loader@, before, nv) == DriveResV::TooDeep(
                            line as nat,
                            col as nat,
                        ));
                    }
                    return Err(depth_error(line, col));
                },
                Err(BuildFault::Protocol) => {
                    proof {
                        assert(drive(loader@, before, nv) == DriveResV::Fault(
                            line as nat,
                            col as nat,
                        ));
                    }
                    return Err(protocol_error(line, col));
                },
            }
        }
        proof {
            assert(raws_view(rest@) =~= Seq::<(RawEvV, nat, nat)>::empty());
        }
        let ghost lv = loader@;
        let docs = loader.take_docs();
        let result: Result<Vec<YamlInput>, ScanError> = Ok(docs);
        proof {
            assert(drive(init_loader(), all, nv) == DriveResV::Done(lv));
            assert(lv.docs.len() == (result->Ok_0)@.len());
            assert forall|i: int| 0 <= i < (result->Ok_0)@.len() implies lv.docs[i] == node_view(
                #[trigger] (result->Ok_0)@[i],
            ) by {
                assert(Seq::new((result->Ok_0)@.len(), |j: int| node_view((result->Ok_0)@[j]))[i]
                    == node_view((result->Ok_0)@[i]));
            }
            assert(docs_model((result->Ok_0)@) =~= lv.docs);
            assert(run_steps(init_loader(), processed) == StepResV::Next(lv));
            crate::laws::lemma_loaded_docs_wf(processed);
            assert forall|i: int| 0 <= i < (result->Ok_0)@.len() implies crate::value::wf_node(
                node_view(#[trigger] (result->Ok_0)@[i]),
            ) by {
                assert((run_steps(init_loader(), processed)->Next_0).docs[i] == lv.docs[i]);
                assert(lv.docs[i] == node_view((result->Ok_0)@[i]));
            }
        }
        result
    }
}

/// The error reported when the parser names an anchor id that no
/// definition produced.
fn unknown_anchor_error(line: usize, col: usize) -> (r: ScanError)
    ensures
        err_view(r) == (unknown_anchor_text(), line as nat, col as nat),
{
    ScanError { msg: String::from_str("unknown anchor id in event stream"), line, col }
}

/// The error reported when the input nests deeper than the ceiling.
fn depth_error(line: usize, col: usize) -> (r: ScanError)
    ensures
        err_view(r) == (depth_text(), line as nat, col as nat),
{
    ScanError { msg: String::from_str("exceeded nesting depth limit while building document"), line, col }
}

/// The error reported when the event stream breaks its protocol.
fn protocol_error(line: usize, col: usize) -> (r: ScanError)
    ensures
        err_view(r) == (protocol_text(), line as nat, col as nat),
{
    ScanError { msg: String::from_str("structural event protocol fault"), line, col }
}

} // verus!
