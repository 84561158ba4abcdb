//! Driving and checking the signals of a physical stream for a transfer:
//! which actions a transfer takes, and carrying them out on a signaller.
use vstd::prelude::*;
use crate::directions::PhysicalStreamDirection;
use crate::element::opt_view;
use crate::element_type::{ElementType, ElementValue};
use crate::error::Error;
use crate::messages::{decimal, decimal_spec};
use crate::physical_transfer::{
    HoldValidRule,
    IndexMode,
    LastMode,
    LastModeView,
    PhysicalTransfer,
    PhysicalTransferView,
    StrobeMode,
    StrobeModeView,
};

verus! {

/// One step of a transfer on a physical stream. Signal steps are acted on
/// (driven) for a sink and asserted (checked) for a source.
pub enum SignalAction {
    Comment(String),
    /// All `data` bits low.
    DataDefault,
    /// `data` of the given element lane.
    Data(u32, ElementType),
    /// All `user` bits low.
    UserDefault,
    User(ElementType),
    StartIndex(u32),
    EndIndex(u32),
    Strobe(StrobeMode),
    Last(LastMode),
    /// Complete the transfer with a handshake.
    Handshake,
    /// Complete the transfer, `valid` having been held.
    HandshakeContinue,
    /// Close the transfer.
    HandshakeEnd,
}

/// The model of a `SignalAction`.
pub enum ActionView {
    Comment(Seq<char>),
    DataDefault,
    Data(u32, ElementValue),
    UserDefault,
    User(ElementValue),
    StartIndex(u32),
    EndIndex(u32),
    Strobe(StrobeModeView),
    Last(LastModeView),
    Handshake,
    HandshakeContinue,
    HandshakeEnd,
}

impl View for SignalAction {
    type V = ActionView;

    open spec fn view(&self) -> ActionView {
        match self {
            SignalAction::Comment(s) => ActionView::Comment(s@),
            SignalAction::DataDefault => ActionView::DataDefault,
            SignalAction::Data(l, e) => ActionView::Data(*l, e@),
            SignalAction::UserDefault => ActionView::UserDefault,
            SignalAction::User(e) => ActionView::User(e@),
            SignalAction::StartIndex(i) => ActionView::StartIndex(*i),
            SignalAction::EndIndex(i) => ActionView::EndIndex(*i),
            SignalAction::Strobe(s) => ActionView::Strobe(s@),
            SignalAction::Last(l) => ActionView::Last(l@),
            SignalAction::Handshake => ActionView::Handshake,
            SignalAction::HandshakeContinue => ActionView::HandshakeContinue,
            SignalAction::HandshakeEnd => ActionView::HandshakeEnd,
        }
    }
}

pub open spec fn actions_view(v: Seq<SignalAction>) -> Seq<ActionView> {
    v.map_values(|a: SignalAction| a@)
}

/// `Lane <i> inactive`.
pub open spec fn lane_inactive_text(i: nat) -> Seq<char> {
    "Lane "@ + decimal_spec(i) + " inactive"@
}

/// The data steps: one per lane (its data, or a comment for an inactive
/// lane), or all bits low when the transfer carries no data.
pub open spec fn data_actions(d: Option<Seq<Option<ElementValue>>>) -> Seq<ActionView> {
    match d {
        None => seq![ActionView::DataDefault],
        Some(l) => Seq::new(
            l.len(),
            |i: int|
                match l[i] {
                    Some(e) => ActionView::Data(i as u32, e),
                    None => ActionView::Comment(lane_inactive_text(i as nat)),
                },
        ),
    }
}

pub open spec fn index_actions(m: IndexMode, start: bool) -> Seq<ActionView> {
    match m {
        IndexMode::Index(Some(i)) => seq![
            if start {
                ActionView::StartIndex(i)
            } else {
                ActionView::EndIndex(i)
            },
        ],
        _ => Seq::empty(),
    }
}

pub open spec fn user_actions(u: Option<Option<ElementValue>>) -> Seq<ActionView> {
    match u {
        Some(Some(e)) => seq![ActionView::User(e)],
        Some(None) => seq![ActionView::Comment("User inactive"@)],
        None => seq![ActionView::UserDefault],
    }
}

pub open spec fn holds(h: HoldValidRule) -> bool {
    match h {
        HoldValidRule::NoHold => false,
        HoldValidRule::WholeSequence(v) => v,
        HoldValidRule::InnerSequence(v) => v,
    }
}

/// How the transfer completes: a source (checked) hands shake, or continues
/// when `valid` is held; a sink (driven) continues, unless staggered
/// transfers are tested and `valid` is not held, when it hands shake and
/// closes the transfer.
pub open spec fn handshake_actions(
    holds_valid: bool,
    direction: PhysicalStreamDirection,
    test_staggered: bool,
) -> Seq<ActionView> {
    match direction {
        PhysicalStreamDirection::Source => if holds_valid {
            seq![ActionView::HandshakeContinue]
        } else {
            seq![ActionView::Handshake]
        },
        PhysicalStreamDirection::Sink => if test_staggered && !holds_valid {
            seq![ActionView::Handshake, ActionView::HandshakeEnd]
        } else {
            seq![ActionView::HandshakeContinue]
        },
    }
}

/// The steps of a transfer: the message as a comment, the data, `last`,
/// `strb`, the start and end indices where significant, `user`, and the
/// handshake.
pub open spec fn planned(
    pt: PhysicalTransferView,
    direction: PhysicalStreamDirection,
    test_staggered: bool,
    message: Seq<char>,
) -> Seq<ActionView> {
    seq![ActionView::Comment(message)] + data_actions(pt.data) + seq![
        ActionView::Last(pt.last),
        ActionView::Strobe(pt.strobe),
    ] + index_actions(pt.start_index, true) + index_actions(pt.end_index, false) + user_actions(
        pt.user,
    ) + handshake_actions(holds(pt.holds_valid), direction, test_staggered)
}

fn clone_element(e: &ElementType) -> (r: ElementType)
    ensures
        r@ == e@,
{
    e.clone()
}

/// The steps of `transfer` on a stream driven in `direction` (see
/// `planned`).
pub fn transfer_actions(
    transfer: &PhysicalTransfer,
    direction: PhysicalStreamDirection,
    test_staggered: bool,
    message: &str,
) -> (r: Vec<SignalAction>)
    ensures
        actions_view(r@) == planned(transfer@, direction, test_staggered, message@),
{
    transfer.lemma_shape();
    let ghost pt = transfer@;
    let mut out: Vec<SignalAction> = Vec::new();
    out.push(SignalAction::Comment(String::from_str(message)));
    let ghost prefix = seq![ActionView::Comment(message@)];
    assert(actions_view(out@) =~= prefix);
    match transfer.data() {
        Some(lanes) => {
            let ghost d = pt.data->0;
            assert(d.len() == lanes@.len());
            let mut i: usize = 0;
            while i < lanes.len()
                invariant
                    i <= lanes@.len(),
                    lanes@.len() <= u32::MAX,
                    pt.data == Some(d),
                    d == lanes@.map_values(|e: Option<ElementType>| opt_view(e)),
                    actions_view(out@) == prefix + data_actions(Some(d)).take(i as int),
                decreases lanes@.len() - i,
            {
                let ghost before = out@;
                match &lanes[i] {
                    Some(e) => {
                        out.push(SignalAction::Data(i as u32, clone_element(e)));
                    },
                    None => {
                        let mut t = String::from_str("Lane ");
                        let n = decimal(i as u64);
                        t.append(n.as_str());
                        t.append(" inactive");
                        out.push(SignalAction::Comment(t));
                    },
                }
                proof {
                    assert(d[i as int] == opt_view(lanes@[i as int]));
                    assert(actions_view(out@) =~= actions_view(before).push(out@.last()@));
                    assert(data_actions(Some(d)).take(i + 1) =~= data_actions(Some(d)).take(
                        i as int,
                    ).push(data_actions(Some(d))[i as int]));
                }
                i = i + 1;
            }
            assert(data_actions(Some(d)).take(lanes@.len() as int) =~= data_actions(Some(d)));
        },
        None => {
            out.push(SignalAction::DataDefault);
            assert(actions_view(out@) =~= prefix + data_actions(pt.data));
        },
    }
    let ghost p2 = actions_view(out@);
    out.push(SignalAction::Last(transfer.last().clone()));
    out.push(SignalAction::Strobe(transfer.strobe().clone()));
    let ghost p3 = p2 + seq![ActionView::Last(pt.last), ActionView::Strobe(pt.strobe)];
    assert(actions_view(out@) =~= p3);
    if let IndexMode::Index(Some(stai)) = transfer.start_index() {
        out.push(SignalAction::StartIndex(*stai));
    }
    let ghost p4 = p3 + index_actions(pt.start_index, true);
    assert(actions_view(out@) =~= p4);
    if let IndexMode::Index(Some(endi)) = transfer.end_index() {
        out.push(SignalAction::EndIndex(*endi));
    }
    let ghost p5 = p4 + index_actions(pt.end_index, false);
    assert(actions_view(out@) =~= p5);
    match transfer.user() {
        Some(Some(u)) => out.push(SignalAction::User(clone_element(u))),
        Some(None) => {
            proof {
                reveal_strlit("User inactive");
            }
            out.push(SignalAction::Comment(String::from_str("User inactive")));
        },
        None => out.push(SignalAction::UserDefault),
    }
    let ghost p6 = p5 + user_actions(pt.user);
    assert(actions_view(out@) =~= p6);
    let held = transfer.holds_valid();
    match direction {
        PhysicalStreamDirection::Source => {
            if held {
                out.push(SignalAction::HandshakeContinue);
            } else {
                out.push(SignalAction::Handshake);
            }
        },
        PhysicalStreamDirection::Sink => {
            if test_staggered && !held {
                out.push(SignalAction::Handshake);
                out.push(SignalAction::HandshakeEnd);
            } else {
                out.push(SignalAction::HandshakeContinue);
            }
        },
    }
    assert(actions_view(out@) =~= p6 + handshake_actions(holds(pt.holds_valid), direction, test_staggered));
    out
}

/// A call made on a signaller: the method and what it was given (the
/// `Act…` calls drive signals, the `Assert…` calls check them, with the
/// message giving context).
pub enum SignalCall {
    Comment(Seq<char>),
    ActDataDefault,
    AssertDataDefault(Seq<char>),
    ActData(u32, ElementValue),
    AssertData(u32, ElementValue, Seq<char>),
    ActUserDefault,
    AssertUserDefault(Seq<char>),
    ActUser(ElementValue),
    AssertUser(ElementValue, Seq<char>),
    ActStai(u32),
    AssertStai(u32, Seq<char>),
    ActEndi(u32),
    AssertEndi(u32, Seq<char>),
    ActStrb(StrobeModeView),
    AssertStrb(StrobeModeView, Seq<char>),
    ActLast(LastModeView),
    AssertLast(LastModeView, Seq<char>),
    Handshake,
    HandshakeContinue(Seq<char>),
    HandshakeStart,
    HandshakeEnd,
}

/// The call a step becomes on a stream driven in `direction`: signal steps
/// are asserted on a source and acted on on a sink.
pub open spec fn call_for(direction: PhysicalStreamDirection, a: ActionView, message: Seq<char>) -> SignalCall {
    let source = direction == PhysicalStreamDirection::Source;
    match a {
        ActionView::Comment(c) => SignalCall::Comment(c),
        ActionView::DataDefault => if source {
            SignalCall::AssertDataDefault(message)
        } else {
            SignalCall::ActDataDefault
        },
        ActionView::Data(l, e) => if source {
            SignalCall::AssertData(l, e, message)
        } else {
            SignalCall::ActData(l, e)
        },
        ActionView::UserDefault => if source {
            SignalCall::AssertUserDefault(message)
        } else {
            SignalCall::ActUserDefault
        },
        ActionView::User(e) => if source {
            SignalCall::AssertUser(e, message)
        } else {
            SignalCall::ActUser(e)
        },
        ActionView::StartIndex(i) => if source {
            SignalCall::AssertStai(i, message)
        } else {
            SignalCall::ActStai(i)
        },
        ActionView::EndIndex(i) => if source {
            SignalCall::AssertEndi(i, message)
        } else {
            SignalCall::ActEndi(i)
        },
        ActionView::Strobe(st) => if source {
            SignalCall::AssertStrb(st, message)
        } else {
            SignalCall::ActStrb(st)
        },
        ActionView::Last(l) => if source {
            SignalCall::AssertLast(l, message)
        } else {
            SignalCall::ActLast(l)
        },
        ActionView::Handshake => SignalCall::Handshake,
        ActionView::HandshakeContinue => SignalCall::HandshakeContinue(message),
        ActionView::HandshakeEnd => SignalCall::HandshakeEnd,
    }
}

/// The calls a transfer makes (see `planned` and `call_for`).
pub open spec fn planned_calls(
    pt: PhysicalTransferView,
    direction: PhysicalStreamDirection,
    test_staggered: bool,
    message: Seq<char>,
) -> Seq<SignalCall> {
    planned(pt, direction, test_staggered, message).map_values(
        |a: ActionView| call_for(direction, a, message),
    )
}

/// The signaller `after` is `before` with the call `c` made, which
/// succeeded exactly when `ok`; its direction is unchanged.
pub open spec fn made<S: PhysicalSignals>(before: S, after: S, c: SignalCall, ok: bool) -> bool {
    &&& after.calls() == before.calls().push((c, ok))
    &&& after.driven() == before.driven()
}

/// The calls `cs`, each having succeeded.
pub open spec fn succeeded(cs: Seq<SignalCall>) -> Seq<(SignalCall, bool)> {
    cs.map_values(|c: SignalCall| (c, true))
}

/// Acting on the signals of a physical stream, or asserting that they hold
/// certain values. Implemented by back-ends; `message` gives context to
/// assertions. A back-end keeps the record `calls` of the calls made on it,
/// each with whether it succeeded.
pub trait PhysicalSignals: Sized {
    /// The calls made so far, in order, each with whether it succeeded.
    spec fn calls(&self) -> Seq<(SignalCall, bool)>;

    /// Whether the stream is driven as a source or as a sink.
    spec fn driven(&self) -> PhysicalStreamDirection;

    /// Whether the stream is driven as a source or as a sink.
    fn direction(&self) -> (r: PhysicalStreamDirection)
        ensures
            r == self.driven(),
    ;

    /// Inserts a comment, where the back-end supports it.
    fn comment(&mut self, comment: &str)
        ensures
            final(self).calls() == old(self).calls().push((SignalCall::Comment(comment@), true)),
            final(self).driven() == old(self).driven(),
    ;

    fn act_data_default(&mut self) -> (r: Result<(), Error>)
        ensures
            final(self).calls() == old(self).calls().push((SignalCall::ActDataDefault, r is Ok)),
            final(self).driven() == old(self).driven(),
    ;

    fn assert_data_default(&mut self, message: &str) -> (r: Result<(), Error>)
        ensures
            final(self).calls() == old(self).calls().push((SignalCall::AssertDataDefault(message@), r is Ok)),
            final(self).driven() == old(self).driven(),
    ;

    fn act_data(&mut self, element_lane: u32, data: &ElementType) -> (r: Result<(), Error>)
        ensures
            final(self).calls() == old(self).calls().push((SignalCall::ActData(element_lane, data@), r is Ok)),
            final(self).driven() == old(self).driven(),
    ;

    fn assert_data(&mut self, element_lane: u32, data: &ElementType, message: &str) -> (r: Result<
        (),
        Error,
    >)
        ensures
            final(self).calls() == old(self).calls().push((SignalCall::AssertData(element_lane, data@, message@), r is Ok)),
            final(self).driven() == old(self).driven(),
    ;

    fn act_user_default(&mut self) -> (r: Result<(), Error>)
        ensures
            final(self).calls() == old(self).calls().push((SignalCall::ActUserDefault, r is Ok)),
            final(self).driven() == old(self).driven(),
    ;

    fn assert_user_default(&mut self, message: &str) -> (r: Result<(), Error>)
        ensures
            final(self).calls() == old(self).calls().push((SignalCall::AssertUserDefault(message@), r is Ok)),
            final(self).driven() == old(self).driven(),
    ;

    fn act_user(&mut self, user: &ElementType) -> (r: Result<(), Error>)
        ensures
            final(self).calls() == old(self).calls().push((SignalCall::ActUser(user@), r is Ok)),
            final(self).driven() == old(self).driven(),
    ;

    fn assert_user(&mut self, user: &ElementType, message: &str) -> (r: Result<(), Error>)
        ensures
            final(self).calls() == old(self).calls().push((SignalCall::AssertUser(user@, message@), r is Ok)),
            final(self).driven() == old(self).driven(),
    ;

    fn act_stai(&mut self, stai: u32) -> (r: Result<(), Error>)
        ensures
            final(self).calls() == old(self).calls().push((SignalCall::ActStai(stai), r is Ok)),
            final(self).driven() == old(self).driven(),
    ;

    fn assert_stai(&mut self, stai: u32, message: &str) -> (r: Result<(), Error>)
        ensures
            final(self).calls() == old(self).calls().push((SignalCall::AssertStai(stai, message@), r is Ok)),
            final(self).driven() == old(self).driven(),
    ;

    fn act_endi(&mut self, endi: u32) -> (r: Result<(), Error>)
        ensures
            final(self).calls() == old(self).calls().push((SignalCall::ActEndi(endi), r is Ok)),
            final(self).driven() == old(self).driven(),
    ;

    fn assert_endi(&mut self, endi: u32, message: &str) -> (r: Result<(), Error>)
        ensures
            final(self).calls() == old(self).calls().push((SignalCall::AssertEndi(endi, message@), r is Ok)),
            final(self).driven() == old(self).driven(),
    ;

    fn act_strb(&mut self, strb: StrobeMode) -> (r: Result<(), Error>)
        ensures
            final(self).calls() == old(self).calls().push((SignalCall::ActStrb(strb@), r is Ok)),
            final(self).driven() == old(self).driven(),
    ;

    fn assert_strb(&mut self, strb: StrobeMode, message: &str) -> (r: Result<(), Error>)
        ensures
            final(self).calls() == old(self).calls().push((SignalCall::AssertStrb(strb@, message@), r is Ok)),
            final(self).driven() == old(self).driven(),
    ;

    fn act_last(&mut self, last: &LastMode) -> (r: Result<(), Error>)
        ensures
            final(self).calls() == old(self).calls().push((SignalCall::ActLast(last@), r is Ok)),
            final(self).driven() == old(self).driven(),
    ;

    fn assert_last(&mut self, last: &LastMode, message: &str) -> (r: Result<(), Error>)
        ensures
            final(self).calls() == old(self).calls().push((SignalCall::AssertLast(last@, message@), r is Ok)),
            final(self).driven() == old(self).driven(),
    ;

    /// Completes a transfer with a handshake.
    fn handshake(&mut self) -> (r: Result<(), Error>)
        ensures
            final(self).calls() == old(self).calls().push((SignalCall::Handshake, r is Ok)),
            final(self).driven() == old(self).driven(),
    ;

    /// Completes a transfer whose `valid` was held over consecutive cycles.
    fn handshake_continue(&mut self, message: &str) -> (r: Result<(), Error>)
        ensures
            final(self).calls() == old(self).calls().push((SignalCall::HandshakeContinue(message@), r is Ok)),
            final(self).driven() == old(self).driven(),
    ;

    /// Opens a (sequence) transfer.
    fn handshake_start(&mut self) -> (r: Result<(), Error>)
        ensures
            final(self).calls() == old(self).calls().push((SignalCall::HandshakeStart, r is Ok)),
            final(self).driven() == old(self).driven(),
    ;

    /// Closes a (sequence) transfer.
    fn handshake_end(&mut self) -> (r: Result<(), Error>)
        ensures
            final(self).calls() == old(self).calls().push((SignalCall::HandshakeEnd, r is Ok)),
            final(self).driven() == old(self).driven(),
    ;

    /// Drives all bits of `data` low on a sink, asserts it on a source.
    fn auto_data_default(&mut self, message: &str) -> (r: Result<(), Error>)
        ensures
            final(self).calls() == old(self).calls().push((call_for(old(self).driven(), ActionView::DataDefault, message@), r is Ok)),
            final(self).driven() == old(self).driven(),
    {
        match self.direction() {
            PhysicalStreamDirection::Source => self.assert_data_default(message),
            PhysicalStreamDirection::Sink => self.act_data_default(),
        }
    }

    /// Drives `data` from `element_lane` on a sink, asserts it on a source.
    fn auto_data(&mut self, element_lane: u32, data: &ElementType, message: &str) -> (r: Result<
        (),
        Error,
    >)
        ensures
            final(self).calls() == old(self).calls().push((call_for(old(self).driven(), ActionView::Data(element_lane, data@), message@), r is Ok)),
            final(self).driven() == old(self).driven(),
    {
        match self.direction() {
            PhysicalStreamDirection::Source => self.assert_data(element_lane, data, message),
            PhysicalStreamDirection::Sink => self.act_data(element_lane, data),
        }
    }

    /// Drives all bits of `user` low on a sink, asserts it on a source.
    fn auto_user_default(&mut self, message: &str) -> (r: Result<(), Error>)
        ensures
            final(self).calls() == old(self).calls().push((call_for(old(self).driven(), ActionView::UserDefault, message@), r is Ok)),
            final(self).driven() == old(self).driven(),
    {
        match self.direction() {
            PhysicalStreamDirection::Source => self.assert_user_default(message),
            PhysicalStreamDirection::Sink => self.act_user_default(),
        }
    }

    /// Drives `user` on a sink, asserts it on a source.
    fn auto_user(&mut self, user: &ElementType, message: &str) -> (r: Result<(), Error>)
        ensures
            final(self).calls() == old(self).calls().push((call_for(old(self).driven(), ActionView::User(user@), message@), r is Ok)),
            final(self).driven() == old(self).driven(),
    {
        match self.direction() {
            PhysicalStreamDirection::Source => self.assert_user(user, message),
            PhysicalStreamDirection::Sink => self.act_user(user),
        }
    }

    /// Drives `stai` on a sink, asserts it on a source.
    fn auto_stai(&mut self, stai: u32, message: &str) -> (r: Result<(), Error>)
        ensures
            final(self).calls() == old(self).calls().push((call_for(old(self).driven(), ActionView::StartIndex(stai), message@), r is Ok)),
            final(self).driven() == old(self).driven(),
    {
        match self.direction() {
            PhysicalStreamDirection::Source => self.assert_stai(stai, message),
            PhysicalStreamDirection::Sink => self.act_stai(stai),
        }
    }

    /// Drives `endi` on a sink, asserts it on a source.
    fn auto_endi(&mut self, endi: u32, message: &str) -> (r: Result<(), Error>)
        ensures
            final(self).calls() == old(self).calls().push((call_for(old(self).driven(), ActionView::EndIndex(endi), message@), r is Ok)),
            final(self).driven() == old(self).driven(),
    {
        match self.direction() {
            PhysicalStreamDirection::Source => self.assert_endi(endi, message),
            PhysicalStreamDirection::Sink => self.act_endi(endi),
        }
    }

    /// Drives `strb` on a sink, asserts it on a source.
    fn auto_strb(&mut self, strb: StrobeMode, message: &str) -> (r: Result<(), Error>)
        ensures
            final(self).calls() == old(self).calls().push((call_for(old(self).driven(), ActionView::Strobe(strb@), message@), r is Ok)),
            final(self).driven() == old(self).driven(),
    {
        match self.direction() {
            PhysicalStreamDirection::Source => self.assert_strb(strb, message),
            PhysicalStreamDirection::Sink => self.act_strb(strb),
        }
    }

    /// Drives `last` on a sink, asserts it on a source.
    fn auto_last(&mut self, last: &LastMode, message: &str) -> (r: Result<(), Error>)
        ensures
            final(self).calls() == old(self).calls().push((call_for(old(self).driven(), ActionView::Last(last@), message@), r is Ok)),
            final(self).driven() == old(self).driven(),
    {
        match self.direction() {
            PhysicalStreamDirection::Source => self.assert_last(last, message),
            PhysicalStreamDirection::Sink => self.act_last(last),
        }
    }
}

/// Carries out one step (see `call_for`): signal steps are asserted on a
/// source and acted on on a sink; a comment always succeeds.
pub fn perform<S: PhysicalSignals>(signals: &mut S, action: SignalAction, message: &str) -> (r:
    Result<(), Error>)
    ensures
        made(
            *old(signals),
            *final(signals),
            call_for(old(signals).driven(), action@, message@),
            r is Ok,
        ),
        action is Comment ==> r is Ok,
{
    let source = match signals.direction() {
        PhysicalStreamDirection::Source => true,
        PhysicalStreamDirection::Sink => false,
    };
    match action {
        SignalAction::Comment(c) => {
            signals.comment(c.as_str());
            Ok(())
        },
        SignalAction::DataDefault => if source {
            signals.assert_data_default(message)
        } else {
            signals.act_data_default()
        },
        SignalAction::Data(lane, data) => if source {
            signals.assert_data(lane, &data, message)
        } else {
            signals.act_data(lane, &data)
        },
        SignalAction::UserDefault => if source {
            signals.assert_user_default(message)
        } else {
            signals.act_user_default()
        },
        SignalAction::User(user) => if source {
            signals.assert_user(&user, message)
        } else {
            signals.act_user(&user)
        },
        SignalAction::StartIndex(i) => if source {
            signals.assert_stai(i, message)
        } else {
            signals.act_stai(i)
        },
        SignalAction::EndIndex(i) => if source {
            signals.assert_endi(i, message)
        } else {
            signals.act_endi(i)
        },
        SignalAction::Strobe(st) => if source {
            signals.assert_strb(st, message)
        } else {
            signals.act_strb(st)
        },
        SignalAction::Last(l) => if source {
            signals.assert_last(&l, message)
        } else {
            signals.act_last(&l)
        },
        SignalAction::Handshake => signals.handshake(),
        SignalAction::HandshakeContinue => signals.handshake_continue(message),
        SignalAction::HandshakeEnd => signals.handshake_end(),
    }
}

/// Opens a (sequence) transfer.
pub fn open_transfer<S: PhysicalSignals>(signals: &mut S) -> (r: Result<(), Error>)
    ensures
        made(*old(signals), *final(signals), SignalCall::HandshakeStart, r is Ok),
{
    signals.handshake_start()
}

/// Closes a (sequence) transfer.
pub fn close_transfer<S: PhysicalSignals>(signals: &mut S) -> (r: Result<(), Error>)
    ensures
        made(*old(signals), *final(signals), SignalCall::HandshakeEnd, r is Ok),
{
    signals.handshake_end()
}

/// Carries out the steps of `physical` (see `planned_calls`) in order,
/// stopping at the first step that fails and returning its error: on
/// success every planned call was made and succeeded; on a failure the
/// planned calls up to the failing one were made, only the last failing.
pub fn transfer<S: PhysicalSignals>(
    signals: &mut S,
    physical: &PhysicalTransfer,
    test_staggered: bool,
    message: &str,
) -> (r: Result<(), Error>)
    ensures
        final(signals).driven() == old(signals).driven(),
        r is Ok ==> final(signals).calls() == old(signals).calls() + succeeded(
            planned_calls(physical@, old(signals).driven(), test_staggered, message@),
        ),
        r is Err ==> exists|k: int|
            0 <= k < planned_calls(physical@, old(signals).driven(), test_staggered, message@).len()
                && final(signals).calls() == old(signals).calls() + succeeded(
                planned_calls(physical@, old(signals).driven(), test_staggered, message@).take(k),
            ).push(
                (planned_calls(physical@, old(signals).driven(), test_staggered, message@)[k], false),
            ),
{
    let direction = signals.direction();
    let ghost start = signals.calls();
    let ghost plan = planned_calls(physical@, direction, test_staggered, message@);
    let mut actions = transfer_actions(physical, direction, test_staggered, message);
    let ghost av = actions_view(actions@);
    let n: usize = actions.len();
    let mut i: usize = 0;
    proof {
        assert(succeeded(plan.take(0)) =~= Seq::<(SignalCall, bool)>::empty());
        assert(start + succeeded(plan.take(0)) =~= start);
    }
    while i < n
        invariant
            i <= n,
            n == av.len(),
            av == planned(physical@, direction, test_staggered, message@),
            plan == planned_calls(physical@, direction, test_staggered, message@),
            plan.len() == n,
            actions@.len() == n - i,
            forall|j: int| 0 <= j < actions@.len() ==> (#[trigger] actions@[j])@ == av[i + j],
            signals.driven() == direction,
            direction == old(signals).driven(),
            start == old(signals).calls(),
            signals.calls() == start + succeeded(plan.take(i as int)),
        decreases n - i,
    {
        let ghost a0 = actions@;
        let a = actions.remove(0);
        let ghost before = signals.calls();
        proof {
            assert(a0[0] == a);
            assert forall|j: int| 0 <= j < actions@.len() implies (#[trigger] actions@[j])@ == av[i + 1 + j] by {
                assert(actions@[j] == a0[j + 1]);
            }
            assert(plan[i as int] == call_for(direction, a@, message@));
        }
        match perform(signals, a, message) {
            Ok(()) => {},
            Err(e) => {
                proof {
                    assert(signals.calls() =~= start + succeeded(plan.take(i as int)).push(
                        (plan[i as int], false),
                    ));
                    assert(0 <= i < plan.len());
                }
                return Err(e);
            },
        }
        proof {
            assert(succeeded(plan.take(i + 1)) =~= succeeded(plan.take(i as int)).push(
                (plan[i as int], true),
            ));
            assert(signals.calls() =~= start + succeeded(plan.take(i + 1)));
        }
        i = i + 1;
    }
    proof {
        assert(plan.take(n as int) =~= plan);
    }
    Ok(())
}

} // verus!
