//! The sequencing of one session on the link: the message frame, the key
//! frame, each transfer followed by a pause, then one read of the response.
//!
//! A `Session` decides; whoever owns the channel performs the `Action` that it
//! hands out and reports back, as an `Event`, how that went.
use vstd::prelude::*;
use crate::frame::{
    ciphertext_of, frame_of, prepare_transfers, reassemble_ciphertext, FRAME_LEN, RESPONSE_LEN,
};

verus! {

/// Pause after each transfer, in milliseconds, for the device to take it in.
pub const PACE_MILLIS: u64 = 10;

/// Steps before the read: a send and a pause for each of the twenty transfers.
pub const READ_STEP: usize = 40;

/// Which of the two operands a transfer belongs to.
#[derive(Clone, Copy, Debug, PartialEq, Eq, Structural)]
pub enum Operand {
    Message,
    Key,
}

/// Why a session ended without a ciphertext.
#[derive(Clone, Copy, Debug, PartialEq, Eq, Structural)]
pub enum LinkError {
    /// The serial device could not be opened.
    ChannelOpen,
    /// A transfer of `operand`, or its flush, failed.
    Write { operand: Operand },
    /// Fewer than eight response bytes came before the deadline.
    ReadTimeout,
    /// The channel closed before eight response bytes came.
    ShortRead,
}

/// What the owner of the channel is to do next.
#[derive(Clone, Copy, Debug, PartialEq, Eq, Structural)]
pub enum Action {
    /// Write `byte`, transfer `index` of `operand`, and flush it.
    Send { operand: Operand, index: usize, byte: u8 },
    /// Wait `millis` milliseconds.
    Pause { millis: u64 },
    /// Read exactly `len` bytes.
    Read { len: usize },
    /// The session is over; the device answered `ciphertext`.
    Finish { ciphertext: u64 },
    /// The session is over and failed.
    Abort { error: LinkError },
}

/// How the last action went.
#[derive(Clone, Copy, Debug)]
pub enum Event {
    /// The byte was written and flushed.
    Sent,
    /// Writing or flushing the byte failed.
    SendFailed,
    /// The pause is over.
    Paused,
    /// The read gave these eight bytes.
    Received { response: [u8; 8] },
    /// The read's deadline passed first.
    TimedOut,
    /// The channel closed before the read was complete.
    Closed,
}

/// Where a session stands.
#[derive(Clone, Copy, Debug, PartialEq, Eq, Structural)]
pub enum Stage {
    /// Waiting for the outcome of step `step` of the session's script.
    Running { step: usize },
    Finished { ciphertext: u64 },
    Aborted { error: LinkError },
}

/// The twenty bytes a session puts on the wire: the message frame, then the
/// key frame.
pub open spec fn wire_of(message: u64, key: u64) -> Seq<u8> {
    frame_of(message) + frame_of(key)
}

/// Step `j` of the script of a session: for transfer `t`, a send at `2 * t`
/// and a pause at `2 * t + 1`; at the end, the read of the response.
pub open spec fn script_step(message: u64, key: u64, j: int) -> Action {
    if j < 40 {
        if j % 2 == 0 {
            let t = j / 2;
            Action::Send {
                operand: if t < 10 {
                    Operand::Message
                } else {
                    Operand::Key
                },
                index: (t % 10) as usize,
                byte: wire_of(message, key)[t],
            }
        } else {
            Action::Pause { millis: PACE_MILLIS }
        }
    } else {
        Action::Read { len: 8 }
    }
}

/// The operand whose transfer is sent at step `step`.
pub open spec fn operand_at(step: int) -> Operand {
    if step < 20 {
        Operand::Message
    } else {
        Operand::Key
    }
}

/// What a session is, for its contracts.
pub struct SessionModel {
    pub message: u64,
    pub key: u64,
    pub stage: Stage,
}

impl SessionModel {
    /// A session that has done nothing yet.
    pub open spec fn initial(message: u64, key: u64) -> SessionModel {
        SessionModel { message, key, stage: Stage::Running { step: 0 } }
    }

    /// The action that the session waits on.
    pub open spec fn pending(self) -> Action {
        match self.stage {
            Stage::Running { step } => script_step(self.message, self.key, step as int),
            Stage::Finished { ciphertext } => Action::Finish { ciphertext },
            Stage::Aborted { error } => Action::Abort { error },
        }
    }

    /// Whether `event` reports on the pending action; an ended session
    /// takes any event and stays as it is.
    pub open spec fn expects(self, event: Event) -> bool {
        match self.pending() {
            Action::Send { .. } => event is Sent || event is SendFailed,
            Action::Pause { .. } => event is Paused,
            Action::Read { .. } => event is Received || event is TimedOut || event is Closed,
            _ => true,
        }
    }

    /// The session after `event`.
    pub open spec fn next(self, event: Event) -> SessionModel {
        match self.stage {
            Stage::Running { step } => SessionModel {
                stage: match event {
                    Event::Sent => Stage::Running { step: (step + 1) as usize },
                    Event::Paused => Stage::Running { step: (step + 1) as usize },
                    Event::SendFailed => Stage::Aborted {
                        error: LinkError::Write { operand: operand_at(step as int) },
                    },
                    Event::Received { response } => Stage::Finished {
                        ciphertext: ciphertext_of(response@),
                    },
                    Event::TimedOut => Stage::Aborted { error: LinkError::ReadTimeout },
                    Event::Closed => Stage::Aborted { error: LinkError::ShortRead },
                },
                ..self
            },
            _ => self,
        }
    }
}

/// One session on the link, from the first transfer of the message to the
/// ciphertext or an error.
pub struct Session {
    message: u64,
    key: u64,
    message_frame: [u8; 10],
    key_frame: [u8; 10],
    stage: Stage,
}

impl View for Session {
    type V = SessionModel;

    closed spec fn view(&self) -> SessionModel {
        SessionModel { message: self.message, key: self.key, stage: self.stage }
    }
}

impl Session {
    /// The frames are those of the operands, and a running session has not
    /// gone past its read.
    pub closed spec fn wf(&self) -> bool {
        &&& self.message_frame@ == frame_of(self.message)
        &&& self.key_frame@ == frame_of(self.key)
        &&& self.stage is Running ==> self.stage->step <= READ_STEP
    }

    /// A session that sends `message`, then `key`, and reads the ciphertext.
    pub fn new(message: u64, key: u64) -> (session: Session)
        ensures
            session.wf(),
            session@ == SessionModel::initial(message, key),
    {
        Session {
            message,
            key,
            message_frame: prepare_transfers(message),
            key_frame: prepare_transfers(key),
            stage: Stage::Running { step: 0 },
        }
    }

    /// The action that the session waits on.
    pub fn pending(&self) -> (action: Action)
        requires
            self.wf(),
        ensures
            action == self@.pending(),
    {
        match self.stage {
            Stage::Running { step } => {
                if step < READ_STEP {
                    if step % 2 == 0 {
                        let t = step / 2;
                        if t < FRAME_LEN {
                            Action::Send { operand: Operand::Message, index: t, byte: self.message_frame[t] }
                        } else {
                            Action::Send {
                                operand: Operand::Key,
                                index: t - FRAME_LEN,
                                byte: self.key_frame[t - FRAME_LEN],
                            }
                        }
                    } else {
                        Action::Pause { millis: PACE_MILLIS }
                    }
                } else {
                    Action::Read { len: RESPONSE_LEN }
                }
            },
            Stage::Finished { ciphertext } => Action::Finish { ciphertext },
            Stage::Aborted { error } => Action::Abort { error },
        }
    }

    /// Whether `event` reports on the pending action.
    pub fn expects(&self, event: &Event) -> (answer: bool)
        requires
            self.wf(),
        ensures
            answer == self@.expects(*event),
    {
        match self.pending() {
            Action::Send { .. } => matches!(event, Event::Sent | Event::SendFailed),
            Action::Pause { .. } => matches!(event, Event::Paused),
            Action::Read { .. } => matches!(event, Event::Received { .. } | Event::TimedOut | Event::Closed),
            _ => true,
        }
    }

    /// Takes the outcome of the pending action and returns the next one.
    pub fn step(&mut self, event: Event) -> (action: Action)
        requires
            old(self).wf(),
            old(self)@.expects(event),
        ensures
            final(self).wf(),
            final(self)@ == old(self)@.next(event),
            action == final(self)@.pending(),
    {
        if let Stage::Running { step } = self.stage {
            self.stage = match event {
                Event::Sent | Event::Paused => Stage::Running { step: step + 1 },
                Event::SendFailed => Stage::Aborted {
                    error: LinkError::Write {
                        operand: if step < 2 * FRAME_LEN {
                            Operand::Message
                        } else {
                            Operand::Key
                        },
                    },
                },
                Event::Received { response } => Stage::Finished {
                    ciphertext: reassemble_ciphertext(&response),
                },
                Event::TimedOut => Stage::Aborted { error: LinkError::ReadTimeout },
                Event::Closed => Stage::Aborted { error: LinkError::ShortRead },
            };
        }
        self.pending()
    }
}

/// Whether `action` ends the session.
pub open spec fn is_terminal(action: Action) -> bool {
    action is Finish || action is Abort
}

/// Whether each of `events` reports on the action pending when it comes,
/// starting from `s`.
pub open spec fn accepts_all(s: SessionModel, events: Seq<Event>) -> bool
    decreases events.len(),
{
    events.len() == 0 || (s.expects(events[0]) && accepts_all(s.next(events[0]), events.drop_first()))
}

/// The actions that a session starting from `s` hands out as `events` come
/// in: the pending one, then one after each event.
pub open spec fn actions_of(s: SessionModel, events: Seq<Event>) -> Seq<Action>
    decreases events.len(),
{
    if events.len() == 0 {
        seq![s.pending()]
    } else {
        seq![s.pending()] + actions_of(s.next(events[0]), events.drop_first())
    }
}

/// The bytes that `actions` send, in order.
pub open spec fn sent_bytes(actions: Seq<Action>) -> Seq<u8>
    decreases actions.len(),
{
    if actions.len() == 0 {
        seq![]
    } else {
        sent_bytes(actions.drop_last()) + match actions.last() {
            Action::Send { byte, .. } => seq![byte],
            _ => seq![],
        }
    }
}

/// A session that runs has not gone past its read.
pub open spec fn model_wf(s: SessionModel) -> bool {
    s.stage is Running ==> s.stage->step <= READ_STEP
}

proof fn lemma_ended_run(s: SessionModel, events: Seq<Event>)
    requires
        !(s.stage is Running),
    ensures
        actions_of(s, events).len() == events.len() + 1,
        forall|j: int| 0 <= j < actions_of(s, events).len() ==> #[trigger] actions_of(s, events)[j] == s.pending(),
    decreases events.len(),
{
    if events.len() > 0 {
        lemma_ended_run(s.next(events[0]), events.drop_first());
    }
}

proof fn lemma_run_follows_script(s: SessionModel, events: Seq<Event>)
    requires
        model_wf(s),
        accepts_all(s, events),
    ensures
        actions_of(s, events).len() == events.len() + 1,
        forall|j: int|
            0 <= j < actions_of(s, events).len() && !is_terminal(#[trigger] actions_of(s, events)[j])
                ==> s.stage is Running && s.stage->step + j <= READ_STEP && actions_of(s, events)[j]
                == script_step(s.message, s.key, s.stage->step + j),
        forall|i: int, j: int|
            0 <= i < j < actions_of(s, events).len() && is_terminal(
                #[trigger] actions_of(s, events)[i],
            ) ==> is_terminal(#[trigger] actions_of(s, events)[j]),
        forall|j: int|
            0 < j < actions_of(s, events).len() && #[trigger] actions_of(s, events)[j] is Finish
                ==> actions_of(s, events)[j - 1] is Read || actions_of(s, events)[j - 1] is Finish,
    decreases events.len(),
{
    let acts = actions_of(s, events);
    if !(s.stage is Running) {
        lemma_ended_run(s, events);
        return;
    }
    if events.len() == 0 {
        return;
    }
    let e = events[0];
    let s2 = s.next(e);
    let rest = events.drop_first();
    let acts2 = actions_of(s2, rest);
    assert(acts == seq![s.pending()] + acts2);
    if s2.stage is Running {
        lemma_run_follows_script(s2, rest);
        assert(s2.stage->step == s.stage->step + 1);
    } else {
        lemma_ended_run(s2, rest);
    }
    assert forall|j: int|
        0 <= j < acts.len() && !is_terminal(#[trigger] acts[j]) implies s.stage is Running
            && s.stage->step + j <= READ_STEP && acts[j] == script_step(
            s.message,
            s.key,
            s.stage->step + j,
        ) by {
        if j > 0 {
            assert(acts[j] == acts2[j - 1]);
        }
    }
    assert forall|i: int, j: int|
        0 <= i < j < acts.len() && is_terminal(#[trigger] acts[i]) implies is_terminal(
        #[trigger] acts[j],
    ) by {
        assert(acts[j] == acts2[j - 1]);
        if i > 0 {
            assert(acts[i] == acts2[i - 1]);
        }
    }
    assert forall|j: int|
        0 < j < acts.len() && #[trigger] acts[j] is Finish implies acts[j - 1] is Read || acts[j
        - 1] is Finish by {
        assert(acts[j] == acts2[j - 1]);
        if j > 1 {
            assert(acts[j - 1] == acts2[j - 2]);
        }
    }
}

proof fn lemma_script_sends(message: u64, key: u64, n: int)
    requires
        0 <= n <= 20,
    ensures
        sent_bytes(Seq::new(2 * n as nat, |j: int| script_step(message, key, j))) == wire_of(
            message,
            key,
        ).take(n),
    decreases n,
{
    let w = wire_of(message, key);
    let acts = Seq::new(2 * n as nat, |j: int| script_step(message, key, j));
    if n == 0 {
        assert(w.take(0) =~= seq![]);
    } else {
        lemma_script_sends(message, key, n - 1);
        let prev = Seq::new(2 * (n - 1) as nat, |j: int| script_step(message, key, j));
        let mid = Seq::new((2 * n - 1) as nat, |j: int| script_step(message, key, j));
        assert(acts.drop_last() =~= mid);
        assert(mid.drop_last() =~= prev);
        assert((2 * n - 1) % 2 == 1);
        assert(acts.last() is Pause);
        assert(sent_bytes(acts) =~= sent_bytes(mid));
        assert((2 * n - 2) % 2 == 0 && (2 * n - 2) / 2 == n - 1);
        assert(mid.last() == script_step(message, key, 2 * n - 2));
        assert(sent_bytes(mid) =~= sent_bytes(prev) + seq![w[n - 1]]);
        assert(w.take(n) =~= w.take(n - 1) + seq![w[n - 1]]);
    }
}

/// Whatever the device and the channel do, a session that reaches its read
/// does so at step `READ_STEP`, having sent exactly the twenty transfers of
/// the message frame and then the key frame.
pub proof fn lemma_session_sends_both_frames(
    message: u64,
    key: u64,
    events: Seq<Event>,
    r: int,
)
    requires
        accepts_all(SessionModel::initial(message, key), events),
        0 <= r < actions_of(SessionModel::initial(message, key), events).len(),
        actions_of(SessionModel::initial(message, key), events)[r] is Read,
    ensures
        r == READ_STEP,
        sent_bytes(actions_of(SessionModel::initial(message, key), events).take(r)) == wire_of(
            message,
            key,
        ),
        wire_of(message, key).len() == 20,
{
    let s = SessionModel::initial(message, key);
    let acts = actions_of(s, events);
    lemma_run_follows_script(s, events);
    assert(!is_terminal(acts[r]));
    assert(acts[r] == script_step(message, key, r));
    assert(r == READ_STEP);
    let script = Seq::new(40, |j: int| script_step(message, key, j));
    assert forall|i: int| 0 <= i < 40 implies acts.take(r)[i] == script[i] by {
        assert(!is_terminal(acts[i]));
    }
    assert(acts.take(r) =~= script);
    lemma_script_sends(message, key, 20);
    assert(wire_of(message, key).take(20) =~= wire_of(message, key));
}

/// A read that times out ends the session with a timeout error; from then on
/// the session asks for no channel operation, whatever it is told.
pub proof fn lemma_timeout_ends_session(s: SessionModel, events: Seq<Event>)
    requires
        s.pending() is Read,
    ensures
        forall|j: int|
            0 <= j < actions_of(s.next(Event::TimedOut), events).len() ==> #[trigger] actions_of(
                s.next(Event::TimedOut),
                events,
            )[j] == (Action::Abort { error: LinkError::ReadTimeout }),
{
    lemma_ended_run(s.next(Event::TimedOut), events);
}

/// Every transfer that a session sends is followed by a pause of
/// `PACE_MILLIS` before anything else happens, unless the send failed and the
/// session aborted.
pub proof fn lemma_pacing(message: u64, key: u64, events: Seq<Event>)
    requires
        accepts_all(SessionModel::initial(message, key), events),
    ensures
        forall|j: int|
            0 <= j && j + 1 < actions_of(SessionModel::initial(message, key), events).len()
                && #[trigger] actions_of(SessionModel::initial(message, key), events)[j] is Send
                ==> actions_of(SessionModel::initial(message, key), events)[j + 1] == (Action::Pause {
                millis: PACE_MILLIS,
            }) || actions_of(SessionModel::initial(message, key), events)[j + 1] is Abort,
{
    let s = SessionModel::initial(message, key);
    let acts = actions_of(s, events);
    lemma_run_follows_script(s, events);
    assert forall|j: int| 0 <= j && j + 1 < acts.len() && #[trigger] acts[j] is Send implies acts[j
        + 1] == (Action::Pause { millis: PACE_MILLIS }) || acts[j + 1] is Abort by {
        assert(!is_terminal(acts[j]));
        if !is_terminal(acts[j + 1]) {
            assert(acts[j + 1] == script_step(message, key, j + 1));
        } else if acts[j + 1] is Finish {
            assert(acts[j] is Read || acts[j] is Finish);
        }
    }
}

} // verus!
