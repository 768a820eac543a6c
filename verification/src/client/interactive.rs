//! The decisions of an interactive session: what it does about the user's input and about
//! each instruction from the server. The loop that waits for events, writes to the screen
//! and sends datagrams stands outside, and does what these functions decide.

use vstd::prelude::*;

use crate::client::session::InputAction;
use crate::protocol::proto::{
    extend_bytes, spec_decode_host_message, HostInstruction, HostInstructionModel, HostMessage, TransportInstruction,
    TransportInstructionModel,
};
use crate::protocol::statesync::{
    opt_instruction_view, receiver_wf, sender_wf, spec_ack_instruction, spec_acknowledge_local, spec_apply_instruction,
    spec_build_instruction, ByteState, ReceiveResult, ReceiverModel, SenderModel, SnapshotModel,
    StateObject, StateSyncError, StateSyncErrorModel, StateSyncReceiver, StateSyncSender,
};
use crate::terminal::user_input::{spec_push_input, UserEventModel, UserInput, UserStream};

verus! {

/// The bytes that the server's host messages carry for the screen, in order.
pub open spec fn host_bytes(msgs: Seq<HostInstructionModel>) -> Seq<u8>
    decreases msgs.len(),
{
    if msgs.len() == 0 {
        seq![]
    } else {
        host_bytes(msgs.drop_last()) + match msgs.last() {
            HostInstructionModel::HostBytes(b) => b,
            _ => seq![],
        }
    }
}

/// What an applied diff shows on the screen: the host bytes of the message it holds, if it is
/// a non-empty, well-formed host message; nothing otherwise.
pub open spec fn screen_output(diff: Option<Seq<u8>>) -> Seq<u8> {
    match diff {
        Some(d) => if d.len() > 0 {
            match spec_decode_host_message(d) {
                Ok(msgs) => host_bytes(msgs),
                Err(_) => seq![],
            }
        } else {
            seq![]
        },
        None => seq![],
    }
}

/// The bytes to write to the screen for an applied diff.
pub fn screen_bytes(diff: &Option<Vec<u8>>) -> (out: Vec<u8>)
    ensures
        out@ == screen_output(match diff {
            Some(d) => Some(d@),
            None => None,
        }),
{
    let mut out: Vec<u8> = Vec::new();
    if let Some(d) = diff {
        if d.len() > 0 {
            if let Ok(message) = HostMessage::decode(d.as_slice()) {
                let ghost msgs = message@;
                let mut i: usize = 0;
                assert(msgs.take(0) =~= Seq::<HostInstructionModel>::empty());
                while i < message.instructions.len()
                    invariant
                        i <= message.instructions@.len(),
                        msgs == message@,
                        msgs.len() == message.instructions@.len(),
                        out@ == host_bytes(msgs.take(i as int)),
                    decreases message.instructions@.len() - i,
                {
                    assert(msgs.take(i + 1).drop_last() =~= msgs.take(i as int));
                    assert(msgs[i as int] == message.instructions@[i as int]@);
                    match &message.instructions[i] {
                        HostInstruction::HostBytes(bytes) => {
                            extend_bytes(&mut out, bytes.as_slice());
                        },
                        _ => {
                            assert(out@ =~= out@ + Seq::<u8>::empty());
                        },
                    }
                    i = i + 1;
                }
                assert(msgs.take(i as int) =~= msgs);
            }
        }
    }
    out
}

/// The protocol state of an interactive session: the screen state received from the server,
/// the user's input so far, and the sender that keeps the server up to date with it.
pub struct SessionCore {
    screen: StateSyncReceiver<ByteState>,
    input: UserStream,
    sender: StateSyncSender<UserStream>,
}

/// The value of a session's protocol state.
pub struct SessionModel {
    pub screen: ReceiverModel<Seq<u8>>,
    pub input: Seq<UserEventModel>,
    pub sender: SenderModel<Seq<UserEventModel>>,
}

impl View for SessionCore {
    type V = SessionModel;

    closed spec fn view(&self) -> SessionModel {
        SessionModel { screen: self.screen@, input: self.input@, sender: self.sender@ }
    }
}

/// A well-formed session: a well-formed receiver and sender.
pub open spec fn session_wf(m: SessionModel) -> bool {
    receiver_wf(m.screen) && sender_wf(m.sender)
}

/// What the session does about an input event: whether it goes on, and the instruction to
/// send, if any.
pub struct InputStep {
    pub running: bool,
    pub send: Option<TransportInstruction>,
}

/// The session after the user's input changed to `input`: the sender gets the new input and
/// builds the instruction that carries it.
pub open spec fn spec_send_input(m: SessionModel, input: Seq<UserEventModel>, now_ms: u64) -> (
    Result<TransportInstructionModel, StateSyncErrorModel>,
    SessionModel,
) {
    let sender = SenderModel { current: input, ..m.sender };
    let (r, sender2) = spec_build_instruction::<UserStream>(sender, now_ms);
    (r, SessionModel { input, sender: sender2, ..m })
}

/// How the session answers an instruction from the server.
pub enum Reply {
    /// The instruction could not be applied: send this acknowledgement of the state held, and
    /// leave the rest of this turn.
    Rebase(TransportInstruction),
    /// Acknowledge it with the next instruction of the user's stream.
    Acknowledge,
    /// Nothing to answer.
    Nothing,
}

/// What an instruction from the server gives: the bytes for the screen and the answer.
pub struct Reception {
    pub screen_bytes: Vec<u8>,
    pub reply: Reply,
}

/// The value of what an instruction gives.
pub enum ReplyModel {
    Rebase(TransportInstructionModel),
    Acknowledge,
    Nothing,
}

pub open spec fn reply_view(r: Reply) -> ReplyModel {
    match r {
        Reply::Rebase(i) => ReplyModel::Rebase(i@),
        Reply::Acknowledge => ReplyModel::Acknowledge,
        Reply::Nothing => ReplyModel::Nothing,
    }
}

/// The session after instruction `i` arrives from the server, with the bytes for the screen
/// and the answer: the acknowledgement it carries reaches the sender; the instruction is
/// applied to the screen state; one that cannot be applied is answered with the state held;
/// otherwise the sender learns the screen state's number, an applied diff shows its host bytes,
/// and an applied or repeated instruction is acknowledged.
pub open spec fn spec_receive(m: SessionModel, i: TransportInstructionModel) -> (Seq<u8>, ReplyModel, SessionModel) {
    let sender1 = match i.ack_num {
        Some(a) => spec_acknowledge_local(m.sender, a),
        None => m.sender,
    };
    let (result, screen) = spec_apply_instruction::<ByteState>(m.screen, i);
    match result {
        Err(_) => (seq![], ReplyModel::Rebase(spec_ack_instruction(screen)), SessionModel { screen, sender: sender1, ..m }),
        Ok(received) => {
            let sender2 = SenderModel {
                remote_ack: if screen.last_ack > sender1.remote_ack {
                    screen.last_ack
                } else {
                    sender1.remote_ack
                },
                ..sender1
            };
            let bytes = if received is Applied {
                screen_output(i.diff)
            } else {
                seq![]
            };
            let reply = if received is Applied || received is Duplicate {
                ReplyModel::Acknowledge
            } else {
                ReplyModel::Nothing
            };
            (bytes, reply, SessionModel { screen, sender: sender2, ..m })
        },
    }
}

impl SessionCore {
    /// A session for a window of `columns` by `rows`: an empty screen state, and the window
    /// size as the user's first input, not yet sent.
    pub fn new(columns: u16, rows: u16) -> (r: Self)
        ensures
            session_wf(r@),
            r@.screen == (ReceiverModel { history: seq![SnapshotModel { number: 0u64, state: Seq::<u8>::empty() }], last_ack: 0 }),
            r@.input == seq![UserEventModel::Resize { columns, rows }],
            r@.sender.current == r@.input,
            r@.sender.history == seq![SnapshotModel { number: 0u64, state: Seq::<UserEventModel>::empty() }],
            r@.sender.next_number == 0,
            r@.sender.acknowledged == 0,
            r@.sender.remote_ack == 0,
            r@.sender.last_instruction is None,
            r@.sender.last_sent_at is None,
    {
        let screen = StateSyncReceiver::new(ByteState(Vec::new()));
        let mut input = UserStream::default();
        input.push_resize(columns, rows);
        let mut sender = StateSyncSender::new(UserStream::default());
        sender.set_state(input.duplicate());
        let r = SessionCore { screen, input, sender };
        assert(r@.input =~= seq![UserEventModel::Resize { columns, rows }]);
        r
    }

    /// The next instruction of the user's stream, as of `now_ms`.
    pub fn next_instruction(&mut self, now_ms: u64) -> (r: Result<TransportInstruction, StateSyncError>)
        requires
            session_wf(old(self)@),
        ensures
            session_wf(final(self)@),
            final(self)@ == (SessionModel {
                sender: spec_build_instruction::<UserStream>(old(self)@.sender, now_ms).1,
                ..old(self)@
            }),
            match spec_build_instruction::<UserStream>(old(self)@.sender, now_ms).0 {
                Ok(i) => r is Ok && r->Ok_0@ == i,
                Err(e) => r is Err && r->Err_0@ == e,
            },
    {
        self.sender.build_instruction(now_ms)
    }

    /// The last instruction again, if it went out at least `timeout_ms` before `now_ms`.
    pub fn retransmission(&self, now_ms: u64, timeout_ms: u64) -> (r: Option<TransportInstruction>)
        ensures
            opt_instruction_view(r) == (match self@.sender.last_sent_at {
                Some(sent_at) => if now_ms >= sent_at && now_ms - sent_at >= timeout_ms
                    || now_ms < sent_at && timeout_ms == 0 {
                    self@.sender.last_instruction
                } else {
                    None
                },
                None => None,
            }),
    {
        self.sender.retransmission(now_ms, timeout_ms)
    }

    /// The screen state last received.
    pub fn latest_screen(&self) -> (r: Option<&ByteState>)
        requires
            session_wf(self@),
        ensures
            r is Some && r->Some_0@ == self@.screen.history.last().state,
    {
        self.screen.latest_state()
    }

    /// What the session does about an input action at `now_ms`: a quit ends it; typed bytes
    /// and a new window size join the user's input and are sent at once.
    pub fn on_input(&mut self, action: InputAction, now_ms: u64) -> (r: Result<InputStep, StateSyncError>)
        requires
            session_wf(old(self)@),
        ensures
            session_wf(final(self)@),
            match action {
                InputAction::Quit => r is Ok && !r->Ok_0.running && r->Ok_0.send is None && final(self)@ == old(self)@,
                InputAction::Ignore => r is Ok && r->Ok_0.running && r->Ok_0.send is None && final(self)@ == old(self)@,
                InputAction::Send(bytes) => {
                    let (b, m2) = spec_send_input(old(self)@, spec_push_input(old(self)@.input, bytes@), now_ms);
                    &&& final(self)@ == m2
                    &&& match b {
                        Ok(i) => r is Ok && r->Ok_0.running && (r->Ok_0.send matches Some(x) && x@ == i),
                        Err(e) => r is Err && r->Err_0@ == e,
                    }
                },
                InputAction::Resize { columns, rows } => {
                    let (b, m2) = spec_send_input(
                        old(self)@,
                        old(self)@.input.push(UserEventModel::Resize { columns, rows }),
                        now_ms,
                    );
                    &&& final(self)@ == m2
                    &&& match b {
                        Ok(i) => r is Ok && r->Ok_0.running && (r->Ok_0.send matches Some(x) && x@ == i),
                        Err(e) => r is Err && r->Err_0@ == e,
                    }
                },
            },
    {
        match action {
            InputAction::Quit => Ok(InputStep { running: false, send: None }),
            InputAction::Ignore => Ok(InputStep { running: true, send: None }),
            InputAction::Send(bytes) => {
                self.input.push_input(UserInput::new(bytes));
                self.sender.set_state(self.input.duplicate());
                let instruction = self.sender.build_instruction(now_ms)?;
                Ok(InputStep { running: true, send: Some(instruction) })
            },
            InputAction::Resize { columns, rows } => {
                self.input.push_resize(columns, rows);
                self.sender.set_state(self.input.duplicate());
                let instruction = self.sender.build_instruction(now_ms)?;
                Ok(InputStep { running: true, send: Some(instruction) })
            },
        }
    }

    /// What the session does about instruction `instruction` from the server.
    pub fn receive(&mut self, instruction: &TransportInstruction) -> (r: Reception)
        requires
            session_wf(old(self)@),
        ensures
            session_wf(final(self)@),
            final(self)@ == spec_receive(old(self)@, instruction@).2,
            r.screen_bytes@ == spec_receive(old(self)@, instruction@).0,
            reply_view(r.reply) == spec_receive(old(self)@, instruction@).1,
    {
        if let Some(ack_number) = instruction.ack_num {
            self.sender.acknowledge_local(ack_number);
        }
        let received = match self.screen.apply_instruction(instruction) {
            Ok(received) => received,
            Err(_) => {
                let rebase = self.screen.ack_instruction();
                return Reception { screen_bytes: Vec::new(), reply: Reply::Rebase(rebase) };
            },
        };
        self.sender.acknowledge_remote(self.screen.latest_number());
        let (screen_bytes, reply) = match received {
            ReceiveResult::Applied { .. } => (screen_bytes(&instruction.diff), Reply::Acknowledge),
            ReceiveResult::Duplicate { .. } => (Vec::new(), Reply::Acknowledge),
            ReceiveResult::Shutdown => (Vec::new(), Reply::Nothing),
        };
        Reception { screen_bytes, reply }
    }
}

} // verus!
