//! State synchronisation (SSP): numbered state histories, diffs and acknowledgements.

use std::collections::VecDeque;

use vstd::prelude::*;

use crate::protocol::proto::{clone_bytes, same_bytes, TransportInstruction, TransportInstructionModel};

verus! {

/// The longest history that a sender or a receiver keeps.
pub const MAX_STATE_HISTORY: usize = 32;

/// Errors of state synchronisation.
#[derive(Debug, Clone, PartialEq, Eq)]
pub enum StateSyncError {
    InvalidInstruction(&'static str),
    MissingBase(u64),
    StateNumberExhausted,
    InvalidDiff(String),
}

/// The value of a state-synchronisation error, its text taken as characters.
pub enum StateSyncErrorModel {
    InvalidInstruction(Seq<char>),
    MissingBase(u64),
    StateNumberExhausted,
    InvalidDiff(Seq<char>),
}

impl View for StateSyncError {
    type V = StateSyncErrorModel;

    open spec fn view(&self) -> StateSyncErrorModel {
        match self {
            StateSyncError::InvalidInstruction(s) => StateSyncErrorModel::InvalidInstruction(s@),
            StateSyncError::MissingBase(n) => StateSyncErrorModel::MissingBase(*n),
            StateSyncError::StateNumberExhausted => StateSyncErrorModel::StateNumberExhausted,
            StateSyncError::InvalidDiff(s) => StateSyncErrorModel::InvalidDiff(s@),
        }
    }
}

/// A state that can be synchronised: it can describe itself relative to an older state,
/// and can be brought forward by such a description.
pub trait StateObject: View + Sized {
    /// The diff from `existing` to `current`, or why there is none.
    spec fn spec_diff(current: Self::V, existing: Self::V) -> Result<Seq<u8>, StateSyncErrorModel>;

    /// The state after applying `diff`, and whether applying succeeded.
    spec fn spec_apply(state: Self::V, diff: Seq<u8>) -> (Self::V, Result<(), StateSyncErrorModel>);

    fn diff_from(&self, existing: &Self) -> (r: Result<Vec<u8>, StateSyncError>)
        ensures
            match Self::spec_diff(self@, existing@) {
                Ok(d) => r is Ok && r->Ok_0@ == d,
                Err(e) => r is Err && r->Err_0@ == e,
            },
    ;

    fn apply_diff(&mut self, diff: &[u8]) -> (r: Result<(), StateSyncError>)
        ensures
            final(self)@ == Self::spec_apply(old(self)@, diff@).0,
            match Self::spec_apply(old(self)@, diff@).1 {
                Ok(_) => r is Ok,
                Err(e) => r is Err && r->Err_0@ == e,
            },
    ;

    /// A copy of the state.
    fn duplicate(&self) -> (r: Self)
        ensures
            r@ == self@,
    ;

    /// Whether two states are the same.
    fn same_state(&self, other: &Self) -> (b: bool)
        ensures
            b == (self@ == other@),
    ;
}

/// The diff from `b` to `c` brings `b` to `c`: it is empty only when the states are equal,
/// and a non-empty one applies to `b` without error, giving `c`.
pub open spec fn diff_converges<S: StateObject>(c: S::V, b: S::V) -> bool {
    S::spec_diff(c, b) is Ok ==> {
        let d = S::spec_diff(c, b)->Ok_0;
        &&& d.len() == 0 ==> c == b
        &&& d.len() > 0 ==> S::spec_apply(b, d) == (c, Ok::<(), StateSyncErrorModel>(()))
    }
}

/// A state that is a plain byte string, sent whole whenever it changes.
#[derive(Debug, Clone, PartialEq, Eq)]
pub struct ByteState(pub Vec<u8>);

impl View for ByteState {
    type V = Seq<u8>;

    open spec fn view(&self) -> Seq<u8> {
        self.0@
    }
}

impl StateObject for ByteState {
    open spec fn spec_diff(current: Seq<u8>, existing: Seq<u8>) -> Result<Seq<u8>, StateSyncErrorModel> {
        if current == existing {
            Ok(seq![])
        } else {
            Ok(current)
        }
    }

    open spec fn spec_apply(state: Seq<u8>, diff: Seq<u8>) -> (Seq<u8>, Result<(), StateSyncErrorModel>) {
        (diff, Ok(()))
    }

    fn diff_from(&self, existing: &Self) -> (r: Result<Vec<u8>, StateSyncError>) {
        if same_bytes(self.0.as_slice(), existing.0.as_slice()) {
            Ok(Vec::new())
        } else {
            Ok(clone_bytes(self.0.as_slice()))
        }
    }

    fn apply_diff(&mut self, diff: &[u8]) -> (r: Result<(), StateSyncError>) {
        self.0 = clone_bytes(diff);
        Ok(())
    }

    fn duplicate(&self) -> (r: Self) {
        ByteState(clone_bytes(self.0.as_slice()))
    }

    fn same_state(&self, other: &Self) -> (b: bool) {
        same_bytes(self.0.as_slice(), other.0.as_slice())
    }
}

/// A byte-state diff brings the old state to the new one unless the new state is empty
/// and the old one is not (the diff is then empty and the old state stays).
pub proof fn lemma_byte_state_diff_converges(c: Seq<u8>, b: Seq<u8>)
    requires
        c == b || c.len() > 0,
    ensures
        diff_converges::<ByteState>(c, b),
{
}


/// A numbered state in a history.
pub struct StateSnapshot<S> {
    pub number: u64,
    pub state: S,
}

/// The value of a numbered state.
pub struct SnapshotModel<V> {
    pub number: u64,
    pub state: V,
}

pub open spec fn snapshot_model<S: View>(s: StateSnapshot<S>) -> SnapshotModel<S::V> {
    SnapshotModel { number: s.number, state: s.state@ }
}

pub open spec fn history_model<S: View>(h: Seq<StateSnapshot<S>>) -> Seq<SnapshotModel<S::V>> {
    h.map_values(|s: StateSnapshot<S>| snapshot_model(s))
}

/// The index of the first snapshot with the given number, if any.
pub open spec fn find_snapshot<V>(h: Seq<SnapshotModel<V>>, number: u64) -> Option<int>
    decreases h.len(),
{
    if h.len() == 0 {
        None
    } else if h[0].number == number {
        Some(0)
    } else {
        match find_snapshot(h.drop_first(), number) {
            Some(i) => Some(i + 1),
            None => None,
        }
    }
}

proof fn lemma_find_snapshot<V>(h: Seq<SnapshotModel<V>>, number: u64)
    ensures
        find_snapshot(h, number) matches Some(i) ==> 0 <= i < h.len() && h[i].number == number
            && forall|j: int| 0 <= j < i ==> h[j].number != number,
        find_snapshot(h, number) is None ==> forall|j: int| 0 <= j < h.len() ==> h[j].number != number,
    decreases h.len(),
{
    if h.len() > 0 {
        lemma_find_snapshot(h.drop_first(), number);
        if h[0].number != number {
            assert forall|j: int| 1 <= j < h.len() implies h[j] == h.drop_first()[j - 1] by {}
        }
    }
}

/// Drops acknowledged snapshots from the front (keeping at least one), then keeps at most
/// the newest `MAX_STATE_HISTORY`.
pub open spec fn trim_before<V>(h: Seq<SnapshotModel<V>>, number: u64) -> Seq<SnapshotModel<V>>
    decreases h.len(),
{
    if h.len() > 1 && h[0].number < number {
        trim_before(h.drop_first(), number)
    } else {
        h
    }
}

pub open spec fn cap_history<V>(h: Seq<SnapshotModel<V>>) -> Seq<SnapshotModel<V>> {
    if h.len() > MAX_STATE_HISTORY {
        h.skip(h.len() - MAX_STATE_HISTORY)
    } else {
        h
    }
}

proof fn lemma_trim_before<V>(h: Seq<SnapshotModel<V>>, number: u64)
    requires
        h.len() >= 1,
    ensures
        trim_before(h, number).len() >= 1,
        trim_before(h, number).len() <= h.len(),
        trim_before(h, number) == h.skip(h.len() - trim_before(h, number).len()),
    decreases h.len(),
{
    if h.len() > 1 && h[0].number < number {
        lemma_trim_before(h.drop_first(), number);
        let t = trim_before(h.drop_first(), number);
        assert(h.drop_first().skip(h.drop_first().len() - t.len()) =~= h.skip(h.len() - t.len()));
    } else {
        assert(h.skip(0) =~= h);
    }
}

/// The numbers in a history strictly increase.
pub open spec fn increasing<V>(h: Seq<SnapshotModel<V>>) -> bool {
    forall|i: int, j: int| 0 <= i < j < h.len() ==> h[i].number < h[j].number
}

/// The state of a sender.
pub struct SenderModel<V> {
    pub current: V,
    pub history: Seq<SnapshotModel<V>>,
    pub next_number: u64,
    pub acknowledged: u64,
    pub remote_ack: u64,
    pub last_instruction: Option<TransportInstructionModel>,
    pub last_sent_at: Option<u64>,
}

/// The state of a receiver.
pub struct ReceiverModel<V> {
    pub history: Seq<SnapshotModel<V>>,
    pub last_ack: u64,
}

/// The result of receiving an instruction.
pub enum ReceiveResult<S> {
    Applied { number: u64, state: S },
    Duplicate { number: u64, state: S },
    Shutdown,
}

/// The value of the result of receiving an instruction.
pub enum ReceiveResultModel<V> {
    Applied { number: u64, state: V },
    Duplicate { number: u64, state: V },
    Shutdown,
}

impl<S: View> View for ReceiveResult<S> {
    type V = ReceiveResultModel<S::V>;

    open spec fn view(&self) -> ReceiveResultModel<S::V> {
        match self {
            ReceiveResult::Applied { number, state } => ReceiveResultModel::Applied { number: *number, state: state@ },
            ReceiveResult::Duplicate { number, state } => ReceiveResultModel::Duplicate { number: *number, state: state@ },
            ReceiveResult::Shutdown => ReceiveResultModel::Shutdown,
        }
    }
}

/// The sending side of state synchronisation.
pub struct StateSyncSender<S> {
    current_state: S,
    sent_states: VecDeque<StateSnapshot<S>>,
    next_number: u64,
    acknowledged_number: u64,
    remote_ack_number: u64,
    last_instruction: Option<TransportInstruction>,
    last_sent_at: Option<u64>,
}

pub open spec fn opt_instruction_view(o: Option<TransportInstruction>) -> Option<TransportInstructionModel> {
    match o {
        Some(i) => Some(i@),
        None => None,
    }
}

impl<S: View> View for StateSyncSender<S> {
    type V = SenderModel<S::V>;

    closed spec fn view(&self) -> SenderModel<S::V> {
        SenderModel {
            current: self.current_state@,
            history: history_model(self.sent_states@),
            next_number: self.next_number,
            acknowledged: self.acknowledged_number,
            remote_ack: self.remote_ack_number,
            last_instruction: opt_instruction_view(self.last_instruction),
            last_sent_at: self.last_sent_at,
        }
    }
}

/// A well-formed sender history: non-empty, increasing, ending at the last state number,
/// which never reaches the number reserved for shutdown.
pub open spec fn sender_wf<V>(m: SenderModel<V>) -> bool {
    &&& m.history.len() >= 1
    &&& increasing(m.history)
    &&& m.history.last().number == m.next_number
    &&& m.next_number < u64::MAX
}

/// The sender after building an instruction at `now_ms`, and the instruction (or the error).
pub open spec fn spec_build_instruction<S: StateObject>(m: SenderModel<S::V>, now_ms: u64) -> (
    Result<TransportInstructionModel, StateSyncErrorModel>,
    SenderModel<S::V>,
) {
    let changed = m.history.last().state != m.current;
    if changed && m.next_number >= u64::MAX - 1 {
        (Err(StateSyncErrorModel::StateNumberExhausted), m)
    } else {
        let next = if changed { (m.next_number + 1) as u64 } else { m.next_number };
        let history = if changed {
            m.history.push(SnapshotModel { number: next, state: m.current })
        } else {
            m.history
        };
        let m1 = SenderModel { history, next_number: next, ..m };
        let base_index = match find_snapshot(history, m.acknowledged) {
            Some(i) => i,
            None => 0,
        };
        let base = history[base_index];
        match S::spec_diff(m.current, base.state) {
            Err(e) => (Err(e), m1),
            Ok(diff) => {
                let instruction = TransportInstructionModel {
                    protocol_version: Some(2),
                    old_num: Some(base.number),
                    new_num: Some(history.last().number),
                    ack_num: Some(m.remote_ack),
                    throwaway_num: Some(history[0].number),
                    diff: Some(diff),
                    chaff: None,
                };
                (Ok(instruction), SenderModel { last_instruction: Some(instruction), last_sent_at: Some(now_ms), ..m1 })
            },
        }
    }
}

/// The sender after the receiver acknowledged state `ack_number`.
pub open spec fn spec_acknowledge_local<V>(m: SenderModel<V>, ack_number: u64) -> SenderModel<V> {
    let acked = if ack_number > m.acknowledged { ack_number } else { m.acknowledged };
    SenderModel { acknowledged: acked, history: cap_history(trim_before(m.history, acked)), ..m }
}

impl<S: StateObject> StateSyncSender<S> {
    pub fn new(initial_state: S) -> (r: Self)
        ensures
            sender_wf(r@),
            r@.current == initial_state@,
            r@.history == seq![SnapshotModel { number: 0u64, state: initial_state@ }],
            r@.next_number == 0,
            r@.acknowledged == 0,
            r@.remote_ack == 0,
            r@.last_instruction is None,
            r@.last_sent_at is None,
    {
        let current = initial_state.duplicate();
        let mut sent_states: VecDeque<StateSnapshot<S>> = VecDeque::new();
        sent_states.push_back(StateSnapshot { number: 0, state: initial_state });
        let r = StateSyncSender {
            current_state: current,
            sent_states,
            next_number: 0,
            acknowledged_number: 0,
            remote_ack_number: 0,
            last_instruction: None,
            last_sent_at: None,
        };
        assert(r@.history =~= seq![SnapshotModel { number: 0u64, state: initial_state@ }]);
        r
    }

    pub fn set_state(&mut self, state: S)
        ensures
            final(self)@ == (SenderModel { current: state@, ..old(self)@ }),
    {
        self.current_state = state;
    }

    pub fn current_state(&self) -> (r: &S)
        ensures
            r@ == self@.current,
    {
        &self.current_state
    }

    pub fn last_sent_at(&self) -> (r: Option<u64>)
        ensures
            r == self@.last_sent_at,
    {
        self.last_sent_at
    }

    pub fn history_len(&self) -> (r: usize)
        ensures
            r == self@.history.len(),
    {
        self.sent_states.len()
    }

    pub fn acknowledge_remote(&mut self, ack_number: u64)
        ensures
            final(self)@ == (SenderModel {
                remote_ack: if ack_number > old(self)@.remote_ack { ack_number } else { old(self)@.remote_ack },
                ..old(self)@
            }),
    {
        if ack_number > self.remote_ack_number {
            self.remote_ack_number = ack_number;
        }
    }

    pub fn retransmission(&self, now_ms: u64, timeout_ms: u64) -> (r: Option<TransportInstruction>)
        ensures
            opt_instruction_view(r) == (match self@.last_sent_at {
                Some(sent_at) => if now_ms >= sent_at && now_ms - sent_at >= timeout_ms
                    || now_ms < sent_at && timeout_ms == 0 {
                    self@.last_instruction
                } else {
                    None
                },
                None => None,
            }),
    {
        match self.last_sent_at {
            Some(sent_at) => {
                if now_ms.saturating_sub(sent_at) >= timeout_ms {
                    match &self.last_instruction {
                        Some(instruction) => Some(instruction.duplicate()),
                        None => None,
                    }
                } else {
                    None
                }
            },
            None => None,
        }
    }

    /// Index of the first snapshot numbered `number`, or 0 when there is none.
    fn base_index(&self, number: u64) -> (r: usize)
        requires
            self.sent_states@.len() >= 1,
        ensures
            r == (match find_snapshot(history_model(self.sent_states@), number) {
                Some(i) => i,
                None => 0,
            }),
            r < self.sent_states@.len(),
    {
        let ghost h = history_model(self.sent_states@);
        proof {
            lemma_find_snapshot(h, number);
        }
        let mut i: usize = 0;
        while i < self.sent_states.len()
            invariant
                i <= h.len(),
                h == history_model(self.sent_states@),
                forall|j: int| 0 <= j < i ==> h[j].number != number,
            decreases h.len() - i,
        {
            assert(h[i as int] == snapshot_model(self.sent_states@[i as int]));
            if self.sent_states[i].number == number {
                proof {
                    lemma_find_snapshot(h, number);
                }
                return i;
            }
            i = i + 1;
        }
        proof {
            lemma_find_snapshot(h, number);
        }
        0
    }

    pub fn build_instruction(&mut self, now_ms: u64) -> (r: Result<TransportInstruction, StateSyncError>)
        requires
            sender_wf(old(self)@),
        ensures
            sender_wf(final(self)@),
            final(self)@ == spec_build_instruction::<S>(old(self)@, now_ms).1,
            match spec_build_instruction::<S>(old(self)@, now_ms).0 {
                Ok(i) => r is Ok && r->Ok_0@ == i,
                Err(e) => r is Err && r->Err_0@ == e,
            },
    {
        let ghost m = self@;
        let len = self.sent_states.len();
        let changed = !self.sent_states[len - 1].state.same_state(&self.current_state);
        assert(history_model(self.sent_states@)[len - 1] == snapshot_model(self.sent_states@[len - 1]));
        if changed {
            if self.next_number >= u64::MAX - 1 {
                return Err(StateSyncError::StateNumberExhausted);
            }
            self.next_number = self.next_number + 1;
            let snapshot = StateSnapshot { number: self.next_number, state: self.current_state.duplicate() };
            let ghost before = self.sent_states@;
            self.sent_states.push_back(snapshot);
            assert(history_model(self.sent_states@) =~= history_model(before).push(snapshot_model(snapshot)));
        }
        let ghost history = history_model(self.sent_states@);
        assert(history.last().number == self.next_number);
        let base_index = self.base_index(self.acknowledged_number);
        assert(history[base_index as int] == snapshot_model(self.sent_states@[base_index as int]));
        let diff = match self.current_state.diff_from(&self.sent_states[base_index].state) {
            Ok(diff) => diff,
            Err(e) => return Err(e),
        };
        let last = self.sent_states.len() - 1;
        assert(history[last as int] == snapshot_model(self.sent_states@[last as int]));
        assert(history[0] == snapshot_model(self.sent_states@[0]));
        let instruction = TransportInstruction {
            protocol_version: Some(2),
            old_num: Some(self.sent_states[base_index].number),
            new_num: Some(self.sent_states[last].number),
            ack_num: Some(self.remote_ack_number),
            throwaway_num: Some(self.sent_states[0].number),
            diff: Some(diff),
            chaff: None,
        };
        self.last_instruction = Some(instruction.duplicate());
        self.last_sent_at = Some(now_ms);
        Ok(instruction)
    }

    pub fn acknowledge_local(&mut self, ack_number: u64)
        requires
            sender_wf(old(self)@),
        ensures
            sender_wf(final(self)@),
            final(self)@ == spec_acknowledge_local(old(self)@, ack_number),
    {
        if ack_number > self.acknowledged_number {
            self.acknowledged_number = ack_number;
        }
        let acked = self.acknowledged_number;
        let ghost h0 = history_model(self.sent_states@);
        let ghost m1 = self@;
        proof {
            lemma_trim_before(h0, acked);
        }
        while self.sent_states.len() > 1 && self.sent_states[0].number < acked
            invariant
                self.sent_states@.len() >= 1,
                trim_before(h0, acked) == trim_before(history_model(self.sent_states@), acked),
                increasing(history_model(self.sent_states@)),
                history_model(self.sent_states@).last().number == self.next_number,
                self.acknowledged_number == acked,
                self@ == (SenderModel { history: history_model(self.sent_states@), ..m1 }),
            decreases self.sent_states@.len(),
        {
            let ghost before = self.sent_states@;
            assert(history_model(before)[0] == snapshot_model(before[0]));
            let _ = self.sent_states.pop_front();
            assert(history_model(self.sent_states@) =~= history_model(before).drop_first());
        }
        assert(history_model(self.sent_states@)[0] == snapshot_model(self.sent_states@[0]));
        assert(trim_before(history_model(self.sent_states@), acked) == history_model(self.sent_states@));
        let ghost t = history_model(self.sent_states@);
        while self.sent_states.len() > MAX_STATE_HISTORY
            invariant
                self.sent_states@.len() >= 1,
                cap_history(t) == cap_history(history_model(self.sent_states@)),
                increasing(history_model(self.sent_states@)),
                history_model(self.sent_states@).last().number == self.next_number,
                self@ == (SenderModel { history: history_model(self.sent_states@), ..m1 }),
            decreases self.sent_states@.len(),
        {
            let ghost before = self.sent_states@;
            let _ = self.sent_states.pop_front();
            assert(history_model(self.sent_states@) =~= history_model(before).drop_first());
            assert(cap_history(history_model(before)) =~= cap_history(history_model(self.sent_states@)));
        }
        assert(cap_history(history_model(self.sent_states@)) == history_model(self.sent_states@));
    }
}


/// The receiving side of state synchronisation.
pub struct StateSyncReceiver<S> {
    received_states: VecDeque<StateSnapshot<S>>,
    last_ack_number: u64,
}

impl<S: View> View for StateSyncReceiver<S> {
    type V = ReceiverModel<S::V>;

    closed spec fn view(&self) -> ReceiverModel<S::V> {
        ReceiverModel { history: history_model(self.received_states@), last_ack: self.last_ack_number }
    }
}

/// A well-formed receiver history: from 1 to `MAX_STATE_HISTORY` states, increasing, ending at
/// the last acknowledged state.
pub open spec fn receiver_wf<V>(m: ReceiverModel<V>) -> bool {
    &&& m.history.len() >= 1
    &&& m.history.len() <= MAX_STATE_HISTORY
    &&& increasing(m.history)
    &&& m.history.last().number == m.last_ack
}

/// The receiver after an instruction arrives, and what was received (or the error).
pub open spec fn spec_apply_instruction<S: StateObject>(m: ReceiverModel<S::V>, i: TransportInstructionModel) -> (
    Result<ReceiveResultModel<S::V>, StateSyncErrorModel>,
    ReceiverModel<S::V>,
) {
    match i.new_num {
        None => (Err(StateSyncErrorModel::InvalidInstruction("missing new_num"@)), m),
        Some(new_number) => if new_number == u64::MAX {
            (Ok(ReceiveResultModel::Shutdown), m)
        } else {
            match i.old_num {
                None => (Err(StateSyncErrorModel::InvalidInstruction("missing old_num"@)), m),
                Some(old_number) => if new_number <= m.last_ack {
                    (Ok(ReceiveResultModel::Duplicate { number: m.last_ack, state: m.history.last().state }), m)
                } else {
                    match find_snapshot(m.history, old_number) {
                        None => (Err(StateSyncErrorModel::MissingBase(old_number)), m),
                        Some(k) => {
                            let base = m.history[k].state;
                            let applied = match i.diff {
                                Some(d) => if d.len() > 0 { S::spec_apply(base, d) } else { (base, Ok(())) },
                                None => (base, Ok(())),
                            };
                            match applied.1 {
                                Err(e) => (Err(e), m),
                                Ok(_) => {
                                    let pushed = m.history.push(SnapshotModel { number: new_number, state: applied.0 });
                                    let trimmed = match i.throwaway_num {
                                        Some(t) => trim_before(pushed, t),
                                        None => pushed,
                                    };
                                    (
                                        Ok(ReceiveResultModel::Applied { number: new_number, state: applied.0 }),
                                        ReceiverModel { history: cap_history(trimmed), last_ack: new_number },
                                    )
                                },
                            }
                        },
                    }
                },
            }
        },
    }
}

/// The acknowledgement a receiver sends: its last state, with an empty diff.
pub open spec fn spec_ack_instruction<V>(m: ReceiverModel<V>) -> TransportInstructionModel {
    TransportInstructionModel {
        protocol_version: Some(2),
        old_num: Some(m.last_ack),
        new_num: Some(m.last_ack),
        ack_num: Some(m.last_ack),
        throwaway_num: Some(m.history[0].number),
        diff: Some(seq![]),
        chaff: None,
    }
}

proof fn lemma_trim_keeps_wf<V>(h: Seq<SnapshotModel<V>>, number: u64)
    requires
        h.len() >= 1,
        increasing(h),
    ensures
        trim_before(h, number).len() >= 1,
        increasing(trim_before(h, number)),
        trim_before(h, number).last() == h.last(),
        increasing(cap_history(trim_before(h, number))),
        cap_history(trim_before(h, number)).len() >= 1,
        cap_history(trim_before(h, number)).last() == h.last(),
{
    lemma_trim_before(h, number);
}

impl<S: StateObject> StateSyncReceiver<S> {
    pub fn new(initial_state: S) -> (r: Self)
        ensures
            receiver_wf(r@),
            r@.history == seq![SnapshotModel { number: 0u64, state: initial_state@ }],
            r@.last_ack == 0,
    {
        let mut received_states: VecDeque<StateSnapshot<S>> = VecDeque::new();
        received_states.push_back(StateSnapshot { number: 0, state: initial_state });
        let r = StateSyncReceiver { received_states, last_ack_number: 0 };
        assert(r@.history =~= seq![SnapshotModel { number: 0u64, state: initial_state@ }]);
        r
    }

    fn find_base(&self, number: u64) -> (r: Option<usize>)
        ensures
            match find_snapshot(history_model(self.received_states@), number) {
                Some(i) => r is Some && r->Some_0 == i,
                None => r is None,
            },
            r matches Some(i) ==> i < self.received_states@.len(),
    {
        let ghost h = history_model(self.received_states@);
        let mut i: usize = 0;
        while i < self.received_states.len()
            invariant
                i <= h.len(),
                h == history_model(self.received_states@),
                forall|j: int| 0 <= j < i ==> h[j].number != number,
            decreases h.len() - i,
        {
            assert(h[i as int] == snapshot_model(self.received_states@[i as int]));
            if self.received_states[i].number == number {
                proof {
                    lemma_find_snapshot(h, number);
                }
                return Some(i);
            }
            i = i + 1;
        }
        proof {
            lemma_find_snapshot(h, number);
        }
        None
    }

    fn trim(&mut self, throwaway: Option<u64>)
        requires
            old(self)@.history.len() >= 1,
            increasing(old(self)@.history),
        ensures
            final(self)@.last_ack == old(self)@.last_ack,
            final(self)@.history == cap_history(match throwaway {
                Some(t) => trim_before(old(self)@.history, t),
                None => old(self)@.history,
            }),
    {
        let ghost h0 = old(self)@.history;
        let ghost ack0 = self.last_ack_number;
        if let Some(throwaway_number) = throwaway {
            proof {
                lemma_trim_before(h0, throwaway_number);
            }
            while self.received_states.len() > 1 && self.received_states[0].number < throwaway_number
                invariant
                    self.received_states@.len() >= 1,
                    trim_before(h0, throwaway_number) == trim_before(history_model(self.received_states@), throwaway_number),
                    self.last_ack_number == ack0,
                decreases self.received_states@.len(),
            {
                let ghost before = self.received_states@;
                assert(history_model(before)[0] == snapshot_model(before[0]));
                let _ = self.received_states.pop_front();
                assert(history_model(self.received_states@) =~= history_model(before).drop_first());
            }
            assert(history_model(self.received_states@)[0] == snapshot_model(self.received_states@[0]));
            assert(trim_before(history_model(self.received_states@), throwaway_number) == history_model(self.received_states@));
        }
        let ghost t = history_model(self.received_states@);
        while self.received_states.len() > MAX_STATE_HISTORY
            invariant
                self.received_states@.len() >= 1,
                cap_history(t) == cap_history(history_model(self.received_states@)),
                self.last_ack_number == ack0,
            decreases self.received_states@.len(),
        {
            let ghost before = self.received_states@;
            let _ = self.received_states.pop_front();
            assert(history_model(self.received_states@) =~= history_model(before).drop_first());
            assert(cap_history(history_model(before)) =~= cap_history(history_model(self.received_states@)));
        }
        assert(cap_history(history_model(self.received_states@)) == history_model(self.received_states@));
    }

    pub fn apply_instruction(&mut self, instruction: &TransportInstruction) -> (r: Result<ReceiveResult<S>, StateSyncError>)
        requires
            receiver_wf(old(self)@),
        ensures
            receiver_wf(final(self)@),
            final(self)@ == spec_apply_instruction::<S>(old(self)@, instruction@).1,
            match spec_apply_instruction::<S>(old(self)@, instruction@).0 {
                Ok(v) => r is Ok && r->Ok_0@ == v,
                Err(e) => r is Err && r->Err_0@ == e,
            },
    {
        let new_number = match instruction.new_num {
            Some(n) => n,
            None => return Err(StateSyncError::InvalidInstruction("missing new_num")),
        };
        if new_number == u64::MAX {
            return Ok(ReceiveResult::Shutdown);
        }
        let old_number = match instruction.old_num {
            Some(n) => n,
            None => return Err(StateSyncError::InvalidInstruction("missing old_num")),
        };
        let len = self.received_states.len();
        if new_number <= self.last_ack_number {
            assert(self@.history[len - 1] == snapshot_model(self.received_states@[len - 1]));
            let state = self.received_states[len - 1].state.duplicate();
            return Ok(ReceiveResult::Duplicate { number: self.last_ack_number, state });
        }
        let base_index = match self.find_base(old_number) {
            Some(i) => i,
            None => return Err(StateSyncError::MissingBase(old_number)),
        };
        assert(self@.history[base_index as int] == snapshot_model(self.received_states@[base_index as int]));
        let mut state = self.received_states[base_index].state.duplicate();
        let ghost base = state@;
        assert(find_snapshot(self@.history, old_number) == Some(base_index as int));
        assert(base == self@.history[base_index as int].state);
        assert(self@ == old(self)@);
        if let Some(diff) = &instruction.diff {
            if diff.len() > 0 {
                let applied = state.apply_diff(diff.as_slice());
                assert(state@ == S::spec_apply(base, diff@).0);
                match applied {
                    Ok(()) => {},
                    Err(e) => {
                        return Err(e);
                    },
                }
            }
        }
        let result_state = state.duplicate();
        let ghost before = self.received_states@;
        self.received_states.push_back(StateSnapshot { number: new_number, state });
        assert(history_model(self.received_states@) =~= history_model(before).push(SnapshotModel { number: new_number, state: result_state@ }));
        self.last_ack_number = new_number;
        proof {
            let pushed = history_model(self.received_states@);
            assert(increasing(pushed));
            match instruction.throwaway_num {
                Some(t) => lemma_trim_keeps_wf(pushed, t),
                None => {
                    lemma_trim_before(pushed, 0);
                    assert(trim_before(pushed, 0) == pushed);
                },
            }
        }
        self.trim(instruction.throwaway_num);
        Ok(ReceiveResult::Applied { number: new_number, state: result_state })
    }

    pub fn ack_instruction(&self) -> (r: TransportInstruction)
        requires
            receiver_wf(self@),
        ensures
            r@ == spec_ack_instruction(self@),
    {
        assert(self@.history[0] == snapshot_model(self.received_states@[0]));
        let r = TransportInstruction {
            protocol_version: Some(2),
            old_num: Some(self.last_ack_number),
            new_num: Some(self.last_ack_number),
            ack_num: Some(self.last_ack_number),
            throwaway_num: Some(self.received_states[0].number),
            diff: Some(Vec::new()),
            chaff: None,
        };
        assert(r@.diff == Some(Seq::<u8>::empty()));
        r
    }

    pub fn latest_number(&self) -> (r: u64)
        ensures
            r == self@.last_ack,
    {
        self.last_ack_number
    }

    pub fn latest_state(&self) -> (r: Option<&S>)
        requires
            receiver_wf(self@),
        ensures
            r is Some && r->Some_0@ == self@.history.last().state,
    {
        let len = self.received_states.len();
        assert(self@.history[len - 1] == snapshot_model(self.received_states@[len - 1]));
        Some(&self.received_states[len - 1].state)
    }

    pub fn history_len(&self) -> (r: usize)
        ensures
            r == self@.history.len(),
    {
        self.received_states.len()
    }
}


/// A sender and a receiver agree when every state number that both hold names the same state.
pub open spec fn histories_agree<V>(s: Seq<SnapshotModel<V>>, r: Seq<SnapshotModel<V>>) -> bool {
    forall|i: int, j: int|
        0 <= i < s.len() && 0 <= j < r.len() && #[trigger] s[i].number == #[trigger] r[j].number
            ==> s[i].state == r[j].state
}

/// The instruction that a sender builds, delivered to a receiver that agrees with it, holds
/// the instruction's base state and has not yet seen its new number, brings the receiver to
/// the sender's current state under the new number (provided the diff from that base converges).
pub proof fn lemma_delivery_converges<S: StateObject>(s: SenderModel<S::V>, r: ReceiverModel<S::V>, now_ms: u64)
    requires
        sender_wf(s),
        receiver_wf(r),
        histories_agree(s.history, r.history),
        spec_build_instruction::<S>(s, now_ms).0 is Ok,
        ({
            let i = spec_build_instruction::<S>(s, now_ms).0->Ok_0;
            &&& find_snapshot(r.history, i.old_num->Some_0) is Some
            &&& i.new_num->Some_0 > r.last_ack
            &&& diff_converges::<S>(
                s.current,
                r.history[find_snapshot(r.history, i.old_num->Some_0)->Some_0].state,
            )
        }),
    ensures
        ({
            let i = spec_build_instruction::<S>(s, now_ms).0->Ok_0;
            let (res, r2) = spec_apply_instruction::<S>(r, i);
            &&& res == Ok::<ReceiveResultModel<S::V>, StateSyncErrorModel>(
                ReceiveResultModel::Applied { number: i.new_num->Some_0, state: s.current },
            )
            &&& receiver_wf(r2)
            &&& r2.last_ack == i.new_num->Some_0
            &&& r2.history.last().state == s.current
        }),
{
    let changed = s.history.last().state != s.current;
    let next = if changed { (s.next_number + 1) as u64 } else { s.next_number };
    let history = if changed {
        s.history.push(SnapshotModel { number: next, state: s.current })
    } else {
        s.history
    };
    let i = spec_build_instruction::<S>(s, now_ms).0->Ok_0;
    let old_number = i.old_num->Some_0;
    lemma_find_snapshot(history, s.acknowledged);
    lemma_find_snapshot(r.history, old_number);
    let base_index = match find_snapshot(history, s.acknowledged) {
        Some(k) => k,
        None => 0,
    };
    let k = find_snapshot(r.history, old_number)->Some_0;
    assert(history[base_index].number == old_number);
    assert(r.history[k].number <= r.last_ack) by {
        if k < r.history.len() - 1 {
            assert(r.history[k].number < r.history[r.history.len() - 1].number);
        }
    }
    if changed {
        assert(history.last().number == next);
        assert(base_index < s.history.len());
        assert(history[base_index] == s.history[base_index]);
    }
    assert(s.history[base_index].number == r.history[k].number);
    assert(history[base_index].state == r.history[k].state);
    let new_number = i.new_num->Some_0;
    let pushed = r.history.push(SnapshotModel { number: new_number, state: s.current });
    assert(increasing(pushed));
    match i.throwaway_num {
        Some(t) => lemma_trim_keeps_wf(pushed, t),
        None => {},
    }
}

/// An instruction that a receiver has applied, delivered again, is a duplicate: the receiver
/// answers with its latest state and does not change.
pub proof fn lemma_redelivery_is_duplicate<S: StateObject>(r: ReceiverModel<S::V>, i: TransportInstructionModel)
    requires
        receiver_wf(r),
        spec_apply_instruction::<S>(r, i).0 matches Ok(ReceiveResultModel::Applied { .. }),
    ensures
        ({
            let r2 = spec_apply_instruction::<S>(r, i).1;
            spec_apply_instruction::<S>(r2, i) == (
                Ok::<ReceiveResultModel<S::V>, StateSyncErrorModel>(
                    ReceiveResultModel::Duplicate { number: r2.last_ack, state: r2.history.last().state },
                ),
                r2,
            )
        }),
{
}

// ---------------------------------------------------------------------------
// Bounded histories
// ---------------------------------------------------------------------------

/// The receiver after the instructions `is` arrive in turn.
pub open spec fn apply_all<S: StateObject>(m: ReceiverModel<S::V>, is: Seq<TransportInstructionModel>) -> ReceiverModel<S::V>
    decreases is.len(),
{
    if is.len() == 0 {
        m
    } else {
        apply_all::<S>(spec_apply_instruction::<S>(m, is[0]).1, is.drop_first())
    }
}

proof fn lemma_cap_history_len<V>(h: Seq<SnapshotModel<V>>)
    ensures
        cap_history(h).len() <= MAX_STATE_HISTORY,
        cap_history(h).len() <= h.len(),
        h.len() > 0 ==> cap_history(h).len() > 0,
        h.len() <= MAX_STATE_HISTORY ==> cap_history(h) == h,
        cap_history(h) == h.skip(h.len() - cap_history(h).len()),
{
    if h.len() <= MAX_STATE_HISTORY {
        assert(h.skip(0) =~= h);
    }
}

/// One instruction keeps a receiver well formed and its history within the bound.
proof fn lemma_apply_keeps_bound<S: StateObject>(m: ReceiverModel<S::V>, i: TransportInstructionModel)
    requires
        receiver_wf(m),
    ensures
        receiver_wf(spec_apply_instruction::<S>(m, i).1),
        spec_apply_instruction::<S>(m, i).1.history.len() <= MAX_STATE_HISTORY,
{
    if let Some(new_number) = i.new_num {
        if new_number != u64::MAX {
            if let Some(old_number) = i.old_num {
                if new_number > m.last_ack {
                    if let Some(k) = find_snapshot(m.history, old_number) {
                        let base = m.history[k].state;
                        let applied = match i.diff {
                            Some(d) => if d.len() > 0 { S::spec_apply(base, d) } else { (base, Ok(())) },
                            None => (base, Ok(())),
                        };
                        if applied.1 is Ok {
                            let pushed = m.history.push(SnapshotModel { number: new_number, state: applied.0 });
                            assert(increasing(pushed)) by {
                                assert forall|a: int, b: int| 0 <= a < b < pushed.len() implies pushed[a].number
                                    < pushed[b].number by {
                                    if b == pushed.len() - 1 && a < m.history.len() - 1 {
                                        assert(m.history[a].number < m.history[m.history.len() - 1].number);
                                    }
                                }
                            }
                            let trimmed = match i.throwaway_num {
                                Some(t) => trim_before(pushed, t),
                                None => pushed,
                            };
                            match i.throwaway_num {
                                Some(t) => lemma_trim_keeps_wf(pushed, t),
                                None => {
                                    lemma_trim_keeps_wf(pushed, 0);
                                    assert(trim_before(pushed, 0) == pushed);
                                },
                            }
                            lemma_cap_history_len(trimmed);
                        }
                    }
                }
            }
        }
    }
}

/// A well-formed receiver (as one newly made is) stays well formed and holds from 1 to
/// `MAX_STATE_HISTORY` states after any sequence of instructions, applied or refused.
pub proof fn lemma_receiver_history_bounded<S: StateObject>(m: ReceiverModel<S::V>, is: Seq<TransportInstructionModel>)
    requires
        receiver_wf(m),
    ensures
        receiver_wf(apply_all::<S>(m, is)),
        1 <= apply_all::<S>(m, is).history.len() <= MAX_STATE_HISTORY,
    decreases is.len(),
{
    if is.len() > 0 {
        lemma_apply_keeps_bound::<S>(m, is[0]);
        lemma_receiver_history_bounded::<S>(spec_apply_instruction::<S>(m, is[0]).1, is.drop_first());
    }
}

/// What trimming before `number` drops and keeps: it keeps a suffix, drops only snapshots
/// numbered below `number`, and keeps either one snapshot or a first one numbered at least
/// `number`.
proof fn lemma_trim_before_facts<V>(h: Seq<SnapshotModel<V>>, number: u64)
    requires
        h.len() >= 1,
    ensures
        trim_before(h, number).len() >= 1,
        trim_before(h, number).len() <= h.len(),
        trim_before(h, number) == h.skip(h.len() - trim_before(h, number).len()),
        trim_before(h, number).len() == 1 || trim_before(h, number)[0].number >= number,
        forall|j: int| 0 <= j < h.len() - trim_before(h, number).len() ==> h[j].number < number,
    decreases h.len(),
{
    lemma_trim_before(h, number);
    if h.len() > 1 && h[0].number < number {
        lemma_trim_before_facts(h.drop_first(), number);
        assert forall|j: int| 0 <= j < h.len() - trim_before(h, number).len() implies h[j].number < number by {
            if j > 0 {
                assert(h[j] == h.drop_first()[j - 1]);
            }
        }
    }
}

/// Acknowledging state `a` raises the acknowledged level to the larger of `a` and the old
/// level, keeps the newest snapshot and the current state, keeps from 1 to
/// `MAX_STATE_HISTORY` of the newest snapshots, all numbered at least the level unless only the
/// newest is left, among them every snapshot numbered at least the level that is among the
/// newest `MAX_STATE_HISTORY`; a later acknowledgement of no more than `a` changes nothing.
pub proof fn lemma_acknowledge_local_law<V>(m: SenderModel<V>, a: u64, b: u64)
    requires
        sender_wf(m),
    ensures
        ({
            let level = if a > m.acknowledged { a } else { m.acknowledged };
            let r = spec_acknowledge_local(m, a);
            &&& r == SenderModel { acknowledged: level, history: r.history, ..m }
            &&& sender_wf(r)
            &&& 1 <= r.history.len() <= MAX_STATE_HISTORY
            &&& r.history.last() == m.history.last()
            &&& r.history == m.history.skip(m.history.len() - r.history.len())
            &&& (r.history.len() == 1 || forall|j: int| 0 <= j < r.history.len() ==> r.history[j].number >= level)
            &&& forall|j: int|
                0 <= j < m.history.len() && m.history[j].number >= level && m.history.len() - j
                    <= MAX_STATE_HISTORY ==> m.history.len() - r.history.len() <= j
            &&& b <= a ==> spec_acknowledge_local(r, b) == r
        }),
{
    let level = if a > m.acknowledged { a } else { m.acknowledged };
    let h = m.history;
    let t = trim_before(h, level);
    lemma_trim_before_facts(h, level);
    lemma_trim_keeps_wf(h, level);
    lemma_cap_history_len(t);
    let c = cap_history(t);
    let r = spec_acknowledge_local(m, a);
    assert(r.history == c);
    assert(c == h.skip(h.len() - c.len())) by {
        assert forall|j: int| 0 <= j < c.len() implies c[j] == h.skip(h.len() - c.len())[j] by {
            assert(c[j] == t[j + (t.len() - c.len())]);
            assert(t[j + (t.len() - c.len())] == h[j + (t.len() - c.len()) + (h.len() - t.len())]);
        }
        assert(c =~= h.skip(h.len() - c.len()));
    }
    if t.len() > 1 {
        assert forall|j: int| 0 <= j < c.len() implies c[j].number >= level by {
            let jt = j + (t.len() - c.len());
            assert(c[j] == t[jt]);
            if jt > 0 {
                assert(t[0].number < t[jt].number);
            }
        }
    } else {
        assert(c == t);
    }
    assert forall|j: int|
        0 <= j < h.len() && h[j].number >= level && h.len() - j <= MAX_STATE_HISTORY implies h.len() - c.len()
            <= j by {
        if j < h.len() - t.len() {
            assert(h[j].number < level);
        }
    }
    if b <= a {
        let level2 = if b > r.acknowledged { b } else { r.acknowledged };
        assert(level2 == level);
        assert(trim_before(c, level) == c);
        lemma_cap_history_len(c);
        assert(spec_acknowledge_local(r, b) =~= r);
    }
}

} // verus!
