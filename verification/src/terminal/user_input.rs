//! What the user types and how the terminal is resized, as a synchronised stream of events.

use vstd::prelude::*;
use vstd::string::StringSliceAdditionalSpecFns;

use crate::protocol::proto::{
    clone_bytes, proto_error_text, same_bytes, spec_decode_user_message, spec_encode_user_message,
    UserInstruction, UserInstructionModel, UserMessage,
};
use crate::protocol::statesync::{StateObject, StateSyncError, StateSyncErrorModel};

verus! {

/// Bytes the user typed.
#[derive(Debug, Clone, PartialEq, Eq)]
pub struct UserInput {
    pub bytes: Vec<u8>,
}

impl UserInput {
    pub fn new(bytes: Vec<u8>) -> (r: Self)
        ensures
            r.bytes@ == bytes@,
    {
        UserInput { bytes }
    }

    pub fn from_text(text: &str) -> (r: Self)
        ensures
            r.bytes@ == text.spec_bytes(),
    {
        UserInput { bytes: clone_bytes(text.as_bytes()) }
    }

    pub fn is_empty(&self) -> (b: bool)
        ensures
            b == (self.bytes@.len() == 0),
    {
        self.bytes.len() == 0
    }
}

/// One event of the user stream.
#[derive(Debug, Clone, PartialEq, Eq)]
pub enum UserEvent {
    Bytes(Vec<u8>),
    Resize { columns: u16, rows: u16 },
}

/// The value of a user event.
pub enum UserEventModel {
    Bytes(Seq<u8>),
    Resize { columns: u16, rows: u16 },
}

impl View for UserEvent {
    type V = UserEventModel;

    open spec fn view(&self) -> UserEventModel {
        match self {
            UserEvent::Bytes(b) => UserEventModel::Bytes(b@),
            UserEvent::Resize { columns, rows } => UserEventModel::Resize { columns: *columns, rows: *rows },
        }
    }
}

impl UserEvent {
    /// A copy of the event.
    pub fn duplicate(&self) -> (r: Self)
        ensures
            r@ == self@,
    {
        match self {
            UserEvent::Bytes(b) => UserEvent::Bytes(clone_bytes(b.as_slice())),
            UserEvent::Resize { columns, rows } => UserEvent::Resize { columns: *columns, rows: *rows },
        }
    }

    /// Whether two events are the same.
    pub fn same_as(&self, other: &UserEvent) -> (b: bool)
        ensures
            b == (self@ == other@),
    {
        match (self, other) {
            (UserEvent::Bytes(a), UserEvent::Bytes(b)) => same_bytes(a.as_slice(), b.as_slice()),
            (UserEvent::Resize { columns: c1, rows: r1 }, UserEvent::Resize { columns: c2, rows: r2 }) => *c1 == *c2
                && *r1 == *r2,
            _ => false,
        }
    }
}

/// The events the user produced, keystrokes typed in a row merged into one event.
#[derive(Debug, Clone, PartialEq, Eq)]
pub struct UserStream {
    events: Vec<UserEvent>,
}

pub open spec fn events_view(events: Seq<UserEvent>) -> Seq<UserEventModel> {
    events.map_values(|e: UserEvent| e@)
}

impl View for UserStream {
    type V = Seq<UserEventModel>;

    closed spec fn view(&self) -> Seq<UserEventModel> {
        events_view(self.events@)
    }
}

impl Default for UserStream {
    fn default() -> (r: Self)
        ensures
            r@ == Seq::<UserEventModel>::empty(),
    {
        let r = UserStream { events: Vec::new() };
        assert(r@ =~= Seq::<UserEventModel>::empty());
        r
    }
}

/// The stream after `bytes` were typed: nothing for no bytes, else appended to a last
/// keystroke event, or a new one.
pub open spec fn spec_push_input(s: Seq<UserEventModel>, bytes: Seq<u8>) -> Seq<UserEventModel> {
    if bytes.len() == 0 {
        s
    } else if s.len() > 0 && s.last() is Bytes {
        s.drop_last().push(UserEventModel::Bytes(s.last()->Bytes_0 + bytes))
    } else {
        s.push(UserEventModel::Bytes(bytes))
    }
}

/// The instructions after keystrokes `bytes` are added: nothing for no bytes, else appended to
/// a last keystroke instruction, or a new one.
pub open spec fn spec_append_keystrokes(instructions: Seq<UserInstructionModel>, bytes: Seq<u8>) -> Seq<UserInstructionModel> {
    if bytes.len() == 0 {
        instructions
    } else if instructions.len() > 0 && instructions.last() is Keystroke {
        instructions.drop_last().push(UserInstructionModel::Keystroke(instructions.last()->Keystroke_0 + bytes))
    } else {
        instructions.push(UserInstructionModel::Keystroke(bytes))
    }
}

/// The instructions after one more event is described.
pub open spec fn spec_append_event(instructions: Seq<UserInstructionModel>, event: UserEventModel) -> Seq<UserInstructionModel> {
    match event {
        UserEventModel::Bytes(b) => spec_append_keystrokes(instructions, b),
        UserEventModel::Resize { columns, rows } => instructions.push(
            UserInstructionModel::Resize { width: columns as i32, height: rows as i32 },
        ),
    }
}

/// The instructions after the events `events` are described in turn.
pub open spec fn spec_events_instructions(instructions: Seq<UserInstructionModel>, events: Seq<UserEventModel>) -> Seq<UserInstructionModel>
    decreases events.len(),
{
    if events.len() == 0 {
        instructions
    } else {
        spec_append_event(spec_events_instructions(instructions, events.drop_last()), events.last())
    }
}

/// Whether event `c` grows out of event `e`: the same, or keystrokes that start with them.
pub open spec fn event_extends(c: UserEventModel, e: UserEventModel) -> bool {
    ||| (c is Bytes && e is Bytes && e->Bytes_0.is_prefix_of(c->Bytes_0))
    ||| c == e
}

/// Whether stream `c` grows out of stream `e`: every event of `e` is in `c`, the last one
/// possibly with more keystrokes.
pub open spec fn stream_extends(c: Seq<UserEventModel>, e: Seq<UserEventModel>) -> bool {
    &&& e.len() <= c.len()
    &&& forall|i: int| 0 <= i < e.len() - 1 ==> #[trigger] c[i] == e[i]
    &&& e.len() > 0 ==> event_extends(c[e.len() - 1], e[e.len() - 1])
}

/// The keystrokes that the last shared event of `c` has beyond that of `e`.
pub open spec fn extension_bytes(c: Seq<UserEventModel>, e: Seq<UserEventModel>) -> Seq<u8> {
    if e.len() > 0 && c[e.len() - 1] is Bytes && e[e.len() - 1] is Bytes {
        c[e.len() - 1]->Bytes_0.skip(e[e.len() - 1]->Bytes_0.len() as int)
    } else {
        seq![]
    }
}

/// The instructions that bring `e` to `c`, where `c` grows out of `e`.
pub open spec fn spec_stream_instructions(c: Seq<UserEventModel>, e: Seq<UserEventModel>) -> Seq<UserInstructionModel> {
    spec_events_instructions(spec_append_keystrokes(seq![], extension_bytes(c, e)), c.skip(e.len() as int))
}

/// The diff from `e` to `c`, when `c` grows out of `e`.
pub open spec fn spec_try_diff(c: Seq<UserEventModel>, e: Seq<UserEventModel>) -> Result<Seq<u8>, StateSyncErrorModel> {
    if stream_extends(c, e) {
        Ok(spec_encode_user_message(spec_stream_instructions(c, e)))
    } else {
        Err(StateSyncErrorModel::InvalidDiff("user stream base is not a prefix"@))
    }
}

/// The stream after one instruction, and whether it applied.
pub open spec fn spec_apply_instruction(s: Seq<UserEventModel>, i: UserInstructionModel) -> (Seq<UserEventModel>, Result<(), StateSyncErrorModel>) {
    match i {
        UserInstructionModel::Keystroke(b) => (spec_push_input(s, b), Ok(())),
        UserInstructionModel::Resize { width, height } => if width <= 0 || height <= 0 {
            (s, Err(StateSyncErrorModel::InvalidDiff("resize dimensions must be positive"@)))
        } else if width > 0xffff {
            (s, Err(StateSyncErrorModel::InvalidDiff("invalid columns"@)))
        } else if height > 0xffff {
            (s, Err(StateSyncErrorModel::InvalidDiff("invalid rows"@)))
        } else {
            (s.push(UserEventModel::Resize { columns: width as u16, rows: height as u16 }), Ok(()))
        },
    }
}

/// The stream after the instructions, in turn, up to the first that fails.
pub open spec fn spec_apply_instructions(s: Seq<UserEventModel>, instructions: Seq<UserInstructionModel>) -> (Seq<UserEventModel>, Result<(), StateSyncErrorModel>)
    decreases instructions.len(),
{
    if instructions.len() == 0 {
        (s, Ok(()))
    } else {
        let (s1, r1) = spec_apply_instructions(s, instructions.drop_last());
        match r1 {
            Err(e) => (s1, Err(e)),
            Ok(_) => spec_apply_instruction(s1, instructions.last()),
        }
    }
}

pub open spec fn instructions_view(instructions: Seq<UserInstruction>) -> Seq<UserInstructionModel> {
    instructions.map_values(|i: UserInstruction| i@)
}

fn append_keystrokes(instructions: &mut Vec<UserInstruction>, bytes: &[u8])
    ensures
        instructions_view(final(instructions)@) == spec_append_keystrokes(instructions_view(old(instructions)@), bytes@),
{
    if bytes.len() == 0 {
        return;
    }
    let ghost before = old(instructions)@;
    match instructions.pop() {
        Some(UserInstruction::Keystroke(mut previous)) => {
            crate::protocol::proto::extend_bytes(&mut previous, bytes);
            instructions.push(UserInstruction::Keystroke(previous));
            assert(instructions_view(instructions@) =~= spec_append_keystrokes(instructions_view(before), bytes@));
        },
        Some(other) => {
            instructions.push(other);
            instructions.push(UserInstruction::Keystroke(clone_bytes(bytes)));
            assert(instructions@.drop_last() =~= before);
            assert(instructions_view(instructions@) =~= spec_append_keystrokes(instructions_view(before), bytes@));
        },
        None => {
            instructions.push(UserInstruction::Keystroke(clone_bytes(bytes)));
            assert(instructions_view(instructions@) =~= spec_append_keystrokes(instructions_view(before), bytes@));
        },
    }
}

fn bytes_start_with(bytes: &[u8], prefix: &[u8]) -> (b: bool)
    ensures
        b == prefix@.is_prefix_of(bytes@),
{
    if prefix.len() > bytes.len() {
        return false;
    }
    let mut i: usize = 0;
    while i < prefix.len()
        invariant
            i <= prefix@.len() <= bytes@.len(),
            forall|j: int| 0 <= j < i ==> prefix@[j] == bytes@[j],
        decreases prefix@.len() - i,
    {
        if prefix[i] != bytes[i] {
            return false;
        }
        i = i + 1;
    }
    true
}

impl UserStream {
    pub fn push_input(&mut self, input: UserInput)
        ensures
            final(self)@ == spec_push_input(old(self)@, input.bytes@),
    {
        if input.is_empty() {
            return;
        }
        let ghost before = self.events@;
        match self.events.pop() {
            Some(UserEvent::Bytes(mut bytes)) => {
                crate::protocol::proto::extend_bytes(&mut bytes, input.bytes.as_slice());
                self.events.push(UserEvent::Bytes(bytes));
                assert(self@ =~= spec_push_input(events_view(before), input.bytes@));
            },
            Some(other) => {
                self.events.push(other);
                self.events.push(UserEvent::Bytes(input.bytes));
                assert(self.events@.drop_last() =~= before);
                assert(self@ =~= spec_push_input(events_view(before), input.bytes@));
            },
            None => {
                self.events.push(UserEvent::Bytes(input.bytes));
                assert(self@ =~= spec_push_input(events_view(before), input.bytes@));
            },
        }
    }

    pub fn push_resize(&mut self, columns: u16, rows: u16)
        ensures
            final(self)@ == old(self)@.push(UserEventModel::Resize { columns, rows }),
    {
        let ghost before = self.events@;
        self.events.push(UserEvent::Resize { columns, rows });
        assert(self@ =~= events_view(before).push(UserEventModel::Resize { columns, rows }));
    }

    pub fn len(&self) -> (n: usize)
        ensures
            n == self@.len(),
    {
        self.events.len()
    }

    pub fn is_empty(&self) -> (b: bool)
        ensures
            b == (self@.len() == 0),
    {
        self.events.len() == 0
    }

    pub fn events(&self) -> (r: &[UserEvent])
        ensures
            events_view(r@) == self@,
    {
        self.events.as_slice()
    }

    fn try_diff_from(&self, existing: &Self) -> (r: Result<Vec<u8>, StateSyncError>)
        ensures
            match spec_try_diff(self@, existing@) {
                Ok(d) => r is Ok && r->Ok_0@ == d,
                Err(e) => r is Err && r->Err_0@ == e,
            },
    {
        let ghost c = self@;
        let ghost e = existing@;
        let n = existing.events.len();
        if n > self.events.len() {
            return Err(StateSyncError::InvalidDiff("user stream base is not a prefix".to_owned()));
        }
        let mut index: usize = 0;
        while index + 1 < n
            invariant
                n == e.len(),
                e.len() <= c.len(),
                c == self@,
                e == existing@,
                index + 1 <= n || index == 0,
                forall|j: int| 0 <= j < index ==> #[trigger] c[j] == e[j],
            decreases n - index,
        {
            assert(c[index as int] == self.events@[index as int]@);
            assert(e[index as int] == existing.events@[index as int]@);
            if !existing.events[index].same_as(&self.events[index]) {
                return Err(StateSyncError::InvalidDiff("user stream base is not a prefix".to_owned()));
            }
            index = index + 1;
        }
        let mut instructions: Vec<UserInstruction> = Vec::new();
        assert(instructions_view(instructions@) =~= Seq::<UserInstructionModel>::empty());
        if n > 0 {
            let last = n - 1;
            assert(c[last as int] == self.events@[last as int]@);
            assert(e[last as int] == existing.events@[last as int]@);
            match (&existing.events[last], &self.events[last]) {
                (UserEvent::Bytes(existing_bytes), UserEvent::Bytes(current_bytes)) => {
                    if bytes_start_with(current_bytes.as_slice(), existing_bytes.as_slice()) {
                        let extension = crate::protocol::proto::copy_range(current_bytes.as_slice(), existing_bytes.len(), current_bytes.len());
                        append_keystrokes(&mut instructions, extension.as_slice());
                    } else {
                        return Err(StateSyncError::InvalidDiff("user stream base is not a prefix".to_owned()));
                    }
                },
                (existing_event, current_event) => {
                    if !existing_event.same_as(current_event) {
                        return Err(StateSyncError::InvalidDiff("user stream base is not a prefix".to_owned()));
                    }
                },
            }
        }
        assert(stream_extends(c, e));
        assert(instructions_view(instructions@) == spec_append_keystrokes(seq![], extension_bytes(c, e)));
        let ghost start = instructions_view(instructions@);
        let mut k: usize = n;
        assert(c.skip(n as int).take(0) =~= Seq::<UserEventModel>::empty());
        while k < self.events.len()
            invariant
                n <= k <= c.len(),
                c == self@,
                instructions_view(instructions@) == spec_events_instructions(start, c.skip(n as int).take(k - n)),
            decreases c.len() - k,
        {
            assert(c[k as int] == self.events@[k as int]@);
            match &self.events[k] {
                UserEvent::Bytes(bytes) => append_keystrokes(&mut instructions, bytes.as_slice()),
                UserEvent::Resize { columns, rows } => {
                    let ghost before = instructions@;
                    instructions.push(UserInstruction::Resize { width: *columns as i32, height: *rows as i32 });
                    assert(instructions_view(instructions@) =~= instructions_view(before).push(
                        UserInstructionModel::Resize { width: *columns as i32, height: *rows as i32 },
                    ));
                },
            }
            let ghost taken = c.skip(n as int).take(k + 1 - n);
            assert(taken.drop_last() =~= c.skip(n as int).take(k - n));
            assert(taken.last() == c[k as int]);
            k = k + 1;
        }
        assert(c.skip(n as int).take(k - n) =~= c.skip(n as int));
        let message = UserMessage { instructions };
        Ok(message.encode())
    }
}

/// Once applying a prefix of the instructions fails, applying them all fails the same way.
proof fn lemma_apply_error_persists(s: Seq<UserEventModel>, instructions: Seq<UserInstructionModel>, k: int)
    requires
        0 <= k <= instructions.len(),
    ensures
        spec_apply_instructions(s, instructions.take(k)).1 is Err ==> spec_apply_instructions(s, instructions)
            == spec_apply_instructions(s, instructions.take(k)),
    decreases instructions.len() - k,
{
    if k < instructions.len() {
        lemma_apply_error_persists(s, instructions.drop_last(), k);
        assert(instructions.drop_last().take(k) =~= instructions.take(k));
    } else {
        assert(instructions.take(k) =~= instructions);
    }
}

impl StateObject for UserStream {
    open spec fn spec_diff(current: Seq<UserEventModel>, existing: Seq<UserEventModel>) -> Result<Seq<u8>, StateSyncErrorModel> {
        match spec_try_diff(current, existing) {
            Ok(d) => Ok(d),
            Err(_) => spec_try_diff(current, seq![]),
        }
    }

    open spec fn spec_apply(state: Seq<UserEventModel>, diff: Seq<u8>) -> (Seq<UserEventModel>, Result<(), StateSyncErrorModel>) {
        match spec_decode_user_message(diff) {
            Err(e) => (state, Err(StateSyncErrorModel::InvalidDiff(proto_error_text(e)))),
            Ok(instructions) => spec_apply_instructions(state, instructions),
        }
    }

    fn diff_from(&self, existing: &Self) -> (r: Result<Vec<u8>, StateSyncError>) {
        match self.try_diff_from(existing) {
            Ok(diff) => Ok(diff),
            Err(_) => {
                let empty = UserStream::default();
                self.try_diff_from(&empty)
            },
        }
    }

    fn apply_diff(&mut self, diff: &[u8]) -> (r: Result<(), StateSyncError>) {
        let message = match UserMessage::decode(diff) {
            Ok(m) => m,
            Err(e) => return Err(StateSyncError::InvalidDiff(e.describe())),
        };
        let ghost s0 = self@;
        let ghost instrs = message@;
        let mut i: usize = 0;
        assert(instrs.take(0) =~= Seq::<UserInstructionModel>::empty());
        while i < message.instructions.len()
            invariant
                i <= instrs.len(),
                instrs == message@,
                s0 == old(self)@,
                spec_decode_user_message(diff@) == Ok::<Seq<UserInstructionModel>, crate::protocol::proto::ProtoError>(instrs),
                spec_apply_instructions(s0, instrs.take(i as int)) == (self@, Ok::<(), StateSyncErrorModel>(())),
            decreases instrs.len() - i,
        {
            let ghost prefix = instrs.take(i + 1);
            assert(prefix.drop_last() =~= instrs.take(i as int));
            assert(prefix.last() == message.instructions@[i as int]@);
            match &message.instructions[i] {
                UserInstruction::Keystroke(bytes) => {
                    self.push_input(UserInput::new(clone_bytes(bytes.as_slice())));
                },
                UserInstruction::Resize { width, height } => {
                    proof {
                        lemma_apply_error_persists(s0, instrs, i + 1);
                    }
                    if *width <= 0 || *height <= 0 {
                        return Err(StateSyncError::InvalidDiff("resize dimensions must be positive".to_owned()));
                    }
                    if *width > 0xffff {
                        return Err(StateSyncError::InvalidDiff("invalid columns".to_owned()));
                    }
                    if *height > 0xffff {
                        return Err(StateSyncError::InvalidDiff("invalid rows".to_owned()));
                    }
                    self.push_resize(*width as u16, *height as u16);
                },
            }
            i = i + 1;
        }
        assert(instrs.take(i as int) =~= instrs);
        Ok(())
    }

    fn duplicate(&self) -> (r: Self) {
        let mut events: Vec<UserEvent> = Vec::new();
        let mut i: usize = 0;
        while i < self.events.len()
            invariant
                i <= self.events@.len(),
                events_view(events@) == events_view(self.events@).take(i as int),
            decreases self.events@.len() - i,
        {
            let ghost before = events@;
            let event = self.events[i].duplicate();
            events.push(event);
            assert(events_view(events@) =~= events_view(before).push(event@));
            assert(events_view(self.events@).take(i + 1) =~= events_view(self.events@).take(i as int).push(self.events@[i as int]@));
            i = i + 1;
        }
        assert(events_view(self.events@).take(i as int) =~= events_view(self.events@));
        UserStream { events }
    }

    fn same_state(&self, other: &Self) -> (b: bool) {
        if self.events.len() != other.events.len() {
            assert(self@.len() != other@.len());
            return false;
        }
        let mut i: usize = 0;
        while i < self.events.len()
            invariant
                i <= self.events@.len(),
                self.events@.len() == other.events@.len(),
                forall|j: int| 0 <= j < i ==> #[trigger] events_view(self.events@)[j] == events_view(other.events@)[j],
            decreases self.events@.len() - i,
        {
            if !self.events[i].same_as(&other.events[i]) {
                assert(self@[i as int] != other@[i as int]);
                return false;
            }
            i = i + 1;
        }
        assert(self@ =~= other@);
        true
    }
}


/// The stream after one event arrives as the user makes it.
pub open spec fn spec_push_event(s: Seq<UserEventModel>, event: UserEventModel) -> Seq<UserEventModel> {
    match event {
        UserEventModel::Bytes(b) => spec_push_input(s, b),
        UserEventModel::Resize { .. } => s.push(event),
    }
}

/// The stream after the events arrive in turn.
pub open spec fn spec_push_events(s: Seq<UserEventModel>, events: Seq<UserEventModel>) -> Seq<UserEventModel>
    decreases events.len(),
{
    if events.len() == 0 {
        s
    } else {
        spec_push_event(spec_push_events(s, events.drop_last()), events.last())
    }
}

/// Every resize in `events` is to a positive size.
pub open spec fn resizes_positive(events: Seq<UserEventModel>) -> bool {
    forall|i: int|
        0 <= i < events.len() ==> (#[trigger] events[i] matches UserEventModel::Resize { columns, rows } ==> columns > 0
            && rows > 0)
}

/// From event `n` on, the keystroke events of `s` are as pushing input builds them: none is
/// empty, and none comes right after another keystroke event.
pub open spec fn keystrokes_pushed_from(s: Seq<UserEventModel>, n: int) -> bool {
    forall|i: int|
        n <= i < s.len() && (#[trigger] s[i]) is Bytes ==> s[i]->Bytes_0.len() > 0
            && (i > 0 ==> !(s[i - 1] is Bytes))
}

proof fn lemma_push_input_twice(s: Seq<UserEventModel>, a: Seq<u8>, b: Seq<u8>)
    ensures
        spec_push_input(spec_push_input(s, a), b) == spec_push_input(s, a + b),
{
    if a.len() == 0 {
        assert(a + b =~= b);
    } else if b.len() == 0 {
        assert(a + b =~= a);
    } else if s.len() > 0 && s.last() is Bytes {
        let x = s.last()->Bytes_0;
        assert(x + a + b =~= x + (a + b));
        assert(spec_push_input(s, a).drop_last() =~= s.drop_last());
    } else {
        assert(spec_push_input(s, a).drop_last() =~= s);
    }
}

/// Applying a successful instruction list, then the instructions describing more events,
/// gives the stream that those events arrive at.
proof fn lemma_apply_event_instructions(s: Seq<UserEventModel>, start: Seq<UserInstructionModel>, events: Seq<UserEventModel>)
    requires
        spec_apply_instructions(s, start).1 is Ok,
        resizes_positive(events),
    ensures
        spec_apply_instructions(s, spec_events_instructions(start, events)) == (
            spec_push_events(spec_apply_instructions(s, start).0, events),
            Ok::<(), StateSyncErrorModel>(()),
        ),
    decreases events.len(),
{
    if events.len() > 0 {
        let prev = events.drop_last();
        assert(resizes_positive(prev)) by {
            assert forall|i: int| 0 <= i < prev.len() implies (#[trigger] prev[i] matches UserEventModel::Resize { columns, rows } ==> columns > 0 && rows > 0) by {
                assert(prev[i] == events[i]);
            }
        }
        lemma_apply_event_instructions(s, start, prev);
        let ip = spec_events_instructions(start, prev);
        let p = spec_push_events(spec_apply_instructions(s, start).0, prev);
        let x = events.last();
        assert(x == events[events.len() - 1]);
        match x {
            UserEventModel::Resize { columns, rows } => {
                assert(ip.push(UserInstructionModel::Resize { width: columns as i32, height: rows as i32 }).drop_last() =~= ip);
            },
            UserEventModel::Bytes(b) => {
                if b.len() > 0 {
                    if ip.len() > 0 && ip.last() is Keystroke {
                        let k = ip.last()->Keystroke_0;
                        let q = spec_apply_instructions(s, ip.drop_last());
                        assert(q.1 is Ok);
                        assert(p == spec_push_input(q.0, k));
                        let i2 = ip.drop_last().push(UserInstructionModel::Keystroke(k + b));
                        assert(i2.drop_last() =~= ip.drop_last());
                        lemma_push_input_twice(q.0, k, b);
                    } else {
                        let i2 = ip.push(UserInstructionModel::Keystroke(b));
                        assert(i2.drop_last() =~= ip);
                    }
                }
            },
        }
    }
}

/// The events of a stream after its first `n`, pushed onto those `n`, give the stream back,
/// where its keystroke events from `n` on are as pushing input builds them.
proof fn lemma_push_rest(c: Seq<UserEventModel>, n: int, m: int)
    requires
        keystrokes_pushed_from(c, n),
        0 <= n <= m <= c.len(),
    ensures
        spec_push_events(c.take(n), c.subrange(n, m)) == c.take(m),
    decreases m - n,
{
    if m == n {
        assert(c.subrange(n, m) =~= Seq::<UserEventModel>::empty());
    } else {
        lemma_push_rest(c, n, m - 1);
        assert(c.subrange(n, m).drop_last() =~= c.subrange(n, m - 1));
        let x = c[m - 1];
        assert(c.subrange(n, m).last() == x);
        match x {
            UserEventModel::Bytes(b) => {
                assert(b.len() > 0);
                if m - 1 > 0 {
                    assert(!(c[m - 2] is Bytes));
                    assert(c.take(m - 1).last() == c[m - 2]);
                }
                assert(c.take(m - 1).push(x) =~= c.take(m));
            },
            UserEventModel::Resize { .. } => {
                assert(c.take(m - 1).push(x) =~= c.take(m));
            },
        }
    }
}

/// The diff from a stream that `current` grows out of (the same events, the last one perhaps
/// with fewer keystrokes) converges: applied to that stream it gives `current`, and it is
/// empty only when the two are equal. This holds wherever the events that `current` adds are
/// as pushing input builds them and resize to positive sizes.
pub proof fn lemma_user_stream_diff_converges(current: Seq<UserEventModel>, existing: Seq<UserEventModel>)
    requires
        stream_extends(current, existing),
        keystrokes_pushed_from(current, existing.len() as int),
        resizes_positive(current.skip(existing.len() as int)),
        spec_encode_user_message(spec_stream_instructions(current, existing)).len() <= usize::MAX,
    ensures
        crate::protocol::statesync::diff_converges::<UserStream>(current, existing),
        UserStream::spec_diff(current, existing) == Ok::<Seq<u8>, StateSyncErrorModel>(
            spec_encode_user_message(spec_stream_instructions(current, existing)),
        ),
        UserStream::spec_apply(existing, UserStream::spec_diff(current, existing)->Ok_0) == (
            current,
            Ok::<(), StateSyncErrorModel>(()),
        ),
{
    let c = current;
    let e = existing;
    let n = e.len() as int;
    let ext = extension_bytes(c, e);
    let start = spec_append_keystrokes(seq![], ext);
    let rest = c.skip(n);
    let instrs = spec_stream_instructions(c, e);
    crate::protocol::proto::lemma_user_message_round_trip(instrs);
    let a = spec_apply_instructions(e, start);
    assert(spec_apply_instructions(e, Seq::<UserInstructionModel>::empty()) == (e, Ok::<(), StateSyncErrorModel>(())));
    if ext.len() > 0 {
        assert(start =~= seq![UserInstructionModel::Keystroke(ext)]);
        assert(start.drop_last() =~= Seq::<UserInstructionModel>::empty());
        assert(start.last() == UserInstructionModel::Keystroke(ext));
        assert(a == (spec_push_input(e, ext), Ok::<(), StateSyncErrorModel>(())));
    } else {
        assert(start =~= Seq::<UserInstructionModel>::empty());
        assert(a == (e, Ok::<(), StateSyncErrorModel>(())));
    }
    assert(a.1 is Ok);
    // The start instructions bring `e` to the first `n` events of `c`.
    assert(a.0 =~= c.take(n)) by {
        if n > 0 {
            let cl = c[n - 1];
            let el = e[n - 1];
            if cl is Bytes && el is Bytes {
                let cb = cl->Bytes_0;
                let eb = el->Bytes_0;
                assert(eb.is_prefix_of(cb) || cb == eb);
                assert(eb + cb.skip(eb.len() as int) =~= cb);
                if ext.len() > 0 {
                    assert(e.drop_last().push(UserEventModel::Bytes(eb + ext)) =~= c.take(n));
                } else {
                    assert(e =~= c.take(n));
                }
            } else {
                assert(e =~= c.take(n));
            }
        } else {
            assert(e =~= c.take(n));
        }
    }
    lemma_apply_event_instructions(e, start, rest);
    lemma_push_rest(c, n, c.len() as int);
    assert(c.subrange(n, c.len() as int) =~= rest);
    assert(c.take(c.len() as int) =~= c);
    // An empty diff means no instructions, hence the same stream.
    if spec_encode_user_message(instrs).len() == 0 {
        assert(instrs.len() == 0);
    }
}

} // verus!
