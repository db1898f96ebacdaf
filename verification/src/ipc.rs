//! The protocol spoken over the shared region: the sync byte, the discriminants that tag
//! each message and response, the checks on what came back, and the polling schedule.
//!
//! The region itself is mapped and read elsewhere. The functions here decide, from the
//! bytes and numbers that were read, what is done next.

use vstd::prelude::*;

verus! {

/// Value of the sync byte: whose turn it is on the shared region.
#[derive(Clone, Copy, Debug, PartialEq, Eq, Structural)]
pub enum EngineStatus {
    /// The bot may read the message and write its response in place.
    Ready,
    /// The engine may read the response; also the state of a fresh channel.
    Busy,
    /// The engine has dropped the channel.
    Finished,
}

impl EngineStatus {
    pub open spec fn spec_code(self) -> u8 {
        match self {
            EngineStatus::Ready => 0,
            EngineStatus::Busy => 1,
            EngineStatus::Finished => 2,
        }
    }

    /// The byte that stands for this status.
    #[verifier::when_used_as_spec(spec_code)]
    pub fn code(self) -> (r: u8)
        ensures
            r == self.spec_code(),
    {
        match self {
            EngineStatus::Ready => 0,
            EngineStatus::Busy => 1,
            EngineStatus::Finished => 2,
        }
    }

    /// The status that a byte stands for, if it stands for one.
    pub fn from_code(byte: u8) -> (r: Option<EngineStatus>)
        ensures
            byte > 2 <==> r.is_none(),
            r.is_some() ==> r.unwrap().spec_code() == byte,
    {
        if byte == 0 {
            Some(EngineStatus::Ready)
        } else if byte == 1 {
            Some(EngineStatus::Busy)
        } else if byte == 2 {
            Some(EngineStatus::Finished)
        } else {
            None
        }
    }
}

/// The requests that the engine makes of a bot.
#[derive(Clone, Copy, Debug, PartialEq, Eq, Structural)]
pub enum ProtocolId {
    Handshake,
    Reset,
    Tick,
}

impl ProtocolId {
    pub open spec fn spec_index(self) -> u8 {
        match self {
            ProtocolId::Handshake => 0,
            ProtocolId::Reset => 1,
            ProtocolId::Tick => 2,
        }
    }

    pub open spec fn spec_msg_discriminant(self) -> u8 {
        (2 * self.spec_index()) as u8
    }

    pub open spec fn spec_response_discriminant(self) -> u8 {
        (2 * self.spec_index() + 1) as u8
    }

    /// Position of the protocol in the list of protocols.
    #[verifier::when_used_as_spec(spec_index)]
    pub fn index(self) -> (r: u8)
        ensures
            r == self.spec_index(),
    {
        match self {
            ProtocolId::Handshake => 0,
            ProtocolId::Reset => 1,
            ProtocolId::Tick => 2,
        }
    }

    /// The byte that tags a message of this protocol: twice the index.
    #[verifier::when_used_as_spec(spec_msg_discriminant)]
    pub fn msg_discriminant(self) -> (r: u8)
        ensures
            r == self.spec_msg_discriminant(),
            r == 2 * self.spec_index(),
    {
        self.index() * 2
    }

    /// The byte that tags a response of this protocol: twice the index, plus one.
    #[verifier::when_used_as_spec(spec_response_discriminant)]
    pub fn response_discriminant(self) -> (r: u8)
        ensures
            r == self.spec_response_discriminant(),
            r == 2 * self.spec_index() + 1,
    {
        self.index() * 2 + 1
    }

    /// The protocol whose message a discriminant tags, if it tags a message.
    pub fn from_msg_discriminant(discriminant: u8) -> (r: Option<ProtocolId>)
        ensures
            r.is_some() <==> discriminant == 0 || discriminant == 2 || discriminant == 4,
            r.is_some() ==> r.unwrap().spec_msg_discriminant() == discriminant,
    {
        if discriminant == 0 {
            Some(ProtocolId::Handshake)
        } else if discriminant == 2 {
            Some(ProtocolId::Reset)
        } else if discriminant == 4 {
            Some(ProtocolId::Tick)
        } else {
            None
        }
    }
}

/// Why a request brought no response.
#[derive(Clone, Copy, Debug, PartialEq, Eq, Structural)]
pub enum ResponseError {
    /// The region does not start at a multiple of the alignment.
    AlignmentError { address: usize, alignment: usize },
    /// The sync byte was not `Busy` on entry, or the response is not of the protocol.
    Malformed,
    /// The region has not the size of the shared layout.
    SizeMismatch { expected: usize, actual: usize },
    /// The bot did not answer within its budget.
    Timeout,
}

/// Size and alignment of the shared layout.
#[derive(Clone, Copy, Debug, PartialEq, Eq, Structural)]
pub struct Layout {
    pub size: usize,
    pub align: usize,
}

/// The verdict on a region that the bot has handed back: the size is checked first, then
/// the alignment, then the discriminant.
pub open spec fn response_verdict(
    protocol: ProtocolId,
    layout: Layout,
    len: usize,
    address: usize,
    discriminant: u8,
) -> Result<(), ResponseError> {
    if len != layout.size {
        Err(ResponseError::SizeMismatch { expected: layout.size, actual: len })
    } else if address as int % layout.align as int != 0 {
        Err(ResponseError::AlignmentError { address, alignment: layout.align })
    } else if discriminant != protocol.spec_response_discriminant() {
        Err(ResponseError::Malformed)
    } else {
        Ok(())
    }
}

/// A request may start only while the sync byte reads `Busy`.
pub fn check_entry(sync: u8) -> (r: Result<(), ResponseError>)
    ensures
        sync == EngineStatus::Busy.spec_code() ==> r == Ok::<(), ResponseError>(()),
        sync != EngineStatus::Busy.spec_code() ==> r == Err::<(), ResponseError>(
            ResponseError::Malformed,
        ),
{
    if sync != EngineStatus::Busy.code() {
        Err(ResponseError::Malformed)
    } else {
        Ok(())
    }
}

/// Checks the region that the bot has handed back before the response is read out of it.
pub fn check_response(
    protocol: ProtocolId,
    layout: Layout,
    len: usize,
    address: usize,
    discriminant: u8,
) -> (r: Result<(), ResponseError>)
    requires
        layout.align > 0,
    ensures
        r == response_verdict(protocol, layout, len, address, discriminant),
{
    if len != layout.size {
        return Err(ResponseError::SizeMismatch { expected: layout.size, actual: len });
    }
    if address % layout.align != 0 {
        return Err(ResponseError::AlignmentError { address, alignment: layout.align });
    }
    if discriminant != protocol.response_discriminant() {
        return Err(ResponseError::Malformed);
    }
    Ok(())
}

/// What the engine's side of a request has just seen.
#[derive(Clone, Copy, Debug, PartialEq, Eq, Structural)]
pub enum MsgEvent {
    /// The request starts; the sync byte was read.
    Enter { sync: u8 },
    /// The sync byte came back to `Busy` in time; the region was measured and its
    /// discriminant read.
    Answered { len: usize, address: usize, discriminant: u8 },
    /// The budget ran out while polling.
    Expired,
}

/// What the engine's side of a request does next.
#[derive(Clone, Copy, Debug, PartialEq, Eq, Structural)]
pub enum MsgAction {
    /// Write the message under this discriminant, store `sync`, and poll for `wait_for`.
    Send { discriminant: u8, sync: u8, wait_for: u8 },
    /// Store `sync` and give up with the error.
    Restore { sync: u8, error: ResponseError },
    /// Give up with the error.
    Fail { error: ResponseError },
    /// Read the response out of the region.
    Decode,
}

/// The engine's side of a request, step by step.
pub open spec fn engine_reaction(protocol: ProtocolId, layout: Layout, event: MsgEvent) -> MsgAction {
    match event {
        MsgEvent::Enter { sync } => if sync == EngineStatus::Busy.spec_code() {
            MsgAction::Send {
                discriminant: protocol.spec_msg_discriminant(),
                sync: EngineStatus::Ready.spec_code(),
                wait_for: EngineStatus::Busy.spec_code(),
            }
        } else {
            MsgAction::Fail { error: ResponseError::Malformed }
        },
        MsgEvent::Expired => MsgAction::Restore {
            sync: EngineStatus::Busy.spec_code(),
            error: ResponseError::Timeout,
        },
        MsgEvent::Answered { len, address, discriminant } => match response_verdict(
            protocol,
            layout,
            len,
            address,
            discriminant,
        ) {
            Ok(_) => MsgAction::Decode,
            Err(error) => MsgAction::Fail { error },
        },
    }
}

/// The engine's side of a request: what to do on each event.
pub fn engine_react(protocol: ProtocolId, layout: Layout, event: MsgEvent) -> (r: MsgAction)
    requires
        layout.align > 0,
    ensures
        r == engine_reaction(protocol, layout, event),
{
    match event {
        MsgEvent::Enter { sync } => match check_entry(sync) {
            Ok(_) => MsgAction::Send {
                discriminant: protocol.msg_discriminant(),
                sync: EngineStatus::Ready.code(),
                wait_for: EngineStatus::Busy.code(),
            },
            Err(error) => MsgAction::Fail { error },
        },
        MsgEvent::Expired => MsgAction::Restore {
            sync: EngineStatus::Busy.code(),
            error: ResponseError::Timeout,
        },
        MsgEvent::Answered { len, address, discriminant } => match check_response(
            protocol,
            layout,
            len,
            address,
            discriminant,
        ) {
            Ok(_) => MsgAction::Decode,
            Err(error) => MsgAction::Fail { error },
        },
    }
}

/// What the bot's side does with the message it finds once the sync byte reads `Ready`.
#[derive(Clone, Copy, Debug, PartialEq, Eq, Structural)]
pub enum BotAction {
    /// Hand the message to the callback of `protocol`, write its response under
    /// `discriminant`, and store `sync`.
    Answer { protocol: ProtocolId, discriminant: u8, sync: u8 },
    /// The region holds no message.
    Refuse,
}

/// The bot's side of a request: a message is answered in its own protocol, anything else
/// is refused.
pub open spec fn bot_reaction(discriminant: u8) -> BotAction {
    if discriminant == ProtocolId::Handshake.spec_msg_discriminant() {
        BotAction::Answer {
            protocol: ProtocolId::Handshake,
            discriminant: ProtocolId::Handshake.spec_response_discriminant(),
            sync: EngineStatus::Busy.spec_code(),
        }
    } else if discriminant == ProtocolId::Reset.spec_msg_discriminant() {
        BotAction::Answer {
            protocol: ProtocolId::Reset,
            discriminant: ProtocolId::Reset.spec_response_discriminant(),
            sync: EngineStatus::Busy.spec_code(),
        }
    } else if discriminant == ProtocolId::Tick.spec_msg_discriminant() {
        BotAction::Answer {
            protocol: ProtocolId::Tick,
            discriminant: ProtocolId::Tick.spec_response_discriminant(),
            sync: EngineStatus::Busy.spec_code(),
        }
    } else {
        BotAction::Refuse
    }
}

/// The bot's side of a request: dispatch on the discriminant found in the region.
pub fn bot_react(discriminant: u8) -> (r: BotAction)
    ensures
        r == bot_reaction(discriminant),
        match r {
            BotAction::Answer { protocol, discriminant: tag, sync } => {
                &&& protocol.spec_msg_discriminant() == discriminant
                &&& tag == protocol.spec_response_discriminant()
                &&& sync == EngineStatus::Busy.spec_code()
            },
            BotAction::Refuse => forall|p: ProtocolId| p.spec_msg_discriminant() != discriminant,
        },
{
    match ProtocolId::from_msg_discriminant(discriminant) {
        Some(protocol) => BotAction::Answer {
            protocol,
            discriminant: protocol.response_discriminant(),
            sync: EngineStatus::Busy.code(),
        },
        None => BotAction::Refuse,
    }
}

/// How to wait before the sync byte is looked at again.
#[derive(Clone, Copy, Debug, PartialEq, Eq, Structural)]
pub enum Backoff {
    /// Spin in place.
    Spin,
    /// Yield to the scheduler.
    Yield,
    /// Sleep for this many microseconds.
    Sleep { micros: u64 },
}

/// The schedule of a poll: spin for the first hundred looks, yield up to the thousandth,
/// then sleep a tenth of the count in microseconds.
pub open spec fn backoff_at(iteration: u64) -> Backoff {
    if iteration < 100 {
        Backoff::Spin
    } else if iteration < 1000 {
        Backoff::Yield
    } else {
        Backoff::Sleep { micros: iteration / 10 }
    }
}

/// One look of a poll at the sync byte: `None` when it holds the awaited value, else how to
/// wait before look number `iteration + 1`.
pub fn poll(observed: u8, wanted: u8, iteration: u64) -> (r: Option<Backoff>)
    ensures
        r == (if observed == wanted {
            None
        } else {
            Some(backoff_at(iteration))
        }),
{
    if observed == wanted {
        None
    } else if iteration < 100 {
        Some(Backoff::Spin)
    } else if iteration < 1000 {
        Some(Backoff::Yield)
    } else {
        Some(Backoff::Sleep { micros: iteration / 10 })
    }
}

/// What the bot's side does after a look at the sync byte while it waits for a message.
#[derive(Clone, Copy, Debug, PartialEq, Eq, Structural)]
pub enum BotWait {
    /// A message is there: handle it.
    Handle,
    /// The engine has dropped the channel: exit.
    Exit,
    /// Wait, then look again.
    Wait { backoff: Backoff },
}

/// One look of the bot at the sync byte: a message is handled on `Ready`, the bot exits
/// on `Finished`, and waits by the polling schedule on anything else.
pub fn bot_wait(observed: u8, iteration: u64) -> (r: BotWait)
    ensures
        r == (if observed == EngineStatus::Ready.spec_code() {
            BotWait::Handle
        } else if observed == EngineStatus::Finished.spec_code() {
            BotWait::Exit
        } else {
            BotWait::Wait { backoff: backoff_at(iteration) }
        }),
{
    match EngineStatus::from_code(observed) {
        Some(EngineStatus::Ready) => BotWait::Handle,
        Some(EngineStatus::Finished) => BotWait::Exit,
        _ => match poll(observed, EngineStatus::Ready.code(), iteration) {
            Some(backoff) => BotWait::Wait { backoff },
            None => BotWait::Handle,
        },
    }
}

/// The byte that a dropped channel leaves in the sync word.
pub fn drop_sync() -> (r: u8)
    ensures
        r == EngineStatus::Finished.spec_code(),
{
    EngineStatus::Finished.code()
}

/// No byte tags both a message and a response, and no two protocols share a tag. So a
/// response of the wrong kind never passes for the one that was asked for.
pub proof fn lemma_discriminants_distinct(p: ProtocolId, q: ProtocolId)
    ensures
        p.spec_msg_discriminant() != q.spec_response_discriminant(),
        p != q ==> p.spec_msg_discriminant() != q.spec_msg_discriminant(),
        p != q ==> p.spec_response_discriminant() != q.spec_response_discriminant(),
{
}

/// A request and its answer hand the region back and forth: the engine sends only from
/// `Busy`, leaves `Ready` and waits for `Busy`; the bot answers the message that was sent
/// in its protocol and stores `Busy`, and that answer is decoded; an expired request
/// leaves `Busy` too, so the next request may start; and an answer in another protocol is
/// refused as malformed.
pub proof fn lemma_round_trip(protocol: ProtocolId, layout: Layout, len: usize, address: usize)
    requires
        layout.align > 0,
        len == layout.size,
        address as int % layout.align as int == 0,
    ensures
        engine_reaction(protocol, layout, MsgEvent::Enter { sync: EngineStatus::Busy.spec_code() })
            == (MsgAction::Send {
            discriminant: protocol.spec_msg_discriminant(),
            sync: EngineStatus::Ready.spec_code(),
            wait_for: EngineStatus::Busy.spec_code(),
        }),
        bot_reaction(protocol.spec_msg_discriminant()) == (BotAction::Answer {
            protocol,
            discriminant: protocol.spec_response_discriminant(),
            sync: EngineStatus::Busy.spec_code(),
        }),
        engine_reaction(protocol, layout, MsgEvent::Expired) matches MsgAction::Restore { sync, .. }
            && engine_reaction(protocol, layout, MsgEvent::Enter { sync }) is Send,
        engine_reaction(
            protocol,
            layout,
            MsgEvent::Answered {
                len,
                address,
                discriminant: protocol.spec_response_discriminant(),
            },
        ) == MsgAction::Decode,
        forall|other: ProtocolId|
            other != protocol ==> engine_reaction(
                protocol,
                layout,
                MsgEvent::Answered {
                    len,
                    address,
                    discriminant: #[trigger] other.spec_response_discriminant(),
                },
            ) == (MsgAction::Fail { error: ResponseError::Malformed }),
{
}

} // verus!
