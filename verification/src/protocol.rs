//! The commands that drive a board, and their encoding on a byte stream.
//!
//! A command is one byte that tells its kind, followed by the payload that this
//! kind has: two bytes (`x`, then `y`) for the two commands that write a cell,
//! none for the others. Nothing marks where a command ends: a reader has to
//! take the whole of one command before it can find the next.

use vstd::prelude::*;

verus! {

/// Why a command could not be read.
#[derive(Debug, Clone, Copy, PartialEq, Eq)]
pub enum ProtocolError {
    /// The byte that should tell the kind of the command stands for none.
    MalformedProtocol,
    /// The stream ended before the command was complete.
    TransportFailure,
}

/// A value that can be written to a byte stream.
pub trait Serialize {
    /// The bytes that stand for `self` on the stream.
    spec fn encoding(&self) -> Seq<u8>;

    /// Appends the encoding of `self` to `buf` and returns how many bytes that were.
    fn serialize(&self, buf: &mut Vec<u8>) -> (written: usize)
        ensures
            final(buf)@ == old(buf)@ + self.encoding(),
            written == self.encoding().len(),
    ;
}

/// A value that can be read from a byte stream.
pub trait Deserialize {
    type Output;

    /// What reading makes of a stream that holds `bytes`: the value or the
    /// reason why there is none, and how many bytes were taken off the stream.
    spec fn decoding(bytes: Seq<u8>) -> (Result<Self::Output, ProtocolError>, nat);

    /// Reads one value from the front of `buf` and leaves in `buf` what follows
    /// the bytes that were taken.
    fn deserialize(buf: &mut &[u8]) -> (decoded: Result<Self::Output, ProtocolError>)
        ensures
            decoded == Self::decoding(old(buf)@).0,
            final(buf)@ == old(buf)@.skip(Self::decoding(old(buf)@).1 as int),
    ;
}

/// Takes the first byte off the stream.
fn read_u8(buf: &mut &[u8]) -> (byte: Result<u8, ProtocolError>)
    ensures
        old(buf)@.len() == 0 ==> byte == Err::<u8, ProtocolError>(ProtocolError::TransportFailure)
            && final(buf)@ == old(buf)@,
        old(buf)@.len() > 0 ==> byte == Ok::<u8, ProtocolError>(old(buf)@[0]) && final(buf)@
            == old(buf)@.skip(1),
{
    if buf.len() == 0 {
        return Err(ProtocolError::TransportFailure);
    }
    let byte = buf[0];
    let rest: &[u8] = &buf[1..buf.len()];
    *buf = rest;
    Ok(byte)
}

/// The kind of a command: what its first byte tells.
#[derive(Debug, Clone, Copy, PartialEq, Eq)]
pub enum CommandKind {
    Set0,
    Set1,
    StepGOL,
    FillRandom,
}

impl CommandKind {
    /// The byte that stands for this kind.
    pub open spec fn spec_discriminant(self) -> u8 {
        match self {
            CommandKind::Set0 => 1,
            CommandKind::Set1 => 2,
            CommandKind::StepGOL => 3,
            CommandKind::FillRandom => 4,
        }
    }

    /// The kind that `byte` stands for, if it stands for one.
    pub open spec fn of_discriminant(byte: u8) -> Option<CommandKind> {
        if byte == 1 {
            Some(CommandKind::Set0)
        } else if byte == 2 {
            Some(CommandKind::Set1)
        } else if byte == 3 {
            Some(CommandKind::StepGOL)
        } else if byte == 4 {
            Some(CommandKind::FillRandom)
        } else {
            None
        }
    }

    /// How many bytes follow the first byte of a command of this kind.
    pub open spec fn spec_payload_len(self) -> nat {
        match self {
            CommandKind::Set0 | CommandKind::Set1 => 2,
            CommandKind::StepGOL | CommandKind::FillRandom => 0,
        }
    }

    /// The byte that stands for this kind.
    #[verifier::when_used_as_spec(spec_discriminant)]
    pub fn discriminant(self) -> (byte: u8)
        ensures
            byte == self.spec_discriminant(),
    {
        match self {
            CommandKind::Set0 => 1,
            CommandKind::Set1 => 2,
            CommandKind::StepGOL => 3,
            CommandKind::FillRandom => 4,
        }
    }

    /// How many bytes follow the first byte of a command of this kind.
    pub fn payload_len(self) -> (len: usize)
        ensures
            len == self.spec_payload_len(),
    {
        match self {
            CommandKind::Set0 | CommandKind::Set1 => 2,
            CommandKind::StepGOL | CommandKind::FillRandom => 0,
        }
    }
}

impl Serialize for CommandKind {
    open spec fn encoding(&self) -> Seq<u8> {
        seq![self.spec_discriminant()]
    }

    fn serialize(&self, buf: &mut Vec<u8>) -> (written: usize) {
        buf.push(self.discriminant());
        1
    }
}

impl Deserialize for CommandKind {
    type Output = CommandKind;

    open spec fn decoding(bytes: Seq<u8>) -> (Result<CommandKind, ProtocolError>, nat) {
        if bytes.len() == 0 {
            (Err(ProtocolError::TransportFailure), 0)
        } else {
            match CommandKind::of_discriminant(bytes[0]) {
                Some(kind) => (Ok(kind), 1),
                None => (Err(ProtocolError::MalformedProtocol), 1),
            }
        }
    }

    fn deserialize(buf: &mut &[u8]) -> (decoded: Result<CommandKind, ProtocolError>) {
        let byte = read_u8(buf)?;
        match byte {
            1 => Ok(CommandKind::Set0),
            2 => Ok(CommandKind::Set1),
            3 => Ok(CommandKind::StepGOL),
            4 => Ok(CommandKind::FillRandom),
            _ => Err(ProtocolError::MalformedProtocol),
        }
    }
}

/// A command to a board.
#[derive(Debug, Clone, Copy, PartialEq, Eq)]
pub enum Command {
    /// Makes cell `(x, y)` dead.
    Set0 { x: u8, y: u8 },
    /// Makes cell `(x, y)` alive.
    Set1 { x: u8, y: u8 },
    /// Moves the board on by one generation.
    StepGOL,
    /// Gives every cell a state drawn at random.
    FillRandom,
}

impl Command {
    /// The kind of the command.
    pub open spec fn spec_kind(&self) -> CommandKind {
        match self {
            Command::Set0 { .. } => CommandKind::Set0,
            Command::Set1 { .. } => CommandKind::Set1,
            Command::StepGOL => CommandKind::StepGOL,
            Command::FillRandom => CommandKind::FillRandom,
        }
    }

    /// The bytes that follow the first byte of the command.
    pub open spec fn payload(&self) -> Seq<u8> {
        match self {
            Command::Set0 { x, y } => seq![*x, *y],
            Command::Set1 { x, y } => seq![*x, *y],
            Command::StepGOL => seq![],
            Command::FillRandom => seq![],
        }
    }

    /// The command of kind `kind` whose payload is the front of `payload`.
    pub open spec fn with_payload(kind: CommandKind, payload: Seq<u8>) -> Command {
        match kind {
            CommandKind::Set0 => Command::Set0 { x: payload[0], y: payload[1] },
            CommandKind::Set1 => Command::Set1 { x: payload[0], y: payload[1] },
            CommandKind::StepGOL => Command::StepGOL,
            CommandKind::FillRandom => Command::FillRandom,
        }
    }

    /// The kind of the command.
    #[verifier::when_used_as_spec(spec_kind)]
    pub fn kind(&self) -> (kind: CommandKind)
        ensures
            kind == self.spec_kind(),
    {
        match self {
            Command::Set0 { .. } => CommandKind::Set0,
            Command::Set1 { .. } => CommandKind::Set1,
            Command::StepGOL => CommandKind::StepGOL,
            Command::FillRandom => CommandKind::FillRandom,
        }
    }
}

impl Serialize for Command {
    open spec fn encoding(&self) -> Seq<u8> {
        self.spec_kind().encoding() + self.payload()
    }

    fn serialize(&self, buf: &mut Vec<u8>) -> (written: usize) {
        let mut bytes_written: usize = 0;
        bytes_written += self.kind().serialize(buf);
        match self {
            Command::Set0 { x, y } => {
                buf.push(*x);
                buf.push(*y);
                bytes_written += 2;
            },
            Command::Set1 { x, y } => {
                buf.push(*x);
                buf.push(*y);
                bytes_written += 2;
            },
            Command::StepGOL => {},
            Command::FillRandom => {},
        }
        bytes_written
    }
}

impl Deserialize for Command {
    type Output = Command;

    open spec fn decoding(bytes: Seq<u8>) -> (Result<Command, ProtocolError>, nat) {
        match CommandKind::decoding(bytes) {
            (Err(reason), taken) => (Err(reason), taken),
            (Ok(kind), taken) => {
                let payload = bytes.skip(taken as int);
                if payload.len() < kind.spec_payload_len() {
                    (Err(ProtocolError::TransportFailure), bytes.len())
                } else {
                    (Ok(Command::with_payload(kind, payload)), taken + kind.spec_payload_len())
                }
            },
        }
    }

    fn deserialize(buf: &mut &[u8]) -> (decoded: Result<Command, ProtocolError>) {
        let kind = CommandKind::deserialize(buf)?;
        match kind {
            CommandKind::Set0 => {
                let x = read_u8(buf)?;
                let y = read_u8(buf)?;
                Ok(Command::Set0 { x, y })
            },
            CommandKind::Set1 => {
                let x = read_u8(buf)?;
                let y = read_u8(buf)?;
                Ok(Command::Set1 { x, y })
            },
            CommandKind::StepGOL => Ok(Command::StepGOL),
            CommandKind::FillRandom => Ok(Command::FillRandom),
        }
    }
}

/// Reading what was written gives the kind back and takes the one byte that
/// was written, whatever follows it on the stream.
pub proof fn lemma_kind_round_trip(kind: CommandKind, rest: Seq<u8>)
    ensures
        kind.encoding().len() == 1,
        CommandKind::of_discriminant(kind.spec_discriminant()) == Some(kind),
        CommandKind::decoding(kind.encoding() + rest) == (
            Ok::<CommandKind, ProtocolError>(kind),
            1nat,
        ),
{
}

/// Reading what was written gives the command back and takes exactly the bytes
/// that were written, whatever follows them on the stream. These are the first
/// byte and the payload of the command's kind: two bytes where the command
/// writes a cell, none else.
pub proof fn lemma_round_trip(command: Command, rest: Seq<u8>)
    ensures
        command.encoding().len() == 1 + command.spec_kind().spec_payload_len(),
        Command::decoding(command.encoding() + rest) == (
            Ok::<Command, ProtocolError>(command),
            command.encoding().len(),
        ),
{
    let bytes = command.encoding() + rest;
    lemma_kind_round_trip(command.spec_kind(), command.payload() + rest);
    assert(bytes =~= command.spec_kind().encoding() + (command.payload() + rest));
    assert(bytes.skip(1) =~= command.payload() + rest);
}

/// A first byte that stands for no kind makes a malformed command, and is the
/// only byte taken off the stream.
pub proof fn lemma_unknown_kind_is_malformed(bytes: Seq<u8>)
    requires
        bytes.len() > 0,
        !(1 <= bytes[0] <= 4),
    ensures
        CommandKind::decoding(bytes) == (
            Err::<CommandKind, ProtocolError>(ProtocolError::MalformedProtocol),
            1nat,
        ),
        Command::decoding(bytes) == (
            Err::<Command, ProtocolError>(ProtocolError::MalformedProtocol),
            1nat,
        ),
{
}

/// A stream that ends before the command does makes a transport failure, and
/// all of it is taken.
pub proof fn lemma_short_stream_fails(bytes: Seq<u8>)
    requires
        bytes.len() == 0 || (CommandKind::of_discriminant(bytes[0]) matches Some(kind)
            && bytes.len() < 1 + kind.spec_payload_len()),
    ensures
        Command::decoding(bytes) == (
            Err::<Command, ProtocolError>(ProtocolError::TransportFailure),
            bytes.len(),
        ),
{
}

/// The bytes that reading a command takes off the stream are the encoding of
/// that command: no two commands are written alike.
pub proof fn lemma_decoded_bytes_are_encoding(bytes: Seq<u8>)
    requires
        Command::decoding(bytes).0 is Ok,
    ensures
        Command::decoding(bytes).1 <= bytes.len(),
        bytes.take(Command::decoding(bytes).1 as int) == Command::decoding(
            bytes,
        ).0.unwrap().encoding(),
{
    let command = Command::decoding(bytes).0.unwrap();
    let taken = Command::decoding(bytes).1 as int;
    assert(bytes.take(taken) =~= command.encoding());
}

} // verus!
