use vstd::prelude::*;
use crate::codec::Reader;
use crate::codec::WireError;
use crate::codec::be16;
use crate::codec::be32;
use crate::codec::bits16;
use crate::codec::bits32;
use crate::codec::from_be16;
use crate::codec::from_be32;
use crate::codec::signed16;
use crate::codec::signed32;
use crate::codec::lemma_be16_round_trip;
use crate::codec::lemma_be32_round_trip;
use crate::codec::lemma_signed16_round_trip;
use crate::codec::lemma_signed32_round_trip;
use crate::codec::put_i16;
use crate::codec::put_i32;
use crate::codec::put_slice;
use crate::frame::Decoder;
use crate::frame::Encoder;
use crate::frame::Frame;
use crate::frame::FrameParse;
use crate::frame::MessageCode;
use crate::frame::spec_encode;
use crate::frame::spec_frame;
use crate::props::Pair;
use crate::props::Properties;
use crate::props::pairs_fit;
use crate::props::spec_read_props;
use crate::protocol::ProtocolID;
use crate::protocol::ProtocolMessageID;

verus! {

/// The number that opens every handshake.
pub const CONTROL_MAGIC_NUMBER: i32 = 0x79676472;

pub const OPCODE_HEARTBEAT: i32 = 0;

pub const OPCODE_FIRST_HANDSHAKE: i32 = 1;

pub const OPCODE_SECOND_HANDSHAKE: i32 = 2;

pub const OPCODE_INVALID_ATTRIBUTE: i32 = 3;

/// What the two ends of a connection tell each other when it opens.
#[derive(Debug)]
pub struct Handshake {
    pub magic_number: i32,
    pub properties: Properties,
}

/// Tells the other end that its handshake was not understood.
#[derive(Clone, Copy, Debug)]
pub struct InvalidAttribute {
    pub magic_number: i32,
}

/// A message of the connection's own sub-protocol.
#[derive(Debug)]
pub enum ControlMessage {
    Heartbeat,
    FirstHandshake(Handshake),
    SecondHandshake(Handshake),
    InvalidAttribute(InvalidAttribute),
}

/// A control message as a mathematical value.
pub enum ControlView {
    Heartbeat,
    FirstHandshake { magic: i32, pairs: Seq<Pair> },
    SecondHandshake { magic: i32, pairs: Seq<Pair> },
    InvalidAttribute { magic: i32 },
}

/// A message of a protocol of the node, as it travels in an application frame.
#[derive(Debug)]
pub struct BabelMessage {
    pub source_protocol: ProtocolID,
    pub target_protocol: ProtocolID,
    pub message_id: ProtocolMessageID,
    pub message: Vec<u8>,
}

/// What a frame carries.
#[derive(Debug)]
pub enum Message<M> {
    Control(ControlMessage),
    Application(M),
}

impl Handshake {
    /// A handshake with the magic number and the given properties.
    pub fn new(properties: Properties) -> (r: Self)
        ensures
            r.magic_number == CONTROL_MAGIC_NUMBER,
            r.properties == properties,
    {
        Self { magic_number: CONTROL_MAGIC_NUMBER, properties }
    }

    /// The bytes of the handshake: the magic number, then the properties.
    pub open spec fn wire(&self) -> Seq<u8> {
        be32(bits32(self.magic_number)) + self.properties.wire()
    }
}

impl View for ControlMessage {
    type V = ControlView;

    open spec fn view(&self) -> ControlView {
        match *self {
            ControlMessage::Heartbeat => ControlView::Heartbeat,
            ControlMessage::FirstHandshake(h) => ControlView::FirstHandshake {
                magic: h.magic_number,
                pairs: h.properties.pairs(),
            },
            ControlMessage::SecondHandshake(h) => ControlView::SecondHandshake {
                magic: h.magic_number,
                pairs: h.properties.pairs(),
            },
            ControlMessage::InvalidAttribute(a) => ControlView::InvalidAttribute {
                magic: a.magic_number,
            },
        }
    }
}

/// The opcode of each kind of control message.
pub open spec fn spec_opcode(m: ControlMessage) -> i32 {
    match m {
        ControlMessage::Heartbeat => 0,
        ControlMessage::FirstHandshake(_) => 1,
        ControlMessage::SecondHandshake(_) => 2,
        ControlMessage::InvalidAttribute(_) => 3,
    }
}

/// The bytes that follow the opcode of a control message.
pub open spec fn spec_control_body(m: ControlMessage) -> Seq<u8> {
    match m {
        ControlMessage::Heartbeat => Seq::empty(),
        ControlMessage::FirstHandshake(h) => h.wire(),
        ControlMessage::SecondHandshake(h) => h.wire(),
        ControlMessage::InvalidAttribute(a) => be32(bits32(a.magic_number)),
    }
}

/// True when the lengths within the message fit the fields that carry them.
pub open spec fn control_fits(m: ControlMessage) -> bool {
    match m {
        ControlMessage::FirstHandshake(h) => pairs_fit(h.properties.pairs()),
        ControlMessage::SecondHandshake(h) => pairs_fit(h.properties.pairs()),
        _ => true,
    }
}

/// The control message that the bytes `s` hold.
pub open spec fn spec_read_control(s: Seq<u8>) -> Result<ControlView, WireError> {
    if s.len() < 4 {
        Err(WireError::Truncated)
    } else {
        let opcode = signed32(from_be32(s.take(4)));
        if opcode == 0 {
            Ok(ControlView::Heartbeat)
        } else if opcode == 1 || opcode == 2 || opcode == 3 {
            if s.len() < 8 {
                Err(WireError::Truncated)
            } else {
                let magic = signed32(from_be32(s.subrange(4, 8)));
                if opcode == 3 {
                    Ok(ControlView::InvalidAttribute { magic })
                } else {
                    match spec_read_props(s.skip(8)) {
                        Err(e) => Err(e),
                        Ok((pairs, rest)) => if opcode == 1 {
                            Ok(ControlView::FirstHandshake { magic, pairs })
                        } else {
                            Ok(ControlView::SecondHandshake { magic, pairs })
                        },
                    }
                }
            }
        } else {
            Err(WireError::UnknownOpcode)
        }
    }
}

impl ControlMessage {
    pub fn opcode(&self) -> (r: i32)
        ensures
            r == spec_opcode(*self),
    {
        match self {
            ControlMessage::Heartbeat => OPCODE_HEARTBEAT,
            ControlMessage::FirstHandshake(_) => OPCODE_FIRST_HANDSHAKE,
            ControlMessage::SecondHandshake(_) => OPCODE_SECOND_HANDSHAKE,
            ControlMessage::InvalidAttribute(_) => OPCODE_INVALID_ATTRIBUTE,
        }
    }

    /// The bytes of the message: the opcode, then what the kind carries.
    pub open spec fn wire(&self) -> Seq<u8> {
        be32(bits32(spec_opcode(*self))) + spec_control_body(*self)
    }

    /// Appends the bytes of the message. A handshake whose properties do
    /// not fit their length fields is refused.
    pub fn serialize(&self, buf: &mut Vec<u8>) -> (r: Result<(), WireError>)
        ensures
            r.is_err() <==> !control_fits(*self),
            r.is_err() ==> r == Err::<(), WireError>(WireError::TooLong),
            r.is_ok() ==> final(buf)@ == old(buf)@ + self.wire(),
    {
        put_i32(buf, self.opcode());
        match self {
            ControlMessage::Heartbeat => {
                assert(buf@ =~= old(buf)@ + self.wire());
                Ok(())
            },
            ControlMessage::FirstHandshake(hs) => {
                put_i32(buf, hs.magic_number);
                let r = hs.properties.serialize(buf);
                assert(r.is_ok() ==> buf@ =~= old(buf)@ + self.wire());
                r
            },
            ControlMessage::SecondHandshake(hs) => {
                put_i32(buf, hs.magic_number);
                let r = hs.properties.serialize(buf);
                assert(r.is_ok() ==> buf@ =~= old(buf)@ + self.wire());
                r
            },
            ControlMessage::InvalidAttribute(ia) => {
                put_i32(buf, ia.magic_number);
                assert(buf@ =~= old(buf)@ + self.wire());
                Ok(())
            },
        }
    }

    pub fn deserialize(buf: &Vec<u8>) -> (r: Result<Self, WireError>)
        ensures
            match spec_read_control(buf@) {
                Err(e) => r == Err::<Self, WireError>(e),
                Ok(v) => r.is_ok() && r.unwrap()@ == v,
            },
    {
        let mut reader = Reader::new(buf);
        let opcode = match reader.get_i32() {
            Some(v) => v,
            None => {
                return Err(WireError::Truncated);
            },
        };
        if opcode == OPCODE_HEARTBEAT {
            return Ok(ControlMessage::Heartbeat);
        }
        if opcode != OPCODE_FIRST_HANDSHAKE && opcode != OPCODE_SECOND_HANDSHAKE && opcode
            != OPCODE_INVALID_ATTRIBUTE {
            return Err(WireError::UnknownOpcode);
        }
        let magic_number = match reader.get_i32() {
            Some(v) => v,
            None => {
                return Err(WireError::Truncated);
            },
        };
        proof {
            assert(buf@.skip(4).take(4) =~= buf@.subrange(4, 8));
            assert(buf@.skip(4).skip(4) =~= buf@.skip(8));
        }
        if opcode == OPCODE_INVALID_ATTRIBUTE {
            return Ok(ControlMessage::InvalidAttribute(InvalidAttribute { magic_number }));
        }
        let properties = match Properties::read(&mut reader) {
            Ok(p) => p,
            Err(e) => {
                return Err(e);
            },
        };
        if opcode == OPCODE_FIRST_HANDSHAKE {
            Ok(ControlMessage::FirstHandshake(Handshake { magic_number, properties }))
        } else {
            Ok(ControlMessage::SecondHandshake(Handshake { magic_number, properties }))
        }
    }
}

impl BabelMessage {
    /// The bytes of the message: the numbers of the sending protocol, the
    /// receiving protocol and the message kind, then the message itself.
    pub open spec fn wire(&self) -> Seq<u8> {
        be16(bits16(self.source_protocol.0)) + be16(bits16(self.target_protocol.0)) + be16(
            bits16(self.message_id.0),
        ) + self.message@
    }

    pub fn serialize(&self, buf: &mut Vec<u8>)
        ensures
            final(buf)@ == old(buf)@ + self.wire(),
    {
        put_i16(buf, self.source_protocol.0);
        put_i16(buf, self.target_protocol.0);
        put_i16(buf, self.message_id.0);
        put_slice(buf, self.message.as_slice());
        assert(buf@ =~= old(buf)@ + self.wire());
    }

    pub fn deserialize(buf: &Vec<u8>) -> (r: Result<Self, WireError>)
        ensures
            r.is_ok() <==> buf@.len() >= 6,
            r.is_err() ==> r == Err::<Self, WireError>(WireError::Truncated),
            r.is_ok() ==> app_read_from(r.unwrap(), buf@),
    {
        let mut reader = Reader::new(buf);
        if reader.remaining() < 6 {
            return Err(WireError::Truncated);
        }
        let source = match reader.get_i16() {
            Some(v) => v,
            None => {
                return Err(WireError::Truncated);
            },
        };
        let target = match reader.get_i16() {
            Some(v) => v,
            None => {
                return Err(WireError::Truncated);
            },
        };
        let id = match reader.get_i16() {
            Some(v) => v,
            None => {
                return Err(WireError::Truncated);
            },
        };
        let n = reader.remaining();
        let message = match reader.get_bytes(n) {
            Some(v) => v,
            None => {
                return Err(WireError::Truncated);
            },
        };
        proof {
            assert(buf@.take(2) =~= buf@.subrange(0, 2));
            assert(buf@.skip(2).take(2) =~= buf@.subrange(2, 4));
            assert(buf@.skip(2).skip(2).take(2) =~= buf@.subrange(4, 6));
            assert(buf@.skip(2).skip(2).skip(2).take(n as int) =~= buf@.skip(6));
        }
        Ok(
            Self {
                source_protocol: ProtocolID(source),
                target_protocol: ProtocolID(target),
                message_id: ProtocolMessageID(id),
                message,
            },
        )
    }
}

/// The control message that `m` is, if it is one.
pub open spec fn carried_control(m: Message<BabelMessage>) -> Option<ControlView> {
    match m {
        Message::Control(c) => Some(c@),
        Message::Application(_) => None,
    }
}

/// The protocol message that `m` is, if it is one.
pub open spec fn carried_app(m: Message<BabelMessage>) -> Option<BabelMessage> {
    match m {
        Message::Control(_) => None,
        Message::Application(a) => Some(a),
    }
}

/// True when `m` is the protocol message that the bytes `s` hold.
pub open spec fn app_read_from(m: BabelMessage, s: Seq<u8>) -> bool {
    &&& m.source_protocol.0 == signed16(from_be16(s.subrange(0, 2)))
    &&& m.target_protocol.0 == signed16(from_be16(s.subrange(2, 4)))
    &&& m.message_id.0 == signed16(from_be16(s.subrange(4, 6)))
    &&& m.message@ == s.skip(6)
}

/// What reading the payload of a frame with `code` gives: `r` is the
/// message that the payload holds, or the reason why it holds none.
pub open spec fn payload_read(
    code: MessageCode,
    payload: Seq<u8>,
    r: Result<Message<BabelMessage>, WireError>,
) -> bool {
    match code {
        MessageCode::Control => match spec_read_control(payload) {
            Err(e) => r == Err::<Message<BabelMessage>, WireError>(e),
            Ok(v) => r.is_ok() && carried_control(r.unwrap()) == Some(v),
        },
        MessageCode::Application => if payload.len() >= 6 {
            r.is_ok() && carried_app(r.unwrap()).is_some() && app_read_from(
                carried_app(r.unwrap()).unwrap(),
                payload,
            )
        } else {
            r == Err::<Message<BabelMessage>, WireError>(WireError::Truncated)
        },
    }
}

/// A protocol message read from the bytes of a protocol message has the
/// fields of that message.
pub proof fn lemma_app_round_trip(m: BabelMessage, read: BabelMessage)
    requires
        app_read_from(read, m.wire()),
    ensures
        m.wire().len() >= 6,
        read.source_protocol == m.source_protocol,
        read.target_protocol == m.target_protocol,
        read.message_id == m.message_id,
        read.message@ == m.message@,
{
    let w = m.wire();
    lemma_be16_round_trip(bits16(m.source_protocol.0));
    lemma_be16_round_trip(bits16(m.target_protocol.0));
    lemma_be16_round_trip(bits16(m.message_id.0));
    lemma_signed16_round_trip(m.source_protocol.0);
    lemma_signed16_round_trip(m.target_protocol.0);
    lemma_signed16_round_trip(m.message_id.0);
    assert(w.subrange(0, 2) =~= be16(bits16(m.source_protocol.0)));
    assert(w.subrange(2, 4) =~= be16(bits16(m.target_protocol.0)));
    assert(w.subrange(4, 6) =~= be16(bits16(m.message_id.0)));
    assert(w.skip(6) =~= m.message@);
}

/// The bytes of a heartbeat and of an invalid-attribute message read back
/// as the message.
pub proof fn lemma_plain_control_round_trip(m: ControlMessage)
    requires
        m is Heartbeat || m is InvalidAttribute,
    ensures
        spec_read_control(m.wire()) == Ok::<ControlView, WireError>(m@),
{
    let w = m.wire();
    lemma_be32_round_trip(bits32(spec_opcode(m)));
    lemma_signed32_round_trip(spec_opcode(m));
    assert(w.take(4) =~= be32(bits32(spec_opcode(m))));
    match m {
        ControlMessage::InvalidAttribute(a) => {
            lemma_be32_round_trip(bits32(a.magic_number));
            lemma_signed32_round_trip(a.magic_number);
            assert(w.subrange(4, 8) =~= be32(bits32(a.magic_number)));
        },
        _ => {},
    }
}

/// Reads what a frame carries: a control message, or a message of a protocol.
pub fn decode_frame(frame: &Frame) -> (r: Result<Message<BabelMessage>, WireError>)
    ensures
        payload_read(frame.code, frame.payload@, r),
{
    match frame.code {
        MessageCode::Control => match ControlMessage::deserialize(&frame.payload) {
            Ok(c) => Ok(Message::Control(c)),
            Err(e) => Err(e),
        },
        MessageCode::Application => match BabelMessage::deserialize(&frame.payload) {
            Ok(m) => Ok(Message::Application(m)),
            Err(e) => Err(e),
        },
    }
}

/// True when the message can be framed: its lengths fit their fields.
pub open spec fn message_fits(m: Message<BabelMessage>) -> bool {
    match m {
        Message::Control(c) => control_fits(c) && c.wire().len() + 1 <= i32::MAX,
        Message::Application(a) => a.wire().len() + 1 <= i32::MAX,
    }
}

/// The bytes of the frame of a message.
pub open spec fn message_frame(m: Message<BabelMessage>) -> Seq<u8> {
    match m {
        Message::Control(c) => spec_encode(MessageCode::Control, c.wire()),
        Message::Application(a) => spec_encode(MessageCode::Application, a.wire()),
    }
}

impl<W> Encoder<W> {
    /// Lays out the frame of a control message.
    pub fn control(&mut self, message: &ControlMessage) -> (r: Result<(), WireError>)
        ensures
            final(self).sink() == old(self).sink(),
            r.is_err() <==> !control_fits(*message) || message.wire().len() + 1 > i32::MAX,
            r.is_err() ==> r == Err::<(), WireError>(WireError::TooLong),
            r.is_ok() ==> final(self).laid_out() == spec_encode(
                MessageCode::Control,
                message.wire(),
            ),
    {
        let mut payload: Vec<u8> = Vec::new();
        match message.serialize(&mut payload) {
            Ok(()) => {},
            Err(e) => {
                return Err(e);
            },
        }
        assert(payload@ =~= message.wire());
        self.write(MessageCode::Control, &payload)
    }

    /// Lays out the frame of a message of a protocol.
    pub fn application(&mut self, message: &BabelMessage) -> (r: Result<(), WireError>)
        ensures
            final(self).sink() == old(self).sink(),
            r.is_err() <==> message.wire().len() + 1 > i32::MAX,
            r.is_err() ==> r == Err::<(), WireError>(WireError::TooLong),
            r.is_ok() ==> final(self).laid_out() == spec_encode(
                MessageCode::Application,
                message.wire(),
            ),
    {
        let mut payload: Vec<u8> = Vec::new();
        message.serialize(&mut payload);
        assert(payload@ =~= message.wire());
        self.write(MessageCode::Application, &payload)
    }

    /// Lays out the frame of a message.
    pub fn encode(&mut self, message: &Message<BabelMessage>) -> (r: Result<(), WireError>)
        ensures
            final(self).sink() == old(self).sink(),
            r.is_err() ==> r == Err::<(), WireError>(WireError::TooLong),
            r.is_err() <==> !message_fits(*message),
            r.is_ok() ==> final(self).laid_out() == message_frame(*message),
    {
        match message {
            Message::Control(msg) => self.control(msg),
            Message::Application(msg) => self.application(msg),
        }
    }
}

/// What a step of the decoder gives back once the frame is read.
#[derive(Debug)]
pub struct Received {
    /// The number of bytes of the input that were taken.
    pub used: usize,
    /// The message of the frame that those bytes completed, if they completed one.
    pub message: Option<Message<BabelMessage>>,
}

impl<R> Decoder<R> {
    /// Takes the bytes of `input` from index `from` on, up to the end of
    /// the frame that is arriving, and reads what that frame carries.
    pub fn decode(&mut self, input: &Vec<u8>, from: usize) -> (r: Result<Received, WireError>)
        requires
            old(self).wf(),
            from <= input@.len(),
        ensures
            final(self).source() == old(self).source(),
            match spec_frame(old(self).pending() + input@.skip(from as int)) {
                FrameParse::Incomplete => r.is_ok() && r.unwrap().message.is_none()
                    && r.unwrap().used == input@.len() - from && final(self).pending() == old(self).pending() + input@.skip(from as int) && final(self).wf(),
                FrameParse::Invalid(e) => r == Err::<Received, WireError>(e),
                FrameParse::Complete { code, payload, used } => final(self).wf() && final(self).pending() == Seq::<u8>::empty() && (r.is_ok() ==> r.unwrap().used == used
                    - old(self).pending().len() && r.unwrap().message.is_some() && payload_read(
                    code,
                    payload,
                    Ok(r.unwrap().message.unwrap()),
                )) && (r.is_err() ==> payload_read(
                    code,
                    payload,
                    Err(r.unwrap_err()),
                )),
            },
    {
        let decoded = match self.feed(input, from) {
            Ok(d) => d,
            Err(e) => {
                return Err(e);
            },
        };
        match decoded.frame {
            None => Ok(Received { used: decoded.used, message: None }),
            Some(frame) => match decode_frame(&frame) {
                Ok(m) => Ok(Received { used: decoded.used, message: Some(m) }),
                Err(e) => Err(e),
            },
        }
    }
}

} // verus!
