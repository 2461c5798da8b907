use vstd::prelude::*;
use crate::codec::WireError;
use crate::codec::be32;
use crate::codec::bits32;
use crate::codec::from_be32;
use crate::codec::signed32;
use crate::codec::i32_from_bits;
use crate::codec::put_i32;
use crate::codec::put_slice;
use crate::codec::put_u8;
use crate::codec::lemma_be32_round_trip;
use crate::codec::lemma_signed32_round_trip;

verus! {

/// The code byte of a control frame.
pub const MESSAGE_CODE_CONTROL: i8 = 0;

/// The code byte of an application frame.
pub const MESSAGE_CODE_APPLICATION: i8 = 1;

/// The number of bytes before the payload: four of length, one of code.
pub const HEADER_LENGTH: usize = 5;

/// Whether a frame belongs to the connection's own sub-protocol or carries
/// a message of a protocol above it.
#[derive(Clone, Copy, Debug, Hash, PartialEq, Eq, Structural)]
pub enum MessageCode {
    Control,
    Application,
}

impl MessageCode {
    pub fn to_i8(&self) -> (r: i8)
        ensures
            r == spec_code_value(*self),
    {
        match self {
            MessageCode::Control => MESSAGE_CODE_CONTROL,
            MessageCode::Application => MESSAGE_CODE_APPLICATION,
        }
    }

    pub fn from_i8(v: i8) -> (r: Option<Self>)
        ensures
            r == spec_code_of(v),
    {
        if v == MESSAGE_CODE_CONTROL {
            Some(MessageCode::Control)
        } else if v == MESSAGE_CODE_APPLICATION {
            Some(MessageCode::Application)
        } else {
            None
        }
    }
}

pub open spec fn spec_code_value(code: MessageCode) -> i8 {
    match code {
        MessageCode::Control => 0,
        MessageCode::Application => 1,
    }
}

pub open spec fn spec_code_of(v: i8) -> Option<MessageCode> {
    if v == 0 {
        Some(MessageCode::Control)
    } else if v == 1 {
        Some(MessageCode::Application)
    } else {
        None
    }
}

/// The message code that a byte of the stream stands for.
pub open spec fn spec_code_of_byte(b: u8) -> Option<MessageCode> {
    if b == 0 {
        Some(MessageCode::Control)
    } else if b == 1 {
        Some(MessageCode::Application)
    } else {
        None
    }
}

/// What the start of a byte stream holds.
pub enum FrameParse {
    /// More bytes are needed.
    Incomplete,
    /// The stream cannot be a frame.
    Invalid(WireError),
    /// A whole frame, which takes up the first `used` bytes.
    Complete { code: MessageCode, payload: Seq<u8>, used: nat },
}

/// Reads a frame from the start of `s`: four bytes of big-endian length,
/// which counts the code byte and the payload, the code byte, the payload.
pub open spec fn spec_frame(s: Seq<u8>) -> FrameParse {
    if s.len() < 4 {
        FrameParse::Incomplete
    } else {
        let size = signed32(from_be32(s.take(4)));
        if size < 1 {
            FrameParse::Invalid(WireError::BadLength)
        } else if s.len() < 5 {
            FrameParse::Incomplete
        } else if spec_code_of_byte(s[4]).is_none() {
            FrameParse::Invalid(WireError::UnknownCode)
        } else if s.len() < 4 + size {
            FrameParse::Incomplete
        } else {
            FrameParse::Complete {
                code: spec_code_of_byte(s[4]).unwrap(),
                payload: s.subrange(5, 4 + size),
                used: (4 + size) as nat,
            }
        }
    }
}

/// The bytes of a frame.
pub open spec fn spec_encode(code: MessageCode, payload: Seq<u8>) -> Seq<u8> {
    be32(bits32((payload.len() + 1) as i32)) + seq![spec_code_value(code) as u8] + payload
}

/// Once the start of a stream is decided, more bytes do not change the decision.
pub proof fn lemma_frame_monotone(p: Seq<u8>, s: Seq<u8>)
    requires
        p.len() <= s.len(),
        s.take(p.len() as int) == p,
        spec_frame(p) != FrameParse::Incomplete,
    ensures
        spec_frame(s) == spec_frame(p),
{
    assert(p.take(4) =~= s.take(4));
    let size = signed32(from_be32(s.take(4)));
    if size >= 1 {
        assert(p[4] == s.take(p.len() as int)[4]);
        if spec_code_of_byte(s[4]).is_some() {
            if p.len() >= 4 + size {
                let a = p.subrange(5, 4 + size);
                let b = s.subrange(5, 4 + size);
                assert forall|i: int| 0 <= i < size - 1 implies #[trigger] a[i] == b[i] by {
                    assert(p[5 + i] == s.take(p.len() as int)[5 + i]);
                }
                assert(a =~= b);
            }
        }
    }
}

/// The bytes of a frame read back as that frame, and no shorter start of
/// them is a whole frame: a frame that arrives in pieces is read as the
/// same frame as one that arrives whole.
pub proof fn lemma_encoding_reads_back(code: MessageCode, payload: Seq<u8>)
    requires
        payload.len() + 1 <= i32::MAX,
    ensures
        spec_frame(spec_encode(code, payload)) == (FrameParse::Complete {
            code,
            payload,
            used: spec_encode(code, payload).len(),
        }),
        spec_encode(code, payload).len() == payload.len() + 5,
        forall|n: int|
            0 <= n < payload.len() + 5 ==> spec_frame(#[trigger] spec_encode(code, payload).take(n))
                == FrameParse::Incomplete,
{
    let e = spec_encode(code, payload);
    let size = (payload.len() + 1) as i32;
    lemma_be32_round_trip(bits32(size));
    lemma_signed32_round_trip(size);
    assert(e.take(4) =~= be32(bits32(size)));
    assert(e[4] == spec_code_value(code) as u8);
    assert(e.subrange(5, 4 + size) =~= payload);
    assert forall|n: int| 0 <= n < payload.len() + 5 implies spec_frame(#[trigger] e.take(n))
        == FrameParse::Incomplete by {
        let p = e.take(n);
        if n >= 4 {
            assert(p.take(4) =~= e.take(4));
            if n >= 5 {
                assert(p[4] == e[4]);
            }
        }
    }
}

/// A frame as it came off the wire.
#[derive(Debug)]
pub struct Frame {
    pub code: MessageCode,
    pub payload: Vec<u8>,
}

/// Where the decoder stands within the frame that is arriving.
#[derive(Clone, Copy, Debug, PartialEq, Eq, Structural)]
pub enum State {
    ReadingSize { read: usize },
    ReadingCode,
    ReadingPayload { read: usize, code: MessageCode },
}

/// What a step of the decoder gives back.
#[derive(Debug)]
pub struct Decoded {
    /// The number of bytes of the input that were taken.
    pub used: usize,
    /// The frame that those bytes completed, if they completed one.
    pub frame: Option<Frame>,
}

/// A resumable frame decoder. It takes the stream in pieces of any size and
/// yields each frame when its last byte has arrived.
pub struct Decoder<R> {
    buffer: Vec<u8>,
    reader: R,
}

impl<R> Decoder<R> {
    /// The bytes of the frame that is arriving.
    pub closed spec fn pending(&self) -> Seq<u8> {
        self.buffer@
    }

    /// The bytes held are the start of a frame that is not whole yet.
    pub open spec fn wf(&self) -> bool {
        spec_frame(self.pending()) == FrameParse::Incomplete
    }

    pub fn new(reader: R) -> (r: Self)
        ensures
            r.wf(),
            r.pending() == Seq::<u8>::empty(),
            r.source() == reader,
    {
        Self { buffer: Vec::new(), reader }
    }

    pub fn into_inner(self) -> (r: R)
        ensures
            r == self.source(),
    {
        self.reader
    }

    /// The source that the decoder was made with. What the caller does to
    /// it through the reference is done to the decoder's source; the bytes
    /// of the frame that is arriving stay.
    pub fn get_mut(&mut self) -> (r: &mut R)
        ensures
            *r == old(self).source(),
            final(self).source() == *final(r),
            final(self).pending() == old(self).pending(),
    {
        &mut self.reader
    }

    /// The source that the decoder reads from.
    pub closed spec fn source(&self) -> R {
        self.reader
    }

    /// The state of the decoder: reading the length, the code or the payload.
    pub fn state(&self) -> (r: State)
        requires
            self.wf(),
        ensures
            self.pending().len() < 4 ==> r == (State::ReadingSize {
                read: self.pending().len() as usize,
            }),
            self.pending().len() == 4 ==> r == State::ReadingCode,
            self.pending().len() > 4 ==> r == (State::ReadingPayload {
                read: (self.pending().len() - 5) as usize,
                code: spec_code_of_byte(self.pending()[4]).unwrap(),
            }),
    {
        let n = self.buffer.len();
        if n < 4 {
            State::ReadingSize { read: n }
        } else if n == 4 {
            State::ReadingCode
        } else {
            let code = if self.buffer[4] == 0 {
                MessageCode::Control
            } else {
                MessageCode::Application
            };
            State::ReadingPayload { read: n - 5, code }
        }
    }

    /// Takes the bytes of `input` from index `from` on, up to the end of
    /// the frame that is arriving.
    pub fn feed(&mut self, input: &Vec<u8>, from: usize) -> (r: Result<Decoded, WireError>)
        requires
            old(self).wf(),
            from <= input@.len(),
        ensures
            final(self).source() == old(self).source(),
            match spec_frame(old(self).pending() + input@.skip(from as int)) {
                FrameParse::Incomplete => r.is_ok() && r.unwrap().frame.is_none() && r.unwrap().used
                    == input@.len() - from && final(self).pending() == old(self).pending()
                    + input@.skip(from as int) && final(self).wf(),
                FrameParse::Invalid(e) => r == Err::<Decoded, WireError>(e),
                FrameParse::Complete { code, payload, used } => r.is_ok() && r.unwrap().frame.is_some()
                    && r.unwrap().frame.unwrap().code == code && r.unwrap().frame.unwrap().payload@
                    == payload && r.unwrap().used == used - old(self).pending().len() && final(self).pending() == Seq::<u8>::empty() && final(self).wf(),
            },
    {
        let ghost before = self.buffer@;
        let ghost stream = before + input@.skip(from as int);
        let mut i: usize = from;
        assert(before + input@.subrange(from as int, from as int) =~= before);
        while i < input.len()
            invariant
                from <= i <= input@.len(),
                self.buffer@ == before + input@.subrange(from as int, i as int),
                before == old(self).buffer@,
                self.reader == old(self).reader,
                stream == before + input@.skip(from as int),
                spec_frame(self.buffer@) == FrameParse::Incomplete,
            decreases input@.len() - i,
        {
            self.buffer.push(input[i]);
            i += 1;
            let n = self.buffer.len();
            proof {
                assert(self.buffer@ =~= before + input@.subrange(from as int, i as int));
                assert(stream.take(n as int) =~= self.buffer@);
            }
            if n >= 4 {
                let size = self.announced();
                if size < 1 {
                    proof {
                        lemma_frame_monotone(self.buffer@, stream);
                    }
                    return Err(WireError::BadLength);
                }
                if n >= 5 {
                    let code = match self.buffer[4] {
                        0 => MessageCode::Control,
                        1 => MessageCode::Application,
                        _ => {
                            proof {
                                lemma_frame_monotone(self.buffer@, stream);
                            }
                            return Err(WireError::UnknownCode);
                        },
                    };
                    if n - 4 >= size as usize {
                        proof {
                            lemma_frame_monotone(self.buffer@, stream);
                        }
                        let payload = self.take_payload();
                        return Ok(Decoded { used: i - from, frame: Some(Frame { code, payload }) });
                    }
                }
            }
        }
        proof {
            assert(input@.subrange(from as int, i as int) =~= input@.skip(from as int));
        }
        Ok(Decoded { used: i - from, frame: None })
    }

    /// The length that the first four bytes announce.
    fn announced(&self) -> (r: i32)
        requires
            self.buffer@.len() >= 4,
        ensures
            r == signed32(from_be32(self.buffer@.take(4))),
    {
        let a = self.buffer[0] as u32;
        let b = self.buffer[1] as u32;
        let c = self.buffer[2] as u32;
        let d = self.buffer[3] as u32;
        i32_from_bits((a << 24) | (b << 16) | (c << 8) | d)
    }

    /// Hands out the payload of the whole frame held and forgets the frame.
    fn take_payload(&mut self) -> (r: Vec<u8>)
        requires
            old(self).buffer@.len() >= 5,
        ensures
            r@ == old(self).buffer@.skip(5),
            final(self).buffer@ == Seq::<u8>::empty(),
            final(self).reader == old(self).reader,
    {
        let mut payload: Vec<u8> = Vec::new();
        let n = self.buffer.len();
        let mut j: usize = 5;
        while j < n
            invariant
                5 <= j <= n,
                n == self.buffer@.len(),
                self.buffer@ == old(self).buffer@,
                self.reader == old(self).reader,
                payload@ == self.buffer@.subrange(5, j as int),
            decreases n - j,
        {
            payload.push(self.buffer[j]);
            assert(payload@ =~= self.buffer@.subrange(5, j + 1));
            j += 1;
        }
        assert(payload@ =~= self.buffer@.skip(5));
        self.buffer.clear();
        payload
    }
}

/// A frame encoder: it lays out each frame in a buffer of its own, from
/// which the frame is written to the sink.
pub struct Encoder<W> {
    buffer: Vec<u8>,
    writer: W,
}

impl<W> Encoder<W> {
    /// The bytes of the frame that was laid out last.
    pub closed spec fn laid_out(&self) -> Seq<u8> {
        self.buffer@
    }

    pub fn new(writer: W) -> (r: Self)
        ensures
            r.laid_out() == Seq::<u8>::empty(),
            r.sink() == writer,
    {
        Self { buffer: Vec::new(), writer }
    }

    pub fn into_inner(self) -> (r: W)
        ensures
            r == self.sink(),
    {
        self.writer
    }

    /// The sink that the encoder was made with. What the caller does to it
    /// through the reference is done to the encoder's sink; the frame that
    /// was laid out stays.
    pub fn get_mut(&mut self) -> (r: &mut W)
        ensures
            *r == old(self).sink(),
            final(self).sink() == *final(r),
            final(self).laid_out() == old(self).laid_out(),
    {
        &mut self.writer
    }

    /// The sink that the frames are written to.
    pub closed spec fn sink(&self) -> W {
        self.writer
    }

    /// The bytes of the frame that was laid out last.
    pub fn bytes(&self) -> (r: &Vec<u8>)
        ensures
            r@ == self.laid_out(),
    {
        &self.buffer
    }

    /// Lays out the frame with `code` and `payload`. A payload whose length
    /// does not fit the length field is refused and nothing is laid out.
    pub fn write(&mut self, code: MessageCode, payload: &Vec<u8>) -> (r: Result<(), WireError>)
        ensures
            final(self).sink() == old(self).sink(),
            r.is_err() <==> payload@.len() + 1 > i32::MAX,
            r.is_err() ==> r == Err::<(), WireError>(WireError::TooLong) && final(self).laid_out()
                == Seq::<u8>::empty(),
            r.is_ok() ==> final(self).laid_out() == spec_encode(code, payload@),
    {
        self.buffer.clear();
        if payload.len() >= i32::MAX as usize {
            return Err(WireError::TooLong);
        }
        let size: i32 = (payload.len() + 1) as i32;
        put_i32(&mut self.buffer, size);
        let c = code.to_i8();
        put_u8(&mut self.buffer, c as u8);
        put_slice(&mut self.buffer, payload.as_slice());
        assert(self.buffer@ =~= spec_encode(code, payload@));
        Ok(())
    }
}

} // verus!
