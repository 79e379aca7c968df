use vstd::prelude::*;

verus! {

/// The most bytes that one chunk may hold, its tag included.
pub const MAX_CHUNK_SIZE: usize = 16384;

/// The most bytes that one message may hold.
pub const MAX_MESSAGE_SIZE: usize = 10485760;

/// Why a peer closes the connection: a status code and a reason in words.
#[derive(Clone, Debug, PartialEq, Eq)]
pub struct CloseFrame {
    pub code: u16,
    pub reason: String,
}

/// The state of a connection.
#[derive(Clone, Debug, PartialEq, Eq)]
pub enum WebSocketState {
    /// The connection is active.
    Active,
    /// This side began to close it.
    ClosedByUs,
    /// The peer began to close it.
    ClosedByPeer(Option<CloseFrame>),
}

impl WebSocketState {
    /// Whether the connection is active.
    pub fn is_active(&self) -> (active: bool)
        ensures
            active == (*self is Active),
    {
        match self {
            WebSocketState::Active => true,
            _ => false,
        }
    }

    /// Whether the connection is closed or closing.
    pub fn is_closed(&self) -> (closed: bool)
        ensures
            closed == !(*self is Active),
    {
        !self.is_active()
    }
}

/// The address of a peer on the network.
#[derive(Clone, Copy, Debug, PartialEq, Eq, Hash)]
pub enum NetAddress {
    IPv4([u8; 4]),
    IPv6([u8; 16]),
}

/// The bytes that went through a stream, counted round the range of `usize`.
#[derive(Clone, Copy, Debug, PartialEq, Eq)]
pub struct NetworkMetrics {
    pub bytes_received: usize,
    pub bytes_sent: usize,
}

impl NetworkMetrics {
    /// Counters that have counted the given numbers of bytes.
    pub fn new(bytes_received: usize, bytes_sent: usize) -> (metrics: NetworkMetrics)
        ensures
            metrics == (NetworkMetrics { bytes_received, bytes_sent }),
    {
        NetworkMetrics { bytes_received, bytes_sent }
    }

    /// Counts bytes that came in.
    pub fn note_bytes_received(&mut self, bytes: usize)
        ensures
            final(self).bytes_received == old(self).bytes_received.wrapping_add(bytes),
            final(self).bytes_sent == old(self).bytes_sent,
    {
        self.bytes_received = self.bytes_received.wrapping_add(bytes);
    }

    /// Counts bytes that went out.
    pub fn note_bytes_sent(&mut self, bytes: usize)
        ensures
            final(self).bytes_sent == old(self).bytes_sent.wrapping_add(bytes),
            final(self).bytes_received == old(self).bytes_received,
    {
        self.bytes_sent = self.bytes_sent.wrapping_add(bytes);
    }
}

/// What others may know of a stream.
#[derive(Clone, Copy, Debug, PartialEq, Eq)]
pub struct PublicStreamInfo {
    /// The address of the peer.
    pub net_address: NetAddress,
    /// Whether this side opened the connection.
    pub outbound: bool,
    /// The bytes that went through the stream.
    pub network_metrics: NetworkMetrics,
}

impl PublicStreamInfo {
    /// What is known of a stream that no byte went through yet.
    pub fn new(net_address: NetAddress, outbound: bool) -> (info: PublicStreamInfo)
        ensures
            info == (PublicStreamInfo {
                net_address,
                outbound,
                network_metrics: NetworkMetrics { bytes_received: 0, bytes_sent: 0 },
            }),
    {
        PublicStreamInfo { net_address, outbound, network_metrics: NetworkMetrics::new(0, 0) }
    }
}

/// What can be wrong with the chunks that arrive.
#[derive(Clone, Copy, Debug, PartialEq, Eq, Structural, Hash)]
pub enum StreamError {
    /// A chunk holds more than `MAX_CHUNK_SIZE` bytes.
    ChunkSizeExceeded,
    /// A message announces more than `MAX_MESSAGE_SIZE` bytes.
    MessageSizeExceeded,
    /// A chunk does not carry the tag of the message that is being received.
    TagMismatch,
    /// A chunk holds more bytes than its message still lacks.
    FinalChunkSizeExceeded,
}

/// The tag that follows `tag`. Tags go round from 0 to 254.
pub open spec fn next_tag(tag: u8) -> u8 {
    ((tag + 1) % 255) as u8
}

/// The number of chunks that a message of `len` bytes is sent in: each chunk
/// but the last is full, and a chunk holds one byte less than its size of the
/// message, for the tag.
pub open spec fn chunk_count(len: int) -> int {
    (len + (MAX_CHUNK_SIZE - 2)) / (MAX_CHUNK_SIZE - 1)
}

/// Chunk `j` of a message: the tag and the message's next bytes.
pub open spec fn chunk_of(message: Seq<u8>, tag: u8, j: int) -> Seq<u8> {
    let from = j * (MAX_CHUNK_SIZE - 1);
    let to = if from + (MAX_CHUNK_SIZE - 1) < message.len() {
        from + (MAX_CHUNK_SIZE - 1)
    } else {
        message.len() as int
    };
    seq![tag] + message.subrange(from, to)
}

/// The receiving side of a stream as a mathematical value.
pub struct ReceiverView {
    /// The tag of the message that was received last or is being received.
    pub receiving_tag: u8,
    /// The bytes that have arrived of the message that is being received.
    pub buffered: Option<Seq<u8>>,
    /// The number of bytes that the message still lacks.
    pub remaining: nat,
}

impl ReceiverView {
    /// The receiver when a chunk has opened a message of `msg_size` bytes.
    pub open spec fn opened(self, msg_size: usize) -> ReceiverView {
        if self.buffered is None {
            ReceiverView {
                receiving_tag: next_tag(self.receiving_tag),
                buffered: Some(Seq::empty()),
                remaining: msg_size as nat,
            }
        } else {
            self
        }
    }

    /// What the receiver makes of a chunk, which holds a tag at least. Where
    /// no message is being received, the chunk opens one of `msg_size` bytes.
    pub open spec fn outcome(self, raw_msg: Seq<u8>, msg_size: usize) -> Result<
        Option<Seq<u8>>,
        StreamError,
    > {
        let opened = self.opened(msg_size);
        if self.buffered is None && msg_size > MAX_MESSAGE_SIZE {
            Err(StreamError::MessageSizeExceeded)
        } else if opened.receiving_tag != raw_msg[0] {
            Err(StreamError::TagMismatch)
        } else if raw_msg.len() - 1 > opened.remaining {
            Err(StreamError::FinalChunkSizeExceeded)
        } else if raw_msg.len() - 1 == opened.remaining {
            Ok(Some(opened.buffered->0 + raw_msg.skip(1)))
        } else {
            Ok(None)
        }
    }

    /// The receiver after a chunk. A message that is too large leaves it as
    /// it was; a wrong tag or too many bytes leave it with the message
    /// opened; the last bytes of a message leave it ready for the next one.
    pub open spec fn after(self, raw_msg: Seq<u8>, msg_size: usize) -> ReceiverView {
        let opened = self.opened(msg_size);
        match self.outcome(raw_msg, msg_size) {
            Err(StreamError::MessageSizeExceeded) => self,
            Err(_) => opened,
            Ok(Some(_)) => ReceiverView {
                receiving_tag: opened.receiving_tag,
                buffered: None,
                remaining: 0,
            },
            Ok(None) => ReceiverView {
                receiving_tag: opened.receiving_tag,
                buffered: Some(opened.buffered->0 + raw_msg.skip(1)),
                remaining: (opened.remaining - (raw_msg.len() - 1)) as nat,
            },
        }
    }
}

/// What a stream keeps of the messages that it sends and receives in chunks.
/// Each chunk of a message carries the message's tag in its first byte.
#[derive(Debug)]
pub struct NimiqMessageStream {
    receiving_tag: u8,
    sending_tag: u8,
    msg_buf: Option<Vec<u8>>,
    remaining: usize,
    state: WebSocketState,
    public_state: PublicStreamInfo,
}

impl NimiqMessageStream {
    /// The tag of the message that will be sent next.
    pub closed spec fn sending_tag(&self) -> u8 {
        self.sending_tag
    }

    /// The receiving side of the stream.
    pub closed spec fn receiver(&self) -> ReceiverView {
        ReceiverView {
            receiving_tag: self.receiving_tag,
            buffered: match self.msg_buf {
                Some(buffer) => Some(buffer@),
                None => None,
            },
            remaining: self.remaining as nat,
        }
    }

    /// The state of the connection.
    pub closed spec fn connection(&self) -> WebSocketState {
        self.state
    }

    /// What others may know of the stream.
    pub closed spec fn spec_state(&self) -> PublicStreamInfo {
        self.public_state
    }

    /// A stream on a fresh connection to the peer at `net_address`. Its
    /// first message will go out with tag 0, and tag 0 is what it expects
    /// of the first message that comes in.
    pub fn new(net_address: NetAddress, outbound: bool) -> (stream: NimiqMessageStream)
        ensures
            stream.sending_tag() == 0,
            stream.receiver() == (ReceiverView {
                receiving_tag: 254,
                buffered: None,
                remaining: 0,
            }),
            stream.connection() is Active,
            stream.spec_state() == (PublicStreamInfo {
                net_address,
                outbound,
                network_metrics: NetworkMetrics { bytes_received: 0, bytes_sent: 0 },
            }),
    {
        NimiqMessageStream {
            receiving_tag: 254,
            sending_tag: 0,
            msg_buf: None,
            remaining: 0,
            state: WebSocketState::Active,
            public_state: PublicStreamInfo::new(net_address, outbound),
        }
    }

    /// What others may know of the stream.
    pub fn state(&self) -> (info: &PublicStreamInfo)
        ensures
            *info == self.spec_state(),
    {
        &self.public_state
    }

    /// Whether the connection is closed or closing.
    pub fn is_closed(&self) -> (closed: bool)
        ensures
            closed == !(self.connection() is Active),
    {
        self.state.is_closed()
    }

    /// The bytes that went through the stream.
    pub fn network_metrics(&self) -> (metrics: &NetworkMetrics)
        ensures
            *metrics == self.spec_state().network_metrics,
    {
        &self.public_state.network_metrics
    }

    /// Counts the bytes of a chunk that came in, and says whether the chunk
    /// may be taken in: it may unless it holds more than `MAX_CHUNK_SIZE`
    /// bytes.
    pub fn note_received(&mut self, len: usize) -> (r: Result<(), StreamError>)
        ensures
            final(self).spec_state() == (PublicStreamInfo {
                network_metrics: NetworkMetrics {
                    bytes_received: old(
                        self,
                    ).spec_state().network_metrics.bytes_received.wrapping_add(len),
                    ..old(self).spec_state().network_metrics
                },
                ..old(self).spec_state()
            }),
            final(self).receiver() == old(self).receiver(),
            final(self).sending_tag() == old(self).sending_tag(),
            final(self).connection() == old(self).connection(),
            r == spec_check_chunk_size(len),
    {
        self.public_state.network_metrics.note_bytes_received(len);
        check_chunk_size(len)
    }

    /// Whether the next chunk opens a message, so that the size of the
    /// message has to be read from it.
    pub fn awaits_message(&self) -> (awaits: bool)
        ensures
            awaits == (self.receiver().buffered is None),
    {
        self.msg_buf.is_none()
    }

    /// Takes note that this side begins to close the connection.
    pub fn close_by_us(&mut self)
        ensures
            final(self).connection() is ClosedByUs,
            final(self).receiver() == old(self).receiver(),
            final(self).sending_tag() == old(self).sending_tag(),
            final(self).spec_state() == old(self).spec_state(),
    {
        self.state = WebSocketState::ClosedByUs;
    }

    /// Takes note that the peer begins to close the connection, with the
    /// frame that it sent.
    pub fn close_by_peer(&mut self, frame: Option<CloseFrame>)
        ensures
            final(self).connection() == WebSocketState::ClosedByPeer(frame),
            final(self).receiver() == old(self).receiver(),
            final(self).sending_tag() == old(self).sending_tag(),
            final(self).spec_state() == old(self).spec_state(),
    {
        self.state = WebSocketState::ClosedByPeer(frame);
    }

    /// Begins to send a message: counts its bytes, gives the chunks that they
    /// go out in, in order, each with the stream's sending tag in front, and
    /// moves the sending tag on. A message without bytes goes out in no chunk.
    pub fn start_send(&mut self, serialized_msg: &Vec<u8>) -> (chunks: Vec<Vec<u8>>)
        ensures
            final(self).sending_tag() == next_tag(old(self).sending_tag()),
            final(self).receiver() == old(self).receiver(),
            final(self).connection() == old(self).connection(),
            final(self).spec_state() == (PublicStreamInfo {
                network_metrics: NetworkMetrics {
                    bytes_sent: old(self).spec_state().network_metrics.bytes_sent.wrapping_add(
                        serialized_msg.len(),
                    ),
                    ..old(self).spec_state().network_metrics
                },
                ..old(self).spec_state()
            }),
            chunks.len() == chunk_count(serialized_msg.len() as int),
            forall|j: int|
                0 <= j < chunks.len() ==> (#[trigger] chunks[j])@ == chunk_of(
                    serialized_msg@,
                    old(self).sending_tag(),
                    j,
                ),
    {
        let tag: u8 = self.sending_tag;
        self.sending_tag = ((tag as u16 + 1) % 255) as u8;
        let len: usize = serialized_msg.len();
        self.public_state.network_metrics.note_bytes_sent(len);
        let count: usize = len / (MAX_CHUNK_SIZE - 1) + if len % (MAX_CHUNK_SIZE - 1) != 0 {
            1usize
        } else {
            0usize
        };
        assert(count == chunk_count(len as int));
        let mut chunks: Vec<Vec<u8>> = Vec::new();
        let mut j: usize = 0;
        while j < count
            invariant
                len == serialized_msg.len(),
                count == chunk_count(len as int),
                j <= count,
                chunks.len() == j,
                forall|i: int|
                    0 <= i < j ==> (#[trigger] chunks[i])@ == chunk_of(serialized_msg@, tag, i),
            decreases count - j,
        {
            assert(j * (MAX_CHUNK_SIZE - 1) < len) by {
                assert((count - 1) * (MAX_CHUNK_SIZE - 1) < len);
                assert(j * (MAX_CHUNK_SIZE - 1) <= (count - 1) * (MAX_CHUNK_SIZE - 1))
                    by (nonlinear_arith)
                    requires
                        0 <= j <= count - 1,
                ;
            }
            let from: usize = j * (MAX_CHUNK_SIZE - 1);
            let to: usize = if len - from > MAX_CHUNK_SIZE - 1 {
                from + (MAX_CHUNK_SIZE - 1)
            } else {
                len
            };
            let mut buffer: Vec<u8> = Vec::new();
            buffer.push(tag);
            let mut at: usize = from;
            while at < to
                invariant
                    from <= at <= to <= serialized_msg.len(),
                    buffer@ == seq![tag] + serialized_msg@.subrange(from as int, at as int),
                decreases to - at,
            {
                buffer.push(serialized_msg[at]);
                at += 1;
                assert(buffer@ =~= seq![tag] + serialized_msg@.subrange(from as int, at as int));
            }
            chunks.push(buffer);
            j += 1;
        }
        chunks
    }

    /// Takes in a chunk, which holds a tag at least. Where no message is
    /// being received the chunk opens one, and `msg_size` is the size that
    /// the chunk announces for it; else `msg_size` is not looked at. Gives
    /// the bytes of the message where the chunk completes it.
    pub fn receive_chunk(&mut self, raw_msg: &Vec<u8>, msg_size: usize) -> (r: Result<
        Option<Vec<u8>>,
        StreamError,
    >)
        requires
            raw_msg.len() > 0,
        ensures
            final(self).receiver() == old(self).receiver().after(raw_msg@, msg_size),
            final(self).sending_tag() == old(self).sending_tag(),
            final(self).connection() == old(self).connection(),
            final(self).spec_state() == old(self).spec_state(),
            match r {
                Ok(Some(message)) => old(self).receiver().outcome(raw_msg@, msg_size) == Ok::<
                    Option<Seq<u8>>,
                    StreamError,
                >(Some(message@)),
                Ok(None) => old(self).receiver().outcome(raw_msg@, msg_size) == Ok::<
                    Option<Seq<u8>>,
                    StreamError,
                >(None),
                Err(error) => old(self).receiver().outcome(raw_msg@, msg_size) == Err::<
                    Option<Seq<u8>>,
                    StreamError,
                >(error),
            },
    {
        let tag: u8 = raw_msg[0];
        let mut buffer: Vec<u8> = match self.msg_buf.take() {
            Some(buffer) => buffer,
            None => {
                if msg_size > MAX_MESSAGE_SIZE {
                    return Err(StreamError::MessageSizeExceeded);
                }
                self.remaining = msg_size;
                self.receiving_tag = ((self.receiving_tag as u16 + 1) % 255) as u8;
                Vec::new()
            },
        };
        if self.receiving_tag != tag {
            self.msg_buf = Some(buffer);
            return Err(StreamError::TagMismatch);
        }
        let chunk_size: usize = raw_msg.len() - 1;
        if chunk_size > self.remaining {
            self.msg_buf = Some(buffer);
            return Err(StreamError::FinalChunkSizeExceeded);
        }
        let ghost before = buffer@;
        let mut at: usize = 1;
        while at < raw_msg.len()
            invariant
                1 <= at <= raw_msg.len(),
                buffer@ == before + raw_msg@.subrange(1, at as int),
            decreases raw_msg.len() - at,
        {
            buffer.push(raw_msg[at]);
            at += 1;
            assert(buffer@ =~= before + raw_msg@.subrange(1, at as int));
        }
        assert(raw_msg@.subrange(1, raw_msg.len() as int) =~= raw_msg@.skip(1));
        self.remaining = self.remaining - chunk_size;
        if self.remaining == 0 {
            Ok(Some(buffer))
        } else {
            self.msg_buf = Some(buffer);
            Ok(None)
        }
    }
}

/// Whether a chunk of `len` bytes may be taken in: it may unless it holds
/// more than `MAX_CHUNK_SIZE` bytes.
pub open spec fn spec_check_chunk_size(len: usize) -> Result<(), StreamError> {
    if len > MAX_CHUNK_SIZE {
        Err(StreamError::ChunkSizeExceeded)
    } else {
        Ok(())
    }
}

/// Whether a chunk of `len` bytes may be taken in.
pub fn check_chunk_size(len: usize) -> (r: Result<(), StreamError>)
    ensures
        r == spec_check_chunk_size(len),
{
    if len > MAX_CHUNK_SIZE {
        Err(StreamError::ChunkSizeExceeded)
    } else {
        Ok(())
    }
}

/// The receiver after it has taken in the first `k` chunks of a message
/// that goes out under `tag`.
pub open spec fn after_chunks(
    receiver: ReceiverView,
    message: Seq<u8>,
    tag: u8,
    k: int,
) -> ReceiverView
    decreases k,
{
    if k <= 0 {
        receiver
    } else {
        after_chunks(receiver, message, tag, k - 1).after(
            chunk_of(message, tag, k - 1),
            message.len() as usize,
        )
    }
}

/// How the chunks lie in a message: chunk `j` begins at byte `16383 * j`
/// of the message, which has at least one byte there.
proof fn lemma_chunk_bounds(len: int, j: int)
    requires
        0 <= j < chunk_count(len),
    ensures
        MAX_CHUNK_SIZE - 1 == 16383,
        0 <= j * (MAX_CHUNK_SIZE - 1) < len,
        j * (MAX_CHUNK_SIZE - 1) == 16383 * j,
        j < chunk_count(len) - 1 ==> 16383 * j + 16383 < len,
        j == chunk_count(len) - 1 ==> len <= 16383 * j + 16383,
{
    let count = chunk_count(len);
    assert(count == (len + 16382) / 16383);
    assert(j * (MAX_CHUNK_SIZE - 1) == 16383 * j) by (nonlinear_arith)
        requires
            MAX_CHUNK_SIZE - 1 == 16383,
    ;
}

/// Each chunk of a message holds the tag and at least one byte more, and no
/// more bytes than a chunk may hold.
pub proof fn lemma_chunk_sizes(message: Seq<u8>, tag: u8, j: int)
    requires
        0 <= j < chunk_count(message.len() as int),
    ensures
        2 <= chunk_of(message, tag, j).len() <= MAX_CHUNK_SIZE,
        chunk_of(message, tag, j)[0] == tag,
        j < chunk_count(message.len() as int) - 1 ==> chunk_of(message, tag, j).len()
            == MAX_CHUNK_SIZE,
{
    lemma_chunk_bounds(message.len() as int, j);
}

/// The receiver in the middle of a message: after `k` chunks, with more to
/// come, it holds the bytes that the `k` chunks brought.
proof fn lemma_midway(receiver: ReceiverView, message: Seq<u8>, tag: u8, k: int)
    requires
        receiver.buffered is None,
        next_tag(receiver.receiving_tag) == tag,
        message.len() <= MAX_MESSAGE_SIZE,
        0 < k < chunk_count(message.len() as int),
    ensures
        after_chunks(receiver, message, tag, k) == (ReceiverView {
            receiving_tag: tag,
            buffered: Some(message.subrange(0, k * (MAX_CHUNK_SIZE - 1))),
            remaining: (message.len() - k * (MAX_CHUNK_SIZE - 1)) as nat,
        }),
        after_chunks(receiver, message, tag, k - 1).outcome(
            chunk_of(message, tag, k - 1),
            message.len() as usize,
        ) == Ok::<Option<Seq<u8>>, StreamError>(None),
    decreases k,
{
    let len = message.len() as int;
    let chunk = chunk_of(message, tag, k - 1);
    lemma_chunk_bounds(len, k - 1);
    lemma_chunk_bounds(len, k);
    let from = 16383 * (k - 1);
    let to = 16383 * k;
    assert(chunk =~= seq![tag] + message.subrange(from, to));
    assert(chunk.skip(1) =~= message.subrange(from, to));
    if k > 1 {
        lemma_midway(receiver, message, tag, k - 1);
        assert(message.subrange(0, from) + chunk.skip(1) =~= message.subrange(0, to));
    } else {
        assert(Seq::<u8>::empty() + chunk.skip(1) =~= message.subrange(0, to));
    }
}

/// What is sent arrives: a receiver that awaits the message under its tag
/// and takes in the chunks of the message, in order, gets nothing from any
/// chunk but the last and the bytes of the message from the last, and is
/// then ready for the next message.
pub proof fn lemma_chunks_give_message(receiver: ReceiverView, message: Seq<u8>, tag: u8)
    requires
        receiver.buffered is None,
        next_tag(receiver.receiving_tag) == tag,
        0 < message.len() <= MAX_MESSAGE_SIZE,
    ensures
        ({
            let count = chunk_count(message.len() as int);
            &&& count >= 1
            &&& forall|k: int|
                0 <= k < count - 1 ==> (#[trigger] after_chunks(receiver, message, tag, k)).outcome(
                    chunk_of(message, tag, k),
                    message.len() as usize,
                ) == Ok::<Option<Seq<u8>>, StreamError>(None)
            &&& after_chunks(receiver, message, tag, count - 1).outcome(
                chunk_of(message, tag, count - 1),
                message.len() as usize,
            ) == Ok::<Option<Seq<u8>>, StreamError>(Some(message))
            &&& after_chunks(receiver, message, tag, count) == (ReceiverView {
                receiving_tag: tag,
                buffered: None,
                remaining: 0,
            })
        }),
{
    let len = message.len() as int;
    let count = chunk_count(len);
    assert(count >= 1);
    assert forall|k: int| 0 <= k < count - 1 implies (#[trigger] after_chunks(
        receiver,
        message,
        tag,
        k,
    )).outcome(chunk_of(message, tag, k), message.len() as usize) == Ok::<
        Option<Seq<u8>>,
        StreamError,
    >(None) by {
        lemma_midway(receiver, message, tag, k + 1);
    }
    let last = chunk_of(message, tag, count - 1);
    lemma_chunk_bounds(len, count - 1);
    let from = 16383 * (count - 1);
    assert(last =~= seq![tag] + message.subrange(from, len));
    assert(last.skip(1) =~= message.subrange(from, len));
    if count > 1 {
        lemma_midway(receiver, message, tag, count - 1);
        assert(message.subrange(0, from) + last.skip(1) =~= message);
    } else {
        assert(Seq::<u8>::empty() + last.skip(1) =~= message);
    }
}

} // verus!
