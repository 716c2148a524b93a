//! Messages as they go over a web socket.

use vstd::prelude::*;

verus! {

/// How much room for messages is kept between two of them.
pub const MAX_BUFFER_LEN: usize = 1048576;

/// How hard messages are compressed.
pub const COMPRESSION_LEVEL: i32 = 4;

/// What `zstd::stream::encode_all` makes of some bytes, unless it fails.
pub uninterp spec fn compressed(bytes: Seq<u8>, level: i32) -> Option<Seq<u8>>;

/// What `zstd::stream::copy_decode` makes of some bytes, unless it fails.
pub uninterp spec fn decompressed(bytes: Seq<u8>) -> Option<Seq<u8>>;

/// `zstd::stream::encode_all` compresses bytes into a frame from which they can be
/// had back. On which bytes and levels it succeeds is part of the name.
#[verifier::external_body]
fn zstd_encode(bytes: &Vec<u8>, level: i32) -> (r: Option<Vec<u8>>)
    ensures
        r is Some <==> compressed(bytes@, level) is Some,
        r matches Some(frame) ==> compressed(bytes@, level) == Some(frame@) && decompressed(frame@)
            == Some(bytes@),
{
    match zstd::stream::encode_all(bytes.as_slice(), level) {
        Ok(frame) => Some(frame),
        Err(_) => None,
    }
}

/// `zstd::stream::copy_decode` appends what a frame holds. Where it fails part of it
/// may have been appended.
#[verifier::external_body]
fn zstd_decode(frame: &Vec<u8>, buffer: &mut Vec<u8>) -> (r: bool)
    ensures
        r == decompressed(frame@) is Some,
        r ==> final(buffer)@ == old(buffer)@ + decompressed(frame@)->0,
        !r ==> old(buffer)@.is_prefix_of(final(buffer)@),
{
    match zstd::stream::copy_decode(frame.as_slice(), buffer) {
        Ok(()) => true,
        Err(_) => false,
    }
}

/// `Vec::shrink_to` gives back memory and leaves the bytes alone.
#[verifier::external_body]
fn shrink_to(buffer: &mut Vec<u8>, room: usize)
    ensures
        final(buffer)@ == old(buffer)@,
{
    buffer.shrink_to(room)
}

/// A message of a peer. An envelope is given by its bytes.
#[derive(Debug)]
pub enum Message {
    Envelope(Vec<u8>),
    Ping,
    Pong,
}

/// A message of a web socket.
#[derive(Debug)]
pub enum WebSocketMessage {
    Binary(Vec<u8>),
    Ping,
    Pong,
    Close,
    Other,
}

/// A stream of messages, with room for one of them.
#[derive(Debug)]
pub struct MessageStream {
    pub encoding_buffer: Vec<u8>,
}

/// What came of a message of a web socket.
#[derive(Debug)]
pub enum Read {
    /// The message is one of a peer.
    Done(Message),
    /// The next message has to be read.
    Next,
    /// The connection was closed.
    Closed,
    /// The message could not be decompressed.
    Corrupt,
}

/// Whether a message went out as a message of a web socket. What was left in the
/// stream goes out with it.
pub open spec fn is_written(
    before: MessageStream,
    message: Message,
    after: MessageStream,
    r: Option<WebSocketMessage>,
) -> bool {
    match message {
        Message::Envelope(bytes) => {
            let all = before.encoding_buffer@ + bytes@;
            match compressed(all, COMPRESSION_LEVEL) {
                Some(frame) => {
                    &&& r matches Some(WebSocketMessage::Binary(sent)) && sent@ == frame
                    &&& decompressed(frame) == Some(all)
                    &&& after.encoding_buffer@ == Seq::<u8>::empty()
                },
                None => r is None && after.encoding_buffer@ == all,
            }
        },
        Message::Ping => r == Some(WebSocketMessage::Ping) && after == before,
        Message::Pong => r == Some(WebSocketMessage::Pong) && after == before,
    }
}

/// Whether a message of a web socket, or its end, was read as it should be. What was
/// left in the stream comes before it.
pub open spec fn is_read(
    before: MessageStream,
    message: Option<WebSocketMessage>,
    after: MessageStream,
    r: Read,
) -> bool {
    match message {
        Some(WebSocketMessage::Binary(frame)) => match decompressed(frame@) {
            Some(bytes) => r is Done && r->Done_0 is Envelope && r->Done_0->Envelope_0@
                == before.encoding_buffer@ + bytes && after.encoding_buffer@
                == Seq::<u8>::empty(),
            None => r == Read::Corrupt && before.encoding_buffer@.is_prefix_of(
                after.encoding_buffer@,
            ),
        },
        Some(WebSocketMessage::Ping) => r == Read::Done(Message::Ping) && after == before,
        Some(WebSocketMessage::Pong) => r == Read::Done(Message::Pong) && after == before,
        Some(WebSocketMessage::Close) => r == Read::Closed && after == before,
        Some(WebSocketMessage::Other) => r == Read::Next && after == before,
        None => r == Read::Closed && after == before,
    }
}

/// What one peer writes is what the other one reads, and both are then ready for the
/// next message.
pub proof fn law_written_messages_are_read(
    writer: MessageStream,
    message: Message,
    writer_after: MessageStream,
    wire: WebSocketMessage,
    reader: MessageStream,
    reader_after: MessageStream,
    r: Read,
)
    requires
        writer.encoding_buffer@.len() == 0,
        reader.encoding_buffer@.len() == 0,
        is_written(writer, message, writer_after, Some(wire)),
        is_read(reader, Some(wire), reader_after, r),
    ensures
        r matches Read::Done(arrived) && match (message, arrived) {
            (Message::Envelope(sent), Message::Envelope(bytes)) => bytes@ == sent@,
            (Message::Ping, Message::Ping) => true,
            (Message::Pong, Message::Pong) => true,
            _ => false,
        },
        writer_after.encoding_buffer@.len() == 0,
        reader_after.encoding_buffer@.len() == 0,
{
    if let Message::Envelope(sent) = message {
        assert(writer.encoding_buffer@ + sent@ =~= sent@);
        assert(reader.encoding_buffer@ + sent@ =~= sent@);
    }
}

impl MessageStream {
    pub fn new() -> (r: MessageStream)
        ensures
            r.encoding_buffer@ == Seq::<u8>::empty(),
    {
        MessageStream { encoding_buffer: Vec::new() }
    }

    /// The web socket message that a message goes out as. `None` where it could not be
    /// compressed.
    pub fn write(&mut self, message: Message) -> (r: Option<WebSocketMessage>)
        ensures
            is_written(*old(self), message, *final(self), r),
    {
        match message {
            Message::Envelope(bytes) => {
                let ghost all = self.encoding_buffer@ + bytes@;
                append_bytes(&mut self.encoding_buffer, &bytes);
                match zstd_encode(&self.encoding_buffer, COMPRESSION_LEVEL) {
                    Some(frame) => {
                        self.encoding_buffer.clear();
                        shrink_to(&mut self.encoding_buffer, MAX_BUFFER_LEN);
                        Some(WebSocketMessage::Binary(frame))
                    },
                    None => None,
                }
            },
            Message::Ping => Some(WebSocketMessage::Ping),
            Message::Pong => Some(WebSocketMessage::Pong),
        }
    }

    /// What a message of a web socket, or its end, stands for.
    pub fn read(&mut self, message: Option<WebSocketMessage>) -> (r: Read)
        ensures
            is_read(*old(self), message, *final(self), r),
    {
        match message {
            Some(WebSocketMessage::Binary(frame)) => {
                if !zstd_decode(&frame, &mut self.encoding_buffer) {
                    return Read::Corrupt;
                }
                let mut bytes: Vec<u8> = Vec::new();
                append_bytes(&mut bytes, &self.encoding_buffer);
                assert(bytes@ =~= self.encoding_buffer@);
                self.encoding_buffer.clear();
                shrink_to(&mut self.encoding_buffer, MAX_BUFFER_LEN);
                Read::Done(Message::Envelope(bytes))
            },
            Some(WebSocketMessage::Ping) => Read::Done(Message::Ping),
            Some(WebSocketMessage::Pong) => Read::Done(Message::Pong),
            Some(WebSocketMessage::Close) => Read::Closed,
            Some(WebSocketMessage::Other) => Read::Next,
            None => Read::Closed,
        }
    }
}

/// Appends bytes.
pub fn append_bytes(buffer: &mut Vec<u8>, bytes: &Vec<u8>)
    ensures
        final(buffer)@ == old(buffer)@ + bytes@,
{
    let ghost start = buffer@;
    let mut i: usize = 0;
    assert(buffer@ =~= start + bytes@.take(0));
    while i < bytes.len()
        invariant
            i <= bytes@.len(),
            buffer@ == start + bytes@.take(i as int),
        decreases bytes.len() - i,
    {
        buffer.push(bytes[i]);
        i = i + 1;
        assert(buffer@ =~= start + bytes@.take(i as int));
    }
    assert(bytes@.take(i as int) =~= bytes@);
}

/// A message that one side writes is what the other side reads, be it an envelope, a ping or
/// a pong. A socket that closes or ends is told from one that has nothing to read.
pub proof fn law_what_is_written_is_read(
    writer: &mut MessageStream,
    reader: &mut MessageStream,
    message: Message,
    sent: Option<WebSocketMessage>,
    r: Read,
)
    requires
        old(writer).encoding_buffer@.len() == 0,
        old(reader).encoding_buffer@.len() == 0,
        call_ensures(MessageStream::write, (writer, message), sent),
        sent is Some,
        call_ensures(MessageStream::read, (reader, sent), r),
    ensures
        message is Ping ==> r matches Read::Done(Message::Ping),
        message is Pong ==> r matches Read::Done(Message::Pong),
        message matches Message::Envelope(bytes) ==> (r matches Read::Done(
            Message::Envelope(read),
        ) && read@ == bytes@) && final(writer).encoding_buffer@.len() == 0 && final(
            reader
        ).encoding_buffer@.len() == 0,
{
    if let Message::Envelope(bytes) = message {
        assert(old(writer).encoding_buffer@ + bytes@ =~= bytes@);
        assert(old(reader).encoding_buffer@ + bytes@ =~= bytes@);
    }
}

/// A socket that was closed, or has ended, is closed for the reader. What is no message is
/// passed over.
pub proof fn law_closed_sockets_are_closed(
    reader: &mut MessageStream,
    message: Option<WebSocketMessage>,
    r: Read,
)
    requires
        call_ensures(MessageStream::read, (reader, message), r),
    ensures
        r == Read::Closed <==> message is None || message == Some(WebSocketMessage::Close),
        r == Read::Next <==> message == Some(WebSocketMessage::Other),
        r == Read::Corrupt ==> message matches Some(WebSocketMessage::Binary(_)),
{
}

} // verus!
