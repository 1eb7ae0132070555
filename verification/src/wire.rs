//! The binary wire format: channel data and the packets that frame it.
//!
//! A sample is carried as the 32 bits of its IEEE-754 single-precision
//! encoding, least significant byte first. Nothing in this module looks
//! inside those bits.

use vstd::prelude::*;

verus! {

/// Tag byte of mono channel data.
pub const MONO_TAG: u8 = 1;

/// Tag byte of stereo channel data.
pub const STEREO_TAG: u8 = 2;

/// Tag byte of the packet that ends a stream.
pub const END_TAG: u8 = 0;

/// Tag byte of a packet that carries one full chunk.
pub const DATA_TAG: u8 = 1;

/// Why a byte string is not a packet or not channel data.
#[derive(Clone, Copy, Debug, PartialEq, Eq)]
pub enum DecodeError {
    /// The input is empty, so there is no tag byte to read.
    MissingTagByte,
    /// The tag byte is none of the values the format defines.
    UnexpectedTag(u8),
    /// An end packet stops before its two-byte residual length is complete.
    MissingLength,
    /// Stereo data with nothing after the tag byte.
    MissingFirstChannel,
    /// Stereo data that stops at or before the end of the first channel.
    MissingSecondChannel,
}

/// The decimal digits of a number, most significant first.
pub open spec fn decimal(number: nat) -> Seq<char>
    decreases number,
{
    let digit = (('0' as u8) + (number % 10) as u8) as char;
    if number < 10 {
        seq![digit]
    } else {
        decimal(number / 10).push(digit)
    }
}

impl DecodeError {
    /// The text that describes the error.
    pub open spec fn text(self) -> Seq<char> {
        match self {
            DecodeError::MissingTagByte => "Missing tag byte."@,
            DecodeError::UnexpectedTag(tag) => "Unexpected tag byte value "@ + decimal(tag as nat)
                + "."@,
            DecodeError::MissingLength => "Missing residual length."@,
            DecodeError::MissingFirstChannel => "Missing First Channel Data."@,
            DecodeError::MissingSecondChannel => "Missing Second Channel Data."@,
        }
    }

    /// Describes the error in words.
    pub fn message(&self) -> (message: String)
        ensures
            message@ == self.text(),
    {
        match self {
            DecodeError::MissingTagByte => "Missing tag byte.".to_owned(),
            DecodeError::UnexpectedTag(tag) => unexpected_tag_message(*tag),
            DecodeError::MissingLength => "Missing residual length.".to_owned(),
            DecodeError::MissingFirstChannel => "Missing First Channel Data.".to_owned(),
            DecodeError::MissingSecondChannel => "Missing Second Channel Data.".to_owned(),
        }
    }
}

/// Formats the message for an unknown tag byte with `format!`.
///
/// Not proved: that the macro puts a `u8` down in decimal, without sign or
/// padding, between the two pieces of text.
#[verifier::external_body]
fn unexpected_tag_message(tag: u8) -> (message: String)
    ensures
        message@ == "Unexpected tag byte value "@ + decimal(tag as nat) + "."@,
{
    format!("Unexpected tag byte value {tag}.")
}

/// Samples of one chunk, as mathematical sequences.
pub enum Channels {
    Mono(Seq<u32>),
    Stereo(Seq<u32>, Seq<u32>),
}

/// A packet, as a mathematical value.
#[allow(inconsistent_fields)]
pub enum Packet {
    End { length: u16, channel_data: Option<Channels> },
    Data { channel_data: Channels },
}

/// One chunk of samples, on one channel or on two.
#[derive(Debug, PartialEq, Clone)]
pub enum ChannelData {
    Mono(Vec<u32>),
    Stereo(Vec<u32>, Vec<u32>),
}

/// The unit of the wire protocol.
#[derive(Debug, PartialEq, Clone)]
#[allow(inconsistent_fields)]
pub enum SoundOutputPacket {
    /// Ends the stream. `length` is the number of samples per channel in the
    /// last, partial chunk; the chunk itself follows when `length` is not zero.
    End { length: u16, channel_data: Option<ChannelData> },
    /// One full chunk.
    Data { channel_data: ChannelData },
}

impl View for ChannelData {
    type V = Channels;

    open spec fn view(&self) -> Channels {
        match self {
            ChannelData::Mono(samples) => Channels::Mono(samples@),
            ChannelData::Stereo(left, right) => Channels::Stereo(left@, right@),
        }
    }
}

impl View for SoundOutputPacket {
    type V = Packet;

    open spec fn view(&self) -> Packet {
        match self {
            SoundOutputPacket::End { length, channel_data } => Packet::End {
                length: *length,
                channel_data: match channel_data {
                    Some(data) => Some(data@),
                    None => None,
                },
            },
            SoundOutputPacket::Data { channel_data } => Packet::Data {
                channel_data: channel_data@,
            },
        }
    }
}

/// Byte `k` (0 to 3, least significant first) of a sample.
pub open spec fn sample_byte(sample: u32, k: int) -> u8 {
    if k == 0 {
        (sample % 256) as u8
    } else if k == 1 {
        (sample / 256 % 256) as u8
    } else if k == 2 {
        (sample / 65536 % 256) as u8
    } else {
        (sample / 16777216 % 256) as u8
    }
}

/// The sample whose four bytes, least significant first, are given.
pub open spec fn sample_of(b0: u8, b1: u8, b2: u8, b3: u8) -> u32 {
    (b0 + 256 * b1 + 65536 * b2 + 16777216 * b3) as u32
}

/// The samples of one channel laid out as bytes, four per sample.
pub open spec fn encode_samples(samples: Seq<u32>) -> Seq<u8> {
    Seq::new(4 * samples.len(), |i: int| sample_byte(samples[i / 4], i % 4))
}

/// The samples that a run of bytes holds: one per complete group of four
/// bytes. Up to three bytes at the end that form no group are ignored.
pub open spec fn decode_samples(bytes: Seq<u8>) -> Seq<u32> {
    Seq::new(
        bytes.len() / 4,
        |i: int| sample_of(bytes[4 * i], bytes[4 * i + 1], bytes[4 * i + 2], bytes[4 * i + 3]),
    )
}

impl Channels {
    /// The bytes that stand for this chunk: the tag, then each channel in turn.
    pub open spec fn wire(self) -> Seq<u8> {
        match self {
            Channels::Mono(samples) => seq![MONO_TAG] + encode_samples(samples),
            Channels::Stereo(left, right) => seq![STEREO_TAG] + encode_samples(left)
                + encode_samples(right),
        }
    }

    /// What a byte string means as channel data with `chunk_size` samples
    /// per channel.
    ///
    /// Mono data holds every complete sample after the tag. Stereo data holds
    /// `chunk_size` samples of the first channel and then the second channel,
    /// which ends with the input or after `chunk_size` samples, whichever
    /// comes first.
    pub open spec fn parse(bytes: Seq<u8>, chunk_size: nat) -> Result<Channels, DecodeError> {
        if bytes.len() == 0 {
            Err(DecodeError::MissingTagByte)
        } else if bytes[0] == MONO_TAG {
            Ok(Channels::Mono(decode_samples(bytes.skip(1))))
        } else if bytes[0] == STEREO_TAG {
            let body = bytes.skip(1);
            let channel = 4 * chunk_size as int;
            if chunk_size == 0 {
                Ok(Channels::Stereo(Seq::empty(), Seq::empty()))
            } else if body.len() == 0 {
                Err(DecodeError::MissingFirstChannel)
            } else if body.len() <= channel {
                Err(DecodeError::MissingSecondChannel)
            } else {
                let end = if body.len() < 2 * channel {
                    body.len() as int
                } else {
                    2 * channel
                };
                Ok(
                    Channels::Stereo(
                        decode_samples(body.subrange(0, channel)),
                        decode_samples(body.subrange(channel, end)),
                    ),
                )
            }
        } else {
            Err(DecodeError::UnexpectedTag(bytes[0]))
        }
    }

    /// Number of samples on each channel, where the channels agree.
    pub open spec fn samples_per_channel(self) -> nat {
        match self {
            Channels::Mono(samples) => samples.len(),
            Channels::Stereo(left, _) => left.len(),
        }
    }

    /// Both channels of stereo data have the same length.
    pub open spec fn balanced(self) -> bool {
        match self {
            Channels::Mono(_) => true,
            Channels::Stereo(left, right) => left.len() == right.len(),
        }
    }
}

/// Appends the four bytes of each sample, in order.
fn push_samples(out: &mut Vec<u8>, samples: &Vec<u32>)
    ensures
        final(out)@ == old(out)@ + encode_samples(samples@),
{
    let ghost before = out@;
    let mut i: usize = 0;
    while i < samples.len()
        invariant
            i <= samples.len(),
            out@.len() == before.len() + 4 * i,
            forall|j: int| 0 <= j < before.len() ==> out@[j] == before[j],
            forall|j: int|
                before.len() <= j < out@.len() ==> #[trigger] out@[j] == sample_byte(
                    samples@[(j - before.len()) / 4],
                    (j - before.len()) % 4,
                ),
        decreases samples.len() - i,
    {
        let sample = samples[i];
        out.push((sample % 256) as u8);
        out.push((sample / 256 % 256) as u8);
        out.push((sample / 65536 % 256) as u8);
        out.push((sample / 16777216 % 256) as u8);
        i += 1;
    }
    assert(out@ =~= before + encode_samples(samples@));
}

/// Reads the complete samples that lie in `data` from `start` up to `end`.
fn read_samples(data: &[u8], start: usize, end: usize) -> (samples: Vec<u32>)
    requires
        start <= end <= data@.len(),
    ensures
        samples@ == decode_samples(data@.subrange(start as int, end as int)),
{
    let ghost bytes = data@.subrange(start as int, end as int);
    let count = (end - start) / 4;
    let mut samples: Vec<u32> = Vec::new();
    let mut i: usize = 0;
    while i < count
        invariant
            i <= count,
            count == (end - start) / 4,
            start <= end <= data@.len(),
            bytes == data@.subrange(start as int, end as int),
            samples@.len() == i,
            forall|j: int| 0 <= j < i ==> samples@[j] == decode_samples(bytes)[j],
        decreases count - i,
    {
        let at = start + 4 * i;
        let b0 = data[at];
        let b1 = data[at + 1];
        let b2 = data[at + 2];
        let b3 = data[at + 3];
        let sample: u32 = b0 as u32 + 256 * (b1 as u32) + 65536 * (b2 as u32) + 16777216 * (
        b3 as u32);
        samples.push(sample);
        i += 1;
    }
    assert(samples@ =~= decode_samples(bytes));
    samples
}

impl ChannelData {
    /// Lays the chunk out as bytes: the tag, then every sample of each channel.
    pub fn encode(&self) -> (bytes: Vec<u8>)
        ensures
            bytes@ == self@.wire(),
    {
        let mut bytes: Vec<u8> = Vec::new();
        match self {
            ChannelData::Mono(samples) => {
                bytes.push(MONO_TAG);
                push_samples(&mut bytes, samples);
            },
            ChannelData::Stereo(left, right) => {
                bytes.push(STEREO_TAG);
                push_samples(&mut bytes, left);
                push_samples(&mut bytes, right);
            },
        }
        assert(bytes@ =~= self@.wire());
        bytes
    }

    /// Reads channel data with `chunk_size` samples per channel.
    pub fn decode(data: &[u8], chunk_size: usize) -> (decoded: Result<ChannelData, DecodeError>)
        ensures
            match decoded {
                Ok(channels) => Channels::parse(data@, chunk_size as nat) == Ok::<
                    Channels,
                    DecodeError,
                >(channels@),
                Err(error) => Channels::parse(data@, chunk_size as nat) == Err::<
                    Channels,
                    DecodeError,
                >(error),
            },
    {
        assert(data@.skip(0) =~= data@);
        Self::decode_from(data, 0, chunk_size)
    }

    /// Reads channel data that starts at offset `start` of `data`.
    fn decode_from(data: &[u8], start: usize, chunk_size: usize) -> (decoded: Result<
        ChannelData,
        DecodeError,
    >)
        requires
            start <= data@.len(),
        ensures
            match decoded {
                Ok(channels) => Channels::parse(data@.skip(start as int), chunk_size as nat) == Ok::<
                    Channels,
                    DecodeError,
                >(channels@),
                Err(error) => Channels::parse(data@.skip(start as int), chunk_size as nat) == Err::<
                    Channels,
                    DecodeError,
                >(error),
            },
    {
        let ghost bytes = data@.skip(start as int);
        if start == data.len() {
            return Err(DecodeError::MissingTagByte);
        }
        let tag = data[start];
        let body_start = start + 1;
        let body_len = data.len() - body_start;
        let ghost body = bytes.skip(1);
        assert(body =~= data@.skip(body_start as int));
        if tag == MONO_TAG {
            let samples = read_samples(data, body_start, data.len());
            assert(data@.subrange(body_start as int, data@.len() as int) =~= body);
            Ok(ChannelData::Mono(samples))
        } else if tag == STEREO_TAG {
            if chunk_size == 0 {
                let left: Vec<u32> = Vec::new();
                let right: Vec<u32> = Vec::new();
                assert(left@ =~= Seq::<u32>::empty());
                Ok(ChannelData::Stereo(left, right))
            } else if body_len == 0 {
                Err(DecodeError::MissingFirstChannel)
            } else if body_len / 4 < chunk_size || (body_len / 4 == chunk_size && body_len % 4
                == 0) {
                Err(DecodeError::MissingSecondChannel)
            } else {
                let channel = 4 * chunk_size;
                let middle = body_start + channel;
                let end = if body_len - channel < channel {
                    data.len()
                } else {
                    middle + channel
                };
                let left = read_samples(data, body_start, middle);
                let right = read_samples(data, middle, end);
                assert(data@.subrange(body_start as int, middle as int) =~= body.subrange(
                    0,
                    channel as int,
                ));
                assert(data@.subrange(middle as int, end as int) =~= body.subrange(
                    channel as int,
                    end - body_start,
                ));
                Ok(ChannelData::Stereo(left, right))
            }
        } else {
            Err(DecodeError::UnexpectedTag(tag))
        }
    }
}

impl Packet {
    /// The bytes that stand for this packet.
    ///
    /// An end packet is its tag, the residual length in two bytes, least
    /// significant first, and then the channel data, if it has any. A data
    /// packet is its tag and then the channel data.
    pub open spec fn wire(self) -> Seq<u8> {
        match self {
            Packet::End { length, channel_data } => {
                let head = seq![END_TAG, (length % 256) as u8, (length / 256) as u8];
                match channel_data {
                    Some(data) => head + data.wire(),
                    None => head,
                }
            },
            Packet::Data { channel_data } => seq![DATA_TAG] + channel_data.wire(),
        }
    }

    /// What a byte string means as a packet of a stream whose full chunks
    /// hold `chunk_size` samples per channel.
    ///
    /// The channel data of an end packet is read only when the residual
    /// length is not zero, and then with that length as its chunk size.
    pub open spec fn parse(bytes: Seq<u8>, chunk_size: nat) -> Result<Packet, DecodeError> {
        if bytes.len() == 0 {
            Err(DecodeError::MissingTagByte)
        } else if bytes[0] == END_TAG {
            if bytes.len() < 3 {
                Err(DecodeError::MissingLength)
            } else {
                let length = (bytes[1] + 256 * bytes[2]) as u16;
                if length == 0 {
                    Ok(Packet::End { length, channel_data: None })
                } else {
                    match Channels::parse(bytes.skip(3), length as nat) {
                        Ok(data) => Ok(Packet::End { length, channel_data: Some(data) }),
                        Err(error) => Err(error),
                    }
                }
            }
        } else if bytes[0] == DATA_TAG {
            match Channels::parse(bytes.skip(1), chunk_size) {
                Ok(data) => Ok(Packet::Data { channel_data: data }),
                Err(error) => Err(error),
            }
        } else {
            Err(DecodeError::UnexpectedTag(bytes[0]))
        }
    }

    /// The packet is one that a stream with `chunk_size` samples per channel
    /// in a full chunk can hold: stereo data is balanced and of the length
    /// that the packet announces, and an end packet carries channel data
    /// exactly when its residual length is not zero.
    pub open spec fn well_formed(self, chunk_size: nat) -> bool {
        match self {
            Packet::End { length, channel_data } => match channel_data {
                Some(data) => length != 0 && data.fills(length as nat),
                None => length == 0,
            },
            Packet::Data { channel_data } => channel_data.fills(chunk_size),
        }
    }
}

impl Channels {
    /// The data can be read back with `chunk_size` samples per channel: it is
    /// mono, or stereo with that many samples on either channel.
    pub open spec fn fills(self, chunk_size: nat) -> bool {
        match self {
            Channels::Mono(_) => true,
            Channels::Stereo(left, right) => left.len() == chunk_size && right.len() == chunk_size,
        }
    }
}

/// The four bytes of a sample, put together again, are the sample.
pub proof fn lemma_sample_round_trip(sample: u32)
    ensures
        sample_of(
            sample_byte(sample, 0),
            sample_byte(sample, 1),
            sample_byte(sample, 2),
            sample_byte(sample, 3),
        ) == sample,
{
    let low = sample as int % 65536;
    let high = sample as int / 65536;
    assert(sample == 65536 * high + low);
    assert(low == 256 * (low / 256) + low % 256);
    assert(high == 256 * (high / 256) + high % 256);
    assert(low % 256 == sample as int % 256);
    assert(low / 256 == sample as int / 256 % 256);
    assert(high % 256 == sample as int / 65536 % 256);
    assert(high / 256 == sample as int / 16777216);
}

/// Reading the bytes of a run of samples gives the samples back.
pub proof fn lemma_samples_round_trip(samples: Seq<u32>)
    ensures
        encode_samples(samples).len() == 4 * samples.len(),
        decode_samples(encode_samples(samples)) == samples,
{
    let bytes = encode_samples(samples);
    assert forall|i: int| 0 <= i < samples.len() implies decode_samples(bytes)[i]
        == samples[i] by {
        lemma_sample_round_trip(samples[i]);
        assert(bytes[4 * i] == sample_byte(samples[i], 0));
        assert(bytes[4 * i + 1] == sample_byte(samples[i], 1));
        assert(bytes[4 * i + 2] == sample_byte(samples[i], 2));
        assert(bytes[4 * i + 3] == sample_byte(samples[i], 3));
    }
    assert(decode_samples(bytes) =~= samples);
}

/// Channel data survives a round trip: what `wire` writes, `parse` reads
/// back, given the number of samples per channel. For mono data any chunk
/// size will do.
pub proof fn lemma_channels_round_trip(data: Channels, chunk_size: nat)
    requires
        data.fills(chunk_size),
    ensures
        Channels::parse(data.wire(), chunk_size) == Ok::<Channels, DecodeError>(data),
{
    let bytes = data.wire();
    match data {
        Channels::Mono(samples) => {
            lemma_samples_round_trip(samples);
            assert(bytes.skip(1) =~= encode_samples(samples));
        },
        Channels::Stereo(left, right) => {
            lemma_samples_round_trip(left);
            lemma_samples_round_trip(right);
            let body = bytes.skip(1);
            let channel = 4 * chunk_size as int;
            assert(body =~= encode_samples(left) + encode_samples(right));
            if chunk_size == 0 {
                assert(left =~= Seq::<u32>::empty());
                assert(right =~= Seq::<u32>::empty());
            } else {
                assert(body.subrange(0, channel) =~= encode_samples(left));
                assert(body.subrange(channel, 2 * channel) =~= encode_samples(right));
            }
        },
    }
}

/// A well-formed packet survives a round trip: its kind, its residual length
/// and its channel data all come back.
pub proof fn lemma_packet_round_trip(packet: Packet, chunk_size: nat)
    requires
        packet.well_formed(chunk_size),
    ensures
        Packet::parse(packet.wire(), chunk_size) == Ok::<Packet, DecodeError>(packet),
{
    let bytes = packet.wire();
    match packet {
        Packet::End { length, channel_data } => {
            assert((bytes[1] + 256 * bytes[2]) as u16 == length);
            match channel_data {
                Some(data) => {
                    lemma_channels_round_trip(data, length as nat);
                    assert(bytes.skip(3) =~= data.wire());
                },
                None => {},
            }
        },
        Packet::Data { channel_data } => {
            lemma_channels_round_trip(channel_data, chunk_size);
            assert(bytes.skip(1) =~= channel_data.wire());
        },
    }
}

impl SoundOutputPacket {
    /// Lays the packet out as bytes.
    pub fn encode(&self) -> (bytes: Vec<u8>)
        ensures
            bytes@ == self@.wire(),
    {
        let mut bytes: Vec<u8> = Vec::new();
        match self {
            SoundOutputPacket::End { length, channel_data } => {
                bytes.push(END_TAG);
                bytes.push((*length % 256) as u8);
                bytes.push((*length / 256) as u8);
                match channel_data {
                    Some(data) => {
                        let mut tail = data.encode();
                        bytes.append(&mut tail);
                    },
                    None => {},
                }
            },
            SoundOutputPacket::Data { channel_data } => {
                bytes.push(DATA_TAG);
                let mut tail = channel_data.encode();
                bytes.append(&mut tail);
            },
        }
        assert(bytes@ =~= self@.wire());
        bytes
    }

    /// Reads one packet of a stream whose full chunks hold `chunk_size`
    /// samples per channel.
    pub fn decode(data: &[u8], chunk_size: usize) -> (decoded: Result<
        SoundOutputPacket,
        DecodeError,
    >)
        ensures
            match decoded {
                Ok(packet) => Packet::parse(data@, chunk_size as nat) == Ok::<Packet, DecodeError>(
                    packet@,
                ),
                Err(error) => Packet::parse(data@, chunk_size as nat) == Err::<
                    Packet,
                    DecodeError,
                >(error),
            },
    {
        if data.len() == 0 {
            return Err(DecodeError::MissingTagByte);
        }
        let tag = data[0];
        if tag == END_TAG {
            if data.len() < 3 {
                return Err(DecodeError::MissingLength);
            }
            let length: u16 = data[1] as u16 + 256 * (data[2] as u16);
            if length == 0 {
                Ok(SoundOutputPacket::End { length, channel_data: None })
            } else {
                match ChannelData::decode_from(data, 3, length as usize) {
                    Ok(channels) => Ok(
                        SoundOutputPacket::End { length, channel_data: Some(channels) },
                    ),
                    Err(error) => Err(error),
                }
            }
        } else if tag == DATA_TAG {
            match ChannelData::decode_from(data, 1, chunk_size) {
                Ok(channels) => Ok(SoundOutputPacket::Data { channel_data: channels }),
                Err(error) => Err(error),
            }
        } else {
            Err(DecodeError::UnexpectedTag(tag))
        }
    }
}

} // verus!
