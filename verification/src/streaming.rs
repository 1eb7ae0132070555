//! From chunks to packets: how a rendered stream is framed for delivery.
//!
//! A stream is pulled from the music box in chunks of [`CHUNK_SIZE`]
//! samples. Every full chunk travels in a data packet. The chunk at which
//! the stream ends is short, possibly empty, and travels in the one end
//! packet that closes the stream.

use crate::performance::Performance;
use crate::wire::{lemma_packet_round_trip, ChannelData, Channels, DecodeError, Packet};
use crate::wire::SoundOutputPacket;
use vstd::prelude::*;

verus! {

/// Number of samples in a full chunk: one second at the render sample rate,
/// whatever the tempo.
pub const CHUNK_SIZE: usize = 44100;

/// The packet that carries a chunk: a data packet for a full chunk, and for
/// a short one the end packet, which names the number of samples and holds
/// them unless there are none.
pub open spec fn packet_of(samples: Seq<u32>, full: bool) -> Packet {
    if full {
        Packet::Data { channel_data: Channels::Mono(samples) }
    } else {
        Packet::End {
            length: samples.len() as u16,
            channel_data: if samples.len() == 0 {
                None
            } else {
                Some(Channels::Mono(samples))
            },
        }
    }
}

/// Frames the samples of one chunk, `Ok` for a full chunk and `Err` for
/// the short chunk that ends the stream.
pub fn packet_for(chunk: Result<Vec<u32>, Vec<u32>>) -> (packet: SoundOutputPacket)
    requires
        chunk matches Err(rest) ==> rest@.len() <= u16::MAX,
    ensures
        chunk matches Ok(samples) ==> packet@ == packet_of(samples@, true),
        chunk matches Err(rest) ==> packet@ == packet_of(rest@, false),
{
    match chunk {
        Ok(samples) => SoundOutputPacket::Data { channel_data: ChannelData::Mono(samples) },
        Err(rest) => {
            let length = rest.len() as u16;
            let channel_data = if length != 0 {
                Some(ChannelData::Mono(rest))
            } else {
                None
            };
            SoundOutputPacket::End { length, channel_data }
        },
    }
}

/// Number of data packets in the stream of a box.
pub open spec fn data_packets(performance: Performance) -> nat {
    performance.total_samples() / CHUNK_SIZE as nat
}

/// Residual length that the end packet of the stream of a box names.
pub open spec fn residual_length(performance: Performance) -> nat {
    performance.total_samples() % CHUNK_SIZE as nat
}

/// The stream of a box is as many data packets as there are full chunks in
/// its samples, and then one end packet that names the number of samples
/// left over: pull number `data_packets` is the first short one, and it
/// holds `residual_length` samples, which the length field of the end
/// packet can hold.
pub proof fn lemma_stream_shape(performance: Performance)
    requires
        performance.well_formed(),
    ensures
        forall|pull: nat|
            pull < data_packets(performance) ==> (#[trigger] performance.after(
                pull * CHUNK_SIZE as nat,
            )).plays(CHUNK_SIZE as nat),
        performance.after(data_packets(performance) * CHUNK_SIZE as nat).ends_after(
            residual_length(performance),
        ),
        residual_length(performance) < CHUNK_SIZE <= u16::MAX,
        data_packets(performance) * CHUNK_SIZE + residual_length(performance)
            == performance.total_samples(),
{
    performance.lemma_chunk_count(CHUNK_SIZE as nat);
    vstd::arithmetic::div_mod::lemma_fundamental_div_mod(
        performance.total_samples() as int,
        CHUNK_SIZE as int,
    );
    assert(data_packets(performance) * CHUNK_SIZE == CHUNK_SIZE * data_packets(performance))
        by (nonlinear_arith);
}

/// The packet of any chunk survives a round trip over the wire, whatever
/// chunk size the reader expects.
pub proof fn lemma_packet_of_round_trip(samples: Seq<u32>, full: bool, chunk_size: nat)
    requires
        !full ==> samples.len() <= u16::MAX,
    ensures
        Packet::parse(packet_of(samples, full).wire(), chunk_size) == Ok::<Packet, DecodeError>(
            packet_of(samples, full),
        ),
{
    lemma_packet_round_trip(packet_of(samples, full), chunk_size);
}

} // verus!
