use dawstream::wire::{ChannelData, DecodeError, SoundOutputPacket};

fn bits(value: f32) -> u32 {
    value.to_bits()
}

#[test]
fn test_channel_data_mono() -> Result<(), String> {
    // given
    let channel_data = ChannelData::Mono(vec![bits(13.0); 44100]);

    // when
    let bytes = channel_data.encode();

    // then
    assert_eq!(
        ChannelData::decode(&bytes, 44100).map_err(|error| error.message())?,
        channel_data
    );
    Ok(())
}

#[test]
fn test_channel_data_stereo() -> Result<(), String> {
    // given
    let channel_data = ChannelData::Stereo(vec![bits(13.0); 44100], vec![bits(15.0); 44100]);

    // when
    let bytes = channel_data.encode();

    // then
    assert_eq!(
        ChannelData::decode(&bytes, 44100).map_err(|error| error.message())?,
        channel_data
    );
    Ok(())
}

#[test]
fn mono_bytes_are_tag_then_little_endian_samples() {
    let data = ChannelData::Mono(vec![bits(1.0), bits(-2.5), 0x0102_0304]);
    assert_eq!(
        data.encode(),
        vec![0x01, 0x00, 0x00, 0x80, 0x3F, 0x00, 0x00, 0x20, 0xC0, 0x04, 0x03, 0x02, 0x01]
    );
    assert_eq!(1.0f32.to_le_bytes().to_vec(), data.encode()[1..5].to_vec());
    assert_eq!((-2.5f32).to_le_bytes().to_vec(), data.encode()[5..9].to_vec());
}

#[test]
fn stereo_bytes_are_tag_then_left_then_right() {
    let data = ChannelData::Stereo(vec![1, 2], vec![3, 0xFFFF_FFFF]);
    assert_eq!(
        data.encode(),
        vec![0x02, 1, 0, 0, 0, 2, 0, 0, 0, 3, 0, 0, 0, 0xFF, 0xFF, 0xFF, 0xFF]
    );
}

#[test]
fn empty_channel_data_round_trips() {
    let mono = ChannelData::Mono(vec![]);
    assert_eq!(mono.encode(), vec![0x01]);
    assert_eq!(ChannelData::decode(&mono.encode(), 0), Ok(mono));
    let stereo = ChannelData::Stereo(vec![], vec![]);
    assert_eq!(stereo.encode(), vec![0x02]);
    assert_eq!(ChannelData::decode(&stereo.encode(), 0), Ok(stereo));
}

#[test]
fn mono_ignores_the_chunk_size_and_an_incomplete_sample() {
    let bytes = vec![0x01, 1, 0, 0, 0, 2, 0, 0, 0, 9, 9];
    assert_eq!(ChannelData::decode(&bytes, 1), Ok(ChannelData::Mono(vec![1, 2])));
    assert_eq!(ChannelData::decode(&bytes, 77), Ok(ChannelData::Mono(vec![1, 2])));
}

#[test]
fn stereo_splits_at_the_chunk_size() {
    let bytes = vec![0x02, 1, 0, 0, 0, 2, 0, 0, 0, 3, 0, 0, 0, 4, 0, 0, 0];
    assert_eq!(
        ChannelData::decode(&bytes, 2),
        Ok(ChannelData::Stereo(vec![1, 2], vec![3, 4]))
    );
    assert_eq!(
        ChannelData::decode(&bytes, 1),
        Ok(ChannelData::Stereo(vec![1], vec![2]))
    );
    assert_eq!(
        ChannelData::decode(&bytes, 3),
        Ok(ChannelData::Stereo(vec![1, 2, 3], vec![4]))
    );
}

#[test]
fn channel_data_errors() {
    assert_eq!(ChannelData::decode(&[], 4), Err(DecodeError::MissingTagByte));
    assert_eq!(ChannelData::decode(&[0x00], 4), Err(DecodeError::UnexpectedTag(0)));
    assert_eq!(ChannelData::decode(&[0x03, 1, 2], 4), Err(DecodeError::UnexpectedTag(3)));
    assert_eq!(ChannelData::decode(&[0x02], 4), Err(DecodeError::MissingFirstChannel));
    assert_eq!(
        ChannelData::decode(&[0x02, 1, 0, 0, 0], 1),
        Err(DecodeError::MissingSecondChannel)
    );
    assert_eq!(
        ChannelData::decode(&[0x02, 1, 0, 0, 0, 2, 0], 4),
        Err(DecodeError::MissingSecondChannel)
    );
    assert_eq!(
        ChannelData::decode(&[0x02, 1, 0, 0, 0], usize::MAX),
        Err(DecodeError::MissingSecondChannel)
    );
}

#[test]
fn data_packet_round_trips() {
    let packet = SoundOutputPacket::Data {
        channel_data: ChannelData::Mono(vec![bits(0.25), bits(-0.75), bits(0.0)]),
    };
    let bytes = packet.encode();
    assert_eq!(bytes[0], 0x01);
    assert_eq!(bytes[1], 0x01);
    assert_eq!(bytes.len(), 2 + 3 * 4);
    assert_eq!(SoundOutputPacket::decode(&bytes, 3), Ok(packet));
}

#[test]
fn stereo_data_packet_round_trips() {
    let packet = SoundOutputPacket::Data {
        channel_data: ChannelData::Stereo(vec![bits(0.5); 7], vec![bits(-0.5); 7]),
    };
    assert_eq!(SoundOutputPacket::decode(&packet.encode(), 7), Ok(packet));
}

#[test]
fn end_packet_without_data_is_three_bytes() {
    let packet = SoundOutputPacket::End { length: 0, channel_data: None };
    assert_eq!(packet.encode(), vec![0x00, 0x00, 0x00]);
    assert_eq!(SoundOutputPacket::decode(&[0x00, 0x00, 0x00], 44100), Ok(packet));
}

#[test]
fn end_packet_carries_its_length_low_byte_first() {
    let packet = SoundOutputPacket::End {
        length: 0x0102,
        channel_data: Some(ChannelData::Mono(vec![bits(1.5); 0x0102])),
    };
    let bytes = packet.encode();
    assert_eq!(bytes[..4].to_vec(), vec![0x00, 0x02, 0x01, 0x01]);
    assert_eq!(bytes.len(), 4 + 4 * 0x0102);
    assert_eq!(SoundOutputPacket::decode(&bytes, 44100), Ok(packet));
}

#[test]
fn end_packet_reads_stereo_with_its_own_length() {
    let packet = SoundOutputPacket::End {
        length: 2,
        channel_data: Some(ChannelData::Stereo(vec![10, 11], vec![12, 13])),
    };
    assert_eq!(SoundOutputPacket::decode(&packet.encode(), 44100), Ok(packet));
}

#[test]
fn packet_errors() {
    assert_eq!(SoundOutputPacket::decode(&[], 1), Err(DecodeError::MissingTagByte));
    assert_eq!(SoundOutputPacket::decode(&[0x00], 1), Err(DecodeError::MissingLength));
    assert_eq!(SoundOutputPacket::decode(&[0x00, 0x05], 1), Err(DecodeError::MissingLength));
    assert_eq!(SoundOutputPacket::decode(&[0x02, 0x01], 1), Err(DecodeError::UnexpectedTag(2)));
    assert_eq!(SoundOutputPacket::decode(&[0x01], 1), Err(DecodeError::MissingTagByte));
    assert_eq!(
        SoundOutputPacket::decode(&[0x00, 0x01, 0x00], 1),
        Err(DecodeError::MissingTagByte)
    );
    assert_eq!(
        SoundOutputPacket::decode(&[0x00, 0x01, 0x00, 0x07], 1),
        Err(DecodeError::UnexpectedTag(7))
    );
    assert_eq!(
        SoundOutputPacket::decode(&[0x01, 0x02], 1),
        Err(DecodeError::MissingFirstChannel)
    );
    assert_eq!(
        SoundOutputPacket::decode(&[0x01, 0x02, 0, 0, 0, 0], 1),
        Err(DecodeError::MissingSecondChannel)
    );
}

#[test]
fn error_messages() {
    assert_eq!(DecodeError::MissingTagByte.message(), "Missing tag byte.");
    assert_eq!(DecodeError::UnexpectedTag(7).message(), "Unexpected tag byte value 7.");
    assert_eq!(DecodeError::UnexpectedTag(40).message(), "Unexpected tag byte value 40.");
    assert_eq!(DecodeError::UnexpectedTag(255).message(), "Unexpected tag byte value 255.");
    assert_eq!(DecodeError::MissingLength.message(), "Missing residual length.");
    assert_eq!(DecodeError::MissingFirstChannel.message(), "Missing First Channel Data.");
    assert_eq!(DecodeError::MissingSecondChannel.message(), "Missing Second Channel Data.");
}
