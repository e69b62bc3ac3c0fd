use mfl_audit::mfl_format::{
    decode_signed_sample, AxisTag, FileHeader, FrameHeader, FILE_HEADER_SIZE, FRAME_HEADER_SIZE,
    MFL_MAGIC,
};
use mfl_audit::stream_parser::ParseError;
use mfl_audit::MflStream;

fn header_bytes(num_channels: u16, num_axes: u8) -> Vec<u8> {
    let mut hdr = vec![0u8; 64];
    hdr[0..4].copy_from_slice(&[0x4D, 0x46, 0x4C, 0x31]);
    hdr[4..6].copy_from_slice(&1u16.to_le_bytes());
    hdr[6..8].copy_from_slice(&num_channels.to_le_bytes());
    hdr[8] = num_axes;
    hdr[9] = 24;
    hdr[10..14].copy_from_slice(&1000u32.to_le_bytes());
    hdr[14..18].copy_from_slice(&508.0f32.to_le_bytes());
    hdr[18..22].copy_from_slice(&7.1f32.to_le_bytes());
    hdr[22..26].copy_from_slice(&1.0f32.to_le_bytes());
    hdr[26..34].copy_from_slice(&1700000000u64.to_le_bytes());
    hdr
}

fn create_test_mfl(num_channels: u16, num_axes: u8, num_frames: usize) -> Vec<u8> {
    let mut buf = header_bytes(num_channels, num_axes);
    let sample_bytes = 3usize;
    let frame_data = num_channels as usize * num_axes as usize * sample_bytes;
    for i in 0..num_frames {
        let mut fhdr = [0u8; 16];
        fhdr[0..4].copy_from_slice(&(i as u32).to_le_bytes());
        fhdr[4..8].copy_from_slice(&((i as u32) * 1000).to_le_bytes());
        let dist = i as f32 * 0.5;
        fhdr[8..12].copy_from_slice(&dist.to_le_bytes());
        fhdr[12..16].copy_from_slice(&500.0f32.to_le_bytes());
        buf.extend_from_slice(&fhdr);

        let mut data = vec![0u8; frame_data];
        for ch in 0..num_channels as usize {
            for ax in 0..num_axes as usize {
                let off = ch * (num_axes as usize) * sample_bytes + ax * sample_bytes;
                let val = (ch as i32 + ax as i32 + i as i32) % 256;
                let signed = if val > 127 { val - 256 } else { val };
                let unsigned = signed & 0xFFFFFF;
                data[off] = (unsigned & 0xFF) as u8;
                data[off + 1] = ((unsigned >> 8) & 0xFF) as u8;
                data[off + 2] = ((unsigned >> 16) & 0xFF) as u8;
            }
        }
        buf.extend_from_slice(&data);
    }
    buf
}

fn mfl_format_stream_open(bytes: Vec<u8>) -> MflStream {
    match MflStream::from_bytes(bytes) {
        Ok(s) => s,
        Err(e) => panic!("stream did not open: {:?}", e),
    }
}

#[test]
fn test_file_header_parse() {
    let stream = mfl_format_stream_open(create_test_mfl(16, 3, 10));
    let hdr = stream.header();
    assert_eq!(hdr.magic, [0x4D, 0x46, 0x4C, 0x31]);
    assert_eq!(hdr.version, 1);
    assert_eq!(hdr.num_channels, 16);
    assert_eq!(hdr.num_axes, 3);
    assert_eq!(hdr.sample_resolution_bits, 24);
    assert_eq!(hdr.frame_rate_hz, 1000);
}

#[test]
fn test_frame_count() {
    let stream = mfl_format_stream_open(create_test_mfl(8, 2, 50));
    assert_eq!(stream.num_frames(), 50);
}

#[test]
fn test_frame_header_parse() {
    let stream = mfl_format_stream_open(create_test_mfl(4, 1, 5));
    let f0 = stream.frame(0).unwrap();
    assert_eq!(f0.hdr.frame_index, 0);
    assert_eq!(f0.hdr.timestamp_us, 0);
    let f4 = stream.frame(4).unwrap();
    assert_eq!(f4.hdr.frame_index, 4);
    assert_eq!(f4.hdr.timestamp_us, 4000);
}

#[test]
fn test_decode_channel_axes() {
    let stream = mfl_format_stream_open(create_test_mfl(4, 2, 3));
    let frame = stream.frame(0).unwrap();
    let axes = stream.decode_channel_axes(&frame, 0);
    assert_eq!(axes.len(), 2);
}

#[test]
fn header_float_fields_keep_their_bits() {
    let stream = mfl_format_stream_open(create_test_mfl(16, 3, 1));
    let hdr = stream.header();
    assert_eq!(f32::from_bits(hdr.od_mm_bits), 508.0);
    assert_eq!(f32::from_bits(hdr.wall_thickness_mm_bits), 7.1);
    assert_eq!(f32::from_bits(hdr.sensor_spacing_deg_bits), 1.0);
    assert_eq!(hdr.timestamp_epoch, 1700000000);
}

#[test]
fn frame_geometry_of_header() {
    let stream = mfl_format_stream_open(create_test_mfl(16, 3, 1));
    let hdr = stream.header();
    assert_eq!(hdr.sample_bytes(), 3);
    assert_eq!(hdr.frame_data_bytes(), 16 * 3 * 3);
    assert_eq!(hdr.frame_total_bytes(), FRAME_HEADER_SIZE + 16 * 3 * 3);
}

#[test]
fn sample_bytes_rounds_up_and_has_a_floor() {
    let mut bytes = header_bytes(2, 1);
    bytes[9] = 8;
    assert_eq!(FileHeader::parse(&bytes).unwrap().sample_bytes(), 3);
    bytes[9] = 25;
    assert_eq!(FileHeader::parse(&bytes).unwrap().sample_bytes(), 4);
    bytes[9] = 32;
    assert_eq!(FileHeader::parse(&bytes).unwrap().sample_bytes(), 4);
    bytes[9] = 33;
    assert_eq!(FileHeader::parse(&bytes).unwrap().sample_bytes(), 5);
}

#[test]
fn header_parse_rejects_short_or_foreign_input() {
    let bytes = header_bytes(1, 1);
    assert!(FileHeader::parse(&bytes[..63]).is_none());
    let mut wrong = bytes.clone();
    wrong[3] = 0x32;
    assert!(FileHeader::parse(&wrong).is_none());
    assert!(FileHeader::parse(&bytes).is_some());
    assert_eq!(MFL_MAGIC, [0x4D, 0x46, 0x4C, 0x31]);
}

#[test]
fn open_truncated_stream_reports_sizes() {
    match MflStream::from_bytes(vec![0x4D, 0x46, 0x4C, 0x31, 0, 0]) {
        Err(ParseError::Truncated { got, need }) => {
            assert_eq!(got, 6);
            assert_eq!(need, FILE_HEADER_SIZE);
        }
        _ => panic!("expected Truncated"),
    }
}

#[test]
fn open_foreign_stream_reports_bad_magic() {
    let mut bytes = create_test_mfl(2, 1, 2);
    bytes[0] = b'X';
    assert!(matches!(MflStream::from_bytes(bytes), Err(ParseError::BadMagic)));
}

#[test]
fn frames_beyond_the_last_are_absent() {
    let mut bytes = create_test_mfl(4, 1, 5);
    bytes.extend_from_slice(&[1, 2, 3]);
    let stream = mfl_format_stream_open(bytes);
    assert_eq!(stream.num_frames(), 5);
    assert!(stream.frame(4).is_some());
    assert!(stream.frame(5).is_none());
    assert!(stream.frame(1000).is_none());
}

#[test]
fn frame_samples_are_the_frame_payload() {
    let stream = mfl_format_stream_open(create_test_mfl(4, 2, 3));
    let f = stream.frame(2).unwrap();
    assert_eq!(f.samples.len(), 4 * 2 * 3);
    assert_eq!(f32::from_bits(f.hdr.distance_mm_bits), 1.0);
    assert_eq!(f32::from_bits(f.hdr.velocity_mms_bits), 500.0);
    assert_eq!(f.hdr.flags, 0);
    assert_eq!(f.header.num_channels, 4);
}

#[test]
fn decoded_axes_match_written_values() {
    let stream = mfl_format_stream_open(create_test_mfl(4, 2, 200));
    let frame = stream.frame(130).unwrap();
    // channel 3, axes 0 and 1: (3 + a + 130) % 256, stored as signed 8-bit values.
    let axes = stream.decode_channel_axes(&frame, 3);
    assert_eq!(axes, vec![133 - 256, 134 - 256]);
    let axes = stream.decode_channel_axes(&frame, 0);
    assert_eq!(axes, vec![130 - 256, 131 - 256]);
}

#[test]
fn channels_past_the_frame_decode_to_nothing() {
    let stream = mfl_format_stream_open(create_test_mfl(4, 2, 3));
    let frame = stream.frame(0).unwrap();
    assert!(stream.decode_channel_axes(&frame, 4).is_empty());
    assert!(stream.decode_channel_axes(&frame, 60000).is_empty());
}

#[test]
fn iterator_yields_every_frame_in_order() {
    let stream = mfl_format_stream_open(create_test_mfl(3, 1, 7));
    let mut it = stream.iter_frames();
    assert_eq!(it.size_hint(), (7, Some(7)));
    let mut seen = Vec::new();
    while let Some(f) = it.next() {
        seen.push(f.hdr.frame_index);
    }
    assert_eq!(seen, vec![0, 1, 2, 3, 4, 5, 6]);
    assert_eq!(it.size_hint(), (0, Some(0)));
    assert!(it.next().is_none());
}

#[test]
fn decode_sign_extends_24_bit_samples() {
    assert_eq!(decode_signed_sample(&[0xFF, 0xFF, 0xFF], 24), -1);
    assert_eq!(decode_signed_sample(&[0x00, 0x00, 0x80], 24), -8_388_608);
    assert_eq!(decode_signed_sample(&[0xFF, 0xFF, 0x7F], 24), 8_388_607);
    assert_eq!(decode_signed_sample(&[0x34, 0x12, 0x00], 24), 0x1234);
}

#[test]
fn decode_other_widths() {
    assert_eq!(decode_signed_sample(&[0x80], 8), -128);
    assert_eq!(decode_signed_sample(&[0x7F], 8), 127);
    assert_eq!(decode_signed_sample(&[0x00, 0x08], 12), -2048);
    // Bits above the sample width are kept when the sign bit is clear.
    assert_eq!(decode_signed_sample(&[0x00, 0xF0], 12), 0xF000);
    assert_eq!(decode_signed_sample(&[0xFF, 0xFF, 0xFF, 0xFF], 32), -1);
    // Only as many bytes as the buffer holds are read.
    assert_eq!(decode_signed_sample(&[0xFF], 24), 0xFF);
    // Extra bytes beyond ceil(bits / 8) are ignored.
    assert_eq!(decode_signed_sample(&[0x01, 0x02, 0x03, 0x04], 16), 0x0201);
}

#[test]
fn decode_inverts_twos_complement_encoding() {
    for x in [-8_388_608i32, -65536, -1, 0, 1, 255, 8_388_607] {
        let u = (x & 0xFF_FFFF) as u32;
        let bytes = [u as u8, (u >> 8) as u8, (u >> 16) as u8];
        assert_eq!(decode_signed_sample(&bytes, 24), x);
    }
}

#[test]
fn axis_codes_round_trip() {
    for t in [AxisTag::Axial, AxisTag::Transverse, AxisTag::Radial] {
        assert_eq!(AxisTag::from_u8(t.to_u8()), Some(t));
    }
    assert_eq!(AxisTag::from_u8(0x02), Some(AxisTag::Transverse));
    assert_eq!(AxisTag::from_u8(0), None);
    assert_eq!(AxisTag::from_u8(4), None);
    assert_eq!(AxisTag::Radial.name(), "Radial");
    assert_eq!(AxisTag::Axial.name(), "Axial");
}

#[test]
fn frame_header_parse_needs_sixteen_bytes() {
    let mut b = [0u8; 16];
    b[0..4].copy_from_slice(&7u32.to_le_bytes());
    b[4..8].copy_from_slice(&99u32.to_le_bytes());
    let h = FrameHeader::parse(&b).unwrap();
    assert_eq!(h.frame_index, 7);
    assert_eq!(h.timestamp_us, 99);
    assert!(FrameHeader::parse(&b[..15]).is_none());
}
