use engine_sound::decode::{
    check_chunks, normalize, read_wav_f32, DecodeError, SampleData, WavHeader, FULL_SCALE,
};

fn chunk(name: &[u8; 4], body: &[u8]) -> Vec<u8> {
    let mut out = Vec::new();
    out.extend_from_slice(name);
    out.extend_from_slice(&(body.len() as u32).to_le_bytes());
    out.extend_from_slice(body);
    if body.len() % 2 == 1 {
        out.push(0);
    }
    out
}

fn format_chunk(bits: u16, rate: u32) -> Vec<u8> {
    let mut body = Vec::new();
    body.extend_from_slice(&1u16.to_le_bytes());
    body.extend_from_slice(&1u16.to_le_bytes());
    body.extend_from_slice(&rate.to_le_bytes());
    body.extend_from_slice(&(rate * (bits as u32 / 8)).to_le_bytes());
    body.extend_from_slice(&(bits / 8).to_le_bytes());
    body.extend_from_slice(&bits.to_le_bytes());
    chunk(b"fmt ", &body)
}

fn wave_file(chunks: &[Vec<u8>]) -> Vec<u8> {
    let mut body = Vec::new();
    body.extend_from_slice(b"WAVE");
    for c in chunks {
        body.extend_from_slice(c);
    }
    let mut out = Vec::new();
    out.extend_from_slice(b"RIFF");
    out.extend_from_slice(&(body.len() as u32).to_le_bytes());
    out.extend_from_slice(&body);
    out
}

#[test]
fn eight_bit_file_is_scaled_by_255() {
    let file = wave_file(&[format_chunk(8, 44100), chunk(b"data", &[0, 255, 51, 128])]);
    let (header, frames) = read_wav_f32(&file).unwrap();
    assert_eq!(
        header,
        WavHeader {
            audio_format: 1,
            channel_count: 1,
            sampling_rate: 44100,
            bytes_per_second: 44100,
            bytes_per_sample: 1,
            bits_per_sample: 8,
        }
    );
    assert_eq!(frames, vec![0, FULL_SCALE, 429496729, 1077952575]);
}

#[test]
fn sixteen_bit_file_is_scaled_by_32768() {
    let mut data = Vec::new();
    for s in [0i16, 16384, -16384, i16::MIN, i16::MAX, -1] {
        data.extend_from_slice(&s.to_le_bytes());
    }
    let file = wave_file(&[format_chunk(16, 48000), chunk(b"data", &data)]);
    let (header, frames) = read_wav_f32(&file).unwrap();
    assert_eq!(header.sampling_rate, 48000);
    assert_eq!(header.bits_per_sample, 16);
    assert_eq!(
        frames,
        vec![0, 1073741823, -1073741824, -FULL_SCALE, 2147418111, -65536]
    );
}

#[test]
fn twenty_four_bit_file_is_scaled_by_the_full_range() {
    let data = [0u8, 0, 0, 0, 0, 0x80, 0xFF, 0xFF, 0x7F, 0, 0, 0x40];
    let file = wave_file(&[format_chunk(24, 44100), chunk(b"data", &data)]);
    let (_, frames) = read_wav_f32(&file).unwrap();
    assert_eq!(frames, vec![0, -FULL_SCALE, 2147483391, 1073741823]);
}

#[test]
fn chunks_between_format_and_data_are_passed_over() {
    let file = wave_file(&[
        format_chunk(8, 8000),
        chunk(b"LIST", &[1, 2, 3]),
        chunk(b"data", &[255]),
    ]);
    let (_, frames) = read_wav_f32(&file).unwrap();
    assert_eq!(frames, vec![FULL_SCALE]);
}

#[test]
fn file_written_by_the_decoder_s_own_writer_reads_back() {
    let mut file = std::io::Cursor::new(Vec::new());
    let header = wav::Header::new(1, 1, 22050, 16);
    wav::write(header, &wav::BitDepth::Sixteen(vec![32767, -32768, 1]), &mut file).unwrap();
    let (read, frames) = read_wav_f32(file.get_ref()).unwrap();
    assert_eq!(read.sampling_rate, 22050);
    assert_eq!(read.bytes_per_second, 44100);
    assert_eq!(frames, vec![2147418111, -FULL_SCALE, 65535]);
}

#[test]
fn short_file_is_rejected() {
    assert!(check_chunks(b"RIFF"));
    assert_eq!(read_wav_f32(b"RIFF"), Err(DecodeError::Rejected));
    assert_eq!(read_wav_f32(b""), Err(DecodeError::Rejected));
}

#[test]
fn other_form_type_is_rejected() {
    let mut file = wave_file(&[format_chunk(8, 8000), chunk(b"data", &[1])]);
    file[8..12].copy_from_slice(b"AVI ");
    assert!(check_chunks(&file));
    assert_eq!(read_wav_f32(&file), Err(DecodeError::Rejected));
}

#[test]
fn form_type_that_is_no_text_is_malformed() {
    let mut file = wave_file(&[format_chunk(8, 8000), chunk(b"data", &[1])]);
    file[9] = 0xFF;
    assert!(!check_chunks(&file));
    assert_eq!(read_wav_f32(&file), Err(DecodeError::Malformed));
}

#[test]
fn chunk_name_that_is_no_text_is_malformed() {
    let mut file = wave_file(&[format_chunk(8, 8000), chunk(b"data", &[1, 2])]);
    let at = file.len() - 10;
    file[at] = 0xC0;
    assert_eq!(read_wav_f32(&file), Err(DecodeError::Malformed));
}

#[test]
fn file_cut_within_a_chunk_header_is_malformed() {
    let file = wave_file(&[format_chunk(16, 8000), chunk(b"data", &[1, 2, 3, 4])]);
    assert_eq!(file.len(), 48);
    for cut in 13..44 {
        assert!(!check_chunks(&file[..cut]), "cut at {}", cut);
        assert_eq!(read_wav_f32(&file[..cut]), Err(DecodeError::Malformed), "cut at {}", cut);
    }
}

#[test]
fn file_cut_within_the_data_is_rejected() {
    let file = wave_file(&[format_chunk(16, 8000), chunk(b"data", &[1, 2, 3, 4])]);
    for cut in 44..48 {
        assert!(check_chunks(&file[..cut]), "cut at {}", cut);
        assert_eq!(read_wav_f32(&file[..cut]), Err(DecodeError::Rejected), "cut at {}", cut);
    }
}

#[test]
fn last_chunk_cut_short_is_passed_over() {
    let file = wave_file(&[
        format_chunk(8, 8000),
        chunk(b"data", &[255, 0]),
        chunk(b"LIST", &[1, 2, 3, 4, 5, 6]),
    ]);
    for cut in file.len() - 6..file.len() {
        let (_, frames) = read_wav_f32(&file[..cut]).unwrap();
        assert_eq!(frames, vec![FULL_SCALE, 0]);
    }
}

#[test]
fn chunk_named_in_text_that_is_not_ascii_is_passed_over() {
    let file = wave_file(&[
        format_chunk(8, 8000),
        chunk(&[0xC3, 0xA9, 0x61, 0x62], &[1, 2]),
        chunk(&[0xF0, 0x9F, 0x8E, 0xB5], &[]),
        chunk(b"data", &[255]),
    ]);
    let (_, frames) = read_wav_f32(&file).unwrap();
    assert_eq!(frames, vec![FULL_SCALE]);
}

#[test]
fn form_type_in_text_that_is_not_ascii_is_rejected() {
    let mut file = wave_file(&[format_chunk(8, 8000), chunk(b"data", &[1])]);
    file[8..12].copy_from_slice(&[0xE2, 0x82, 0xAC, 0x20]);
    assert!(check_chunks(&file));
    assert_eq!(read_wav_f32(&file), Err(DecodeError::Rejected));
}

#[test]
fn chunk_name_cut_off_in_the_middle_of_a_character_is_malformed() {
    for name in [[0x61, 0x62, 0x63, 0xC3], [0xED, 0xA0, 0x80, 0x20], [0xF4, 0x90, 0x80, 0x80]] {
        let file = wave_file(&[format_chunk(8, 8000), chunk(&name, &[]), chunk(b"data", &[1])]);
        assert_eq!(read_wav_f32(&file), Err(DecodeError::Malformed));
    }
}

#[test]
fn outer_length_beyond_the_file_is_malformed() {
    let mut file = wave_file(&[format_chunk(8, 8000), chunk(b"data", &[1, 2])]);
    let longer = (file.len() as u32).to_le_bytes();
    file[4..8].copy_from_slice(&longer);
    assert_eq!(read_wav_f32(&file), Err(DecodeError::Malformed));
}

#[test]
fn odd_last_chunk_without_its_pad_byte_is_read() {
    let mut file = wave_file(&[format_chunk(8, 8000), chunk(b"data", &[7, 8, 9])]);
    file.pop();
    let (_, frames) = read_wav_f32(&file).unwrap();
    assert_eq!(frames.len(), 3);
}

#[test]
fn missing_format_chunk_is_rejected() {
    let file = wave_file(&[chunk(b"data", &[1, 2])]);
    assert_eq!(read_wav_f32(&file), Err(DecodeError::Rejected));
}

#[test]
fn missing_data_chunk_is_rejected() {
    let file = wave_file(&[format_chunk(8, 8000)]);
    assert_eq!(read_wav_f32(&file), Err(DecodeError::Rejected));
}

#[test]
fn unsupported_depth_is_rejected() {
    let file = wave_file(&[format_chunk(32, 8000), chunk(b"data", &[1, 2, 3, 4])]);
    assert_eq!(read_wav_f32(&file), Err(DecodeError::Rejected));
}

#[test]
fn compressed_format_is_rejected() {
    let mut file = wave_file(&[format_chunk(8, 8000), chunk(b"data", &[1, 2])]);
    file[20] = 2;
    assert_eq!(read_wav_f32(&file), Err(DecodeError::Rejected));
}

#[test]
fn empty_payload_gives_an_empty_buffer() {
    assert_eq!(normalize(&SampleData::Empty), Vec::<i32>::new());
    assert_eq!(normalize(&SampleData::Eight(vec![])), Vec::<i32>::new());
}

#[test]
fn amplitudes_stay_within_full_scale() {
    let frames = normalize(&SampleData::TwentyFour(vec![i32::MIN, i32::MAX, -256, 256]));
    assert_eq!(frames, vec![-FULL_SCALE, 2147483646, -256, 255]);
    let frames = normalize(&SampleData::Sixteen(vec![i16::MIN, i16::MAX]));
    assert_eq!(frames, vec![-FULL_SCALE, 2147418111]);
    let frames = normalize(&SampleData::Eight(vec![0, 1, 254, 255]));
    assert_eq!(frames, vec![0, 8421504, 2139062142, FULL_SCALE]);
}
