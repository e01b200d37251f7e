use supershuckie_replay_recorder::codec::read_bytes_field;
use supershuckie_replay_recorder::codec::read_str_field;
use supershuckie_replay_recorder::codec::read_uint;
use supershuckie_replay_recorder::codec::write_bytes_field;
use supershuckie_replay_recorder::codec::write_str_field;
use supershuckie_replay_recorder::codec::write_uint;
use supershuckie_replay_recorder::replay_file::header::parse_raw_header;
use supershuckie_replay_recorder::replay_file::header::REPLAY_HEADER_SIZE;
use supershuckie_replay_recorder::replay_file::blake3_hash_to_ascii;
use supershuckie_replay_recorder::replay_file::ReplayConsoleType;
use supershuckie_replay_recorder::replay_file::ReplayFileMetadata;
use supershuckie_replay_recorder::replay_file::ReplayPatchFormat;
use supershuckie_replay_recorder::settings::Control;
use supershuckie_replay_recorder::settings::ControlModifier;
use supershuckie_replay_recorder::settings::ControlSetting;
use supershuckie_replay_recorder::emulator::Input;
use supershuckie_replay_recorder::blake3_hash;
use supershuckie_replay_recorder::Packet;
use supershuckie_replay_recorder::PacketDiscriminator;
use supershuckie_replay_recorder::PacketReadError;
use supershuckie_replay_recorder::Speed;

fn sample_metadata() -> ReplayFileMetadata {
    ReplayFileMetadata {
        console_type: ReplayConsoleType::GameBoyColor,
        rom_name: String::from("POKEMON_SLV"),
        rom_filename: String::from("silver.gbc"),
        rom_checksum: [7u8; 32],
        bios_checksum: [9u8; 32],
        emulator_core_name: String::from("testcore 1.0"),
        patch_format: ReplayPatchFormat::Unpatched,
        patch_target_checksum: [0u8; 32],
    }
}

#[test]
fn uint_round_trip_values() {
    let values =
        [0u64, 1, 0x7F, 0x80, 0xFF, 0x100, 0xFFFF, 0x10000, 0xFFFF_FFFF, u64::MAX - 1, u64::MAX];
    for v in values {
        let mut out: Vec<u8> = Vec::new();
        write_uint(v, &mut out);
        let (back, end) = read_uint(out.as_slice(), 0).expect("decode");
        assert_eq!(back, v);
        assert_eq!(end, out.len());
    }
}

#[test]
fn uint_zero_is_one_byte() {
    let mut out: Vec<u8> = Vec::new();
    write_uint(0, &mut out);
    assert_eq!(out, vec![0u8]);
}

#[test]
fn uint_truncated_is_not_enough_data() {
    // length byte says four bytes follow but only two are present
    let data = [4u8, 1, 2];
    match read_uint(&data, 0) {
        Err(PacketReadError::NotEnoughData) => {}
        other => panic!("expected NotEnoughData, got {other:?}"),
    }
}

#[test]
fn uint_bad_length_is_parse_fail() {
    let data = [9u8, 1, 2, 3, 4, 5, 6, 7, 8, 9];
    match read_uint(&data, 0) {
        Err(PacketReadError::ParseFail { .. }) => {}
        other => panic!("expected ParseFail, got {other:?}"),
    }
}

#[test]
fn bytes_and_string_round_trip() {
    let mut out: Vec<u8> = Vec::new();
    write_bytes_field(&[1, 2, 3, 250], &mut out);
    let (b, end) = read_bytes_field(out.as_slice(), 0).expect("decode");
    assert_eq!(b, vec![1, 2, 3, 250]);
    assert_eq!(end, out.len());

    let mut out2: Vec<u8> = Vec::new();
    write_str_field("snörkel-⅚", &mut out2);
    let (s, end2) = read_str_field(out2.as_slice(), 0).expect("decode");
    assert_eq!(s, "snörkel-⅚");
    assert_eq!(end2, out2.len());
}

#[test]
fn string_invalid_utf8_is_parse_fail() {
    // length prefix of 2, then an invalid UTF-8 sequence
    let data = [1u8, 2, 0xC3, 0x28];
    match read_str_field(&data, 0) {
        Err(PacketReadError::ParseFail { .. }) => {}
        other => panic!("expected ParseFail, got {other:?}"),
    }
}

fn packet_round_trip(p: Packet) {
    let mut out: Vec<u8> = Vec::new();
    p.write_to(&mut out);
    let (back, end) = Packet::read_all(out.as_slice(), 0).expect("decode");
    assert_eq!(back, p);
    assert_eq!(end, out.len());
}

#[test]
fn packet_round_trips() {
    packet_round_trip(Packet::NoOp);
    packet_round_trip(Packet::ResetConsole);
    packet_round_trip(Packet::RunFrames { frames: 1 });
    packet_round_trip(Packet::RunFrames { frames: 127 });
    packet_round_trip(Packet::RunFrames { frames: 128 });
    packet_round_trip(Packet::RunFrames { frames: 1_000_000 });
    packet_round_trip(Packet::ChangeInput { data: vec![5] });
    packet_round_trip(Packet::ChangeInput { data: vec![5, 6] });
    packet_round_trip(Packet::ChangeInput { data: vec![5, 6, 7] });
    packet_round_trip(Packet::ChangeInput { data: vec![5, 6, 7, 8] });
    packet_round_trip(Packet::ChangeInput { data: vec![] });
    packet_round_trip(Packet::WriteMemory { address: 0xC000, data: vec![1] });
    packet_round_trip(Packet::WriteMemory { address: 0xC000, data: vec![1, 2, 3, 4, 5] });
    packet_round_trip(Packet::ChangeSpeed { speed: Speed { speed_over_256: 512 } });
    packet_round_trip(Packet::LoadSaveState { state: vec![9; 100] });
}

#[test]
fn run_length_packing_byte_forms() {
    // counts 1..=127 use the single discriminator byte carrying the count
    let mut out: Vec<u8> = Vec::new();
    Packet::RunFrames { frames: 5 }.write_to(&mut out);
    assert_eq!(out, vec![5u8]);

    let mut out127: Vec<u8> = Vec::new();
    Packet::RunFrames { frames: 127 }.write_to(&mut out127);
    assert_eq!(out127, vec![127u8]);

    // counts of 128 and above use the escape byte and the compact count
    let mut out200: Vec<u8> = Vec::new();
    Packet::RunFrames { frames: 200 }.write_to(&mut out200);
    assert_eq!(out200, vec![0x80u8, 1, 200]);
}

#[test]
fn unknown_discriminator_is_parse_fail() {
    let data = [0x90u8];
    match Packet::read_all(&data, 0) {
        Err(PacketReadError::ParseFail { .. }) => {}
        other => panic!("expected ParseFail, got {other:?}"),
    }
}

#[test]
fn zero_speed_is_parse_fail() {
    // 0xF2 is the change-speed discriminator; a zero u16 follows
    let data = [0xF2u8, 0, 0];
    match Packet::read_all(&data, 0) {
        Err(PacketReadError::ParseFail { .. }) => {}
        other => panic!("expected ParseFail, got {other:?}"),
    }
}

#[test]
fn discriminator_bytes() {
    assert_eq!(PacketDiscriminator::NoOp.byte(), 0x00);
    assert_eq!(PacketDiscriminator::RunFrameVar.byte(), 0x80);
    assert_eq!(PacketDiscriminator::ChangeInputVar.byte(), 0x84);
    assert_eq!(PacketDiscriminator::WriteMemoryVar.byte(), 0x88);
    assert_eq!(PacketDiscriminator::Keyframe.byte(), 0xF0);
    assert_eq!(PacketDiscriminator::Bookmark.byte(), 0xF1);
    assert_eq!(PacketDiscriminator::ChangeSpeed.byte(), 0xF2);
    assert_eq!(PacketDiscriminator::ResetConsole.byte(), 0xF3);
    assert_eq!(PacketDiscriminator::LoadSaveState.byte(), 0xF4);
    assert_eq!(PacketDiscriminator::CompressedBlob.byte(), 0xFE);
}

#[test]
fn header_round_trip() {
    let m = sample_metadata();
    let bytes = m.as_raw_header(77).expect("header");
    assert_eq!(bytes.len(), REPLAY_HEADER_SIZE);
    let (back, patch_len) = parse_raw_header(bytes.as_slice()).expect("parse");
    assert_eq!(back, m);
    assert_eq!(patch_len, 77);
}

#[test]
fn header_rejects_bad_magic_and_version() {
    let m = sample_metadata();
    let mut bytes = m.as_raw_header(0).expect("header");
    bytes[0] = 0x00;
    assert!(parse_raw_header(bytes.as_slice()).is_err());

    let mut bytes2 = m.as_raw_header(0).expect("header");
    bytes2[4] = 99;
    assert!(parse_raw_header(bytes2.as_slice()).is_err());

    let mut bytes3 = m.as_raw_header(0).expect("header");
    bytes3[2047] = 0;
    assert!(parse_raw_header(bytes3.as_slice()).is_err());
}

#[test]
fn header_rejects_too_long_string() {
    let mut m = sample_metadata();
    m.rom_name = "x".repeat(256);
    assert!(m.as_raw_header(0).is_err());
}

#[test]
fn blake3_known_digest() {
    let hash = blake3_hash(b"");
    let ascii = blake3_hash_to_ascii(hash);
    assert_eq!(
        ascii,
        "AF1349B9F5F9A1A6A0404DEA36DCC9499BCB25C9ADC112B7CC9A93CAE41F3262"
    );
    assert_eq!(ascii.len(), 64);
}

#[test]
fn console_type_names_and_codes() {
    assert_eq!(ReplayConsoleType::GameBoy.name(), "Game Boy");
    assert_eq!(ReplayConsoleType::NintendoDS.name(), "Nintendo DS");
    assert_eq!(ReplayConsoleType::from_code(3), Some(ReplayConsoleType::GameBoyColor));
    assert_eq!(ReplayConsoleType::from_code(77), None);
    assert_eq!(ReplayConsoleType::GameBoyAdvance.as_code(), 4);
    assert_eq!(ReplayPatchFormat::from_code(1), Some(ReplayPatchFormat::BPS));
    assert_eq!(ReplayPatchFormat::from_code(9), None);
}

#[test]
fn control_setting_packs_and_unpacks() {
    let s = ControlSetting { control: Control::Select, modifier: ControlModifier::Toggle };
    let packed = s.as_u64();
    let back = ControlSetting::from_u64(packed).expect("unpack");
    assert_eq!(back.control.as_code(), Control::Select.as_code());
    assert_eq!(back.modifier.as_code(), ControlModifier::Toggle.as_code());
    assert!(ControlSetting::from_u64(u64::MAX).is_none());
}

#[test]
fn control_is_button() {
    assert!(Control::A.is_button());
    assert!(Control::Up.is_button());
    assert!(!Control::Turbo.is_button());
    assert!(!Control::Reset.is_button());
    assert!(!Control::Pause.is_button());
    assert!(ControlModifier::Normal.is_default());
    assert!(!ControlModifier::Rapid.is_default());
}

#[test]
fn input_new_is_empty() {
    let i = Input::new();
    assert!(i.is_empty());
    let mut j = Input::new();
    j.a = true;
    assert!(!j.is_empty());
    let mut k = Input::new();
    k.touch = Some((10, 20));
    assert!(!k.is_empty());
}
