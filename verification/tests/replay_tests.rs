use supershuckie_replay_recorder::emulator::check_replay_compatibility;
use supershuckie_replay_recorder::emulator::ReplayPlayerAttachError;
use supershuckie_replay_recorder::replay_file::command::apply_command;
use supershuckie_replay_recorder::replay_file::playback::decompress_blob;
use supershuckie_replay_recorder::replay_file::command::RecorderCommand;
use supershuckie_replay_recorder::replay_file::record::ReplayFileRecorder;
use supershuckie_replay_recorder::replay_file::ReplayConsoleType;
use supershuckie_replay_recorder::replay_file::ReplayFileMetadata;
use supershuckie_replay_recorder::replay_file::ReplayFilePlayer;
use supershuckie_replay_recorder::replay_file::ReplayFileReadError;
use supershuckie_replay_recorder::replay_file::ReplayFileRecorderSettings;
use supershuckie_replay_recorder::replay_file::ReplayFileWriteError;
use supershuckie_replay_recorder::replay_file::ReplayPatchFormat;
use supershuckie_replay_recorder::replay_file::ReplaySeekError;
use supershuckie_replay_recorder::Packet;
use supershuckie_replay_recorder::Speed;

fn sample_metadata() -> ReplayFileMetadata {
    ReplayFileMetadata {
        console_type: ReplayConsoleType::GameBoy,
        rom_name: String::from("TESTROM"),
        rom_filename: String::from("test.gb"),
        rom_checksum: [1u8; 32],
        bios_checksum: [2u8; 32],
        emulator_core_name: String::from("testcore 1.0"),
        patch_format: ReplayPatchFormat::Unpatched,
        patch_target_checksum: [0u8; 32],
    }
}

fn settings_with_threshold(threshold: usize) -> ReplayFileRecorderSettings {
    let mut s = ReplayFileRecorderSettings::default();
    s.minimum_uncompressed_bytes_per_blob = threshold;
    s
}

fn new_recorder(threshold: usize) -> ReplayFileRecorder<Vec<u8>, Vec<u8>> {
    ReplayFileRecorder::new_with_metadata(
        sample_metadata(),
        vec![],
        settings_with_threshold(threshold),
        0,
        vec![0u8],
        Speed::normal(),
        vec![0xAA, 0xBB],
        Vec::new(),
        Vec::new(),
    )
    .expect("recorder")
}

/// Collects every flattened packet of the player.
fn drain(player: &mut ReplayFilePlayer) -> Vec<Packet> {
    let mut out = Vec::new();
    loop {
        match player.next_packet().expect("next_packet") {
            Some(p) => out.push(p),
            None => break,
        }
    }
    out
}

fn record_session(threshold: usize) -> Vec<u8> {
    let mut rec = new_recorder(threshold);
    for _ in 0..10 {
        rec.next_frame();
    }
    rec.set_input(vec![1]).expect("set_input");
    rec.write_memory(0xC000, vec![1, 2, 3]).expect("write_memory");
    for _ in 0..5 {
        rec.next_frame();
    }
    rec.set_speed(Speed { speed_over_256: 512 }).expect("set_speed");
    rec.reset_console().expect("reset");
    rec.load_save_state(vec![4, 5, 6]).expect("load");
    rec.add_bookmark(String::from("halfway")).expect("bookmark");
    rec.insert_keyframe(vec![0xCC], 1234).expect("keyframe");
    for _ in 0..3 {
        rec.next_frame();
    }
    let (final_sink, temp_sink) = rec.close().expect("close");
    // crash-safety: after a clean close the staging sink holds the same
    // committed bytes as the final sink
    assert_eq!(final_sink, temp_sink);
    final_sink
}

fn expected_session_effects() -> Vec<Packet> {
    vec![
        Packet::Keyframe {
            metadata: supershuckie_replay_recorder::KeyframeMetadata {
                input: vec![0u8],
                speed: Speed::normal(),
                elapsed_frames: 0,
                elapsed_millis: 0,
            },
            state: vec![0xAA, 0xBB],
        },
        Packet::RunFrames { frames: 10 },
        Packet::ChangeInput { data: vec![1] },
        Packet::WriteMemory { address: 0xC000, data: vec![1, 2, 3] },
        Packet::RunFrames { frames: 5 },
        Packet::ChangeSpeed { speed: Speed { speed_over_256: 512 } },
        Packet::ResetConsole,
        Packet::LoadSaveState { state: vec![4, 5, 6] },
        Packet::Bookmark {
            metadata: supershuckie_replay_recorder::BookmarkMetadata {
                name: String::from("halfway"),
                elapsed_frames: 15,
                elapsed_millis: 0,
            },
        },
        Packet::Keyframe {
            metadata: supershuckie_replay_recorder::KeyframeMetadata {
                input: vec![1u8],
                speed: Speed { speed_over_256: 512 },
                elapsed_frames: 15,
                elapsed_millis: 1234,
            },
            state: vec![0xCC],
        },
        Packet::RunFrames { frames: 3 },
    ]
}

#[test]
fn round_trip_default_threshold() {
    let file = record_session(usize::MAX);
    let mut player = ReplayFilePlayer::new(file.as_slice(), false).expect("load");
    assert_eq!(drain(&mut player), expected_session_effects());
}

#[test]
fn round_trip_tiny_threshold() {
    // a rollover on every keyframe insertion must not change the effects
    let file = record_session(1);
    let mut player = ReplayFilePlayer::new(file.as_slice(), false).expect("load");
    assert_eq!(drain(&mut player), expected_session_effects());
}

#[test]
fn round_trip_metadata_and_patch() {
    let mut rec: ReplayFileRecorder<Vec<u8>, Vec<u8>> = ReplayFileRecorder::new_with_metadata(
        sample_metadata(),
        vec![0xDE, 0xAD],
        ReplayFileRecorderSettings::default(),
        5,
        vec![],
        Speed::normal(),
        vec![1],
        Vec::new(),
        Vec::new(),
    )
    .expect("recorder");
    let (file, _) = rec.close().expect("close");
    let player = ReplayFilePlayer::new(file.as_slice(), false).expect("load");
    assert_eq!(*player.get_replay_metadata(), sample_metadata());
    assert_eq!(player.get_patch_data().expect("patch"), &vec![0xDE, 0xAD]);
}

#[test]
fn dedup_identical_input_emits_one_packet() {
    let mut rec = new_recorder(usize::MAX);
    rec.set_input(vec![7, 7]).expect("first");
    rec.set_input(vec![7, 7]).expect("second");
    rec.set_speed(Speed { speed_over_256: 300 }).expect("speed");
    rec.set_speed(Speed { speed_over_256: 300 }).expect("speed again");
    let (file, _) = rec.close().expect("close");
    let mut player = ReplayFilePlayer::new(file.as_slice(), false).expect("load");
    let packets = drain(&mut player);
    let inputs = packets
        .iter()
        .filter(|p| matches!(p, Packet::ChangeInput { .. }))
        .count();
    let speeds = packets
        .iter()
        .filter(|p| matches!(p, Packet::ChangeSpeed { .. }))
        .count();
    assert_eq!(inputs, 1);
    assert_eq!(speeds, 1);
}

#[test]
fn run_length_packing_in_stream() {
    let mut rec = new_recorder(usize::MAX);
    for _ in 0..200 {
        rec.next_frame();
    }
    rec.reset_console().expect("reset");
    let (file, _) = rec.close().expect("close");
    let mut player = ReplayFilePlayer::new(file.as_slice(), false).expect("load");
    let packets = drain(&mut player);
    let runs: Vec<&Packet> = packets
        .iter()
        .filter(|p| matches!(p, Packet::RunFrames { .. }))
        .collect();
    assert_eq!(runs.len(), 1);
    assert_eq!(*runs[0], Packet::RunFrames { frames: 200 });
}

#[test]
fn keyframe_zero_always_seekable() {
    let mut rec = new_recorder(usize::MAX);
    let (file, _) = rec.close().expect("close");
    let mut player = ReplayFilePlayer::new(file.as_slice(), false).expect("load");
    player.go_to_keyframe(0).expect("seek to 0");
    match player.next_packet().expect("next") {
        Some(Packet::Keyframe { metadata, .. }) => assert_eq!(metadata.elapsed_frames, 0),
        other => panic!("expected the initial keyframe, got {other:?}"),
    }
}

#[test]
fn missing_initial_keyframe_is_rejected() {
    // a file whose packet stream starts with something other than a
    // keyframe is invalid regardless of corruption tolerance
    let mut file = sample_metadata().as_raw_header(0).expect("header");
    Packet::RunFrames { frames: 5 }.write_to(&mut file);
    for tolerant in [false, true] {
        match ReplayFilePlayer::new(file.as_slice(), tolerant) {
            Err(ReplayFileReadError::InvalidReplayFile { .. }) => {}
            Err(other) => panic!("expected InvalidReplayFile, got {other:?}"),
            Ok(_) => panic!("expected InvalidReplayFile, got a player"),
        }
    }
}

#[test]
fn empty_file_is_rejected() {
    let file = sample_metadata().as_raw_header(0).expect("header");
    match ReplayFilePlayer::new(file.as_slice(), false) {
        Err(ReplayFileReadError::InvalidReplayFile { .. }) => {}
        Err(other) => panic!("expected InvalidReplayFile, got {other:?}"),
        Ok(_) => panic!("expected InvalidReplayFile, got a player"),
    }
    match ReplayFilePlayer::new(&[], false) {
        Err(ReplayFileReadError::InvalidReplayFile { .. }) => {}
        Err(other) => panic!("expected InvalidReplayFile, got {other:?}"),
        Ok(_) => panic!("expected InvalidReplayFile, got a player"),
    }
}

fn three_keyframe_file() -> Vec<u8> {
    let mut rec = new_recorder(usize::MAX);
    for _ in 0..60 {
        rec.next_frame();
    }
    rec.insert_keyframe(vec![0x60], 600).expect("kf60");
    rec.set_input(vec![9]).expect("input");
    for _ in 0..60 {
        rec.next_frame();
    }
    rec.insert_keyframe(vec![0x12], 1200).expect("kf120");
    let (file, _) = rec.close().expect("close");
    file
}

#[test]
fn seek_miss_reports_best() {
    let file = three_keyframe_file();
    let mut player = ReplayFilePlayer::new(file.as_slice(), false).expect("load");
    match player.go_to_keyframe(85) {
        Err(ReplaySeekError::NoSuchKeyframe { given, best }) => {
            assert_eq!(given, 85);
            assert_eq!(best, 60);
        }
        other => panic!("expected NoSuchKeyframe, got {other:?}"),
    }
    match player.go_to_keyframe(1000) {
        Err(ReplaySeekError::NoSuchKeyframe { given, best }) => {
            assert_eq!(given, 1000);
            assert_eq!(best, 120);
        }
        other => panic!("expected NoSuchKeyframe, got {other:?}"),
    }
}

#[test]
fn seek_exact_positions_at_keyframe() {
    let file = three_keyframe_file();
    let mut player = ReplayFilePlayer::new(file.as_slice(), false).expect("load");
    player.go_to_keyframe(60).expect("seek");
    match player.next_packet().expect("next") {
        Some(Packet::Keyframe { metadata, .. }) => assert_eq!(metadata.elapsed_frames, 60),
        other => panic!("expected keyframe at 60, got {other:?}"),
    }
    // the packet recorded immediately after that keyframe was captured
    match player.next_packet().expect("next") {
        Some(Packet::ChangeInput { data }) => assert_eq!(data, vec![9]),
        other => panic!("expected the input change, got {other:?}"),
    }
}

#[test]
fn corrupted_blob_fails_explicitly() {
    let file = record_session(usize::MAX);
    let player = ReplayFilePlayer::new(file.as_slice(), false).expect("load");
    // rebuild the file with one byte of compressed data flipped; the
    // sidecar lists stay intact, so the file still loads, but decoding the
    // blob must report an error rather than wrong packets
    let mut rebuilt = sample_metadata().as_raw_header(0).expect("header");
    for p in player.all_uncompressed_packets() {
        match p {
            Packet::CompressedBlob { keyframes, bookmarks, compressed_data, uncompressed_size } => {
                let mut corrupted = compressed_data.clone();
                corrupted[0] ^= 0xFF;
                Packet::CompressedBlob {
                    keyframes: keyframes.clone(),
                    bookmarks: bookmarks.clone(),
                    compressed_data: corrupted,
                    uncompressed_size: *uncompressed_size,
                }
                .write_to(&mut rebuilt);
            }
            other => other.clone().write_to(&mut rebuilt),
        }
    }
    let mut player2 = ReplayFilePlayer::new(rebuilt.as_slice(), false).expect("load corrupted");
    let mut failed = false;
    loop {
        match player2.next_packet() {
            Ok(Some(_)) => {}
            Ok(None) => break,
            Err(_) => {
                failed = true;
                break;
            }
        }
    }
    assert!(failed, "a corrupted blob must fail to decode, not decode silently wrong");
}

#[test]
fn scenario_two_hundred_frames() {
    let mut rec = new_recorder(1);
    let mut inputs_done = 0;
    for frame in 1..=200u64 {
        rec.next_frame();
        if frame % 60 == 0 {
            rec.insert_keyframe(vec![frame as u8], frame * 10).expect("keyframe");
        }
        if frame % 50 == 0 && inputs_done < 3 {
            rec.set_input(vec![frame as u8]).expect("input");
            inputs_done += 1;
        }
        if frame == 100 {
            rec.set_speed(Speed { speed_over_256: 128 }).expect("speed");
        }
    }
    rec.add_bookmark(String::from("end")).expect("bookmark");
    let (file, _) = rec.close().expect("close");
    let mut player = ReplayFilePlayer::new(file.as_slice(), false).expect("load");

    let kf_frames: Vec<u64> = player
        .all_keyframes()
        .iter()
        .map(|k| k.elapsed_frames)
        .collect();
    assert_eq!(kf_frames, vec![0, 60, 120, 180]);
    let bm_names: Vec<String> = player.all_bookmarks().iter().map(|b| b.name.clone()).collect();
    assert_eq!(bm_names, vec![String::from("end")]);

    let packets = drain(&mut player);
    let total: u64 = packets
        .iter()
        .map(|p| match p {
            Packet::RunFrames { frames } => *frames,
            _ => 0,
        })
        .sum();
    assert_eq!(total, 200);
    let input_changes = packets
        .iter()
        .filter(|p| matches!(p, Packet::ChangeInput { .. }))
        .count();
    assert_eq!(input_changes, 3);
    let speed_changes = packets
        .iter()
        .filter(|p| matches!(p, Packet::ChangeSpeed { .. }))
        .count();
    assert_eq!(speed_changes, 1);
}

#[test]
fn closed_recorder_reports_stream_closed() {
    let mut rec = new_recorder(usize::MAX);
    let _ = rec.close().expect("close");
    match rec.set_input(vec![1]) {
        Err(ReplayFileWriteError::StreamClosed) => {}
        other => panic!("expected StreamClosed, got {other:?}"),
    }
    match rec.insert_keyframe(vec![], 99999) {
        Err(ReplayFileWriteError::StreamClosed) => {}
        other => panic!("expected StreamClosed, got {other:?}"),
    }
    assert!(rec.is_closed());
}

#[test]
fn command_dispatch_records_like_direct_calls() {
    let mut rec = new_recorder(usize::MAX);
    apply_command(&mut rec, RecorderCommand::NextFrame).expect("frame");
    apply_command(&mut rec, RecorderCommand::SetInput { input: vec![3] }).expect("input");
    apply_command(&mut rec, RecorderCommand::WriteMemory { address: 16, data: vec![1] })
        .expect("memory");
    apply_command(&mut rec, RecorderCommand::ResetConsole).expect("reset");
    apply_command(&mut rec, RecorderCommand::Close).expect("close command");
    match apply_command(
        &mut rec,
        RecorderCommand::SetSpeed { speed: Speed { speed_over_256: 0 } },
    ) {
        Err(ReplayFileWriteError::BadInput { .. }) => {}
        other => panic!("expected BadInput, got {other:?}"),
    }
    let (file, _) = rec.close().expect("close");
    let mut player = ReplayFilePlayer::new(file.as_slice(), false).expect("load");
    let packets = drain(&mut player);
    assert!(packets.contains(&Packet::RunFrames { frames: 1 }));
    assert!(packets.contains(&Packet::ChangeInput { data: vec![3] }));
    assert!(packets.contains(&Packet::WriteMemory { address: 16, data: vec![1] }));
    assert!(packets.contains(&Packet::ResetConsole));
}

#[test]
fn compatibility_check_warns_and_overrides() {
    let m = sample_metadata();
    // matching everything passes
    check_replay_compatibility(
        &m,
        Some(ReplayConsoleType::GameBoy),
        &[1u8; 32],
        &[2u8; 32],
        "testcore 1.0",
        false,
    )
    .expect("matching");
    // console mismatch is always fatal
    match check_replay_compatibility(
        &m,
        Some(ReplayConsoleType::NintendoDS),
        &[1u8; 32],
        &[2u8; 32],
        "testcore 1.0",
        true,
    ) {
        Err(ReplayPlayerAttachError::Incompatible { .. }) => {}
        other => panic!("expected Incompatible, got {other:?}"),
    }
    // checksum mismatch is a recoverable warning
    match check_replay_compatibility(
        &m,
        Some(ReplayConsoleType::GameBoy),
        &[9u8; 32],
        &[2u8; 32],
        "other core",
        false,
    ) {
        Err(ReplayPlayerAttachError::MismatchedMetadata { issues }) => {
            assert_eq!(issues.len(), 2);
        }
        other => panic!("expected MismatchedMetadata, got {other:?}"),
    }
    // and the override accepts it
    check_replay_compatibility(
        &m,
        Some(ReplayConsoleType::GameBoy),
        &[9u8; 32],
        &[2u8; 32],
        "other core",
        true,
    )
    .expect("override");
}

#[test]
fn total_frames_reported() {
    let file = three_keyframe_file();
    let player = ReplayFilePlayer::new(file.as_slice(), false).expect("load");
    assert_eq!(player.get_total_frames(), 120);
}

#[test]
fn duplicate_keyframe_frames_are_indexed() {
    let mut rec = new_recorder(usize::MAX);
    rec.insert_keyframe(vec![1], 10).expect("again at 0");
    let (file, _) = rec.close().expect("close");
    let mut player = ReplayFilePlayer::new(file.as_slice(), false).expect("load");
    assert_eq!(player.all_keyframes().len(), 2);
    player.go_to_keyframe(0).expect("seek");
    match player.next_packet().expect("next") {
        Some(Packet::Keyframe { metadata, .. }) => {
            assert_eq!(metadata.elapsed_frames, 0);
            assert_eq!(metadata.elapsed_millis, 0);
        }
        other => panic!("expected the first keyframe, got {other:?}"),
    }
}

#[test]
fn header_error_carries_raw_code() {
    // an unknown console-type code is surfaced as the raw integer, in
    // hexadecimal, so callers can report it
    let mut bytes = sample_metadata().as_raw_header(0).expect("header");
    bytes[8] = 0x63;
    match supershuckie_replay_recorder::replay_file::header::parse_raw_header(bytes.as_slice()) {
        Err(message) => assert!(message.contains("0x00000063"), "got: {message}"),
        Ok(_) => panic!("expected a parse error"),
    }
}

#[test]
fn background_prefetch_installs_next_blob() {
    let file = record_session(1);
    let mut player = ReplayFilePlayer::new(file.as_slice(), false).expect("load");
    // the first target is a blob strictly beyond the cursor
    let target = player.next_prefetch_target().expect("a blob to prefetch");
    assert!(target > 0);
    let (compressed, size) = match &player.all_uncompressed_packets()[target] {
        Packet::CompressedBlob { compressed_data, uncompressed_size, .. } => {
            (compressed_data.clone(), *uncompressed_size)
        }
        other => panic!("target must be a compressed blob, got {other:?}"),
    };
    // what a worker runs, then handed back to the player
    let packets = decompress_blob(&compressed, size).expect("decompress");
    player.install_decompressed(target, packets);
    // the installed cache changes nothing observable
    assert_eq!(drain(&mut player), expected_session_effects());
    // decompress_blob reports corruption instead of wrong packets
    let mut corrupted = compressed.clone();
    corrupted[0] ^= 0xFF;
    assert!(decompress_blob(&corrupted, size).is_err());
}
