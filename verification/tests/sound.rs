use sipcord_bridge::config::SoundEntry;
use sipcord_bridge::services::sound::streaming::{
    check_stream, first_audio_track, mix_s16, mix_s32, StreamingError, StreamingPlayer,
};
use sipcord_bridge::services::sound::{
    build_sound_path, create_sound_manager, detect_format, parse_audio, AudioFormat, ExtensionPlay,
    PreloadedSound, SoundError, SoundFile, SoundManager,
};

fn entry(src: Option<&str>, preload: bool, extension: Option<u32>) -> SoundEntry {
    SoundEntry { src: src.map(|s| s.to_string()), preload, extension }
}

fn manager() -> SoundManager {
    let entries = vec![
        ("connecting".to_string(), entry(Some("c.wav"), true, None)),
        ("discord_join".to_string(), entry(Some("j.wav"), true, None)),
        ("server_is_busy".to_string(), entry(Some("b.wav"), true, None)),
        ("egg".to_string(), entry(Some("sub/egg.flac"), false, Some(1234))),
        ("lost".to_string(), entry(Some("lost.flac"), false, Some(1235))),
        ("broken".to_string(), entry(Some("broken.wav"), true, None)),
        ("test_tone".to_string(), entry(None, false, Some(440))),
        ("abs".to_string(), entry(Some("/srv/a.flac"), false, None)),
    ];
    let files = vec![
        SoundFile::Samples(vec![1; 320]),
        SoundFile::Samples(vec![2; 16000]),
        SoundFile::Samples(vec![3; 24]),
        SoundFile::Present,
        SoundFile::Missing,
        SoundFile::Missing,
        SoundFile::Missing,
        SoundFile::Present,
    ];
    create_sound_manager("/wav", &entries, files)
}

#[test]
fn sounds_are_found() {
    let m = manager();
    assert_eq!(m.get_connecting_samples().unwrap().len(), 320);
    assert_eq!(m.get_discord_join_samples().unwrap().len(), 16000);
    assert_eq!(m.get_preloaded("discord_join").unwrap().duration_ms, 1000);
    assert_eq!(m.get_error_samples("server_is_busy").unwrap(), &vec![3; 24]);
    assert!(m.get_error_samples("unknown_error").is_none());
    assert!(m.get_preloaded("broken").is_none());
    assert!(m.is_streaming("egg"));
    assert!(!m.is_streaming("lost"));
    assert_eq!(m.get_streaming("egg").unwrap().path, "/wav/sub/egg.flac");
    assert_eq!(m.get_streaming("abs").unwrap().path, "/srv/a.flac");
    assert_eq!(m.get_extension_sound(1234), Some("egg"));
    assert_eq!(m.get_extension_sound(1235), Some("lost"));
    assert_eq!(m.get_extension_sound(1), None);
    assert_eq!(m.dialled_sound("440"), Some("test_tone"));
    assert_eq!(m.dialled_sound("0440"), Some("test_tone"));
    assert_eq!(m.dialled_sound("44x"), None);
    assert_eq!(m.dialled_sound("4294967736"), None);
    assert!(m.is_test_tone("test_tone"));
    assert!(!m.is_test_tone("egg"));
}

#[test]
fn extension_sounds_are_played() {
    let m = manager();
    assert_eq!(m.extension_play("test_tone"), ExtensionPlay::TestTone);
    assert_eq!(
        m.extension_play("egg"),
        ExtensionPlay::Stream { path: "/wav/sub/egg.flac".to_string() }
    );
    assert_eq!(m.extension_play("discord_join"), ExtensionPlay::Play { wait_ms: 1200 });
    assert_eq!(m.extension_play("lost"), ExtensionPlay::NotFound);
}

#[test]
fn later_entries_of_an_extension_win() {
    let entries = vec![
        ("a".to_string(), entry(None, false, Some(5))),
        ("b".to_string(), entry(None, false, Some(5))),
    ];
    let m = SoundManager::new("", &entries, vec![SoundFile::Missing, SoundFile::Missing]);
    assert_eq!(m.get_extension_sound(5), Some("b"));
    assert_eq!(build_sound_path("", "x.wav"), "x.wav");
    assert_eq!(build_sound_path("d/", "x.wav"), "d/x.wav");
}

#[test]
fn formats_are_detected() {
    assert_eq!(detect_format(b"fLaC...."), AudioFormat::Flac);
    assert_eq!(detect_format(b"RIFF"), AudioFormat::Wav);
    assert_eq!(detect_format(b"RIF"), AudioFormat::Unknown);
    assert_eq!(detect_format(b"OggS"), AudioFormat::Unknown);
}

#[test]
fn decoded_files_are_judged() {
    assert_eq!(parse_audio(b"RIFF", "n", Ok((vec![1, 2], 16000))).unwrap(), vec![1, 2]);
    match parse_audio(b"fLaC", "n", Ok((vec![1], 44100))) {
        Err(SoundError::WrongSampleRate { name, got, expected }) => {
            assert_eq!((name.as_str(), got, expected), ("n", 44100, 16000));
        }
        other => panic!("unexpected {:?}", other),
    }
    match parse_audio(b"fLaC", "n", Err("short".to_string())) {
        Err(SoundError::Parse { name, detail }) => {
            assert_eq!((name.as_str(), detail.as_str()), ("n", "short"));
        }
        other => panic!("unexpected {:?}", other),
    }
    match parse_audio(b"OggSxyz", "n", Ok((vec![1], 16000))) {
        Err(SoundError::UnknownFormat { name, header }) => {
            assert_eq!((name.as_str(), header), ("n", b"OggS".to_vec()));
        }
        other => panic!("unexpected {:?}", other),
    }
    match parse_audio(b"Og", "n", Err(String::new())) {
        Err(SoundError::UnknownFormat { header, .. }) => assert_eq!(header, b"Og".to_vec()),
        other => panic!("unexpected {:?}", other),
    }
    assert_eq!(PreloadedSound::new(vec![0; 15]).duration_ms, 0);
    assert_eq!(PreloadedSound::new(vec![0; 16]).duration_ms, 1);
}

#[test]
fn channels_are_averaged() {
    assert_eq!(mix_s16(&vec![vec![1, 2, 3]], 2), vec![1, 2]);
    assert_eq!(mix_s16(&vec![vec![1, -3], vec![2, -4]], 2), vec![1, -3]);
    assert_eq!(
        mix_s32(&vec![vec![0x7fff_ffff, -1, 0x1_0000]], 3),
        vec![32767, -1, 1]
    );
    assert_eq!(mix_s32(&vec![vec![-0x1_0000], vec![-0x1_0001]], 1), vec![-1]);
    assert_eq!(mix_s32(&vec![vec![i32::MIN], vec![i32::MIN]], 1), vec![-32768]);
}

#[test]
fn streams_are_played_frame_by_frame() {
    let mut p = StreamingPlayer::new();
    assert!(p.wants_more(4));
    p.push_samples(&[1, 2, 3]);
    assert!(p.wants_more(4));
    p.push_samples(&[4, 5]);
    assert!(!p.wants_more(4));
    assert_eq!(p.get_frame(4), Some(vec![1, 2, 3, 4]));
    p.end_of_file();
    assert!(!p.wants_more(4));
    assert!(!p.is_finished());
    assert_eq!(p.get_frame(4), Some(vec![5, 0, 0, 0]));
    assert!(p.is_finished());
    assert_eq!(p.get_frame(4), None);
}

#[test]
fn files_are_played_whole() {
    let packets: Vec<Vec<i16>> = vec![vec![1, 2, 3], vec![], vec![4], vec![5, 6, 7, 8, 9, 10]];
    for n in 1..12 {
        let mut p = StreamingPlayer::new();
        let mut left = packets.iter();
        let mut played: Vec<i16> = Vec::new();
        loop {
            while p.wants_more(n) {
                match left.next() {
                    Some(packet) => p.push_samples(packet),
                    None => p.end_of_file(),
                }
            }
            match p.get_frame(n) {
                Some(frame) => {
                    assert_eq!(frame.len(), n);
                    played.extend(frame);
                }
                None => break,
            }
        }
        assert!(p.is_finished());
        assert_eq!(p.get_frame(n), None);
        assert_eq!(played[..10], [1, 2, 3, 4, 5, 6, 7, 8, 9, 10]);
        assert!(played.len() < 10 + n);
        assert!(played[10..].iter().all(|s| *s == 0));
    }
}

#[test]
fn streamed_sounds_are_not_in_memory() {
    let m = manager();
    for name in ["egg", "abs"] {
        assert!(m.is_streaming(name) && m.get_preloaded(name).is_none());
    }
}

#[test]
fn streams_are_checked() {
    assert_eq!(first_audio_track(&vec![false, true, true]), Some(1));
    assert_eq!(first_audio_track(&vec![false]), None);
    assert_eq!(check_stream("f", Some(2), Some(16000)).unwrap(), 2);
    assert!(matches!(check_stream("f", None, None), Err(StreamingError::NoTrack { .. })));
    assert!(matches!(
        check_stream("f", Some(0), None),
        Err(StreamingError::NoSampleRate { .. })
    ));
    match check_stream("f", Some(0), Some(8000)) {
        Err(StreamingError::WrongSampleRate { path, got, expected }) => {
            assert_eq!((path.as_str(), got, expected), ("f", 8000, 16000));
        }
        other => panic!("unexpected {:?}", other),
    }
}

#[test]
fn an_extension_leads_to_the_last_entry_that_names_it() {
    let entries = vec![
        ("a".to_string(), entry(None, false, Some(5))),
        ("b".to_string(), entry(None, false, Some(6))),
        ("c".to_string(), entry(None, false, Some(5))),
        ("d".to_string(), entry(None, false, None)),
    ];
    let files: Vec<SoundFile> = (0..4).map(|_| SoundFile::Missing).collect();
    let m = SoundManager::new("", &entries, files);
    assert_eq!(m.get_extension_sound(5), Some("c"));
    assert_eq!(m.get_extension_sound(6), Some("b"));
    assert_eq!(m.get_extension_sound(7), None);
}
