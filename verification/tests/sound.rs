//! The engine's sound.
use trka::audio::{
    audio_step, loudness, wait_for_message, wav_bytes, AudioAction, AudioEvent, AudioPhase, AudioRequest, WaitEvent,
    AUDIO_DEVICE, AUDIO_SAMPLE_RATE, ENGINE_HUM_WAV, ENGINE_TRACK,
};
use trka::single::Single;

fn s(x: f32) -> Single {
    Single { bits: x.to_bits() }
}

fn word(file: &[u8], at: usize) -> u32 {
    u32::from_le_bytes([file[at], file[at + 1], file[at + 2], file[at + 3]])
}

fn half(file: &[u8], at: usize) -> u16 {
    u16::from_le_bytes([file[at], file[at + 1]])
}

#[test]
fn sound_file_is_laid_out() {
    let file = wav_bytes(48_000, &vec![s(0.5), s(-1.0), s(0.25)]);
    assert_eq!(&file[0..4], b"RIFF");
    assert_eq!(word(&file, 4), 48);
    assert_eq!(&file[8..16], b"WAVEfmt ");
    assert_eq!(word(&file, 16), 16);
    assert_eq!(half(&file, 20), 3);
    assert_eq!(half(&file, 22), 1);
    assert_eq!(word(&file, 24), 48_000);
    assert_eq!(word(&file, 28), 192_000);
    assert_eq!(half(&file, 32), 4);
    assert_eq!(half(&file, 34), 32);
    assert_eq!(&file[36..40], b"data");
    assert_eq!(word(&file, 40), 12);
    assert_eq!(file.len(), 56);
}

#[test]
fn samples_read_back() {
    let samples = [0.5f32, -1.0, 0.1, f32::MIN_POSITIVE];
    let file = wav_bytes(8_000, &samples.iter().map(|x| s(*x)).collect());
    for (i, sample) in samples.iter().enumerate() {
        let at = 44 + 4 * i;
        assert_eq!(f32::from_le_bytes([file[at], file[at + 1], file[at + 2], file[at + 3]]), *sample);
    }
}

#[test]
fn sound_file_states_its_sizes() {
    for n in [0usize, 1, 300] {
        let file = wav_bytes(AUDIO_SAMPLE_RATE, &vec![s(0.0); n]);
        assert_eq!(file.len(), 44 + 4 * n);
        assert_eq!(word(&file, 4) as usize, file.len() - 8);
        assert_eq!(word(&file, 40) as usize, file.len() - 44);
    }
}

#[test]
fn conversation_comes_to_the_sound() {
    let (phase, action) = audio_step(AudioPhase::Writing, AudioEvent::Written { ok: true });
    match action {
        AudioAction::Send(AudioRequest::OpenAudioDevice(settings)) => {
            assert_eq!(settings.device, "/dev/dsp5");
            assert_eq!(settings.device, AUDIO_DEVICE);
            assert_eq!(settings.sample_rate_hz, 48_000);
            assert_eq!((settings.bits, settings.nperiods), (32, 2));
            assert_eq!(
                (settings.period_frames, settings.realtime_frames, settings.low_watermark_frames),
                (2048, 128, 512)
            );
            assert!(!settings.exclusive && !settings.sync_mode && !settings.hybrid_enabled);
        }
        _ => panic!("expected the device to be opened"),
    }
    let (phase, action) = audio_step(phase, AudioEvent::Sent);
    assert!(matches!(action, AudioAction::AwaitDevice));
    let (mut phase, mut action) = audio_step(phase, AudioEvent::Device { ready: true });
    let mut sent: Vec<AudioRequest> = Vec::new();
    while let AudioAction::Send(request) = action {
        sent.push(request);
        (phase, action) = audio_step(phase, AudioEvent::Sent);
    }
    assert_eq!(phase, AudioPhase::Playing);
    assert!(matches!(action, AudioAction::AwaitTick));
    assert_eq!(sent.len(), 6);
    assert!(matches!(
        sent[0],
        AudioRequest::AddTrack { name: "engine", audio_ins: 2, audio_outs: 2, midi_ins: 0, midi_outs: 0 }
    ));
    match sent[1] {
        AudioRequest::AddClip(clip) => {
            assert_eq!((clip.name, clip.source_name), (ENGINE_HUM_WAV, "engine_hum.wav"));
            assert_eq!(clip.track_name, ENGINE_TRACK);
            assert_eq!((clip.start, clip.length, clip.offset, clip.input_channel), (0, 48_000, 0, 0));
            assert!(!clip.muted && clip.fade_enabled);
            assert_eq!((clip.fade_in_samples, clip.fade_out_samples), (240, 240));
        }
        _ => panic!("expected the sound to be put on the track"),
    }
    assert!(matches!(sent[2], AudioRequest::SetLoopEnabled(true)));
    assert!(matches!(sent[3], AudioRequest::SetLoopRange { start: 0, end: 48_000 }));
    assert!(matches!(sent[4], AudioRequest::SetClipPlaybackEnabled(true)));
    assert!(matches!(sent[5], AudioRequest::Play));
}

#[test]
fn level_follows_every_tick() {
    for (gain, level) in [(0.5, 0.5), (-1.0, 0.0), (1.5, 1.0)] {
        let (phase, action) = audio_step(AudioPhase::Playing, AudioEvent::Tick { gain: s(gain) });
        assert_eq!(phase, AudioPhase::Playing);
        match action {
            AudioAction::Send(AudioRequest::TrackLevel { track, gain }) => {
                assert_eq!(track, "engine");
                assert_eq!(gain, s(level));
            }
            _ => panic!("expected a level"),
        }
        let (phase, action) = audio_step(phase, AudioEvent::Sent);
        assert_eq!(phase, AudioPhase::Playing);
        assert!(matches!(action, AudioAction::AwaitTick));
    }
}

#[test]
fn sound_is_given_up_without_file_or_device() {
    let (phase, action) = audio_step(AudioPhase::Writing, AudioEvent::Written { ok: false });
    assert_eq!(phase, AudioPhase::Silent);
    assert!(matches!(action, AudioAction::GiveUpFile));
    let (phase, action) = audio_step(AudioPhase::AwaitingDevice, AudioEvent::Device { ready: false });
    assert_eq!(phase, AudioPhase::Silent);
    assert!(matches!(action, AudioAction::GiveUpDevice));
}

#[test]
fn loudness_is_a_share() {
    assert_eq!(loudness(s(0.4)), s(0.4));
    assert_eq!(loudness(s(2.0)), s(1.0));
    assert_eq!(loudness(s(-2.0)), s(0.0));
}

#[test]
fn loudness_does_not_fall() {
    let ratios = [f32::NEG_INFINITY, -0.5, -0.0, 0.0, 0.25, 0.75, 1.0, 1.5, f32::INFINITY];
    for pair in ratios.windows(2) {
        assert!(!loudness(s(pair[1])).lt(loudness(s(pair[0]))));
    }
}

#[test]
fn waiting_ends_with_the_message_or_without_it() {
    assert_eq!(wait_for_message(WaitEvent::Message { matches: true }), Some(true));
    assert_eq!(wait_for_message(WaitEvent::Message { matches: false }), None);
    assert_eq!(wait_for_message(WaitEvent::Expired), Some(false));
    assert_eq!(wait_for_message(WaitEvent::Closed), Some(false));
    assert_eq!(wait_for_message(WaitEvent::TimedOut), Some(false));
}

/// Waits through events until there is an answer.
fn wait_through(events: &[WaitEvent]) -> Option<bool> {
    events.iter().find_map(|event| wait_for_message(*event))
}

#[test]
fn first_answer_ends_the_wait() {
    let other = WaitEvent::Message { matches: false };
    let wanted = WaitEvent::Message { matches: true };
    assert_eq!(wait_through(&[]), None);
    assert_eq!(wait_through(&[other, other]), None);
    assert_eq!(wait_through(&[other, other, wanted, WaitEvent::Closed]), Some(true));
    assert_eq!(wait_through(&[other, WaitEvent::TimedOut, wanted]), Some(false));
    assert_eq!(wait_through(&[WaitEvent::Expired, wanted]), Some(false));
}
