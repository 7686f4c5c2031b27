//! The engine's sound: the file that it is played from, and the conversation with the audio
//! engine that plays it.
use crate::single::{one, zero, Single, ONE, ZERO};
use vstd::prelude::*;
use vstd::string::*;
use vstd::utf8::encode_utf8;

verus! {

/// Samples per second.
pub const AUDIO_SAMPLE_RATE: u32 = 48_000;

/// The device that sound is played on.
pub const AUDIO_DEVICE: &'static str = "/dev/dsp5";

/// The file that holds the engine's sound.
pub const ENGINE_HUM_WAV: &'static str = "engine_hum.wav";

/// The track that the engine's sound is played on.
pub const ENGINE_TRACK: &'static str = "engine";

/// The two bytes of a number, the low one first.
pub open spec fn le16(x: u16) -> Seq<u8> {
    seq![(x % 256) as u8, (x / 256) as u8]
}

/// The four bytes of a number, the lowest first.
pub open spec fn le32(x: u32) -> Seq<u8> {
    seq![
        (x % 256) as u8,
        (x / 256 % 256) as u8,
        (x / 65536 % 256) as u8,
        (x / 16777216) as u8,
    ]
}

/// The number in four bytes, the lowest first.
pub open spec fn from_le32(s: Seq<u8>) -> int {
    s[0] + 256 * s[1] + 65536 * s[2] + 16777216 * s[3]
}

/// A number is read back from its bytes.
pub proof fn le32_reads_back(x: u32)
    ensures
        le32(x).len() == 4,
        from_le32(le32(x)) == x,
{
}

/// The bytes of samples, one after the other.
pub open spec fn sample_bytes(samples: Seq<Single>) -> Seq<u8> {
    Seq::new(4 * samples.len(), |k: int| le32(samples[k / 4].bits)[k % 4])
}

/// The header of a WAV file of `n` single-precision samples of one channel.
pub open spec fn wav_header(sample_rate: u32, n: nat) -> Seq<u8> {
    encode_utf8("RIFF"@) + le32((36 + 4 * n) as u32) + encode_utf8("WAVE"@) + encode_utf8("fmt "@)
        + le32(16) + le16(3) + le16(1) + le32(sample_rate) + le32((4 * sample_rate) as u32) + le16(4)
        + le16(32) + encode_utf8("data"@) + le32((4 * n) as u32)
}

/// A WAV file of single-precision samples of one channel.
pub open spec fn wav_file(sample_rate: u32, samples: Seq<Single>) -> Seq<u8> {
    wav_header(sample_rate, samples.len()) + sample_bytes(samples)
}

fn push_text(out: &mut Vec<u8>, text: &str)
    ensures
        final(out)@ == old(out)@ + encode_utf8(text@),
{
    let bytes = text.as_bytes();
    let mut i: usize = 0;
    let ghost before = out@;
    assert(before + bytes@.take(0) == before);
    while i < bytes.len()
        invariant
            bytes@ == encode_utf8(text@),
            i <= bytes@.len(),
            out@ == before + bytes@.take(i as int),
        decreases bytes@.len() - i,
    {
        out.push(bytes[i]);
        i = i + 1;
        assert(out@ == before + bytes@.take(i as int));
    }
    assert(bytes@.take(i as int) == bytes@);
}

fn push_u16(out: &mut Vec<u8>, x: u16)
    ensures
        final(out)@ == old(out)@ + le16(x),
{
    out.push((x % 256) as u8);
    out.push((x / 256) as u8);
}

fn push_u32(out: &mut Vec<u8>, x: u32)
    ensures
        final(out)@ == old(out)@ + le32(x),
{
    out.push((x % 256) as u8);
    out.push((x / 256 % 256) as u8);
    out.push((x / 65536 % 256) as u8);
    out.push((x / 16777216) as u8);
}

/// The bytes of a WAV file of single-precision samples of one channel.
pub fn wav_bytes(sample_rate: u32, samples: &Vec<Single>) -> (r: Vec<u8>)
    requires
        4 * sample_rate <= u32::MAX,
        36 + 4 * samples@.len() <= u32::MAX,
    ensures
        r@ == wav_file(sample_rate, samples@),
{
    let data_size = samples.len() as u32 * 4;
    let mut r: Vec<u8> = Vec::new();
    push_text(&mut r, "RIFF");
    push_u32(&mut r, 36 + data_size);
    push_text(&mut r, "WAVE");
    push_text(&mut r, "fmt ");
    push_u32(&mut r, 16);
    push_u16(&mut r, 3);
    push_u16(&mut r, 1);
    push_u32(&mut r, sample_rate);
    push_u32(&mut r, sample_rate * 4);
    push_u16(&mut r, 4);
    push_u16(&mut r, 32);
    push_text(&mut r, "data");
    push_u32(&mut r, data_size);
    let ghost header = wav_header(sample_rate, samples@.len());
    assert(r@ == header);
    assert(header + sample_bytes(samples@).take(0) == header);
    for i in 0..samples.len()
        invariant
            r@ == header + sample_bytes(samples@).take(4 * i),
    {
        push_u32(&mut r, samples[i].bits);
        assert(sample_bytes(samples@).take(4 * (i + 1)) == sample_bytes(samples@).take(4 * i) + le32(
            samples@[i as int].bits,
        ));
        assert(r@ == header + sample_bytes(samples@).take(4 * (i + 1)));
    }
    assert(sample_bytes(samples@).take(4 * samples.len() as int) == sample_bytes(samples@));
    r
}

proof fn lemma_header_layout(sample_rate: u32, n: nat)
    requires
        36 + 4 * n <= u32::MAX,
    ensures
        wav_header(sample_rate, n).len() == 44,
        wav_header(sample_rate, n).subrange(4, 8) == le32((36 + 4 * n) as u32),
        wav_header(sample_rate, n).subrange(24, 28) == le32(sample_rate),
        wav_header(sample_rate, n).subrange(40, 44) == le32((4 * n) as u32),
{
    reveal_strlit("RIFF");
    reveal_strlit("WAVE");
    reveal_strlit("fmt ");
    reveal_strlit("data");
    vstd::utf8::is_ascii_chars_encode_utf8("RIFF"@);
    vstd::utf8::is_ascii_chars_encode_utf8("WAVE"@);
    vstd::utf8::is_ascii_chars_encode_utf8("fmt "@);
    vstd::utf8::is_ascii_chars_encode_utf8("data"@);
    assert(encode_utf8("RIFF"@).len() == 4);
    assert(encode_utf8("WAVE"@).len() == 4);
    assert(encode_utf8("fmt "@).len() == 4);
    assert(encode_utf8("data"@).len() == 4);
}

/// The sizes that a WAV file states are those that it has: of all that follows the first of
/// them, and of the samples. It states its sample rate too.
pub proof fn wav_states_its_sizes(sample_rate: u32, samples: Seq<Single>)
    requires
        36 + 4 * samples.len() <= u32::MAX,
    ensures
        ({
            let file = wav_file(sample_rate, samples);
            &&& file.len() == 44 + 4 * samples.len()
            &&& from_le32(file.subrange(4, 8)) == file.len() - 8
            &&& from_le32(file.subrange(24, 28)) == sample_rate
            &&& from_le32(file.subrange(40, 44)) == file.len() - 44
        }),
{
    let file = wav_file(sample_rate, samples);
    let header = wav_header(sample_rate, samples.len());
    lemma_header_layout(sample_rate, samples.len());
    assert(file.subrange(4, 8) == header.subrange(4, 8));
    assert(file.subrange(24, 28) == header.subrange(24, 28));
    assert(file.subrange(40, 44) == header.subrange(40, 44));
    le32_reads_back((36 + 4 * samples.len()) as u32);
    le32_reads_back(sample_rate);
    le32_reads_back((4 * samples.len()) as u32);
}

/// Sample `i` stands behind those before it.
proof fn lemma_sample_place(header: Seq<u8>, samples: Seq<Single>, i: int)
    requires
        0 <= i < samples.len(),
    ensures
        (header + sample_bytes(samples)).subrange(
            header.len() + 4 * i,
            header.len() + 4 * i + 4,
        ) == le32(samples[i].bits),
{
    let place = header.len() + 4 * i;
    let found = (header + sample_bytes(samples)).subrange(place, place + 4);
    assert forall|k: int| 0 <= k < 4 implies found[k] == #[trigger] le32(samples[i].bits)[k] by {
        assert(found[k] == sample_bytes(samples)[4 * i + k]);
        assert((4 * i + k) / 4 == i && (4 * i + k) % 4 == k);
    }
}

/// Every sample is read back from a WAV file.
pub proof fn wav_samples_read_back(sample_rate: u32, samples: Seq<Single>, i: int)
    requires
        36 + 4 * samples.len() <= u32::MAX,
        0 <= i < samples.len(),
    ensures
        from_le32(wav_file(sample_rate, samples).subrange(44 + 4 * i, 48 + 4 * i))
            == samples[i].bits,
{
    let header = wav_header(sample_rate, samples.len());
    assert(header.len() == 44) by {
        lemma_header_layout(sample_rate, samples.len());
    }
    lemma_sample_place(header, samples, i);
    le32_reads_back(samples[i].bits);
}

/// How the audio device is opened.
#[derive(Clone, Copy, Debug)]
pub struct DeviceSettings {
    pub device: &'static str,
    pub sample_rate_hz: u32,
    pub bits: u32,
    pub exclusive: bool,
    pub period_frames: usize,
    pub realtime_frames: usize,
    pub low_watermark_frames: usize,
    pub nperiods: usize,
    pub sync_mode: bool,
    pub hybrid_enabled: bool,
}

/// The sound that is put on a track.
#[derive(Clone, Copy, Debug)]
pub struct ClipSettings {
    pub name: &'static str,
    pub track_name: &'static str,
    pub start: usize,
    pub length: usize,
    pub offset: usize,
    pub input_channel: usize,
    pub muted: bool,
    pub fade_enabled: bool,
    pub fade_in_samples: usize,
    pub fade_out_samples: usize,
    pub source_name: &'static str,
}

/// What is asked of the audio engine.
#[derive(Clone, Copy, Debug)]
pub enum AudioRequest {
    OpenAudioDevice(DeviceSettings),
    AddTrack { name: &'static str, audio_ins: usize, audio_outs: usize, midi_ins: usize, midi_outs: usize },
    AddClip(ClipSettings),
    SetLoopEnabled(bool),
    SetLoopRange { start: usize, end: usize },
    SetClipPlaybackEnabled(bool),
    Play,
    TrackLevel { track: &'static str, gain: Single },
}

/// How far the conversation with the audio engine has come.
#[derive(Clone, Copy, Debug, PartialEq, Eq, Structural)]
pub enum AudioPhase {
    /// The sound file is being written.
    Writing,
    /// The device is being opened.
    Opening,
    /// The device has not answered yet.
    AwaitingDevice,
    /// So many of the requests that set the track up have been sent.
    SettingUp { sent: usize },
    /// The sound is playing.
    Playing,
    /// There will be no sound.
    Silent,
}

/// What has happened.
#[derive(Clone, Copy, Debug, PartialEq, Eq, Structural)]
pub enum AudioEvent {
    /// The sound file was written, or could not be.
    Written { ok: bool },
    /// The request was sent.
    Sent,
    /// The device is ready, or has not become so in time.
    Device { ready: bool },
    /// It is time to set the level, to this gain.
    Tick { gain: Single },
}

/// What is to be done next.
#[derive(Clone, Copy, Debug)]
pub enum AudioAction {
    Send(AudioRequest),
    AwaitDevice,
    AwaitTick,
    /// Nothing more: the file could not be written.
    GiveUpFile,
    /// Nothing more: there is no device.
    GiveUpDevice,
}

/// How the device is opened.
pub open spec fn device_settings() -> DeviceSettings {
    DeviceSettings {
        device: AUDIO_DEVICE,
        sample_rate_hz: AUDIO_SAMPLE_RATE,
        bits: 32,
        exclusive: false,
        period_frames: 2048,
        realtime_frames: 128,
        low_watermark_frames: 512,
        nperiods: 2,
        sync_mode: false,
        hybrid_enabled: false,
    }
}

/// The engine's sound on its track: one second of it, faded in and out.
pub open spec fn clip_settings() -> ClipSettings {
    ClipSettings {
        name: ENGINE_HUM_WAV,
        track_name: ENGINE_TRACK,
        start: 0,
        length: AUDIO_SAMPLE_RATE as usize,
        offset: 0,
        input_channel: 0,
        muted: false,
        fade_enabled: true,
        fade_in_samples: 240,
        fade_out_samples: 240,
        source_name: ENGINE_HUM_WAV,
    }
}

/// The number of requests that set the track up.
pub const SETUP_REQUESTS: usize = 6;

/// The requests that set the track up and start it, in order.
pub open spec fn setup_request(k: int) -> AudioRequest {
    if k == 0 {
        AudioRequest::AddTrack {
            name: ENGINE_TRACK,
            audio_ins: 2,
            audio_outs: 2,
            midi_ins: 0,
            midi_outs: 0,
        }
    } else if k == 1 {
        AudioRequest::AddClip(clip_settings())
    } else if k == 2 {
        AudioRequest::SetLoopEnabled(true)
    } else if k == 3 {
        AudioRequest::SetLoopRange { start: 0, end: AUDIO_SAMPLE_RATE as usize }
    } else if k == 4 {
        AudioRequest::SetClipPlaybackEnabled(true)
    } else {
        AudioRequest::Play
    }
}

/// The event can happen in that phase.
pub open spec fn expected(phase: AudioPhase, event: AudioEvent) -> bool {
    match phase {
        AudioPhase::Writing => event is Written,
        AudioPhase::Opening => event is Sent,
        AudioPhase::AwaitingDevice => event is Device,
        AudioPhase::SettingUp { sent } => event is Sent && sent < SETUP_REQUESTS,
        AudioPhase::Playing => event is Sent || event is Tick,
        AudioPhase::Silent => false,
    }
}

/// Where an event leads, and what is done about it.
pub open spec fn audio_next(phase: AudioPhase, event: AudioEvent) -> (AudioPhase, AudioAction) {
    match (phase, event) {
        (AudioPhase::Writing, AudioEvent::Written { ok }) => if ok {
            (
                AudioPhase::Opening,
                AudioAction::Send(AudioRequest::OpenAudioDevice(device_settings())),
            )
        } else {
            (AudioPhase::Silent, AudioAction::GiveUpFile)
        },
        (AudioPhase::Opening, _) => (AudioPhase::AwaitingDevice, AudioAction::AwaitDevice),
        (AudioPhase::AwaitingDevice, AudioEvent::Device { ready }) => if ready {
            (AudioPhase::SettingUp { sent: 0 }, AudioAction::Send(setup_request(0)))
        } else {
            (AudioPhase::Silent, AudioAction::GiveUpDevice)
        },
        (AudioPhase::SettingUp { sent }, _) => if sent + 1 < SETUP_REQUESTS {
            (
                AudioPhase::SettingUp { sent: (sent + 1) as usize },
                AudioAction::Send(setup_request(sent + 1)),
            )
        } else {
            (AudioPhase::Playing, AudioAction::AwaitTick)
        },
        (AudioPhase::Playing, AudioEvent::Tick { gain }) => (
            AudioPhase::Playing,
            AudioAction::Send(
                AudioRequest::TrackLevel { track: ENGINE_TRACK, gain: gain.clamped(zero(), one()) },
            ),
        ),
        _ => (phase, AudioAction::AwaitTick),
    }
}

fn nth_setup_request(k: usize) -> (r: AudioRequest)
    ensures
        r == setup_request(k as int),
{
    if k == 0 {
        AudioRequest::AddTrack {
            name: ENGINE_TRACK,
            audio_ins: 2,
            audio_outs: 2,
            midi_ins: 0,
            midi_outs: 0,
        }
    } else if k == 1 {
        AudioRequest::AddClip(
            ClipSettings {
                name: ENGINE_HUM_WAV,
                track_name: ENGINE_TRACK,
                start: 0,
                length: AUDIO_SAMPLE_RATE as usize,
                offset: 0,
                input_channel: 0,
                muted: false,
                fade_enabled: true,
                fade_in_samples: 240,
                fade_out_samples: 240,
                source_name: ENGINE_HUM_WAV,
            },
        )
    } else if k == 2 {
        AudioRequest::SetLoopEnabled(true)
    } else if k == 3 {
        AudioRequest::SetLoopRange { start: 0, end: AUDIO_SAMPLE_RATE as usize }
    } else if k == 4 {
        AudioRequest::SetClipPlaybackEnabled(true)
    } else {
        AudioRequest::Play
    }
}

/// Carries the conversation with the audio engine on by one event.
pub fn audio_step(phase: AudioPhase, event: AudioEvent) -> (r: (AudioPhase, AudioAction))
    requires
        expected(phase, event),
    ensures
        r == audio_next(phase, event),
{
    match (phase, event) {
        (AudioPhase::Writing, AudioEvent::Written { ok }) => {
            if ok {
                let settings = DeviceSettings {
                    device: AUDIO_DEVICE,
                    sample_rate_hz: AUDIO_SAMPLE_RATE,
                    bits: 32,
                    exclusive: false,
                    period_frames: 2048,
                    realtime_frames: 128,
                    low_watermark_frames: 512,
                    nperiods: 2,
                    sync_mode: false,
                    hybrid_enabled: false,
                };
                (AudioPhase::Opening, AudioAction::Send(AudioRequest::OpenAudioDevice(settings)))
            } else {
                (AudioPhase::Silent, AudioAction::GiveUpFile)
            }
        },
        (AudioPhase::Opening, _) => (AudioPhase::AwaitingDevice, AudioAction::AwaitDevice),
        (AudioPhase::AwaitingDevice, AudioEvent::Device { ready }) => {
            if ready {
                (AudioPhase::SettingUp { sent: 0 }, AudioAction::Send(nth_setup_request(0)))
            } else {
                (AudioPhase::Silent, AudioAction::GiveUpDevice)
            }
        },
        (AudioPhase::SettingUp { sent }, _) => {
            if sent + 1 < SETUP_REQUESTS {
                (
                    AudioPhase::SettingUp { sent: sent + 1 },
                    AudioAction::Send(nth_setup_request(sent + 1)),
                )
            } else {
                (AudioPhase::Playing, AudioAction::AwaitTick)
            }
        },
        (AudioPhase::Playing, AudioEvent::Tick { gain }) => {
            let gain = gain.clamp(Single { bits: ZERO }, Single { bits: ONE });
            (
                AudioPhase::Playing,
                AudioAction::Send(AudioRequest::TrackLevel { track: ENGINE_TRACK, gain }),
            )
        },
        _ => (phase, AudioAction::AwaitTick),
    }
}

/// The part of the loudest level that a speed asks for, from its ratio to the speed of that
/// level: none at rest, all of it beyond.
pub fn loudness(ratio: Single) -> (r: Single)
    ensures
        r == ratio.clamped(zero(), one()),
        ratio.bits <= 0x3f80_0000 ==> r == ratio,
        0x3f80_0000 < ratio.bits <= 0x7f80_0000 ==> r.bits == 0x3f80_0000,
        0x8000_0000 < ratio.bits <= 0xff80_0000 ==> r.bits == 0,
{
    ratio.clamp(Single { bits: ZERO }, Single { bits: ONE })
}

/// A higher speed never asks for less: loudness does not fall as its ratio grows.
pub proof fn loudness_does_not_fall(x: Single, y: Single)
    requires
        x.at_most(y),
    ensures
        x.clamped(zero(), one()).at_most(y.clamped(zero(), one())),
{
}

/// The phase after events, from the first one.
pub open spec fn phase_after(phase: AudioPhase, events: Seq<AudioEvent>) -> AudioPhase
    decreases events.len(),
{
    if events.len() == 0 {
        phase
    } else {
        audio_next(phase_after(phase, events.drop_last()), events.last()).0
    }
}

/// Every event was one that could happen.
pub open spec fn all_expected(phase: AudioPhase, events: Seq<AudioEvent>) -> bool
    decreases events.len(),
{
    events.len() == 0 || (all_expected(phase, events.drop_last()) && expected(
        phase_after(phase, events.drop_last()),
        events.last(),
    ))
}

/// A level is only ever set while the sound is playing, and the device is only opened once the
/// sound file is written.
pub proof fn requests_keep_to_their_phase(phase: AudioPhase, event: AudioEvent)
    requires
        expected(phase, event),
    ensures
        audio_next(phase, event).1 matches AudioAction::Send(AudioRequest::TrackLevel { .. })
            ==> phase is Playing,
        audio_next(phase, event).1 matches AudioAction::Send(AudioRequest::OpenAudioDevice(_))
            ==> event == (AudioEvent::Written { ok: true }),
{
}

/// The track is only set up or played after a device was reported ready.
pub proof fn playing_needs_a_device(events: Seq<AudioEvent>)
    requires
        all_expected(AudioPhase::Writing, events),
        ({
            let phase = phase_after(AudioPhase::Writing, events);
            phase is SettingUp || phase is Playing
        }),
    ensures
        events.contains(AudioEvent::Device { ready: true }),
    decreases events.len(),
{
    if events.len() > 0 {
        let before = events.drop_last();
        let phase = phase_after(AudioPhase::Writing, before);
        if phase is SettingUp || phase is Playing {
            playing_needs_a_device(before);
            let i = choose|i: int| 0 <= i < before.len() && before[i] == (AudioEvent::Device { ready: true });
            assert(events[i] == AudioEvent::Device { ready: true });
        } else {
            assert(events.last() == AudioEvent::Device { ready: true });
            assert(events[events.len() - 1] == AudioEvent::Device { ready: true });
        }
    }
}

/// Once the device is ready, the requests that set the track up go out one by one, and then it
/// plays.
pub proof fn setup_goes_out_in_order(k: int)
    requires
        0 <= k < SETUP_REQUESTS,
    ensures
        ({
            let (phase, action) = audio_next(
                AudioPhase::SettingUp { sent: k as usize },
                AudioEvent::Sent,
            );
            if k + 1 < SETUP_REQUESTS {
                phase == (AudioPhase::SettingUp { sent: (k + 1) as usize }) && action
                    == AudioAction::Send(setup_request(k + 1))
            } else {
                phase == AudioPhase::Playing && action == AudioAction::AwaitTick
            }
        }),
        setup_request(SETUP_REQUESTS - 1) == AudioRequest::Play,
{
}

/// The level of the engine's sound stays between silence and full loudness.
pub proof fn level_in_range(gain: Single)
    requires
        !gain.nan(),
    ensures
        zero().at_most(gain.clamped(zero(), one())),
        gain.clamped(zero(), one()).at_most(one()),
{
}

/// What came of waiting for a message.
#[derive(Clone, Copy, Debug, PartialEq, Eq, Structural)]
pub enum WaitEvent {
    /// There is no time left to wait.
    Expired,
    /// A message came, and it is the one that was waited for or not.
    Message { matches: bool },
    /// There will be no more messages.
    Closed,
    /// No message came in time.
    TimedOut,
}

/// What an event makes of the wait: whether the message has come, or nothing where waiting goes
/// on.
pub open spec fn answer(event: WaitEvent) -> Option<bool> {
    match event {
        WaitEvent::Message { matches } => if matches {
            Some(true)
        } else {
            None
        },
        _ => Some(false),
    }
}

/// What events make of the wait, from the first on: the first answer among them.
pub open spec fn waited(events: Seq<WaitEvent>) -> Option<bool>
    decreases events.len(),
{
    if events.len() == 0 {
        None
    } else {
        match answer(events.first()) {
            Some(found) => Some(found),
            None => waited(events.drop_first()),
        }
    }
}

/// Whether the message that is waited for has come; nothing where waiting goes on.
pub fn wait_for_message(event: WaitEvent) -> (r: Option<bool>)
    ensures
        r == answer(event),
{
    match event {
        WaitEvent::Message { matches } => if matches {
            Some(true)
        } else {
            None
        },
        _ => Some(false),
    }
}

/// Up to event `k`, only messages came that were not waited for.
pub open spec fn only_others_before(events: Seq<WaitEvent>, k: int) -> bool {
    &&& 0 <= k <= events.len()
    &&& forall|i: int| 0 <= i < k ==> #[trigger] events[i] == (WaitEvent::Message { matches: false })
}

/// The message is found exactly when it comes before waiting ends, the wait is in vain exactly
/// when it ends before, and it goes on exactly as long as only other messages come.
pub proof fn wait_ends_with_the_message_or_without(events: Seq<WaitEvent>)
    ensures
        waited(events) == Some(true) <==> exists|k: int|
            #[trigger] only_others_before(events, k) && k < events.len() && events[k] == (
            WaitEvent::Message { matches: true }),
        waited(events) == Some(false) <==> exists|k: int|
            #[trigger] only_others_before(events, k) && k < events.len() && !(
            events[k] is Message),
        waited(events) is None <==> only_others_before(events, events.len() as int),
    decreases events.len(),
{
    if events.len() > 0 {
        let rest = events.drop_first();
        wait_ends_with_the_message_or_without(rest);
        if events[0] == (WaitEvent::Message { matches: false }) {
            assert forall|k: int| #[trigger] only_others_before(rest, k) implies only_others_before(
                events,
                k + 1,
            ) by {
                assert forall|i: int| 0 <= i < k + 1 implies #[trigger] events[i] == (
                WaitEvent::Message { matches: false }) by {
                    if i > 0 {
                        assert(rest[i - 1] == events[i]);
                    }
                }
            }
            assert forall|k: int| #[trigger] only_others_before(events, k) && k > 0 implies
                only_others_before(rest, k - 1) by {
                assert forall|i: int| 0 <= i < k - 1 implies #[trigger] rest[i] == (
                WaitEvent::Message { matches: false }) by {
                    assert(events[i + 1] == rest[i]);
                }
            }
            if waited(rest) == Some(true) {
                let k = choose|k: int|
                    #[trigger] only_others_before(rest, k) && k < rest.len() && rest[k] == (
                    WaitEvent::Message { matches: true });
                assert(only_others_before(events, k + 1) && events[k + 1] == rest[k]);
            }
            if waited(rest) == Some(false) {
                let k = choose|k: int|
                    #[trigger] only_others_before(rest, k) && k < rest.len() && !(
                    rest[k] is Message);
                assert(only_others_before(events, k + 1) && events[k + 1] == rest[k]);
            }
            if exists|k: int|
                #[trigger] only_others_before(events, k) && k < events.len() && events[k] == (
                WaitEvent::Message { matches: true }) {
                let k = choose|k: int|
                    #[trigger] only_others_before(events, k) && k < events.len() && events[k] == (
                    WaitEvent::Message { matches: true });
                assert(only_others_before(rest, k - 1) && rest[k - 1] == events[k]);
            }
            if exists|k: int|
                #[trigger] only_others_before(events, k) && k < events.len() && !(
                events[k] is Message) {
                let k = choose|k: int|
                    #[trigger] only_others_before(events, k) && k < events.len() && !(
                    events[k] is Message);
                assert(only_others_before(rest, k - 1) && rest[k - 1] == events[k]);
            }
            if only_others_before(rest, rest.len() as int) {
                assert(only_others_before(events, rest.len() as int + 1));
            }
            if only_others_before(events, events.len() as int) {
                assert(only_others_before(rest, events.len() - 1));
            }
        } else {
            assert(only_others_before(events, 0));
            assert forall|k: int| #[trigger] only_others_before(events, k) implies k == 0 by {
                if k > 0 {
                    assert(events[0] == (WaitEvent::Message { matches: false }));
                }
            }
        }
    } else {
        assert(only_others_before(events, 0));
    }
}

/// The bytes of a number make it up, the lowest first.
pub proof fn bytes_go_lowest_first(x: u32, y: u16)
    ensures
        le32(x).len() == 4,
        x == le32(x)[0] + 256 * le32(x)[1] + 65536 * le32(x)[2] + 16777216 * le32(x)[3],
        le16(y).len() == 2,
        y == le16(y)[0] + 256 * le16(y)[1],
{
}

/// The file begins as a WAV file of single-precision samples of one channel does: its marks in their
/// places, a format of 16 bytes, one channel, the sample rate, the bytes per second and per sample,
/// and 32 bits.
#[verifier::opaque]
pub open spec fn begins_as_wav(file: Seq<u8>, sample_rate: u32) -> bool {
    &&& file[0] == 0x52 && file[1] == 0x49 && file[2] == 0x46 && file[3] == 0x46
    &&& file[8] == 0x57 && file[9] == 0x41 && file[10] == 0x56 && file[11] == 0x45
    &&& file[12] == 0x66 && file[13] == 0x6d && file[14] == 0x74 && file[15] == 0x20
    &&& file[16] == 16 && file[17] == 0 && file[18] == 0 && file[19] == 0
    &&& file[20] == 3 && file[21] == 0 && file[22] == 1 && file[23] == 0
    &&& file[24] + 256 * file[25] + 65536 * file[26] + 16777216 * file[27] == sample_rate
    &&& file[28] + 256 * file[29] + 65536 * file[30] + 16777216 * file[31] == 4 * sample_rate
    &&& file[32] == 4 && file[33] == 0 && file[34] == 32 && file[35] == 0
    &&& file[36] == 0x64 && file[37] == 0x61 && file[38] == 0x74 && file[39] == 0x61
}

/// A WAV file begins as WAV files do.
pub proof fn wav_begins_as_wav_files_do(sample_rate: u32, samples: Seq<Single>)
    requires
        4 * sample_rate <= u32::MAX,
        36 + 4 * samples.len() <= u32::MAX,
    ensures
        begins_as_wav(wav_file(sample_rate, samples), sample_rate),
{
    let n = samples.len();
    lemma_marks();
    bytes_go_lowest_first(sample_rate, 0);
    bytes_go_lowest_first((4 * sample_rate) as u32, 0);
    lemma_pieces_in_place(
        encode_utf8("RIFF"@),
        le32((36 + 4 * n) as u32),
        encode_utf8("WAVE"@),
        encode_utf8("fmt "@),
        le32(16),
        le16(3),
        le16(1),
        le32(sample_rate),
        le32((4 * sample_rate) as u32),
        le16(4),
        le16(32),
        encode_utf8("data"@),
        le32((4 * n) as u32),
        sample_bytes(samples),
        sample_rate,
    );
}

proof fn lemma_pieces_in_place(
    a: Seq<u8>,
    b: Seq<u8>,
    c: Seq<u8>,
    d: Seq<u8>,
    e: Seq<u8>,
    f: Seq<u8>,
    g: Seq<u8>,
    h: Seq<u8>,
    i: Seq<u8>,
    j: Seq<u8>,
    k: Seq<u8>,
    l: Seq<u8>,
    m: Seq<u8>,
    z: Seq<u8>,
    sample_rate: u32,
)
    requires
        a.len() == 4 && b.len() == 4 && c.len() == 4 && d.len() == 4 && e.len() == 4 && h.len() == 4
            && i.len() == 4 && l.len() == 4 && m.len() == 4,
        f.len() == 2 && g.len() == 2 && j.len() == 2 && k.len() == 2,
        a[0] == 0x52 && a[1] == 0x49 && a[2] == 0x46 && a[3] == 0x46,
        c[0] == 0x57 && c[1] == 0x41 && c[2] == 0x56 && c[3] == 0x45,
        d[0] == 0x66 && d[1] == 0x6d && d[2] == 0x74 && d[3] == 0x20,
        e[0] == 16 && e[1] == 0 && e[2] == 0 && e[3] == 0,
        f[0] == 3 && f[1] == 0 && g[0] == 1 && g[1] == 0,
        h[0] + 256 * h[1] + 65536 * h[2] + 16777216 * h[3] == sample_rate,
        i[0] + 256 * i[1] + 65536 * i[2] + 16777216 * i[3] == 4 * sample_rate,
        j[0] == 4 && j[1] == 0 && k[0] == 32 && k[1] == 0,
        l[0] == 0x64 && l[1] == 0x61 && l[2] == 0x74 && l[3] == 0x61,
    ensures
        begins_as_wav(a + b + c + d + e + f + g + h + i + j + k + l + m + z, sample_rate),
{
    reveal(begins_as_wav);
}

proof fn lemma_marks()
    ensures
        encode_utf8("RIFF"@) == seq![0x52u8, 0x49, 0x46, 0x46],
        encode_utf8("WAVE"@) == seq![0x57u8, 0x41, 0x56, 0x45],
        encode_utf8("fmt "@) == seq![0x66u8, 0x6d, 0x74, 0x20],
        encode_utf8("data"@) == seq![0x64u8, 0x61, 0x74, 0x61],
{
    reveal_strlit("RIFF");
    reveal_strlit("WAVE");
    reveal_strlit("fmt ");
    reveal_strlit("data");
    vstd::utf8::is_ascii_chars_encode_utf8("RIFF"@);
    vstd::utf8::is_ascii_chars_encode_utf8("WAVE"@);
    vstd::utf8::is_ascii_chars_encode_utf8("fmt "@);
    vstd::utf8::is_ascii_chars_encode_utf8("data"@);
}

/// Every tick sets the level of the engine's track: to the gain where that lies between silence and
/// full loudness, else to the nearer of the two.
pub proof fn every_tick_sets_the_level(gain: Single)
    ensures
        ({
            let (phase, action) = audio_next(AudioPhase::Playing, AudioEvent::Tick { gain });
            &&& phase == AudioPhase::Playing
            &&& action matches AudioAction::Send(
                AudioRequest::TrackLevel { track, gain: level },
            ) && track == ENGINE_TRACK && (zero().at_most(gain) && gain.at_most(one()) ==> level
                == gain) && (gain.less(zero()) ==> level.bits == 0) && (one().less(gain)
                ==> level.bits == 0x3f80_0000) && (gain.nan() ==> level == gain)
        }),
        audio_next(AudioPhase::Playing, AudioEvent::Sent).1 is AwaitTick,
{
}

} // verus!
