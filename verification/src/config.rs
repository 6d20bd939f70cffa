//! The settings that the program runs with.

use vstd::prelude::*;

use crate::text::same_text;

verus! {

/// How much the encoder may spend on a picture.
#[derive(Debug, Clone, Copy, PartialEq, Eq, Structural)]
pub enum Quality {
    Efficient,
    Default,
    High,
    Max,
}

/// How tall the picture may be.
#[derive(Debug, Clone, Copy, PartialEq, Eq, Structural)]
pub enum Resolution {
    /// As tall as the source.
    Native,
    P1440,
    P1080,
    P720,
}

/// A capture target with a name.
#[derive(Debug, Clone, Copy, PartialEq, Eq, Structural)]
pub enum NamedTarget {
    /// The primary monitor.
    Primary,
    /// The window in front.
    FocusedWindow,
}

/// What is captured.
#[derive(Debug, Clone, Copy, PartialEq, Eq, Structural)]
pub enum CaptureTarget {
    Named(NamedTarget),
    /// The monitor with this number.
    Monitor(u32),
}

#[derive(Debug, Clone, PartialEq, Eq)]
pub struct CaptureConfig {
    pub fps: u32,
    pub cursor: bool,
    pub target: CaptureTarget,
}

#[derive(Debug, Clone, PartialEq, Eq)]
pub struct EncodeConfig {
    pub quality: Quality,
    pub resolution: Resolution,
}

#[derive(Debug, Clone, PartialEq, Eq)]
pub struct BufferConfig {
    /// How many seconds are kept.
    pub seconds: u32,
    pub clear_after_save: bool,
    /// Keyframes twice as often.
    pub precise_mode: bool,
}

#[derive(Debug, Clone, PartialEq, Eq)]
pub struct OutputConfig {
    /// The folder of the clips; empty for the system's videos.
    pub dir: String,
}

/// Which tracks are written beside the mix, where tracks are kept apart.
#[derive(Debug, Clone, PartialEq, Eq)]
pub struct TrackConfig {
    pub game: bool,
    pub voice_chat: bool,
    pub other_system: bool,
}

/// A program for voice chat.
#[derive(Debug, Clone, PartialEq, Eq)]
pub struct VcApp {
    pub name: String,
    /// Whether it gets a track.
    pub enabled: bool,
}

/// What programs for voice chat are called, and whether they count.
pub open spec fn app_views(apps: Seq<VcApp>) -> Seq<(Seq<char>, bool)> {
    apps.map_values(|a: VcApp| (a.name@, a.enabled))
}

/// The same programs again.
pub fn copy_apps(apps: &Vec<VcApp>) -> (v: Vec<VcApp>)
    ensures
        app_views(v@) == app_views(apps@),
{
    let mut v: Vec<VcApp> = Vec::new();
    let n: usize = apps.len();
    let mut i: usize = 0;
    while i < n
        invariant
            i <= n,
            n == apps@.len(),
            v@.len() == i,
            forall|k: int|
                0 <= k < i ==> (#[trigger] v@[k]).name@ == apps@[k].name@ && v@[k].enabled
                    == apps@[k].enabled,
        decreases n - i,
    {
        v.push(VcApp { name: apps[i].name.clone(), enabled: apps[i].enabled });
        i = i + 1;
    }
    assert(app_views(v@) =~= app_views(apps@));
    v
}

/// Whether two lists of programs say the same.
fn same_apps(a: &Vec<VcApp>, b: &Vec<VcApp>) -> (r: bool)
    ensures
        r == (app_views(a@) == app_views(b@)),
{
    let n: usize = a.len();
    if n != b.len() {
        assert(app_views(a@).len() != app_views(b@).len());
        return false;
    }
    let mut i: usize = 0;
    while i < n
        invariant
            i <= n,
            n == a@.len(),
            n == b@.len(),
            forall|k: int|
                0 <= k < i ==> (#[trigger] a@[k]).name@ == b@[k].name@ && a@[k].enabled
                    == b@[k].enabled,
        decreases n - i,
    {
        if a[i].enabled != b[i].enabled || !same_text(a[i].name.as_str(), b[i].name.as_str()) {
            assert(app_views(a@)[i as int] != app_views(b@)[i as int]);
            return false;
        }
        i = i + 1;
    }
    assert(app_views(a@) =~= app_views(b@));
    true
}

#[derive(Debug, Clone, PartialEq, Eq)]
pub struct AudioConfig {
    /// Whether the system's sound is recorded.
    pub desktop: bool,
    /// `default-follow`, `off`, or the id of a device.
    pub mic: String,
    pub bitrate_bps: u32,
    pub separate_tracks: bool,
    pub tracks: TrackConfig,
    /// The programs for voice chat, in the order in which they are looked for.
    pub vc_apps: Vec<VcApp>,
}

#[derive(Debug, Clone, PartialEq, Eq)]
pub struct HotkeyConfig {
    pub save_clip: String,
    pub record_toggle: String,
}

/// All settings.
#[derive(Debug, Clone, PartialEq, Eq)]
pub struct Config {
    pub capture: CaptureConfig,
    pub encode: EncodeConfig,
    pub buffer: BufferConfig,
    pub output: OutputConfig,
    pub audio: AudioConfig,
    pub hotkeys: HotkeyConfig,
}

/// What settings say.
#[verifier::ext_equal]
pub struct ConfigView {
    pub capture: CaptureConfig,
    pub encode: EncodeConfig,
    pub buffer: BufferConfig,
    pub dir: Seq<char>,
    pub desktop: bool,
    pub mic: Seq<char>,
    pub bitrate_bps: u32,
    pub separate_tracks: bool,
    pub tracks: TrackConfig,
    pub vc_apps: Seq<(Seq<char>, bool)>,
    pub save_clip: Seq<char>,
    pub record_toggle: Seq<char>,
}

impl View for Config {
    type V = ConfigView;

    open spec fn view(&self) -> ConfigView {
        ConfigView {
            capture: self.capture,
            encode: self.encode,
            buffer: self.buffer,
            dir: self.output.dir@,
            desktop: self.audio.desktop,
            mic: self.audio.mic@,
            bitrate_bps: self.audio.bitrate_bps,
            separate_tracks: self.audio.separate_tracks,
            tracks: self.audio.tracks,
            vc_apps: app_views(self.audio.vc_apps@),
            save_clip: self.hotkeys.save_clip@,
            record_toggle: self.hotkeys.record_toggle@,
        }
    }
}

impl Config {
    /// The same settings again.
    pub fn copy(&self) -> (c: Self)
        ensures
            c@ == self@,
    {
        Config {
            capture: CaptureConfig {
                fps: self.capture.fps,
                cursor: self.capture.cursor,
                target: self.capture.target,
            },
            encode: EncodeConfig {
                quality: self.encode.quality,
                resolution: self.encode.resolution,
            },
            buffer: BufferConfig {
                seconds: self.buffer.seconds,
                clear_after_save: self.buffer.clear_after_save,
                precise_mode: self.buffer.precise_mode,
            },
            output: OutputConfig { dir: self.output.dir.clone() },
            audio: AudioConfig {
                desktop: self.audio.desktop,
                mic: self.audio.mic.clone(),
                bitrate_bps: self.audio.bitrate_bps,
                separate_tracks: self.audio.separate_tracks,
                tracks: TrackConfig {
                    game: self.audio.tracks.game,
                    voice_chat: self.audio.tracks.voice_chat,
                    other_system: self.audio.tracks.other_system,
                },
                vc_apps: copy_apps(&self.audio.vc_apps),
            },
            hotkeys: HotkeyConfig {
                save_clip: self.hotkeys.save_clip.clone(),
                record_toggle: self.hotkeys.record_toggle.clone(),
            },
        }
    }

    /// Whether two settings say the same.
    pub fn same_as(&self, other: &Config) -> (r: bool)
        ensures
            r == (self@ == other@),
    {
        self.capture.fps == other.capture.fps && self.capture.cursor == other.capture.cursor
            && self.capture.target == other.capture.target && self.encode.quality
            == other.encode.quality && self.encode.resolution == other.encode.resolution
            && self.buffer.seconds == other.buffer.seconds && self.buffer.clear_after_save
            == other.buffer.clear_after_save && self.buffer.precise_mode
            == other.buffer.precise_mode && self.audio.desktop == other.audio.desktop
            && self.audio.bitrate_bps == other.audio.bitrate_bps && self.audio.separate_tracks
            == other.audio.separate_tracks && self.audio.tracks.game == other.audio.tracks.game
            && self.audio.tracks.voice_chat == other.audio.tracks.voice_chat
            && self.audio.tracks.other_system == other.audio.tracks.other_system && same_apps(
            &self.audio.vc_apps,
            &other.audio.vc_apps,
        ) && same_text(
            self.output.dir.as_str(),
            other.output.dir.as_str(),
        ) && same_text(self.audio.mic.as_str(), other.audio.mic.as_str()) && same_text(
            self.hotkeys.save_clip.as_str(),
            other.hotkeys.save_clip.as_str(),
        ) && same_text(
            self.hotkeys.record_toggle.as_str(),
            other.hotkeys.record_toggle.as_str(),
        )
    }
}

} // verus!
