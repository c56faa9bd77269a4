//! The user preferences stored in `Tsong.toml` and changed in the
//! Preferences window: volume, decibel display, music folders and the chosen
//! audio host API and device. (The latency and decode-ahead settings are
//! seconds held as floating point, and are kept by the caller.)

use vstd::prelude::*;
use crate::text::signed_decimal;
use crate::text::{append_str, push_decimal, push_signed_decimal, decimal_digits, copy_strings, str_eq, owned};

verus! {

/// The name of the preferences file.
pub const PREFS_FILE_NAME: &'static str = "Tsong.toml";

/// The lowest permitted volume level.
pub const MIN_VOLUME: i32 = 0;
/// The standard volume level.
pub const STANDARD_VOLUME: i32 = 100;
/// The highest permitted volume level.
pub const MAX_VOLUME: i32 = 200;

/// The standard volume level.
pub fn get_standard_volume() -> (r: i32)
    ensures
        r == STANDARD_VOLUME,
{
    STANDARD_VOLUME
}

/// The volume after the remote control asks for it quieter: 5 lower, but
/// not below `MIN_VOLUME`; `None` if that changes nothing.
pub fn quieter_volume(cur: i32) -> (r: Option<i32>)
    requires
        cur >= i32::MIN + 5,
    ensures
        r == (if (if cur - 5 > MIN_VOLUME { cur - 5 } else { MIN_VOLUME as int }) == cur { None } else {
            Some((if cur - 5 > MIN_VOLUME { cur - 5 } else { MIN_VOLUME as int }) as i32)
        }),
{
    let lowered = cur - 5;
    let nu = if lowered > MIN_VOLUME { lowered } else { MIN_VOLUME };
    if nu == cur { None } else { Some(nu) }
}

/// The volume after the remote control asks for it louder: 5 higher, but
/// at least `MAX_VOLUME` (the volume setter then holds it to
/// `MAX_VOLUME`); `None` if that changes nothing.
pub fn louder_volume(cur: i32) -> (r: Option<i32>)
    requires
        cur <= i32::MAX - 5,
    ensures
        r == (if (if cur + 5 > MAX_VOLUME { cur + 5 } else { MAX_VOLUME as int }) == cur { None } else {
            Some((if cur + 5 > MAX_VOLUME { cur + 5 } else { MAX_VOLUME as int }) as i32)
        }),
{
    let raised = cur + 5;
    let nu = if raised > MAX_VOLUME { raised } else { MAX_VOLUME };
    if nu == cur { None } else { Some(nu) }
}

/// The user preferences.
pub struct Preferences {
    volume: i32,
    show_decibels_on_volume_slider: bool,
    music_paths: Vec<String>,
    // the index and the name must both match for a choice to hold
    audio_api_index: Option<u32>,
    audio_api_name: Option<String>,
    audio_dev_index: Option<u32>,
    audio_dev_name: Option<String>,
}

/// What the preferences hold, as mathematical values.
pub struct PrefsView {
    pub volume: i32,
    pub show_decibels_on_volume_slider: bool,
    pub music_paths: Seq<Seq<char>>,
    pub audio_api_index: Option<u32>,
    pub audio_api_name: Option<Seq<char>>,
    pub audio_dev_index: Option<u32>,
    pub audio_dev_name: Option<Seq<char>>,
}

/// The characters of an optional string.
pub open spec fn opt_view(s: Option<String>) -> Option<Seq<char>> {
    match s {
        Some(x) => Some(x@),
        None => None,
    }
}

/// The characters of each string.
pub open spec fn strings_view(v: Seq<String>) -> Seq<Seq<char>> {
    v.map_values(|s: String| s@)
}

impl View for Preferences {
    type V = PrefsView;

    closed spec fn view(&self) -> PrefsView {
        PrefsView {
            volume: self.volume,
            show_decibels_on_volume_slider: self.show_decibels_on_volume_slider,
            music_paths: strings_view(self.music_paths@),
            audio_api_index: self.audio_api_index,
            audio_api_name: opt_view(self.audio_api_name),
            audio_dev_index: self.audio_dev_index,
            audio_dev_name: opt_view(self.audio_dev_name),
        }
    }
}

impl Default for Preferences {
    /// Standard volume, no decibels, no music folders, default audio API and
    /// device.
    fn default() -> (p: Preferences)
        ensures
            p@ == (PrefsView {
                volume: STANDARD_VOLUME,
                show_decibels_on_volume_slider: false,
                music_paths: Seq::empty(),
                audio_api_index: None,
                audio_api_name: None,
                audio_dev_index: None,
                audio_dev_name: None,
            }),
    {
        let p = Preferences {
            volume: STANDARD_VOLUME,
            show_decibels_on_volume_slider: false,
            music_paths: Vec::new(),
            audio_api_index: None,
            audio_api_name: None,
            audio_dev_index: None,
            audio_dev_name: None,
        };
        assert(p@.music_paths =~= Seq::<Seq<char>>::empty());
        p
    }
}

/// `v` clamped to `lo..=hi` (as `v.max(lo).min(hi)`).
pub open spec fn clamped(v: i32, lo: i32, hi: i32) -> i32 {
    let m = if v > lo { v } else { lo };
    if m < hi { m } else { hi }
}

/// The text `key = value` of a TOML boolean.
pub open spec fn bool_text(b: bool) -> Seq<char> {
    if b { "true"@ } else { "false"@ }
}

/// How `toml::Value::String` writes a string (quoted and escaped).
pub uninterp spec fn toml_quoted(s: Seq<char>) -> Seq<char>;

/// A string as a TOML string value.
///
/// Trusted: formats `toml::Value::String` with its `Display` impl, which
/// serializes the value with `toml::ser::to_string`; the text depends on the
/// string alone (named, not stated).
#[verifier::external_body]
fn toml_string(s: &str) -> (r: String)
    ensures
        r@ == toml_quoted(s@),
{
    format!("{}", toml::Value::String(s.to_owned()))
}

/// The lines listing the music folders.
pub open spec fn paths_text(paths: Seq<Seq<char>>) -> Seq<char>
    decreases paths.len(),
{
    if paths.len() == 0 {
        Seq::empty()
    } else {
        paths_text(paths.drop_last()) + "  "@ + toml_quoted(paths.last()) + ",\n"@
    }
}

/// The PortAudio section of the preferences file.
pub open spec fn audio_text(p: PrefsView) -> Seq<char> {
    let api = p.audio_api_index is Some && p.audio_api_name is Some;
    let dev = p.audio_dev_index is Some && p.audio_dev_name is Some;
    (if api {
        "\n# PortAudio settings\naudio_api_index = "@ + decimal_digits(p.audio_api_index->0 as nat)
            + "\naudio_api_name = "@ + toml_quoted(p.audio_api_name->0) + "\n"@
    } else {
        Seq::empty()
    }) + (if dev {
        (if api { Seq::empty() } else { "\n# PortAudio settings\n"@ })
            + "audio_dev_index = "@ + decimal_digits(p.audio_dev_index->0 as nat)
            + "\naudio_dev_name = "@ + toml_quoted(p.audio_dev_name->0) + "\n"@
    } else {
        Seq::empty()
    })
}

/// The first lines of the preferences file, up to the start of the music
/// folder list.
pub open spec fn head_text(p: PrefsView, latency: Seq<char>, decode_ahead: Seq<char>) -> Seq<char> {
    "volume = "@ + signed_decimal(p.volume as int) + "\n"@
        + "show_decibels_on_volume_slider = "@ + bool_text(p.show_decibels_on_volume_slider) + "\n"@
        + "desired_latency = "@ + latency + "\n"@
        + "decode_ahead = "@ + decode_ahead + "\n"@
        + "music_paths = [\n"@
}

/// The text of the preferences file, given the texts of the latency and
/// decode-ahead values.
pub open spec fn prefs_text(p: PrefsView, latency: Seq<char>, decode_ahead: Seq<char>) -> Seq<char> {
    head_text(p, latency, decode_ahead) + paths_text(p.music_paths) + "]\n"@ + audio_text(p)
}

/// The device found at the saved index belongs to the chosen host API and
/// has the saved name.
pub open spec fn device_still_matches(found: Option<(bool, &str)>, name: Seq<char>) -> bool {
    match found {
        Some((same_api, found_name)) => same_api && found_name@ == name,
        None => false,
    }
}

impl Preferences {
    /// The volume is always within `MIN_VOLUME` and `MAX_VOLUME`.
    #[verifier::type_invariant]
    spec fn volume_in_range(&self) -> bool {
        MIN_VOLUME <= self.volume <= MAX_VOLUME
    }

    /// Preferences as read from the preferences file; the volume is clamped
    /// within `MIN_VOLUME` and `MAX_VOLUME`.
    pub fn from_saved(volume: i32, show_decibels_on_volume_slider: bool, music_paths: Vec<String>,
        audio_api_index: Option<u32>, audio_api_name: Option<String>, audio_dev_index: Option<u32>,
        audio_dev_name: Option<String>) -> (p: Preferences)
        ensures
            p@ == (PrefsView {
                volume: clamped(volume, MIN_VOLUME, MAX_VOLUME),
                show_decibels_on_volume_slider,
                music_paths: strings_view(music_paths@),
                audio_api_index,
                audio_api_name: opt_view(audio_api_name),
                audio_dev_index,
                audio_dev_name: opt_view(audio_dev_name),
            }),
    {
        let v = if volume > MIN_VOLUME { volume } else { MIN_VOLUME };
        Preferences {
            volume: if v < MAX_VOLUME { v } else { MAX_VOLUME },
            show_decibels_on_volume_slider,
            music_paths,
            audio_api_index,
            audio_api_name,
            audio_dev_index,
            audio_dev_name,
        }
    }

    /// The current setting of the volume slider.
    pub fn get_volume(&self) -> (r: i32)
        ensures
            r == self@.volume,
            MIN_VOLUME <= r <= MAX_VOLUME,
    {
        proof { use_type_invariant(self); }
        self.volume
    }

    /// Sets the volume, clamped within `MIN_VOLUME` and `MAX_VOLUME`.
    pub fn set_volume(&mut self, volume: i32)
        ensures
            final(self)@ == (PrefsView { volume: clamped(volume, MIN_VOLUME, MAX_VOLUME), ..old(self)@ }),
            MIN_VOLUME <= final(self)@.volume <= MAX_VOLUME,
    {
        proof { use_type_invariant(&*self); }
        let v = if volume > MIN_VOLUME { volume } else { MIN_VOLUME };
        self.volume = if v < MAX_VOLUME { v } else { MAX_VOLUME };
    }

    /// True if the user wants to see decibels.
    pub fn get_show_decibels_on_volume_slider(&self) -> (r: bool)
        ensures
            r == self@.show_decibels_on_volume_slider,
    {
        self.show_decibels_on_volume_slider
    }

    /// Sets whether the user wants to see decibels.
    pub fn set_show_decibels_on_volume_slider(&mut self, nu: bool)
        ensures
            final(self)@ == (PrefsView { show_decibels_on_volume_slider: nu, ..old(self)@ }),
    {
        proof { use_type_invariant(&*self); }
        self.show_decibels_on_volume_slider = nu;
    }

    /// A copy of the list of music folders.
    pub fn get_music_paths(&self) -> (r: Vec<String>)
        ensures
            strings_view(r@) == self@.music_paths,
    {
        copy_strings(&self.music_paths)
    }

    /// Replaces the list of music folders.
    pub fn set_music_paths(&mut self, music_paths: Vec<String>)
        ensures
            final(self)@ == (PrefsView { music_paths: strings_view(music_paths@), ..old(self)@ }),
    {
        proof { use_type_invariant(&*self); }
        self.music_paths = music_paths;
    }

    /// The saved host API index (to look up its current name).
    pub fn get_saved_audio_api_index(&self) -> (r: Option<u32>)
        ensures
            r == self@.audio_api_index,
    {
        self.audio_api_index
    }

    /// The saved device index within its host API (to look up its current
    /// name).
    pub fn get_saved_audio_dev_index(&self) -> (r: Option<u32>)
        ensures
            r == self@.audio_dev_index,
    {
        self.audio_dev_index
    }

    /// The host API chosen by the user, if the choice still holds: a host
    /// API index was saved (one that fits a host API index, `i32`), and the
    /// host API now at that index (whose name is `name_at_saved_index`, if
    /// there is one) has the saved name. Otherwise the default host API is
    /// to be used.
    pub fn chosen_audio_api(&self, name_at_saved_index: Option<&str>) -> (r: Option<u32>)
        ensures
            r is Some <==> (self@.audio_api_index is Some && self@.audio_api_index->0 <= i32::MAX
                && self@.audio_api_name is Some && name_at_saved_index is Some
                && name_at_saved_index->0@ == self@.audio_api_name->0),
            r is Some ==> r == self@.audio_api_index,
    {
        match (self.audio_api_index, &self.audio_api_name, name_at_saved_index) {
            (Some(index), Some(name), Some(found)) => {
                if index <= 2147483647 && str_eq(name.as_str(), found) {
                    Some(index)
                } else {
                    None
                }
            },
            _ => None,
        }
    }

    /// The device chosen by the user within the chosen host API, if the
    /// choice still holds: a device index was saved, and the device now at
    /// that index (`device_at_saved_index`: whether it belongs to the chosen
    /// host API, and its name) belongs to the chosen API and has the saved
    /// name. Otherwise the API's default device is to be used.
    pub fn chosen_audio_device(&self, device_at_saved_index: Option<(bool, &str)>) -> (r: Option<u32>)
        ensures
            r is Some <==> (self@.audio_dev_index is Some && self@.audio_dev_name is Some
                && device_still_matches(device_at_saved_index, self@.audio_dev_name->0)),
            r is Some ==> r == self@.audio_dev_index,
    {
        match (self.audio_dev_index, &self.audio_dev_name, device_at_saved_index) {
            (Some(index), Some(name), Some((same_api, found))) => {
                if same_api && str_eq(name.as_str(), found) {
                    Some(index)
                } else {
                    None
                }
            },
            _ => None,
        }
    }

    /// Records the user's choice of host API and device. Choosing the
    /// default host API (`api_index == default_api`) records no API choice;
    /// `None` for the device records no device choice.
    pub fn set_chosen_audio_api_and_device(&mut self, default_api: i32, api_index: i32, api_name: &str, dev: Option<(u32, &str)>)
        ensures
            final(self)@ == (PrefsView {
                audio_api_index: if api_index == default_api { None } else { Some(api_index as u32) },
                audio_api_name: if api_index == default_api { None } else { Some(api_name@) },
                audio_dev_index: match dev { Some(d) => Some(d.0), None => None },
                audio_dev_name: match dev { Some(d) => Some(d.1@), None => None },
                ..old(self)@
            }),
    {
        proof { use_type_invariant(&*self); }
        if api_index == default_api {
            self.audio_api_index = None;
            self.audio_api_name = None;
        } else {
            self.audio_api_index = Some(api_index as u32);
            self.audio_api_name = Some(owned(api_name));
        }
        match dev {
            None => {
                self.audio_dev_index = None;
                self.audio_dev_name = None;
            },
            Some((dev_index, dev_name)) => {
                self.audio_dev_index = Some(dev_index);
                self.audio_dev_name = Some(owned(dev_name));
            },
        }
    }

    fn write_head(&self, r: &mut String, latency: &str, decode_ahead: &str)
        ensures
            final(r)@ == old(r)@ + head_text(self@, latency@, decode_ahead@),
    {
        append_str(r, "volume = ");
        push_signed_decimal(r, self.volume);
        append_str(r, "\n");
        append_str(r, "show_decibels_on_volume_slider = ");
        append_str(r, if self.show_decibels_on_volume_slider { "true" } else { "false" });
        append_str(r, "\n");
        append_str(r, "desired_latency = ");
        append_str(r, latency);
        append_str(r, "\n");
        append_str(r, "decode_ahead = ");
        append_str(r, decode_ahead);
        append_str(r, "\n");
        append_str(r, "music_paths = [\n");
        proof {
            reveal_strlit("true");
            reveal_strlit("false");
            assert(r@ =~= old(r)@ + head_text(self@, latency@, decode_ahead@));
        }
    }

    fn write_paths(&self, r: &mut String)
        ensures
            final(r)@ == old(r)@ + paths_text(self@.music_paths),
    {
        let ghost ps = strings_view(self.music_paths@);
        let mut i: usize = 0;
        while i < self.music_paths.len()
            invariant
                i <= self.music_paths@.len(),
                ps == strings_view(self.music_paths@),
                r@ == old(r)@ + paths_text(ps.take(i as int)),
            decreases self.music_paths.len() - i,
        {
            append_str(r, "  ");
            let q = toml_string(self.music_paths[i].as_str());
            append_str(r, q.as_str());
            append_str(r, ",\n");
            i += 1;
            proof {
                assert(ps.take(i as int).drop_last() =~= ps.take(i - 1));
                assert(ps.take(i as int).last() == self.music_paths@[i - 1]@);
                assert(r@ =~= old(r)@ + paths_text(ps.take(i as int)));
            }
        }
        assert(ps.take(ps.len() as int) =~= ps);
    }

    fn write_audio(&self, r: &mut String)
        ensures
            final(r)@ == old(r)@ + audio_text(self@),
    {
        let ghost start = r@;
        let api = match (self.audio_api_index, &self.audio_api_name) {
            (Some(index), Some(name)) => {
                append_str(r, "\n# PortAudio settings\naudio_api_index = ");
                push_decimal(r, index as u64);
                append_str(r, "\naudio_api_name = ");
                let q = toml_string(name.as_str());
                append_str(r, q.as_str());
                append_str(r, "\n");
                true
            },
            _ => false,
        };
        let ghost mid = r@;
        let ghost p = self@;
        assert(mid =~= start + (if p.audio_api_index is Some && p.audio_api_name is Some {
            "\n# PortAudio settings\naudio_api_index = "@ + decimal_digits(p.audio_api_index->0 as nat)
                + "\naudio_api_name = "@ + toml_quoted(p.audio_api_name->0) + "\n"@
        } else {
            Seq::empty()
        }));
        match (self.audio_dev_index, &self.audio_dev_name) {
            (Some(index), Some(name)) => {
                if !api {
                    append_str(r, "\n# PortAudio settings\n");
                }
                append_str(r, "audio_dev_index = ");
                push_decimal(r, index as u64);
                append_str(r, "\naudio_dev_name = ");
                let q = toml_string(name.as_str());
                append_str(r, q.as_str());
                append_str(r, "\n");
            },
            _ => {},
        }
        assert(r@ =~= start + audio_text(self@));
    }

    /// The text of the preferences file. The latency and decode-ahead values
    /// are given already written as TOML floats.
    pub fn to_toml(&self, latency: &str, decode_ahead: &str) -> (r: String)
        ensures
            r@ == prefs_text(self@, latency@, decode_ahead@),
    {
        let mut r = String::new();
        self.write_head(&mut r, latency, decode_ahead);
        self.write_paths(&mut r);
        append_str(&mut r, "]\n");
        self.write_audio(&mut r);
        assert(r@ =~= prefs_text(self@, latency@, decode_ahead@));
        r
    }
}

} // verus!
