use tsong::prefs::{Preferences, MIN_VOLUME, MAX_VOLUME, STANDARD_VOLUME, get_standard_volume, quieter_volume, louder_volume};
use tsong::config::{ConfigEnv, ConfigPath, OsKind, get_search_paths, get_config_file_path, backup_suffix, new_suffix, best_config_choice};

fn empty_env() -> ConfigEnv {
    ConfigEnv {
        tsong_config_home: None,
        appdata: None,
        userprofile: None,
        homepath: None,
        home: None,
        homedrive: None,
        xdg_config_dirs: None,
        xdg_config_home: None,
    }
}

fn show(p: &ConfigPath) -> String {
    let mut s = String::from_utf8(p.base.clone()).unwrap();
    for part in p.parts.iter() {
        s.push('|');
        s.push_str(part);
    }
    s
}

#[test]
fn volume_is_clamped() {
    let mut p = Preferences::default();
    assert_eq!(p.get_volume(), STANDARD_VOLUME);
    assert_eq!(get_standard_volume(), 100);
    p.set_volume(250);
    assert_eq!(p.get_volume(), MAX_VOLUME);
    p.set_volume(-3);
    assert_eq!(p.get_volume(), MIN_VOLUME);
    p.set_volume(77);
    assert_eq!(p.get_volume(), 77);
    let saved_loud = Preferences::from_saved(500, false, Vec::new(), None, None, None, None);
    assert_eq!(saved_loud.get_volume(), MAX_VOLUME);
    let saved_quiet = Preferences::from_saved(-7, false, Vec::new(), None, None, None, None);
    assert_eq!(saved_quiet.get_volume(), MIN_VOLUME);
}

#[test]
fn remote_volume_steps() {
    assert_eq!(quieter_volume(100), Some(95));
    assert_eq!(quieter_volume(3), Some(0));
    assert_eq!(quieter_volume(0), None);
    // louder goes straight to the top of the range
    assert_eq!(louder_volume(100), Some(200));
    assert_eq!(louder_volume(200), Some(205));
}

#[test]
fn other_preferences() {
    let mut p = Preferences::default();
    assert!(!p.get_show_decibels_on_volume_slider());
    p.set_show_decibels_on_volume_slider(true);
    assert!(p.get_show_decibels_on_volume_slider());
    p.set_music_paths(vec!["/music".to_owned(), "/more".to_owned()]);
    assert_eq!(p.get_music_paths(), vec!["/music".to_owned(), "/more".to_owned()]);
}

#[test]
fn preferences_file_text() {
    let mut p = Preferences::default();
    p.set_music_paths(vec!["/music".to_owned(), "say \"hi\"".to_owned()]);
    let text = p.to_toml("0.15", "3.0");
    assert_eq!(text, "volume = 100\nshow_decibels_on_volume_slider = false\ndesired_latency = 0.15\n\
decode_ahead = 3.0\nmusic_paths = [\n  \"/music\",\n  \"say \\\"hi\\\"\",\n]\n");
    p.set_chosen_audio_api_and_device(0, 2, "ALSA", Some((4, "hw:0")));
    p.set_volume(-5);
    let text = p.to_toml("0.1", "0.5");
    assert!(text.starts_with("volume = 0\n"));
    assert!(text.ends_with("]\n\n# PortAudio settings\naudio_api_index = 2\naudio_api_name = \"ALSA\"\n\
audio_dev_index = 4\naudio_dev_name = \"hw:0\"\n"));
    let only_dev = Preferences::from_saved(-7, true, Vec::new(), None, None, Some(1), Some("d".to_owned()));
    assert_eq!(only_dev.to_toml("a", "b"), "volume = 0\nshow_decibels_on_volume_slider = true\ndesired_latency = a\n\
decode_ahead = b\nmusic_paths = [\n]\n\n# PortAudio settings\naudio_dev_index = 1\naudio_dev_name = \"d\"\n");
}

#[test]
fn audio_choices_must_still_match() {
    let mut p = Preferences::default();
    assert_eq!(p.chosen_audio_api(Some("ALSA")), None);
    p.set_chosen_audio_api_and_device(0, 2, "ALSA", Some((4, "hw:0")));
    assert_eq!(p.get_saved_audio_api_index(), Some(2));
    assert_eq!(p.chosen_audio_api(Some("ALSA")), Some(2));
    assert_eq!(p.chosen_audio_api(Some("JACK")), None);
    assert_eq!(p.chosen_audio_api(None), None);
    assert_eq!(p.get_saved_audio_dev_index(), Some(4));
    assert_eq!(p.chosen_audio_device(Some((true, "hw:0"))), Some(4));
    assert_eq!(p.chosen_audio_device(Some((false, "hw:0"))), None);
    assert_eq!(p.chosen_audio_device(Some((true, "hw:1"))), None);
    // choosing the default API forgets the API choice
    p.set_chosen_audio_api_and_device(2, 2, "ALSA", None);
    assert_eq!(p.get_saved_audio_api_index(), None);
    assert_eq!(p.get_saved_audio_dev_index(), None);
}

#[test]
fn unix_search_paths() {
    let mut env = empty_env();
    env.home = Some(b"/home/u".to_vec());
    let paths = get_search_paths(&env, OsKind::Unix);
    let shown: Vec<String> = paths.iter().map(show).collect();
    assert_eq!(shown, vec!["/etc/xdg|Tsong", "/home/u|.config|Tsong"]);
    env.xdg_config_dirs = Some(b"/a::/b:".to_vec());
    env.xdg_config_home = Some(b"/cfg".to_vec());
    let shown: Vec<String> = get_search_paths(&env, OsKind::Unix).iter().map(show).collect();
    assert_eq!(shown, vec!["/a|Tsong", "/b|Tsong", "/cfg|Tsong"]);
    let file = get_config_file_path(&get_search_paths(&env, OsKind::Unix), "Database.sqlite3");
    assert_eq!(show(&file), "/cfg|Tsong|Database.sqlite3");
}

#[test]
fn other_search_paths() {
    let mut env = empty_env();
    env.userprofile = Some(b"C:\\Users\\u".to_vec());
    let shown: Vec<String> = get_search_paths(&env, OsKind::Windows).iter().map(show).collect();
    assert_eq!(shown, vec!["C:\\Users\\u|AppData|Roaming|Tsong"]);
    let shown: Vec<String> = get_search_paths(&empty_env(), OsKind::Windows).iter().map(show).collect();
    assert_eq!(shown, vec!["C:\\|Documents and Settings|Tsong"]);
    env.home = Some(b"/Users/u".to_vec());
    let shown: Vec<String> = get_search_paths(&env, OsKind::MacOs).iter().map(show).collect();
    assert_eq!(shown, vec!["/Users/u|Library|Application Support|Tsong"]);
    let shown: Vec<String> = get_search_paths(&empty_env(), OsKind::Other).iter().map(show).collect();
    assert_eq!(shown, vec!["/home/.config|Tsong"]);
    let mut portable = empty_env();
    portable.tsong_config_home = Some(b"/usb/tsong".to_vec());
    portable.home = Some(b"/home/u".to_vec());
    let shown: Vec<String> = get_search_paths(&portable, OsKind::Unix).iter().map(show).collect();
    assert_eq!(shown, vec!["/usb/tsong|Tsong"]);
    assert_eq!(backup_suffix(OsKind::Windows), ".bak");
    assert_eq!(backup_suffix(OsKind::Unix), "~");
    assert_eq!(new_suffix(OsKind::Windows), ".neu");
    assert_eq!(new_suffix(OsKind::MacOs), "^");
}

#[test]
fn most_specific_config_file_wins() {
    assert_eq!(best_config_choice(&vec![]), None);
    assert_eq!(best_config_choice(&vec![(false, false), (false, false)]), None);
    assert_eq!(best_config_choice(&vec![(true, false), (false, false)]), Some((0, false)));
    assert_eq!(best_config_choice(&vec![(true, true), (false, true)]), Some((1, true)));
    assert_eq!(best_config_choice(&vec![(false, true), (true, true), (false, false)]), Some((1, false)));
}
