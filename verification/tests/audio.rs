use selftrack::audio::{audible_streams, drop_paused_streams, is_paused_app, mpris_identity, paused_identities};

const EQ_ONLY: &str = r#"Sink Input #37
	Driver: PipeWire
	Sink: 63
	Corked: no
	Mute: no
	Properties:
		node.virtual = "true"
		media.name = "SELFshell EQ"
		object.serial = "37"
"#;

const PAUSED_PLAYER: &str = r#"Sink Input #80
	Driver: PipeWire
	Sink: 63
	Corked: yes
	Mute: no
	Properties:
		application.name = "Chromium"
		object.serial = "80"
"#;

const MUTED_PLAYER: &str = r#"Sink Input #81
	Driver: PipeWire
	Sink: 63
	Corked: no
	Mute: yes
	Properties:
		application.name = "mpv"
		object.serial = "81"
"#;

const PLAYING_PLAYER: &str = r#"Sink Input #76
	Driver: PipeWire
	Sink: 36
	Corked: no
	Mute: no
	Properties:
		application.name = "PipeWire ALSA [selfsonic]"
		object.serial = "76"
"#;

#[test]
fn eq_loopback_alone_is_not_playback() {
    assert!(audible_streams(EQ_ONLY).is_empty());
}

#[test]
fn paused_player_is_not_playback() {
    assert!(audible_streams(PAUSED_PLAYER).is_empty());
}

#[test]
fn muted_player_is_not_playback() {
    assert!(audible_streams(MUTED_PLAYER).is_empty());
}

#[test]
fn running_player_is_playback() {
    assert_eq!(
        audible_streams(PLAYING_PLAYER),
        vec!["PipeWire ALSA [selfsonic]".to_string()]
    );
}

#[test]
fn mixed_list_reports_only_audible() {
    let mixed = [EQ_ONLY, PAUSED_PLAYER, PLAYING_PLAYER].join("\n");
    assert_eq!(
        audible_streams(&mixed),
        vec!["PipeWire ALSA [selfsonic]".to_string()]
    );
}

#[test]
fn empty_list_is_silence() {
    assert!(audible_streams("").is_empty());
}

#[test]
fn paused_mpris_app_is_excluded() {
    let paused = vec!["selfsonic".to_string(), "chromium.instance1809".to_string()];
    assert!(is_paused_app("PipeWire ALSA [selfsonic]", &paused));
    assert!(is_paused_app("Chromium", &paused));
    assert!(!is_paused_app("mpv", &paused));
    assert!(!is_paused_app("Firefox", &[]));
}

#[test]
fn stream_without_names_is_unknown() {
    let text = "Sink Input #1\n\tCorked: no\n\tMute: no\n\tProperties:\n\t\tobject.serial = \"1\"\n";
    assert_eq!(audible_streams(text), vec!["unknown".to_string()]);
}

#[test]
fn media_name_is_used_without_application_name() {
    let text = "Sink Input #2\r\n\tCorked: no\r\n\tMute: no\r\n\t\tmedia.name = \"Podcast\"\r\n";
    assert_eq!(audible_streams(text), vec!["Podcast".to_string()]);
}

#[test]
fn application_name_wins_over_media_name() {
    let text = "Sink Input #3\n Corked: no\n Mute: no\n media.name = \"Track\"\n application.name = \"mpv\"\n";
    assert_eq!(audible_streams(text), vec!["mpv".to_string()]);
}

#[test]
fn later_property_value_replaces_earlier() {
    let text = "Sink Input #4\nCorked: no\nMute: no\nnode.virtual = \"true\"\nnode.virtual = \"false\"\napplication.name = \"a\"\n";
    assert_eq!(audible_streams(text), vec!["a".to_string()]);
}

#[test]
fn two_playing_streams_in_order() {
    let text = format!("{PLAYING_PLAYER}\n{}", PLAYING_PLAYER.replace("selfsonic", "other"));
    assert_eq!(
        audible_streams(&text),
        vec!["PipeWire ALSA [selfsonic]".to_string(), "PipeWire ALSA [other]".to_string()]
    );
}

#[test]
fn paused_players_are_dropped_from_candidates() {
    let candidates = vec!["PipeWire ALSA [selfsonic]".to_string(), "mpv".to_string(), "Chromium".to_string()];
    let paused = vec!["selfsonic".to_string()];
    assert_eq!(drop_paused_streams(&candidates, &paused), vec!["mpv".to_string(), "Chromium".to_string()]);
    assert_eq!(drop_paused_streams(&candidates, &[]), candidates);
}

#[test]
fn empty_identity_matches_every_stream() {
    assert!(is_paused_app("mpv", &["".to_string()]));
}

#[test]
fn mpris_identity_strips_the_bus_prefix() {
    assert_eq!(mpris_identity("org.mpris.MediaPlayer2.chromium.instance1809"), Some("chromium.instance1809".to_string()));
    assert_eq!(mpris_identity("org.freedesktop.Notifications"), None);
}

#[test]
fn paused_and_stopped_players_are_collected_lowercase() {
    let players = vec![
        ("Spotify".to_string(), "Paused".to_string()),
        ("mpv".to_string(), "Playing".to_string()),
        ("VLC".to_string(), "Stopped".to_string()),
        ("x".to_string(), "paused".to_string()),
    ];
    assert_eq!(paused_identities(&players), vec!["spotify".to_string(), "vlc".to_string()]);
}
