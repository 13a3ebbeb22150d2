use std::path::PathBuf;

use lala_bar::art::{bar_art, bar_art_for, has_picture_suffix, panel_art, panel_art_for, PanelArt};
use lala_bar::player::{is_playing, pick_player, play_button, player_controls, PlayButton, PlayerInfo};

fn player(title: &str, status: &str) -> PlayerInfo {
    PlayerInfo {
        title: title.to_string(),
        art_url: String::new(),
        playback_status: status.to_string(),
        can_play: true,
        can_pause: false,
        can_go_next: true,
        can_go_previous: false,
    }
}

#[test]
fn pick_player_prefers_a_playing_one() {
    let ps = vec![player("a", "Paused"), player("", "Playing"), player("c", "Playing"), player("d", "Playing")];
    assert_eq!(pick_player(&ps), Some(2));
}

#[test]
fn pick_player_falls_back_to_first_alive() {
    let ps = vec![player("", "Paused"), player("b", "Stopped"), player("c", "Paused")];
    assert_eq!(pick_player(&ps), Some(1));
}

#[test]
fn pick_player_none_without_titles() {
    let ps = vec![player("", "Playing"), player("", "Paused")];
    assert_eq!(pick_player(&ps), None);
    assert_eq!(pick_player(&Vec::new()), None);
}

#[test]
fn playing_status_is_exact() {
    assert!(is_playing(&player("a", "Playing")));
    assert!(!is_playing(&player("a", "playing")));
    assert!(!is_playing(&player("a", "Paused")));
}

#[test]
fn play_button_follows_status() {
    assert_eq!(play_button(&player("a", "Playing")), PlayButton::Pause { enabled: false });
    assert_eq!(play_button(&player("a", "Paused")), PlayButton::Play { enabled: true });
    let c = player_controls(&player("a", "Stopped"));
    assert!(!c.previous);
    assert!(c.next);
    assert_eq!(c.play, PlayButton::Play { enabled: true });
}

#[test]
fn picture_suffixes() {
    assert!(has_picture_suffix("file:///tmp/cover.png"));
    assert!(has_picture_suffix("file:///tmp/cover.jpeg"));
    assert!(has_picture_suffix("file:///tmp/cover.jpg"));
    assert!(!has_picture_suffix("file:///tmp/.org.chromium.Chromium.hYbnBf"));
    assert!(!has_picture_suffix("png.txt"));
    assert!(has_picture_suffix("file:///tmp/caf\u{e9}-\u{fc}ber.png"));
    assert!(!has_picture_suffix("file:///tmp/cover.p\u{f1}g"));
    assert!(!has_picture_suffix("pg"));
    assert!(!has_picture_suffix(""));
}

#[test]
fn bar_art_needs_picture_and_local_file() {
    assert_eq!(bar_art("file:///tmp/cover.png"), Some(PathBuf::from("/tmp/cover.png")));
    assert_eq!(bar_art("file:///tmp/.org.chromium.Chromium.hYbnBf"), None);
    assert_eq!(bar_art("https://example.org/cover.png"), None);
    assert_eq!(bar_art("not a url.png"), None);
}

#[test]
fn panel_art_shows_title_for_any_local_file() {
    assert_eq!(
        panel_art("file:///tmp/.org.chromium.Chromium.hYbnBf"),
        PanelArt { image: None, show_title: true }
    );
    assert_eq!(
        panel_art("file:///tmp/cover.jpg"),
        PanelArt { image: Some(PathBuf::from("/tmp/cover.jpg")), show_title: true }
    );
    assert_eq!(panel_art("not a url"), PanelArt { image: None, show_title: false });
}

#[test]
fn panel_art_for_given_file() {
    assert_eq!(
        panel_art_for("x.png", Some(PathBuf::from("/p"))),
        PanelArt { image: Some(PathBuf::from("/p")), show_title: true }
    );
    assert_eq!(panel_art_for("x.gif", Some(PathBuf::from("/p"))), PanelArt { image: None, show_title: true });
    assert_eq!(panel_art_for("x.png", None), PanelArt { image: None, show_title: false });
}

#[test]
fn bar_art_for_given_file() {
    assert_eq!(bar_art_for("x.jpeg", Some(PathBuf::from("/p"))), Some(PathBuf::from("/p")));
    assert_eq!(bar_art_for("x.gif", Some(PathBuf::from("/p"))), None);
    assert_eq!(bar_art_for("x.jpg", None), None);
}

#[test]
fn art_keeps_paths_that_are_not_utf8() {
    // %FF decodes to a byte that is not UTF-8; the path still names the file
    let art = bar_art("file:///tmp/%FF.png");
    assert!(art.is_some());
    assert!(panel_art("file:///tmp/%FF").show_title);
}
