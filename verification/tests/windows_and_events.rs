use lala_bar::bar::{Action, Bar, PlayerCommand, WindowContent, WindowInfo};
use lala_bar::clock::Clock;
use lala_bar::events::Event;
use lala_bar::player::PlayerInfo;
use lala_bar::SliderIndex;

fn clock() -> Clock {
    Clock { month: 1, day: 2, weekday: 3, hour: 4, minute: 5 }
}

fn player(can: bool) -> PlayerInfo {
    PlayerInfo {
        title: "song".to_string(),
        art_url: String::new(),
        playback_status: "Playing".to_string(),
        can_play: can,
        can_pause: can,
        can_go_next: can,
        can_go_previous: !can,
    }
}

#[test]
fn windows_read_back_their_role() {
    let mut bar = Bar::new(0, 0, clock());
    bar.set_id_info(1, WindowInfo::Launcher);
    bar.set_id_info(2, WindowInfo::HiddenInfo);
    bar.set_id_info(3, WindowInfo::RightPanel);
    assert_eq!(bar.id_info(1), Some(WindowContent::Launcher));
    assert_eq!(bar.id_info(2), Some(WindowContent::HiddenInfo));
    assert_eq!(bar.id_info(3), Some(WindowContent::RightPanel));
    assert_eq!(bar.id_info(4), None);
    bar.set_id_info(4, WindowInfo::Notify(77));
    assert_eq!(bar.id_info(4), Some(WindowContent::ErrorHappened(4)));
}

#[test]
fn forgotten_windows_show_nothing() {
    let mut bar = Bar::new(0, 0, clock());
    bar.set_id_info(1, WindowInfo::Launcher);
    bar.set_id_info(3, WindowInfo::RightPanel);
    bar.remove_id(1);
    bar.remove_id(3);
    assert_eq!(bar.id_info(1), None);
    assert_eq!(bar.id_info(3), None);
    assert_eq!(bar.launcher_id, None);
    assert!(!bar.launcher_open);
}

#[test]
fn launcher_toggles() {
    let mut bar = Bar::new(0, 0, clock());
    assert_eq!(bar.update(Event::ToggleLauncher), vec![Action::OpenLauncher]);
    assert!(bar.launcher_open);
    // no window recorded yet: nothing to close
    assert!(bar.update(Event::ToggleLauncher).is_empty());
    bar.set_id_info(8, WindowInfo::Launcher);
    assert_eq!(bar.launcher_target(), Some(8));
    assert_eq!(bar.update(Event::ToggleLauncher), vec![Action::CloseWindow(8)]);
    bar.remove_id(8);
    assert!(!bar.launcher_open);
    assert_eq!(bar.launcher_target(), None);
}

#[test]
fn right_panel_toggles() {
    let mut bar = Bar::new(0, 0, clock());
    assert_eq!(bar.update(Event::ToggleRightPanel), vec![Action::OpenRightPanel]);
    bar.set_id_info(9, WindowInfo::RightPanel);
    assert_eq!(bar.update(Event::ToggleRightPanel), vec![Action::CloseWindow(9)]);
    assert_eq!(bar.right_panel, None);
}

#[test]
fn player_commands_need_a_willing_player() {
    let mut bar = Bar::new(0, 0, clock());
    assert!(bar.update(Event::Control(PlayerCommand::Play)).is_empty());
    bar.update(Event::PlayerUpdate(Some(player(true))));
    assert_eq!(bar.update(Event::Control(PlayerCommand::Play)), vec![Action::Control(PlayerCommand::Play)]);
    assert_eq!(bar.update(Event::Control(PlayerCommand::Next)), vec![Action::Control(PlayerCommand::Next)]);
    assert!(bar.update(Event::Control(PlayerCommand::Previous)).is_empty());
    bar.update(Event::PlayerUpdate(Some(player(false))));
    assert!(bar.update(Event::Control(PlayerCommand::Pause)).is_empty());
    assert_eq!(bar.update(Event::RefreshPlayer), vec![Action::RefreshPlayer]);
}

#[test]
fn sliders_and_volumes() {
    let mut bar = Bar::new(30, 70, clock());
    assert_eq!(bar.slider_value(), 70);
    bar.update(Event::SliderIndexNext);
    assert_eq!(bar.bar_index, SliderIndex::Left);
    assert_eq!(bar.slider_value(), 30);
    bar.update(Event::SliderIndexNext);
    assert_eq!(bar.slider_value(), 70);
    bar.update(Event::SliderIndexPre);
    bar.update(Event::SliderIndexPre);
    assert_eq!(bar.bar_index, SliderIndex::Balance);
    bar.update(Event::VolumesRead { left: 300, right: 0 });
    bar.update(Event::SliderIndexNext);
    // a volume beyond the slider keeps its lowest eight bits
    assert_eq!(bar.slider_value(), 44);
    assert_eq!(bar.update(Event::UpdateLeft(12)), vec![Action::SetLeft(12)]);
    assert_eq!(bar.update(Event::UpdateRight(13)), vec![Action::SetRight(13)]);
}

#[test]
fn balance_changes_only_with_sound() {
    let mut bar = Bar::new(0, 0, clock());
    assert!(bar.update(Event::BalanceChanged(40)).is_empty());
    bar.update(Event::VolumesRead { left: 50, right: 50 });
    assert_eq!(bar.update(Event::BalanceChanged(40)), vec![Action::ApplyBalance(40)]);
    assert_eq!(bar.apply_balance(60, 40, 40), (60, 40));
    assert_eq!((bar.left, bar.right), (60, 40));
    assert_eq!(bar.balance_percent(), 40);
    assert_eq!(bar.apply_balance(100, 0, 25), (75, 25));
}

#[test]
fn clock_and_error_windows() {
    let mut bar = Bar::new(0, 0, clock());
    let later = Clock { month: 6, day: 30, weekday: 6, hour: 22, minute: 1 };
    assert!(bar.update(Event::Tick(later)).is_empty());
    assert_eq!(bar.clock, later);
    assert_eq!(bar.update(Event::CloseErrorNotification(5)), vec![Action::CloseWindow(5)]);
}
