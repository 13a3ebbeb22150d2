use lala_bar::bar::{Action, Bar, WindowContent, WindowInfo};
use lala_bar::clock::Clock;
use lala_bar::events::Event;
use lala_bar::notify::{button_style, hidden_entries, ButtonStyle, Entry, Notification, NotifyImage};

fn clock() -> Clock {
    Clock { month: 1, day: 2, weekday: 3, hour: 4, minute: 5 }
}

fn note(id: u32, timeout: i32) -> Notification {
    Notification {
        id,
        summary: format!("summary {}", id),
        body: "body".to_string(),
        timeout,
        critical: false,
        inline_reply_support: false,
        image: None,
    }
}

fn ids(bar: &Bar) -> Vec<(u32, usize, i32, bool)> {
    bar.notifications.iter().map(|e| (e.unit.id, e.counter, e.upper, e.to_delete)).collect()
}

fn entry(id: u32, counter: usize, to_delete: bool) -> Entry {
    Entry {
        to_delete,
        upper: 10 + 135 * counter as i32,
        counter,
        inline_reply: String::new(),
        unit: note(id, -1),
    }
}

#[test]
fn first_notification_opens_a_window() {
    let mut bar = Bar::new(0, 0, clock());
    let r = bar.add_notification(note(1, -1));
    assert_eq!(r, vec![Action::OpenNotification { top: 10, id: 1 }]);
    assert_eq!(ids(&bar), vec![(1, 0, 10, false)]);
    assert!(bar.hidden.is_empty());
}

#[test]
fn timeout_schedules_removal() {
    let mut bar = Bar::new(0, 0, clock());
    let r = bar.add_notification(note(7, 5));
    assert_eq!(
        r,
        vec![Action::RemoveAfter { id: 7, seconds: 5 }, Action::OpenNotification { top: 10, id: 7 }]
    );
}

#[test]
fn second_notification_moves_the_first_down() {
    let mut bar = Bar::new(0, 0, clock());
    bar.add_notification(note(1, -1));
    bar.set_id_info(100, WindowInfo::Notify(1));
    let r = bar.add_notification(note(2, -1));
    assert_eq!(
        r,
        vec![Action::OpenNotification { top: 10, id: 2 }, Action::MoveWindow { window: 100, top: 145 }]
    );
    assert_eq!(ids(&bar), vec![(1, 1, 145, false), (2, 0, 10, false)]);
}

#[test]
fn known_id_replaces_content_only() {
    let mut bar = Bar::new(0, 0, clock());
    bar.add_notification(note(1, -1));
    bar.add_notification(note(2, -1));
    let mut n = note(1, 9);
    n.body = "changed".to_string();
    let r = bar.add_notification(n);
    assert!(r.is_empty());
    assert_eq!(ids(&bar), vec![(1, 1, 145, false), (2, 0, 10, false)]);
    assert_eq!(bar.notifications[0].unit.body, "changed");
}

#[test]
fn fifth_notification_opens_hidden_info_and_is_listed_hidden() {
    let mut bar = Bar::new(0, 0, clock());
    for id in 1..=4u32 {
        bar.add_notification(note(id, -1));
        bar.set_id_info(100 + id as u64, WindowInfo::Notify(id));
    }
    let r = bar.add_notification(note(5, -1));
    // every window is in use: they show the four newest, no window opens
    assert_eq!(r, vec![Action::OpenHiddenInfo]);
    let mut shown: Vec<(u64, u32)> = bar.shown.clone();
    shown.sort();
    assert_eq!(shown, vec![(101, 2), (102, 3), (103, 4), (104, 5)]);
    assert_eq!(bar.hidden.len(), 1);
    assert_eq!(bar.hidden[0].unit.id, 1);
    assert_eq!(bar.hidden[0].counter, 4);
}

#[test]
fn removing_reassigns_windows_and_closes_the_surplus() {
    let mut bar = Bar::new(0, 0, clock());
    bar.add_notification(note(1, -1));
    bar.set_id_info(100, WindowInfo::Notify(1));
    bar.add_notification(note(2, -1));
    bar.set_id_info(101, WindowInfo::Notify(2));
    let r = bar.remove_notify(2);
    assert_eq!(r, vec![Action::CloseWindow(100)]);
    assert_eq!(ids(&bar), vec![(1, 0, 10, false), (2, 0, 10, true)]);
    assert_eq!(bar.shown, vec![(100, 2), (101, 1)]);
    // the closing window keeps what it showed
    match bar.id_info(100) {
        Some(WindowContent::Notify(e)) => assert_eq!(e.unit.id, 1),
        other => panic!("unexpected {:?}", other),
    }
    match bar.id_info(101) {
        Some(WindowContent::Notify(e)) => assert_eq!(e.unit.id, 1),
        other => panic!("unexpected {:?}", other),
    }
    bar.remove_id(100);
    assert_eq!(ids(&bar), vec![(1, 0, 10, false)]);
    assert_eq!(bar.shown, vec![(101, 1)]);
    assert!(bar.cached.is_empty());
    assert_eq!(bar.id_info(100), None);
}

#[test]
fn removing_the_last_checks_output() {
    let mut bar = Bar::new(0, 0, clock());
    bar.add_notification(note(1, -1));
    let r = bar.remove_notify(1);
    assert_eq!(r, vec![Action::CheckOutputSoon]);
    // no window had to close: the marked notification goes at once
    assert!(bar.notifications.is_empty());
    assert_eq!(bar.check_output(), vec![Action::ForgetLastOutput]);
}

#[test]
fn removing_unknown_changes_nothing() {
    let mut bar = Bar::new(0, 0, clock());
    bar.add_notification(note(1, -1));
    let before = ids(&bar);
    assert!(bar.remove_notify(42).is_empty());
    assert_eq!(ids(&bar), before);
}

#[test]
fn removal_closes_hidden_info_when_few_are_left() {
    let mut bar = Bar::new(0, 0, clock());
    for id in 1..=5u32 {
        bar.add_notification(note(id, -1));
    }
    bar.set_id_info(900, WindowInfo::HiddenInfo);
    let r = bar.remove_notify(3);
    assert_eq!(r, vec![Action::CloseWindow(900)]);
    assert!(bar.hidden.is_empty());
}

#[test]
fn dismiss_and_reply_tell_the_sender_first() {
    let mut bar = Bar::new(0, 0, clock());
    bar.add_notification(note(1, -1));
    bar.add_notification(note(2, -1));
    let r = bar.dismiss(1);
    assert_eq!(r[0], Action::SendInvoked { id: 1 });
    let r = bar.reply(2, "thanks".to_string());
    assert_eq!(r[0], Action::SendReply { id: 2, text: "thanks".to_string() });
    assert_eq!(r[1..], [Action::CheckOutputSoon]);
}

#[test]
fn quiet_mode_closes_and_lists_everything() {
    let mut bar = Bar::new(0, 0, clock());
    bar.add_notification(note(1, -1));
    bar.set_id_info(100, WindowInfo::Notify(1));
    bar.add_notification(note(2, -1));
    bar.set_id_info(101, WindowInfo::Notify(2));
    let r = bar.set_quiet(true);
    assert_eq!(r, vec![Action::CloseWindow(100), Action::CloseWindow(101)]);
    let hidden: Vec<(u32, usize)> = bar.hidden.iter().map(|e| (e.unit.id, e.counter)).collect();
    assert_eq!(hidden, vec![(2, 0), (1, 1)]);
    // a notification arriving in quiet mode opens no window
    let r = bar.add_notification(note(3, 4));
    assert_eq!(r, vec![Action::RemoveAfter { id: 3, seconds: 4 }]);
}

#[test]
fn leaving_quiet_mode_reopens_windows() {
    let mut bar = Bar::new(0, 0, clock());
    bar.set_quiet(true);
    for id in 1..=5u32 {
        bar.add_notification(note(id, -1));
    }
    let r = bar.set_quiet(false);
    assert_eq!(
        r,
        vec![
            Action::OpenNotification { top: 415, id: 2 },
            Action::OpenNotification { top: 280, id: 3 },
            Action::OpenNotification { top: 145, id: 4 },
            Action::OpenNotification { top: 10, id: 5 },
            Action::OpenHiddenInfo,
        ]
    );
    assert_eq!(bar.hidden.len(), 1);
}

#[test]
fn clear_all_closes_windows_and_keeps_records() {
    let mut bar = Bar::new(0, 0, clock());
    bar.add_notification(note(1, -1));
    bar.set_id_info(100, WindowInfo::Notify(1));
    bar.set_id_info(900, WindowInfo::HiddenInfo);
    let r = bar.clear_all();
    assert_eq!(
        r,
        vec![Action::CloseWindow(100), Action::CloseWindow(900), Action::CheckOutputSoon]
    );
    assert!(bar.notifications.is_empty());
    assert_eq!(bar.shown, vec![(100, 1)]);
    assert_eq!(bar.check_output(), vec![Action::ForgetLastOutput]);
    assert_eq!(bar.id_info(100), Some(WindowContent::ErrorHappened(100)));
}

#[test]
fn inline_reply_edit_is_recorded() {
    let mut bar = Bar::new(0, 0, clock());
    bar.add_notification(note(1, -1));
    bar.set_id_info(100, WindowInfo::Notify(1));
    bar.edit_inline_reply(100, "hi".to_string());
    assert_eq!(bar.notifications[0].inline_reply, "hi");
    bar.edit_inline_reply(555, "ignored".to_string());
    assert_eq!(bar.notifications[0].inline_reply, "hi");
}

#[test]
fn hidden_entries_sorted_by_rank() {
    let ns = vec![entry(1, 6, false), entry(2, 4, false), entry(3, 5, true), entry(4, 0, false), entry(5, 5, false)];
    let h: Vec<u32> = hidden_entries(&ns, false).iter().map(|e| e.unit.id).collect();
    assert_eq!(h, vec![2, 5, 1]);
    let h: Vec<u32> = hidden_entries(&ns, true).iter().map(|e| e.unit.id).collect();
    assert_eq!(h, vec![4, 2, 5, 1]);
}

#[test]
fn button_style_rules() {
    let mut n = note(1, -1);
    assert_eq!(button_style(&n), ButtonStyle::Secondary);
    n.critical = true;
    assert_eq!(button_style(&n), ButtonStyle::Primary);
    n.image = Some(NotifyImage::Svg("/a.svg".to_string()));
    assert_eq!(button_style(&n), ButtonStyle::Primary);
    n.image = Some(NotifyImage::Png("/a.png".to_string()));
    assert_eq!(button_style(&n), ButtonStyle::Secondary);
    n.image = Some(NotifyImage::Data { width: 1, height: 1, pixels: vec![0, 0, 0, 0] });
    assert_eq!(button_style(&n), ButtonStyle::Primary);
}

#[test]
fn update_dispatches_notification_events() {
    let mut bar = Bar::new(0, 0, clock());
    let r = bar.update(Event::NotificationAdded(note(1, -1)));
    assert_eq!(r, vec![Action::OpenNotification { top: 10, id: 1 }]);
    let r = bar.update(Event::RemoveNotify(1));
    assert_eq!(r, vec![Action::SendInvoked { id: 1 }, Action::CheckOutputSoon]);
    let r = bar.update(Event::CheckOutput);
    assert_eq!(r, vec![Action::ForgetLastOutput]);
}

#[test]
fn removed_notification_is_never_hidden_or_live() {
    let mut bar = Bar::new(0, 0, clock());
    for id in 1..=6u32 {
        bar.add_notification(note(id, -1));
    }
    let hidden: Vec<u32> = bar.hidden.iter().map(|e| e.unit.id).collect();
    assert_eq!(hidden, vec![2, 1]);
    let r = bar.remove_notify(1);
    assert!(r.is_empty());
    // beyond the shown ranks, the notification goes at once
    assert!(bar.notifications.iter().all(|e| e.unit.id != 1));
    let hidden: Vec<u32> = bar.hidden.iter().map(|e| e.unit.id).collect();
    assert_eq!(hidden, vec![2]);
    let r = bar.remove_notify(4);
    assert!(bar.notifications.iter().all(|e| e.unit.id != 4 || e.to_delete));
    assert!(bar.hidden.iter().all(|e| e.unit.id != 4));
    // four left, but no hidden-info window was recorded: nothing to close
    assert!(r.is_empty());
}

#[test]
fn removal_keeps_live_ranks_dense() {
    let mut bar = Bar::new(0, 0, clock());
    for id in 1..=5u32 {
        bar.add_notification(note(id, -1));
    }
    bar.remove_notify(3);
    let mut ranks: Vec<usize> = bar.notifications.iter().filter(|e| !e.to_delete).map(|e| e.counter).collect();
    ranks.sort();
    assert_eq!(ranks, vec![0, 1, 2, 3]);
}

#[test]
fn hidden_list_recomputed_is_the_same() {
    let ns = vec![entry(1, 6, false), entry(2, 4, false), entry(3, 5, false), entry(4, 0, false)];
    let a: Vec<u32> = hidden_entries(&ns, false).iter().map(|e| e.unit.id).collect();
    let b: Vec<u32> = hidden_entries(&ns, false).iter().map(|e| e.unit.id).collect();
    assert_eq!(a, b);
    assert_eq!(a, vec![2, 3, 1]);
}

#[test]
fn hidden_ties_keep_their_order() {
    let ns = vec![entry(7, 5, false), entry(8, 4, false), entry(9, 5, false), entry(10, 4, false)];
    let h: Vec<u32> = hidden_entries(&ns, false).iter().map(|e| e.unit.id).collect();
    assert_eq!(h, vec![8, 10, 7, 9]);
}
