use vstd::prelude::*;

use crate::arrival::arrival_post;
use crate::balance::{balance_defined, balance_of, can_compute_balance};
use crate::bar::{Action, Bar, PlayerCommand, quiet_actions};
use crate::clock::Clock;
use crate::notify::{EntryView, Notification, hidden_list_of};
use crate::ops::{
    can_bump, can_bump_all, find_entry, find_key, has_id, has_key, index_of_id, key_index, lemma_key_index,
};
use crate::player::PlayerInfo;
use crate::removal::removal_post;
use crate::slider::{slider_after, slider_before};

verus! {

/// What happens to the bar.
#[derive(Debug)]
pub enum Event {
    /// A player button is pressed.
    Control(PlayerCommand),
    /// Time to look at the players again.
    RefreshPlayer,
    /// The players were looked at: the one to follow, if any.
    PlayerUpdate(Option<PlayerInfo>),
    /// The clock moved on.
    Tick(Clock),
    /// Both channel volumes were read.
    VolumesRead { left: i64, right: i64 },
    /// The balance slider moved to a percentage.
    BalanceChanged(u8),
    /// The left slider moved to a volume.
    UpdateLeft(u8),
    /// The right slider moved to a volume.
    UpdateRight(u8),
    /// Show the next slider.
    SliderIndexNext,
    /// Show the previous slider.
    SliderIndexPre,
    /// The launcher button is pressed.
    ToggleLauncher,
    /// The side panel button is pressed.
    ToggleRightPanel,
    /// A notification arrived.
    NotificationAdded(Notification),
    /// The sender withdrew a notification.
    NotificationRemoved(u32),
    /// A notification is clicked, or its time is up.
    RemoveNotify(u32),
    /// A reply is sent from a notification.
    InlineReply(u32, String),
    /// The reply typed into a notification window changed.
    InlineReplyEdit(u64, String),
    /// Time to check whether any notification is left.
    CheckOutput,
    /// The clear-all button is pressed.
    ClearAllNotifications,
    /// Quiet mode is switched on or off.
    QuietMode(bool),
    /// The error window is clicked.
    CloseErrorNotification(u64),
}

/// Whether the followed player accepts the command.
pub open spec fn player_allows(p: PlayerInfo, cmd: PlayerCommand) -> bool {
    match cmd {
        PlayerCommand::Previous => p.can_go_previous,
        PlayerCommand::Next => p.can_go_next,
        PlayerCommand::Pause => p.can_pause,
        PlayerCommand::Play => p.can_play,
    }
}

/// The actions for a player button: the command, when a player is followed
/// and accepts it.
pub open spec fn control_actions(b: Bar, cmd: PlayerCommand) -> Seq<Action> {
    match b.service {
        Some(p) => if player_allows(p, cmd) { seq![Action::Control(cmd)] } else { seq![] },
        None => seq![],
    }
}

/// The events the bar can take in its state: those on which the handling
/// does not fail.
pub open spec fn event_allowed(b: Bar, e: Event) -> bool {
    match e {
        Event::BalanceChanged(_) => balance_defined(b.left, b.right),
        Event::NotificationAdded(_) => can_bump(b.entries()),
        Event::InlineReplyEdit(w, _) => has_key(b.shown@, w) ==> has_id(
            b.entries(),
            b.shown@[key_index(b.shown@, w)].1,
        ),
        _ => true,
    }
}

/// The outcome of handling the event `e`.
pub open spec fn update_post(old: Bar, new: Bar, r: Seq<Action>, e: Event) -> bool {
    match e {
        Event::Control(cmd) => new == old && r == control_actions(old, cmd),
        Event::RefreshPlayer => new == old && r == seq![Action::RefreshPlayer],
        Event::PlayerUpdate(p) => new == Bar { service: p, ..old } && r == Seq::<Action>::empty(),
        Event::Tick(c) => new == Bar { clock: c, ..old } && r == Seq::<Action>::empty(),
        Event::VolumesRead { left, right } => new == Bar { left, right, ..old } && r == Seq::<
            Action,
        >::empty(),
        Event::BalanceChanged(b) => new == old && r == if balance_of(old.left as int, old.right as int)
            == 0 {
            Seq::<Action>::empty()
        } else {
            seq![Action::ApplyBalance(b)]
        },
        Event::UpdateLeft(v) => new == old && r == seq![Action::SetLeft(v as i64)],
        Event::UpdateRight(v) => new == old && r == seq![Action::SetRight(v as i64)],
        Event::SliderIndexNext => new == Bar { bar_index: slider_after(old.bar_index), ..old } && r
            == Seq::<Action>::empty(),
        Event::SliderIndexPre => new == Bar { bar_index: slider_before(old.bar_index), ..old } && r
            == Seq::<Action>::empty(),
        Event::ToggleLauncher => if old.launcher_open {
            new == old && r == match old.launcher_id {
                Some(w) => seq![Action::CloseWindow(w)],
                None => Seq::<Action>::empty(),
            }
        } else {
            new == Bar { launcher_open: true, ..old } && r == seq![Action::OpenLauncher]
        },
        Event::ToggleRightPanel => match old.right_panel {
            Some(w) => new == Bar { right_panel: None, ..old } && r == seq![Action::CloseWindow(w)],
            None => new == old && r == seq![Action::OpenRightPanel],
        },
        Event::NotificationAdded(n) => arrival_post(old, new, r, n@),
        Event::NotificationRemoved(id) => removal_post(old, new, r, id),
        Event::RemoveNotify(id) => r.len() >= 1 && r[0] == Action::SendInvoked { id } && removal_post(
            old,
            new,
            r.drop_first(),
            id,
        ),
        Event::InlineReply(id, text) => r.len() >= 1 && r[0] == Action::SendReply { id, text }
            && removal_post(old, new, r.drop_first(), id),
        Event::InlineReplyEdit(w, text) => {
            &&& new.wf()
            &&& new.same_media(old)
            &&& new.same_panels(old)
            &&& new.shown@ == old.shown@
            &&& new.cache() == old.cache()
            &&& new.hidden_list() == old.hidden_list()
            &&& new.quiet == old.quiet
            &&& r == Seq::<Action>::empty()
            &&& new.entries() == if has_key(old.shown@, w) {
                let i = index_of_id(old.entries(), old.shown@[key_index(old.shown@, w)].1);
                old.entries().update(i, EntryView { inline_reply: text@, ..old.entries()[i] })
            } else {
                old.entries()
            }
        },
        Event::CheckOutput => new == old && r == if old.entries().len() == 0 {
            seq![Action::ForgetLastOutput]
        } else {
            Seq::<Action>::empty()
        },
        Event::ClearAllNotifications => {
            &&& new.wf()
            &&& new.same_media(old)
            &&& new.same_panels(old)
            &&& new.entries() == Seq::<EntryView>::empty()
            &&& new.shown@ == old.shown@
            &&& new.cache() == old.cache()
            &&& new.hidden_list() == old.hidden_list()
            &&& new.quiet == old.quiet
            &&& r == crate::bar::close_all(old.shown@) + crate::bar::close_hidden(old.hidden_id) + seq![
                Action::CheckOutputSoon,
            ]
        },
        Event::QuietMode(q) => {
            &&& new.wf()
            &&& new.same_media(old)
            &&& new.same_panels(old)
            &&& new.quiet == q
            &&& new.entries() == old.entries()
            &&& new.shown@ == old.shown@
            &&& new.cache() == old.cache()
            &&& hidden_list_of(new.hidden_list(), old.entries(), q)
            &&& r == quiet_actions(old, q)
        },
        Event::CloseErrorNotification(w) => new == old && r == seq![Action::CloseWindow(w)],
    }
}

impl Bar {
    /// Whether the bar can take the event in its state.
    pub fn allows(&self, e: &Event) -> (r: bool)
        requires
            self.wf(),
        ensures
            r == event_allowed(*self, *e),
    {
        match *e {
            Event::BalanceChanged(_) => can_compute_balance(self.left, self.right),
            Event::NotificationAdded(_) => can_bump_all(&self.notifications),
            Event::InlineReplyEdit(w, _) => match find_key(&self.shown, w) {
                Some(i) => {
                    proof {
                        lemma_key_index(self.shown@, i as int);
                    }
                    find_entry(&self.notifications, self.shown[i].1).is_some()
                },
                None => true,
            },
            _ => true,
        }
    }

    /// The actions for a player button.
    pub fn control(&self, cmd: PlayerCommand) -> (r: Vec<Action>)
        ensures
            r@ == control_actions(*self, cmd),
    {
        let mut r: Vec<Action> = Vec::new();
        if let Some(p) = &self.service {
            let allowed = match cmd {
                PlayerCommand::Previous => p.can_go_previous,
                PlayerCommand::Next => p.can_go_next,
                PlayerCommand::Pause => p.can_pause,
                PlayerCommand::Play => p.can_play,
            };
            if allowed {
                r.push(Action::Control(cmd));
            }
        }
        assert(r@ =~= control_actions(*self, cmd));
        r
    }

    /// The launcher button: closes the launcher's window when the launcher
    /// exists, else creates the launcher.
    pub fn toggle_launcher(&mut self) -> (r: Vec<Action>)
        ensures
            update_post(*old(self), *final(self), r@, Event::ToggleLauncher),
    {
        let mut r: Vec<Action> = Vec::new();
        if self.launcher_open {
            if let Some(w) = self.launcher_id {
                r.push(Action::CloseWindow(w));
            }
        } else {
            self.launcher_open = true;
            r.push(Action::OpenLauncher);
        }
        assert(r@ =~= if old(self).launcher_open {
            match old(self).launcher_id {
                Some(w) => seq![Action::CloseWindow(w)],
                None => Seq::<Action>::empty(),
            }
        } else {
            seq![Action::OpenLauncher]
        });
        r
    }

    /// The side panel button: closes the side panel and forgets its window
    /// when it is open, else opens it.
    pub fn toggle_right_panel(&mut self) -> (r: Vec<Action>)
        ensures
            update_post(*old(self), *final(self), r@, Event::ToggleRightPanel),
    {
        let mut r: Vec<Action> = Vec::new();
        match self.right_panel {
            Some(w) => {
                self.right_panel = None;
                r.push(Action::CloseWindow(w));
            },
            None => {
                r.push(Action::OpenRightPanel);
            },
        }
        assert(r@ =~= match old(self).right_panel {
            Some(w) => seq![Action::CloseWindow(w)],
            None => seq![Action::OpenRightPanel],
        });
        r
    }

    /// A notification is clicked: tells its sender, then takes it away.
    pub fn dismiss(&mut self, id: u32) -> (r: Vec<Action>)
        requires
            old(self).wf(),
        ensures
            r@.len() >= 1,
            r@[0] == (Action::SendInvoked { id }),
            removal_post(*old(self), *final(self), r@.drop_first(), id),
    {
        let mut r: Vec<Action> = Vec::new();
        r.push(Action::SendInvoked { id });
        let rest = self.remove_notify(id);
        let ghost rv = rest@;
        let mut rest = rest;
        r.append(&mut rest);
        assert(r@.drop_first() =~= rv);
        r
    }

    /// A reply is sent from a notification: passes it to the sender, then
    /// takes the notification away.
    pub fn reply(&mut self, id: u32, text: String) -> (r: Vec<Action>)
        requires
            old(self).wf(),
        ensures
            r@.len() >= 1,
            r@[0] == (Action::SendReply { id, text }),
            removal_post(*old(self), *final(self), r@.drop_first(), id),
    {
        let mut r: Vec<Action> = Vec::new();
        r.push(Action::SendReply { id, text });
        let rest = self.remove_notify(id);
        let ghost rv = rest@;
        let mut rest = rest;
        r.append(&mut rest);
        assert(r@.drop_first() =~= rv);
        r
    }

    /// Handles an event, returning what the surroundings must do.
    pub fn update(&mut self, e: Event) -> (r: Vec<Action>)
        requires
            old(self).wf(),
            event_allowed(*old(self), e),
        ensures
            final(self).wf(),
            update_post(*old(self), *final(self), r@, e),
    {
        let ghost e0 = e;
        match e {
            Event::Control(cmd) => self.control(cmd),
            Event::RefreshPlayer => {
                let mut r = Vec::new();
                r.push(Action::RefreshPlayer);
                assert(r@ =~= seq![Action::RefreshPlayer]);
                r
            },
            Event::PlayerUpdate(p) => {
                self.service = p;
                Vec::new()
            },
            Event::Tick(c) => {
                self.clock = c;
                Vec::new()
            },
            Event::VolumesRead { left, right } => {
                self.left = left;
                self.right = right;
                Vec::new()
            },
            Event::BalanceChanged(b) => {
                let mut r = Vec::new();
                if self.balance_percent() != 0 {
                    r.push(Action::ApplyBalance(b));
                }
                assert(r@ =~= if balance_of(self.left as int, self.right as int) == 0 {
                    Seq::<Action>::empty()
                } else {
                    seq![Action::ApplyBalance(b)]
                });
                r
            },
            Event::UpdateLeft(v) => {
                let mut r = Vec::new();
                r.push(Action::SetLeft(v as i64));
                assert(r@ =~= seq![Action::SetLeft(v as i64)]);
                r
            },
            Event::UpdateRight(v) => {
                let mut r = Vec::new();
                r.push(Action::SetRight(v as i64));
                assert(r@ =~= seq![Action::SetRight(v as i64)]);
                r
            },
            Event::SliderIndexNext => {
                self.bar_index = self.bar_index.next();
                Vec::new()
            },
            Event::SliderIndexPre => {
                self.bar_index = self.bar_index.pre();
                Vec::new()
            },
            Event::ToggleLauncher => self.toggle_launcher(),
            Event::ToggleRightPanel => self.toggle_right_panel(),
            Event::NotificationAdded(n) => self.add_notification(n),
            Event::NotificationRemoved(id) => self.remove_notify(id),
            Event::RemoveNotify(id) => self.dismiss(id),
            Event::InlineReply(id, text) => self.reply(id, text),
            Event::InlineReplyEdit(w, text) => {
                self.edit_inline_reply(w, text);
                Vec::new()
            },
            Event::CheckOutput => self.check_output(),
            Event::ClearAllNotifications => self.clear_all(),
            Event::QuietMode(q) => self.set_quiet(q),
            Event::CloseErrorNotification(w) => {
                let mut r = Vec::new();
                r.push(Action::CloseWindow(w));
                assert(r@ =~= seq![Action::CloseWindow(w)]);
                r
            },
        }
    }
}

} // verus!
