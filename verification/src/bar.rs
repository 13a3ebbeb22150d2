use vstd::prelude::*;

use crate::balance::{balance_defined, balance_of, balance_percent, balance_split, split_defined, split_right};
use crate::clock::Clock;
use crate::notify::{Entry, EntryView, MAX_SHOWN_NOTIFICATIONS_COUNT, hidden_entries, hidden_list_of, views};
use crate::ops::{
    Keep, filter_entries, find_entry, find_key, has_id, has_key, ids_unique, index_of_id, keep_filter,
    key_index, keys_unique, lemma_index_of_id, lemma_key_index, lemma_put_key_unique,
    lemma_filter_keeps, lemma_remove_key_unique, margins_match, put_key, put_key_in, remove_key,
    remove_key_in,
};
use crate::player::PlayerInfo;
use crate::slider::SliderIndex;

verus! {

/// A request to the media player the bar follows.
#[derive(Clone, Copy, Debug, PartialEq, Eq, Structural)]
pub enum PlayerCommand {
    Previous,
    Next,
    Pause,
    Play,
}

/// What the bar asks its surroundings to do after handling an event.
#[derive(Debug, PartialEq, Eq)]
pub enum Action {
    /// Close the window.
    CloseWindow(u64),
    /// Open a notification window at the given top margin for the notification.
    OpenNotification { top: i32, id: u32 },
    /// Open the window that counts the hidden notifications.
    OpenHiddenInfo,
    /// Create the launcher, open its window and focus its input.
    OpenLauncher,
    /// Open the side panel.
    OpenRightPanel,
    /// Move the window to a new top margin.
    MoveWindow { window: u64, top: i32 },
    /// Take the notification away after that many seconds.
    RemoveAfter { id: u32, seconds: u64 },
    /// Check soon whether any notification is left.
    CheckOutputSoon,
    /// Let the next window open on whichever output is current.
    ForgetLastOutput,
    /// Tell the notification's sender the reply typed into it.
    SendReply { id: u32, text: String },
    /// Tell the notification's sender that its default action was invoked.
    SendInvoked { id: u32 },
    /// Send the command to the followed player, then fetch its state again.
    Control(PlayerCommand),
    /// Fetch the state of the players again.
    RefreshPlayer,
    /// Read both channel volumes, move the balance to the percentage, and
    /// write the volumes back (see [`Bar::apply_balance`]).
    ApplyBalance(u8),
    /// Set the left channel's volume, then read both volumes again.
    SetLeft(i64),
    /// Set the right channel's volume, then read both volumes again.
    SetRight(i64),
}

/// What a window of the bar shows, as the bar records it.
#[derive(Clone, Copy, Debug, PartialEq, Eq)]
pub enum WindowInfo {
    Launcher,
    Notify(u32),
    HiddenInfo,
    RightPanel,
    ErrorHappened(u64),
}

/// What a window of the bar shows, with the notification it shows.
#[derive(Debug, PartialEq, Eq)]
pub enum WindowContent {
    Launcher,
    Notify(Entry),
    HiddenInfo,
    RightPanel,
    /// A notification window whose notification is gone.
    ErrorHappened(u64),
}

/// What a [`WindowContent`] holds, as mathematical values.
pub enum WindowContentView {
    Launcher,
    Notify(EntryView),
    HiddenInfo,
    RightPanel,
    ErrorHappened(u64),
}

impl View for WindowContent {
    type V = WindowContentView;

    open spec fn view(&self) -> WindowContentView {
        match self {
            WindowContent::Launcher => WindowContentView::Launcher,
            WindowContent::Notify(e) => WindowContentView::Notify(e@),
            WindowContent::HiddenInfo => WindowContentView::HiddenInfo,
            WindowContent::RightPanel => WindowContentView::RightPanel,
            WindowContent::ErrorHappened(w) => WindowContentView::ErrorHappened(*w),
        }
    }
}

/// The views of the windows' cached notifications.
pub open spec fn cache_views(c: Seq<(u64, Entry)>) -> Seq<(u64, EntryView)> {
    c.map_values(|p: (u64, Entry)| (p.0, p.1@))
}

/// The keys of a cache are those of its views.
pub proof fn lemma_cache_keys(s: Seq<(u64, Entry)>, k: u64)
    ensures
        has_key(cache_views(s), k) == has_key(s, k),
        keys_unique(cache_views(s)) == keys_unique(s),
        has_key(s, k) && keys_unique(s) ==> key_index(cache_views(s), k) == key_index(s, k),
{
    let c = cache_views(s);
    assert forall|i: int| 0 <= i < s.len() implies #[trigger] c[i] == (s[i].0, s[i].1@) by {}
    if keys_unique(s) {
        assert forall|i: int, j: int| 0 <= i < j < c.len() implies #[trigger] c[i].0 != #[trigger] c[j].0 by {
            assert(c[i].0 == s[i].0 && c[j].0 == s[j].0);
            assert(s[i].0 != s[j].0);
        }
    }
    if keys_unique(c) {
        assert forall|i: int, j: int| 0 <= i < j < s.len() implies #[trigger] s[i].0 != #[trigger] s[j].0 by {
            assert(c[i].0 == s[i].0 && c[j].0 == s[j].0);
            assert(c[i].0 != c[j].0);
        }
    }
    if has_key(s, k) {
        let i = key_index(s, k);
        assert(c[i].0 == k);
    }
    if has_key(c, k) {
        let i = key_index(c, k);
        assert(s[i].0 == k);
    }
    if has_key(s, k) && keys_unique(s) {
        let i = key_index(s, k);
        assert(keys_unique(c));
        lemma_key_index(c, i);
    }
}

/// Setting a key of a cache and taking the view commute.
pub proof fn lemma_cache_put(s: Seq<(u64, Entry)>, k: u64, e: Entry)
    requires
        keys_unique(s),
    ensures
        cache_views(put_key(s, k, e)) == put_key(cache_views(s), k, e@),
{
    lemma_cache_keys(s, k);
    assert(cache_views(put_key(s, k, e)) =~= put_key(cache_views(s), k, e@));
}

/// Removing a key from a cache and taking the view commute.
proof fn lemma_cache_remove(s: Seq<(u64, Entry)>, k: u64)
    requires
        keys_unique(s),
    ensures
        cache_views(remove_key(s, k)) == remove_key(cache_views(s), k),
{
    lemma_cache_keys(s, k);
    assert(cache_views(remove_key(s, k)) =~= remove_key(cache_views(s), k));
}

/// Closing every window of `shown`, in order.
pub open spec fn close_all(shown: Seq<(u64, u32)>) -> Seq<Action> {
    shown.map_values(|p: (u64, u32)| Action::CloseWindow(p.0))
}

/// Closing the hidden-notification window, if it is open.
pub open spec fn close_hidden(hidden_id: Option<u64>) -> Seq<Action> {
    match hidden_id {
        Some(w) => seq![Action::CloseWindow(w)],
        None => seq![],
    }
}

/// An entry of a rank that gets a window of its own.
pub open spec fn rank_filter() -> spec_fn(EntryView) -> bool {
    |e: EntryView| e.counter < MAX_SHOWN_NOTIFICATIONS_COUNT
}

/// Opening a window for the entry at its margin.
pub open spec fn open_for(e: EntryView) -> Action {
    Action::OpenNotification { top: e.upper, id: e.unit.id }
}

/// Opening the hidden-notification window when there are more
/// notifications than windows for them and it is not open yet.
pub open spec fn open_hidden_if_needed(count: int, hidden_id: Option<u64>) -> Seq<Action> {
    if count > MAX_SHOWN_NOTIFICATIONS_COUNT && hidden_id is None {
        seq![Action::OpenHiddenInfo]
    } else {
        seq![]
    }
}

/// The actions that leave quiet mode (`quiet` false) or enter it.
pub open spec fn quiet_actions(b: Bar, quiet: bool) -> Seq<Action> {
    if quiet {
        close_all(b.shown@) + close_hidden(b.hidden_id)
    } else {
        b.entries().filter(rank_filter()).map_values(|e: EntryView| open_for(e))
            + open_hidden_if_needed(b.entries().len() as int, b.hidden_id)
    }
}

/// The actions for the windows of `shown`, closing each in order.
fn close_windows(shown: &Vec<(u64, u32)>, acts: &mut Vec<Action>)
    ensures
        final(acts)@ == old(acts)@ + close_all(shown@),
{
    let ghost start = acts@;
    let mut k: usize = 0;
    while k < shown.len()
        invariant
            k <= shown@.len(),
            acts@ == start + close_all(shown@.take(k as int)),
        decreases shown@.len() - k,
    {
        acts.push(Action::CloseWindow(shown[k].0));
        assert(close_all(shown@.take(k as int + 1)) =~= close_all(shown@.take(k as int)).push(
            Action::CloseWindow(shown@[k as int].0),
        ));
        k = k + 1;
    }
    assert(shown@.take(shown@.len() as int) =~= shown@);
}

/// The actions closing the hidden-notification window, if open.
pub fn close_hidden_window(hidden_id: Option<u64>, acts: &mut Vec<Action>)
    ensures
        final(acts)@ == old(acts)@ + close_hidden(hidden_id),
{
    if let Some(w) = hidden_id {
        acts.push(Action::CloseWindow(w));
    }
    assert(acts@ =~= old(acts)@ + close_hidden(hidden_id));
}

/// What the window `w` shows, as the bar's state says.
pub open spec fn window_content(b: Bar, w: u64) -> Option<WindowContentView> {
    if b.launcher_id == Some(w) {
        Some(WindowContentView::Launcher)
    } else if b.hidden_id == Some(w) {
        Some(WindowContentView::HiddenInfo)
    } else if b.right_panel == Some(w) {
        Some(WindowContentView::RightPanel)
    } else if has_key(b.cache(), w) {
        Some(WindowContentView::Notify(b.cache()[key_index(b.cache(), w)].1))
    } else if has_key(b.shown@, w) {
        let nid = b.shown@[key_index(b.shown@, w)].1;
        if has_id(b.entries(), nid) {
            Some(WindowContentView::Notify(b.entries()[index_of_id(b.entries(), nid)]))
        } else {
            Some(WindowContentView::ErrorHappened(w))
        }
    } else {
        None
    }
}

/// The outcome of recording that the window `w` shows `info`.
pub open spec fn set_info_post(old: Bar, new: Bar, w: u64, info: WindowInfo) -> bool {
    &&& new.wf()
    &&& new.same_media(old)
    &&& new.launcher_open == old.launcher_open
    &&& new.entries() == old.entries()
    &&& new.cache() == old.cache()
    &&& new.hidden_list() == old.hidden_list()
    &&& new.quiet == old.quiet
    &&& match info {
        WindowInfo::Launcher => {
            &&& new.launcher_id == Some(w)
            &&& new.hidden_id == old.hidden_id
            &&& new.right_panel == old.right_panel
            &&& new.shown@ == old.shown@
        },
        WindowInfo::Notify(id) => {
            &&& new.launcher_id == old.launcher_id
            &&& new.hidden_id == old.hidden_id
            &&& new.right_panel == old.right_panel
            &&& new.shown@ == put_key(old.shown@, w, id)
        },
        WindowInfo::HiddenInfo => {
            &&& new.launcher_id == old.launcher_id
            &&& new.hidden_id == Some(w)
            &&& new.right_panel == old.right_panel
            &&& new.shown@ == old.shown@
        },
        WindowInfo::RightPanel => {
            &&& new.launcher_id == old.launcher_id
            &&& new.hidden_id == old.hidden_id
            &&& new.right_panel == Some(w)
            &&& new.shown@ == old.shown@
        },
        WindowInfo::ErrorHappened(_) => false,
    }
}

/// The outcome of forgetting the closed window `w`.
pub open spec fn remove_id_post(old: Bar, new: Bar, w: u64) -> bool {
    &&& new.wf()
    &&& new.same_media(old)
    &&& new.launcher_id == if old.launcher_id == Some(w) { None } else { old.launcher_id }
    &&& new.launcher_open == (old.launcher_open && old.launcher_id != Some(w))
    &&& new.hidden_id == if old.hidden_id == Some(w) { None } else { old.hidden_id }
    &&& new.right_panel == if old.right_panel == Some(w) { None } else { old.right_panel }
    &&& new.shown@ == remove_key(old.shown@, w)
    &&& new.cache() == remove_key(old.cache(), w)
    &&& new.entries() == if has_key(old.shown@, w) {
        let nid = old.shown@[key_index(old.shown@, w)].1;
        if has_id(old.entries(), nid) && !old.entries()[index_of_id(old.entries(), nid)].to_delete {
            old.entries()
        } else {
            old.entries().filter(keep_filter(Keep::OtherThan(nid)))
        }
    } else {
        old.entries()
    }
    &&& new.hidden_list() == old.hidden_list()
    &&& new.quiet == old.quiet
}

/// The outcome of moving the balance to `balance` percent, given the volumes
/// `left` and `right` just read: the right channel gets that share of the
/// total, rounded toward zero, the left channel the rest; the new volumes
/// are recorded and returned.
pub open spec fn apply_balance_post(old: Bar, new: Bar, r: (i64, i64), left: i64, right: i64, balance: u8) -> bool {
    &&& r.1 == split_right(left as int, right as int, balance as int)
    &&& r.0 == left + right - r.1
    &&& new == Bar { left: r.0, right: r.1, ..old }
}

/// The state of the bar. The notifications and the window records are kept
/// in vectors with unique keys, so that the order in which windows are handed
/// out and actions are listed is fixed by the state.
pub struct Bar {
    /// The player the bar follows.
    pub service: Option<PlayerInfo>,
    /// Volume of the left channel.
    pub left: i64,
    /// Volume of the right channel.
    pub right: i64,
    /// The slider on show.
    pub bar_index: SliderIndex,
    /// Whether the launcher exists.
    pub launcher_open: bool,
    /// The launcher's window.
    pub launcher_id: Option<u64>,
    /// The window counting the hidden notifications.
    pub hidden_id: Option<u64>,
    /// The side panel's window.
    pub right_panel: Option<u64>,
    /// The notifications, each with its place on screen.
    pub notifications: Vec<Entry>,
    /// The notification windows and the notification each shows.
    pub shown: Vec<(u64, u32)>,
    /// Closing notification windows and the notification each showed.
    pub cached: Vec<(u64, Entry)>,
    /// The notifications listed in the side panel, by rank.
    pub hidden: Vec<Entry>,
    /// Quiet mode: no notification window opens.
    pub quiet: bool,
    /// The time on show.
    pub clock: Clock,
}

impl Bar {
    /// The notifications as mathematical values.
    pub open spec fn entries(&self) -> Seq<EntryView> {
        views(self.notifications@)
    }

    /// The cached notification windows as mathematical values.
    pub open spec fn cache(&self) -> Seq<(u64, EntryView)> {
        cache_views(self.cached@)
    }

    /// The hidden-notification list as mathematical values.
    pub open spec fn hidden_list(&self) -> Seq<EntryView> {
        views(self.hidden@)
    }

    /// The bar's invariant: notification ids, shown windows and cached
    /// windows are each unique, and every notification's top margin
    /// matches its rank.
    pub open spec fn wf(&self) -> bool {
        &&& ids_unique(self.entries())
        &&& keys_unique(self.shown@)
        &&& keys_unique(self.cache())
        &&& margins_match(self.entries())
    }

    /// The fields that only the player, the volumes, the sliders and the clock
    /// change are those of `other`.
    pub open spec fn same_media(&self, other: Bar) -> bool {
        &&& self.service == other.service
        &&& self.left == other.left
        &&& self.right == other.right
        &&& self.bar_index == other.bar_index
        &&& self.clock == other.clock
    }

    /// The launcher, side panel and hidden-info window are those of `other`.
    pub open spec fn same_panels(&self, other: Bar) -> bool {
        &&& self.launcher_open == other.launcher_open
        &&& self.launcher_id == other.launcher_id
        &&& self.hidden_id == other.hidden_id
        &&& self.right_panel == other.right_panel
    }

    /// The notifications and their windows are those of `other`.
    pub open spec fn same_notifications(&self, other: Bar) -> bool {
        &&& self.entries() == other.entries()
        &&& self.shown@ == other.shown@
        &&& self.cache() == other.cache()
        &&& self.hidden_list() == other.hidden_list()
        &&& self.quiet == other.quiet
    }

    /// A fresh bar with the given channel volumes and time: no player, the
    /// balance slider, no windows besides the bar, no notifications.
    pub fn new(left: i64, right: i64, clock: Clock) -> (r: Bar)
        ensures
            r.wf(),
            r.service is None,
            r.left == left,
            r.right == right,
            r.bar_index == SliderIndex::Balance,
            !r.launcher_open,
            r.launcher_id is None,
            r.hidden_id is None,
            r.right_panel is None,
            r.entries() == Seq::<EntryView>::empty(),
            r.shown@ == Seq::<(u64, u32)>::empty(),
            r.cache() == Seq::<(u64, EntryView)>::empty(),
            r.hidden_list() == Seq::<EntryView>::empty(),
            !r.quiet,
            r.clock == clock,
    {
        let r = Bar {
            service: None,
            left,
            right,
            bar_index: SliderIndex::default_index(),
            launcher_open: false,
            launcher_id: None,
            hidden_id: None,
            right_panel: None,
            notifications: Vec::new(),
            shown: Vec::new(),
            cached: Vec::new(),
            hidden: Vec::new(),
            quiet: false,
            clock,
        };
        assert(r.entries() =~= Seq::<EntryView>::empty());
        assert(r.cache() =~= Seq::<(u64, EntryView)>::empty());
        assert(r.hidden_list() =~= Seq::<EntryView>::empty());
        r
    }

    /// The balance shown on the balance slider.
    pub fn balance_percent(&self) -> (r: u8)
        requires
            balance_defined(self.left, self.right),
        ensures
            r as int == balance_of(self.left as int, self.right as int),
    {
        balance_percent(self.left, self.right)
    }

    /// The position of the slider on show, from 0 to 255: the balance, or a
    /// channel's volume cut to its lowest eight bits.
    pub fn slider_value(&self) -> (r: u8)
        requires
            self.bar_index == SliderIndex::Balance ==> balance_defined(self.left, self.right),
        ensures
            r == match self.bar_index {
                SliderIndex::Balance => balance_of(self.left as int, self.right as int) as u8,
                SliderIndex::Left => self.left as u8,
                SliderIndex::Right => self.right as u8,
            },
    {
        match self.bar_index {
            SliderIndex::Left => self.left as u8,
            SliderIndex::Right => self.right as u8,
            SliderIndex::Balance => self.balance_percent(),
        }
    }

    /// Records the channel volumes just read.
    pub fn set_volumes(&mut self, left: i64, right: i64)
        ensures
            final(self).left == left,
            final(self).right == right,
            final(self).service == old(self).service,
            final(self).bar_index == old(self).bar_index,
            final(self).clock == old(self).clock,
            final(self).same_panels(*old(self)),
            final(self).same_notifications(*old(self)),
    {
        self.left = left;
        self.right = right;
    }

    /// Moves the balance to `balance` percent, given the channel volumes
    /// just read: records and returns the new `(left, right)` volumes, to be
    /// written back to the mixer.
    pub fn apply_balance(&mut self, left: i64, right: i64, balance: u8) -> (r: (i64, i64))
        requires
            split_defined(left, right, balance),
        ensures
            apply_balance_post(*old(self), *final(self), r, left, right, balance),
    {
        let r = balance_split(left, right, balance);
        self.left = r.0;
        self.right = r.1;
        r
    }

    /// What the window `w` shows: the launcher, the hidden-notification
    /// count, the side panel, a cached or shown notification, or an error
    /// for a notification window whose notification is gone.
    pub fn id_info(&self, w: u64) -> (r: Option<WindowContent>)
        requires
            self.wf(),
        ensures
            match r {
                Some(c) => window_content(*self, w) == Some(c@),
                None => window_content(*self, w) is None,
            },
    {
        if self.launcher_id == Some(w) {
            return Some(WindowContent::Launcher);
        }
        if self.hidden_id == Some(w) {
            return Some(WindowContent::HiddenInfo);
        }
        if self.right_panel == Some(w) {
            return Some(WindowContent::RightPanel);
        }
        proof {
            lemma_cache_keys(self.cached@, w);
        }
        if let Some(i) = find_key(&self.cached, w) {
            proof {
                lemma_key_index(self.cached@, i as int);
                assert(self.cache()[i as int] == (self.cached@[i as int].0, self.cached@[i as int].1@));
            }
            return Some(WindowContent::Notify(self.cached[i].1.clone()));
        }
        match find_key(&self.shown, w) {
            None => None,
            Some(i) => {
                proof {
                    lemma_key_index(self.shown@, i as int);
                }
                let nid = self.shown[i].1;
                match find_entry(&self.notifications, nid) {
                    Some(j) => {
                        proof {
                            assert(self.entries()[j as int] == self.notifications@[j as int]@);
                            lemma_index_of_id(self.entries(), j as int);
                        }
                        Some(WindowContent::Notify(self.notifications[j].clone()))
                    },
                    None => Some(WindowContent::ErrorHappened(w)),
                }
            },
        }
    }

    /// Records what the newly opened window `w` shows.
    pub fn set_id_info(&mut self, w: u64, info: WindowInfo)
        requires
            old(self).wf(),
            !(info is ErrorHappened),
        ensures
            set_info_post(*old(self), *final(self), w, info),
    {
        match info {
            WindowInfo::Launcher => {
                self.launcher_id = Some(w);
            },
            WindowInfo::Notify(id) => {
                proof {
                    lemma_put_key_unique(self.shown@, w, id);
                }
                put_key_in(&mut self.shown, w, id);
            },
            WindowInfo::HiddenInfo => {
                self.hidden_id = Some(w);
            },
            WindowInfo::RightPanel => {
                self.right_panel = Some(w);
            },
            WindowInfo::ErrorHappened(_) => {},
        }
    }

    /// Forgets the closed window `w`: the launcher goes with its window; a
    /// notification window's notification goes with it when it is being
    /// taken away or already gone.
    pub fn remove_id(&mut self, w: u64)
        requires
            old(self).wf(),
        ensures
            remove_id_post(*old(self), *final(self), w),
    {
        if self.launcher_id == Some(w) {
            self.launcher_id = None;
            self.launcher_open = false;
        }
        if self.right_panel == Some(w) {
            self.right_panel = None;
        }
        if self.hidden_id == Some(w) {
            self.hidden_id = None;
        }
        proof {
            lemma_remove_key_unique(self.shown@, w);
        }
        if let Some(nid) = remove_key_in(&mut self.shown, w) {
            let drop = match find_entry(&self.notifications, nid) {
                Some(j) => {
                    proof {
                        assert(self.entries()[j as int] == self.notifications@[j as int]@);
                        lemma_index_of_id(self.entries(), j as int);
                    }
                    self.notifications[j].to_delete
                },
                None => true,
            };
            if drop {
                let kept = filter_entries(&self.notifications, Keep::OtherThan(nid));
                proof {
                    lemma_filter_keeps(self.entries(), keep_filter(Keep::OtherThan(nid)));
                }
                self.notifications = kept;
            }
        }
        proof {
            lemma_cache_keys(self.cached@, w);
            lemma_cache_remove(self.cached@, w);
            lemma_remove_key_unique(self.cache(), w);
        }
        remove_key_in(&mut self.cached, w);
    }

    /// Recomputes the hidden-notification list from the notifications.
    pub(crate) fn update_hidden_notification(&mut self)
        ensures
            hidden_list_of(final(self).hidden_list(), old(self).entries(), old(self).quiet),
            final(self).entries() == old(self).entries(),
            final(self).shown@ == old(self).shown@,
            final(self).cache() == old(self).cache(),
            final(self).quiet == old(self).quiet,
            final(self).same_media(*old(self)),
            final(self).same_panels(*old(self)),
    {
        self.hidden = hidden_entries(&self.notifications, self.quiet);
    }

    /// With no notification left, lets the next window open on whichever
    /// output is current.
    pub fn check_output(&self) -> (r: Vec<Action>)
        ensures
            r@ == if self.entries().len() == 0 { seq![Action::ForgetLastOutput] } else { seq![] },
    {
        let mut r: Vec<Action> = Vec::new();
        if self.notifications.len() == 0 {
            r.push(Action::ForgetLastOutput);
        }
        assert(r@ =~= if self.entries().len() == 0 { seq![Action::ForgetLastOutput] } else { seq![] });
        r
    }

    /// Drops every notification: closes the notification windows and the
    /// hidden-notification window and checks the output soon. The window
    /// records and the hidden list stay until the windows are gone.
    pub fn clear_all(&mut self) -> (r: Vec<Action>)
        requires
            old(self).wf(),
        ensures
            final(self).wf(),
            r@ == close_all(old(self).shown@) + close_hidden(old(self).hidden_id) + seq![
                Action::CheckOutputSoon,
            ],
            final(self).entries() == Seq::<EntryView>::empty(),
            final(self).shown@ == old(self).shown@,
            final(self).cache() == old(self).cache(),
            final(self).hidden_list() == old(self).hidden_list(),
            final(self).quiet == old(self).quiet,
            final(self).same_media(*old(self)),
            final(self).same_panels(*old(self)),
    {
        let mut r: Vec<Action> = Vec::new();
        close_windows(&self.shown, &mut r);
        self.notifications = Vec::new();
        close_hidden_window(self.hidden_id, &mut r);
        r.push(Action::CheckOutputSoon);
        assert(self.entries() =~= Seq::<EntryView>::empty());
        assert(r@ =~= close_all(old(self).shown@) + close_hidden(old(self).hidden_id) + seq![
            Action::CheckOutputSoon,
        ]);
        r
    }

    /// Enters quiet mode (`quiet` true), closing every notification window
    /// and the hidden-notification window, or leaves it, opening a window
    /// for every notification of a shown rank and, when there are more
    /// notifications than windows, the hidden-notification window.
    pub fn set_quiet(&mut self, quiet: bool) -> (r: Vec<Action>)
        requires
            old(self).wf(),
        ensures
            final(self).wf(),
            r@ == quiet_actions(*old(self), quiet),
            final(self).quiet == quiet,
            hidden_list_of(final(self).hidden_list(), old(self).entries(), quiet),
            final(self).entries() == old(self).entries(),
            final(self).shown@ == old(self).shown@,
            final(self).cache() == old(self).cache(),
            final(self).same_media(*old(self)),
            final(self).same_panels(*old(self)),
    {
        self.quiet = quiet;
        let mut r: Vec<Action> = Vec::new();
        if quiet {
            close_windows(&self.shown, &mut r);
            close_hidden_window(self.hidden_id, &mut r);
        } else {
            let ghost es = self.entries();
            let ghost pred = rank_filter();
            let mut k: usize = 0;
            assert(es.take(0).filter(pred) =~= Seq::<EntryView>::empty()) by {
                reveal(Seq::filter);
            }
            assert(r@ =~= es.take(0).filter(pred).map_values(|e: EntryView| open_for(e)));
            while k < self.notifications.len()
                invariant
                    k <= self.notifications@.len(),
                    es == self.entries(),
                    pred == rank_filter(),
                    r@ == es.take(k as int).filter(pred).map_values(|e: EntryView| open_for(e)),
                decreases self.notifications@.len() - k,
            {
                let ghost before = es.take(k as int);
                assert(es.take(k as int + 1) =~= before.push(es[k as int]));
                proof {
                    before.lemma_filter_push(es[k as int], pred);
                }
                let e = &self.notifications[k];
                assert(es[k as int] == e@);
                if e.counter < MAX_SHOWN_NOTIFICATIONS_COUNT {
                    r.push(Action::OpenNotification { top: e.upper, id: e.unit.id });
                    assert(r@ =~= before.filter(pred).push(e@).map_values(|e: EntryView| open_for(e)));
                }
                k = k + 1;
            }
            assert(es.take(es.len() as int) =~= es);
            let ghost opens = r@;
            if self.notifications.len() > MAX_SHOWN_NOTIFICATIONS_COUNT && self.hidden_id.is_none() {
                r.push(Action::OpenHiddenInfo);
            }
            assert(r@ =~= opens + open_hidden_if_needed(es.len() as int, self.hidden_id));
        }
        self.update_hidden_notification();
        r
    }

    /// Records the reply typed into the notification window `w`.
    pub fn edit_inline_reply(&mut self, w: u64, text: String)
        requires
            old(self).wf(),
            has_key(old(self).shown@, w) ==> has_id(
                old(self).entries(),
                old(self).shown@[key_index(old(self).shown@, w)].1,
            ),
        ensures
            final(self).wf(),
            final(self).entries() == if has_key(old(self).shown@, w) {
                let i = index_of_id(old(self).entries(), old(self).shown@[key_index(old(self).shown@, w)].1);
                old(self).entries().update(i, EntryView { inline_reply: text@, ..old(self).entries()[i] })
            } else {
                old(self).entries()
            },
            final(self).shown@ == old(self).shown@,
            final(self).cache() == old(self).cache(),
            final(self).hidden_list() == old(self).hidden_list(),
            final(self).quiet == old(self).quiet,
            final(self).same_media(*old(self)),
            final(self).same_panels(*old(self)),
    {
        if let Some(i) = find_key(&self.shown, w) {
            proof {
                lemma_key_index(self.shown@, i as int);
            }
            let nid = self.shown[i].1;
            if let Some(j) = find_entry(&self.notifications, nid) {
                proof {
                    assert(self.entries()[j as int] == self.notifications@[j as int]@);
                    lemma_index_of_id(self.entries(), j as int);
                }
                let ghost before = self.entries();
                self.notifications[j].inline_reply = text;
                proof {
                    assert(self.entries() =~= before.update(
                        j as int,
                        EntryView { inline_reply: text@, ..before[j as int] },
                    ));
                    assert forall|a: int, b: int| 0 <= a < b < self.entries().len() implies
                        #[trigger] self.entries()[a].unit.id != #[trigger] self.entries()[b].unit.id by {
                        assert(before[a].unit.id != before[b].unit.id);
                    }
                }
            }
        }
    }

    /// The notifications listed in the side panel, by rank.
    pub fn hidden_notification(&self) -> (r: &Vec<Entry>)
        ensures
            views(r@) == self.hidden_list(),
    {
        &self.hidden
    }

    /// The launcher's window, when the launcher exists and has one: where
    /// the launcher's own events go.
    pub fn launcher_target(&self) -> (r: Option<u64>)
        ensures
            r == if self.launcher_open { self.launcher_id } else { None },
    {
        if self.launcher_open {
            self.launcher_id
        } else {
            None
        }
    }
}

} // verus!
