use vstd::prelude::*;

use crate::bar::{Action, Bar, open_hidden_if_needed};
use crate::notify::{Entry, EntryView, MAX_SHOWN_NOTIFICATIONS_COUNT, Notification, NotificationView, hidden_list_of};
use crate::ops::{
    bump_all, bump_entries, can_bump, find_entry, has_id, index_of_id, lemma_bumped_keeps,
    lemma_index_of_id, list_by_id_desc, lists_by_id_desc, margin_of_rank, order_by_id_desc,
    orders_by_id_desc, lemma_order_distinct,
};

verus! {

/// A newly arrived notification: newest rank, top margin, no reply typed.
pub open spec fn fresh_entry(n: NotificationView) -> EntryView {
    EntryView { to_delete: false, upper: 10, counter: 0, inline_reply: Seq::empty(), unit: n }
}

/// Taking the notification away after its timeout, unless it has none (`-1`).
pub open spec fn timeout_actions(n: NotificationView) -> Seq<Action> {
    if n.timeout != -1 {
        seq![Action::RemoveAfter { id: n.id, seconds: n.timeout as u64 }]
    } else {
        seq![]
    }
}

/// Moving the windows `ord[k]` of `shown` to the margins of the listed
/// notifications after the first, pairwise, as far as both go.
pub open spec fn move_windows(shown: Seq<(u64, u32)>, ord: Seq<usize>, now: Seq<(u32, i32)>) -> Seq<Action> {
    let len = if now.len() - 1 < shown.len() { now.len() - 1 } else { shown.len() as int };
    Seq::new(
        (if len > 0 { len } else { 0 }) as nat,
        |k: int| Action::MoveWindow { window: shown[ord[k] as int].0, top: now[k + 1].1 },
    )
}

/// The window records and the layout actions after a notification with id
/// `id` arrives outside quiet mode, given the windows in handing-out order
/// `ord` and the notifications of shown rank by id `now`: with every window
/// in use, the windows show those notifications from the highest id down;
/// otherwise a window opens for the newcomer and the existing windows move.
pub open spec fn arrival_layout(
    old: Bar,
    new: Bar,
    layout: Seq<Action>,
    id: u32,
    ord: Seq<usize>,
    now: Seq<(u32, i32)>,
) -> bool {
    let shown = old.shown@;
    if shown.len() == MAX_SHOWN_NOTIFICATIONS_COUNT {
        &&& layout == Seq::<Action>::empty()
        &&& new.shown@.len() == shown.len()
        &&& forall|k: int|
            0 <= k < shown.len() ==> new.shown@[#[trigger] ord[k] as int] == (
                shown[ord[k] as int].0,
                if k < now.len() { now[k].0 } else { shown[ord[k] as int].1 },
            )
    } else {
        &&& new.shown@ == shown
        &&& layout == seq![Action::OpenNotification { top: 10, id }] + move_windows(shown, ord, now)
    }
}

/// The outcome of the arrival of the notification `n`.
pub open spec fn arrival_post(old: Bar, new: Bar, r: Seq<Action>, n: NotificationView) -> bool {
    &&& new.wf()
    &&& new.same_media(old)
    &&& new.same_panels(old)
    &&& new.quiet == old.quiet
    &&& new.cache() == old.cache()
    &&& if has_id(old.entries(), n.id) {
        let i = index_of_id(old.entries(), n.id);
        &&& r == Seq::<Action>::empty()
        &&& new.entries() == old.entries().update(i, EntryView { unit: n, ..old.entries()[i] })
        &&& new.shown@ == old.shown@
        &&& new.hidden_list() == old.hidden_list()
    } else {
        let ns1 = bump_entries(old.entries()).push(fresh_entry(n));
        &&& new.entries() == ns1
        &&& hidden_list_of(new.hidden_list(), ns1, old.quiet)
        &&& if old.quiet {
            &&& new.shown@ == old.shown@
            &&& r == timeout_actions(n)
        } else {
            exists|ord: Seq<usize>, now: Seq<(u32, i32)>, layout: Seq<Action>|
                orders_by_id_desc(old.shown@, ord) && lists_by_id_desc(now, ns1, true)
                    && #[trigger] arrival_layout(old, new, layout, n.id, ord, now) && r
                    == timeout_actions(n) + layout + open_hidden_if_needed(ns1.len() as int, old.hidden_id)
        }
    }
}

impl Bar {
    /// A notification arrives. One with a known id replaces the old one's
    /// content in place. A new one becomes the newest, moving the others one
    /// place down; it is taken away after its timeout, if it has one; outside
    /// quiet mode, it gets a window (or, with every window in use, the
    /// windows are handed out again), and the hidden-notification window
    /// opens when there are more notifications than windows.
    #[verifier::rlimit(50)]
    pub fn add_notification(&mut self, n: Notification) -> (r: Vec<Action>)
        requires
            old(self).wf(),
            can_bump(old(self).entries()),
        ensures
            arrival_post(*old(self), *final(self), r@, n@),
    {
        let ghost old_bar = *self;
        let ghost nv = n@;
        if let Some(i) = find_entry(&self.notifications, n.id) {
            proof {
                assert(self.entries()[i as int] == self.notifications@[i as int]@);
                lemma_index_of_id(self.entries(), i as int);
            }
            self.notifications[i].unit = n;
            proof {
                let ne = self.entries();
                assert(ne =~= old_bar.entries().update(
                    i as int,
                    EntryView { unit: nv, ..old_bar.entries()[i as int] },
                ));
                assert forall|a: int, b: int| 0 <= a < b < ne.len() implies #[trigger] ne[a].unit.id
                    != #[trigger] ne[b].unit.id by {
                    assert(old_bar.entries()[a].unit.id != old_bar.entries()[b].unit.id);
                }
                assert forall|a: int| 0 <= a < ne.len() implies #[trigger] ne[a].upper == margin_of_rank(
                    ne[a].counter as int,
                ) by {
                    assert(old_bar.entries()[a].upper == margin_of_rank(old_bar.entries()[a].counter as int));
                }
            }
            return Vec::new();
        }
        let mut acts: Vec<Action> = Vec::new();
        proof {
            lemma_bumped_keeps(old_bar.entries());
        }
        bump_all(&mut self.notifications);
        if n.timeout != -1 {
            acts.push(Action::RemoveAfter { id: n.id, seconds: n.timeout as u64 });
        }
        assert(acts@ =~= timeout_actions(nv));
        let id = n.id;
        let ghost bumped_entries = self.entries();
        self.notifications.push(
            Entry { to_delete: false, upper: 10, counter: 0, inline_reply: String::new(), unit: n },
        );
        let ghost ns1 = bump_entries(old_bar.entries()).push(fresh_entry(nv));
        proof {
            assert(self.entries() =~= ns1);
            assert forall|a: int, b: int| 0 <= a < b < ns1.len() implies #[trigger] ns1[a].unit.id
                != #[trigger] ns1[b].unit.id by {
                if b == ns1.len() - 1 {
                    assert(ns1[a].unit.id == old_bar.entries()[a].unit.id);
                    assert(old_bar.entries()[a].unit.id == old_bar.entries()[a].unit.id);
                } else {
                    assert(bumped_entries[a].unit.id != bumped_entries[b].unit.id);
                }
            }
            assert forall|a: int| 0 <= a < ns1.len() implies #[trigger] ns1[a].upper == margin_of_rank(
                ns1[a].counter as int,
            ) by {
                if a < ns1.len() - 1 {
                    assert(ns1[a] == bumped_entries[a]);
                }
            }
        }
        let ghost timeouts = acts@;
        let ghost mut w_ord: Seq<usize> = Seq::empty();
        let ghost mut w_now: Seq<(u32, i32)> = Seq::empty();
        let ghost mut w_layout: Seq<Action> = Seq::empty();
        if !self.quiet {
            let now = list_by_id_desc(&self.notifications, true);
            let ord = order_by_id_desc(&self.shown);
            let cnt = self.shown.len();
            if cnt == MAX_SHOWN_NOTIFICATIONS_COUNT {
                let mut k: usize = 0;
                while k < cnt
                    invariant
                        k <= cnt,
                        cnt == old_bar.shown@.len(),
                        self.entries() == ns1,
                        self.same_media(old_bar),
                        self.same_panels(old_bar),
                        self.quiet == old_bar.quiet,
                        self.cache() == old_bar.cache(),
                        orders_by_id_desc(old_bar.shown@, ord@),
                        self.shown@.len() == cnt,
                        forall|q: int| 0 <= q < cnt ==> (#[trigger] self.shown@[q]).0 == old_bar.shown@[q].0,
                        forall|q: int|
                            0 <= q < k ==> self.shown@[#[trigger] ord@[q] as int] == (
                                old_bar.shown@[ord@[q] as int].0,
                                if q < now@.len() { now@[q].0 } else { old_bar.shown@[ord@[q] as int].1 },
                            ),
                        forall|q: int|
                            k <= q < cnt ==> self.shown@[#[trigger] ord@[q] as int] == old_bar.shown@[ord@[q] as int],
                    decreases cnt - k,
                {
                    let pos = ord[k];
                    if k < now.len() {
                        self.shown[pos].1 = now[k].0;
                    }
                    proof {
                        assert forall|q: int| k + 1 <= q < cnt implies self.shown@[#[trigger] ord@[q] as int]
                            == old_bar.shown@[ord@[q] as int] by {
                            lemma_order_distinct(old_bar.shown@, ord@, k as int, q);
                        }
                        assert forall|q: int| 0 <= q < k implies self.shown@[#[trigger] ord@[q] as int] == (
                            old_bar.shown@[ord@[q] as int].0,
                            if q < now@.len() { now@[q].0 } else { old_bar.shown@[ord@[q] as int].1 },
                        ) by {
                            lemma_order_distinct(old_bar.shown@, ord@, k as int, q);
                        }
                    }
                    k = k + 1;
                }
                proof {
                    assert(arrival_layout(old_bar, *self, Seq::<Action>::empty(), id, ord@, now@));
                    assert(acts@ =~= timeouts + Seq::<Action>::empty());
                    w_layout = Seq::empty();
                }
            } else {
                acts.push(Action::OpenNotification { top: 10, id });
                let ghost opened = acts@;
                let mut k: usize = 0;
                while k < cnt && k + 1 < now.len()
                    invariant
                        k <= cnt,
                        k == 0 || k < now@.len(),
                        cnt == self.shown@.len(),
                        self.shown@ == old_bar.shown@,
                        orders_by_id_desc(old_bar.shown@, ord@),
                        acts@ == opened + Seq::new(
                            k as nat,
                            |q: int| Action::MoveWindow {
                                window: old_bar.shown@[ord@[q] as int].0,
                                top: now@[q + 1].1,
                            },
                        ),
                    decreases cnt - k,
                {
                    acts.push(Action::MoveWindow { window: self.shown[ord[k]].0, top: now[k + 1].1 });
                    proof {
                        assert(acts@ =~= opened + Seq::new(
                            (k + 1) as nat,
                            |q: int| Action::MoveWindow {
                                window: old_bar.shown@[ord@[q] as int].0,
                                top: now@[q + 1].1,
                            },
                        ));
                    }
                    k = k + 1;
                }
                proof {
                    assert(acts@ =~= timeouts + (seq![Action::OpenNotification { top: 10, id }] + move_windows(
                        old_bar.shown@,
                        ord@,
                        now@,
                    )));
                    assert(arrival_layout(
                        old_bar,
                        *self,
                        seq![Action::OpenNotification { top: 10, id }] + move_windows(old_bar.shown@, ord@, now@),
                        id,
                        ord@,
                        now@,
                    ));
                    w_layout = seq![Action::OpenNotification { top: 10, id }] + move_windows(
                        old_bar.shown@,
                        ord@,
                        now@,
                    );
                }
            }
            proof {
                w_ord = ord@;
                w_now = now@;
                assert(arrival_layout(old_bar, *self, w_layout, id, w_ord, w_now));
                assert(acts@ == timeouts + w_layout);
            }
        }
        let ghost before_hidden = acts@;
        if self.notifications.len() > MAX_SHOWN_NOTIFICATIONS_COUNT && self.hidden_id.is_none() && !self.quiet {
            acts.push(Action::OpenHiddenInfo);
        }
        proof {
            assert(acts@ =~= before_hidden + if !old_bar.quiet {
                open_hidden_if_needed(ns1.len() as int, old_bar.hidden_id)
            } else {
                seq![]
            });
        }
        self.update_hidden_notification();
        proof {
            assert forall|a: int, b: int| 0 <= a < b < self.shown@.len() implies #[trigger] self.shown@[a].0
                != #[trigger] self.shown@[b].0 by {
                assert(self.shown@[a].0 == old_bar.shown@[a].0);
                assert(self.shown@[b].0 == old_bar.shown@[b].0);
            }
            assert(self.wf());
            if !old_bar.quiet {
                assert(arrival_layout(old_bar, *self, w_layout, nv.id, w_ord, w_now));
            }
            assert(arrival_post(old_bar, *self, acts@, nv));
        }
        acts
    }
}

} // verus!
