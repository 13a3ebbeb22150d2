use vstd::prelude::*;

use crate::bar::{
    Action, Bar, close_hidden, close_hidden_window, lemma_cache_keys, lemma_cache_put,
};
use crate::notify::{EntryView, MAX_SHOWN_NOTIFICATIONS_COUNT, hidden_list_of};
use crate::ops::{
    Keep, count_live, mark_entries, filter_entries, find_entry, has_id, ids_unique, index_of_id,
    keep_filter, keys_unique, lemma_after_removal_keeps, lemma_filter_keeps, lemma_index_of_id,
    lemma_put_key_unique, list_by_id_desc, lists_by_id_desc, live_filter, margins_match, mark_removed,
    order_by_id_desc, orders_by_id_desc, lemma_order_distinct, put_key, put_key_in,
};

verus! {

/// The cache after the windows `ord[from..to]` of `shown` close, in that
/// order: each caches the entry of `ns` it showed, when there is one.
pub open spec fn cache_closing(
    cache: Seq<(u64, EntryView)>,
    shown: Seq<(u64, u32)>,
    ord: Seq<usize>,
    from: int,
    to: int,
    ns: Seq<EntryView>,
) -> Seq<(u64, EntryView)>
    decreases to - from,
{
    if to <= from {
        cache
    } else {
        let c = cache_closing(cache, shown, ord, from, to - 1, ns);
        let win = shown[ord[to - 1] as int];
        if has_id(ns, win.1) {
            put_key(c, win.0, ns[index_of_id(ns, win.1)])
        } else {
            c
        }
    }
}

/// Closing the windows `ord[from..to]` of `shown`, in that order.
pub open spec fn close_surplus(shown: Seq<(u64, u32)>, ord: Seq<usize>, from: int, to: int) -> Seq<Action> {
    Seq::new(
        (if to > from { to - from } else { 0 }) as nat,
        |j: int| Action::CloseWindow(shown[ord[from + j] as int].0),
    )
}

/// The notifications after `rid` (of rank `c`) is marked: `ns1` is the marked
/// list; when no window had to close, every marked entry goes at once; in
/// quiet mode or beyond the shown ranks, `rid` goes too.
pub open spec fn entries_after_removal(
    ns1: Seq<EntryView>,
    rid: u32,
    c: usize,
    windows_closed: bool,
    quiet: bool,
) -> Seq<EntryView> {
    let ns2 = if windows_closed { ns1 } else { ns1.filter(live_filter()) };
    if quiet || c >= MAX_SHOWN_NOTIFICATIONS_COUNT {
        ns2.filter(keep_filter(Keep::OtherThan(rid)))
    } else {
        ns2
    }
}

/// What taking away `rid` (of rank `c`) does, given the windows in handing-out
/// order `ord` and the live notifications by id `live`: the first windows
/// show the live notifications from the highest id down; the others close,
/// caching what they showed and keeping `rid` as their record.
pub open spec fn removal_result(
    old: Bar,
    new: Bar,
    r: Seq<Action>,
    rid: u32,
    c: usize,
    ns1: Seq<EntryView>,
    ord: Seq<usize>,
    live: Seq<(u32, i32)>,
) -> bool {
    let n = old.shown@.len();
    let m = live.len();
    let ns3 = entries_after_removal(ns1, rid, c, n > m, old.quiet);
    let count = ns3.filter(live_filter()).len();
    &&& new.shown@.len() == n
    &&& forall|k: int|
        0 <= k < n ==> new.shown@[#[trigger] ord[k] as int] == (
            old.shown@[ord[k] as int].0,
            if k < m { live[k].0 } else { rid },
        )
    &&& new.cache() == cache_closing(old.cache(), old.shown@, ord, m as int, n as int, ns1)
    &&& new.entries() == ns3
    &&& hidden_list_of(new.hidden_list(), ns3, old.quiet)
    &&& r == close_surplus(old.shown@, ord, m as int, n as int) + (if count <= MAX_SHOWN_NOTIFICATIONS_COUNT {
        close_hidden(old.hidden_id)
    } else {
        seq![]
    }) + (if count == 0 { seq![Action::CheckOutputSoon] } else { seq![] })
}

/// The outcome of taking away the notification `rid`.
pub open spec fn removal_post(old: Bar, new: Bar, r: Seq<Action>, rid: u32) -> bool {
    &&& new.wf()
    &&& new.same_media(old)
    &&& new.same_panels(old)
    &&& new.quiet == old.quiet
    &&& if !has_id(old.entries(), rid) {
        &&& r == Seq::<Action>::empty()
        &&& new.same_notifications(old)
    } else {
        let c = old.entries()[index_of_id(old.entries(), rid)].counter;
        let ns1 = mark_entries(old.entries(), rid, c);
        exists|ord: Seq<usize>, live: Seq<(u32, i32)>|
            orders_by_id_desc(old.shown@, ord) && lists_by_id_desc(live, ns1, false)
                && #[trigger] removal_result(old, new, r, rid, c, ns1, ord, live)
    }
}

impl Bar {
    /// Takes the notification `rid` away: marks it, moves the older ones
    /// up, hands the windows out again to the live notifications by id,
    /// closes the windows left over, and closes the hidden-notification
    /// window or checks the output when few or no notifications are left.
    #[verifier::rlimit(50)]
    pub fn remove_notify(&mut self, rid: u32) -> (r: Vec<Action>)
        requires
            old(self).wf(),
        ensures
            removal_post(*old(self), *final(self), r@, rid),
    {
        let i = match find_entry(&self.notifications, rid) {
            None => {
                return Vec::new();
            },
            Some(i) => i,
        };
        proof {
            assert(self.entries()[i as int] == self.notifications@[i as int]@);
            lemma_index_of_id(self.entries(), i as int);
        }
        let ghost old_bar = *self;
        let c = self.notifications[i].counter;
        let ghost ns1 = mark_entries(old_bar.entries(), rid, c);
        proof {
            lemma_after_removal_keeps(old_bar.entries(), rid, c);
        }
        mark_removed(&mut self.notifications, rid, c);
        assert(self.entries() == ns1);
        let ord = order_by_id_desc(&self.shown);
        let live = list_by_id_desc(&self.notifications, false);
        let n = self.shown.len();
        let m = live.len();
        let mut acts: Vec<Action> = Vec::new();
        let mut k: usize = 0;
        while k < n
            invariant
                n == old_bar.shown@.len(),
                m == live@.len(),
                k <= n,
                self.entries() == ns1,
                ids_unique(ns1),
                margins_match(ns1),
                self.same_media(old_bar),
                self.same_panels(old_bar),
                self.quiet == old_bar.quiet,
                orders_by_id_desc(old_bar.shown@, ord@),
                keys_unique(old_bar.shown@),
                keys_unique(self.cache()),
                self.shown@.len() == n,
                forall|q: int|
                    0 <= q < n ==> (#[trigger] self.shown@[q]).0 == old_bar.shown@[q].0,
                forall|q: int|
                    0 <= q < k ==> self.shown@[#[trigger] ord@[q] as int] == (
                        old_bar.shown@[ord@[q] as int].0,
                        if q < m { live@[q].0 } else { rid },
                    ),
                forall|q: int|
                    k <= q < n ==> self.shown@[#[trigger] ord@[q] as int] == old_bar.shown@[ord@[q] as int],
                self.cache() == cache_closing(
                    old_bar.cache(),
                    old_bar.shown@,
                    ord@,
                    m as int,
                    if k > m { k as int } else { m as int },
                    ns1,
                ),
                acts@ == close_surplus(old_bar.shown@, ord@, m as int, k as int),
            decreases n - k,
        {
            let pos = ord[k];
            let ghost before = self.shown@;
            let ghost before_cache = self.cache();
            assert(self.shown@[pos as int] == old_bar.shown@[pos as int]);
            if k < m {
                self.shown[pos].1 = live[k].0;
            } else {
                assert(close_surplus(old_bar.shown@, ord@, m as int, k as int) =~= close_surplus(
                    old_bar.shown@, ord@, m as int, if k > m { k as int } else { m as int }));
                let win = self.shown[pos].0;
                let nid = self.shown[pos].1;
                if let Some(j) = find_entry(&self.notifications, nid) {
                    proof {
                        assert(self.entries()[j as int] == self.notifications@[j as int]@);
                        lemma_index_of_id(self.entries(), j as int);
                        lemma_put_key_unique(self.cache(), win, self.notifications@[j as int]@);
                        lemma_cache_keys(self.cached@, win);
                        lemma_cache_put(self.cached@, win, self.notifications@[j as int]);
                    }
                    let e = self.notifications[j].clone();
                    put_key_in(&mut self.cached, win, e);
                }
                self.shown[pos].1 = rid;
                acts.push(Action::CloseWindow(win));
                proof {
                    assert(close_surplus(old_bar.shown@, ord@, m as int, k as int + 1) =~= close_surplus(
                        old_bar.shown@,
                        ord@,
                        m as int,
                        k as int,
                    ).push(Action::CloseWindow(win)));
                }
            }
            proof {
                assert forall|q: int| k + 1 <= q < n implies self.shown@[#[trigger] ord@[q] as int]
                    == old_bar.shown@[ord@[q] as int] by {
                    lemma_order_distinct(old_bar.shown@, ord@, k as int, q);
                }
                assert forall|q: int| 0 <= q < k implies self.shown@[#[trigger] ord@[q] as int] == (
                    old_bar.shown@[ord@[q] as int].0,
                    if q < m { live@[q].0 } else { rid },
                ) by {
                    lemma_order_distinct(old_bar.shown@, ord@, k as int, q);
                }
            }
            k = k + 1;
        }
        let ghost ns2 = if n > m { ns1 } else { ns1.filter(live_filter()) };
        proof {
            lemma_filter_keeps(ns1, live_filter());
        }
        if n <= m {
            self.notifications = filter_entries(&self.notifications, Keep::Live);
            assert(self.entries() == ns2);
        } else {
            assert(self.entries() == ns2);
        }
        proof {
            lemma_filter_keeps(ns2, keep_filter(Keep::OtherThan(rid)));
        }
        if self.quiet || c >= MAX_SHOWN_NOTIFICATIONS_COUNT {
            self.notifications = filter_entries(&self.notifications, Keep::OtherThan(rid));
        }
        let ghost ns3 = entries_after_removal(ns1, rid, c, n > m, old_bar.quiet);
        assert(self.entries() == ns3);
        let count = count_live(&self.notifications);
        let ghost closes = acts@;
        if count <= MAX_SHOWN_NOTIFICATIONS_COUNT {
            close_hidden_window(self.hidden_id, &mut acts);
        }
        let ghost with_hidden = acts@;
        if count == 0 {
            acts.push(Action::CheckOutputSoon);
        }
        proof {
            assert(acts@ =~= with_hidden + (if count == 0 { seq![Action::CheckOutputSoon] } else { seq![] }));
            assert(with_hidden =~= closes + (if count <= MAX_SHOWN_NOTIFICATIONS_COUNT {
                close_hidden(old_bar.hidden_id)
            } else {
                seq![]
            }));
        }
        self.update_hidden_notification();
        proof {
            assert forall|a: int, b: int| 0 <= a < b < self.shown@.len() implies #[trigger] self.shown@[a].0
                != #[trigger] self.shown@[b].0 by {
                assert(self.shown@[a].0 == old_bar.shown@[a].0);
                assert(self.shown@[b].0 == old_bar.shown@[b].0);
            }
            assert(removal_result(old_bar, *self, acts@, rid, c, ns1, ord@, live@));
            assert(has_id(old_bar.entries(), rid));
            assert(c == old_bar.entries()[index_of_id(old_bar.entries(), rid)].counter);
            assert(self.wf());
            assert(removal_post(old_bar, *self, acts@, rid));
        }
        acts
    }
}

} // verus!
