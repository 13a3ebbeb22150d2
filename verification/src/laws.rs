use vstd::prelude::*;

use crate::arrival::{arrival_post, fresh_entry};
use crate::balance::{balance_of, split_right};
use crate::bar::{
    Action, Bar, PlayerCommand, WindowContentView, WindowInfo, apply_balance_post, remove_id_post, set_info_post,
    window_content,
};
use crate::events::{Event, update_post};

use crate::notify::{EntryView, NotificationView, hidden_filter, hidden_list_of, rearranges_by, rearranges_stably, stable_by};
use crate::ops::{
    has_id, has_key, index_of_id, key_index, keys_unique, lemma_key_index, lemma_put_key_unique,
    lemma_remove_key_unique, live_filter, mark_entries, put_key,
};
use crate::removal::{entries_after_removal, removal_post, removal_result};

verus! {

/// After setting a key, looking it up gives the value set.
proof fn lemma_put_key_get<T>(s: Seq<(u64, T)>, k: u64, v: T)
    requires
        keys_unique(s),
    ensures
        has_key(put_key(s, k, v), k),
        put_key(s, k, v)[key_index(put_key(s, k, v), k)] == (k, v),
{
    lemma_put_key_unique(s, k, v);
    let t = put_key(s, k, v);
    if has_key(s, k) {
        let i = key_index(s, k);
        assert(t[i] == (k, v));
        lemma_key_index(t, i);
    } else {
        assert(t[s.len() as int] == (k, v));
        lemma_key_index(t, s.len() as int);
    }
}

/// A window reads back what was recorded for it, unless a role checked
/// before it (launcher, hidden-notification window, side panel, cached
/// notification, in that order) already claims the window.
pub proof fn lemma_window_reads_back(old: Bar, new: Bar, w: u64, info: WindowInfo)
    requires
        old.wf(),
        set_info_post(old, new, w, info),
    ensures
        info is Launcher ==> window_content(new, w) == Some(WindowContentView::Launcher),
        info is HiddenInfo && old.launcher_id != Some(w) ==> window_content(new, w) == Some(
            WindowContentView::HiddenInfo,
        ),
        info is RightPanel && old.launcher_id != Some(w) && old.hidden_id != Some(w) ==> window_content(
            new,
            w,
        ) == Some(WindowContentView::RightPanel),
{
}

/// A notification window reads back the notification recorded for it,
/// unless the launcher, the hidden-notification window, the side panel or a
/// cached notification already claims the window.
pub proof fn lemma_notify_window_reads_back(old: Bar, new: Bar, w: u64, id: u32)
    requires
        old.wf(),
        set_info_post(old, new, w, WindowInfo::Notify(id)),
        old.launcher_id != Some(w),
        old.hidden_id != Some(w),
        old.right_panel != Some(w),
        !has_key(old.cache(), w),
        has_id(old.entries(), id),
    ensures
        window_content(new, w) == Some(
            WindowContentView::Notify(old.entries()[index_of_id(old.entries(), id)]),
        ),
{
    lemma_put_key_get(old.shown@, w, id);
}

/// A window that was forgotten shows nothing.
pub proof fn lemma_forgotten_window(old: Bar, new: Bar, w: u64)
    requires
        old.wf(),
        remove_id_post(old, new, w),
    ensures
        window_content(new, w) is None,
{
    lemma_remove_key_unique(old.shown@, w);
    lemma_remove_key_unique(old.cache(), w);
}

/// A notification that was taken away is never live again in the list, and
/// never listed among the hidden notifications.
pub proof fn lemma_removed_not_live(old: Bar, new: Bar, r: Seq<Action>, rid: u32)
    requires
        old.wf(),
        removal_post(old, new, r, rid),
        has_id(old.entries(), rid),
    ensures
        forall|i: int|
            0 <= i < new.entries().len() && #[trigger] new.entries()[i].unit.id == rid
                ==> new.entries()[i].to_delete,
        forall|i: int| 0 <= i < new.hidden_list().len() ==> #[trigger] new.hidden_list()[i].unit.id != rid,
{
    let c = old.entries()[index_of_id(old.entries(), rid)].counter;
    let ns1 = mark_entries(old.entries(), rid, c);
    let (ord, live) = choose|ord: Seq<usize>, live: Seq<(u32, i32)>|
        crate::ops::orders_by_id_desc(old.shown@, ord) && crate::ops::lists_by_id_desc(live, ns1, false)
            && #[trigger] removal_result(old, new, r, rid, c, ns1, ord, live);
    let n = old.shown@.len();
    let ns3 = entries_after_removal(ns1, rid, c, n > live.len(), old.quiet);
    assert(new.entries() == ns3);
    assert forall|x: EntryView| ns3.contains(x) && x.unit.id == rid implies x.to_delete by {
        let ns2 = if n > live.len() { ns1 } else { ns1.filter(live_filter()) };
        if old.quiet || c >= crate::notify::MAX_SHOWN_NOTIFICATIONS_COUNT {
            ns2.lemma_filter_contains_rev(crate::ops::keep_filter(crate::ops::Keep::OtherThan(rid)), x);
        }
        assert(ns2.contains(x));
        if !(n > live.len()) {
            ns1.lemma_filter_contains_rev(live_filter(), x);
        }
        assert(ns1.contains(x));
        let j = choose|j: int| 0 <= j < ns1.len() && ns1[j] == x;
        assert(ns1[j] == crate::ops::after_removal(old.entries()[j], rid, c));
    }
    assert forall|i: int| 0 <= i < new.entries().len() && #[trigger] new.entries()[i].unit.id == rid
        implies new.entries()[i].to_delete by {
        assert(ns3.contains(ns3[i]));
    }
    assert(hidden_list_of(new.hidden_list(), ns3, old.quiet));
    let h = new.hidden_list();
    let pool = ns3.filter(hidden_filter(old.quiet));
    let p = choose|p: Seq<int>| rearranges_by(h, pool, p) && stable_by(h, p);
    assert forall|i: int| 0 <= i < h.len() implies #[trigger] h[i].unit.id != rid by {
        let x = h[i];
        assert(x == pool[p[i]]);
        assert(pool.contains(x));
        ns3.lemma_filter_contains_rev(hidden_filter(old.quiet), x);
        ns3.lemma_filter_pred(hidden_filter(old.quiet), p[i]);
    }
}

/// A new notification becomes the newest: it is appended live at rank 0,
/// and every older notification moves exactly one rank down.
pub proof fn lemma_arrival_newest(old: Bar, new: Bar, r: Seq<Action>, n: NotificationView)
    requires
        old.wf(),
        arrival_post(old, new, r, n),
        !has_id(old.entries(), n.id),
    ensures
        new.entries().len() == old.entries().len() + 1,
        new.entries().last() == fresh_entry(n),
        forall|i: int|
            0 <= i < old.entries().len() ==> #[trigger] new.entries()[i].counter == old.entries()[i].counter
                + 1 && new.entries()[i].unit == old.entries()[i].unit,
{
}

/// Clearing every notification and then checking the output lets the next
/// window open on whichever output is current.
pub proof fn lemma_clear_then_check(old: Bar, mid: Bar, r1: Seq<Action>, new: Bar, r2: Seq<Action>)
    requires
        update_post(old, mid, r1, Event::ClearAllNotifications),
        update_post(mid, new, r2, Event::CheckOutput),
    ensures
        r2 == seq![Action::ForgetLastOutput],
{
}

/// Opening the side panel, recording its window, then pressing the panel
/// button again closes that window and forgets it.
pub proof fn lemma_panel_toggle_closes(
    b0: Bar,
    b1: Bar,
    r1: Seq<Action>,
    b2: Bar,
    w: u64,
    b3: Bar,
    r3: Seq<Action>,
)
    requires
        b0.wf(),
        b0.right_panel is None,
        update_post(b0, b1, r1, Event::ToggleRightPanel),
        set_info_post(b1, b2, w, WindowInfo::RightPanel),
        update_post(b2, b3, r3, Event::ToggleRightPanel),
    ensures
        r1 == seq![Action::OpenRightPanel],
        r3 == seq![Action::CloseWindow(w)],
        b3.right_panel is None,
{
}

/// Creating the launcher, recording its window, then pressing the launcher
/// button again closes that window; once the window is gone, the launcher is
/// gone with it.
pub proof fn lemma_launcher_toggle_closes(
    b0: Bar,
    b1: Bar,
    r1: Seq<Action>,
    b2: Bar,
    w: u64,
    b3: Bar,
    r3: Seq<Action>,
    b4: Bar,
)
    requires
        b0.wf(),
        !b0.launcher_open,
        update_post(b0, b1, r1, Event::ToggleLauncher),
        set_info_post(b1, b2, w, WindowInfo::Launcher),
        update_post(b2, b3, r3, Event::ToggleLauncher),
        remove_id_post(b3, b4, w),
    ensures
        r1 == seq![Action::OpenLauncher],
        r3 == seq![Action::CloseWindow(w)],
        !b4.launcher_open,
        b4.launcher_id is None,
{
}

/// In quiet mode every live notification is listed as hidden.
pub proof fn lemma_quiet_lists_all_live(old: Bar, new: Bar, r: Seq<Action>)
    requires
        update_post(old, new, r, Event::QuietMode(true)),
    ensures
        rearranges_stably(new.hidden_list(), old.entries().filter(live_filter())),
{
    assert(hidden_filter(true) =~= live_filter());
}

/// A handing-out order names every window: an injective listing of `n`
/// positions below `n` misses none.
proof fn lemma_order_covers(shown: Seq<(u64, u32)>, ord: Seq<usize>, a: int)
    requires
        crate::ops::orders_by_id_desc(shown, ord),
        0 <= a < shown.len(),
    ensures
        exists|k: int| 0 <= k < ord.len() && #[trigger] ord[k] == a,
{
    let n = shown.len() as int;
    let ints = ord.map_values(|x: usize| x as int);
    assert forall|i: int, j: int| 0 <= i < j < n implies #[trigger] ints[i] != #[trigger] ints[j] by {
        assert(crate::ops::precedes(shown, ord[i] as int, ord[j] as int));
    }
    lemma_injective_covers(ints, n, a);
    let k = choose|k: int| 0 <= k < n && #[trigger] ints[k] == a;
    assert(ord[k] == a);
}

/// After a notification is taken away, no two windows show the same
/// notification, except windows closing with the taken one as record.
pub proof fn lemma_removal_windows_distinct(old: Bar, new: Bar, r: Seq<Action>, rid: u32, a: int, b: int)
    requires
        old.wf(),
        removal_post(old, new, r, rid),
        has_id(old.entries(), rid),
        0 <= a < new.shown@.len(),
        0 <= b < new.shown@.len(),
        a != b,
        new.shown@[a].1 == new.shown@[b].1,
    ensures
        new.shown@[a].1 == rid,
{
    let c = old.entries()[index_of_id(old.entries(), rid)].counter;
    let ns1 = mark_entries(old.entries(), rid, c);
    let (ord, live) = choose|ord: Seq<usize>, live: Seq<(u32, i32)>|
        crate::ops::orders_by_id_desc(old.shown@, ord) && crate::ops::lists_by_id_desc(live, ns1, false)
            && #[trigger] removal_result(old, new, r, rid, c, ns1, ord, live);
    let m = live.len();
    lemma_order_covers(old.shown@, ord, a);
    lemma_order_covers(old.shown@, ord, b);
    let ka = choose|k: int| 0 <= k < ord.len() && #[trigger] ord[k] == a;
    let kb = choose|k: int| 0 <= k < ord.len() && #[trigger] ord[k] == b;
    assert(new.shown@[ord[ka] as int].1 == if ka < m { live[ka].0 } else { rid });
    assert(new.shown@[ord[kb] as int].1 == if kb < m { live[kb].0 } else { rid });
    // a live listing never carries the taken notification's id
    assert forall|k: int| 0 <= k < m implies #[trigger] live[k].0 != rid by {
        assert(crate::ops::is_listed_pair(ns1, live[k], false));
        let i = choose|i: int|
            0 <= i < ns1.len() && crate::ops::is_listed(#[trigger] ns1[i], false) && ns1[i].unit.id
                == live[k].0 && ns1[i].upper == live[k].1;
        assert(ns1[i] == crate::ops::after_removal(old.entries()[i], rid, c));
    }
    if ka < m && kb < m {
        if ka < kb {
            assert(live[ka].0 > live[kb].0);
        } else {
            assert(live[kb].0 > live[ka].0);
        }
    }
}

/// Whatever the event, handling it keeps the bar's invariant, in particular
/// every top margin at 10 + 135 times the notification's rank.
pub proof fn lemma_update_keeps_invariant(old: Bar, new: Bar, r: Seq<Action>, e: Event)
    requires
        old.wf(),
        update_post(old, new, r, e),
    ensures
        new.wf(),
        crate::ops::margins_match(new.entries()),
{
}

/// Moving the balance slider does nothing while the balance reads zero;
/// otherwise it asks for the balance to be applied, and applying it to the
/// volumes read gives the right channel the requested share of their total,
/// rounded toward zero, and the left channel the rest, changing nothing else.
pub proof fn lemma_balance_change(
    b0: Bar,
    b1: Bar,
    r1: Seq<Action>,
    balance: u8,
    left: i64,
    right: i64,
    b2: Bar,
    r2: (i64, i64),
)
    requires
        update_post(b0, b1, r1, Event::BalanceChanged(balance)),
        balance_of(b0.left as int, b0.right as int) != 0 ==> apply_balance_post(b1, b2, r2, left, right, balance),
    ensures
        balance_of(b0.left as int, b0.right as int) == 0 ==> b1 == b0 && r1 == Seq::<Action>::empty(),
        balance_of(b0.left as int, b0.right as int) != 0 ==> {
            &&& r1 == seq![Action::ApplyBalance(balance)]
            &&& b2.right == split_right(left as int, right as int, balance as int)
            &&& b2.left + b2.right == left + right
            &&& b2 == Bar { left: b2.left, right: b2.right, ..b0 }
        },
{
}

/// An entry of the list left after a removal comes from the marked list.
proof fn lemma_left_from_marked(ns1: Seq<EntryView>, rid: u32, c: usize, closed: bool, quiet: bool, x: EntryView)
    requires
        entries_after_removal(ns1, rid, c, closed, quiet).contains(x),
    ensures
        ns1.contains(x),
{
    let ns2 = if closed { ns1 } else { ns1.filter(live_filter()) };
    if quiet || c >= crate::notify::MAX_SHOWN_NOTIFICATIONS_COUNT {
        ns2.lemma_filter_contains_rev(crate::ops::keep_filter(crate::ops::Keep::OtherThan(rid)), x);
    }
    if !closed {
        ns1.lemma_filter_contains_rev(live_filter(), x);
    }
}

/// When the live notifications hold the ranks 0 to n - 1, each once, taking
/// a live one away leaves n - 1 live notifications holding the ranks 0 to
/// n - 2, each once: the live notifications stay a dense stack.
pub proof fn lemma_removal_keeps_ranks_dense(old: Bar, new: Bar, r: Seq<Action>, rid: u32)
    requires
        old.wf(),
        removal_post(old, new, r, rid),
        crate::ops::has_live_id(old.entries(), rid),
        crate::ops::dense_ranks(old.entries()),
    ensures
        crate::ops::dense_ranks(new.entries()),
        crate::ops::live_count(new.entries()) + 1 == crate::ops::live_count(old.entries()),
{
    let os = old.entries();
    let iq = choose|i: int| 0 <= i < os.len() && crate::ops::is_live(#[trigger] os[i]) && os[i].unit.id == rid;
    crate::ops::lemma_index_of_id(os, iq);
    let c = os[iq].counter;
    let ns1 = mark_entries(os, rid, c);
    let (ord, live) = choose|ord: Seq<usize>, live: Seq<(u32, i32)>|
        crate::ops::orders_by_id_desc(old.shown@, ord) && crate::ops::lists_by_id_desc(live, ns1, false)
            && #[trigger] removal_result(old, new, r, rid, c, ns1, ord, live);
    let closed = old.shown@.len() > live.len();
    let ns2 = if closed { ns1 } else { ns1.filter(live_filter()) };
    let ns3 = entries_after_removal(ns1, rid, c, closed, old.quiet);
    assert(new.entries() == ns3);
    let n = crate::ops::live_count(os);
    // counting
    crate::ops::lemma_mark_live_count(os, rid, c);
    assert(crate::ops::live_count(ns1) + 1 == n);
    if !closed {
        crate::ops::lemma_filter_absorbs(ns1, live_filter(), live_filter());
    }
    assert(crate::ops::live_count(ns2) == crate::ops::live_count(ns1));
    if old.quiet || c >= crate::notify::MAX_SHOWN_NOTIFICATIONS_COUNT {
        let other = crate::ops::keep_filter(crate::ops::Keep::OtherThan(rid));
        assert forall|i: int| 0 <= i < ns2.len() && live_filter()(#[trigger] ns2[i]) implies other(ns2[i]) by {
            assert(ns2.contains(ns2[i]));
            if !closed {
                ns1.lemma_filter_contains_rev(live_filter(), ns2[i]);
            }
            let j = choose|j: int| 0 <= j < ns1.len() && ns1[j] == ns2[i];
            assert(ns1[j] == crate::ops::after_removal(os[j], rid, c));
        }
        crate::ops::lemma_filter_absorbs(ns2, other, live_filter());
    }
    assert(crate::ops::live_count(ns3) == crate::ops::live_count(ns2));
    // the rank of the taken notification is below n
    assert(c < n);
    // every live entry left comes from a live entry other than the taken one
    assert forall|i: int| 0 <= i < ns3.len() && crate::ops::is_live(#[trigger] ns3[i]) implies exists|j: int|
        0 <= j < os.len() && j != iq && crate::ops::is_live(#[trigger] os[j]) && ns3[i]
            == crate::ops::after_removal(os[j], rid, c) by {
        assert(ns3.contains(ns3[i]));
        lemma_left_from_marked(ns1, rid, c, closed, old.quiet, ns3[i]);
        let j = choose|j: int| 0 <= j < ns1.len() && ns1[j] == ns3[i];
        assert(ns1[j] == crate::ops::after_removal(os[j], rid, c));
        assert(crate::ops::is_live(os[j]));
    }
    assert forall|i: int| 0 <= i < ns3.len() && crate::ops::is_live(#[trigger] ns3[i]) implies ns3[i].counter
        < crate::ops::live_count(ns3) by {
        let j = choose|j: int|
            0 <= j < os.len() && j != iq && crate::ops::is_live(#[trigger] os[j]) && ns3[i]
                == crate::ops::after_removal(os[j], rid, c);
        assert(os[j].counter < n);
        if j < iq {
            assert(os[j].counter != os[iq].counter);
        } else {
            assert(os[iq].counter != os[j].counter);
        }
    }
    assert forall|i: int, i2: int|
        0 <= i < i2 < ns3.len() && crate::ops::is_live(#[trigger] ns3[i]) && crate::ops::is_live(
            #[trigger] ns3[i2],
        ) implies ns3[i].counter != ns3[i2].counter by {
        let j = choose|j: int|
            0 <= j < os.len() && j != iq && crate::ops::is_live(#[trigger] os[j]) && ns3[i]
                == crate::ops::after_removal(os[j], rid, c);
        let j2 = choose|j: int|
            0 <= j < os.len() && j != iq && crate::ops::is_live(#[trigger] os[j]) && ns3[i2]
                == crate::ops::after_removal(os[j], rid, c);
        assert(ns3[i].unit.id != ns3[i2].unit.id);
        assert(j != j2);
        if j < j2 {
            assert(os[j].counter != os[j2].counter);
        } else {
            assert(os[j2].counter != os[j].counter);
        }
        if j < iq {
            assert(os[j].counter != os[iq].counter);
        } else {
            assert(os[iq].counter != os[j].counter);
        }
        if j2 < iq {
            assert(os[j2].counter != os[iq].counter);
        } else {
            assert(os[iq].counter != os[j2].counter);
        }
    }
}

/// A listing of `n` distinct positions below `n` misses none.
proof fn lemma_injective_covers(p: Seq<int>, n: int, a: int)
    requires
        p.len() == n,
        forall|i: int| 0 <= i < n ==> 0 <= #[trigger] p[i] < n,
        forall|i: int, j: int| 0 <= i < j < n ==> #[trigger] p[i] != #[trigger] p[j],
        0 <= a < n,
    ensures
        exists|k: int| 0 <= k < n && #[trigger] p[k] == a,
{
    assert forall|i: int, j: int| 0 <= i < p.len() && 0 <= j < p.len() && i != j implies p[i] != p[j] by {
        if i < j {
            assert(p[i] != p[j]);
        } else {
            assert(p[j] != p[i]);
        }
    }
    assert(p.no_duplicates());
    p.unique_seq_to_set();
    if !(exists|k: int| 0 <= k < n && #[trigger] p[k] == a) {
        let rest = vstd::set_lib::set_int_range(0, n).remove(a);
        vstd::set_lib::lemma_int_range(0, n);
        assert(p.to_set().subset_of(rest)) by {
            assert forall|x: int| p.to_set().contains(x) implies rest.contains(x) by {
                let k = choose|k: int| 0 <= k < p.len() && p[k] == x;
                assert(p[k] != a);
            }
        }
        vstd::set_lib::lemma_len_subset(p.to_set(), rest);
    }
}

/// A strictly increasing listing of `n` positions below `n` lists them all
/// in order.
proof fn lemma_strict_is_identity(q: Seq<int>, n: int, a: int)
    requires
        q.len() == n,
        forall|i: int| 0 <= i < n ==> 0 <= #[trigger] q[i] < n,
        forall|i: int, j: int| 0 <= i < j < n ==> #[trigger] q[i] < #[trigger] q[j],
        0 <= a < n,
    ensures
        q[a] == a,
{
    lemma_strict_at_least(q, n, a);
    lemma_strict_at_most(q, n, a);
}

proof fn lemma_strict_at_least(q: Seq<int>, n: int, a: int)
    requires
        q.len() == n,
        forall|i: int| 0 <= i < n ==> 0 <= #[trigger] q[i] < n,
        forall|i: int, j: int| 0 <= i < j < n ==> #[trigger] q[i] < #[trigger] q[j],
        0 <= a < n,
    ensures
        q[a] >= a,
    decreases a,
{
    if a > 0 {
        lemma_strict_at_least(q, n, a - 1);
        assert(q[a - 1] < q[a]);
    }
}

proof fn lemma_strict_at_most(q: Seq<int>, n: int, a: int)
    requires
        q.len() == n,
        forall|i: int| 0 <= i < n ==> 0 <= #[trigger] q[i] < n,
        forall|i: int, j: int| 0 <= i < j < n ==> #[trigger] q[i] < #[trigger] q[j],
        0 <= a < n,
    ensures
        q[a] <= a,
    decreases n - a,
{
    if a < n - 1 {
        lemma_strict_at_most(q, n, a + 1);
        assert(q[a] < q[a + 1]);
    }
}

/// The hidden list is determined by the notifications alone: any two correct
/// hidden lists (two recomputations, whatever order the notifications were
/// visited in) are the same.
pub proof fn lemma_hidden_list_unique(h1: Seq<EntryView>, h2: Seq<EntryView>, ns: Seq<EntryView>, quiet: bool)
    requires
        hidden_list_of(h1, ns, quiet),
        hidden_list_of(h2, ns, quiet),
    ensures
        h1 == h2,
{
    let pool = ns.filter(hidden_filter(quiet));
    let p1 = choose|p: Seq<int>| rearranges_by(h1, pool, p) && stable_by(h1, p);
    let p2 = choose|p: Seq<int>| rearranges_by(h2, pool, p) && stable_by(h2, p);
    let n = pool.len() as int;
    let q = Seq::new(n as nat, |a: int| choose|b: int| 0 <= b < n && #[trigger] p2[b] == p1[a]);
    assert forall|a: int| 0 <= a < n implies 0 <= #[trigger] q[a] < n && p2[q[a]] == p1[a] && h2[q[a]]
        == h1[a] by {
        lemma_injective_covers(p2, n, p1[a]);
    }
    // both lists rise in (rank, position in the pool), so `q` keeps order
    assert forall|a: int, b: int| 0 <= a < b < n implies #[trigger] q[a] < #[trigger] q[b] by {
        assert(p1[a] != p1[b]);
        if q[b] < q[a] {
            assert(h2[q[b]].counter <= h2[q[a]].counter);
            assert(h1[a].counter <= h1[b].counter);
            assert(p1[a] < p1[b]);
            assert(p2[q[b]] < p2[q[a]]);
        }
    }
    assert forall|a: int| 0 <= a < n implies h1[a] == h2[a] by {
        lemma_strict_is_identity(q, n, a);
    }
    assert(h1 =~= h2);
}

/// A player button sends its command exactly when the followed player
/// reports the matching capability, each command looking at its own
/// capability alone; with no player followed, nothing is sent. The bar
/// itself does not change.
pub proof fn lemma_control_follows_capability(old: Bar, new: Bar, r: Seq<Action>, cmd: PlayerCommand)
    requires
        update_post(old, new, r, Event::Control(cmd)),
    ensures
        new == old,
        r == Seq::<Action>::empty() || r == seq![Action::Control(cmd)],
        old.service is None ==> r == Seq::<Action>::empty(),
        old.service matches Some(p) ==> {
            &&& cmd == PlayerCommand::Previous ==> (r == seq![Action::Control(cmd)] <==> p.can_go_previous)
            &&& cmd == PlayerCommand::Next ==> (r == seq![Action::Control(cmd)] <==> p.can_go_next)
            &&& cmd == PlayerCommand::Pause ==> (r == seq![Action::Control(cmd)] <==> p.can_pause)
            &&& cmd == PlayerCommand::Play ==> (r == seq![Action::Control(cmd)] <==> p.can_play)
        },
{
    assert(seq![Action::Control(cmd)] != Seq::<Action>::empty()) by {
        assert(seq![Action::Control(cmd)].len() == 1);
    }
}

/// Entering quiet mode closes every notification window and the
/// hidden-notification window, if there is one, and does nothing else.
pub proof fn lemma_quiet_closes_every_window(old: Bar, new: Bar, r: Seq<Action>)
    requires
        update_post(old, new, r, Event::QuietMode(true)),
    ensures
        forall|a: int| 0 <= a < old.shown@.len() ==> r.contains(Action::CloseWindow(#[trigger] old.shown@[a].0)),
        old.hidden_id matches Some(w) ==> r.contains(Action::CloseWindow(w)),
        forall|k: int| 0 <= k < r.len() ==> (#[trigger] r[k]) is CloseWindow,
        new.quiet,
{
    let c = crate::bar::close_all(old.shown@);
    assert forall|a: int| 0 <= a < old.shown@.len() implies r.contains(Action::CloseWindow(#[trigger] old.shown@[a].0)) by {
        assert(r[a] == c[a]);
    }
    if let Some(w) = old.hidden_id {
        assert(r[c.len() as int] == Action::CloseWindow(w));
    }
}

/// Forgetting a closed window keeps every notification that is not being
/// taken away, and every notification the window did not show; no
/// notification appears that was not there.
pub proof fn lemma_forget_window_keeps_live(old: Bar, new: Bar, w: u64)
    requires
        old.wf(),
        remove_id_post(old, new, w),
    ensures
        forall|i: int|
            0 <= i < old.entries().len() && !(#[trigger] old.entries()[i]).to_delete ==> new.entries().contains(
                old.entries()[i],
            ),
        forall|i: int|
            0 <= i < old.entries().len() && (forall|a: int|
                0 <= a < old.shown@.len() && old.shown@[a].0 == w ==> old.shown@[a].1
                    != old.entries()[i].unit.id) ==> new.entries().contains(#[trigger] old.entries()[i]),
        forall|x: EntryView| new.entries().contains(x) ==> old.entries().contains(x),
{
    let es = old.entries();
    if has_key(old.shown@, w) {
        let ki = key_index(old.shown@, w);
        lemma_key_index(old.shown@, ki);
        let nid = old.shown@[ki].1;
        if !(has_id(es, nid) && !es[index_of_id(es, nid)].to_delete) {
            let f = crate::ops::keep_filter(crate::ops::Keep::OtherThan(nid));
            broadcast use vstd::seq_lib::group_filter_ensures;
            assert forall|i: int| 0 <= i < es.len() && es[i].unit.id != nid implies new.entries().contains(
                es[i],
            ) by {
                assert(f(es[i]));
            }
            assert forall|i: int| 0 <= i < es.len() && !(#[trigger] es[i]).to_delete implies new.entries().contains(
                es[i],
            ) by {
                if es[i].unit.id == nid {
                    crate::ops::lemma_index_of_id(es, i);
                }
                assert(f(es[i]));
            }
            assert forall|x: EntryView| new.entries().contains(x) implies es.contains(x) by {
                es.lemma_filter_contains_rev(f, x);
            }
            assert forall|i: int|
                0 <= i < es.len() && (forall|a: int|
                    0 <= a < old.shown@.len() && old.shown@[a].0 == w ==> old.shown@[a].1 != es[i].unit.id)
                implies new.entries().contains(#[trigger] es[i]) by {
                assert(old.shown@[ki].0 == w);
                assert(f(es[i]));
            }
        } else {
            assert forall|i: int| 0 <= i < es.len() implies new.entries().contains(#[trigger] es[i]) by {
                assert(new.entries()[i] == es[i]);
            }
        }
    } else {
        assert forall|i: int| 0 <= i < es.len() implies new.entries().contains(#[trigger] es[i]) by {
            assert(new.entries()[i] == es[i]);
        }
    }
}

/// Two lists that fall strictly and hold the same elements are the same.
proof fn lemma_falling_same_elements(s: Seq<u32>, t: Seq<u32>)
    requires
        forall|a: int, b: int| 0 <= a < b < s.len() ==> #[trigger] s[a] > #[trigger] s[b],
        forall|a: int, b: int| 0 <= a < b < t.len() ==> #[trigger] t[a] > #[trigger] t[b],
        forall|a: int| 0 <= a < s.len() ==> t.contains(#[trigger] s[a]),
        forall|a: int| 0 <= a < t.len() ==> s.contains(#[trigger] t[a]),
    ensures
        s == t,
    decreases s.len() + t.len(),
{
    if s.len() == 0 {
        if t.len() > 0 {
            assert(s.contains(t[0]));
        }
        assert(s =~= t);
    } else if t.len() == 0 {
        assert(t.contains(s[0]));
    } else {
        assert(t.contains(s[0]));
        assert(s.contains(t[0]));
        let i = choose|i: int| 0 <= i < s.len() && s[i] == t[0];
        let j = choose|j: int| 0 <= j < t.len() && t[j] == s[0];
        if i > 0 {
            assert(s[0] > s[i]);
        }
        if j > 0 {
            assert(t[0] > t[j]);
        }
        assert(s[0] == t[0]);
        let s1 = s.drop_first();
        let t1 = t.drop_first();
        assert forall|a: int| 0 <= a < s1.len() implies t1.contains(#[trigger] s1[a]) by {
            assert(s1[a] == s[a + 1]);
            assert(s[0] > s[a + 1]);
            assert(t.contains(s[a + 1]));
            let q = choose|q: int| 0 <= q < t.len() && t[q] == s[a + 1];
            assert(q != 0);
            assert(t1[q - 1] == t[q]);
        }
        assert forall|a: int| 0 <= a < t1.len() implies s1.contains(#[trigger] t1[a]) by {
            assert(t1[a] == t[a + 1]);
            assert(t[0] > t[a + 1]);
            assert(s.contains(t[a + 1]));
            let q = choose|q: int| 0 <= q < s.len() && s[q] == t[a + 1];
            assert(q != 0);
            assert(s1[q - 1] == s[q]);
        }
        assert forall|a: int, b: int| 0 <= a < b < s1.len() implies #[trigger] s1[a] > #[trigger] s1[b] by {
            assert(s[a + 1] > s[b + 1]);
        }
        assert forall|a: int, b: int| 0 <= a < b < t1.len() implies #[trigger] t1[a] > #[trigger] t1[b] by {
            assert(t[a + 1] > t[b + 1]);
        }
        lemma_falling_same_elements(s1, t1);
        assert(s =~= t) by {
            assert forall|a: int| 0 <= a < s.len() implies s[a] == t[a] by {
                if a > 0 {
                    assert(s[a] == s1[a - 1]);
                    assert(t[a] == t1[a - 1]);
                }
            }
        }
    }
}

/// Some notification not being taken away carries the id `id`.
pub open spec fn is_live_id(es: Seq<EntryView>, id: u32) -> bool {
    exists|i: int| 0 <= i < es.len() && !es[i].to_delete && #[trigger] es[i].unit.id == id
}

/// Some window shows the notification `id`.
pub open spec fn has_window_showing(shown: Seq<(u64, u32)>, id: u32) -> bool {
    exists|a: int| 0 <= a < shown.len() && #[trigger] shown[a].1 == id
}

/// `top` is the top margin of the notification the window `window` shows.
pub open spec fn at_margin_of_shown(shown: Seq<(u64, u32)>, es: Seq<EntryView>, window: u64, top: i32) -> bool {
    exists|a: int, i: int|
        #![trigger shown[a], es[i]]
        0 <= a < shown.len() && 0 <= i < es.len() && shown[a].0 == window && es[i].unit.id == shown[a].1
            && es[i].upper == top
}

/// Among the actions `r` is one moving the window of `w` (window, shown
/// notification) to that notification's top margin in `es`.
pub open spec fn moves_to_margin(r: Seq<Action>, es: Seq<EntryView>, w: (u64, u32)) -> bool {
    exists|k: int, i: int|
        #![trigger r[k], es[i]]
        0 <= k < r.len() && 0 <= i < es.len() && es[i].unit.id == w.1 && r[k] == (Action::MoveWindow {
            window: w.0,
            top: es[i].upper,
        })
}

/// When a new notification, newer in id than all others, arrives outside
/// quiet mode while fewer windows are in use than can be, and the windows
/// show exactly the live notifications, each once, all of rank below the
/// number of windows: every window moves, and each window moved goes to the
/// top margin that the notification it shows has after the arrival.
pub proof fn lemma_arrival_moves_windows_to_their_notifications(
    old: Bar,
    new: Bar,
    r: Seq<Action>,
    n: NotificationView,
)
    requires
        old.wf(),
        arrival_post(old, new, r, n),
        !has_id(old.entries(), n.id),
        !old.quiet,
        old.shown@.len() < crate::notify::MAX_SHOWN_NOTIFICATIONS_COUNT,
        forall|i: int| 0 <= i < old.entries().len() ==> #[trigger] old.entries()[i].unit.id < n.id,
        forall|a: int, b: int| 0 <= a < b < old.shown@.len() ==> #[trigger] old.shown@[a].1 != #[trigger] old.shown@[b].1,
        forall|a: int| 0 <= a < old.shown@.len() ==> is_live_id(old.entries(), #[trigger] old.shown@[a].1),
        forall|i: int|
            0 <= i < old.entries().len() && !(#[trigger] old.entries()[i]).to_delete ==> {
                &&& old.entries()[i].counter < old.shown@.len()
                &&& has_window_showing(old.shown@, old.entries()[i].unit.id)
            },
    ensures
        new.shown@ == old.shown@,
        forall|k: int|
            0 <= k < r.len() ==> (#[trigger] r[k] matches Action::MoveWindow { window, top } ==> at_margin_of_shown(
                new.shown@,
                new.entries(),
                window,
                top,
            )),
        forall|a: int| 0 <= a < old.shown@.len() ==> moves_to_margin(r, new.entries(), #[trigger] old.shown@[a]),
{
    let es = old.entries();
    let shown = old.shown@;
    let ns1 = crate::ops::bump_entries(es).push(fresh_entry(n));
    let (ord, now, layout) = choose|ord: Seq<usize>, now: Seq<(u32, i32)>, layout: Seq<Action>|
        crate::ops::orders_by_id_desc(shown, ord) && crate::ops::lists_by_id_desc(now, ns1, true)
            && #[trigger] crate::arrival::arrival_layout(old, new, layout, n.id, ord, now) && r
            == crate::arrival::timeout_actions(n) + layout + crate::bar::open_hidden_if_needed(
            ns1.len() as int,
            old.hidden_id,
        );
    assert(new.entries() == ns1);
    let last = es.len() as int;
    assert(ns1[last] == fresh_entry(n));
    // the newcomer heads the listing
    assert(crate::ops::is_listed(ns1[last], true));
    assert(now.contains((ns1[last].unit.id, ns1[last].upper)));
    let j0 = choose|j: int| 0 <= j < now.len() && now[j] == (n.id, 10i32);
    assert(crate::ops::is_listed_pair(ns1, now[0], true));
    let i0 = choose|i: int|
        0 <= i < ns1.len() && crate::ops::is_listed(#[trigger] ns1[i], true) && ns1[i].unit.id == now[0].0
            && ns1[i].upper == now[0].1;
    if i0 < last {
        assert(ns1[i0].unit.id == es[i0].unit.id);
    }
    if j0 > 0 {
        assert(now[0].0 > now[j0].0);
    }
    assert(now[0].0 == n.id);
    let s = Seq::new(shown.len(), |q: int| shown[ord[q] as int].1);
    let t = Seq::new((now.len() - 1) as nat, |q: int| now[q + 1].0);
    assert forall|a: int, b: int| 0 <= a < b < s.len() implies #[trigger] s[a] > #[trigger] s[b] by {
        assert(crate::ops::precedes(shown, ord[a] as int, ord[b] as int));
        crate::ops::lemma_order_distinct(shown, ord, a, b);
        if ord[a] < ord[b] {
            assert(shown[ord[a] as int].1 != shown[ord[b] as int].1);
        } else {
            assert(shown[ord[b] as int].1 != shown[ord[a] as int].1);
        }
    }
    assert forall|a: int, b: int| 0 <= a < b < t.len() implies #[trigger] t[a] > #[trigger] t[b] by {
        assert(now[a + 1].0 > now[b + 1].0);
    }
    assert forall|a: int| 0 <= a < s.len() implies t.contains(#[trigger] s[a]) by {
        let x = shown[ord[a] as int];
        assert(shown[ord[a] as int].1 == x.1);
        let i = choose|i: int| 0 <= i < es.len() && !es[i].to_delete && #[trigger] es[i].unit.id == x.1;
        assert(ns1[i] == crate::ops::bumped(es[i]));
        assert(crate::ops::is_listed(ns1[i], true));
        assert(now.contains((ns1[i].unit.id, ns1[i].upper)));
        let q = choose|q: int| 0 <= q < now.len() && now[q] == (ns1[i].unit.id, ns1[i].upper);
        assert(es[i].unit.id < n.id);
        assert(q != 0);
        assert(t[q - 1] == s[a]);
    }
    assert forall|a: int| 0 <= a < t.len() implies s.contains(#[trigger] t[a]) by {
        assert(now[0].0 > now[a + 1].0);
        assert(crate::ops::is_listed_pair(ns1, now[a + 1], true));
        let i = choose|i: int|
            0 <= i < ns1.len() && crate::ops::is_listed(#[trigger] ns1[i], true) && ns1[i].unit.id
                == now[a + 1].0 && ns1[i].upper == now[a + 1].1;
        assert(i != last);
        assert(ns1[i] == crate::ops::bumped(es[i]));
        assert(!es[i].to_delete);
        let w = choose|w: int| 0 <= w < shown.len() && #[trigger] shown[w].1 == es[i].unit.id;
        lemma_order_covers(shown, ord, w);
        let k = choose|k: int| 0 <= k < ord.len() && #[trigger] ord[k] == w;
        assert(s[k] == t[a]);
    }
    lemma_falling_same_elements(s, t);
    assert(s.len() == t.len());
    let mw = crate::arrival::move_windows(shown, ord, now);
    assert(mw.len() == shown.len());
    let pre = crate::arrival::timeout_actions(n) + seq![Action::OpenNotification { top: 10, id: n.id }];
    let hid = crate::bar::open_hidden_if_needed(ns1.len() as int, old.hidden_id);
    assert(r =~= pre + mw + hid);
    // what each move does
    assert forall|m: int| #![trigger mw[m]] 0 <= m < mw.len() implies exists|i: int|
        0 <= i < ns1.len() && #[trigger] ns1[i].unit.id == shown[ord[m] as int].1 && mw[m]
            == Action::MoveWindow { window: shown[ord[m] as int].0, top: ns1[i].upper } by {
        assert(s[m] == t[m]);
        assert(crate::ops::is_listed_pair(ns1, now[m + 1], true));
        let i = choose|i: int|
            0 <= i < ns1.len() && crate::ops::is_listed(#[trigger] ns1[i], true) && ns1[i].unit.id
                == now[m + 1].0 && ns1[i].upper == now[m + 1].1;
        assert(ns1[i].unit.id == shown[ord[m] as int].1);
    }
    assert forall|k: int| 0 <= k < r.len() implies (#[trigger] r[k] matches Action::MoveWindow { window, top }
        ==> at_margin_of_shown(new.shown@, new.entries(), window, top)) by {
        if k < pre.len() {
            assert(r[k] == pre[k]);
            if k < crate::arrival::timeout_actions(n).len() {
                assert(pre[k] == crate::arrival::timeout_actions(n)[k]);
            }
        } else if k < pre.len() + mw.len() {
            let m = k - pre.len();
            assert(r[k] == mw[m]);
            let i = choose|i: int|
                0 <= i < ns1.len() && #[trigger] ns1[i].unit.id == shown[ord[m] as int].1 && mw[m]
                    == Action::MoveWindow { window: shown[ord[m] as int].0, top: ns1[i].upper };
            assert(new.entries()[i].unit.id == new.shown@[ord[m] as int].1);
        } else {
            assert(r[k] == hid[k - pre.len() - mw.len()]);
        }
    }
    assert forall|a: int| 0 <= a < shown.len() implies moves_to_margin(r, new.entries(), #[trigger] shown[a]) by {
        lemma_order_covers(shown, ord, a);
        let m = choose|m: int| 0 <= m < ord.len() && #[trigger] ord[m] == a;
        let i = choose|i: int|
            0 <= i < ns1.len() && #[trigger] ns1[i].unit.id == shown[ord[m] as int].1 && mw[m]
                == Action::MoveWindow { window: shown[ord[m] as int].0, top: ns1[i].upper };
        assert(r[pre.len() + m] == mw[m]);
    }
}

/// Leaving quiet mode opens a window for every notification of a shown rank,
/// at that notification's top margin, and no other notification window;
/// the hidden-notification window opens exactly when there are more
/// notifications than windows and it is not open already. Nothing closes.
pub proof fn lemma_leaving_quiet_reopens_windows(old: Bar, new: Bar, r: Seq<Action>)
    requires
        update_post(old, new, r, Event::QuietMode(false)),
    ensures
        !new.quiet,
        forall|i: int|
            0 <= i < old.entries().len() && (#[trigger] old.entries()[i]).counter
                < crate::notify::MAX_SHOWN_NOTIFICATIONS_COUNT ==> r.contains(
                (Action::OpenNotification { top: old.entries()[i].upper, id: old.entries()[i].unit.id }),
            ),
        forall|k: int|
            0 <= k < r.len() ==> (#[trigger] r[k] matches Action::OpenNotification { top, id } ==> exists|i: int|
                0 <= i < old.entries().len() && #[trigger] old.entries()[i].counter
                    < crate::notify::MAX_SHOWN_NOTIFICATIONS_COUNT && old.entries()[i].unit.id == id
                    && old.entries()[i].upper == top),
        r.contains(Action::OpenHiddenInfo) <==> (old.entries().len() > crate::notify::MAX_SHOWN_NOTIFICATIONS_COUNT
            && old.hidden_id is None),
        forall|k: int| 0 <= k < r.len() ==> !(#[trigger] r[k] is CloseWindow),
{
    let es = old.entries();
    let f = crate::bar::rank_filter();
    let fe = es.filter(f);
    let opens = fe.map_values(|e: EntryView| crate::bar::open_for(e));
    let hid = crate::bar::open_hidden_if_needed(es.len() as int, old.hidden_id);
    assert(r == opens + hid);
    broadcast use vstd::seq_lib::group_filter_ensures;
    assert forall|i: int|
        0 <= i < es.len() && (#[trigger] es[i]).counter < crate::notify::MAX_SHOWN_NOTIFICATIONS_COUNT implies r.contains(
            (Action::OpenNotification { top: es[i].upper, id: es[i].unit.id }),
        ) by {
        assert(f(es[i]));
        assert(fe.contains(es[i]));
        let q = choose|q: int| 0 <= q < fe.len() && fe[q] == es[i];
        assert(r[q] == opens[q]);
    }
    assert forall|k: int| 0 <= k < r.len() implies (#[trigger] r[k] matches Action::OpenNotification { top, id }
        ==> exists|i: int|
        0 <= i < es.len() && #[trigger] es[i].counter < crate::notify::MAX_SHOWN_NOTIFICATIONS_COUNT
            && es[i].unit.id == id && es[i].upper == top) by {
        if k < opens.len() {
            assert(r[k] == opens[k]);
            assert(fe.contains(fe[k]));
            es.lemma_filter_contains_rev(f, fe[k]);
            let i = choose|i: int| 0 <= i < es.len() && es[i] == fe[k];
            assert(f(fe[k]));
        } else {
            assert(r[k] == hid[k - opens.len()]);
        }
    }
    if r.contains(Action::OpenHiddenInfo) {
        let k = choose|k: int| 0 <= k < r.len() && r[k] == Action::OpenHiddenInfo;
        if k < opens.len() {
            assert(r[k] == opens[k]);
        } else {
            assert(r[k] == hid[k - opens.len()]);
        }
    }
    if es.len() > crate::notify::MAX_SHOWN_NOTIFICATIONS_COUNT && old.hidden_id is None {
        assert(r[opens.len() as int] == Action::OpenHiddenInfo);
    }
    assert forall|k: int| 0 <= k < r.len() implies !(#[trigger] r[k] is CloseWindow) by {
        if k < opens.len() {
            assert(r[k] == opens[k]);
        } else {
            assert(r[k] == hid[k - opens.len()]);
        }
    }
}

/// Clearing all notifications closes every notification window and the
/// hidden-notification window, if there is one, then asks for the output
/// check, and leaves no notification.
pub proof fn lemma_clear_all_closes_every_window(old: Bar, new: Bar, r: Seq<Action>)
    requires
        update_post(old, new, r, Event::ClearAllNotifications),
    ensures
        forall|a: int| 0 <= a < old.shown@.len() ==> r.contains(Action::CloseWindow(#[trigger] old.shown@[a].0)),
        old.hidden_id matches Some(w) ==> r.contains(Action::CloseWindow(w)),
        r.len() > 0 && r.last() == Action::CheckOutputSoon,
        forall|k: int| 0 <= k < r.len() - 1 ==> (#[trigger] r[k]) is CloseWindow,
        new.entries().len() == 0,
{
    let c = crate::bar::close_all(old.shown@);
    assert forall|a: int| 0 <= a < old.shown@.len() implies r.contains(Action::CloseWindow(#[trigger] old.shown@[a].0)) by {
        assert(r[a] == c[a]);
    }
    if let Some(w) = old.hidden_id {
        assert(r[c.len() as int] == Action::CloseWindow(w));
    }
}

/// A live entry other than `rid` of the marked list stays after a removal.
proof fn lemma_live_stays(ns1: Seq<EntryView>, rid: u32, c: usize, closed: bool, quiet: bool, i: int)
    requires
        0 <= i < ns1.len(),
        !ns1[i].to_delete,
        ns1[i].unit.id != rid,
    ensures
        entries_after_removal(ns1, rid, c, closed, quiet).contains(ns1[i]),
{
    let ns2 = if closed { ns1 } else { ns1.filter(live_filter()) };
    if !closed {
        broadcast use vstd::seq_lib::group_filter_ensures;
        assert(live_filter()(ns1[i]));
    }
    assert(ns2.contains(ns1[i]));
    if quiet || c >= crate::notify::MAX_SHOWN_NOTIFICATIONS_COUNT {
        let f = crate::ops::keep_filter(crate::ops::Keep::OtherThan(rid));
        broadcast use vstd::seq_lib::group_filter_ensures;
        let q = choose|q: int| 0 <= q < ns2.len() && ns2[q] == ns1[i];
        assert(f(ns2[q]));
    }
}

/// Taking a notification away hands the remaining windows out by id: a
/// window keeps showing a notification (rather than closing with the taken
/// one as record) only if every window that showed a higher id does too,
/// and the kept windows keep their order by id; each kept window shows a
/// live notification, and no live notification of a higher id than a kept
/// window's is left without a window.
#[verifier::spinoff_prover]
#[verifier::rlimit(40)]
pub proof fn lemma_removal_hands_windows_by_id(old: Bar, new: Bar, r: Seq<Action>, rid: u32)
    requires
        old.wf(),
        removal_post(old, new, r, rid),
        has_id(old.entries(), rid),
    ensures
        new.shown@.len() == old.shown@.len(),
        forall|a: int| 0 <= a < new.shown@.len() ==> (#[trigger] new.shown@[a]).0 == old.shown@[a].0,
        forall|a: int, b: int|
            #![trigger old.shown@[a], new.shown@[b]]
            0 <= a < old.shown@.len() && 0 <= b < old.shown@.len() && old.shown@[a].1 > old.shown@[b].1
                && new.shown@[b].1 != rid ==> new.shown@[a].1 != rid && new.shown@[a].1 > new.shown@[b].1,
        forall|a: int|
            0 <= a < new.shown@.len() && (#[trigger] new.shown@[a]).1 != rid ==> is_live_id(
                new.entries(),
                new.shown@[a].1,
            ),
        forall|a: int, i: int|
            #![trigger new.shown@[a], new.entries()[i]]
            0 <= a < new.shown@.len() && new.shown@[a].1 != rid && 0 <= i < new.entries().len()
                && !new.entries()[i].to_delete && new.entries()[i].unit.id > new.shown@[a].1 ==> has_window_showing(
                new.shown@,
                new.entries()[i].unit.id,
            ),
{
    let os = old.entries();
    let c = os[index_of_id(os, rid)].counter;
    let ns1 = mark_entries(os, rid, c);
    let (ord, live) = choose|ord: Seq<usize>, live: Seq<(u32, i32)>|
        crate::ops::orders_by_id_desc(old.shown@, ord) && crate::ops::lists_by_id_desc(live, ns1, false)
            && #[trigger] removal_result(old, new, r, rid, c, ns1, ord, live);
    let shown = old.shown@;
    let n = shown.len() as int;
    let m = live.len() as int;
    let closed = n > m;
    let ns3 = entries_after_removal(ns1, rid, c, closed, old.quiet);
    assert(new.entries() == ns3);
    // what each window shows afterwards
    assert forall|a: int| #![trigger new.shown@[a]] 0 <= a < n implies exists|x: int|
        0 <= x < n && #[trigger] ord[x] == a && new.shown@[a] == (shown[a].0, if x < m {
            live[x].0
        } else {
            rid
        }) by {
        lemma_order_covers(shown, ord, a);
        let x = choose|x: int| 0 <= x < ord.len() && #[trigger] ord[x] == a;
        assert(new.shown@[ord[x] as int] == (shown[ord[x] as int].0, if x < m { live[x].0 } else { rid }));
    }
    // a listed notification is live and is not the one taken away
    assert forall|k: int| #![trigger live[k]] 0 <= k < m implies exists|i: int|
        0 <= i < ns1.len() && !ns1[i].to_delete && #[trigger] ns1[i].unit.id == live[k].0 && ns1[i].unit.id
            != rid by {
        assert(crate::ops::is_listed_pair(ns1, live[k], false));
        let i = choose|i: int|
            0 <= i < ns1.len() && crate::ops::is_listed(#[trigger] ns1[i], false) && ns1[i].unit.id == live[k].0
                && ns1[i].upper == live[k].1;
        assert(ns1[i] == crate::ops::after_removal(os[i], rid, c));
    }
    assert forall|a: int| 0 <= a < new.shown@.len() implies (#[trigger] new.shown@[a]).0 == old.shown@[a].0 by {
        let x = choose|x: int|
            0 <= x < n && #[trigger] ord[x] == a && new.shown@[a] == (shown[a].0, if x < m {
                live[x].0
            } else {
                rid
            });
    }
    assert forall|a: int, b: int|
        #![trigger old.shown@[a], new.shown@[b]]
        0 <= a < n && 0 <= b < n && old.shown@[a].1 > old.shown@[b].1 && new.shown@[b].1 != rid implies new.shown@[a].1
            != rid && new.shown@[a].1 > new.shown@[b].1 by {
        let xa = choose|x: int|
            0 <= x < n && #[trigger] ord[x] == a && new.shown@[a] == (shown[a].0, if x < m {
                live[x].0
            } else {
                rid
            });
        let xb = choose|x: int|
            0 <= x < n && #[trigger] ord[x] == b && new.shown@[b] == (shown[b].0, if x < m {
                live[x].0
            } else {
                rid
            });
        assert(xb < m);
        if xa > xb {
            assert(crate::ops::precedes(shown, ord[xb] as int, ord[xa] as int));
        }
        assert(xa != xb);
        assert(xa < xb);
        assert(live[xa].0 > live[xb].0);
        let i = choose|i: int|
            0 <= i < ns1.len() && !ns1[i].to_delete && #[trigger] ns1[i].unit.id == live[xa].0 && ns1[i].unit.id
                != rid;
    }
    assert forall|a: int| 0 <= a < n && (#[trigger] new.shown@[a]).1 != rid implies is_live_id(
        ns3,
        new.shown@[a].1,
    ) by {
        let x = choose|x: int|
            0 <= x < n && #[trigger] ord[x] == a && new.shown@[a] == (shown[a].0, if x < m {
                live[x].0
            } else {
                rid
            });
        assert(x < m);
        let i = choose|i: int|
            0 <= i < ns1.len() && !ns1[i].to_delete && #[trigger] ns1[i].unit.id == live[x].0 && ns1[i].unit.id
                != rid;
        lemma_live_stays(ns1, rid, c, closed, old.quiet, i);
        let q = choose|q: int| 0 <= q < ns3.len() && ns3[q] == ns1[i];
        assert(!ns3[q].to_delete && ns3[q].unit.id == new.shown@[a].1);
    }
    assert forall|a: int, i: int|
        #![trigger new.shown@[a], new.entries()[i]]
        0 <= a < n && new.shown@[a].1 != rid && 0 <= i < ns3.len() && !ns3[i].to_delete && ns3[i].unit.id
            > new.shown@[a].1 implies has_window_showing(new.shown@, ns3[i].unit.id) by {
        let x = choose|x: int|
            0 <= x < n && #[trigger] ord[x] == a && new.shown@[a] == (shown[a].0, if x < m {
                live[x].0
            } else {
                rid
            });
        assert(x < m);
        let e = ns3[i];
        assert(ns3.contains(e));
        lemma_left_from_marked(ns1, rid, c, closed, old.quiet, e);
        let j = choose|j: int| 0 <= j < ns1.len() && ns1[j] == e;
        assert(crate::ops::is_listed(ns1[j], false));
        assert(live.contains((ns1[j].unit.id, ns1[j].upper)));
        let q = choose|q: int| 0 <= q < live.len() && live[q] == (ns1[j].unit.id, ns1[j].upper);
        if q >= x {
            if q > x {
                assert(live[x].0 > live[q].0);
            }
        }
        assert(q < x);
        let w = ord[q] as int;
        let xw = choose|y: int|
            0 <= y < n && #[trigger] ord[y] == w && new.shown@[w] == (shown[w].0, if y < m {
                live[y].0
            } else {
                rid
            });
        if xw != q {
            crate::ops::lemma_order_distinct(shown, ord, q, xw);
        }
        assert(new.shown@[w].1 == e.unit.id);
    }
}

/// Some notification not being taken away holds the rank `rank`.
pub open spec fn holds_live_rank(es: Seq<EntryView>, rank: int) -> bool {
    exists|i: int| 0 <= i < es.len() && !es[i].to_delete && #[trigger] es[i].counter == rank
}

/// Some notification not being taken away, of a rank that gets a window,
/// carries the id `id`.
pub open spec fn is_shown_rank_id(es: Seq<EntryView>, id: u32) -> bool {
    exists|i: int| 0 <= i < es.len() && crate::ops::is_shown_rank(es[i]) && #[trigger] es[i].unit.id == id
}

/// When a new notification, newer in id than all others, arrives outside
/// quiet mode with every window in use, and live notifications hold the
/// ranks that stay shown after moving one down: every window stays and is
/// handed a live notification of a shown rank; the windows keep their order
/// by id; and no such notification of a higher id than a window's is left
/// without a window.
pub proof fn lemma_full_arrival_hands_windows_by_id(old: Bar, new: Bar, r: Seq<Action>, n: NotificationView)
    requires
        old.wf(),
        arrival_post(old, new, r, n),
        !has_id(old.entries(), n.id),
        !old.quiet,
        old.shown@.len() == crate::notify::MAX_SHOWN_NOTIFICATIONS_COUNT,
        forall|i: int| 0 <= i < old.entries().len() ==> #[trigger] old.entries()[i].unit.id < n.id,
        forall|rank: int|
            0 <= rank < crate::notify::MAX_SHOWN_NOTIFICATIONS_COUNT - 1 ==> #[trigger] holds_live_rank(
                old.entries(),
                rank,
            ),
    ensures
        new.shown@.len() == old.shown@.len(),
        forall|a: int| 0 <= a < new.shown@.len() ==> (#[trigger] new.shown@[a]).0 == old.shown@[a].0,
        forall|a: int|
            0 <= a < new.shown@.len() ==> is_shown_rank_id(new.entries(), (#[trigger] new.shown@[a]).1),
        forall|a: int, b: int|
            #![trigger old.shown@[a], new.shown@[b]]
            0 <= a < old.shown@.len() && 0 <= b < old.shown@.len() && old.shown@[a].1 > old.shown@[b].1
                ==> new.shown@[a].1 > new.shown@[b].1,
        forall|a: int, i: int|
            #![trigger new.shown@[a], new.entries()[i]]
            0 <= a < new.shown@.len() && 0 <= i < new.entries().len() && crate::ops::is_shown_rank(
                new.entries()[i],
            ) && new.entries()[i].unit.id > new.shown@[a].1 ==> has_window_showing(
                new.shown@,
                new.entries()[i].unit.id,
            ),
{
    let es = old.entries();
    let shown = old.shown@;
    let ns1 = crate::ops::bump_entries(es).push(fresh_entry(n));
    let (ord, now, layout) = choose|ord: Seq<usize>, now: Seq<(u32, i32)>, layout: Seq<Action>|
        crate::ops::orders_by_id_desc(shown, ord) && crate::ops::lists_by_id_desc(now, ns1, true)
            && #[trigger] crate::arrival::arrival_layout(old, new, layout, n.id, ord, now) && r
            == crate::arrival::timeout_actions(n) + layout + crate::bar::open_hidden_if_needed(
            ns1.len() as int,
            old.hidden_id,
        );
    assert(new.entries() == ns1);
    let last = es.len() as int;
    assert(ns1[last] == fresh_entry(n));
    assert(crate::ops::is_listed(ns1[last], true));
    assert(now.contains((ns1[last].unit.id, ns1[last].upper)));
    // three older notifications stay of a shown rank, under distinct ids
    assert(holds_live_rank(es, 0));
    assert(holds_live_rank(es, 1));
    assert(holds_live_rank(es, 2));
    let i0 = choose|i: int| 0 <= i < es.len() && !es[i].to_delete && #[trigger] es[i].counter == 0;
    let i1 = choose|i: int| 0 <= i < es.len() && !es[i].to_delete && #[trigger] es[i].counter == 1;
    let i2 = choose|i: int| 0 <= i < es.len() && !es[i].to_delete && #[trigger] es[i].counter == 2;
    assert(ns1[i0] == crate::ops::bumped(es[i0]));
    assert(ns1[i1] == crate::ops::bumped(es[i1]));
    assert(ns1[i2] == crate::ops::bumped(es[i2]));
    assert(crate::ops::is_listed(ns1[i0], true));
    assert(crate::ops::is_listed(ns1[i1], true));
    assert(crate::ops::is_listed(ns1[i2], true));
    assert(now.contains((ns1[i0].unit.id, ns1[i0].upper)));
    assert(now.contains((ns1[i1].unit.id, ns1[i1].upper)));
    assert(now.contains((ns1[i2].unit.id, ns1[i2].upper)));
    let q0 = choose|q: int| 0 <= q < now.len() && now[q] == (ns1[i0].unit.id, ns1[i0].upper);
    let q1 = choose|q: int| 0 <= q < now.len() && now[q] == (ns1[i1].unit.id, ns1[i1].upper);
    let q2 = choose|q: int| 0 <= q < now.len() && now[q] == (ns1[i2].unit.id, ns1[i2].upper);
    let qn = choose|q: int| 0 <= q < now.len() && now[q] == (ns1[last].unit.id, ns1[last].upper);
    assert(es[i0].unit.id != es[i1].unit.id);
    assert(es[i0].unit.id != es[i2].unit.id);
    assert(es[i1].unit.id != es[i2].unit.id);
    assert(es[i0].unit.id < n.id && es[i1].unit.id < n.id && es[i2].unit.id < n.id);
    assert(now.len() >= 4) by {
        assert(q0 != q1 && q0 != q2 && q1 != q2);
        assert(qn != q0 && qn != q1 && qn != q2);
    }
    // what each window shows afterwards
    assert forall|a: int| #![trigger new.shown@[a]] 0 <= a < shown.len() implies exists|x: int|
        0 <= x < shown.len() && #[trigger] ord[x] == a && x < now.len() && new.shown@[a] == (shown[a].0, now[x].0) by {
        lemma_order_covers(shown, ord, a);
        let x = choose|x: int| 0 <= x < ord.len() && #[trigger] ord[x] == a;
        assert(new.shown@[ord[x] as int] == (shown[ord[x] as int].0, now[x].0));
    }
    assert forall|a: int| 0 <= a < new.shown@.len() implies (#[trigger] new.shown@[a]).0 == old.shown@[a].0 by {
        let x = choose|x: int|
            0 <= x < shown.len() && #[trigger] ord[x] == a && x < now.len() && new.shown@[a] == (shown[a].0, now[x].0);
    }
    assert forall|a: int| 0 <= a < new.shown@.len() implies is_shown_rank_id(
        new.entries(),
        (#[trigger] new.shown@[a]).1,
    ) by {
        let x = choose|x: int|
            0 <= x < shown.len() && #[trigger] ord[x] == a && x < now.len() && new.shown@[a] == (shown[a].0, now[x].0);
        assert(crate::ops::is_listed_pair(ns1, now[x], true));
        let i = choose|i: int|
            0 <= i < ns1.len() && crate::ops::is_listed(#[trigger] ns1[i], true) && ns1[i].unit.id == now[x].0
                && ns1[i].upper == now[x].1;
        assert(crate::ops::is_shown_rank(ns1[i]));
    }
    assert forall|a: int, b: int|
        #![trigger old.shown@[a], new.shown@[b]]
        0 <= a < shown.len() && 0 <= b < shown.len() && shown[a].1 > shown[b].1 implies new.shown@[a].1
            > new.shown@[b].1 by {
        let xa = choose|x: int|
            0 <= x < shown.len() && #[trigger] ord[x] == a && x < now.len() && new.shown@[a] == (shown[a].0, now[x].0);
        let xb = choose|x: int|
            0 <= x < shown.len() && #[trigger] ord[x] == b && x < now.len() && new.shown@[b] == (shown[b].0, now[x].0);
        if xa > xb {
            assert(crate::ops::precedes(shown, ord[xb] as int, ord[xa] as int));
        }
        assert(xa != xb);
        assert(now[xa].0 > now[xb].0);
    }
    assert forall|a: int, i: int|
        #![trigger new.shown@[a], new.entries()[i]]
        0 <= a < shown.len() && 0 <= i < ns1.len() && crate::ops::is_shown_rank(ns1[i]) && ns1[i].unit.id
            > new.shown@[a].1 implies has_window_showing(new.shown@, ns1[i].unit.id) by {
        let x = choose|x: int|
            0 <= x < shown.len() && #[trigger] ord[x] == a && x < now.len() && new.shown@[a] == (shown[a].0, now[x].0);
        assert(crate::ops::is_listed(ns1[i], true));
        assert(now.contains((ns1[i].unit.id, ns1[i].upper)));
        let q = choose|q: int| 0 <= q < now.len() && now[q] == (ns1[i].unit.id, ns1[i].upper);
        if q > x {
            assert(now[x].0 > now[q].0);
        }
        assert(q < x);
        let w = ord[q] as int;
        let y = choose|y: int|
            0 <= y < shown.len() && #[trigger] ord[y] == w && y < now.len() && new.shown@[w] == (shown[w].0, now[y].0);
        if y != q {
            crate::ops::lemma_order_distinct(shown, ord, q, y);
        }
        assert(new.shown@[w].1 == ns1[i].unit.id);
    }
}

/// The actions of a newly arrived notification: it is taken away after its
/// timeout exactly when it has one; outside quiet mode it gets a window at
/// the top unless every window is in use, and none is opened when every window is in
/// use; the hidden-notification window opens exactly when, outside quiet
/// mode, there come to be more notifications than windows and it is not
/// open; in quiet mode nothing but the timeout happens.
pub proof fn lemma_arrival_actions(old: Bar, new: Bar, r: Seq<Action>, n: NotificationView)
    requires
        old.wf(),
        arrival_post(old, new, r, n),
        !has_id(old.entries(), n.id),
    ensures
        r.contains(Action::RemoveAfter { id: n.id, seconds: n.timeout as u64 }) <==> n.timeout != -1,
        forall|k: int| 0 <= k < r.len() && (#[trigger] r[k]) is RemoveAfter ==> k == 0 && n.timeout != -1,
        !old.quiet && old.shown@.len() != crate::notify::MAX_SHOWN_NOTIFICATIONS_COUNT ==> r.contains(
            Action::OpenNotification { top: 10, id: n.id },
        ),
        forall|k: int|
            0 <= k < r.len() && (#[trigger] r[k]) is OpenNotification ==> !old.quiet && old.shown@.len()
                != crate::notify::MAX_SHOWN_NOTIFICATIONS_COUNT && r[k] == (Action::OpenNotification {
                top: 10,
                id: n.id,
            }),
        r.contains(Action::OpenHiddenInfo) <==> (!old.quiet && old.entries().len() + 1
            > crate::notify::MAX_SHOWN_NOTIFICATIONS_COUNT && old.hidden_id is None),
        old.quiet ==> forall|k: int| 0 <= k < r.len() ==> (#[trigger] r[k]) is RemoveAfter,
{
    let ns1 = crate::ops::bump_entries(old.entries()).push(fresh_entry(n));
    let t = crate::arrival::timeout_actions(n);
    if old.quiet {
        assert(r == t);
        if r.contains(Action::OpenHiddenInfo) {
            let k = choose|k: int| 0 <= k < r.len() && r[k] == Action::OpenHiddenInfo;
        }
        if n.timeout != -1 {
            assert(r[0] == Action::RemoveAfter { id: n.id, seconds: n.timeout as u64 });
        }
    } else {
        let (ord, now, layout) = choose|ord: Seq<usize>, now: Seq<(u32, i32)>, layout: Seq<Action>|
            crate::ops::orders_by_id_desc(old.shown@, ord) && crate::ops::lists_by_id_desc(now, ns1, true)
                && #[trigger] crate::arrival::arrival_layout(old, new, layout, n.id, ord, now) && r == t + layout
                + crate::bar::open_hidden_if_needed(ns1.len() as int, old.hidden_id);
        let hid = crate::bar::open_hidden_if_needed(ns1.len() as int, old.hidden_id);
        let full = old.shown@.len() == crate::notify::MAX_SHOWN_NOTIFICATIONS_COUNT;
        let mw = crate::arrival::move_windows(old.shown@, ord, now);
        assert(r == t + layout + hid);
        // no action but the timeout's takes the notification away, none but the
        // layout's opens its window, none but the last opens the hidden window
        assert forall|k: int| 0 <= k < r.len() implies {
            &&& (r[k] is RemoveAfter ==> k < t.len())
            &&& (r[k] is OpenNotification ==> k == t.len() && !full)
            &&& (r[k] is OpenHiddenInfo ==> k >= t.len() + layout.len())
        } by {
            if k < t.len() {
                assert(r[k] == t[k]);
            } else if k < t.len() + layout.len() {
                assert(r[k] == layout[k - t.len()]);
                if !full {
                    let l = seq![Action::OpenNotification { top: 10, id: n.id }];
                    assert(layout == l + mw);
                    if k > t.len() {
                        assert(layout[k - t.len()] == mw[k - t.len() - 1]);
                    }
                }
            } else {
                assert(r[k] == hid[k - t.len() - layout.len()]);
            }
        }
        assert forall|k: int| 0 <= k < r.len() && (#[trigger] r[k]) is RemoveAfter implies k == 0 && n.timeout
            != -1 by {
            assert(r[k] == t[k]);
        }
        assert forall|k: int| 0 <= k < r.len() && (#[trigger] r[k]) is OpenNotification implies !old.quiet
            && old.shown@.len() != crate::notify::MAX_SHOWN_NOTIFICATIONS_COUNT && r[k] == (Action::OpenNotification {
            top: 10,
            id: n.id,
        }) by {
            if k < t.len() {
                assert(r[k] == t[k]);
            } else if k < t.len() + layout.len() {
                assert(r[k] == layout[k - t.len()]);
                if !full {
                    let l = seq![Action::OpenNotification { top: 10, id: n.id }];
                    assert(layout == l + mw);
                    if k > t.len() {
                        assert(layout[k - t.len()] == mw[k - t.len() - 1]);
                    }
                }
            } else {
                assert(r[k] == hid[k - t.len() - layout.len()]);
            }
        }
        if n.timeout != -1 {
            assert(r[0] == Action::RemoveAfter { id: n.id, seconds: n.timeout as u64 });
        }
        if r.contains(Action::RemoveAfter { id: n.id, seconds: n.timeout as u64 }) {
            let k = choose|k: int| 0 <= k < r.len() && r[k] == Action::RemoveAfter { id: n.id, seconds: n.timeout as u64 };
            assert(r[k] == t[k]);
        }
        if !full {
            assert(r[t.len() as int] == layout[0]);
        }
        if r.contains(Action::OpenHiddenInfo) {
            let k = choose|k: int| 0 <= k < r.len() && r[k] == Action::OpenHiddenInfo;
            assert(r[k] == hid[k - t.len() - layout.len()]);
        }
        if ns1.len() > crate::notify::MAX_SHOWN_NOTIFICATIONS_COUNT && old.hidden_id is None {
            assert(r[(t.len() + layout.len()) as int] == Action::OpenHiddenInfo);
        }
    }
}

/// A notification arriving again under a known id replaces the content of
/// the old one in place: it keeps its rank, margin, mark and typed reply,
/// every other notification and every window stays, and nothing is done.
pub proof fn lemma_arrival_replaces_known(old: Bar, new: Bar, r: Seq<Action>, n: NotificationView, i: int)
    requires
        old.wf(),
        arrival_post(old, new, r, n),
        0 <= i < old.entries().len(),
        old.entries()[i].unit.id == n.id,
    ensures
        r.len() == 0,
        new.entries().len() == old.entries().len(),
        new.entries()[i].unit == n,
        new.entries()[i].counter == old.entries()[i].counter,
        new.entries()[i].upper == old.entries()[i].upper,
        new.entries()[i].to_delete == old.entries()[i].to_delete,
        new.entries()[i].inline_reply == old.entries()[i].inline_reply,
        forall|j: int| 0 <= j < old.entries().len() && j != i ==> #[trigger] new.entries()[j] == old.entries()[j],
        new.shown@ == old.shown@,
{
    crate::ops::lemma_index_of_id(old.entries(), i);
}

} // verus!
