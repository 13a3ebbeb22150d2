use vstd::prelude::*;

use crate::notify::{Entry, EntryView, MAX_SHOWN_NOTIFICATIONS_COUNT, views};

verus! {

/// No two entries carry the same notification id.
pub open spec fn ids_unique(ns: Seq<EntryView>) -> bool {
    forall|i: int, j: int|
        0 <= i < j < ns.len() ==> #[trigger] ns[i].unit.id != #[trigger] ns[j].unit.id
}

/// Some entry carries the notification id `id`.
pub open spec fn has_id(ns: Seq<EntryView>, id: u32) -> bool {
    exists|i: int| 0 <= i < ns.len() && #[trigger] ns[i].unit.id == id
}

/// The position of the entry with id `id` (meaningful when [`has_id`]).
pub open spec fn index_of_id(ns: Seq<EntryView>, id: u32) -> int {
    choose|i: int| 0 <= i < ns.len() && #[trigger] ns[i].unit.id == id
}

/// The position of the entry with id `id` in `ns`, if there is one.
pub fn find_entry(ns: &Vec<Entry>, id: u32) -> (r: Option<usize>)
    ensures
        match r {
            Some(i) => i < ns@.len() && ns@[i as int].unit.id == id && has_id(views(ns@), id),
            None => !has_id(views(ns@), id),
        },
{
    let mut k: usize = 0;
    while k < ns.len()
        invariant
            k <= ns@.len(),
            forall|i: int| 0 <= i < k ==> ns@[i].unit.id != id,
        decreases ns@.len() - k,
    {
        if ns[k].unit.id == id {
            assert(views(ns@)[k as int].unit.id == id);
            return Some(k);
        }
        k = k + 1;
    }
    assert forall|i: int| 0 <= i < views(ns@).len() implies #[trigger] views(ns@)[i].unit.id
        != id by {
        assert(views(ns@)[i] == ns@[i]@);
    }
    None
}

/// An entry that is not being taken away.
pub open spec fn is_live(e: EntryView) -> bool {
    !e.to_delete
}

/// [`is_live`] as a predicate to filter with.
pub open spec fn live_filter() -> spec_fn(EntryView) -> bool {
    keep_filter(Keep::Live)
}

/// A live entry within the ranks that get a window of their own.
pub open spec fn is_shown_rank(e: EntryView) -> bool {
    !e.to_delete && e.counter < MAX_SHOWN_NOTIFICATIONS_COUNT
}

/// The entries a listing by id takes: the live ones, and with `only_shown`
/// only those within the shown ranks.
pub open spec fn is_listed(e: EntryView, only_shown: bool) -> bool {
    if only_shown { is_shown_rank(e) } else { is_live(e) }
}

/// `p` is the id and top margin of an entry of `ns` that [`is_listed`].
pub open spec fn is_listed_pair(ns: Seq<EntryView>, p: (u32, i32), only_shown: bool) -> bool {
    exists|i: int|
        0 <= i < ns.len() && is_listed(#[trigger] ns[i], only_shown) && ns[i].unit.id == p.0
            && ns[i].upper == p.1
}

/// `l` lists the id and top margin of every entry of `ns` that
/// [`is_listed`], by id from the highest down.
pub open spec fn lists_by_id_desc(l: Seq<(u32, i32)>, ns: Seq<EntryView>, only_shown: bool) -> bool {
    &&& forall|a: int, b: int| 0 <= a < b < l.len() ==> #[trigger] l[a].0 > #[trigger] l[b].0
    &&& forall|k: int| 0 <= k < l.len() ==> is_listed_pair(ns, #[trigger] l[k], only_shown)
    &&& forall|i: int|
        0 <= i < ns.len() && is_listed(#[trigger] ns[i], only_shown) ==> l.contains(
            (ns[i].unit.id, ns[i].upper),
        )
}

/// A listing whose every element is traced back to a listed entry by `src`,
/// and that contains every listed entry, sorted, is the listing by id.
proof fn lemma_lists_by_witness(l: Seq<(u32, i32)>, ns: Seq<EntryView>, only_shown: bool, src: Seq<int>)
    requires
        src.len() == l.len(),
        forall|a: int, b: int| 0 <= a < b < l.len() ==> #[trigger] l[a].0 > #[trigger] l[b].0,
        forall|q: int|
            #![trigger src[q]]
            0 <= q < l.len() ==> 0 <= src[q] < ns.len() && is_listed(ns[src[q]], only_shown)
                && ns[src[q]].unit.id == l[q].0 && ns[src[q]].upper == l[q].1,
        forall|i: int|
            0 <= i < ns.len() && is_listed(#[trigger] ns[i], only_shown) ==> l.contains(
                (ns[i].unit.id, ns[i].upper),
            ),
    ensures
        lists_by_id_desc(l, ns, only_shown),
{
    assert forall|k: int| 0 <= k < l.len() implies is_listed_pair(ns, #[trigger] l[k], only_shown) by {
        let i = src[k];
        assert(is_listed(ns[i], only_shown));
    }
}

/// The ids and top margins of the live entries (with `only_shown`, of the
/// live entries within the shown ranks), by id from the highest down.
pub fn list_by_id_desc(ns: &Vec<Entry>, only_shown: bool) -> (r: Vec<(u32, i32)>)
    requires
        ids_unique(views(ns@)),
    ensures
        lists_by_id_desc(r@, views(ns@), only_shown),
{
    let ghost vs = views(ns@);
    let mut out: Vec<(u32, i32)> = Vec::new();
    // src[q] is the position in `ns` of the entry listed at out[q]
    let ghost mut src: Seq<int> = Seq::empty();
    let mut k: usize = 0;
    while k < ns.len()
        invariant
            k <= ns@.len(),
            vs == views(ns@),
            ids_unique(vs),
            src.len() == out@.len(),
            forall|a: int, b: int| 0 <= a < b < out@.len() ==> #[trigger] out@[a].0 > #[trigger] out@[b].0,
            forall|q: int|
                #![trigger src[q]]
                0 <= q < out@.len() ==> 0 <= src[q] < k && is_listed(vs[src[q]], only_shown)
                    && vs[src[q]].unit.id == out@[q].0 && vs[src[q]].upper == out@[q].1,
            forall|i: int|
                0 <= i < k && is_listed(#[trigger] vs[i], only_shown) ==> out@.contains(
                    (vs[i].unit.id, vs[i].upper),
                ),
        decreases ns@.len() - k,
    {
        let e = &ns[k];
        assert(vs[k as int] == e@);
        let take = if only_shown {
            !e.to_delete && e.counter < MAX_SHOWN_NOTIFICATIONS_COUNT
        } else {
            !e.to_delete
        };
        if take {
            let id = e.unit.id;
            let mut j: usize = 0;
            while j < out.len() && out[j].0 > id
                invariant
                    j <= out@.len(),
                    forall|q: int| 0 <= q < j ==> out@[q].0 > id,
                decreases out@.len() - j,
            {
                j = j + 1;
            }
            let ghost old_out = out@;
            let ghost old_src = src;
            proof {
                // the new id differs from every listed one: those come from earlier entries
                assert forall|q: int| 0 <= q < old_out.len() implies #[trigger] old_out[q].0 != id by {
                    assert(old_src[q] < k);
                    assert(vs[old_src[q]].unit.id != vs[k as int].unit.id);
                }
            }
            out.insert(j, (id, e.upper));
            proof {
                src = old_src.insert(j as int, k as int);
                let no = out@;
                assert forall|a: int, b: int| 0 <= a < b < no.len() implies #[trigger] no[a].0
                    > #[trigger] no[b].0 by {
                    if b == j {
                        assert(no[a] == old_out[a]);
                    } else if a == j {
                        assert(no[b] == old_out[b - 1]);
                        assert(old_out[j as int].0 <= id);
                        assert(old_out[j as int].0 != id);
                        assert(old_out[j as int].0 >= old_out[b - 1].0);
                    } else {
                        let a0 = if a < j { a } else { a - 1 };
                        let b0 = if b < j { b } else { b - 1 };
                        assert(no[a] == old_out[a0]);
                        assert(no[b] == old_out[b0]);
                    }
                }
                assert forall|q: int| #![trigger src[q]] 0 <= q < no.len() implies 0 <= src[q] < k + 1
                    && is_listed(vs[src[q]], only_shown) && vs[src[q]].unit.id == no[q].0
                    && vs[src[q]].upper == no[q].1 by {
                    if q != j {
                        let q0 = if q < j { q } else { q - 1 };
                        assert(no[q] == old_out[q0]);
                        assert(src[q] == old_src[q0]);
                    }
                }
                assert forall|i: int|
                    0 <= i < k + 1 && is_listed(#[trigger] vs[i], only_shown) implies no.contains(
                    (vs[i].unit.id, vs[i].upper),
                ) by {
                    if i == k {
                        assert(no[j as int] == (id, e.upper));
                    } else {
                        assert(old_out.contains((vs[i].unit.id, vs[i].upper)));
                        let q = choose|q: int|
                            0 <= q < old_out.len() && old_out[q] == (vs[i].unit.id, vs[i].upper);
                        let q1 = if q < j { q } else { q + 1 };
                        assert(no[q1] == old_out[q]);
                    }
                }
            }
        } else {
            assert(!is_listed(vs[k as int], only_shown));
        }
        k = k + 1;
    }
    proof {
        lemma_lists_by_witness(out@, vs, only_shown, src);
    }
    out
}

/// Some pair of `s` has the key `k`.
pub open spec fn has_key<T>(s: Seq<(u64, T)>, k: u64) -> bool {
    exists|i: int| 0 <= i < s.len() && #[trigger] s[i].0 == k
}

/// The position of the pair with key `k` (meaningful when [`has_key`]).
pub open spec fn key_index<T>(s: Seq<(u64, T)>, k: u64) -> int {
    choose|i: int| 0 <= i < s.len() && #[trigger] s[i].0 == k
}

/// No two pairs of `s` share a key.
pub open spec fn keys_unique<T>(s: Seq<(u64, T)>) -> bool {
    forall|i: int, j: int| 0 <= i < j < s.len() ==> #[trigger] s[i].0 != #[trigger] s[j].0
}

/// In a sequence with unique keys, the pair at `i` is the one found for its key.
pub proof fn lemma_key_index<T>(s: Seq<(u64, T)>, i: int)
    requires
        keys_unique(s),
        0 <= i < s.len(),
    ensures
        has_key(s, s[i].0),
        key_index(s, s[i].0) == i,
{
    assert(s[i].0 == s[i].0);
    let j = key_index(s, s[i].0);
    if j != i {
        if j < i {
            assert(s[j].0 != s[i].0);
        } else {
            assert(s[i].0 != s[j].0);
        }
    }
}

/// The position of the pair with key `k`, if any.
pub fn find_key<T>(s: &Vec<(u64, T)>, k: u64) -> (r: Option<usize>)
    ensures
        match r {
            Some(i) => i < s@.len() && s@[i as int].0 == k,
            None => !has_key(s@, k),
        },
{
    let mut i: usize = 0;
    while i < s.len()
        invariant
            i <= s@.len(),
            forall|j: int| 0 <= j < i ==> s@[j].0 != k,
        decreases s@.len() - i,
    {
        if s[i].0 == k {
            return Some(i);
        }
        i = i + 1;
    }
    None
}

/// The windows showing notifications, as a sequence of (window, notification
/// id), put in the order in which they are handed out: by notification id
/// from the highest down, ties in their order in `shown`.
pub open spec fn precedes(shown: Seq<(u64, u32)>, i: int, j: int) -> bool {
    shown[i].1 > shown[j].1 || (shown[i].1 == shown[j].1 && i < j)
}

/// `ord` lists every position of `shown` once, in the order of [`precedes`].
pub open spec fn orders_by_id_desc(shown: Seq<(u64, u32)>, ord: Seq<usize>) -> bool {
    &&& ord.len() == shown.len()
    &&& forall|k: int| 0 <= k < ord.len() ==> #[trigger] ord[k] < shown.len()
    &&& forall|a: int, b: int|
        0 <= a < b < ord.len() ==> precedes(shown, #[trigger] ord[a] as int, #[trigger] ord[b] as int)
}

/// Two distinct steps of a handing-out order name distinct windows.
pub proof fn lemma_order_distinct(shown: Seq<(u64, u32)>, ord: Seq<usize>, a: int, b: int)
    requires
        orders_by_id_desc(shown, ord),
        0 <= a < ord.len(),
        0 <= b < ord.len(),
        a != b,
    ensures
        ord[a] != ord[b],
{
    if a < b {
        assert(precedes(shown, ord[a] as int, ord[b] as int));
    } else {
        assert(precedes(shown, ord[b] as int, ord[a] as int));
    }
}

/// The positions of `shown` by notification id from the highest down, ties
/// in position order.
pub fn order_by_id_desc(shown: &Vec<(u64, u32)>) -> (ord: Vec<usize>)
    ensures
        orders_by_id_desc(shown@, ord@),
{
    let mut ord: Vec<usize> = Vec::new();
    let mut i: usize = 0;
    while i < shown.len()
        invariant
            i <= shown@.len(),
            ord@.len() == i,
            forall|k: int| 0 <= k < ord@.len() ==> #[trigger] ord@[k] < i,
            forall|a: int, b: int|
                0 <= a < b < ord@.len() ==> precedes(shown@, #[trigger] ord@[a] as int, #[trigger] ord@[b] as int),
        decreases shown@.len() - i,
    {
        let nid = shown[i].1;
        let mut j: usize = 0;
        while j < ord.len() && shown[ord[j]].1 >= nid
            invariant
                j <= ord@.len(),
                ord@.len() == i,
                i < shown@.len(),
                nid == shown@[i as int].1,
                forall|k: int| 0 <= k < ord@.len() ==> #[trigger] ord@[k] < i,
                forall|q: int| 0 <= q < j ==> shown@[#[trigger] ord@[q] as int].1 >= nid,
            decreases ord@.len() - j,
        {
            j = j + 1;
        }
        let ghost old_ord = ord@;
        ord.insert(j, i);
        proof {
            let no = ord@;
            assert forall|a: int, b: int| 0 <= a < b < no.len() implies precedes(
                shown@,
                #[trigger] no[a] as int,
                #[trigger] no[b] as int,
            ) by {
                if b == j {
                    assert(no[a] == old_ord[a]);
                    assert(old_ord[a] < i);
                } else if a == j {
                    assert(no[b] == old_ord[b - 1]);
                    assert(shown@[old_ord[j as int] as int].1 < nid);
                    if b - 1 > j {
                        assert(precedes(shown@, old_ord[j as int] as int, old_ord[b - 1] as int));
                    }
                } else {
                    let a0 = if a < j { a } else { a - 1 };
                    let b0 = if b < j { b } else { b - 1 };
                    assert(no[a] == old_ord[a0]);
                    assert(no[b] == old_ord[b0]);
                }
            }
            assert forall|k: int| 0 <= k < no.len() implies #[trigger] no[k] < i + 1 by {
                if k != j {
                    let k0 = if k < j { k } else { k - 1 };
                    assert(no[k] == old_ord[k0]);
                }
            }
        }
        i = i + 1;
    }
    ord
}

/// Which entries a filtering keeps.
#[derive(Clone, Copy, Debug)]
pub enum Keep {
    /// Those not being taken away.
    Live,
    /// Those with another notification id.
    OtherThan(u32),
}

/// [`Keep`] as a predicate to filter with.
pub open spec fn keep_filter(keep: Keep) -> spec_fn(EntryView) -> bool {
    |e: EntryView|
        match keep {
            Keep::Live => !e.to_delete,
            Keep::OtherThan(id) => e.unit.id != id,
        }
}

/// The entries that `keep` keeps, in order.
pub fn filter_entries(ns: &Vec<Entry>, keep: Keep) -> (r: Vec<Entry>)
    ensures
        views(r@) == views(ns@).filter(keep_filter(keep)),
{
    let ghost pred = keep_filter(keep);
    let mut out: Vec<Entry> = Vec::new();
    let mut k: usize = 0;
    assert(views(ns@).take(0).filter(pred) =~= Seq::<EntryView>::empty()) by {
        reveal(Seq::filter);
    }
    while k < ns.len()
        invariant
            k <= ns@.len(),
            pred == keep_filter(keep),
            views(out@) == views(ns@).take(k as int).filter(pred),
        decreases ns@.len() - k,
    {
        let ghost before = views(ns@).take(k as int);
        assert(views(ns@).take(k as int + 1) =~= before.push(ns@[k as int]@));
        proof {
            before.lemma_filter_push(ns@[k as int]@, pred);
        }
        let e = &ns[k];
        let kept = match keep {
            Keep::Live => !e.to_delete,
            Keep::OtherThan(id) => e.unit.id != id,
        };
        if kept {
            let ghost old_out = views(out@);
            out.push(e.clone());
            assert(views(out@) =~= old_out.push(e@));
        }
        k = k + 1;
    }
    assert(views(ns@).take(ns@.len() as int) =~= views(ns@));
    out
}

/// How many entries are not being taken away.
pub fn count_live(ns: &Vec<Entry>) -> (r: usize)
    ensures
        r == views(ns@).filter(live_filter()).len(),
{
    let ghost pred = live_filter();
    let mut count: usize = 0;
    let mut k: usize = 0;
    assert(views(ns@).take(0).filter(pred) =~= Seq::<EntryView>::empty()) by {
        reveal(Seq::filter);
    }
    while k < ns.len()
        invariant
            k <= ns@.len(),
            pred == live_filter(),
            count == views(ns@).take(k as int).filter(pred).len(),
        decreases ns@.len() - k,
    {
        let ghost before = views(ns@).take(k as int);
        assert(views(ns@).take(k as int + 1) =~= before.push(ns@[k as int]@));
        proof {
            before.lemma_filter_push(ns@[k as int]@, pred);
            before.lemma_filter_len(pred);
        }
        if !ns[k].to_delete {
            count = count + 1;
        }
        k = k + 1;
    }
    assert(views(ns@).take(ns@.len() as int) =~= views(ns@));
    count
}

/// The top margin of every notification window: ten pixels, plus a window
/// height of 135 pixels for each newer notification.
pub open spec fn margin_of_rank(counter: int) -> int {
    10 + 135 * counter
}

/// Each entry's top margin matches its rank.
pub open spec fn margins_match(ns: Seq<EntryView>) -> bool {
    forall|i: int| 0 <= i < ns.len() ==> #[trigger] ns[i].upper == margin_of_rank(ns[i].counter as int)
}

/// The rank of the newest entry is the largest that can still grow by one
/// without its margin leaving the range of an `i32`.
pub open spec fn can_bump(ns: Seq<EntryView>) -> bool {
    forall|i: int| 0 <= i < ns.len() ==> #[trigger] ns[i].upper + 135 <= i32::MAX && ns[i].counter
        + 1 <= usize::MAX
}

/// Whether every entry can move one place down.
pub fn can_bump_all(ns: &Vec<Entry>) -> (r: bool)
    ensures
        r == can_bump(views(ns@)),
{
    let mut k: usize = 0;
    while k < ns.len()
        invariant
            k <= ns@.len(),
            forall|i: int| 0 <= i < k ==> #[trigger] views(ns@)[i].upper + 135 <= i32::MAX
                && views(ns@)[i].counter + 1 <= usize::MAX,
        decreases ns@.len() - k,
    {
        assert(views(ns@)[k as int] == ns@[k as int]@);
        if ns[k].upper > i32::MAX - 135 || ns[k].counter == usize::MAX {
            assert(!(views(ns@)[k as int].upper + 135 <= i32::MAX && views(ns@)[k as int].counter + 1
                <= usize::MAX));
            return false;
        }
        k = k + 1;
    }
    true
}

/// An entry moved one place down to make room for a newer notification.
pub open spec fn bumped(e: EntryView) -> EntryView {
    EntryView { upper: (e.upper + 135) as i32, counter: (e.counter + 1) as usize, ..e }
}

/// An entry after the notification `rid`, of rank `c`, is taken away: that
/// one is marked, the older ones move one place up.
pub open spec fn after_removal(e: EntryView, rid: u32, c: usize) -> EntryView {
    EntryView {
        to_delete: e.to_delete || e.unit.id == rid,
        counter: if e.counter > c { (e.counter - 1) as usize } else { e.counter },
        upper: if e.counter > c { (e.upper - 135) as i32 } else { e.upper },
        ..e
    }
}

/// Every entry moved one place down.
pub open spec fn bump_entries(ns: Seq<EntryView>) -> Seq<EntryView> {
    ns.map_values(|e: EntryView| bumped(e))
}

/// Every entry after the notification `rid`, of rank `c`, is taken away.
pub open spec fn mark_entries(ns: Seq<EntryView>, rid: u32, c: usize) -> Seq<EntryView> {
    ns.map_values(|e: EntryView| after_removal(e, rid, c))
}

/// Moves every entry one place down.
pub fn bump_all(ns: &mut Vec<Entry>)
    requires
        can_bump(views(old(ns)@)),
    ensures
        views(final(ns)@) == bump_entries(views(old(ns)@)),
{
    let ghost orig = views(ns@);
    let mut k: usize = 0;
    while k < ns.len()
        invariant
            k <= ns@.len(),
            ns@.len() == orig.len(),
            can_bump(orig),
            forall|i: int| 0 <= i < k ==> #[trigger] ns@[i]@ == bumped(orig[i]),
            forall|i: int| k <= i < ns@.len() ==> #[trigger] ns@[i]@ == orig[i],
        decreases ns@.len() - k,
    {
        assert(orig[k as int] == ns@[k as int]@);
        let upper = ns[k].upper;
        let counter = ns[k].counter;
        ns[k].upper = upper + 135;
        ns[k].counter = counter + 1;
        k = k + 1;
    }
    assert(views(ns@) =~= bump_entries(orig));
}

/// Marks the notification `rid`, of rank `c`, as being taken away and moves
/// the older ones one place up.
pub fn mark_removed(ns: &mut Vec<Entry>, rid: u32, c: usize)
    requires
        margins_match(views(old(ns)@)),
    ensures
        views(final(ns)@) == mark_entries(views(old(ns)@), rid, c),
{
    let ghost orig = views(ns@);
    let mut k: usize = 0;
    while k < ns.len()
        invariant
            k <= ns@.len(),
            ns@.len() == orig.len(),
            margins_match(orig),
            forall|i: int| 0 <= i < k ==> #[trigger] ns@[i]@ == after_removal(orig[i], rid, c),
            forall|i: int| k <= i < ns@.len() ==> #[trigger] ns@[i]@ == orig[i],
        decreases ns@.len() - k,
    {
        assert(orig[k as int] == ns@[k as int]@);
        assert(orig[k as int].upper == margin_of_rank(orig[k as int].counter as int));
        if ns[k].unit.id == rid {
            ns[k].to_delete = true;
        }
        let counter = ns[k].counter;
        if counter > c {
            let upper = ns[k].upper;
            ns[k].counter = counter - 1;
            ns[k].upper = upper - 135;
        }
        k = k + 1;
    }
    assert(views(ns@) =~= mark_entries(orig, rid, c));
}

/// In a sequence with unique ids, the entry at `i` is the one found for its id.
pub proof fn lemma_index_of_id(ns: Seq<EntryView>, i: int)
    requires
        ids_unique(ns),
        0 <= i < ns.len(),
    ensures
        has_id(ns, ns[i].unit.id),
        index_of_id(ns, ns[i].unit.id) == i,
{
    assert(ns[i].unit.id == ns[i].unit.id);
    let j = index_of_id(ns, ns[i].unit.id);
    if j != i {
        if j < i {
            assert(ns[j].unit.id != ns[i].unit.id);
        } else {
            assert(ns[i].unit.id != ns[j].unit.id);
        }
    }
}

/// `s` with the pair for key `k` set to `(k, v)`: replaced in place when
/// the key is there, appended otherwise.
pub open spec fn put_key<T>(s: Seq<(u64, T)>, k: u64, v: T) -> Seq<(u64, T)> {
    if has_key(s, k) {
        s.update(key_index(s, k), (k, v))
    } else {
        s.push((k, v))
    }
}

/// `s` without the pair for key `k`.
pub open spec fn remove_key<T>(s: Seq<(u64, T)>, k: u64) -> Seq<(u64, T)> {
    if has_key(s, k) {
        s.remove(key_index(s, k))
    } else {
        s
    }
}

/// Setting a key keeps the keys unique.
pub proof fn lemma_put_key_unique<T>(s: Seq<(u64, T)>, k: u64, v: T)
    requires
        keys_unique(s),
    ensures
        keys_unique(put_key(s, k, v)),
        has_key(put_key(s, k, v), k),
{
    if has_key(s, k) {
        let i = key_index(s, k);
        let t = put_key(s, k, v);
        assert forall|a: int, b: int| 0 <= a < b < t.len() implies #[trigger] t[a].0 != #[trigger] t[b].0 by {
            if a != i && b != i {
                assert(s[a].0 != s[b].0);
            } else if a == i {
                assert(s[a].0 != s[b].0);
            } else {
                assert(s[a].0 != s[b].0);
            }
        }
        assert(t[i].0 == k);
    } else {
        let t = put_key(s, k, v);
        assert forall|a: int, b: int| 0 <= a < b < t.len() implies #[trigger] t[a].0 != #[trigger] t[b].0 by {
            if b == s.len() {
                assert(t[a] == s[a]);
                if s[a].0 == k {
                    assert(has_key(s, k));
                }
            } else {
                assert(s[a].0 != s[b].0);
            }
        }
        assert(t[s.len() as int].0 == k);
    }
}

/// Removing a key keeps the keys unique and leaves the key absent.
pub proof fn lemma_remove_key_unique<T>(s: Seq<(u64, T)>, k: u64)
    requires
        keys_unique(s),
    ensures
        keys_unique(remove_key(s, k)),
        !has_key(remove_key(s, k), k),
{
    let t = remove_key(s, k);
    if has_key(s, k) {
        let i = key_index(s, k);
        assert forall|a: int, b: int| 0 <= a < b < t.len() implies #[trigger] t[a].0 != #[trigger] t[b].0 by {
            let a0 = if a < i { a } else { a + 1 };
            let b0 = if b < i { b } else { b + 1 };
            assert(t[a] == s[a0]);
            assert(t[b] == s[b0]);
            assert(s[a0].0 != s[b0].0);
        }
        if has_key(t, k) {
            let j = key_index(t, k);
            let j0 = if j < i { j } else { j + 1 };
            assert(t[j] == s[j0]);
            if j0 < i {
                assert(s[j0].0 != s[i].0);
            } else {
                assert(s[i].0 != s[j0].0);
            }
        }
    }
}

/// Sets the pair for key `k` to `(k, v)`.
pub fn put_key_in<T>(s: &mut Vec<(u64, T)>, k: u64, v: T)
    requires
        keys_unique(old(s)@),
    ensures
        final(s)@ == put_key(old(s)@, k, v),
{
    match find_key(s, k) {
        Some(i) => {
            proof {
                lemma_key_index(s@, i as int);
            }
            s[i] = (k, v);
        },
        None => {
            s.push((k, v));
        },
    }
}

/// Takes away the pair for key `k`, handing back its value.
pub fn remove_key_in<T>(s: &mut Vec<(u64, T)>, k: u64) -> (r: Option<T>)
    requires
        keys_unique(old(s)@),
    ensures
        final(s)@ == remove_key(old(s)@, k),
        match r {
            Some(v) => has_key(old(s)@, k) && v == old(s)@[key_index(old(s)@, k)].1,
            None => !has_key(old(s)@, k),
        },
{
    match find_key(s, k) {
        Some(i) => {
            proof {
                lemma_key_index(s@, i as int);
            }
            let (_, v) = s.remove(i);
            Some(v)
        },
        None => None,
    }
}

/// Filtering keeps notification ids unique and margins matching ranks.
pub proof fn lemma_filter_keeps(s: Seq<EntryView>, p: spec_fn(EntryView) -> bool)
    requires
        ids_unique(s),
        margins_match(s),
    ensures
        ids_unique(s.filter(p)),
        margins_match(s.filter(p)),
    decreases s.len(),
{
    reveal(Seq::filter);
    if s.len() > 0 {
        let rest = s.drop_last();
        assert(ids_unique(rest));
        assert(margins_match(rest));
        lemma_filter_keeps(rest, p);
        let f = rest.filter(p);
        if p(s.last()) {
            let t = f.push(s.last());
            assert forall|a: int, b: int| 0 <= a < b < t.len() implies #[trigger] t[a].unit.id
                != #[trigger] t[b].unit.id by {
                if b == f.len() {
                    assert(f.contains(t[a]));
                    rest.lemma_filter_contains_rev(p, t[a]);
                    let i = choose|i: int| 0 <= i < rest.len() && rest[i] == t[a];
                    assert(s[i] == rest[i]);
                    assert(s[i].unit.id != s[s.len() - 1].unit.id);
                } else {
                    assert(t[a] == f[a] && t[b] == f[b]);
                }
            }
            assert forall|i: int| 0 <= i < t.len() implies #[trigger] t[i].upper == margin_of_rank(
                t[i].counter as int,
            ) by {
                if i < f.len() {
                    assert(t[i] == f[i]);
                }
            }
        }
    }
}

/// Taking a notification away keeps ids unique and margins matching ranks.
pub proof fn lemma_after_removal_keeps(ns: Seq<EntryView>, rid: u32, c: usize)
    requires
        ids_unique(ns),
        margins_match(ns),
    ensures
        ids_unique(mark_entries(ns, rid, c)),
        margins_match(mark_entries(ns, rid, c)),
{
    let t = mark_entries(ns, rid, c);
    assert forall|a: int, b: int| 0 <= a < b < t.len() implies #[trigger] t[a].unit.id
        != #[trigger] t[b].unit.id by {
        assert(ns[a].unit.id != ns[b].unit.id);
    }
    assert forall|i: int| 0 <= i < t.len() implies #[trigger] t[i].upper == margin_of_rank(
        t[i].counter as int,
    ) by {
        assert(ns[i].upper == margin_of_rank(ns[i].counter as int));
    }
}

/// Moving every entry down keeps ids unique and margins matching ranks.
pub proof fn lemma_bumped_keeps(ns: Seq<EntryView>)
    requires
        ids_unique(ns),
        margins_match(ns),
        can_bump(ns),
    ensures
        ids_unique(bump_entries(ns)),
        margins_match(bump_entries(ns)),
{
    let t = bump_entries(ns);
    assert forall|a: int, b: int| 0 <= a < b < t.len() implies #[trigger] t[a].unit.id
        != #[trigger] t[b].unit.id by {
        assert(ns[a].unit.id != ns[b].unit.id);
    }
    assert forall|i: int| 0 <= i < t.len() implies #[trigger] t[i].upper == margin_of_rank(
        t[i].counter as int,
    ) by {
        assert(ns[i].upper == margin_of_rank(ns[i].counter as int));
    }
}

/// How many entries are not being taken away.
pub open spec fn live_count(ns: Seq<EntryView>) -> nat {
    ns.filter(live_filter()).len()
}

/// The live entries hold the ranks `0 .. live_count(ns)`, each once.
pub open spec fn dense_ranks(ns: Seq<EntryView>) -> bool {
    &&& forall|i: int| 0 <= i < ns.len() && is_live(#[trigger] ns[i]) ==> ns[i].counter < live_count(ns)
    &&& forall|i: int, j: int|
        0 <= i < j < ns.len() && is_live(#[trigger] ns[i]) && is_live(#[trigger] ns[j]) ==> ns[i].counter
            != ns[j].counter
}

/// Some live entry carries the notification id `id`.
pub open spec fn has_live_id(ns: Seq<EntryView>, id: u32) -> bool {
    exists|i: int| 0 <= i < ns.len() && is_live(#[trigger] ns[i]) && ns[i].unit.id == id
}

/// Marking `rid` as taken away leaves one live entry fewer when `rid` was
/// live, as many otherwise.
pub proof fn lemma_mark_live_count(s: Seq<EntryView>, rid: u32, c: usize)
    requires
        ids_unique(s),
    ensures
        live_count(mark_entries(s, rid, c)) + (if has_live_id(s, rid) { 1int } else { 0 }) == live_count(s),
    decreases s.len(),
{
    if s.len() == 0 {
        assert(mark_entries(s, rid, c) =~= s);
        assert(!has_live_id(s, rid));
    } else {
        let t = s.drop_last();
        let x = s.last();
        assert(ids_unique(t));
        lemma_mark_live_count(t, rid, c);
        assert(s =~= t.push(x));
        assert(mark_entries(s, rid, c) =~= mark_entries(t, rid, c).push(after_removal(x, rid, c)));
        t.lemma_filter_push(x, live_filter());
        mark_entries(t, rid, c).lemma_filter_push(after_removal(x, rid, c), live_filter());
        if x.unit.id == rid {
            if has_live_id(t, rid) {
                let i = choose|i: int| 0 <= i < t.len() && is_live(#[trigger] t[i]) && t[i].unit.id == rid;
                assert(s[i].unit.id != s[s.len() - 1].unit.id);
            }
            if is_live(x) {
                assert(is_live(s[s.len() - 1]));
                assert(has_live_id(s, rid));
            } else {
                if has_live_id(s, rid) {
                    let i = choose|i: int| 0 <= i < s.len() && is_live(#[trigger] s[i]) && s[i].unit.id == rid;
                    if i < s.len() - 1 {
                        assert(t[i] == s[i]);
                    }
                }
            }
        } else {
            if has_live_id(t, rid) {
                let i = choose|i: int| 0 <= i < t.len() && is_live(#[trigger] t[i]) && t[i].unit.id == rid;
                assert(s[i] == t[i]);
            }
            if has_live_id(s, rid) {
                let i = choose|i: int| 0 <= i < s.len() && is_live(#[trigger] s[i]) && s[i].unit.id == rid;
                assert(t[i] == s[i]);
            }
        }
    }
}

/// Filtering by `p` and then by `q` is filtering by `q` alone when every
/// element that `q` keeps `p` keeps too.
pub proof fn lemma_filter_absorbs(s: Seq<EntryView>, p: spec_fn(EntryView) -> bool, q: spec_fn(EntryView) -> bool)
    requires
        forall|i: int| 0 <= i < s.len() && q(#[trigger] s[i]) ==> p(s[i]),
    ensures
        s.filter(p).filter(q) == s.filter(q),
    decreases s.len(),
{
    reveal(Seq::filter);
    if s.len() > 0 {
        let t = s.drop_last();
        let x = s.last();
        assert forall|i: int| 0 <= i < t.len() && q(#[trigger] t[i]) implies p(t[i]) by {
            assert(t[i] == s[i]);
        }
        lemma_filter_absorbs(t, p, q);
        if p(x) {
            t.filter(p).lemma_filter_push(x, q);
        } else {
            assert(!q(s[s.len() - 1]));
        }
    } else {
        assert(s.filter(p).filter(q) =~= s.filter(q));
    }
}

} // verus!
