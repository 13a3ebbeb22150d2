use vstd::prelude::*;

verus! {

/// The picture that comes with a notification.
#[derive(Debug, PartialEq, Eq)]
pub enum NotifyImage {
    Svg(String),
    Png(String),
    Jpg(String),
    Data { width: i32, height: i32, pixels: Vec<u8> },
}

/// What a [`NotifyImage`] holds, as mathematical values.
pub enum NotifyImageView {
    Svg(Seq<char>),
    Png(Seq<char>),
    Jpg(Seq<char>),
    Data { width: i32, height: i32, pixels: Seq<u8> },
}

impl View for NotifyImage {
    type V = NotifyImageView;

    open spec fn view(&self) -> NotifyImageView {
        match self {
            NotifyImage::Svg(p) => NotifyImageView::Svg(p@),
            NotifyImage::Png(p) => NotifyImageView::Png(p@),
            NotifyImage::Jpg(p) => NotifyImageView::Jpg(p@),
            NotifyImage::Data { width, height, pixels } => NotifyImageView::Data {
                width: *width,
                height: *height,
                pixels: pixels@,
            },
        }
    }
}

impl Clone for NotifyImage {
    fn clone(&self) -> (r: Self)
        ensures
            r@ == self@,
    {
        match self {
            NotifyImage::Svg(p) => NotifyImage::Svg(p.clone()),
            NotifyImage::Png(p) => NotifyImage::Png(p.clone()),
            NotifyImage::Jpg(p) => NotifyImage::Jpg(p.clone()),
            NotifyImage::Data { width, height, pixels } => {
                let copy = pixels.clone();
                assert(copy@ =~= pixels@);
                NotifyImage::Data { width: *width, height: *height, pixels: copy }
            },
        }
    }
}

/// A desktop notification as the bar keeps it.
#[derive(Debug, PartialEq, Eq)]
pub struct Notification {
    pub id: u32,
    pub summary: String,
    pub body: String,
    /// Seconds after which the notification goes away; `-1` for never.
    pub timeout: i32,
    pub critical: bool,
    pub inline_reply_support: bool,
    pub image: Option<NotifyImage>,
}

/// What a [`Notification`] holds, as mathematical values.
pub struct NotificationView {
    pub id: u32,
    pub summary: Seq<char>,
    pub body: Seq<char>,
    pub timeout: i32,
    pub critical: bool,
    pub inline_reply_support: bool,
    pub image: Option<NotifyImageView>,
}

impl View for Notification {
    type V = NotificationView;

    open spec fn view(&self) -> NotificationView {
        NotificationView {
            id: self.id,
            summary: self.summary@,
            body: self.body@,
            timeout: self.timeout,
            critical: self.critical,
            inline_reply_support: self.inline_reply_support,
            image: match self.image {
                Some(i) => Some(i@),
                None => None,
            },
        }
    }
}

impl Clone for Notification {
    fn clone(&self) -> (r: Self)
        ensures
            r@ == self@,
    {
        let image = match &self.image {
            Some(i) => Some(i.clone()),
            None => None,
        };
        Notification {
            id: self.id,
            summary: self.summary.clone(),
            body: self.body.clone(),
            timeout: self.timeout,
            critical: self.critical,
            inline_reply_support: self.inline_reply_support,
            image,
        }
    }
}

/// A notification together with its place on screen: `counter` is its rank
/// among the notifications (the newest has rank 0), `upper` the top margin
/// of its window, `to_delete` marks one that is being taken away, and
/// `inline_reply` is the reply typed so far.
#[derive(Debug, PartialEq, Eq)]
pub struct Entry {
    pub to_delete: bool,
    pub upper: i32,
    pub counter: usize,
    pub inline_reply: String,
    pub unit: Notification,
}

/// What an [`Entry`] holds, as mathematical values.
pub struct EntryView {
    pub to_delete: bool,
    pub upper: i32,
    pub counter: usize,
    pub inline_reply: Seq<char>,
    pub unit: NotificationView,
}

impl View for Entry {
    type V = EntryView;

    open spec fn view(&self) -> EntryView {
        EntryView {
            to_delete: self.to_delete,
            upper: self.upper,
            counter: self.counter,
            inline_reply: self.inline_reply@,
            unit: self.unit@,
        }
    }
}

impl Clone for Entry {
    fn clone(&self) -> (r: Self)
        ensures
            r@ == self@,
    {
        Entry {
            to_delete: self.to_delete,
            upper: self.upper,
            counter: self.counter,
            inline_reply: self.inline_reply.clone(),
            unit: self.unit.clone(),
        }
    }
}

/// The views of a sequence of entries.
pub open spec fn views(s: Seq<Entry>) -> Seq<EntryView> {
    s.map_values(|e: Entry| e@)
}

/// The look of a notification's button.
#[derive(Clone, Copy, Debug, PartialEq, Eq, Structural)]
pub enum ButtonStyle {
    Primary,
    Secondary,
}

/// A notification's button stands out when the notification is critical,
/// except that one with a PNG or JPEG picture always looks plain.
pub fn button_style(n: &Notification) -> (r: ButtonStyle)
    ensures
        r == match n.image {
            Some(NotifyImage::Png(_)) => ButtonStyle::Secondary,
            Some(NotifyImage::Jpg(_)) => ButtonStyle::Secondary,
            _ => if n.critical { ButtonStyle::Primary } else { ButtonStyle::Secondary },
        },
{
    match &n.image {
        Some(NotifyImage::Png(_)) => ButtonStyle::Secondary,
        Some(NotifyImage::Jpg(_)) => ButtonStyle::Secondary,
        _ => if n.critical {
            ButtonStyle::Primary
        } else {
            ButtonStyle::Secondary
        },
    }
}

/// How many notification windows the bar shows at most; later ones are
/// only counted in the hidden-notification window.
pub const MAX_SHOWN_NOTIFICATIONS_COUNT: usize = 4;

/// `a` holds the elements of `b` rearranged: `p` sends each position of `a`
/// to a distinct position of `b` holding the same element.
pub open spec fn rearranges_by<T>(a: Seq<T>, b: Seq<T>, p: Seq<int>) -> bool {
    &&& p.len() == a.len()
    &&& a.len() == b.len()
    &&& forall|i: int| 0 <= i < p.len() ==> 0 <= #[trigger] p[i] < b.len()
    &&& forall|i: int| 0 <= i < p.len() ==> a[i] == b[#[trigger] p[i]]
    &&& forall|i: int, j: int| 0 <= i < j < p.len() ==> #[trigger] p[i] != #[trigger] p[j]
}

/// Entries of equal rank keep the order of the positions that `p` gives them.
pub open spec fn stable_by(h: Seq<EntryView>, p: Seq<int>) -> bool {
    forall|a: int, b: int|
        0 <= a < b < h.len() && h[a].counter == h[b].counter ==> #[trigger] p[a] < #[trigger] p[b]
}

/// `h` is a rearrangement of `pool` in which entries of equal rank keep
/// their order in `pool`.
pub open spec fn rearranges_stably(h: Seq<EntryView>, pool: Seq<EntryView>) -> bool {
    exists|p: Seq<int>| rearranges_by(h, pool, p) && stable_by(h, p)
}

/// The counters never decrease along `s`.
pub open spec fn sorted_by_counter(s: Seq<EntryView>) -> bool {
    forall|i: int, j: int| 0 <= i < j < s.len() ==> #[trigger] s[i].counter <= #[trigger] s[j].counter
}

/// The entries listed in the hidden-notification window: those not being
/// taken away whose rank is beyond the shown windows, or all of them in
/// quiet mode.
pub open spec fn is_hidden(e: EntryView, quiet: bool) -> bool {
    (e.counter >= MAX_SHOWN_NOTIFICATIONS_COUNT || quiet) && !e.to_delete
}

/// [`is_hidden`] as a predicate to filter with.
pub open spec fn hidden_filter(quiet: bool) -> spec_fn(EntryView) -> bool {
    |e: EntryView| is_hidden(e, quiet)
}

/// Whether `hidden` is the content of the hidden-notification list for the
/// notifications `ns`: exactly the hidden ones, ordered by rank, those of
/// equal rank in their order in `ns`.
pub open spec fn hidden_list_of(hidden: Seq<EntryView>, ns: Seq<EntryView>, quiet: bool) -> bool {
    &&& sorted_by_counter(hidden)
    &&& rearranges_stably(hidden, ns.filter(hidden_filter(quiet)))
}

/// Copies of the notifications that belong in the hidden-notification list,
/// ordered by rank (ties keep their order in `ns`).
pub fn hidden_entries(ns: &Vec<Entry>, quiet: bool) -> (r: Vec<Entry>)
    ensures
        hidden_list_of(views(r@), views(ns@), quiet),
{
    let ghost pred = hidden_filter(quiet);
    let mut out: Vec<Entry> = Vec::new();
    let ghost mut p: Seq<int> = Seq::empty();
    let mut k: usize = 0;
    assert(views(ns@).take(0).filter(pred) =~= Seq::<EntryView>::empty()) by {
        reveal(Seq::filter);
    }
    while k < ns.len()
        invariant
            k <= ns.len(),
            pred == hidden_filter(quiet),
            sorted_by_counter(views(out@)),
            rearranges_by(views(out@), views(ns@).take(k as int).filter(pred), p),
            stable_by(views(out@), p),
        decreases ns.len() - k,
    {
        let ghost before = views(ns@).take(k as int);
        assert(views(ns@).take(k as int + 1) =~= before.push(ns@[k as int]@));
        proof {
            before.lemma_filter_push(ns@[k as int]@, pred);
        }
        let e = &ns[k];
        if (e.counter >= MAX_SHOWN_NOTIFICATIONS_COUNT || quiet) && !e.to_delete {
            let mut j: usize = 0;
            while j < out.len() && out[j].counter <= e.counter
                invariant
                    j <= out.len(),
                    forall|i: int| 0 <= i < j ==> out@[i].counter <= e.counter,
                decreases out.len() - j,
            {
                j = j + 1;
            }
            let ghost old_out = views(out@);
            let ghost filt = before.filter(pred);
            out.insert(j, e.clone());
            proof {
                assert(views(out@) =~= old_out.insert(j as int, e@));
                let nv = views(out@);
                assert forall|a: int, b: int| 0 <= a < b < nv.len() implies
                    #[trigger] nv[a].counter <= #[trigger] nv[b].counter by {
                    if b == j {
                        assert(nv[a] == old_out[a]);
                    } else if a == j {
                        assert(nv[b] == old_out[b - 1]);
                        assert(old_out[j as int].counter > e.counter);
                        assert(old_out[j as int].counter <= old_out[b - 1].counter);
                    } else {
                        let a0 = if a < j { a } else { a - 1 };
                        let b0 = if b < j { b } else { b - 1 };
                        assert(nv[a] == old_out[a0]);
                        assert(nv[b] == old_out[b0]);
                    }
                }
                let np = p.insert(j as int, filt.len() as int);
                assert(rearranges_by(views(out@), filt.push(e@), np));
                assert forall|a: int, b: int|
                    0 <= a < b < nv.len() && nv[a].counter == nv[b].counter implies
                    #[trigger] np[a] < #[trigger] np[b] by {
                    if b == j {
                        assert(np[a] == p[a]);
                    } else if a == j {
                        assert(nv[b] == old_out[b - 1]);
                        assert(old_out[j as int].counter > e.counter);
                        assert(old_out[j as int].counter <= old_out[b - 1].counter);
                    } else {
                        let a0 = if a < j { a } else { a - 1 };
                        let b0 = if b < j { b } else { b - 1 };
                        assert(nv[a] == old_out[a0] && np[a] == p[a0]);
                        assert(nv[b] == old_out[b0] && np[b] == p[b0]);
                    }
                }
                p = np;
            }
        }
        k = k + 1;
    }
    assert(views(ns@).take(ns@.len() as int) =~= views(ns@));
    out
}

} // verus!
