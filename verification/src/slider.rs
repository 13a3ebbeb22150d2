use vstd::prelude::*;

verus! {

/// Which volume slider the bar currently shows.
#[derive(Clone, Copy, Debug, PartialEq, Eq, Structural)]
pub enum SliderIndex {
    Balance,
    Left,
    Right,
}

/// The slider that follows `s` in the carousel Balance -> Left -> Right -> Balance.
pub open spec fn slider_after(s: SliderIndex) -> SliderIndex {
    match s {
        SliderIndex::Balance => SliderIndex::Left,
        SliderIndex::Left => SliderIndex::Right,
        SliderIndex::Right => SliderIndex::Balance,
    }
}

/// The slider that precedes `s` in the carousel.
pub open spec fn slider_before(s: SliderIndex) -> SliderIndex {
    match s {
        SliderIndex::Balance => SliderIndex::Right,
        SliderIndex::Left => SliderIndex::Balance,
        SliderIndex::Right => SliderIndex::Left,
    }
}

impl SliderIndex {
    /// The slider shown first: the balance slider.
    pub fn default_index() -> (r: SliderIndex)
        ensures
            r == SliderIndex::Balance,
    {
        SliderIndex::Balance
    }

    /// The next slider in the carousel.
    pub fn next(&self) -> (r: SliderIndex)
        ensures
            r == slider_after(*self),
    {
        match self {
            SliderIndex::Balance => SliderIndex::Left,
            SliderIndex::Left => SliderIndex::Right,
            SliderIndex::Right => SliderIndex::Balance,
        }
    }

    /// The previous slider in the carousel.
    pub fn pre(&self) -> (r: SliderIndex)
        ensures
            r == slider_before(*self),
    {
        match self {
            SliderIndex::Balance => SliderIndex::Right,
            SliderIndex::Left => SliderIndex::Balance,
            SliderIndex::Right => SliderIndex::Left,
        }
    }
}

/// Going forward then back (or back then forward) returns to the same slider.
pub proof fn lemma_next_pre_inverse(s: SliderIndex)
    ensures
        slider_before(slider_after(s)) == s,
        slider_after(slider_before(s)) == s,
{
}

/// The carousel has period three: three steps forward visit every slider
/// once and come back.
pub proof fn lemma_slider_cycle(s: SliderIndex)
    ensures
        slider_after(slider_after(slider_after(s))) == s,
        slider_after(s) != s,
        slider_after(slider_after(s)) != s,
{
}

} // verus!
