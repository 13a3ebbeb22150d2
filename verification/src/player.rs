use vstd::prelude::*;

verus! {

/// What the bar knows of a media player on the session bus.
#[derive(Debug, PartialEq, Eq)]
pub struct PlayerInfo {
    pub title: String,
    pub art_url: String,
    pub playback_status: String,
    pub can_play: bool,
    pub can_pause: bool,
    pub can_go_next: bool,
    pub can_go_previous: bool,
}

/// The status string of a player that is playing.
pub open spec fn playing_status() -> Seq<char> {
    seq!['P', 'l', 'a', 'y', 'i', 'n', 'g']
}

/// A player counts as alive when it reports a title.
pub open spec fn is_alive(p: PlayerInfo) -> bool {
    p.title@.len() > 0
}

/// A player that is alive and playing.
pub open spec fn is_alive_playing(p: PlayerInfo) -> bool {
    is_alive(p) && p.playback_status@ == playing_status()
}

/// Whether `p` reports that it is playing.
pub fn is_playing(p: &PlayerInfo) -> (r: bool)
    ensures
        r == (p.playback_status@ == playing_status()),
{
    let literal = "Playing";
    proof {
        reveal_strlit("Playing");
        assert(literal@ =~= playing_status());
    }
    let playing = literal.to_owned();
    p.playback_status == playing
}

/// The player the bar follows: the first alive player that is playing, or
/// else the first alive player; `None` when no player is alive.
pub fn pick_player(players: &Vec<PlayerInfo>) -> (r: Option<usize>)
    ensures
        match r {
            None => forall|i: int| 0 <= i < players@.len() ==> !is_alive(#[trigger] players@[i]),
            Some(i) => {
                &&& i < players@.len()
                &&& is_alive(players@[i as int])
                &&& if exists|j: int| 0 <= j < players@.len() && is_alive_playing(#[trigger] players@[j]) {
                    &&& is_alive_playing(players@[i as int])
                    &&& forall|j: int| 0 <= j < i ==> !is_alive_playing(#[trigger] players@[j])
                } else {
                    forall|j: int| 0 <= j < i ==> !is_alive(#[trigger] players@[j])
                }
            },
        },
{
    let mut first_alive: Option<usize> = None;
    let mut k: usize = 0;
    while k < players.len()
        invariant
            k <= players@.len(),
            forall|j: int| 0 <= j < k ==> !is_alive_playing(#[trigger] players@[j]),
            match first_alive {
                None => forall|j: int| 0 <= j < k ==> !is_alive(#[trigger] players@[j]),
                Some(a) => a < k && is_alive(players@[a as int]) && forall|j: int|
                    0 <= j < a ==> !is_alive(#[trigger] players@[j]),
            },
        decreases players@.len() - k,
    {
        let p = &players[k];
        if !p.title.as_str().is_empty() {
            if is_playing(p) {
                return Some(k);
            }
            if first_alive.is_none() {
                first_alive = Some(k);
            }
        }
        k = k + 1;
    }
    first_alive
}

/// The play/pause button of the bar.
#[derive(Clone, Copy, Debug, PartialEq, Eq, Structural)]
pub enum PlayButton {
    /// A pause button, for a playing player; it reacts only when `enabled`.
    Pause { enabled: bool },
    /// A play button, for a player that is not playing.
    Play { enabled: bool },
}

/// The play/pause button for the followed player: pause while it plays,
/// play otherwise, each enabled as far as the player allows.
pub fn play_button(p: &PlayerInfo) -> (r: PlayButton)
    ensures
        r == if p.playback_status@ == playing_status() {
            PlayButton::Pause { enabled: p.can_pause }
        } else {
            PlayButton::Play { enabled: p.can_play }
        },
{
    if is_playing(p) {
        PlayButton::Pause { enabled: p.can_pause }
    } else {
        PlayButton::Play { enabled: p.can_play }
    }
}

/// The player buttons of the bar: which react, and the play/pause button.
#[derive(Clone, Copy, Debug, PartialEq, Eq, Structural)]
pub struct Controls {
    pub previous: bool,
    pub next: bool,
    pub play: PlayButton,
}

/// The player buttons for the followed player: previous and next react as
/// far as the player allows, the play/pause button as [`play_button`] says.
pub fn player_controls(p: &PlayerInfo) -> (r: Controls)
    ensures
        r.previous == p.can_go_previous,
        r.next == p.can_go_next,
        r.play == if p.playback_status@ == playing_status() {
            PlayButton::Pause { enabled: p.can_pause }
        } else {
            PlayButton::Play { enabled: p.can_play }
        },
{
    Controls { previous: p.can_go_previous, next: p.can_go_next, play: play_button(p) }
}

} // verus!
