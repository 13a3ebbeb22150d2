use lala_bar::balance::{balance_percent, balance_split};
use lala_bar::SliderIndex;

#[test]
fn slider_next_walks_the_carousel() {
    assert_eq!(SliderIndex::Balance.next(), SliderIndex::Left);
    assert_eq!(SliderIndex::Left.next(), SliderIndex::Right);
    assert_eq!(SliderIndex::Right.next(), SliderIndex::Balance);
}

#[test]
fn slider_pre_walks_back() {
    assert_eq!(SliderIndex::Balance.pre(), SliderIndex::Right);
    assert_eq!(SliderIndex::Left.pre(), SliderIndex::Balance);
    assert_eq!(SliderIndex::Right.pre(), SliderIndex::Left);
}

#[test]
fn slider_next_then_pre_returns() {
    for s in [SliderIndex::Balance, SliderIndex::Left, SliderIndex::Right] {
        assert_eq!(s.next().pre(), s);
        assert_eq!(s.pre().next(), s);
        assert_eq!(s.next().next().next(), s);
    }
}

#[test]
fn slider_starts_on_balance() {
    assert_eq!(SliderIndex::default_index(), SliderIndex::Balance);
}

#[test]
fn balance_of_silence_is_zero() {
    assert_eq!(balance_percent(0, 0), 0);
}

#[test]
fn balance_is_right_share_in_percent() {
    assert_eq!(balance_percent(30, 70), 70);
    assert_eq!(balance_percent(50, 50), 50);
    assert_eq!(balance_percent(100, 0), 0);
    assert_eq!(balance_percent(0, 100), 100);
    // rounded toward zero
    assert_eq!(balance_percent(2, 1), 33);
}

#[test]
fn balance_with_negative_volume_rounds_toward_zero() {
    assert_eq!(balance_percent(-1, 3), 150);
}

#[test]
fn balance_split_moves_the_share() {
    assert_eq!(balance_split(40, 60, 25), (75, 25));
    assert_eq!(balance_split(50, 50, 50), (50, 50));
    assert_eq!(balance_split(33, 0, 50), (17, 16));
    assert_eq!(balance_split(-7, 0, 50), (-4, -3));
}

#[test]
fn balance_split_keeps_the_total() {
    for (l, r, b) in [(10i64, 90i64, 0u8), (37, 41, 63), (100, 100, 100), (1, 2, 99)] {
        let (nl, nr) = balance_split(l, r, b);
        assert_eq!(nl + nr, l + r);
        assert!(balance_percent(nl, nr) <= b);
    }
}
