use icarus_search::score::{negate, Score, ScoreScale};

const SCALE: ScoreScale = ScoreScale { infinite: 32000, max_mate: 31999, nomate: 31000 };

#[test]
fn scale_validity() {
    assert!(SCALE.is_valid());
    assert!(!ScoreScale { infinite: 31998, ..SCALE }.is_valid());
    assert!(!ScoreScale { nomate: -1, ..SCALE }.is_valid());
    assert!(!ScoreScale { nomate: 31743, ..SCALE }.is_valid());
    assert!(ScoreScale { nomate: 31742, ..SCALE }.is_valid());
    assert!(ScoreScale { infinite: i16::MAX, max_mate: i16::MAX, nomate: 0 }.is_valid());
}

#[test]
fn scale_bounds() {
    assert!(SCALE.has(Score(32000)));
    assert!(SCALE.has(Score(-32000)));
    assert!(!SCALE.has(Score(32001)));
    assert!(!SCALE.has(Score(-32001)));
}

#[test]
fn clamp_nomate_stays_clear_of_mates() {
    assert_eq!(SCALE.clamp_nomate(17), Score(17));
    assert_eq!(SCALE.clamp_nomate(31001), Score(31000));
    assert_eq!(SCALE.clamp_nomate(i16::MIN), Score(-31000));
}

#[test]
fn mates_are_losses() {
    assert_eq!(SCALE.new_mated(0), Score(-31999));
    assert_eq!(SCALE.new_mated(7), Score(-31992));
    assert!(SCALE.is_loss(SCALE.new_mated(256)));
    assert!(SCALE.is_loss(Score(-32000)));
    assert!(!SCALE.is_loss(Score(-31000)));
    assert!(SCALE.is_loss(Score(-31001)));
}

#[test]
fn saturating_add_stays_on_the_scale() {
    assert_eq!(SCALE.saturating_add(Score(100), -25), Score(75));
    assert_eq!(SCALE.saturating_add(Score(31990), 25), Score(32000));
    assert_eq!(SCALE.saturating_add(Score(-31990), -25), Score(-32000));
}

#[test]
fn negation_turns_a_score_around() {
    assert_eq!(negate(Score(5)), Score(-5));
    assert_eq!(negate(Score(-32000)), Score(32000));
}
