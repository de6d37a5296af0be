use gravity_sim::resources::{CurrentPredictions, MaxPredictions, PredictionSpeed, SimSpeed};

#[test]
fn defaults_are_zero() {
    assert_eq!(PredictionSpeed::default(), PredictionSpeed(0));
    assert_eq!(SimSpeed::default(), SimSpeed(0));
    assert_eq!(MaxPredictions::default(), MaxPredictions(0));
    assert_eq!(CurrentPredictions::default(), CurrentPredictions(0));
}

#[test]
fn sim_speed_steps() {
    assert_eq!(SimSpeed(4).slower(), SimSpeed(3));
    assert_eq!(SimSpeed(1).slower(), SimSpeed(1));
    assert_eq!(SimSpeed(0).slower(), SimSpeed(0));
    assert_eq!(SimSpeed(4).faster(), SimSpeed(5));
    assert_eq!(SimSpeed(u32::MAX).faster(), SimSpeed(u32::MAX));
}

#[test]
fn prediction_speed_steps() {
    assert_eq!(PredictionSpeed(2).slower(), PredictionSpeed(1));
    assert_eq!(PredictionSpeed(1).slower(), PredictionSpeed(1));
    assert_eq!(PredictionSpeed(7).faster(), PredictionSpeed(8));
    assert_eq!(PredictionSpeed(u32::MAX).faster(), PredictionSpeed(u32::MAX));
}

#[test]
fn prediction_follows_sim_speed() {
    assert_eq!(PredictionSpeed(2).at_least(SimSpeed(5)), PredictionSpeed(5));
    assert_eq!(PredictionSpeed(6).at_least(SimSpeed(5)), PredictionSpeed(6));
}

#[test]
fn extra_preview_ticks() {
    assert_eq!(PredictionSpeed(5).extra_ticks(SimSpeed(2)), 3);
    assert_eq!(PredictionSpeed(2).extra_ticks(SimSpeed(2)), 0);
    assert_eq!(PredictionSpeed(1).extra_ticks(SimSpeed(4)), 0);
}
