use gravity_sim::controls::{Command, Controls};
use gravity_sim::pipeline::{Frame, Integrator, Phase};

fn drain(mut f: Frame) -> Vec<Phase> {
    let mut out = Vec::new();
    while let Some(p) = f.next_phase() {
        out.push(p);
    }
    out
}

#[test]
fn one_tick_runs_phases_in_order() {
    let phases = drain(Frame::new(false, 1, Integrator::Euler));
    assert_eq!(
        phases,
        vec![Phase::Forces, Phase::Integrate(Integrator::Euler), Phase::Collide, Phase::Trails]
    );
}

#[test]
fn substeps_repeat_the_tick() {
    let phases = drain(Frame::new(false, 3, Integrator::Verlet));
    assert_eq!(phases.len(), 12);
    for t in 0..3 {
        assert_eq!(phases[4 * t], Phase::Forces);
        assert_eq!(phases[4 * t + 1], Phase::Integrate(Integrator::Verlet));
        assert_eq!(phases[4 * t + 2], Phase::Collide);
        assert_eq!(phases[4 * t + 3], Phase::Trails);
    }
}

#[test]
fn paused_frame_runs_nothing() {
    assert!(drain(Frame::new(true, 5, Integrator::Verlet)).is_empty());
    assert!(drain(Frame::new(false, 0, Integrator::Verlet)).is_empty());
}

#[test]
fn finished_frame_stays_finished() {
    let mut f = Frame::new(false, 1, Integrator::Euler);
    for _ in 0..4 {
        assert!(f.next_phase().is_some());
    }
    assert_eq!(f.next_phase(), None);
    assert_eq!(f.next_phase(), None);
}

#[test]
fn toggling_integrator_swaps_scheme() {
    assert_eq!(Integrator::Euler.toggled(), Integrator::Verlet);
    assert_eq!(Integrator::Verlet.toggled(), Integrator::Euler);
}

#[test]
fn controls_start_running_with_verlet() {
    let c = Controls::new();
    assert!(!c.paused);
    assert_eq!(c.sim_speed.0, 1);
    assert_eq!(c.prediction_speed.0, 1);
    assert_eq!(c.integrator, Integrator::Verlet);
}

#[test]
fn pause_toggles_and_empties_frame() {
    let mut c = Controls::new();
    c.apply(Command::TogglePause);
    assert!(c.paused);
    assert!(drain(c.frame()).is_empty());
    c.apply(Command::TogglePause);
    assert!(!c.paused);
    assert_eq!(drain(c.frame()).len(), 4);
}

#[test]
fn faster_sim_raises_prediction_too() {
    let mut c = Controls::new();
    c.apply(Command::FasterSim);
    c.apply(Command::FasterSim);
    assert_eq!(c.sim_speed.0, 3);
    assert_eq!(c.prediction_speed.0, 3);
    assert_eq!(drain(c.frame()).len(), 12);
}

#[test]
fn sim_speed_never_drops_below_one() {
    let mut c = Controls::new();
    c.apply(Command::SlowerSim);
    assert_eq!(c.sim_speed.0, 1);
}

#[test]
fn prediction_speed_commands() {
    let mut c = Controls::new();
    c.apply(Command::FasterPrediction);
    c.apply(Command::FasterPrediction);
    assert_eq!(c.prediction_speed.0, 3);
    c.apply(Command::SlowerPrediction);
    assert_eq!(c.prediction_speed.0, 2);
    c.apply(Command::Other);
    assert_eq!(c.prediction_speed.0, 2);
    assert_eq!(c.sim_speed.0, 1);
}

#[test]
fn integrator_command_changes_frame_scheme() {
    let mut c = Controls::new();
    c.apply(Command::ToggleIntegrator);
    assert_eq!(c.integrator, Integrator::Euler);
    assert_eq!(drain(c.frame())[1], Phase::Integrate(Integrator::Euler));
}
