use embedded_dsp::kalman_compose::{
    ConstantVelocity, ControlModel, Direct, Dynamics, Estimate, Kalman, Observation, Optional,
    Predict, Transition, Update, VectorObservation,
};
use embedded_dsp::types::{q15, Status};

fn q(v: i16) -> q15 {
    q15(v)
}

fn qs<const N: usize>(v: [i16; N]) -> [q15; N] {
    v.map(q15)
}

fn qm<const N: usize>(v: [[i16; N]; N]) -> [[q15; N]; N] {
    v.map(qs)
}

#[test]
fn random_walk_tracks_toward_the_measurement() {
    let mut filter = Kalman::random_walk(q(328), q(16384), Estimate::new([q(0)], [[q(16384)]]));
    let estimate_out = filter.step((), q(16384)).unwrap();
    assert_eq!(estimate_out, q(8353));
    assert_eq!(filter.estimate.state, [q(8354)]);
    assert_eq!(filter.estimate.covariance, [[q(8189)]]);
    assert!(estimate_out.0 > 0 && estimate_out.0 < 16384);

    let estimate_out = filter.step((), q(16384)).unwrap();
    assert_eq!(estimate_out, q(11098));
    assert_eq!(filter.estimate.state, [q(11099)]);
    assert_eq!(filter.estimate.covariance, [[q(5603)]]);
}

#[test]
fn constant_velocity_tracker_steps() {
    let mut filter = Kalman::constant_velocity(
        q(3277),
        qm([[16, 0], [0, 16]]),
        q(8192),
        Estimate::new(qs([0, 0]), qm([[16384, 0], [0, 16384]])),
    );
    assert_eq!(filter.step((), q(1000)), Ok(q(668)));
    assert_eq!(filter.estimate.state, qs([669, 66]));
    assert_eq!(filter.estimate.covariance, qm([[5481, 541], [542, 16288]]));
    assert_eq!(filter.step((), q(2000)), Ok(q(1221)));
    assert_eq!(filter.estimate.state, qs([1222, 271]));
    assert_eq!(filter.estimate.covariance, qm([[3383, 1271], [1272, 15964]]));
}

#[test]
fn composed_tracker_matches_the_convenience_constructor() {
    let model = Transition::new(ConstantVelocity::new(q(3277)), qm([[16, 0], [0, 16]]));
    let mut composed = Kalman::new(
        model,
        Observation::new(qs([i16::MAX, 0]), q(8192)),
        Estimate::new(qs([0, 0]), qm([[16384, 0], [0, 16384]])),
    );
    let mut built = Kalman::constant_velocity(
        q(3277),
        qm([[16, 0], [0, 16]]),
        q(8192),
        Estimate::new(qs([0, 0]), qm([[16384, 0], [0, 16384]])),
    );
    for z in [1000, 2000, 3000] {
        assert_eq!(composed.step((), q(z)), built.step((), q(z)));
    }
    assert_eq!(composed.estimate, built.estimate);
}

#[test]
fn constant_velocity_advances_position_by_velocity() {
    let model = ConstantVelocity::new(q(3277));
    assert_eq!(model.advance(&qs([1000, 16384]), ()), qs([2638, 16384]));
    assert_eq!(model.jacobian(&qs([1000, 16384]), ()), qm([[i16::MAX, 3277], [0, i16::MAX]]));
}

#[test]
fn matrix_dynamics_is_its_own_jacobian() {
    let f = qm([[16384, 0], [8192, 16384]]);
    assert_eq!(f.jacobian(&qs([100, 200]), ()), f);
    // [16384*100 >> 15, (8192*100 + 16384*200) >> 15] = [50, 25 + 100]
    assert_eq!(f.advance(&qs([100, 200]), ()), qs([50, 125]));
}

#[test]
fn control_model_adds_the_control_term() {
    let model = ControlModel::new(qm([[16384, 0], [0, 16384]]), [qs([8192]), qs([0])]);
    // F x = [50, 100]; B u = [8192 * 400 >> 15, 0] = [100, 0]
    assert_eq!(model.advance(&qs([100, 200]), qs([400])), qs([150, 100]));
    assert_eq!(model.jacobian(&qs([100, 200]), qs([400])), model.matrix);
}

#[test]
fn identity_transition_adds_only_process_noise() {
    let transition = Transition::identity(qm([[10, 0], [0, 20]]));
    assert_eq!(transition.dynamics, qm([[i16::MAX, 0], [0, i16::MAX]]));
    let mut estimate = Estimate::new(qs([0, 0]), qm([[0, 0], [0, 0]]));
    transition.predict(&mut estimate, ());
    assert_eq!(estimate.covariance, qm([[10, 0], [0, 20]]));
    assert_eq!(estimate.state, qs([0, 0]));
}

#[test]
fn from_covariance_starts_at_zero() {
    let e = Estimate::from_covariance(qm([[5, 1], [1, 7]]));
    assert_eq!(e.state, qs([0, 0]));
    assert_eq!(e.covariance, qm([[5, 1], [1, 7]]));
}

#[test]
fn direct_observation_updates_one_component() {
    let phase: Direct<q15, 2, 1> = Direct::new(q(4000));
    let mut estimate = Estimate::new(qs([1000, -2000]), qm([[8000, 1000], [1000, 6000]]));
    assert_eq!(phase.project(&estimate), q(-2000));
    assert_eq!(phase.update(&mut estimate, q(0)), Ok(q(-801)));
    assert_eq!(estimate.state, qs([1199, -801]));
    assert_eq!(estimate.covariance, qm([[7901, 401], [401, 2401]]));

    let phase: Direct<q15, 2, 0> = Direct::new(q(4000));
    let mut estimate = Estimate::new(qs([1000, -2000]), qm([[8000, 1000], [1000, 6000]]));
    assert_eq!(phase.update(&mut estimate, q(3000)), Ok(q(2333)));
    assert_eq!(estimate.state, qs([2333, -1834]));
    assert_eq!(estimate.covariance, qm([[2667, 334], [334, 5917]]));
}

#[test]
fn singular_update_leaves_the_estimate_alone() {
    let phase = Observation::new(qs([0, 0]), q(0));
    let before = Estimate::new(qs([10, 20]), qm([[100, 0], [0, 100]]));
    let mut estimate = before;
    assert_eq!(phase.update(&mut estimate, q(500)), Err(Status::Singular));
    assert_eq!(estimate, before);

    let direct: Direct<q15, 2, 0> = Direct::new(q(0));
    let before = Estimate::new(qs([10, 20]), qm([[0, 0], [0, 100]]));
    let mut estimate = before;
    assert_eq!(direct.update(&mut estimate, q(500)), Err(Status::Singular));
    assert_eq!(estimate, before);
}

#[test]
fn failed_step_still_applies_the_prediction() {
    let mut filter = Kalman::new(
        Transition::new(qm([[i16::MAX]]), qm([[100]])),
        Observation::new(qs([0]), q(0)),
        Estimate::new(qs([50]), qm([[200]])),
    );
    let mut predicted = filter;
    predicted.advance(());
    assert_eq!(filter.step((), q(1)), Err(Status::Singular));
    assert_eq!(filter.estimate, predicted.estimate);
    assert_eq!(filter.estimate.covariance, qm([[298]]));
    assert_eq!(filter.estimate.state, qs([49]));
}

#[test]
fn optional_measurement_only_predicts_when_absent() {
    let mut filter =
        Kalman::random_walk(q(328), q(16384), Estimate::new([q(0)], [[q(16384)]])).optional();
    assert_eq!(filter.step((), None), Ok(None));
    assert_eq!(filter.estimate.state, [q(0)]);
    assert_eq!(filter.estimate.covariance, [[q(16710)]]);
    assert_eq!(filter.step((), Some(q(16384))), Ok(Some(q(8516))));
    assert_eq!(filter.estimate.state, [q(8517)]);
    assert_eq!(filter.project(), Some(q(8516)));
}

#[test]
fn optional_phase_passes_a_present_measurement_through() {
    let phase = Optional(Observation::new([q(i16::MAX)], q(16384)));
    let mut estimate = Estimate::new([q(0)], [[q(16710)]]);
    assert_eq!(phase.update(&mut estimate, Some(q(16384))), Ok(Some(q(8353))));
    assert_eq!(estimate.state, [q(8354)]);
    assert_eq!(phase.project(&estimate), Some(q(8353)));
}

#[test]
fn project_is_the_measurement_row_times_the_state() {
    let filter = Kalman::new(
        Transition::identity(qm([[0, 0], [0, 0]])),
        Observation::new(qs([16384, 16384]), q(0)),
        Estimate::new(qs([1000, 3000]), qm([[0, 0], [0, 0]])),
    );
    assert_eq!(filter.project(), q(2000));
}

#[test]
fn vector_observation_inverts_the_innovation_covariance() {
    // S = diag(1/4, 1/4) inverts to diag(4, 4), which saturates at one, so K = P = 1/4.
    let phase = VectorObservation::new(qm([[i16::MAX, 0], [0, i16::MAX]]), qm([[0, 0], [0, 0]]));
    let mut estimate = Estimate::new(qs([0, 0]), qm([[8192, 0], [0, 8192]]));
    assert_eq!(phase.update(&mut estimate, qs([1000, 1000])), Ok(qs([248, 248])));
    assert_eq!(estimate.state, qs([249, 249]));
    assert_eq!(estimate.covariance, qm([[6145, 0], [0, 6145]]));
}

#[test]
fn vector_observation_updates_both_components() {
    let phase = VectorObservation::new(qm([[i16::MAX, 0], [0, i16::MAX]]), qm([[8192, 0], [0, 8192]]));
    let mut estimate = Estimate::new(qs([0, 0]), qm([[16384, 0], [0, 16384]]));
    assert_eq!(phase.project(&estimate), qs([0, 0]));
    assert_eq!(phase.update(&mut estimate, qs([8000, -4000])), Ok(qs([3998, -2000])));
    assert_eq!(estimate.state, qs([3999, -2000]));
    assert_eq!(estimate.covariance, qm([[8194, 0], [0, 8194]]));
}

#[test]
fn vector_observation_with_singular_innovation_fails() {
    let phase = VectorObservation::new(qm([[0, 0], [0, 0]]), qm([[0, 0], [0, 0]]));
    let before = Estimate::new(qs([1, 2]), qm([[3, 0], [0, 4]]));
    let mut estimate = before;
    assert_eq!(phase.update(&mut estimate, qs([5, 6])), Err(Status::Singular));
    assert_eq!(estimate, before);
}

#[test]
fn vector_observation_in_a_filter() {
    let mut filter = Kalman::new(
        Transition::identity(qm([[0, 0], [0, 0]])),
        VectorObservation::new(qm([[i16::MAX, 0], [0, i16::MAX]]), qm([[8192, 0], [0, 8192]])),
        Estimate::new(qs([0, 0]), qm([[16384, 0], [0, 16384]])),
    );
    assert_eq!(filter.step((), qs([8000, -4000])), Ok(qs([3998, -2000])));
    assert_eq!(filter.estimate.state, qs([3999, -2000]));
    assert_eq!(filter.project(), qs([3998, -2000]));
}
