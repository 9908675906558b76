use groupsim::codec::{bytes_to_data, data_to_bytes};
use groupsim::group_state::GroupState;

fn decoded_broadcast(state: &GroupState) -> Vec<(i32, (i16, i16, i16))> {
    state
        .broadcast_frames()
        .iter()
        .map(bytes_to_data)
        .collect()
}

#[test]
fn zeroed_state_has_one_entry_per_client() {
    let state = GroupState::new_zeroed(30, 3);
    assert_eq!(state.len(), 3);
    assert_eq!(
        decoded_broadcast(&state),
        vec![
            (30, (0, 0, 0)),
            (31, (0, 0, 0)),
            (32, (0, 0, 0)),
        ]
    );
}

#[test]
fn stale_entry_is_overwritten_not_duplicated() {
    let mut state = GroupState::new_zeroed(0, 3);
    state.receive_frame(&data_to_bytes(&(1, (9, 9, 9))));
    assert_eq!(state.len(), 3);
    state.receive_frame(&data_to_bytes(&(1, (7, 8, 9))));
    assert_eq!(state.len(), 3);
    assert_eq!(
        decoded_broadcast(&state),
        vec![
            (0, (0, 0, 0)),
            (1, (7, 8, 9)),
            (2, (0, 0, 0)),
        ]
    );
}

#[test]
fn latest_frame_per_id_wins_across_cycles() {
    let mut state = GroupState::new_zeroed(0, 2);
    let cycle1 = vec![
        data_to_bytes(&(0, (1, 1, 1))),
        data_to_bytes(&(1, (2, 2, 2))),
    ];
    let cycle2 = vec![
        data_to_bytes(&(0, (3, 3, 3))),
        data_to_bytes(&(1, (4, 4, 4))),
    ];
    state.run_cycle(&cycle1);
    state.run_cycle(&cycle2);
    assert_eq!(
        decoded_broadcast(&state),
        vec![(0, (3, 3, 3)), (1, (4, 4, 4))]
    );
}

#[test]
fn unknown_id_is_appended() {
    let mut state = GroupState::new_zeroed(0, 2);
    state.receive_frame(&data_to_bytes(&(7, (5, 5, 5))));
    assert_eq!(state.len(), 3);
    assert_eq!(
        decoded_broadcast(&state),
        vec![
            (0, (0, 0, 0)),
            (1, (0, 0, 0)),
            (7, (5, 5, 5)),
        ]
    );
}

#[test]
fn init_frames_carry_identity_and_parameters() {
    let frames = groupsim::group_state::init_frames(30, 3, 5);
    assert_eq!(frames.len(), 3);
    for (j, frame) in frames.iter().enumerate() {
        assert_eq!(bytes_to_data(frame), (30 + j as i32, (5, 0, 3)));
    }
}
