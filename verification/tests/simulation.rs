//! End-to-end scenario: three clients in one group, two simulation cycles.

use groupsim::codec::{bytes_to_data, data_to_bytes, time_to_bytes, bytes_to_time};
use groupsim::controller::SessionController;
use groupsim::group_state::{init_frames, GroupState};
use groupsim::grouping::{group_bounds, starting_id, unplaced_clients};

/// A scripted peer: it records every frame the worker hands it.
struct MockClient {
    id: i32,
    received_init: Vec<(i32, (i16, i16, i16))>,
    received_broadcasts: Vec<(i32, (i16, i16, i16))>,
}

#[test]
fn three_clients_two_cycles() {
    let group_size: usize = 3;
    let client_number: usize = 3;
    let cycles: usize = 2;

    // The controller dispatches exactly one full group, nobody unplaced.
    let bounds = group_bounds(client_number, group_size);
    assert_eq!(bounds, vec![(0, 3)]);
    assert_eq!(unplaced_clients(client_number, group_size), 0);

    // Group 1 assigns ids 0, 1, 2.
    let start_id = starting_id(1, group_size as i32);
    assert_eq!(start_id, 0);
    let mut clients: Vec<MockClient> = (0..3)
        .map(|j| MockClient {
            id: start_id + j,
            received_init: Vec::new(),
            received_broadcasts: Vec::new(),
        })
        .collect();

    // Init phase: each client receives one init frame with its id.
    let init = init_frames(start_id, group_size as u16, cycles as i16);
    for (client, frame) in clients.iter_mut().zip(init.iter()) {
        client.received_init.push(bytes_to_data(frame));
    }
    for client in &clients {
        assert_eq!(
            client.received_init,
            vec![(client.id, (2, 0, 3))]
        );
    }

    // Cycling phase: every client sends (id, 1, 2, 3) each cycle and the
    // worker answers every client with the full broadcast.
    let mut state = GroupState::new_zeroed(start_id, group_size);
    for _ in 0..cycles {
        let incoming: Vec<[u8; 10]> = clients
            .iter()
            .map(|c| data_to_bytes(&(c.id, (1, 2, 3))))
            .collect();
        let broadcast = state.run_cycle(&incoming);
        for client in clients.iter_mut() {
            for frame in &broadcast {
                client.received_broadcasts.push(bytes_to_data(frame));
            }
        }
    }

    // Each client received 3 broadcast frames per cycle, 6 in total: its
    // own position and both peers', twice.
    for client in &clients {
        assert_eq!(client.received_broadcasts.len(), group_size * cycles);
        for k in 0..cycles {
            let round = &client.received_broadcasts[k * group_size..(k + 1) * group_size];
            assert_eq!(
                round,
                &[(0, (1, 2, 3)), (1, (1, 2, 3)), (2, (1, 2, 3))]
            );
        }
    }

    // Barrier: one signal per client, then the latch releases; latency
    // reports of 42 from every client average to 42.
    let mut controller = SessionController::new(client_number as u64);
    for _ in 0..client_number {
        assert!(!controller.barrier_released());
        controller.on_finished_signal();
    }
    controller.release_barrier();
    assert!(controller.barrier_released());
    for _ in &clients {
        let report = time_to_bytes(42);
        controller.on_report(bytes_to_time(&report));
    }
    assert_eq!(controller.report_count(), 3);
    assert_eq!(controller.summary(), 42);
}

#[test]
fn broadcast_count_scales_with_group_size() {
    // A group of four run for three cycles: each client receives exactly
    // four frames per cycle, twelve in total.
    let mut state = GroupState::new_zeroed(0, 4);
    let mut per_client_count: usize = 0;
    for _ in 0..3 {
        let incoming: Vec<[u8; 10]> = (0..4)
            .map(|id| data_to_bytes(&(id, (1, 1, 1))))
            .collect();
        let broadcast = state.run_cycle(&incoming);
        assert_eq!(broadcast.len(), 4);
        per_client_count += broadcast.len();
    }
    assert_eq!(per_client_count, 12);
}
