use udp_loss::generator::{Action, Generator};

#[test]
fn rate_scenario_three_batches() {
    let mut g = Generator::new(10);
    let mut sent: Vec<u64> = Vec::new();
    let mut pauses_after: Vec<usize> = Vec::new();
    while pauses_after.len() < 3 {
        match g.next_action() {
            Action::Send(s) => sent.push(s),
            Action::Pause => pauses_after.push(sent.len()),
        }
    }
    assert_eq!(sent.len(), 30);
    let expected: Vec<u64> = (0..3).flat_map(|_| 0..10u64).collect();
    assert_eq!(sent, expected);
    assert_eq!(pauses_after, vec![10, 20, 30]);
}

#[test]
fn rate_one_alternates_send_and_pause() {
    let mut g = Generator::new(1);
    let acts: Vec<Action> = (0..6).map(|_| g.next_action()).collect();
    assert_eq!(
        acts,
        vec![Action::Send(0), Action::Pause, Action::Send(0), Action::Pause, Action::Send(0), Action::Pause]
    );
}
