use e131_divider::input::{handle_input, receive};
use e131_divider::output::{e131_packet, run_frame};
use e131_divider::table::SourceTable;
use e131_divider::website::SiteState;
use e131_divider::{Settings, SourceAddr, SourceId, SourcePosition, State, Violation};

fn addr(ip: u32) -> SourceAddr {
    SourceAddr::V4 { ip, port: 0 }
}

/// 2 slots for 12 channels in groups of 3; silent after 2 frames, done after 10.
fn settings() -> Settings {
    Settings {
        output_channels: 12,
        group_size: 3,
        timeout: 2,
        output_time: 10,
        outputter_capacity: 2,
    }
}

/// Packets from several sources, with 1 on the first channel.
fn hear(state: &mut State, ips: &[u32]) {
    for &ip in ips {
        receive(state, addr(ip), "desk", 1, &[1]);
    }
}

fn frame(state: &mut State) {
    run_frame(state);
    assert_eq!(state.validate(), Ok(()));
}

fn ip(addr: SourceAddr) -> u32 {
    match addr {
        SourceAddr::V4 { ip, .. } => ip,
        SourceAddr::V6 { .. } => panic!("not an IPv4 address"),
    }
}

fn queued(state: &State) -> Vec<u32> {
    state.queue.iter().map(|source| ip(source.common.addr)).collect()
}

fn outputting(state: &State) -> Vec<u32> {
    state.outputters.iter().map(|source| ip(source.common.addr)).collect()
}

fn starts(state: &State) -> Vec<usize> {
    state.outputters.iter().map(|source| source.start_frame).collect()
}

#[test]
fn new_state_is_empty() {
    let state = State::new(&settings());
    assert!(queued(&state).is_empty());
    assert!(outputting(&state).is_empty());
    assert_eq!(state.sources.len(), 0);
    assert_eq!((state.frame, state.input_channel_count), (0, 12));
    assert_eq!((state.timeout, state.output_time, state.outputter_capacity), (2, 10, 2));
    assert_eq!(state.validate(), Ok(()));
}

#[test]
fn unknown_source_joins_the_end_of_the_queue() {
    let mut state = State::new(&settings());
    hear(&mut state, &[7, 5, 7, 6]);
    assert_eq!(queued(&state), [7, 5, 6]);
    let id = SourceId::new(addr(6), "desk".to_string());
    assert_eq!(state.sources.get(&id), Some(SourcePosition::Queue(2)));
    let id = SourceId::new(addr(6), "other desk".to_string());
    assert_eq!(state.sources.get(&id), None);
    assert_eq!(state.validate(), Ok(()));
}

#[test]
fn port_does_not_tell_sources_apart_but_the_name_does() {
    let mut state = State::new(&settings());
    let bytes = e131_packet(&[3; 512], 1, 0).to_vec();
    handle_input(&mut state, SourceAddr::V4 { ip: 1, port: 1000 }, bytes.clone());
    handle_input(&mut state, SourceAddr::V4 { ip: 1, port: 2000 }, bytes.clone());
    assert_eq!(state.queue.len(), 1);
    assert_eq!(state.queue[0].common.addr, addr(1));
    assert_eq!(state.queue[0].common.name.trim_end_matches('\0'), "E1.31 Divider");
    receive(&mut state, addr(1), "desk", 1, &[3]);
    assert_eq!(queued(&state), [1, 1]);
    let v6 = SourceAddr::V6 { ip: 1, port: 9, flowinfo: 2, scope_id: 3 };
    handle_input(&mut state, v6, bytes);
    let stored = SourceAddr::V6 { ip: 1, port: 0, flowinfo: 2, scope_id: 3 };
    assert_eq!(state.queue[2].common.addr, stored);
}

#[test]
fn invalid_and_dark_packets_are_discarded() {
    let mut state = State::new(&settings());
    handle_input(&mut state, addr(1), vec![1, 2, 3]);
    handle_input(&mut state, addr(1), e131_packet(&[0; 512], 1, 0).to_vec());
    let mut oversized = e131_packet(&[3; 512], 1, 0).to_vec();
    oversized.push(3);
    for at in [17, 39, 116, 124] {
        // The four lengths count one value more
        oversized[at] += 1;
    }
    handle_input(&mut state, addr(1), oversized);
    assert!(queued(&state).is_empty());
    assert_eq!(state.sources.len(), 0);
}

#[test]
fn values_are_written_from_the_first_channel_of_their_universe() {
    let mut state = State::new(&Settings { output_channels: 1020, ..settings() });
    hear(&mut state, &[1]);
    frame(&mut state);
    assert_eq!(state.outputters[0].data, vec![0; 1020]);
    receive(&mut state, addr(1), "desk", 1, &[1, 2, 3]);
    receive(&mut state, addr(1), "desk", 2, &[4, 5]);
    assert_eq!(state.outputters[0].data[..4], [1, 2, 3, 0]);
    assert_eq!(state.outputters[0].data[509..513], [0, 4, 5, 0]);
    // Universe 0 counts as the first
    receive(&mut state, addr(1), "desk", 0, &[9]);
    assert_eq!(state.outputters[0].data[..4], [9, 2, 3, 0]);
    // What does not fit is cut off
    receive(&mut state, addr(1), "desk", 2, &[8; 512]);
    assert_eq!(state.outputters[0].data.len(), 1020);
    assert_eq!(state.outputters[0].data[1019], 8);
    let before = state.outputters[0].data.clone();
    receive(&mut state, addr(1), "desk", 3, &[7; 512]);
    receive(&mut state, addr(1), "desk", 0xffff, &[7; 512]);
    assert_eq!(state.outputters[0].data, before);
}

#[test]
fn packets_set_the_frame_of_the_last_packet() {
    let mut state = State::new(&Settings { outputter_capacity: 1, ..settings() });
    hear(&mut state, &[1, 2]);
    frame(&mut state);
    frame(&mut state);
    assert_eq!(state.outputters[0].common.last_packet, 0);
    hear(&mut state, &[1, 2]);
    assert_eq!(state.outputters[0].common.last_packet, 2);
    assert_eq!(state.queue[0].common.last_packet, 2);
    assert_eq!((outputting(&state), queued(&state)), (vec![1], vec![2]));
}

#[test]
fn repeated_packet_changes_nothing() {
    let mut state = State::new(&settings());
    hear(&mut state, &[1, 2, 3]);
    frame(&mut state);
    for ip in [1, 3, 9] {
        receive(&mut state, addr(ip), "desk", 1, &[4, 5]);
        let once = state.clone();
        receive(&mut state, addr(ip), "desk", 1, &[4, 5]);
        assert_eq!(queued(&state), queued(&once));
        assert_eq!(state.outputters[0].data, once.outputters[0].data);
        assert_eq!(state.sources.len(), once.sources.len());
    }
}

#[test]
fn channels_are_shared_in_whole_groups() {
    let mut state =
        State::new(&Settings { output_channels: 20, outputter_capacity: 3, ..settings() });
    hear(&mut state, &[1]);
    frame(&mut state);
    assert_eq!(state.input_channel_count, 18);
    receive(&mut state, addr(1), "desk", 1, &[1; 18]);
    hear(&mut state, &[2, 3]);
    frame(&mut state);
    // 20 / 3 is 6, two groups of 3
    assert_eq!(state.input_channel_count, 6);
    assert_eq!(state.outputters[0].data, vec![1; 6]);
    assert_eq!(state.outputters[2].data, vec![0; 6]);
    assert_eq!(outputting(&state), [1, 2, 3]);
}

#[test]
fn all_channels_are_kept_when_nobody_outputs() {
    let mut state = State::new(&settings());
    hear(&mut state, &[1, 2]);
    frame(&mut state);
    assert_eq!(state.input_channel_count, 6);
    for _ in 0..3 {
        frame(&mut state);
    }
    assert!(outputting(&state).is_empty());
    assert_eq!(state.input_channel_count, 12);
    assert_eq!(state.sources.len(), 0);
}

#[test]
fn frame_sends_what_was_there_before_it() {
    let mut state = State::new(&settings());
    hear(&mut state, &[1, 2]);
    assert_eq!(run_frame(&mut state)[0][126..], [0; 512]);
    receive(&mut state, addr(1), "desk", 1, &[1, 2, 3, 4, 5, 6, 7]);
    receive(&mut state, addr(2), "desk", 1, &[11, 12]);
    let packets = run_frame(&mut state);
    assert_eq!(packets.len(), 1);
    assert_eq!(packets[0][111], 1);
    assert_eq!(packets[0][126..140], [1, 2, 3, 4, 5, 6, 11, 12, 0, 0, 0, 0, 0, 0]);
}

#[test]
fn output_is_cut_into_universes() {
    let mut state = State::new(&Settings { output_channels: 1022, group_size: 1, ..settings() });
    hear(&mut state, &[1]);
    frame(&mut state);
    receive(&mut state, addr(1), "desk", 1, &[1; 510]);
    receive(&mut state, addr(1), "desk", 2, &[2; 510]);
    receive(&mut state, addr(1), "desk", 3, &[3; 510]);
    let packets = run_frame(&mut state);
    assert_eq!(packets.len(), 3);
    assert_eq!(packets[0][113..115], [0, 1]);
    assert_eq!(packets[2][113..115], [0, 3]);
    assert_eq!(packets[0][126..636], [1; 510]);
    assert_eq!(packets[0][636..], [0, 0]);
    assert_eq!(packets[1][126..636], [2; 510]);
    assert_eq!(packets[2][126..129], [3, 3, 0]);
}

#[test]
fn no_channels_make_no_packets() {
    let mut state = State::new(&Settings { output_channels: 0, ..settings() });
    assert!(run_frame(&mut state).is_empty());
    let mut state = State::new(&Settings { output_channels: 510, ..settings() });
    assert_eq!(run_frame(&mut state).len(), 1);
    let mut state = State::new(&Settings { output_channels: 511, ..settings() });
    assert_eq!(run_frame(&mut state).len(), 2);
}

#[test]
fn packets_are_numbered_by_the_frame() {
    let mut state = State::new(&settings());
    for number in 0..300usize {
        let packets = run_frame(&mut state);
        assert_eq!(packets[0][111] as usize, number % 256);
    }
}

#[test]
fn silent_sources_leave_the_queue_and_the_others_close_up() {
    let mut state = State::new(&Settings { outputter_capacity: 0, ..settings() });
    hear(&mut state, &[1, 2, 3, 4]);
    frame(&mut state);
    frame(&mut state);
    hear(&mut state, &[2, 4]);
    frame(&mut state);
    // The frame counter was 2 when it ran: packets of frame 0 still counted
    assert_eq!(queued(&state), [1, 2, 3, 4]);
    frame(&mut state);
    assert_eq!(queued(&state), [2, 4]);
    // The lookup table has followed
    hear(&mut state, &[4]);
    assert_eq!(state.queue[1].common.last_packet, 4);
    assert_eq!(state.queue[0].common.last_packet, 2);
}

#[test]
fn queued_source_takes_the_slot_of_a_silent_outputter() {
    let mut state = State::new(&Settings { outputter_capacity: 3, ..settings() });
    hear(&mut state, &[1, 2, 3]);
    frame(&mut state);
    for _ in 0..2 {
        hear(&mut state, &[1, 3, 8, 9]);
        frame(&mut state);
    }
    hear(&mut state, &[1, 3, 8, 9]);
    frame(&mut state);
    assert_eq!((outputting(&state), queued(&state)), (vec![1, 8, 3], vec![9]));
    assert_eq!(starts(&state), [0, 3, 0]);
    assert_eq!(state.outputters[1].data, vec![0; 3]);
    assert_eq!(state.outputters[0].data, vec![1, 0, 0]);
}

#[test]
fn silent_outputters_leave_though_nobody_waits() {
    let mut state = State::new(&Settings { outputter_capacity: 4, ..settings() });
    hear(&mut state, &[1, 2, 3, 4]);
    frame(&mut state);
    for _ in 0..3 {
        hear(&mut state, &[2, 4]);
        frame(&mut state);
    }
    assert_eq!(outputting(&state), [2, 4]);
    assert_eq!(state.input_channel_count, 6);
    hear(&mut state, &[4]);
    assert_eq!(state.outputters[1].common.last_packet, 4);
}

#[test]
fn more_silent_outputters_than_queued_sources() {
    let mut state = State::new(&Settings { outputter_capacity: 3, ..settings() });
    hear(&mut state, &[1, 2, 3]);
    frame(&mut state);
    frame(&mut state);
    hear(&mut state, &[3]);
    frame(&mut state);
    hear(&mut state, &[3, 9]);
    frame(&mut state);
    // 9 takes the first of the two slots, the other one goes
    assert_eq!(outputting(&state), [9, 3]);
    assert_eq!(state.input_channel_count, 6);
}

#[test]
fn outputters_stay_while_nobody_waits() {
    let mut state = State::new(&settings());
    for _ in 0..50 {
        hear(&mut state, &[1, 2]);
        frame(&mut state);
    }
    assert_eq!(outputting(&state), [1, 2]);
    assert_eq!(starts(&state), [0, 0]);
}

#[test]
fn done_outputter_changes_places_with_the_first_in_the_queue() {
    let mut state = State::new(&Settings { outputter_capacity: 1, ..settings() });
    for _ in 0..10 {
        hear(&mut state, &[1, 2, 3]);
        frame(&mut state);
        assert_eq!(outputting(&state), [1]);
    }
    hear(&mut state, &[1, 2, 3]);
    frame(&mut state);
    assert_eq!((outputting(&state), queued(&state)), (vec![2], vec![3, 1]));
    assert_eq!(starts(&state), [10]);
    hear(&mut state, &[1]);
    assert_eq!(state.queue[1].common.last_packet, 11);
    for _ in 0..10 {
        hear(&mut state, &[1, 2, 3]);
        frame(&mut state);
    }
    assert_eq!((outputting(&state), queued(&state)), (vec![3], vec![1, 2]));
}

#[test]
fn outputter_that_started_first_is_replaced_first() {
    let mut state = State::new(&settings());
    hear(&mut state, &[1, 2]);
    frame(&mut state);
    state.outputters[0].start_frame = 1;
    state.frame = 11;
    hear(&mut state, &[1, 2, 3]);
    frame(&mut state);
    // 2 started at 0, 1 at 1
    assert_eq!((outputting(&state), queued(&state)), (vec![1, 3], vec![2]));
    // 1 is just at the limit and keeps its start
    assert_eq!(starts(&state), [1, 11]);
}

#[test]
fn of_two_that_started_together_the_lower_slot_is_replaced() {
    let mut state = State::new(&settings());
    for _ in 0..10 {
        hear(&mut state, &[1, 2]);
        frame(&mut state);
    }
    hear(&mut state, &[1, 2, 3]);
    frame(&mut state);
    assert_eq!((outputting(&state), queued(&state)), (vec![3, 2], vec![1]));
    assert_eq!(starts(&state), [10, 0]);
}

#[test]
fn overdue_outputter_that_stays_gets_half_of_the_time_again() {
    let mut state = State::new(&settings());
    for _ in 0..20 {
        hear(&mut state, &[1, 2]);
        frame(&mut state);
    }
    hear(&mut state, &[1, 2, 3]);
    frame(&mut state);
    assert_eq!((outputting(&state), queued(&state)), (vec![3, 2], vec![1]));
    assert_eq!(starts(&state), [20, 15]);
    // It is replaced once that half has passed
    for _ in 0..4 {
        hear(&mut state, &[1, 2, 3]);
        frame(&mut state);
        assert_eq!(outputting(&state), [3, 2]);
    }
    hear(&mut state, &[1, 2, 3]);
    frame(&mut state);
    assert_eq!((outputting(&state), queued(&state)), (vec![3, 1], vec![2]));
}

#[test]
fn nobody_waits_for_a_free_slot() {
    let mut state = State::new(&Settings { outputter_capacity: 3, ..settings() });
    for heard in 1..6u32 {
        let ips: Vec<u32> = (1..=heard).collect();
        hear(&mut state, &ips);
        frame(&mut state);
        assert_eq!(state.queue.len() + state.outputters.len(), heard as usize);
        assert!(state.queue.is_empty() || state.outputters.len() == 3);
    }
}

#[test]
fn each_violated_invariant_is_reported() {
    let mut good = State::new(&settings());
    hear(&mut good, &[1, 2, 3]);
    frame(&mut good);
    assert_eq!(good.validate(), Ok(()));

    let mut state = good.clone();
    state.outputter_capacity = 1;
    assert_eq!(state.validate(), Err(Violation::Outputters));

    let mut state = good.clone();
    state.input_channel_count = 7;
    assert_eq!(state.validate(), Err(Violation::Channels));
    state.input_channel_count = usize::MAX;
    assert_eq!(state.validate(), Err(Violation::Channels));

    let mut state = good.clone();
    state.queue.pop_front();
    assert_eq!(state.validate(), Err(Violation::SourceCount));

    let mut state = good.clone();
    state.outputters.swap(0, 1);
    assert_eq!(state.validate(), Err(Violation::SourcePositions));

    let mut state = good.clone();
    let outputter = state.outputters.pop().unwrap();
    state.queue.push_back(e131_divider::QueuedSource::from(outputter));
    assert_eq!(state.validate(), Err(Violation::SourcePositions));
}

#[test]
fn table_finds_what_was_added() {
    let mut table = SourceTable::new();
    table.add(SourceId::new(addr(1), "a".to_string()), SourcePosition::Queue(4));
    table.add(SourceId::new(addr(1), "b".to_string()), SourcePosition::Outputting(5));
    assert_eq!(table.len(), 2);
    let copy = table.clone();
    let id = SourceId::new(addr(1), "b".to_string());
    assert_eq!(copy.get(&id), Some(SourcePosition::Outputting(5)));
    assert_eq!(copy.get(&SourceId::new(addr(2), "b".to_string())), None);
    assert_eq!(copy.entry(0).1, SourcePosition::Queue(4));
}

#[test]
fn site_is_empty_before_the_first_frame() {
    let site = SiteState::new();
    assert!(site.queued.is_empty() && site.outputting.is_empty());
    assert_eq!(site.frame, 0);
}

#[test]
fn site_shows_times_since_packets_and_starts() {
    let mut state = State::new(&Settings { outputter_capacity: 1, ..settings() });
    hear(&mut state, &[1, 2]);
    frame(&mut state);
    hear(&mut state, &[1, 2]);
    frame(&mut state);
    frame(&mut state);
    hear(&mut state, &[2]);
    let site = SiteState::update(&mut state);
    assert_eq!(site.frame, 3);
    assert_eq!(site.queued.len(), 1);
    assert_eq!((ip(site.queued[0].addr), site.queued[0].since_last), (2, 0));
    assert_eq!(site.queued[0].name, "desk");
    assert_eq!(site.outputting.len(), 1);
    let shown = &site.outputting[0];
    assert_eq!((ip(shown.addr), shown.since_last, shown.output_time), (1, 2, 3));
    assert_eq!(shown.data, vec![1, 0, 0, 0, 0, 0, 0, 0, 0, 0, 0, 0]);
}

#[test]
fn channels_that_are_left_over_are_dark() {
    let mut state = State::new(&Settings { output_channels: 20, ..settings() });
    hear(&mut state, &[1]);
    frame(&mut state);
    receive(&mut state, addr(1), "desk", 1, &[9; 512]);
    let packets = run_frame(&mut state);
    assert_eq!(packets[0][126..144], [9; 18]);
    assert_eq!(packets[0][144..], [0; 494]);
}

#[test]
fn packet_leaves_other_sources_alone() {
    let mut state = State::new(&settings());
    hear(&mut state, &[1, 2, 3, 4]);
    frame(&mut state);
    receive(&mut state, addr(2), "desk", 1, &[5, 6]);
    assert_eq!(state.outputters[0].data, vec![0; 6]);
    assert_eq!(state.outputters[0].common.last_packet, 0);
    assert_eq!(state.outputters[1].data, vec![5, 6, 0, 0, 0, 0]);
    receive(&mut state, addr(4), "desk", 1, &[5, 6]);
    assert_eq!(state.queue[0].common.last_packet, 0);
    assert_eq!(state.queue[1].common.last_packet, 1);
    assert_eq!((outputting(&state), queued(&state)), (vec![1, 2], vec![3, 4]));
}

#[test]
fn frame_keeps_the_configuration() {
    let mut state = State::new(&settings());
    hear(&mut state, &[1, 2, 3]);
    frame(&mut state);
    assert_eq!(state.frame, 1);
    assert_eq!((state.timeout, state.output_time), (2, 10));
    assert_eq!((state.output_channel_count, state.channel_group_size), (12, 3));
    assert_eq!(state.outputter_capacity, 2);
}
