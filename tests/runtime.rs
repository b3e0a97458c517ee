use beam::{
    plan_balance, ActorControlBlock, Envelope, Exit, Migration, Mode, Parameters, Pid, RestartPolicy, Strategy,
    SupervisorActor, System, Timer, TimerAction,
};

#[derive(Debug, PartialEq)]
enum Msg {
    Ping,
    Pong,
    Text(&'static str),
    Num(i32),
}

fn system(workers: usize) -> System<Msg> {
    let mut sys = System::new();
    for _ in 0..workers {
        sys.add_worker();
    }
    sys
}

fn worker_of(sys: &System<Msg>, pid: Pid) -> u64 {
    sys.registry.lookup_pid(pid).expect("live").control_block.worker_id
}

#[test]
fn schedule_twice_queues_once() {
    let mut sys = system(2);
    let a = sys.spawn(Pid::invalid());
    assert_eq!(sys.scheduler.queue_len(0), 1);
    sys.schedule(a);
    sys.schedule(a);
    assert_eq!(sys.scheduler.queue_len(0), 1);
    assert_eq!(sys.scheduler.queue_len(1), 0);
    assert_eq!(sys.worker_step(0), Some(a));
    assert_eq!(sys.scheduler.queue_len(0), 0);
    // Scheduled while running: queued only when the turn ends.
    sys.schedule(a);
    assert_eq!(sys.scheduler.queue_len(0), 0);
    sys.end_run(a);
    assert_eq!(sys.scheduler.queue_len(0), 1);
}

#[test]
fn send_to_self_then_receive() {
    let mut sys = system(1);
    let a = sys.spawn(Pid::invalid());
    assert_eq!(sys.worker_step(0), Some(a));
    sys.send(a, Msg::Num(9));
    sys.end_run(a);
    assert_eq!(sys.worker_step(0), Some(a));
    assert_eq!(sys.poll_signal(a), None);
    match sys.receive(a, |e: &Envelope<Msg>| matches!(e, Envelope::Message(Msg::Num(_)))) {
        Some(Envelope::Message(m)) => assert_eq!(m, Msg::Num(9)),
        _ => panic!("expected the message sent"),
    }
}

#[test]
fn ping_pong_hundred_round_trips() {
    let mut sys = system(1);
    let a = sys.spawn(Pid::invalid());
    let b = sys.spawn(Pid::invalid());
    sys.send(b, Msg::Ping);
    let mut pongs = 0;
    let mut turns = 0;
    while pongs < 100 {
        turns += 1;
        assert!(turns < 10_000);
        let p = sys.worker_step(0).expect("a process is runnable");
        assert_eq!(sys.poll_signal(p), None);
        if p == b {
            if sys.receive(b, |e: &Envelope<Msg>| matches!(e, Envelope::Message(Msg::Ping))).is_some() {
                sys.send(a, Msg::Pong);
            }
        } else if sys.receive(a, |e: &Envelope<Msg>| matches!(e, Envelope::Message(Msg::Pong))).is_some() {
            pongs += 1;
            if pongs < 100 {
                sys.send(b, Msg::Ping);
            }
        }
        sys.end_run(p);
    }
    assert_eq!(pongs, 100);
    for p in [a, b] {
        sys.schedule(p);
    }
    let mut exited = 0;
    while let Some(p) = sys.worker_step(0) {
        sys.terminate(p, Exit::Normal);
        exited += 1;
    }
    assert_eq!(exited, 2);
    assert!(sys.registry.lookup_pid(a).is_none());
    assert!(sys.registry.lookup_pid(b).is_none());
}

#[test]
fn selective_receive_keeps_other_messages_in_order() {
    let mut sys = system(1);
    let a = sys.spawn(Pid::invalid());
    sys.send(a, Msg::Text("a"));
    sys.send(a, Msg::Num(1));
    sys.send(a, Msg::Text("b"));
    assert_eq!(sys.worker_step(0), Some(a));
    for _ in 0..3 {
        assert_eq!(sys.poll_signal(a), None);
    }
    match sys.receive(a, |e: &Envelope<Msg>| matches!(e, Envelope::Message(Msg::Num(_)))) {
        Some(Envelope::Message(m)) => assert_eq!(m, Msg::Num(1)),
        _ => panic!("expected 1"),
    }
    let rest: Vec<Msg> = (0..2)
        .map(|_| match sys.receive(a, |_e: &Envelope<Msg>| true) {
            Some(Envelope::Message(m)) => m,
            _ => panic!("expected a message"),
        })
        .collect();
    assert_eq!(rest, vec![Msg::Text("a"), Msg::Text("b")]);
}

#[test]
fn trapped_exit_of_linked_child_is_a_message() {
    let mut sys = system(1);
    let parent = sys.spawn(Pid::invalid());
    assert_eq!(sys.worker_step(0), Some(parent));
    sys.trap_exit(parent, true);
    let child = sys.spawn_linked(parent);
    sys.end_run(parent);
    assert_eq!(sys.worker_step(0), Some(child));
    sys.terminate(child, Exit::Panic(String::from("p")));
    assert_eq!(sys.worker_step(0), Some(parent));
    assert_eq!(sys.poll_signal(parent), None);
    match sys.receive(parent, |e: &Envelope<Msg>| matches!(e, Envelope::TrapExit(_))) {
        Some(Envelope::TrapExit(m)) => {
            assert_eq!(m.pid, child);
            assert_eq!(m.reason, Exit::Panic(String::from("p")));
        }
        _ => panic!("expected a trapped exit"),
    }
}

#[test]
fn link_propagation_ends_the_parent() {
    let mut sys = system(1);
    let a = sys.spawn(Pid::invalid());
    assert_eq!(sys.worker_step(0), Some(a));
    let b = sys.spawn_linked(a);
    sys.end_run(a);
    assert_eq!(sys.worker_step(0), Some(b));
    sys.terminate(b, Exit::Panic(String::from("x")));
    assert_eq!(sys.worker_step(0), Some(a));
    assert_eq!(sys.poll_signal(a), Some(Exit::Panic(String::from("x"))));
    sys.terminate(a, Exit::Panic(String::from("x")));
    assert!(sys.registry.lookup_pid(a).is_none());
}

#[test]
fn exit_fans_out_once_per_link() {
    let mut sys = system(1);
    let a = sys.spawn(Pid::invalid());
    assert_eq!(sys.worker_step(0), Some(a));
    let b = sys.spawn_linked(a);
    let c = sys.spawn_linked(a);
    let d = sys.spawn(Pid::invalid());
    sys.terminate(a, Exit::Shutdown);
    for p in [b, c] {
        let inbox = &sys.registry.lookup_pid(p).unwrap().inbox;
        assert_eq!(inbox.len(), 1);
    }
    assert_eq!(sys.registry.lookup_pid(d).unwrap().inbox.len(), 0);
    // A normal exit is ignored by a linked process that does not trap.
    let mut sys2 = system(1);
    let x = sys2.spawn(Pid::invalid());
    assert_eq!(sys2.worker_step(0), Some(x));
    let y = sys2.spawn_linked(x);
    sys2.terminate(x, Exit::Normal);
    assert_eq!(sys2.worker_step(0), Some(y));
    assert_eq!(sys2.poll_signal(y), None);
}

#[test]
fn work_stealing_spreads_ten_thousand_processes() {
    let mut sys = system(2);
    let producer = sys.spawn(Pid::invalid());
    assert_eq!(sys.worker_step(0), Some(producer));
    let mut children = Vec::new();
    for _ in 0..10_000 {
        children.push(sys.spawn(producer));
    }
    assert!(children.iter().all(|&c| worker_of(&sys, c) == 0));
    sys.terminate(producer, Exit::Normal);
    let mut moved = false;
    let mut finished = 0;
    loop {
        let mut idle = true;
        for w in 0..2 {
            if let Some(p) = sys.worker_step(w) {
                idle = false;
                if worker_of(&sys, p) != 0 {
                    moved = true;
                }
                assert_eq!(sys.poll_signal(p), None);
                sys.terminate(p, Exit::Normal);
                finished += 1;
            }
        }
        if idle {
            break;
        }
    }
    assert!(moved);
    assert_eq!(finished, 10_000);
}

#[test]
fn steal_takes_from_another_queue() {
    let mut sys = system(3);
    let a = sys.spawn(Pid::invalid());
    assert_eq!(sys.try_steal(0), None);
    assert_eq!(sys.try_steal(2), Some(a));
    assert_eq!(worker_of(&sys, a), 2);
    assert_eq!(sys.scheduler.queue_len(0), 0);
    assert_eq!(sys.scheduler.queue_len(2), 1);
}

#[test]
fn push_and_pull_follow_the_balance() {
    let mut sys = system(2);
    let parent = sys.spawn(Pid::invalid());
    for _ in 0..5 {
        sys.spawn(parent);
    }
    assert_eq!(sys.scheduler.queue_len(0), 6);
    let order = Parameters { target: 1, mode: Mode::Push, balance: 4 };
    assert!(sys.try_push(0, order));
    assert_eq!(sys.scheduler.queue_len(0), 5);
    assert_eq!(sys.scheduler.queue_len(1), 1);
    assert_eq!(worker_of(&sys, parent), 1);
    let order = Parameters { target: 0, mode: Mode::Pull, balance: 4 };
    assert!(sys.try_pull(1, order));
    assert_eq!(sys.scheduler.queue_len(1), 2);
    let order = Parameters { target: 0, mode: Mode::Pull, balance: 5 };
    assert!(!sys.try_pull(1, order));
}

#[test]
fn equal_queues_plan_no_migration() {
    let plan = plan_balance(&vec![5, 5, 5, 5]);
    assert!(plan.iter().all(|p| p.mode == Mode::Idle));
    let plan = plan_balance(&vec![7]);
    assert_eq!(plan[0].mode, Mode::Idle);
}

#[test]
fn unequal_queues_plan_walks_inward() {
    let plan = plan_balance(&vec![0, 20, 2, 30]);
    assert_eq!(
        plan,
        vec![
            Parameters { target: 3, mode: Mode::Pull, balance: 17 },
            Parameters { target: 2, mode: Mode::Push, balance: 17 },
            Parameters { target: 1, mode: Mode::Pull, balance: 17 },
            Parameters { target: 0, mode: Mode::Push, balance: 17 },
        ]
    );
}

#[test]
fn migration_slot_round_trip() {
    let mut slot = Migration::new();
    assert_eq!(slot.load(), Parameters::none());
    let order = Parameters { target: 3, mode: Mode::Pull, balance: 17 };
    slot.store(order);
    assert_eq!(slot.load(), order);
    assert_eq!(slot.load_for_push(), order);
    assert_eq!(slot.load(), order);
    let push = Parameters { target: 0xFFFF_FFFF, mode: Mode::Push, balance: 0x3FFF_FFFF };
    slot.store(push);
    assert_eq!(slot.load_for_push(), push);
    assert_eq!(slot.load(), Parameters { mode: Mode::Idle, ..push });
}

#[test]
fn delayed_delivery_not_before_its_time() {
    let mut sys = system(1);
    let a = sys.spawn(Pid::invalid());
    let mut timer: Timer<Msg> = Timer::new();
    let start: u64 = 1_000;
    let delay: u64 = 50_000_000;
    timer.add(a, start, delay, Msg::Num(42));
    match timer.next_action(start + delay - 1) {
        TimerAction::Wait(d) => assert_eq!(d, 1),
        _ => panic!("the entry is not due yet"),
    }
    let now = start + delay;
    match timer.next_action(now) {
        TimerAction::Deliver(entry) => {
            assert!(now - start >= delay);
            sys.deliver(entry);
        }
        _ => panic!("the entry is due"),
    }
    assert!(matches!(timer.next_action(now), TimerAction::Idle));
    assert_eq!(sys.worker_step(0), Some(a));
    assert_eq!(sys.poll_signal(a), None);
    match sys.receive(a, |_e: &Envelope<Msg>| true) {
        Some(Envelope::Message(m)) => assert_eq!(m, Msg::Num(42)),
        _ => panic!("expected 42"),
    }
}

#[test]
fn timer_hands_out_earliest_first() {
    let mut timer: Timer<Msg> = Timer::new();
    timer.wake_up(Pid(1), 0, 30);
    timer.wake_up(Pid(2), 0, 10);
    timer.wake_up(Pid(3), 0, 20);
    assert_eq!(timer.next_deadline(), Some(10));
    assert!(timer.pop_expired(5).is_none());
    assert_eq!(timer.pop_expired(25).map(|e| e.pid), Some(Pid(2)));
    assert_eq!(timer.pop_expired(25).map(|e| e.pid), Some(Pid(3)));
    assert!(timer.pop_expired(25).is_none());
    timer.stop();
    assert!(!timer.is_running());
}

#[test]
fn supervisor_restarts_permanent_child() {
    let sup = Pid(100);
    let parent = Pid(99);
    let mut s = SupervisorActor::new(Strategy::OneForOne);
    s.add_child(Pid(1), RestartPolicy::Permanent);
    let mut current = Pid(1);
    for fresh in 2..5u64 {
        let action = s.on_exit(current, Exit::Normal, sup);
        assert!(action.exit.is_none());
        assert_eq!(action.restart, vec![0]);
        s.restarted(0, Pid(fresh));
        assert_eq!(s.failed_index(Pid(fresh)), Some(0));
        assert_eq!(s.failed_index(current), None);
        current = Pid(fresh);
    }
    let action = s.on_exit(parent, Exit::Killed, sup);
    assert_eq!(action.exit, Some(Exit::Killed));
}

#[test]
fn supervisor_policies() {
    let sup = Pid(100);
    let mut s = SupervisorActor::new(Strategy::OneForOne);
    s.add_child(Pid(1), RestartPolicy::Transient);
    s.add_child(Pid(2), RestartPolicy::Temporary);
    assert!(s.on_exit(Pid(1), Exit::Normal, sup).restart.is_empty());
    assert!(s.on_exit(Pid(1), Exit::Shutdown, sup).restart.is_empty());
    assert_eq!(s.on_exit(Pid(1), Exit::Killed, sup).restart, vec![0]);
    assert!(s.on_exit(Pid(2), Exit::Panic(String::from("e")), sup).restart.is_empty());
    let stranger = s.on_exit(Pid(50), Exit::Normal, sup);
    assert!(stranger.exit.is_none() && stranger.kill.is_empty());
    assert_eq!(s.on_exit(sup, Exit::Normal, sup).exit, Some(Exit::Normal));
}

#[test]
fn one_for_all_kills_then_restarts_in_order() {
    let sup = Pid(100);
    let mut s = SupervisorActor::new(Strategy::OneForAll);
    s.add_child(Pid(1), RestartPolicy::Permanent);
    s.add_child(Pid(2), RestartPolicy::Temporary);
    s.add_child(Pid(3), RestartPolicy::Permanent);
    let first = s.on_exit(Pid(2), Exit::Panic(String::from("boom")), sup);
    assert_eq!(first.kill, vec![Pid(1), Pid(2), Pid(3)]);
    assert!(first.restart.is_empty());
    assert!(s.on_exit(Pid(1), Exit::Killed, sup).restart.is_empty());
    assert!(s.on_exit(Pid(2), Exit::Killed, sup).restart.is_empty());
    let last = s.on_exit(Pid(3), Exit::Killed, sup);
    assert_eq!(last.restart, vec![0, 2]);
}

#[test]
fn rest_for_one_affects_later_children() {
    let sup = Pid(100);
    let mut s = SupervisorActor::new(Strategy::RestForOne);
    s.add_child(Pid(1), RestartPolicy::Permanent);
    s.add_child(Pid(2), RestartPolicy::Permanent);
    s.add_child(Pid(3), RestartPolicy::Permanent);
    let first = s.on_exit(Pid(2), Exit::Panic(String::from("boom")), sup);
    assert_eq!(first.kill, vec![Pid(2), Pid(3)]);
    assert!(Strategy::RestForOne.is_affected(2, 1));
    assert!(!Strategy::RestForOne.is_affected(0, 1));
    assert!(Strategy::OneForAll.is_affected(0, 1));
    assert!(!Strategy::OneForOne.is_affected(0, 1));
}

#[test]
fn control_block_flags_and_links() {
    let mut cb = ActorControlBlock::new(Pid(1), 3);
    assert_eq!(cb.worker_id, 3);
    assert!(cb.try_schedule());
    assert!(!cb.try_schedule());
    assert_eq!(cb.add_link(Pid(2)), Ok(()));
    assert_eq!(cb.add_link(Pid(2)), Err(()));
    assert_eq!(cb.remove_link(Pid(2)), Ok(()));
    assert_eq!(cb.remove_link(Pid(2)), Err(()));
    for i in 0..33u64 {
        assert_eq!(cb.add_link(Pid(10 + i)), Ok(()));
    }
    assert_eq!(cb.links.len(), 33);
}

#[test]
fn stop_all_halts_everything() {
    let mut sys = system(2);
    let a = sys.spawn(Pid::invalid());
    sys.stop_all();
    assert!(sys.registry.lookup_pid(a).is_none());
    assert_eq!(sys.scheduler.queue_len(0), 0);
    assert_eq!(sys.worker_step(0), None);
    assert!(sys.scheduler.get_worker(0).map(|w| !w.running).unwrap_or(false));
    assert!(sys.scheduler.is_halted());
    // Nothing is scheduled once halted.
    let b = sys.spawn(Pid::invalid());
    assert!(sys.registry.lookup_pid(b).is_some());
    assert_eq!(sys.scheduler.queue_len(0), 0);
    assert_eq!(sys.worker_step(0), None);
}

#[test]
fn steal_skips_the_running_process() {
    let mut sys = system(2);
    let a = sys.spawn(Pid::invalid());
    assert_eq!(sys.worker_step(0), Some(a));
    let b = sys.spawn(a);
    sys.schedule(a);
    assert_eq!(sys.try_steal(1), Some(b));
    assert_eq!(sys.try_steal(1), None);
    assert_eq!(worker_of(&sys, a), 0);
    sys.end_run(a);
    assert_eq!(sys.scheduler.queue_len(0), 1);
}

#[test]
fn signal_to_a_missing_process_is_dropped() {
    let mut sys = system(1);
    let a = sys.spawn(Pid::invalid());
    sys.send(Pid(12345), Msg::Num(1));
    sys.exit(Pid(12345), Exit::Killed);
    assert_eq!(sys.scheduler.queue_len(0), 1);
    assert_eq!(sys.registry.lookup_pid(a).unwrap().inbox.len(), 0);
    assert!(!sys.has_messages(Pid(12345)));
}

#[test]
fn steal_walks_the_ring_from_the_next_worker() {
    let mut sys = system(4);
    let a = sys.spawn(Pid::invalid());
    let b = sys.spawn(Pid::invalid());
    let _c = sys.spawn(Pid::invalid());
    assert_eq!(sys.try_steal(1), Some(a));
    assert_eq!(sys.try_steal(3), Some(b));
    // From worker 2 the ring visits 3 first, though 0 and 1 hold processes too.
    assert_eq!(sys.try_steal(2), Some(b));
    assert_eq!(worker_of(&sys, b), 2);
}

#[test]
fn worker_step_counts_reductions_and_queue_length() {
    let mut sys = system(1);
    sys.spawn(Pid::invalid());
    sys.spawn(Pid::invalid());
    let before = sys.scheduler.get_worker(0).unwrap().reductions;
    let p = sys.worker_step(0).unwrap();
    let w = sys.scheduler.get_worker(0).unwrap();
    assert_eq!(w.reductions, before - 1);
    assert_eq!(w.max_queue_length, 2);
    sys.end_run(p);
}
