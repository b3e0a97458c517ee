use beam::{
    pending_once, recv_matching, sleep_elapsed, ActorControlBlock, Envelope, GlobalContext, HydratedActor, Inbox,
    MetaKeyValue, MetaValue, Pid, RecvError, Registry, Signal, Timestamp, ToPid, QUEUE_SIZE,
};

#[test]
fn inbox_ring_overflow_and_refill() {
    let mut inbox: Inbox<usize> = Inbox::new();
    for i in 0..QUEUE_SIZE + 3 {
        inbox.push(i);
    }
    assert_eq!(inbox.overflow_count(), 3);
    for i in 0..QUEUE_SIZE {
        assert_eq!(inbox.pop(), Some(i));
    }
    assert_eq!(inbox.overflow_count(), 3);
    assert_eq!(inbox.pop(), Some(QUEUE_SIZE));
    assert_eq!(inbox.overflow_count(), 0);
    assert_eq!(inbox.len(), 2);
    inbox.push(7);
    assert_eq!(inbox.pop(), Some(QUEUE_SIZE + 1));
    assert_eq!(inbox.pop(), Some(QUEUE_SIZE + 2));
    assert_eq!(inbox.pop(), Some(7));
    assert!(inbox.is_empty());
}

#[test]
fn names_last_registration_wins() {
    let mut reg: Registry<u8> = Registry::new();
    reg.register("logger", Pid(3));
    reg.register("other", Pid(4));
    reg.register("logger", Pid(5));
    assert_eq!(reg.lookup_name("logger"), Some(Pid(5)));
    assert_eq!(reg.lookup_name("missing"), None);
    assert_eq!("logger".to_reference(&reg), Pid(5));
    assert_eq!("missing".to_reference(&reg), Pid::invalid());
    assert_eq!(Pid(8).to_reference(&reg), Pid(8));
    assert_eq!(reg.allocate_pid(), Pid(0));
    assert_eq!(reg.allocate_pid(), Pid(1));
}

#[test]
fn budget_yields_at_sixteen() {
    let mut ctx = GlobalContext::new(Pid(4));
    assert_eq!(ctx.pid(), Pid(4));
    ctx.spend(15);
    assert!(!ctx.should_yield());
    ctx.spend(1);
    assert!(ctx.should_yield());
    assert_eq!(ctx.budget, 0);
    ctx.spend(usize::MAX);
    ctx.spend(1);
    assert_eq!(ctx.budget, usize::MAX);
}

#[test]
fn receive_times_out_or_matches() {
    let mut ctx = GlobalContext::new(Pid(1));
    let mut actor: HydratedActor<i32> = HydratedActor::new(ActorControlBlock::new(Pid(1), 0));
    let got = recv_matching(&mut ctx, &mut actor, 0, 10, Some(5), |_e: &Envelope<i32>| true);
    assert!(matches!(got, Some(Err(RecvError::Timeout))));
    let got = recv_matching(&mut ctx, &mut actor, 0, 1, Some(5), |_e: &Envelope<i32>| true);
    assert!(got.is_none());
    actor.send_signal(Signal::Message(3));
    assert_eq!(actor.poll(), None);
    let got = recv_matching(&mut ctx, &mut actor, 0, 1, None, |_e: &Envelope<i32>| true);
    assert!(matches!(got, Some(Ok(Envelope::Message(3)))));
    assert_eq!(ctx.budget, 1);
}

#[test]
fn sleeping_and_pending_once() {
    assert!(sleep_elapsed(10, 15, 5));
    assert!(!sleep_elapsed(10, 14, 5));
    let mut p = pending_once();
    assert!(!p.poll());
    assert!(p.poll());
}

#[test]
fn signals_link_unlink_kill() {
    let mut actor: HydratedActor<i32> = HydratedActor::new(ActorControlBlock::new(Pid(1), 0));
    actor.send_signal(Signal::Link(Pid(2)));
    actor.send_signal(Signal::TimerFired);
    actor.send_signal(Signal::Unlink(Pid(2)));
    actor.send_signal(Signal::Kill);
    assert!(actor.has_messages());
    assert_eq!(actor.poll(), None);
    assert!(actor.control_block.links.contains(&Pid(2)));
    assert_eq!(actor.poll(), None);
    assert_eq!(actor.poll(), None);
    assert!(!actor.control_block.links.contains(&Pid(2)));
    assert_eq!(actor.poll(), Some(beam::Exit::Killed));
    assert!(!actor.has_messages());
}

#[test]
fn timestamps_from_unix_seconds() {
    let t = Timestamp::from_unix_secs(0);
    assert_eq!(t.to_iso8601(), "1970-01-01T00:00:00Z");
    assert_eq!(Timestamp::from_unix_secs(951_782_400).to_iso8601(), "2000-02-29T00:00:00Z");
    assert_eq!(Timestamp::from_unix_secs(1_700_000_000).to_iso8601(), "2023-11-14T22:13:20Z");
    assert_eq!(Timestamp::from_unix_secs(253_402_300_799).to_iso8601(), "9999-12-31T23:59:59Z");
    assert!(Timestamp::is_leap(2000));
    assert!(!Timestamp::is_leap(1900));
    assert_eq!(Timestamp::days_in_month(2024)[1], 29);
    assert_eq!(Timestamp::days_in_month(2023)[1], 28);
}

#[test]
fn metadata_values_are_copied_by_key() {
    let mut sys: beam::System<u8> = beam::System::new();
    sys.add_worker();
    let parent = sys.spawn(Pid::invalid());
    sys.insert_metadata(parent, String::from("role"), MetaValue::StaticStr("root"));
    sys.insert_metadata(parent, String::from("role"), MetaValue::Unsigned(2));
    let child = sys.spawn(parent);
    let md = sys.metadata(child).iter();
    assert_eq!(md.len(), 1);
    assert_eq!(md[0].key, "role");
    assert_eq!(md[0].value, MetaValue::Unsigned(2));
    assert_eq!(sys.metadata(Pid(77)).len(), 0);
    let copy: Vec<MetaKeyValue> = sys.metadata(child).into_iter();
    assert_eq!(copy.len(), 1);
}

#[test]
fn merge_lets_the_other_set_win() {
    let mut mine = beam::UnsortedSet::<MetaKeyValue, 2>::new();
    mine.insert(MetaKeyValue { key: String::from("k"), value: MetaValue::Unsigned(1) });
    mine.insert(MetaKeyValue { key: String::from("j"), value: MetaValue::Unsigned(2) });
    let mut theirs = beam::UnsortedSet::<MetaKeyValue, 4>::new();
    theirs.insert(MetaKeyValue { key: String::from("k"), value: MetaValue::Unsigned(9) });
    theirs.insert(MetaKeyValue { key: String::from("z"), value: MetaValue::Unsigned(3) });
    mine.merge_with(theirs);
    let mut items: Vec<(String, MetaValue)> = mine.into_iter().into_iter().map(|m| (m.key, m.value)).collect();
    items.sort_by(|x, y| x.0.cmp(&y.0));
    assert_eq!(
        items,
        vec![
            (String::from("j"), MetaValue::Unsigned(2)),
            (String::from("k"), MetaValue::Unsigned(9)),
            (String::from("z"), MetaValue::Unsigned(3)),
        ]
    );
}

#[test]
fn metadata_update_keeps_other_keys() {
    let mut sys: beam::System<u8> = beam::System::new();
    sys.add_worker();
    let p = sys.spawn(Pid::invalid());
    sys.insert_metadata(p, String::from("a"), MetaValue::Unsigned(1));
    sys.insert_metadata(p, String::from("b"), MetaValue::Unsigned(2));
    sys.insert_metadata(p, String::from("a"), MetaValue::Unsigned(3));
    let mut md: Vec<(String, MetaValue)> = sys.metadata(p).iter().into_iter().map(|m| (m.key, m.value)).collect();
    md.sort_by(|x, y| x.0.cmp(&y.0));
    assert_eq!(md, vec![(String::from("a"), MetaValue::Unsigned(3)), (String::from("b"), MetaValue::Unsigned(2))]);
}
