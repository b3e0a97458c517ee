use beam::{Envelope, Exit, HydratedActor, Inbox, MessageQueue, Pid, Queue, Signal, UnsortedSet, ActorControlBlock, QUEUE_SIZE};

#[test]
fn ring_queue_is_fifo_and_bounded() {
    let mut q: Queue<u32, 2> = Queue::new();
    assert_eq!(q.capacity(), 2);
    assert!(q.is_empty());
    assert!(q.push(1).is_ok());
    assert!(q.push(2).is_ok());
    assert!(q.is_full());
    assert_eq!(q.push(3), Err(3));
    assert_eq!(q.len(), 2);
    assert_eq!(q.pop(), Some(1));
    assert!(q.push(4).is_ok());
    assert_eq!(q.pop(), Some(2));
    assert_eq!(q.pop(), Some(4));
    assert_eq!(q.pop(), None);
}

#[test]
fn inbox_overflow_keeps_order() {
    let mut inbox: Inbox<usize> = Inbox::new();
    let total = QUEUE_SIZE + 10;
    for i in 0..total {
        inbox.push(i);
    }
    assert_eq!(inbox.len(), total);
    for i in 0..total {
        assert_eq!(inbox.pop(), Some(i));
    }
    assert!(inbox.is_empty());
    assert_eq!(inbox.pop(), None);
}

#[test]
fn selective_receive_takes_first_match() {
    let mut q: MessageQueue<Result<&str, i32>> = MessageQueue::new();
    q.push(Ok("a"));
    q.push(Err(1));
    q.push(Ok("b"));
    let got = q.remove_matching(|m: &Result<&str, i32>| m.is_err());
    assert_eq!(got, Some(Err(1)));
    assert_eq!(q.remove_matching(|_m: &Result<&str, i32>| true), Some(Ok("a")));
    assert_eq!(q.remove_matching(|_m: &Result<&str, i32>| true), Some(Ok("b")));
    assert_eq!(q.remove_matching(|_m: &Result<&str, i32>| true), None);
}

#[test]
fn link_set_overflows_past_fast_path() {
    let mut links: UnsortedSet<Pid, 2> = UnsortedSet::new();
    assert!(links.insert(Pid(1)));
    assert!(links.insert(Pid(2)));
    assert!(links.insert(Pid(3)));
    assert!(!links.insert(Pid(2)));
    assert_eq!(links.len(), 3);
    assert!(links.contains(&Pid(3)));
    assert!(links.remove(&Pid(1)));
    assert!(!links.contains(&Pid(1)));
    assert_eq!(links.len(), 2);
    assert!(links.contains(&Pid(3)));
}

#[test]
fn exit_signal_kills_unless_trapped() {
    let cb = ActorControlBlock::new(Pid(7), 0);
    let mut actor: HydratedActor<u32> = HydratedActor::new(cb);
    actor.send_signal(Signal::Exit(Pid(8), Exit::Panic(String::from("x"))));
    assert_eq!(actor.poll(), Some(Exit::Panic(String::from("x"))));
    actor.control_block.trap_exit = true;
    actor.send_signal(Signal::Exit(Pid(8), Exit::Panic(String::from("p"))));
    assert_eq!(actor.poll(), None);
    match actor.receive(|_e: &Envelope<u32>| true) {
        Some(Envelope::TrapExit(m)) => {
            assert_eq!(m.pid, Pid(8));
            assert_eq!(m.reason, Exit::Panic(String::from("p")));
        }
        _ => panic!("expected a trapped exit"),
    }
}
