use coop_sched::arch::Slot;
use coop_sched::basic::{Monitor, Queue, Scheduler};
use coop_sched::lock::LockParker;
use coop_sched::scheduler::Queue as QueueOps;
use coop_sched::scheduler::{Request, Response, Threads};

fn queue_of(nodes: &[usize]) -> Queue {
    let mut queue = Queue::new();
    for node in nodes {
        queue.push(*node);
    }
    queue
}

fn nodes_of(queue: &Queue) -> Vec<usize> {
    let mut nodes = Vec::new();
    let mut index = 0;
    while let Some(node) = queue.get(index) {
        nodes.push(node);
        index += 1;
    }
    nodes
}

#[test]
fn queue_is_first_in_first_out() {
    let mut queue = Queue::new();
    assert_eq!(queue.front(), None);
    assert_eq!(queue.pop(), None);
    queue.push(3);
    queue.push(1);
    queue.push(2);
    assert_eq!(queue.len(), 3);
    assert_eq!(queue.front(), Some(3));
    assert_eq!(queue.get(1), Some(1));
    assert_eq!(queue.get(3), None);
    assert_eq!(queue.pop(), Some(3));
    assert_eq!(queue.pop(), Some(1));
    assert_eq!(queue.front(), Some(2));
    assert_eq!(queue.pop(), Some(2));
    assert_eq!(queue.pop(), None);
    assert_eq!(queue.len(), 0);
}

#[test]
fn push_front_goes_before_the_others() {
    let mut queue = Queue::new();
    queue.push_front(2);
    queue.push_front(1);
    queue.push(3);
    assert_eq!(nodes_of(&queue), vec![1, 2, 3]);
}

#[test]
fn yield_rotates_the_queue() {
    let mut scheduler = Scheduler::new(queue_of(&[1, 2, 3]));
    let mut world = Monitor::new(1);
    let response = scheduler.dispatch(Some(Request::<LockParker>::Yield), &mut world);
    assert_eq!(response, Response::Nothing);
    assert_eq!(nodes_of(scheduler.queue()), vec![2, 3, 1]);
}

#[test]
fn yield_of_the_only_thread_keeps_it_at_the_head() {
    let mut scheduler = Scheduler::new(queue_of(&[5]));
    let mut world = Monitor::new(1);
    let response = scheduler.dispatch(Some(Request::<LockParker>::Yield), &mut world);
    assert_eq!(response, Response::Nothing);
    assert_eq!(nodes_of(scheduler.queue()), vec![5]);
}

#[test]
fn schedule_appends_and_keeps_the_head() {
    let mut scheduler = Scheduler::new(queue_of(&[1, 2]));
    let mut world = Monitor::new(1);
    let response = scheduler.dispatch(Some(Request::<LockParker>::Schedule(9)), &mut world);
    assert_eq!(response, Response::Nothing);
    assert_eq!(nodes_of(scheduler.queue()), vec![1, 2, 9]);
}

#[test]
fn unschedule_without_parker_hands_the_node_back() {
    let mut scheduler = Scheduler::new(queue_of(&[4, 5]));
    let mut world = Monitor::new(1);
    let response = scheduler.dispatch(Some(Request::<LockParker>::Unschedule(None)), &mut world);
    assert_eq!(response, Response::Unscheduled(Some(4)));
    assert_eq!(nodes_of(scheduler.queue()), vec![5]);
}

#[test]
fn finished_thread_is_unscheduled() {
    let mut scheduler = Scheduler::new(queue_of(&[4, 5]));
    let mut world = Monitor::new(1);
    let response = scheduler.dispatch(None::<Request<LockParker>>, &mut world);
    assert_eq!(response, Response::Unscheduled(Some(4)));
    assert_eq!(nodes_of(scheduler.queue()), vec![5]);
}

#[test]
fn unschedule_with_parker_parks_the_head() {
    let mut scheduler = Scheduler::new(queue_of(&[4, 5]));
    let mut world = Monitor::new(1);
    assert!(world.mutex.try_lock().is_ok());
    let request = Request::make_schedule(LockParker::Lock);
    assert!(matches!(request, Request::Unschedule(Some(LockParker::Lock))));
    let response = scheduler.dispatch(Some(request), &mut world);
    assert_eq!(response, Response::Unscheduled(None));
    assert_eq!(nodes_of(scheduler.queue()), vec![5]);
    assert_eq!(nodes_of(world.mutex.waiters()), vec![4]);
    assert!(world.mutex.is_taken());
}

#[test]
fn heads_over_a_round_of_yields_follow_the_initial_order() {
    let initial = vec![10, 20, 30, 40];
    let mut scheduler = Scheduler::new(queue_of(&initial));
    let mut slot = Slot::new();
    let mut world = Monitor::new(1);
    let mut heads = Vec::new();
    for _ in 0..initial.len() {
        heads.push(scheduler.next_request(&mut slot).unwrap());
        scheduler.dispatch(Some(Request::<LockParker>::Yield), &mut world);
    }
    assert_eq!(heads, initial);
    assert_eq!(nodes_of(scheduler.queue()), initial);
}

#[test]
fn next_request_publishes_the_head() {
    let scheduler = Scheduler::new(queue_of(&[77, 78]));
    let mut slot = Slot::new();
    slot.no_preempt = true;
    assert_eq!(scheduler.next_request(&mut slot), Some(77));
    assert_eq!(slot.current, 77);
    assert!(slot.no_preempt);
    let drained = Scheduler::new(Queue::new());
    assert_eq!(drained.next_request(&mut slot), None);
    assert_eq!(slot.current, 77);
}

struct Yielders {
    left: usize,
    resumed: Vec<usize>,
    released: Vec<usize>,
}

impl Threads<Monitor, LockParker> for Yielders {
    fn resume(&mut self, slot: &mut Slot, _response: Response, _world: &mut Monitor) -> Option<Request<LockParker>> {
        self.resumed.push(coop_sched::arch::get(slot));
        if self.left > 0 {
            self.left -= 1;
            Some(Request::Yield)
        } else {
            None
        }
    }

    fn release(&mut self, node: usize) {
        self.released.push(node);
    }
}

#[test]
fn run_drains_the_queue() {
    let mut scheduler = Scheduler::new(queue_of(&[1, 2]));
    let mut slot = Slot::new();
    let mut threads = Yielders { left: 3, resumed: Vec::new(), released: Vec::new() };
    let mut world = Monitor::new(1);
    assert!(scheduler.run(&mut slot, &mut threads, &mut world, 100));
    assert_eq!(threads.resumed, vec![1, 2, 1, 2, 1]);
    assert_eq!(threads.released, vec![2, 1]);
    assert_eq!(scheduler.queue().len(), 0);
    assert_eq!(slot.current, 1);
}

#[test]
fn run_stops_when_its_turns_are_spent() {
    let mut scheduler = Scheduler::new(queue_of(&[1, 2]));
    let mut slot = Slot::new();
    let mut threads = Yielders { left: 10, resumed: Vec::new(), released: Vec::new() };
    let mut world = Monitor::new(1);
    assert!(!scheduler.run(&mut slot, &mut threads, &mut world, 3));
    assert_eq!(threads.resumed, vec![1, 2, 1]);
    assert!(threads.released.is_empty());
    assert_eq!(nodes_of(scheduler.queue()), vec![2, 1]);
}

#[test]
fn run_on_an_empty_queue_resumes_nothing() {
    let mut scheduler = Scheduler::new(Queue::new());
    let mut slot = Slot::new();
    let mut threads = Yielders { left: 10, resumed: Vec::new(), released: Vec::new() };
    let mut world = Monitor::new(1);
    assert!(scheduler.run(&mut slot, &mut threads, &mut world, 5));
    assert!(threads.resumed.is_empty());
    assert!(threads.released.is_empty());
    assert_eq!(slot.current, 0);
}

struct Recorder {
    parked: std::rc::Rc<std::cell::RefCell<Vec<usize>>>,
    wake: Option<usize>,
}

impl coop_sched::scheduler::Parker<u32> for Recorder {
    fn park(self, node: usize, world: &mut u32) -> Option<usize> {
        self.parked.borrow_mut().push(node);
        *world += 1;
        self.wake
    }
}

#[test]
fn a_parker_is_called_once_with_the_head_before_anything_else_runs() {
    let parked = std::rc::Rc::new(std::cell::RefCell::new(Vec::new()));
    let mut scheduler = Scheduler::new(queue_of(&[1, 2, 3]));
    let mut calls: u32 = 0;
    let parker = Recorder { parked: parked.clone(), wake: None };
    let response = scheduler.dispatch(Some(Request::make_schedule(parker)), &mut calls);
    assert_eq!(response, Response::Unscheduled(None));
    assert_eq!(*parked.borrow(), vec![1]);
    assert_eq!(calls, 1);
    assert_eq!(nodes_of(scheduler.queue()), vec![2, 3]);

    let parker = Recorder { parked: parked.clone(), wake: Some(8) };
    let response = scheduler.dispatch(Some(Request::Unschedule(Some(parker))), &mut calls);
    assert_eq!(response, Response::Unscheduled(None));
    assert_eq!(*parked.borrow(), vec![1, 2]);
    assert_eq!(calls, 2);
    assert_eq!(nodes_of(scheduler.queue()), vec![3, 8]);
}

#[test]
fn run_goes_on_where_it_stopped() {
    let mut scheduler = Scheduler::new(queue_of(&[1, 2]));
    let mut slot = Slot::new();
    let mut threads = Yielders { left: 3, resumed: Vec::new(), released: Vec::new() };
    let mut world = Monitor::new(1);
    assert!(!scheduler.run(&mut slot, &mut threads, &mut world, 0));
    assert!(threads.resumed.is_empty());
    assert!(!scheduler.run(&mut slot, &mut threads, &mut world, 2));
    assert_eq!(threads.resumed, vec![1, 2]);
    assert!(scheduler.run(&mut slot, &mut threads, &mut world, 3));
    assert_eq!(threads.resumed, vec![1, 2, 1, 2, 1]);
    assert_eq!(threads.released, vec![2, 1]);
}

struct Leavers {
    seen: Vec<(usize, Response)>,
    released: Vec<usize>,
}

impl Threads<Monitor, LockParker> for Leavers {
    fn resume(&mut self, slot: &mut Slot, response: Response, _world: &mut Monitor) -> Option<Request<LockParker>> {
        let node = coop_sched::arch::get(slot);
        self.seen.push((node, response));
        if node == 1 {
            Some(Request::Unschedule(None))
        } else {
            None
        }
    }

    fn release(&mut self, node: usize) {
        self.released.push(node);
    }
}

#[test]
fn a_node_handed_back_goes_to_the_next_thread() {
    let mut scheduler = Scheduler::new(queue_of(&[1, 2]));
    let mut threads = Leavers { seen: Vec::new(), released: Vec::new() };
    let mut world = Monitor::new(1);
    assert!(scheduler.run(&mut Slot::new(), &mut threads, &mut world, 10));
    assert_eq!(
        threads.seen,
        vec![(1, Response::Nothing), (2, Response::Unscheduled(Some(1)))]
    );
    assert_eq!(threads.released, vec![2]);
}

#[test]
fn a_node_handed_back_to_nobody_is_released() {
    let mut scheduler = Scheduler::new(queue_of(&[1]));
    let mut threads = Leavers { seen: Vec::new(), released: Vec::new() };
    let mut world = Monitor::new(1);
    assert!(scheduler.run(&mut Slot::new(), &mut threads, &mut world, 1));
    assert_eq!(threads.seen, vec![(1, Response::Nothing)]);
    assert_eq!(threads.released, vec![1]);
}

#[test]
fn a_turn_resumes_the_head_and_acts_on_its_request() {
    let mut scheduler = Scheduler::new(queue_of(&[1, 2]));
    let mut slot = Slot::new();
    let mut world = Monitor::new(1);
    let mut threads: coop_sched::script::Script<LockParker> = coop_sched::script::Script::new();
    threads.ask(Some(Request::Yield));
    threads.ask(Some(Request::Schedule(3)));
    threads.ask(None);

    assert_eq!(scheduler.turn(&mut slot, &mut threads, &mut world), Some(1));
    assert_eq!(nodes_of(scheduler.queue()), vec![2, 1]);
    assert_eq!(scheduler.turn(&mut slot, &mut threads, &mut world), Some(2));
    assert_eq!(nodes_of(scheduler.queue()), vec![2, 1, 3]);
    assert!(threads.released.is_empty());
    assert_eq!(scheduler.turn(&mut slot, &mut threads, &mut world), Some(2));
    assert_eq!(nodes_of(scheduler.queue()), vec![1, 3]);
    assert_eq!(threads.resumed, vec![1, 2, 2]);
    assert_eq!(threads.returned, vec![2]);
    assert_eq!(threads.released, vec![2]);
    assert_eq!(slot.current, 2);
}

#[test]
fn a_turn_on_an_empty_queue_does_nothing() {
    let mut scheduler = Scheduler::new(Queue::new());
    let mut slot = Slot::new();
    let mut world = Monitor::new(1);
    let mut threads: coop_sched::script::Script<LockParker> = coop_sched::script::Script::new();
    threads.ask(Some(Request::Yield));
    assert_eq!(scheduler.turn(&mut slot, &mut threads, &mut world), None);
    assert!(threads.resumed.is_empty());
    assert_eq!(threads.asks.len(), 1);
    assert_eq!(slot.current, 0);
}

#[test]
fn run_releases_every_thread_that_returned() {
    let mut scheduler = Scheduler::new(queue_of(&[1, 2, 3]));
    let mut slot = Slot::new();
    let mut world = Monitor::new(1);
    let mut threads: coop_sched::script::Script<LockParker> = coop_sched::script::Script::new();
    threads.ask(Some(Request::Yield));
    threads.ask(None);
    threads.ask(Some(Request::Unschedule(None)));
    assert!(!scheduler.run(&mut slot, &mut threads, &mut world, 2));
    assert_eq!(threads.resumed, vec![1, 2]);
    assert_eq!(threads.returned, vec![2]);
    assert_eq!(threads.released, vec![2]);
    assert!(scheduler.run(&mut slot, &mut threads, &mut world, 10));
    assert_eq!(threads.resumed, vec![1, 2, 3, 1]);
    assert_eq!(threads.returned, vec![2, 1]);
    // the node that thread 3 handed back went to thread 1, which took it
    assert_eq!(threads.released, vec![2, 1]);
    assert_eq!(scheduler.queue().len(), 0);
}

#[test]
fn run_releases_a_node_handed_back_to_nobody() {
    let mut scheduler = Scheduler::new(queue_of(&[7]));
    let mut slot = Slot::new();
    let mut world = Monitor::new(1);
    let mut threads: coop_sched::script::Script<LockParker> = coop_sched::script::Script::new();
    threads.ask(Some(Request::Unschedule(None)));
    assert!(scheduler.run(&mut slot, &mut threads, &mut world, 10));
    assert_eq!(threads.resumed, vec![7]);
    assert!(threads.returned.is_empty());
    assert_eq!(threads.released, vec![7]);
}
