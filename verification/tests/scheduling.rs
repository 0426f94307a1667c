use std::cell::{Cell, RefCell};
use std::future::Future;
use std::pin::Pin;
use std::rc::Rc;
use std::task::{Context, Poll, Waker};

use wectr_sdk::channel::{Channel, Inbound, Outbound, Receiver, message_image};
use wectr_sdk::rt::{Runtime, Step};
use wectr_sdk::wait::{Wait, wait};

type Task = Pin<Box<dyn Future<Output = ()>>>;

/// The runtime a test drives, shared with the tasks that run on it.
#[derive(Clone)]
struct Host {
    rt: Rc<RefCell<Option<Runtime<Task>>>>,
    emits: Rc<RefCell<Vec<(u32, Vec<u8>)>>>,
    subs: Rc<RefCell<Vec<u32>>>,
    unsubs: Rc<RefCell<Vec<u32>>>,
}

impl Host {
    fn new() -> Host {
        Host {
            rt: Rc::new(RefCell::new(None)),
            emits: Rc::new(RefCell::new(Vec::new())),
            subs: Rc::new(RefCell::new(Vec::new())),
            unsubs: Rc::new(RefCell::new(Vec::new())),
        }
    }

    fn start(&self, main: impl Future<Output = ()> + 'static) {
        *self.rt.borrow_mut() = Some(Runtime::new(Box::pin(main)));
    }

    fn spawn(&self, task: impl Future<Output = ()> + 'static) {
        self.rt.borrow_mut().as_mut().unwrap().spawn(Box::pin(task));
    }

    fn wait(&self, ms: u64) -> Sleep {
        Sleep { host: self.clone(), timer: wait(ms) }
    }

    fn tick(&self, elapsed_ms: i64) -> i32 {
        let mut cx = Context::from_waker(Waker::noop());
        let mut round = self.rt.borrow_mut().as_mut().unwrap().tick(elapsed_ms as u64);
        loop {
            while let Some(mut task) = round.next_task() {
                let pending = task.as_mut().poll(&mut cx).is_pending();
                let finished = round.settle(task, pending);
                drop(finished);
            }
            let step = self.rt.borrow_mut().as_mut().unwrap().finish_round(round);
            match step {
                Step::Again(next) => round = next,
                Step::Done(more) => return more as i32,
            }
        }
    }

    fn dispatch(&self, channel: u32, data: Vec<u8>) {
        self.rt.borrow_mut().as_mut().unwrap().dispatch(channel, data);
    }
}

struct Sleep {
    host: Host,
    timer: Wait,
}

impl Future for Sleep {
    type Output = ();
    fn poll(self: Pin<&mut Self>, _: &mut Context<'_>) -> Poll<()> {
        let this = self.get_mut();
        let rt = this.host.rt.borrow();
        if this.timer.poll(rt.as_ref().unwrap()) { Poll::Ready(()) } else { Poll::Pending }
    }
}

#[derive(Clone, Copy, Debug, PartialEq)]
struct Resupply {
    rounds: u32,
}
impl Channel for Resupply {
    const ID: u32 = 7;
}
impl Inbound for Resupply {}

#[derive(Clone, Copy, Debug, PartialEq)]
struct Shoot {
    target: u32,
}
impl Channel for Shoot {
    const ID: u32 = 2;
}
impl Outbound for Shoot {}

struct Subscription {
    host: Host,
    receiver: Receiver<Resupply>,
}

impl Subscription {
    fn subscribe(host: &Host) -> Subscription {
        host.subs.borrow_mut().push(Resupply::ID);
        Subscription { host: host.clone(), receiver: Receiver::new() }
    }

    async fn recv(&mut self) -> Resupply {
        let recv = self.receiver.recv();
        loop {
            let got = recv.poll(self.host.rt.borrow_mut().as_mut().unwrap());
            if let Some(bytes) = got {
                let image = message_image(&bytes, 4);
                return Resupply { rounds: u32::from_ne_bytes([image[0], image[1], image[2], image[3]]) };
            }
            Yield(false).await;
        }
    }
}

impl Drop for Subscription {
    fn drop(&mut self) {
        self.host.unsubs.borrow_mut().push(Resupply::ID);
        self.host.rt.borrow_mut().as_mut().unwrap().drain(Resupply::ID);
    }
}

struct Yield(bool);

impl Future for Yield {
    type Output = ();
    fn poll(mut self: Pin<&mut Self>, _: &mut Context<'_>) -> Poll<()> {
        if self.0 {
            Poll::Ready(())
        } else {
            self.0 = true;
            Poll::Pending
        }
    }
}

#[test]
fn concurrency() {
    let host = Host::new();
    let apples = Rc::new(Cell::new(0u32));
    let bananas = Rc::new(Cell::new(0u32));
    let (a, b) = (apples.clone(), bananas.clone());

    let h = host.clone();
    host.start(async move {
        let s2 = a.clone();
        let h2 = h.clone();
        h.spawn(async move {
            for _ in 0..3 {
                s2.set(s2.get() + 1);
                h2.wait(150).await;
            }
        });
        for _ in 0..5 {
            b.set(b.get() + 1);
            h.wait(100).await;
        }
    });

    let mut concurrently = false;
    for _ in 0..1000 {
        if apples.get() > 0 && bananas.get() > 0 && apples.get() < 3 {
            concurrently = true;
        }
        if host.tick(50) == 0 {
            break;
        }
    }
    assert_eq!(apples.get(), 3);
    assert_eq!(bananas.get(), 5);
    assert!(concurrently, "tasks did not overlap in time");
}

#[test]
fn channel_round_trip() {
    let host = Host::new();
    let h = host.clone();
    host.start(async move {
        let mut resupply = Subscription::subscribe(&h);
        let got = resupply.recv().await;
        let shot = Shoot { target: got.rounds };
        h.emits.borrow_mut().push((Shoot::ID, shot.target.to_ne_bytes().to_vec()));
    });

    assert_eq!(host.tick(0), 1);
    assert_eq!(host.subs.borrow().clone(), vec![Resupply::ID]);

    let msg = Resupply { rounds: 42 };
    let bytes = msg.rounds.to_ne_bytes().to_vec();
    host.dispatch(Resupply::ID, bytes);

    assert_eq!(host.tick(0), 0);

    let emits = host.emits.borrow();
    assert_eq!(emits.len(), 1);
    assert_eq!(emits[0].0, Shoot::ID);
    let image = message_image(&emits[0].1, 4);
    assert_eq!(
        Shoot { target: u32::from_ne_bytes([image[0], image[1], image[2], image[3]]) },
        Shoot { target: 42 }
    );
    assert_eq!(host.unsubs.borrow().clone(), vec![Resupply::ID]);
}
