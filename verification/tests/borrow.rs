//! Whole sessions: borrowers and lenders run as tasks, on a clock that only moves when every task
//! waits. Where the library says that the process must not go on, the session notes why.

use std::any::Any;
use std::cell::{Cell, RefCell};
use std::future::Future;
use std::pin::Pin;
use std::sync::atomic::{AtomicBool, Ordering};
use std::sync::Arc;
use std::task::{Context, Poll, Wake, Waker};

use borrow_mutex::{
    BorrowMutex, BorrowMutexAbort, BorrowMutexError, BorrowMutexGuardArmed,
    BorrowMutexGuardUnarmed, BorrowMutexLendGuard, BorrowMutexLender, BorrowMutexTerminate,
};
use futures::future::{select, Either};

struct Clock {
    now: Cell<u64>,
    timers: RefCell<Vec<(u64, Waker)>>,
}

impl Clock {
    fn new() -> Self {
        Clock {
            now: Cell::new(0),
            timers: RefCell::new(Vec::new()),
        }
    }

    fn delay(&self, millis: u64) -> Delay<'_> {
        Delay {
            clock: self,
            at: self.now.get() + millis,
        }
    }

    /// Moves on to the next timer.
    fn advance(&self) -> bool {
        let mut timers = self.timers.borrow_mut();
        let Some(next) = timers.iter().map(|(at, _)| *at).min() else {
            return false;
        };
        self.now.set(next);
        let (due, rest): (Vec<_>, Vec<_>) = timers.drain(..).partition(|(at, _)| *at <= next);
        *timers = rest;
        drop(timers);
        for (_, waker) in due {
            waker.wake();
        }
        true
    }
}

struct Delay<'c> {
    clock: &'c Clock,
    at: u64,
}

impl Future for Delay<'_> {
    type Output = ();
    fn poll(self: Pin<&mut Self>, cx: &mut Context<'_>) -> Poll<()> {
        if self.clock.now.get() >= self.at {
            return Poll::Ready(());
        }
        self.clock
            .timers
            .borrow_mut()
            .push((self.at, cx.waker().clone()));
        Poll::Pending
    }
}

struct Flag(AtomicBool);

impl Wake for Flag {
    fn wake(self: Arc<Self>) {
        self.0.store(true, Ordering::SeqCst);
    }
}

type Task<'t> = Pin<Box<dyn Future<Output = ()> + 't>>;

/// Runs the tasks until all of `tasks` are over; `background` need not end. A task is polled only
/// when it was woken.
fn run<'t>(clock: &Clock, tasks: Vec<Task<'t>>, background: Vec<Task<'t>>) {
    let mut pending = tasks.len();
    let foreground = tasks.len();
    let mut tasks: Vec<Option<Task<'t>>> = tasks.into_iter().chain(background).map(Some).collect();
    let flags: Vec<Arc<Flag>> = tasks
        .iter()
        .map(|_| Arc::new(Flag(AtomicBool::new(true))))
        .collect();
    while pending > 0 {
        let mut progress = false;
        for (n, slot) in tasks.iter_mut().enumerate() {
            if !flags[n].0.swap(false, Ordering::SeqCst) {
                continue;
            }
            let Some(task) = slot else { continue };
            progress = true;
            let waker = Waker::from(flags[n].clone());
            if task.as_mut().poll(&mut Context::from_waker(&waker)).is_ready() {
                *slot = None;
                if n < foreground {
                    pending -= 1;
                }
            }
        }
        if !progress && pending > 0 {
            assert!(clock.advance(), "every task waits, and nothing will wake one");
        }
    }
}

struct Session<'a, T: ?Sized> {
    mutex: RefCell<BorrowMutex<16, &'a RefCell<T>>>,
    aborts: RefCell<Vec<BorrowMutexAbort>>,
}

impl<'a, T: ?Sized> Session<'a, T> {
    fn new() -> Self {
        Session {
            mutex: RefCell::new(BorrowMutex::new()),
            aborts: RefCell::new(Vec::new()),
        }
    }

    fn try_borrow(&self) -> Borrow<'_, 'a, T> {
        let guard = self.mutex.borrow().try_borrow();
        Borrow {
            session: self,
            guard: Some(guard),
        }
    }

    fn wait_to_lend(&self) -> WaitToLend<'_, 'a, T> {
        let lender = self.mutex.borrow().wait_to_lend();
        WaitToLend {
            session: self,
            lender,
        }
    }

    fn lend(&self, value: &'a RefCell<T>) -> Option<Lend<'_, 'a, T>> {
        match self.mutex.borrow_mut().lend(value) {
            Ok(guard) => guard.map(|guard| Lend {
                session: self,
                guard: Some(guard),
            }),
            Err(abort) => {
                self.aborts.borrow_mut().push(abort);
                None
            }
        }
    }

    fn terminate(&self) -> Terminate<'_, 'a, T> {
        let termination = self.mutex.borrow().terminate();
        Terminate {
            session: self,
            termination: Some(termination),
        }
    }

    fn aborts(&self) -> Vec<BorrowMutexAbort> {
        self.aborts.borrow().clone()
    }
}

struct Borrow<'s, 'a, T: ?Sized> {
    session: &'s Session<'a, T>,
    guard: Option<BorrowMutexGuardUnarmed>,
}

impl<'s, 'a, T: ?Sized> Future for Borrow<'s, 'a, T> {
    type Output = Result<Armed<'s, 'a, T>, BorrowMutexError>;
    fn poll(self: Pin<&mut Self>, cx: &mut Context<'_>) -> Poll<Self::Output> {
        let this = self.get_mut();
        let session = this.session;
        let guard = this.guard.as_mut().unwrap();
        guard
            .poll(&mut session.mutex.borrow_mut(), cx.waker())
            .map_ok(|guard| Armed {
                session,
                guard: Some(guard),
            })
    }
}

impl<T: ?Sized> Drop for Borrow<'_, '_, T> {
    fn drop(&mut self) {
        let guard = self.guard.take().unwrap();
        guard.drop(&mut self.session.mutex.borrow_mut());
    }
}

struct Armed<'s, 'a, T: ?Sized> {
    session: &'s Session<'a, T>,
    guard: Option<BorrowMutexGuardArmed<&'a RefCell<T>>>,
}

impl<'a, T: ?Sized> Armed<'_, 'a, T> {
    fn value(&self) -> &'a RefCell<T> {
        self.guard.as_ref().unwrap().get()
    }
}

impl<T: ?Sized> Drop for Armed<'_, '_, T> {
    fn drop(&mut self) {
        let guard = self.guard.take().unwrap();
        guard.drop(&mut self.session.mutex.borrow_mut());
    }
}

struct WaitToLend<'s, 'a, T: ?Sized> {
    session: &'s Session<'a, T>,
    lender: BorrowMutexLender,
}

impl<T: ?Sized> Future for WaitToLend<'_, '_, T> {
    type Output = ();
    fn poll(self: Pin<&mut Self>, cx: &mut Context<'_>) -> Poll<()> {
        let this = self.get_mut();
        this.lender
            .poll(&mut this.session.mutex.borrow_mut(), cx.waker())
    }
}

struct Lend<'s, 'a, T: ?Sized> {
    session: &'s Session<'a, T>,
    guard: Option<BorrowMutexLendGuard>,
}

impl<T: ?Sized> Future for Lend<'_, '_, T> {
    type Output = ();
    fn poll(self: Pin<&mut Self>, cx: &mut Context<'_>) -> Poll<()> {
        let this = self.get_mut();
        let guard = this.guard.as_mut().unwrap();
        guard.poll(&mut this.session.mutex.borrow_mut(), cx.waker())
    }
}

impl<T: ?Sized> Drop for Lend<'_, '_, T> {
    fn drop(&mut self) {
        let guard = self.guard.take().unwrap();
        if let Err(abort) = guard.drop(&mut self.session.mutex.borrow_mut()) {
            self.session.aborts.borrow_mut().push(abort);
        }
    }
}

struct Terminate<'s, 'a, T: ?Sized> {
    session: &'s Session<'a, T>,
    termination: Option<BorrowMutexTerminate>,
}

impl<T: ?Sized> Future for Terminate<'_, '_, T> {
    type Output = Result<(), BorrowMutexAbort>;
    fn poll(self: Pin<&mut Self>, cx: &mut Context<'_>) -> Poll<Self::Output> {
        let this = self.get_mut();
        let termination = this.termination.as_mut().unwrap();
        termination.poll(&mut this.session.mutex.borrow_mut(), cx.waker())
    }
}

impl<T: ?Sized> Drop for Terminate<'_, '_, T> {
    fn drop(&mut self) {
        let termination = self.termination.take().unwrap();
        if let Err(abort) = termination.drop(&mut self.session.mutex.borrow_mut()) {
            self.session.aborts.borrow_mut().push(abort);
        }
    }
}

#[derive(Debug)]
struct TestObject {
    counter: usize,
}

#[derive(Debug)]
struct AnotherTestObject {
    is_even: bool,
    another_counter: usize,
}

/// Sleeps, or lends where someone asks for it in the meantime, until the counter is at 20.
async fn count_and_lend<'a>(
    clock: &Clock,
    mutex: &Session<'a, TestObject>,
    test: &'a RefCell<TestObject>,
    millis: u64,
) {
    loop {
        if test.borrow().counter >= 20 {
            break;
        }
        let event = select(Box::pin(clock.delay(millis)), Box::pin(mutex.wait_to_lend())).await;
        match event {
            Either::Left(_) => {
                let mut test = test.borrow_mut();
                if test.counter < 10 {
                    test.counter += 1;
                }
                println!("t1: counter: {}", test.counter);
            }
            Either::Right(_) => mutex.lend(test).unwrap().await,
        }
    }
    mutex.terminate().await.unwrap();
}

/// Borrows again and again until the mutex is terminated.
async fn borrow_and_count(
    clock: &Clock,
    mutex: &Session<'_, TestObject>,
    n: usize,
    millis: u64,
) -> usize {
    let mut count = 0;
    loop {
        match mutex.try_borrow().await {
            Ok(guard) => {
                let value = guard.value();
                value.borrow_mut().counter += 1;
                println!("t{n}: counter: {}", value.borrow().counter);
                count += 1;
                drop(guard);
                clock.delay(millis).await;
            }
            Err(error) => {
                assert_eq!(error, BorrowMutexError::Terminated);
                return count;
            }
        }
    }
}

#[test]
fn borrow_basic_single_thread() {
    let clock = Clock::new();
    let test = RefCell::new(TestObject { counter: 1 });
    let mutex = Session::<TestObject>::new();

    let t1 = async {
        count_and_lend(&clock, &mutex, &test, 200).await;
    };
    let t2 = async {
        borrow_and_count(&clock, &mutex, 2, 100).await;
    };
    run(&clock, vec![Box::pin(t1), Box::pin(t2)], vec![]);

    assert_eq!(test.borrow().counter, 20);
    assert!(mutex.aborts().is_empty());
}

#[test]
fn borrow_basic_double_thread() {
    let clock = Clock::new();
    let test = RefCell::new(TestObject { counter: 1 });
    let mutex = Session::<TestObject>::new();

    let t1 = async {
        count_and_lend(&clock, &mutex, &test, 100).await;
    };
    let t2 = async {
        borrow_and_count(&clock, &mutex, 2, 200).await;
    };
    run(&clock, vec![Box::pin(t1), Box::pin(t2)], vec![]);

    assert_eq!(test.borrow().counter, 20);
    assert!(mutex.aborts().is_empty());
}

#[test]
fn borrow_basic_multi_borrow() {
    let clock = Clock::new();
    let test = RefCell::new(TestObject { counter: 1 });
    let mutex = Session::<TestObject>::new();

    let t1 = async {
        count_and_lend(&clock, &mutex, &test, 100).await;
    };
    let t = async {
        // one after the other: the mutex is terminated when the first is done
        for n in 0..3 {
            let n = n + 3;
            let count = borrow_and_count(&clock, &mutex, n, 50).await;
            assert_eq!(count > 0, n == 3);
        }
    };
    run(&clock, vec![Box::pin(t1), Box::pin(t)], vec![]);

    assert_eq!(test.borrow().counter, 20);
    assert!(mutex.aborts().is_empty());
}

#[test]
fn borrowers_at_once_share_the_work() {
    let clock = Clock::new();
    let test = RefCell::new(TestObject { counter: 1 });
    let mutex = Session::<TestObject>::new();
    let counts = RefCell::new(Vec::new());

    let t1 = async {
        count_and_lend(&clock, &mutex, &test, 100).await;
    };
    let mut tasks: Vec<Task<'_>> = vec![Box::pin(t1)];
    for n in 0..3 {
        let (clock, mutex, counts) = (&clock, &mutex, &counts);
        tasks.push(Box::pin(async move {
            let count = borrow_and_count(clock, mutex, n, 50).await;
            counts.borrow_mut().push(count);
        }));
    }
    run(&clock, tasks, vec![]);

    assert_eq!(test.borrow().counter, 20);
    let counts = counts.borrow();
    assert_eq!(counts.len(), 3);
    assert!(counts.iter().all(|count| *count > 0));
    assert!(mutex.aborts().is_empty());
}

/// Lends one object until its counter is at 20, and counts up to 10 in between.
async fn lend_dyn<'a>(
    clock: &Clock,
    mutex: &Session<'a, dyn Any>,
    value: &'a RefCell<dyn Any>,
    done: impl Fn() -> bool,
    tick: impl Fn(),
) {
    loop {
        if done() {
            break;
        }
        let event = select(Box::pin(clock.delay(100)), Box::pin(mutex.wait_to_lend())).await;
        match event {
            Either::Left(_) => tick(),
            Either::Right(_) => mutex.lend(value).unwrap().await,
        }
    }
}

async fn borrow_dyn(clock: &Clock, mutex: &Session<'_, dyn Any>, n: usize) {
    while let Ok(guard) = mutex.try_borrow().await {
        {
            let mut any = guard.value().borrow_mut();
            if let Some(test) = any.downcast_mut::<TestObject>() {
                test.counter += 1;
                println!("t{n}: counter: {}", test.counter);
            } else if let Some(test) = any.downcast_mut::<AnotherTestObject>() {
                test.another_counter += 1;
                test.is_even = !test.is_even;
                println!("t{n}: another_counter: {}", test.another_counter);
                assert_eq!(test.is_even, test.another_counter % 2 == 0);
            }
        }
        drop(guard);
        clock.delay(200).await;
    }
}

fn borrow_dyn_session(borrowers: usize) {
    let clock = Clock::new();
    let one = RefCell::new(TestObject { counter: 1 });
    let two = RefCell::new(AnotherTestObject {
        is_even: false,
        another_counter: 1,
    });
    let mutex = Session::<dyn Any>::new();

    let lender = async {
        let tick = || {
            let mut test = one.borrow_mut();
            if test.counter < 10 {
                test.counter += 1;
            }
            println!("t1: counter: {}", test.counter);
        };
        lend_dyn(&clock, &mutex, &one, || one.borrow().counter >= 20, tick).await;

        let tick = || {
            let mut test = two.borrow_mut();
            if test.another_counter < 10 {
                test.another_counter += 1;
                test.is_even = !test.is_even;
            }
            println!("t2: another_counter: {}", test.another_counter);
            assert_eq!(test.is_even, test.another_counter % 2 == 0);
        };
        let done = || two.borrow().another_counter >= 20;
        lend_dyn(&clock, &mutex, &two, done, tick).await;
        mutex.terminate().await.unwrap();
    };
    let mut tasks: Vec<Task<'_>> = Vec::new();
    for n in 0..borrowers {
        tasks.push(Box::pin(borrow_dyn(&clock, &mutex, n + 3)));
    }
    tasks.push(Box::pin(lender));
    run(&clock, tasks, vec![]);

    assert_eq!(one.borrow().counter, 20);
    assert_eq!(two.borrow().another_counter, 20);
    assert!(two.borrow().is_even);
    assert!(mutex.aborts().is_empty());
}

#[test]
fn borrow_dyn_single_thread() {
    borrow_dyn_session(1);
}

#[test]
fn borrow_dyn_multi_thread_multi_borrow() {
    borrow_dyn_session(3);
}

async fn start_lending<'a>(mutex: &Session<'a, TestObject>, test: &'a RefCell<TestObject>) {
    loop {
        mutex.wait_to_lend().await;
        mutex.lend(test).unwrap().await;
    }
}

/// Whether a borrow comes about within 300 ms.
async fn borrows_in_time(clock: &Clock, mutex: &Session<'_, TestObject>) -> bool {
    match select(Box::pin(clock.delay(300)), Box::pin(mutex.try_borrow())).await {
        Either::Left(_) => false,
        Either::Right((result, _)) => result.is_ok(),
    }
}

#[test]
fn borrow_basic_immediate_drop() {
    let clock = Clock::new();
    let test = RefCell::new(TestObject { counter: 1 });
    let obj = RefCell::new(TestObject { counter: 1 });
    let mutex = Session::<TestObject>::new();

    {
        let mut normal_borrow = Box::pin(mutex.try_borrow());
        let polled = normal_borrow
            .as_mut()
            .poll(&mut Context::from_waker(&futures::task::noop_waker()));
        assert!(polled.is_pending());
        let immediate_lend_drop = mutex.lend(&obj).unwrap();
        drop(immediate_lend_drop);
        assert!(mutex.aborts().is_empty());
    }

    let t2 = async {
        clock.delay(300).await;
        assert!(borrows_in_time(&clock, &mutex).await);
        println!("normal_borrow ok");

        let immediate_drop = mutex.try_borrow();
        drop(immediate_drop);
        println!("immediate_drop ok");

        let normal_drop = mutex.try_borrow().await;
        assert!(normal_drop.is_ok());
        drop(normal_drop);
        println!("normal_drop ok");

        let normal_borrow = mutex.try_borrow().await;
        assert!(normal_borrow.is_ok());
        assert!(!borrows_in_time(&clock, &mutex).await);
        drop(normal_borrow);
        println!("forever_pending_borrow ok");

        assert!(borrows_in_time(&clock, &mutex).await);
        println!("another_normal_borrow ok");
    };
    run(
        &clock,
        vec![Box::pin(t2)],
        vec![Box::pin(start_lending(&mutex, &test))],
    );
    assert!(mutex.aborts().is_empty());
}

#[test]
fn borrow_basic_double_lend() {
    let clock = Clock::new();
    let test = RefCell::new(TestObject { counter: 1 });
    let other = RefCell::new(TestObject { counter: 1 });
    let mutex = Session::<TestObject>::new();

    let t2 = async {
        clock.delay(300).await;
        assert!(mutex.lend(&other).is_none());
    };
    let t3 = async {
        clock.delay(300).await;
        assert!(borrows_in_time(&clock, &mutex).await);
        println!("normal_borrow ok");
        assert!(borrows_in_time(&clock, &mutex).await);
        println!("another_borrow ok");
    };
    run(
        &clock,
        vec![Box::pin(t2), Box::pin(t3)],
        vec![Box::pin(start_lending(&mutex, &test))],
    );
    assert!(mutex.aborts().is_empty());
}

/// A lender that was polled and drops its guard before the borrow is over ends the process.
#[test]
fn lend_guard_drop_ends_the_process() {
    let clock = Clock::new();
    let test = RefCell::new(TestObject { counter: 1 });
    let mutex = Session::<TestObject>::new();

    let t1 = async {
        mutex.wait_to_lend().await;
        let mut lend = Box::pin(mutex.lend(&test).unwrap());
        let polled = lend
            .as_mut()
            .poll(&mut Context::from_waker(&futures::task::noop_waker()));
        assert_eq!(polled, Poll::Pending);
    };
    let t2 = async {
        clock.delay(100).await;
        if let Ok(test) = mutex.try_borrow().await {
            test.value().borrow_mut().counter += 1;
        }
    };
    run(&clock, vec![Box::pin(t1), Box::pin(t2)], vec![]);
    assert_eq!(mutex.aborts(), vec![BorrowMutexAbort::LendGuardDropped]);
}

/// Requests are served in the order in which they were first polled.
#[test]
fn borrowers_are_served_in_order() {
    let clock = Clock::new();
    let test = RefCell::new(TestObject { counter: 1 });
    let mutex = Session::<TestObject>::new();
    let order = RefCell::new(Vec::new());

    let mut tasks: Vec<Task<'_>> = Vec::new();
    for n in [4u64, 0, 3, 1, 2] {
        let (clock, mutex, order) = (&clock, &mutex, &order);
        tasks.push(Box::pin(async move {
            clock.delay(10 * n).await;
            let guard = mutex.try_borrow().await;
            assert!(guard.is_ok());
            order.borrow_mut().push(n);
            clock.delay(1000).await;
            drop(guard);
        }));
    }
    run(
        &clock,
        tasks,
        vec![Box::pin(start_lending(&mutex, &test))],
    );
    assert_eq!(*order.borrow(), vec![0, 1, 2, 3, 4]);
}

/// A pending request is told of the termination, which ends once the request is dropped.
#[test]
fn termination_tells_pending_requests() {
    let clock = Clock::new();
    let mutex = Session::<TestObject>::new();
    let ended = Cell::new(0);

    let t1 = async {
        clock.delay(100).await;
        mutex.terminate().await.unwrap();
        ended.set(clock.now.get());
    };
    let mut tasks: Vec<Task<'_>> = vec![Box::pin(t1)];
    for n in 1..=3u64 {
        let (clock, mutex) = (&clock, &mutex);
        tasks.push(Box::pin(async move {
            let mut request = mutex.try_borrow();
            let error = (&mut request).await.err();
            assert_eq!(error, Some(BorrowMutexError::Terminated));
            clock.delay(100 * n).await;
        }));
    }
    run(&clock, tasks, vec![]);
    // the requests are told one after the other, each when the one before it is gone
    assert_eq!(ended.get(), 700);
    assert!(mutex.aborts().is_empty());
}
