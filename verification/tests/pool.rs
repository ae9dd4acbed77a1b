use std::sync::Arc;
use std::time::Duration;

use embeddings_rs::pool::{Acquire, Fate, Lane, LanePool};
use tokio::sync::mpsc::{unbounded_channel, UnboundedReceiver, UnboundedSender};
use tokio::sync::{Mutex, Notify};

/// Cheap stand-in for a model session.
#[derive(Debug, PartialEq)]
struct DummyLane {
    id: usize,
}

fn dummies(n: usize) -> Vec<DummyLane> {
    (0..n).map(|id| DummyLane { id }).collect()
}

/// The pool, and the lanes that have come back since the last call to it.
struct Core {
    lanes: LanePool<DummyLane>,
    returned: UnboundedReceiver<Lane<DummyLane>>,
}

/// A pool shared between tasks, as the service shares it.
struct Shared {
    core: Mutex<Core>,
    give: UnboundedSender<Lane<DummyLane>>,
    freed: Notify,
    turn: Mutex<()>,
}

/// A lane that goes back to its pool when dropped.
struct Held {
    lane: Option<Lane<DummyLane>>,
    pool: Arc<Shared>,
}

impl Held {
    fn get_mut(&mut self) -> &mut DummyLane {
        self.lane.as_mut().unwrap().get_mut()
    }
}

impl Drop for Held {
    fn drop(&mut self) {
        if let Some(lane) = self.lane.take() {
            let _ = self.pool.give.send(lane);
            self.pool.freed.notify_one();
        }
    }
}

impl Shared {
    fn new(lanes: LanePool<DummyLane>) -> Arc<Shared> {
        let (give, returned) = unbounded_channel();
        Arc::new(Shared {
            core: Mutex::new(Core { lanes, returned }),
            give,
            freed: Notify::new(),
            turn: Mutex::new(()),
        })
    }

    async fn with<R>(&self, f: impl FnOnce(&mut LanePool<DummyLane>) -> R) -> R {
        let mut core = self.core.lock().await;
        while let Ok(lane) = core.returned.try_recv() {
            core.lanes.give_back(lane);
        }
        f(&mut core.lanes)
    }

    async fn acquire(self: &Arc<Self>) -> Option<Held> {
        let _turn = self.turn.lock().await;
        loop {
            let mut freed = Box::pin(self.freed.notified());
            freed.as_mut().enable();
            match self.with(|lanes| lanes.acquire()).await {
                Acquire::Exhausted => return None,
                Acquire::Ready(lane) => {
                    return Some(Held {
                        lane: Some(lane),
                        pool: self.clone(),
                    })
                }
                Acquire::Busy => freed.await,
            }
        }
    }

    async fn available_capacity(&self) -> usize {
        self.with(|lanes| lanes.available_capacity()).await
    }

    async fn lost(&self) -> usize {
        self.with(|lanes| lanes.lost()).await
    }
}

fn pool_of(n: usize) -> Arc<Shared> {
    Shared::new(LanePool::new(dummies(n)))
}

fn block_on<F: std::future::Future<Output = ()>>(test: F) {
    tokio::runtime::Builder::new_multi_thread()
        .worker_threads(2)
        .enable_time()
        .build()
        .unwrap()
        .block_on(test)
}

/// Can this pool still hand out `n` lanes, or has it starved? A starved pool waits
/// forever, so starvation is detected by a short timeout, and the lanes are held until
/// the count is taken.
async fn can_serve(pool: &Arc<Shared>, n: usize) -> bool {
    let mut held = Vec::new();
    for _ in 0..n {
        match tokio::time::timeout(Duration::from_millis(100), pool.acquire()).await {
            Ok(Some(lane)) => held.push(lane),
            _ => return false,
        }
    }
    true
}

/// Sleep within a blocking task.
fn blocking_sleep(millis: u64) {
    tokio::runtime::Handle::current().block_on(tokio::time::sleep(Duration::from_millis(millis)));
}

#[test]
fn success_returns_the_lane() {
    block_on(async {
        let pool = pool_of(2);
        {
            let mut lane = pool.acquire().await.expect("lane available");
            let _ = lane.get_mut();
        }
        assert_eq!(pool.available_capacity().await, 2);
        assert_eq!(pool.lost().await, 0);
        assert!(can_serve(&pool, 2).await, "both lanes re-acquirable");
    });
}

#[test]
fn panic_in_blocking_closure_returns_the_lane() {
    block_on(async {
        let pool = pool_of(2);
        let lane = pool.acquire().await.expect("lane available");

        let joined = tokio::task::spawn_blocking(move || {
            let mut lane = lane;
            let _ = lane.get_mut();
            panic!("onnx inference failed");
        })
        .await;

        assert!(joined.is_err(), "the blocking task must report its panic");
        assert_eq!(
            pool.available_capacity().await,
            2,
            "a panic must not shrink the pool"
        );
        assert_eq!(pool.lost().await, 0);
        assert!(
            can_serve(&pool, 2).await,
            "both lanes must still be servable after a panic"
        );
    });
}

#[test]
fn cancelled_caller_does_not_leak_a_lane() {
    block_on(async {
        let pool = pool_of(2);
        let work = {
            let pool = Arc::clone(&pool);
            async move {
                let lane = pool.acquire().await.expect("lane available");
                tokio::task::spawn_blocking(move || {
                    let mut lane = lane;
                    let _ = lane.get_mut();
                    blocking_sleep(300);
                })
                .await
                .expect("blocking task")
            }
        };

        // The client gives up long before the work finishes.
        let outcome = tokio::time::timeout(Duration::from_millis(50), work).await;
        assert!(outcome.is_err(), "the caller must have timed out");

        // Let the detached blocking task finish and drop its guard.
        tokio::time::sleep(Duration::from_millis(500)).await;

        assert_eq!(
            pool.available_capacity().await,
            2,
            "a cancelled caller must not shrink the pool"
        );
        assert_eq!(pool.lost().await, 0);
        assert!(
            can_serve(&pool, 2).await,
            "both lanes must still be servable after a cancelled caller"
        );
    });
}

#[test]
fn repeated_panics_never_exhaust_the_pool() {
    block_on(async {
        let pool = pool_of(2);
        for _ in 0..10 {
            let lane = pool.acquire().await.expect("lane available");
            let _ = tokio::task::spawn_blocking(move || {
                let _lane = lane;
                panic!("onnx inference failed");
            })
            .await;
        }
        assert_eq!(pool.available_capacity().await, 2);
        assert_eq!(pool.lost().await, 0);
        assert!(can_serve(&pool, 2).await, "pool still serves both lanes");
    });
}

#[test]
fn legacy_policy_loses_a_lane_on_panic() {
    block_on(async {
        let pool = Shared::new(LanePool::new_legacy(dummies(2)));
        for _ in 0..2 {
            let lane = pool.acquire().await.expect("lane available");
            let _ = tokio::task::spawn_blocking(move || {
                let _lane = lane;
                panic!("onnx inference failed");
            })
            .await;
        }
        assert!(
            !can_serve(&pool, 1).await,
            "legacy pool must be starved after 2 panics"
        );
    });
}

#[test]
fn legacy_policy_loses_a_lane_on_cancellation() {
    block_on(async {
        let pool = Shared::new(LanePool::new_legacy(dummies(2)));
        for _ in 0..2 {
            let pool2 = Arc::clone(&pool);
            let work = async move {
                let lane = pool2.acquire().await.expect("lane available");
                tokio::task::spawn_blocking(move || {
                    let _lane = lane;
                    blocking_sleep(300);
                })
                .await
                .expect("blocking task")
            };
            assert!(
                tokio::time::timeout(Duration::from_millis(50), work)
                    .await
                    .is_err(),
                "caller must have timed out"
            );
        }
        tokio::time::sleep(Duration::from_millis(600)).await;
        assert!(
            !can_serve(&pool, 1).await,
            "legacy pool must be starved after 2 cancellations, no panic required"
        );
    });
}

#[test]
fn reports_real_capacity() {
    let pool = LanePool::new(dummies(3));
    assert_eq!(pool.capacity(), 3);
    assert_eq!(pool.available_capacity(), 3);
    assert_eq!(pool.lost(), 0);
}

#[test]
fn waiting_request_gets_the_lane_that_comes_back() {
    block_on(async {
        let pool = pool_of(1);
        let first = pool.acquire().await.expect("lane available");
        let waiting = {
            let pool = Arc::clone(&pool);
            tokio::spawn(async move { pool.acquire().await.map(|mut lane| lane.get_mut().id) })
        };
        tokio::time::sleep(Duration::from_millis(50)).await;
        drop(first);
        assert_eq!(waiting.await.unwrap(), Some(0));
    });
}

#[test]
fn waiting_requests_are_served_first_come_first_served() {
    block_on(async {
        let pool = pool_of(1);
        let first = pool.acquire().await.expect("lane available");
        let order = Arc::new(Mutex::new(Vec::new()));
        let mut waiting = Vec::new();
        for n in 0..4 {
            let (pool, order) = (Arc::clone(&pool), Arc::clone(&order));
            waiting.push(tokio::spawn(async move {
                let _lane = pool.acquire().await.expect("lane available");
                order.lock().await.push(n);
            }));
            tokio::time::sleep(Duration::from_millis(20)).await;
        }
        drop(first);
        for task in waiting {
            task.await.unwrap();
        }
        assert_eq!(*order.lock().await, [0, 1, 2, 3]);
    });
}

#[test]
fn lanes_that_come_back_together_wake_every_waiting_request() {
    block_on(async {
        for _ in 0..200 {
            let pool = pool_of(2);
            let held = (pool.acquire().await, pool.acquire().await);
            let waiting: Vec<_> = (0..2)
                .map(|_| {
                    let pool = Arc::clone(&pool);
                    tokio::spawn(async move { pool.acquire().await })
                })
                .collect();
            tokio::spawn(async move { drop(held) });
            let mut granted = Vec::new();
            for task in waiting {
                let lane = tokio::time::timeout(Duration::from_secs(2), task).await;
                granted.push(lane.expect("a lane is idle").unwrap());
            }
            assert!(granted.iter().all(|lane| lane.is_some()));
        }
    });
}

fn ready(pool: &mut LanePool<DummyLane>) -> Lane<DummyLane> {
    match pool.acquire() {
        Acquire::Ready(lane) => lane,
        Acquire::Busy => panic!("every lane is in use"),
        Acquire::Exhausted => panic!("every lane is lost"),
    }
}

#[test]
fn lanes_come_out_in_order_and_go_back_to_the_end() {
    let mut pool = LanePool::new(dummies(3));
    let mut first = ready(&mut pool);
    assert_eq!(first.get_mut().id, 0);
    first.get_mut().id = 10;
    assert_eq!(pool.give_back(first), Fate::Returned);
    let mut ids = Vec::new();
    for _ in 0..3 {
        ids.push(ready(&mut pool).get_mut().id);
    }
    assert_eq!(ids, [1, 2, 10]);
    assert!(matches!(pool.acquire(), Acquire::Busy));
    assert_eq!(pool.available_capacity(), 3);
}

#[test]
fn new_pool_grants_each_item_once() {
    for mut pool in [LanePool::new(dummies(4)), LanePool::new_legacy(dummies(4))] {
        let mut held = Vec::new();
        for id in 0..4 {
            let mut lane = ready(&mut pool);
            assert_eq!(lane.get_mut().id, id);
            held.push(lane);
        }
        assert!(matches!(pool.acquire(), Acquire::Busy));
    }
}

#[test]
fn foreign_lane_in_a_full_pool_is_lost_and_counted() {
    let mut other = LanePool::new(dummies(2));
    let mut pool = LanePool::new(dummies(2));
    let stray = ready(&mut other);
    assert_eq!(pool.give_back(stray), Fate::Lost);
    assert_eq!((pool.lost(), pool.available_capacity()), (1, 1));
    let stray = ready(&mut other);
    assert_eq!(pool.give_back(stray), Fate::Lost);
    assert_eq!((pool.lost(), pool.available_capacity()), (2, 0));
    assert!(matches!(pool.acquire(), Acquire::Exhausted));
    assert_eq!(pool.capacity(), 2);
}

#[test]
fn legacy_pool_starves_unseen() {
    let mut pool = LanePool::new_legacy(dummies(1));
    let lane = ready(&mut pool);
    assert_eq!(pool.give_back(lane), Fate::Discarded);
    assert!(matches!(pool.acquire(), Acquire::Busy));
    assert_eq!((pool.lost(), pool.available_capacity()), (0, 1));
}
