//! A pool of N interchangeable lanes, where holding the lane is holding the right
//! to use it, so the two can never drift apart.
//!
//! Idle lanes wait in a bounded channel. Taking one out of it is acquiring it, and
//! putting it back is releasing it: there is no second counter to keep in step. The
//! holder of a [`Lane`] hands it to [`LanePool::give_back`] however its work ended,
//! so a lane survives success, panic and cancellation alike.

use crate::queue::LaneQueue;
use vstd::prelude::*;

verus! {

/// What a pool holds, as a mathematical value.
pub struct PoolState<T> {
    /// Lanes waiting to be handed out, the next one first.
    pub idle: Seq<T>,
    /// Lanes the pool was built with.
    pub capacity: usize,
    /// Lanes that could not be put back.
    pub lost: usize,
    /// Whether a lane that is given back returns to the pool.
    pub return_on_drop: bool,
}

/// What a request for a lane is answered, over the lane's value.
pub enum Answer<T> {
    Exhausted,
    Busy,
    Ready(T),
}

impl<T> PoolState<T> {
    /// A pool just built from `items`: all of them idle, in the order given.
    pub open spec fn fresh(items: Seq<T>, return_on_drop: bool) -> PoolState<T> {
        PoolState { idle: items, capacity: items.len() as usize, lost: 0, return_on_drop }
    }

    /// There is a lane at all, and the idle ones fit in the pool.
    pub open spec fn valid(self) -> bool {
        0 < self.capacity && self.idle.len() <= self.capacity
    }

    /// Lanes that can still ever serve a request, busy ones included.
    pub open spec fn available(self) -> int {
        if self.lost >= self.capacity {
            0
        } else {
            self.capacity - self.lost
        }
    }

    /// The answer to a request for a lane.
    pub open spec fn answer(self) -> Answer<T> {
        if self.available() == 0 {
            Answer::Exhausted
        } else if self.idle.len() == 0 {
            Answer::Busy
        } else {
            Answer::Ready(self.idle[0])
        }
    }

    /// The pool once that request has been answered.
    pub open spec fn after_acquire(self) -> PoolState<T> {
        if self.answer() is Ready {
            PoolState { idle: self.idle.drop_first(), ..self }
        } else {
            self
        }
    }

    /// What becomes of a lane that is given back.
    pub open spec fn fate(self) -> Fate {
        if !self.return_on_drop {
            Fate::Discarded
        } else if self.idle.len() < self.capacity {
            Fate::Returned
        } else {
            Fate::Lost
        }
    }

    /// The pool once `item` has been given back.
    pub open spec fn after_give_back(self, item: T) -> PoolState<T> {
        match self.fate() {
            Fate::Discarded => self,
            Fate::Returned => PoolState { idle: self.idle.push(item), ..self },
            Fate::Lost => PoolState {
                lost: if self.lost == usize::MAX {
                    0
                } else {
                    (self.lost + 1) as usize
                },
                ..self
            },
        }
    }
}

/// What became of a lane that was given back.
#[derive(Clone, Copy, Debug, PartialEq, Eq, Structural)]
pub enum Fate {
    /// It is idle again.
    Returned,
    /// The pool does not take lanes back: see [`LanePool::new_legacy`].
    Discarded,
    /// The pool was already full. Capacity is permanently reduced, which is worth
    /// an alert.
    Lost,
}

/// A lane in use. One that is merely dropped never returns to its pool: whoever holds
/// it hands it to [`LanePool::give_back`].
#[must_use]
pub struct Lane<T> {
    item: T,
}

impl<T> Lane<T> {
    /// The pooled value.
    pub closed spec fn item(self) -> T {
        self.item
    }

    /// The pooled value.
    pub fn get_mut(&mut self) -> (item: &mut T)
        ensures
            *item == old(self).item(),
            final(self).item() == *final(item),
    {
        &mut self.item
    }
}

/// The answer to a request for a lane.
#[must_use]
pub enum Acquire<T> {
    /// Every lane has been permanently lost: waiting can never succeed.
    Exhausted,
    /// Every lane is in use. Ask again once one has been given back.
    Busy,
    /// The lane, out of the pool until it is given back.
    Ready(Lane<T>),
}

impl<T> Acquire<T> {
    /// The answer, over the lane's value.
    pub open spec fn answer(self) -> Answer<T> {
        match self {
            Acquire::Exhausted => Answer::Exhausted,
            Acquire::Busy => Answer::Busy,
            Acquire::Ready(lane) => Answer::Ready(lane.item()),
        }
    }
}

/// A fixed set of lanes, handed out one at a time.
#[verifier::reject_recursive_types(T)]
pub struct LanePool<T> {
    queue: LaneQueue<T>,
    capacity: usize,
    lost: usize,
    return_on_drop: bool,
}

impl<T> View for LanePool<T> {
    type V = PoolState<T>;

    closed spec fn view(&self) -> PoolState<T> {
        PoolState {
            idle: self.queue.items(),
            capacity: self.capacity,
            lost: self.lost,
            return_on_drop: self.return_on_drop,
        }
    }
}

impl<T> LanePool<T> {
    /// The channel was made for exactly the lanes that exist.
    #[verifier::type_invariant]
    spec fn channel_fits_the_lanes(self) -> bool {
        &&& self@.valid()
        &&& self.queue.bound() == self.capacity
    }

    /// Build a pool from the lanes it will hand out. A pool without lanes could never
    /// serve a request, and a channel cannot be made for more than an eighth of the
    /// address space.
    pub fn new(items: Vec<T>) -> (pool: LanePool<T>)
        requires
            0 < items.len() <= usize::MAX / 8,
        ensures
            pool@ == PoolState::fresh(items@, true),
            pool@.valid(),
    {
        Self::build(items, true)
    }

    /// A pool that never takes a lane back. It shows the defect that returning lanes
    /// by hand had: every lane that leaves the pool is gone, and no count tells.
    pub fn new_legacy(items: Vec<T>) -> (pool: LanePool<T>)
        requires
            0 < items.len() <= usize::MAX / 8,
        ensures
            pool@ == PoolState::fresh(items@, false),
            pool@.valid(),
    {
        Self::build(items, false)
    }

    fn build(items: Vec<T>, return_on_drop: bool) -> (pool: LanePool<T>)
        requires
            0 < items.len() <= usize::MAX / 8,
        ensures
            pool@ == PoolState::fresh(items@, return_on_drop),
            pool@.valid(),
    {
        let capacity: usize = items.len();
        let mut queue: LaneQueue<T> = LaneQueue::open(capacity);
        for item in sent: items
            invariant
                queue.bound() == capacity,
                sent.seq() == items@,
                items.len() == capacity,
                queue.items() == items@.take(sent.index() as int),
        {
            // Cannot fail: the channel was sized to exactly this many items.
            let _ = queue.put(item);
        }
        assert(items@.take(capacity as int) =~= items@);
        LanePool { queue, capacity, lost: 0, return_on_drop }
    }

    /// Lanes the pool was built with.
    pub fn capacity(&self) -> (capacity: usize)
        ensures
            capacity == self@.capacity,
            self@.valid(),
    {
        proof {
            use_type_invariant(self);
        }
        self.capacity
    }

    /// Lanes permanently lost. Should always be 0; anything else means that a lane
    /// was given back to a full pool.
    pub fn lost(&self) -> (lost: usize)
        ensures
            lost == self@.lost,
    {
        self.lost
    }

    /// Lanes that can still ever serve a request (busy ones included).
    pub fn available_capacity(&self) -> (available: usize)
        ensures
            available == self@.available(),
    {
        self.capacity.saturating_sub(self.lost())
    }

    /// Take the lane that has been idle longest.
    ///
    /// `Exhausted` only when every lane has been permanently lost: the honest "this
    /// can never succeed", so that the caller can refuse instead of waiting forever
    /// on a queue that will never move. A request that is not answered with a lane
    /// leaves the pool as it was, so giving up while waiting costs nothing.
    pub fn acquire(&mut self) -> (answer: Acquire<T>)
        ensures
            answer.answer() == old(self)@.answer(),
            final(self)@ == old(self)@.after_acquire(),
            final(self)@.valid(),
    {
        proof {
            use_type_invariant(&*self);
        }
        if self.available_capacity() == 0 {
            return Acquire::Exhausted;
        }
        match self.queue.take() {
            Some(item) => Acquire::Ready(Lane { item }),
            None => Acquire::Busy,
        }
    }

    /// Put a lane back, or account for it. Runs while the holder may be unwinding, so
    /// it never unwinds itself.
    pub fn give_back(&mut self, lane: Lane<T>) -> (fate: Fate)
        ensures
            fate == old(self)@.fate(),
            final(self)@ == old(self)@.after_give_back(lane.item()),
            final(self)@.valid(),
        no_unwind
    {
        proof {
            use_type_invariant(&*self);
        }
        if !self.return_on_drop {
            return Fate::Discarded;
        }
        match self.queue.put(lane.item) {
            Ok(()) => Fate::Returned,
            Err(_) => {
                // The channel's capacity equals the lane count, so this needs a lane
                // of another pool. It is counted rather than asserted away.
                self.lost = if self.lost == usize::MAX {
                    0
                } else {
                    self.lost + 1
                };
                Fate::Lost
            },
        }
    }
}

/// A pool and the lanes that are out of it.
pub struct Traffic<T> {
    pub pool: PoolState<T>,
    pub held: Seq<T>,
}

/// One thing that can happen to a pool and its lanes. Whatever order the requests of
/// several tasks come in, the pool sees them one after another.
pub enum Event<T> {
    /// A request for a lane; a lane that is granted is held from then on.
    Request,
    /// The holder of the lane at this place changes its value.
    Use(int, T),
    /// The holder of the lane at this place is done, in whatever way.
    Done(int),
}

impl<T> Traffic<T> {
    pub open spec fn start(items: Seq<T>, return_on_drop: bool) -> Traffic<T> {
        Traffic { pool: PoolState::fresh(items, return_on_drop), held: Seq::empty() }
    }

    /// Only lanes that are held are used or given back.
    pub open spec fn possible(self, event: Event<T>) -> bool {
        match event {
            Event::Request => true,
            Event::Use(i, _) => 0 <= i < self.held.len(),
            Event::Done(i) => 0 <= i < self.held.len(),
        }
    }

    pub open spec fn after(self, event: Event<T>) -> Traffic<T> {
        match event {
            Event::Request => Traffic {
                pool: self.pool.after_acquire(),
                held: match self.pool.answer() {
                    Answer::Ready(item) => self.held.push(item),
                    _ => self.held,
                },
            },
            Event::Use(i, item) => Traffic { held: self.held.update(i, item), ..self },
            Event::Done(i) => Traffic {
                pool: self.pool.after_give_back(self.held[i]),
                held: self.held.remove(i),
            },
        }
    }

    /// The events can happen one after another, and lead to `end`.
    pub open spec fn leads_to(self, events: Seq<Event<T>>, end: Traffic<T>) -> bool
        decreases events.len(),
    {
        if events.len() == 0 {
            self == end
        } else {
            self.possible(events[0]) && self.after(events[0]).leads_to(events.drop_first(), end)
        }
    }

    /// Every lane is either idle or held, and none has been lost.
    pub open spec fn accounted(self) -> bool {
        &&& self.pool.valid()
        &&& self.pool.return_on_drop
        &&& self.pool.lost == 0
        &&& self.pool.idle.len() + self.held.len() == self.pool.capacity
    }
}

proof fn lemma_accounted_is_kept<T>(from: Traffic<T>, events: Seq<Event<T>>, end: Traffic<T>)
    requires
        from.accounted(),
        from.leads_to(events, end),
    ensures
        end.accounted(),
        end.pool.capacity == from.pool.capacity,
    decreases events.len(),
{
    if events.len() > 0 {
        lemma_accounted_is_kept(from.after(events[0]), events.drop_first(), end);
    }
}

/// No lane ever leaks. Whatever the requests, and however their holders end, the idle
/// lanes and the held ones are together the lanes the pool was built with, nothing is
/// lost, and the pool reports its full capacity.
pub proof fn law_no_lane_leaks<T>(items: Seq<T>, events: Seq<Event<T>>, end: Traffic<T>)
    requires
        0 < items.len() <= usize::MAX,
        Traffic::start(items, true).leads_to(events, end),
    ensures
        end.pool.capacity == items.len(),
        end.pool.idle.len() + end.held.len() == items.len(),
        end.pool.lost == 0,
        end.pool.available() == items.len(),
{
    lemma_accounted_is_kept(Traffic::start(items, true), events, end);
}

/// A lane that is given back always finds room: the branch that loses one is never
/// reached by the pool's own lanes.
pub proof fn law_own_lane_always_returns<T>(
    items: Seq<T>,
    events: Seq<Event<T>>,
    end: Traffic<T>,
    i: int,
)
    requires
        0 < items.len() <= usize::MAX,
        Traffic::start(items, true).leads_to(events, end),
        0 <= i < end.held.len(),
    ensures
        end.pool.fate() == Fate::Returned,
        end.after(Event::Done(i)).pool.idle == end.pool.idle.push(end.held[i]),
{
    lemma_accounted_is_kept(Traffic::start(items, true), events, end);
}

/// A pool is never exhausted by its own use, and starves no one while a lane is free:
/// a request is granted exactly when fewer lanes are held than exist.
pub proof fn law_request_is_granted_while_a_lane_is_free<T>(
    items: Seq<T>,
    events: Seq<Event<T>>,
    end: Traffic<T>,
)
    requires
        0 < items.len() <= usize::MAX,
        Traffic::start(items, true).leads_to(events, end),
    ensures
        !(end.pool.answer() is Exhausted),
        end.pool.answer() is Ready <==> end.held.len() < items.len(),
{
    lemma_accounted_is_kept(Traffic::start(items, true), events, end);
}

/// The lanes themselves are conserved: as long as no holder changes a lane's value,
/// the idle and the held lanes are exactly those the pool was built with. None is
/// duplicated and none is made up.
pub proof fn law_lanes_are_conserved<T>(items: Seq<T>, events: Seq<Event<T>>, end: Traffic<T>)
    requires
        0 < items.len() <= usize::MAX,
        Traffic::start(items, true).leads_to(events, end),
        forall|i: int| 0 <= i < events.len() ==> !((#[trigger] events[i]) is Use),
    ensures
        end.pool.idle.to_multiset().add(end.held.to_multiset()) == items.to_multiset(),
{
    let from = Traffic::start(items, true);
    lemma_multiset_is_kept(from, events, end);
    assert(from.pool.idle.to_multiset().add(from.held.to_multiset()) =~= items.to_multiset()) by {
        from.held.to_multiset_ensures();
    }
}

proof fn lemma_multiset_is_kept<T>(from: Traffic<T>, events: Seq<Event<T>>, end: Traffic<T>)
    requires
        from.accounted(),
        from.leads_to(events, end),
        forall|i: int| 0 <= i < events.len() ==> !((#[trigger] events[i]) is Use),
    ensures
        end.pool.idle.to_multiset().add(end.held.to_multiset())
            == from.pool.idle.to_multiset().add(from.held.to_multiset()),
    decreases events.len(),
{
    broadcast use vstd::seq_lib::group_to_multiset_ensures;

    if events.len() > 0 {
        let next = from.after(events[0]);
        let rest = events.drop_first();
        assert forall|i: int| 0 <= i < rest.len() implies !((#[trigger] rest[i]) is Use) by {
            assert(rest[i] == events[i + 1]);
        }
        assert(next.accounted());
        lemma_multiset_is_kept(next, rest, end);
        assert(next.pool.idle.to_multiset().add(next.held.to_multiset())
            =~= from.pool.idle.to_multiset().add(from.held.to_multiset())) by {
            match events[0] {
                Event::Request => {
                    if from.pool.answer() is Ready {
                        let idle = from.pool.idle;
                        assert(idle.drop_first() =~= idle.remove(0));
                        assert(idle.contains(idle[0]));
                    }
                },
                Event::Use(_, _) => {},
                Event::Done(i) => {
                    assert(from.held.contains(from.held[i]));
                },
            }
        }
    }
}

/// A pool that takes no lane back starves for good once its lanes have been handed
/// out, and still reports its full capacity: nothing that happens later makes a lane
/// idle, and every request waits.
pub proof fn law_legacy_pool_starves_unseen<T>(
    from: Traffic<T>,
    events: Seq<Event<T>>,
    end: Traffic<T>,
)
    requires
        from.pool.valid(),
        !from.pool.return_on_drop,
        from.pool.lost == 0,
        from.pool.idle.len() == 0,
        from.leads_to(events, end),
    ensures
        end.pool == from.pool,
        end.pool.answer() is Busy,
        end.pool.available() == end.pool.capacity,
    decreases events.len(),
{
    if events.len() > 0 {
        law_legacy_pool_starves_unseen(from.after(events[0]), events.drop_first(), end);
    }
}

/// How many of the requests among `events` are granted.
pub open spec fn granted<T>(from: Traffic<T>, events: Seq<Event<T>>) -> nat
    decreases events.len(),
{
    if events.len() == 0 {
        0
    } else {
        let rest = granted(from.after(events[0]), events.drop_first());
        if events[0] is Request && from.pool.answer() is Ready {
            rest + 1
        } else {
            rest
        }
    }
}

proof fn lemma_legacy_grants_are_counted<T>(
    from: Traffic<T>,
    events: Seq<Event<T>>,
    end: Traffic<T>,
)
    requires
        !from.pool.return_on_drop,
        from.leads_to(events, end),
    ensures
        end.pool.idle.len() + granted(from, events) == from.pool.idle.len(),
        end.pool.capacity == from.pool.capacity,
        end.pool.lost == from.pool.lost,
    decreases events.len(),
{
    if events.len() > 0 {
        lemma_legacy_grants_are_counted(from.after(events[0]), events.drop_first(), end);
    }
}

/// A pool that takes no lane back uses up a lane with each grant, however the holder
/// ends: after as many grants as it had lanes it is empty, and at no time does the
/// capacity it reports show it.
pub proof fn law_legacy_grant_uses_up_a_lane<T>(
    items: Seq<T>,
    events: Seq<Event<T>>,
    end: Traffic<T>,
)
    requires
        0 < items.len() <= usize::MAX,
        Traffic::start(items, false).leads_to(events, end),
    ensures
        end.pool.idle.len() == items.len() - granted(Traffic::start(items, false), events),
        end.pool.available() == items.len(),
{
    lemma_legacy_grants_are_counted(Traffic::start(items, false), events, end);
}

/// A request that is not granted costs nothing: whoever gives up while waiting leaves
/// the pool as it was.
pub proof fn law_unanswered_request_takes_nothing<T>(pool: PoolState<T>)
    ensures
        !(pool.answer() is Ready) ==> pool.after_acquire() == pool,
{
}

/// A lane that comes back goes to the end of the queue, behind every other idle lane.
pub proof fn law_lane_goes_to_the_back<T>(pool: PoolState<T>, item: T)
    requires
        pool.valid(),
        pool.return_on_drop,
        pool.answer() is Ready,
    ensures
        pool.after_acquire().fate() == Fate::Returned,
        pool.after_acquire().after_give_back(item) == (PoolState {
            idle: pool.idle.drop_first().push(item),
            ..pool
        }),
{
}

/// `n` requests, one after another.
pub open spec fn requests<T>(n: nat) -> Seq<Event<T>> {
    Seq::new(n, |i: int| Event::Request)
}

proof fn lemma_requests_take_the_front<T>(from: Traffic<T>, n: nat)
    requires
        from.pool.available() > 0,
        n <= from.pool.idle.len(),
    ensures
        from.leads_to(
            requests(n),
            Traffic {
                pool: PoolState { idle: from.pool.idle.skip(n as int), ..from.pool },
                held: from.held + from.pool.idle.take(n as int),
            },
        ),
    decreases n,
{
    let end = Traffic {
        pool: PoolState { idle: from.pool.idle.skip(n as int), ..from.pool },
        held: from.held + from.pool.idle.take(n as int),
    };
    if n == 0 {
        assert(end.pool.idle =~= from.pool.idle);
        assert(end.held =~= from.held);
    } else {
        let m = (n - 1) as nat;
        let next = from.after(Event::Request);
        lemma_requests_take_the_front(next, m);
        assert(requests::<T>(n).drop_first() =~= requests::<T>(m));
        assert(next.pool.idle.skip(m as int) =~= from.pool.idle.skip(n as int));
        assert(next.held + next.pool.idle.take(m as int) =~= end.held);
    }
}

/// A new pool after `n` requests: the first `n` items are held, in order, and the rest
/// are idle.
pub open spec fn after_requests<T>(items: Seq<T>, return_on_drop: bool, n: nat) -> Traffic<T> {
    Traffic {
        pool: PoolState {
            idle: items.skip(n as int),
            capacity: items.len() as usize,
            lost: 0,
            return_on_drop,
        },
        held: items.take(n as int),
    }
}

/// A new pool, under either policy, grants as many requests as it has items, and each
/// item exactly once: `n` requests lead to the first `n` items being held and to
/// nothing else, the next one is granted the item at `n`, and once every item is held a
/// further request waits.
pub proof fn law_new_pool_grants_each_item_once<T>(
    items: Seq<T>,
    return_on_drop: bool,
    n: nat,
    end: Traffic<T>,
)
    requires
        0 < items.len() <= usize::MAX,
        n <= items.len(),
    ensures
        Traffic::start(items, return_on_drop).leads_to(requests(n), end) <==> end
            == after_requests(items, return_on_drop, n),
        n < items.len() ==> after_requests(items, return_on_drop, n).pool.answer()
            == Answer::Ready(items[n as int]),
        n == items.len() ==> after_requests(items, return_on_drop, n).held == items
            && after_requests(items, return_on_drop, n).pool.answer() is Busy,
{
    let from = Traffic::start(items, return_on_drop);
    let reached = after_requests(items, return_on_drop, n);
    lemma_requests_take_the_front(from, n);
    assert(from.held + items.take(n as int) =~= items.take(n as int));
    if from.leads_to(requests(n), end) {
        lemma_events_lead_to_one_end(from, requests(n), end, reached);
    }
    if n == items.len() {
        assert(items.take(n as int) =~= items);
    }
}

proof fn lemma_events_lead_to_one_end<T>(
    from: Traffic<T>,
    events: Seq<Event<T>>,
    a: Traffic<T>,
    b: Traffic<T>,
)
    requires
        from.leads_to(events, a),
        from.leads_to(events, b),
    ensures
        a == b,
    decreases events.len(),
{
    if events.len() > 0 {
        lemma_events_lead_to_one_end(from.after(events[0]), events.drop_first(), a, b);
    }
}

/// A new pool holds exactly the lanes it was given, in their order, all of them idle and
/// none lost, whichever of the two policies it follows.
pub proof fn law_new_pool_holds_its_items<T>(
    items: Vec<T>,
    pool: LanePool<T>,
    legacy_items: Vec<T>,
    legacy: LanePool<T>,
)
    requires
        call_ensures(LanePool::<T>::new, (items,), pool),
        call_ensures(LanePool::<T>::new_legacy, (legacy_items,), legacy),
        items@.len() <= usize::MAX,
        legacy_items@.len() <= usize::MAX,
    ensures
        pool@.idle == items@,
        pool@.capacity == items@.len(),
        pool@.lost == 0,
        pool@.return_on_drop,
        legacy@.idle == legacy_items@,
        legacy@.capacity == legacy_items@.len(),
        legacy@.lost == 0,
        !legacy@.return_on_drop,
{
}

/// Any lanes make a pool, as long as there is one and the channel takes them all.
pub proof fn law_any_lanes_make_a_pool<T>(items: Vec<T>)
    requires
        0 < items@.len() <= usize::MAX / 8,
    ensures
        call_requires(LanePool::<T>::new, (items,)),
        call_requires(LanePool::<T>::new_legacy, (items,)),
{
}

/// The counts that a pool gives are its own: what it was built with, what it has lost,
/// and the difference, which is never below zero.
pub proof fn law_counts_are_the_pools_own<T>(
    pool: &LanePool<T>,
    capacity: usize,
    lost: usize,
    available: usize,
)
    requires
        call_ensures(LanePool::<T>::capacity, (pool,), capacity),
        call_ensures(LanePool::<T>::lost, (pool,), lost),
        call_ensures(LanePool::<T>::available_capacity, (pool,), available),
    ensures
        capacity == pool@.capacity,
        lost == pool@.lost,
        lost <= capacity ==> available + lost == capacity,
        lost > capacity ==> available == 0,
{
}

/// A request takes the lane at the front of the queue, that lane and no other, and leaves
/// everything else of the pool as it was. It waits when no lane is idle, and is refused
/// when all have been lost; either way the pool does not change.
pub proof fn law_request_takes_the_front<T>(pool: &mut LanePool<T>, answer: Acquire<T>)
    requires
        call_ensures(LanePool::<T>::acquire, (pool,), answer),
    ensures
        answer is Exhausted <==> old(pool)@.lost >= old(pool)@.capacity,
        answer is Busy <==> old(pool)@.lost < old(pool)@.capacity && old(pool)@.idle.len() == 0,
        answer matches Acquire::Ready(lane) ==> {
            &&& old(pool)@.idle.len() > 0
            &&& lane.item() == old(pool)@.idle[0]
            &&& final(pool)@.idle == old(pool)@.idle.subrange(1, old(pool)@.idle.len() as int)
        },
        !(answer is Ready) ==> final(pool)@.idle == old(pool)@.idle,
        final(pool)@.capacity == old(pool)@.capacity,
        final(pool)@.lost == old(pool)@.lost,
        final(pool)@.return_on_drop == old(pool)@.return_on_drop,
{
}

/// A lane that is given back stands last in the queue, behind the lanes that were there.
/// A pool that is already full counts it as lost, and one that takes nothing back stays
/// as it was. Nothing else of the pool changes.
pub proof fn law_lane_given_back_stands_last<T>(pool: &mut LanePool<T>, lane: Lane<T>, fate: Fate)
    requires
        call_ensures(LanePool::<T>::give_back, (pool, lane), fate),
    ensures
        fate is Discarded <==> !old(pool)@.return_on_drop,
        fate is Returned <==> old(pool)@.return_on_drop && old(pool)@.idle.len()
            < old(pool)@.capacity,
        fate is Returned ==> {
            &&& final(pool)@.idle.len() == old(pool)@.idle.len() + 1
            &&& final(pool)@.idle[old(pool)@.idle.len() as int] == lane.item()
            &&& forall|i: int|
                0 <= i < old(pool)@.idle.len() ==> #[trigger] final(pool)@.idle[i] == old(
                    pool,
                )@.idle[i]
        },
        !(fate is Returned) ==> final(pool)@.idle == old(pool)@.idle,
        fate is Lost && old(pool)@.lost < usize::MAX ==> final(pool)@.lost == old(pool)@.lost + 1,
        fate is Lost && old(pool)@.lost == usize::MAX ==> final(pool)@.lost == 0,
        !(fate is Lost) ==> final(pool)@.lost == old(pool)@.lost,
        final(pool)@.capacity == old(pool)@.capacity,
        final(pool)@.return_on_drop == old(pool)@.return_on_drop,
{
}

/// A holder works on the lane itself: it sees the pooled value, and what it makes of it is
/// what the lane holds from then on.
pub proof fn law_holder_works_on_the_lane_itself<T>(lane: &mut Lane<T>, item: &mut T)
    requires
        call_ensures(Lane::<T>::get_mut, (lane,), item),
    ensures
        *old(item) == old(lane).item(),
        final(lane).item() == *final(item),
{
}

} // verus!
