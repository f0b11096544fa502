use vstd::prelude::*;
use crate::ring::RingBuf;
use crate::route::lemma_route_side_partition;
use crate::route::lemma_route_side_push;
use crate::route::lemma_route_side_selection;
use crate::route::route_side;
use crate::route::side_indices;
use std::pin::Pin;
use std::sync::Arc;
use std::sync::Mutex;
use std::task::Context;
use std::task::Poll;
use std::task::Waker;
use futures::Stream;

verus! {

#[verifier::external_type_specification]
#[verifier::external_body]
pub struct ExWaker(Waker);

#[verifier::external_type_specification]
#[verifier::external_body]
pub struct ExContext<'a>(Context<'a>);

#[verifier::external_type_specification]
#[verifier::external_body]
#[verifier::reject_recursive_types(T)]
pub struct ExMutex<T: ?Sized>(Mutex<T>);

#[verifier::external_type_specification]
#[verifier::external_body]
#[verifier::reject_recursive_types(It)]
pub struct ExStreamIter<It>(futures::stream::Iter<It>);

/// One observed outcome of polling the upstream sequence once.
pub enum UpstreamPoll<I> {
    /// Upstream yielded an item.
    Item(I),
    /// Upstream reported that it is exhausted.
    Exhausted,
    /// Upstream has no item yet; polling it has already arranged a wakeup.
    Pending,
}

/// The outcome of polling one partition.
pub enum PollOutcome<I> {
    /// An item belonging to this partition is ready now.
    Ready(I),
    /// Upstream is exhausted and this partition's buffer is drained: terminal.
    Exhausted,
    /// No item for this partition yet; the caller suspends until a recorded
    /// wakeup fires.
    Pending,
}

/// A pull-based source of items: the upstream sequence being partitioned.
///
/// One poll either yields the next item, reports exhaustion, or reports that
/// no item is ready yet; in the last case the source itself must have
/// arranged, through the context's waker, for the polling task to be woken.
/// The method carries no contract — a caller-supplied source may answer
/// anything — so the coordinator is verified against every possible answer:
/// see `SplitByBuffered::route_true` and `route_false` for what each answer
/// forces.
pub trait Upstream<I> {
    /// Poll the source once.
    fn poll_upstream(&mut self, cx: &mut Context<'_>) -> UpstreamPoll<I>;
}

/// An upstream sequence backed by futures::stream::iter over the items of a
/// vector: it is never pending, yields the items in order, then reports
/// exhaustion on every later poll.
#[verifier::reject_recursive_types(I)]
pub struct VecUpstream<I> {
    inner: futures::stream::Iter<std::vec::IntoIter<I>>,
    left: Ghost<Seq<I>>,
}

/// Relies on futures::stream::iter: wraps a vector's items as a stream that
/// yields them in order.
#[verifier::external_body]
fn iter_stream<I>(items: Vec<I>) -> futures::stream::Iter<std::vec::IntoIter<I>> {
    futures::stream::iter(items)
}

impl<I> VecUpstream<I> {
    /// The items this source will still yield, in order.
    pub closed spec fn remaining(&self) -> Seq<I> {
        self.left@
    }

    pub fn new(items: Vec<I>) -> (r: Self)
        ensures
            r.remaining() == items@,
    {
        let ghost left = items@;
        VecUpstream { inner: iter_stream(items), left: Ghost(left) }
    }
}

/// Relies on futures::Stream::poll_next for futures::stream::Iter: it wraps
/// each item its iterator still yields in a ready answer, in order, and is
/// never pending; std's vector iterator yields nothing once exhausted.
#[verifier::external_body]
fn poll_vec_upstream<I>(source: &mut VecUpstream<I>, cx: &mut Context<'_>) -> (r: UpstreamPoll<
    I,
>)
    ensures
        old(source).remaining().len() > 0 ==> r == UpstreamPoll::Item(old(source).remaining()[0])
            && final(source).remaining() == old(source).remaining().drop_first(),
        old(source).remaining().len() == 0 ==> r == UpstreamPoll::<I>::Exhausted
            && final(source).remaining() == old(source).remaining(),
{
    match Pin::new(&mut source.inner).poll_next(cx) {
        Poll::Ready(Some(item)) => UpstreamPoll::Item(item),
        Poll::Ready(None) => UpstreamPoll::Exhausted,
        Poll::Pending => UpstreamPoll::Pending,
    }
}

impl<I> Upstream<I> for VecUpstream<I> {
    fn poll_upstream(&mut self, cx: &mut Context<'_>) -> UpstreamPoll<I> {
        poll_vec_upstream(self, cx)
    }
}

/// Relies on std::task::Context::waker: returns the waker associated with the
/// current task.
#[verifier::external_body]
fn waker_of<'a>(cx: &Context<'a>) -> &'a Waker {
    cx.waker()
}

/// Relies on the std::task::Waker Clone impl: duplicates a waker handle so it
/// can be stored for a later wakeup.
#[verifier::external_body]
fn clone_waker(w: &Waker) -> Waker {
    w.clone()
}

/// Relies on std::task::Waker::wake_by_ref: schedules the recorded task to be
/// polled again. No state of this crate is read or changed.
#[verifier::external_body]
fn wake_ref(w: &Waker) {
    w.wake_by_ref()
}

/// The split coordinator: owns the upstream sequence, the routing predicate,
/// one bounded buffer per partition and one recorded waker per partition.
///
/// Its history is modelled by the items pulled from upstream so far
/// (`pulled`), the routing bit the predicate returned for each (`route`), and
/// the items already handed to each partition's consumer (`delivered_true`,
/// `delivered_false`). Well-formedness ties them together: what a partition
/// has delivered, followed by what still waits in its buffer, is exactly the
/// routed subsequence of the pulled items.
pub struct SplitByBuffered<I, S, P> {
    buf_true: RingBuf<I>,
    buf_false: RingBuf<I>,
    waker_true: Option<Waker>,
    waker_false: Option<Waker>,
    stream: S,
    predicate: P,
    stream_done: bool,
    pulled_items: Ghost<Seq<I>>,
    route_bits: Ghost<Seq<bool>>,
    taken_true: Ghost<Seq<I>>,
    taken_false: Ghost<Seq<I>>,
}

impl<I, S, P> SplitByBuffered<I, S, P> where S: Upstream<I>, P: Fn(&I) -> bool {
    /// Every item pulled from upstream so far, in upstream order.
    pub closed spec fn pulled(&self) -> Seq<I> {
        self.pulled_items@
    }

    /// The routing bit the predicate returned for each pulled item.
    pub closed spec fn route(&self) -> Seq<bool> {
        self.route_bits@
    }

    /// Items already handed to the "true" partition's consumer, in order.
    pub closed spec fn delivered_true(&self) -> Seq<I> {
        self.taken_true@
    }

    /// Items already handed to the "false" partition's consumer, in order.
    pub closed spec fn delivered_false(&self) -> Seq<I> {
        self.taken_false@
    }

    /// Items waiting in the "true" partition's buffer, oldest first.
    pub closed spec fn buffered_true(&self) -> Seq<I> {
        self.buf_true@
    }

    /// Items waiting in the "false" partition's buffer, oldest first.
    pub closed spec fn buffered_false(&self) -> Seq<I> {
        self.buf_false@
    }

    /// The shared bound of both buffers.
    pub closed spec fn cap(&self) -> nat {
        self.buf_true.cap()
    }

    /// Whether upstream has already reported exhaustion.
    pub closed spec fn upstream_done(&self) -> bool {
        self.stream_done
    }

    /// The routing predicate.
    pub closed spec fn pred(&self) -> P {
        self.predicate
    }

    /// The upstream source, as the value it currently is. A clause stating
    /// that it is unchanged says that the source was not polled.
    pub closed spec fn source(&self) -> S {
        self.stream
    }

    /// The resumption callback recorded for the "true" partition, if any.
    pub closed spec fn recorded_true(&self) -> Option<Waker> {
        self.waker_true
    }

    /// The resumption callback recorded for the "false" partition, if any.
    pub closed spec fn recorded_false(&self) -> Option<Waker> {
        self.waker_false
    }

    /// The two buffers are well formed and share the capacity `cap()`.
    pub closed spec fn bufs_wf(&self) -> bool {
        &&& self.buf_true.wf()
        &&& self.buf_false.wf()
        &&& self.buf_true.cap() == self.cap()
        &&& self.buf_false.cap() == self.cap()
    }

    /// The predicate can be called on any item, and every recorded routing
    /// bit is an answer the predicate's contract allows for that item.
    pub open spec fn pred_ok(&self) -> bool {
        &&& forall|x: &I| #[trigger] call_requires(self.pred(), (x,))
        &&& forall|i: int|
            0 <= i < self.pulled().len() ==> call_ensures(
                self.pred(),
                (&self.pulled()[i],),
                #[trigger] self.route()[i],
            )
    }

    /// Each partition's deliveries followed by its buffered items are exactly
    /// the routed subsequence of the pulled items: nothing is lost, nothing
    /// is duplicated, nothing crosses sides, and order is preserved.
    pub open spec fn partitioned(&self) -> bool {
        &&& self.route().len() == self.pulled().len()
        &&& self.delivered_true() + self.buffered_true() == route_side(
            self.pulled(),
            self.route(),
            true,
        )
        &&& self.delivered_false() + self.buffered_false() == route_side(
            self.pulled(),
            self.route(),
            false,
        )
    }

    pub open spec fn wf(&self) -> bool {
        &&& self.cap() >= 1
        &&& self.bufs_wf()
        &&& self.buffered_true().len() <= self.cap()
        &&& self.buffered_false().len() <= self.cap()
        &&& self.partitioned()
        &&& self.pred_ok()
    }

    /// Create a coordinator around an upstream sequence and a predicate, with
    /// buffer capacity `cap` per partition. The source is stored exactly as
    /// handed in — nothing is pulled from it — and no waker is recorded yet.
    pub fn new(stream: S, predicate: P, cap: usize) -> (r: Self)
        requires
            cap >= 1,
            forall|x: &I| #[trigger] call_requires(predicate, (x,)),
        ensures
            r.wf(),
            r.cap() == cap,
            r.pred() == predicate,
            r.source() == stream,
            r.recorded_true() is None,
            r.recorded_false() is None,
            !r.upstream_done(),
            r.pulled() == Seq::<I>::empty(),
            r.route() == Seq::<bool>::empty(),
            r.delivered_true() == Seq::<I>::empty(),
            r.delivered_false() == Seq::<I>::empty(),
            r.buffered_true() == Seq::<I>::empty(),
            r.buffered_false() == Seq::<I>::empty(),
    {
        let r = SplitByBuffered {
            buf_true: RingBuf::new(cap),
            buf_false: RingBuf::new(cap),
            waker_true: None,
            waker_false: None,
            stream,
            predicate,
            stream_done: false,
            pulled_items: Ghost(Seq::empty()),
            route_bits: Ghost(Seq::empty()),
            taken_true: Ghost(Seq::empty()),
            taken_false: Ghost(Seq::empty()),
        };
        proof {
            assert(r.delivered_true() + r.buffered_true() =~= route_side(
                r.pulled(),
                r.route(),
                true,
            ));
            assert(r.delivered_false() + r.buffered_false() =~= route_side(
                r.pulled(),
                r.route(),
                false,
            ));
        }
        r
    }

    /// Route one upstream answer for the "true" partition's poll, in the one
    /// state in which that poll consults upstream: own buffer empty, room in
    /// the sibling's buffer, exhaustion not yet seen. An item the predicate
    /// answers `true` for is delivered directly; one it answers `false` for
    /// goes into the sibling's buffer and wakes the sibling's recorded waker;
    /// exhaustion is latched; a pending upstream stays pending. The upstream
    /// source itself is not touched.
    pub fn route_true(&mut self, ev: UpstreamPoll<I>) -> (r: PollOutcome<I>)
        requires
            old(self).wf(),
            old(self).buffered_true().len() == 0,
            old(self).buffered_false().len() < old(self).cap(),
            !old(self).upstream_done(),
        ensures
            final(self).wf(),
            final(self).cap() == old(self).cap(),
            final(self).pred() == old(self).pred(),
            final(self).source() == old(self).source(),
            final(self).recorded_true() == old(self).recorded_true(),
            final(self).recorded_false() == old(self).recorded_false(),
            final(self).delivered_false() == old(self).delivered_false(),
            final(self).buffered_true() == old(self).buffered_true(),
            match ev {
                UpstreamPoll::Item(i) => {
                    &&& !final(self).upstream_done()
                    &&& final(self).pulled() == old(self).pulled().push(i)
                    &&& final(self).route() == old(self).route().push(final(self).route().last())
                    &&& call_ensures(old(self).pred(), (&i,), final(self).route().last())
                    &&& if final(self).route().last() == true {
                        &&& r == PollOutcome::Ready(i)
                        &&& final(self).delivered_true() == old(self).delivered_true().push(i)
                        &&& final(self).buffered_false() == old(self).buffered_false()
                    } else {
                        &&& r is Pending
                        &&& final(self).delivered_true() == old(self).delivered_true()
                        &&& final(self).buffered_false() == old(self).buffered_false().push(i)
                    }
                },
                UpstreamPoll::Exhausted => {
                    &&& r is Exhausted
                    &&& final(self).upstream_done()
                    &&& final(self).pulled() == old(self).pulled()
                    &&& final(self).route() == old(self).route()
                    &&& final(self).delivered_true() == old(self).delivered_true()
                    &&& final(self).buffered_false() == old(self).buffered_false()
                },
                UpstreamPoll::Pending => {
                    &&& r is Pending
                    &&& !final(self).upstream_done()
                    &&& final(self).pulled() == old(self).pulled()
                    &&& final(self).route() == old(self).route()
                    &&& final(self).delivered_true() == old(self).delivered_true()
                    &&& final(self).buffered_false() == old(self).buffered_false()
                },
            },
    {
        match ev {
            UpstreamPoll::Item(item) => {
                let matched = (self.predicate)(&item);
                proof {
                    let prev_pulled = self.pulled_items@;
                    let prev_route = self.route_bits@;
                    lemma_route_side_push(prev_pulled, prev_route, item, matched, true);
                    lemma_route_side_push(prev_pulled, prev_route, item, matched, false);
                    self.pulled_items@ = self.pulled_items@.push(item);
                    self.route_bits@ = self.route_bits@.push(matched);
                    assert forall|i: int| 0 <= i < self.pulled_items@.len() implies call_ensures(
                        self.predicate,
                        (&self.pulled_items@[i],),
                        self.route_bits@[i],
                    ) by {
                        if i < prev_pulled.len() {
                            assert(call_ensures(
                                old(self).pred(),
                                (&old(self).pulled()[i],),
                                old(self).route()[i],
                            ));
                        }
                    }
                }
                if matched {
                    proof {
                        self.taken_true@ = self.taken_true@.push(item);
                        assert(old(self).taken_true@ + old(self).buf_true@ =~= old(
                            self,
                        ).taken_true@);
                        assert(self.taken_true@ + self.buf_true@ =~= (old(self).taken_true@ + old(
                            self,
                        ).buf_true@).push(item));
                    }
                    PollOutcome::Ready(item)
                } else {
                    let rejected = self.buf_false.push_back(item);
                    proof {
                        assert(rejected is None);
                        assert(self.taken_false@ + self.buf_false@ =~= (old(self).taken_false@ + old(
                            self,
                        ).buf_false@).push(item));
                    }
                    match &self.waker_false {
                        Some(w) => wake_ref(w),
                        None => {},
                    }
                    PollOutcome::Pending
                }
            },
            UpstreamPoll::Exhausted => {
                self.stream_done = true;
                PollOutcome::Exhausted
            },
            UpstreamPoll::Pending => PollOutcome::Pending,
        }
    }

    /// Poll the "true" partition: deliver a buffered item if one waits, or
    /// otherwise, unless the sibling's buffer is full or upstream is already
    /// exhausted, pull one item from upstream and route it with `route_true`.
    pub fn poll_next_true(&mut self, cx: &mut Context<'_>) -> (r: PollOutcome<I>)
        requires
            old(self).wf(),
        ensures
            final(self).wf(),
            final(self).cap() == old(self).cap(),
            final(self).pred() == old(self).pred(),
            final(self).delivered_false() == old(self).delivered_false(),
            final(self).recorded_false() == old(self).recorded_false(),
            old(self).recorded_true() is Some ==> final(self).recorded_true() == old(
                self,
            ).recorded_true(),
            final(self).recorded_true() is Some,
            old(self).upstream_done() ==> final(self).upstream_done(),
            old(self).upstream_done() ==> final(self).source() == old(self).source(),
            old(self).buffered_true().len() > 0 ==> r is Ready && final(self).source() == old(
                self,
            ).source(),
            old(self).upstream_done() && old(self).buffered_true().len() == 0 ==> r is Exhausted,
            old(self).buffered_true().len() == 0 && !old(self).upstream_done() && old(
                self,
            ).buffered_false().len() == old(self).cap() ==> r is Pending && final(self).source()
                == old(self).source(),
            match r {
                PollOutcome::Ready(item) => {
                    &&& final(self).delivered_true() == old(self).delivered_true().push(item)
                    &&& final(self).buffered_false() == old(self).buffered_false()
                    &&& final(self).upstream_done() == old(self).upstream_done()
                    &&& if old(self).buffered_true().len() > 0 {
                        &&& item == old(self).buffered_true()[0]
                        &&& final(self).buffered_true() == old(self).buffered_true().drop_first()
                        &&& final(self).pulled() == old(self).pulled()
                        &&& final(self).route() == old(self).route()
                    } else {
                        &&& old(self).buffered_false().len() < old(self).cap()
                        &&& final(self).pulled() == old(self).pulled().push(item)
                        &&& final(self).route() == old(self).route().push(true)
                        &&& call_ensures(old(self).pred(), (&item,), true)
                        &&& final(self).buffered_true() == old(self).buffered_true()
                    }
                },
                PollOutcome::Exhausted => {
                    &&& old(self).buffered_true().len() == 0
                    &&& final(self).upstream_done()
                    &&& final(self).delivered_true() == old(self).delivered_true()
                    &&& final(self).buffered_true() == old(self).buffered_true()
                    &&& final(self).buffered_false() == old(self).buffered_false()
                    &&& final(self).pulled() == old(self).pulled()
                    &&& final(self).route() == old(self).route()
                },
                PollOutcome::Pending => {
                    &&& old(self).buffered_true().len() == 0
                    &&& !old(self).upstream_done()
                    &&& !final(self).upstream_done()
                    &&& final(self).delivered_true() == old(self).delivered_true()
                    &&& final(self).buffered_true() == old(self).buffered_true()
                    &&& if old(self).buffered_false().len() == old(self).cap() {
                        &&& final(self).pulled() == old(self).pulled()
                        &&& final(self).route() == old(self).route()
                        &&& final(self).buffered_false() == old(self).buffered_false()
                    } else {
                        ||| {
                            &&& final(self).pulled() == old(self).pulled()
                            &&& final(self).route() == old(self).route()
                            &&& final(self).buffered_false() == old(self).buffered_false()
                        }
                        ||| {
                            &&& final(self).pulled().len() == old(self).pulled().len() + 1
                            &&& final(self).pulled().drop_last() == old(self).pulled()
                            &&& final(self).route() == old(self).route().push(false)
                            &&& call_ensures(
                                old(self).pred(),
                                (&final(self).pulled().last(),),
                                false,
                            )
                            &&& final(self).buffered_false() == old(
                                self,
                            ).buffered_false().push(final(self).pulled().last())
                        }
                    }
                },
            },
    {
        if self.waker_true.is_none() {
            let w = clone_waker(waker_of(cx));
            self.waker_true = Some(w);
        }
        let popped = self.buf_true.pop_front();
        match popped {
            Some(item) => {
                proof {
                    self.taken_true@ = self.taken_true@.push(item);
                    assert(self.taken_true@ + self.buf_true@ =~= old(self).taken_true@ + old(
                        self,
                    ).buf_true@);
                }
                return PollOutcome::Ready(item);
            },
            None => {},
        }
        if self.stream_done {
            return PollOutcome::Exhausted;
        }
        if self.buf_false.remaining() == 0 {
            match &self.waker_false {
                Some(w) => wake_ref(w),
                None => {},
            }
            return PollOutcome::Pending;
        }
        let ev = self.stream.poll_upstream(cx);
        let r = self.route_true(ev);
        proof {
            if self.pulled_items@.len() == old(self).pulled_items@.len() + 1 {
                assert(self.pulled_items@.drop_last() =~= old(self).pulled_items@);
            }
        }
        r
    }

    /// Route one upstream answer for the "false" partition's poll, in the one
    /// state in which that poll consults upstream: own buffer empty, room in
    /// the sibling's buffer, exhaustion not yet seen. An item the predicate
    /// answers `false` for is delivered directly; one it answers `true` for
    /// goes into the sibling's buffer and wakes the sibling's recorded waker;
    /// exhaustion is latched; a pending upstream stays pending. The upstream
    /// source itself is not touched.
    pub fn route_false(&mut self, ev: UpstreamPoll<I>) -> (r: PollOutcome<I>)
        requires
            old(self).wf(),
            old(self).buffered_false().len() == 0,
            old(self).buffered_true().len() < old(self).cap(),
            !old(self).upstream_done(),
        ensures
            final(self).wf(),
            final(self).cap() == old(self).cap(),
            final(self).pred() == old(self).pred(),
            final(self).source() == old(self).source(),
            final(self).recorded_true() == old(self).recorded_true(),
            final(self).recorded_false() == old(self).recorded_false(),
            final(self).delivered_true() == old(self).delivered_true(),
            final(self).buffered_false() == old(self).buffered_false(),
            match ev {
                UpstreamPoll::Item(i) => {
                    &&& !final(self).upstream_done()
                    &&& final(self).pulled() == old(self).pulled().push(i)
                    &&& final(self).route() == old(self).route().push(final(self).route().last())
                    &&& call_ensures(old(self).pred(), (&i,), final(self).route().last())
                    &&& if final(self).route().last() == false {
                        &&& r == PollOutcome::Ready(i)
                        &&& final(self).delivered_false() == old(self).delivered_false().push(i)
                        &&& final(self).buffered_true() == old(self).buffered_true()
                    } else {
                        &&& r is Pending
                        &&& final(self).delivered_false() == old(self).delivered_false()
                        &&& final(self).buffered_true() == old(self).buffered_true().push(i)
                    }
                },
                UpstreamPoll::Exhausted => {
                    &&& r is Exhausted
                    &&& final(self).upstream_done()
                    &&& final(self).pulled() == old(self).pulled()
                    &&& final(self).route() == old(self).route()
                    &&& final(self).delivered_false() == old(self).delivered_false()
                    &&& final(self).buffered_true() == old(self).buffered_true()
                },
                UpstreamPoll::Pending => {
                    &&& r is Pending
                    &&& !final(self).upstream_done()
                    &&& final(self).pulled() == old(self).pulled()
                    &&& final(self).route() == old(self).route()
                    &&& final(self).delivered_false() == old(self).delivered_false()
                    &&& final(self).buffered_true() == old(self).buffered_true()
                },
            },
    {
        match ev {
            UpstreamPoll::Item(item) => {
                let matched = (self.predicate)(&item);
                proof {
                    let prev_pulled = self.pulled_items@;
                    let prev_route = self.route_bits@;
                    lemma_route_side_push(prev_pulled, prev_route, item, matched, true);
                    lemma_route_side_push(prev_pulled, prev_route, item, matched, false);
                    self.pulled_items@ = self.pulled_items@.push(item);
                    self.route_bits@ = self.route_bits@.push(matched);
                    assert forall|i: int| 0 <= i < self.pulled_items@.len() implies call_ensures(
                        self.predicate,
                        (&self.pulled_items@[i],),
                        self.route_bits@[i],
                    ) by {
                        if i < prev_pulled.len() {
                            assert(call_ensures(
                                old(self).pred(),
                                (&old(self).pulled()[i],),
                                old(self).route()[i],
                            ));
                        }
                    }
                }
                if !matched {
                    proof {
                        self.taken_false@ = self.taken_false@.push(item);
                        assert(old(self).taken_false@ + old(self).buf_false@ =~= old(
                            self,
                        ).taken_false@);
                        assert(self.taken_false@ + self.buf_false@ =~= (old(self).taken_false@ + old(
                            self,
                        ).buf_false@).push(item));
                    }
                    PollOutcome::Ready(item)
                } else {
                    let rejected = self.buf_true.push_back(item);
                    proof {
                        assert(rejected is None);
                        assert(self.taken_true@ + self.buf_true@ =~= (old(self).taken_true@ + old(
                            self,
                        ).buf_true@).push(item));
                    }
                    match &self.waker_true {
                        Some(w) => wake_ref(w),
                        None => {},
                    }
                    PollOutcome::Pending
                }
            },
            UpstreamPoll::Exhausted => {
                self.stream_done = true;
                PollOutcome::Exhausted
            },
            UpstreamPoll::Pending => PollOutcome::Pending,
        }
    }

    /// Poll the "false" partition: deliver a buffered item if one waits, or
    /// otherwise, unless the sibling's buffer is full or upstream is already
    /// exhausted, pull one item from upstream and route it with `route_false`.
    pub fn poll_next_false(&mut self, cx: &mut Context<'_>) -> (r: PollOutcome<I>)
        requires
            old(self).wf(),
        ensures
            final(self).wf(),
            final(self).cap() == old(self).cap(),
            final(self).pred() == old(self).pred(),
            final(self).delivered_true() == old(self).delivered_true(),
            final(self).recorded_true() == old(self).recorded_true(),
            old(self).recorded_false() is Some ==> final(self).recorded_false() == old(
                self,
            ).recorded_false(),
            final(self).recorded_false() is Some,
            old(self).upstream_done() ==> final(self).upstream_done(),
            old(self).upstream_done() ==> final(self).source() == old(self).source(),
            old(self).buffered_false().len() > 0 ==> r is Ready && final(self).source() == old(
                self,
            ).source(),
            old(self).upstream_done() && old(self).buffered_false().len() == 0 ==> r is Exhausted,
            old(self).buffered_false().len() == 0 && !old(self).upstream_done() && old(
                self,
            ).buffered_true().len() == old(self).cap() ==> r is Pending && final(self).source()
                == old(self).source(),
            match r {
                PollOutcome::Ready(item) => {
                    &&& final(self).delivered_false() == old(self).delivered_false().push(item)
                    &&& final(self).buffered_true() == old(self).buffered_true()
                    &&& final(self).upstream_done() == old(self).upstream_done()
                    &&& if old(self).buffered_false().len() > 0 {
                        &&& item == old(self).buffered_false()[0]
                        &&& final(self).buffered_false() == old(self).buffered_false().drop_first()
                        &&& final(self).pulled() == old(self).pulled()
                        &&& final(self).route() == old(self).route()
                    } else {
                        &&& old(self).buffered_true().len() < old(self).cap()
                        &&& final(self).pulled() == old(self).pulled().push(item)
                        &&& final(self).route() == old(self).route().push(false)
                        &&& call_ensures(old(self).pred(), (&item,), false)
                        &&& final(self).buffered_false() == old(self).buffered_false()
                    }
                },
                PollOutcome::Exhausted => {
                    &&& old(self).buffered_false().len() == 0
                    &&& final(self).upstream_done()
                    &&& final(self).delivered_false() == old(self).delivered_false()
                    &&& final(self).buffered_false() == old(self).buffered_false()
                    &&& final(self).buffered_true() == old(self).buffered_true()
                    &&& final(self).pulled() == old(self).pulled()
                    &&& final(self).route() == old(self).route()
                },
                PollOutcome::Pending => {
                    &&& old(self).buffered_false().len() == 0
                    &&& !old(self).upstream_done()
                    &&& !final(self).upstream_done()
                    &&& final(self).delivered_false() == old(self).delivered_false()
                    &&& final(self).buffered_false() == old(self).buffered_false()
                    &&& if old(self).buffered_true().len() == old(self).cap() {
                        &&& final(self).pulled() == old(self).pulled()
                        &&& final(self).route() == old(self).route()
                        &&& final(self).buffered_true() == old(self).buffered_true()
                    } else {
                        ||| {
                            &&& final(self).pulled() == old(self).pulled()
                            &&& final(self).route() == old(self).route()
                            &&& final(self).buffered_true() == old(self).buffered_true()
                        }
                        ||| {
                            &&& final(self).pulled().len() == old(self).pulled().len() + 1
                            &&& final(self).pulled().drop_last() == old(self).pulled()
                            &&& final(self).route() == old(self).route().push(true)
                            &&& call_ensures(
                                old(self).pred(),
                                (&final(self).pulled().last(),),
                                true,
                            )
                            &&& final(self).buffered_true() == old(
                                self,
                            ).buffered_true().push(final(self).pulled().last())
                        }
                    }
                },
            },
    {
        if self.waker_false.is_none() {
            let w = clone_waker(waker_of(cx));
            self.waker_false = Some(w);
        }
        let popped = self.buf_false.pop_front();
        match popped {
            Some(item) => {
                proof {
                    self.taken_false@ = self.taken_false@.push(item);
                    assert(self.taken_false@ + self.buf_false@ =~= old(self).taken_false@ + old(
                        self,
                    ).buf_false@);
                }
                return PollOutcome::Ready(item);
            },
            None => {},
        }
        if self.stream_done {
            return PollOutcome::Exhausted;
        }
        if self.buf_true.remaining() == 0 {
            match &self.waker_true {
                Some(w) => wake_ref(w),
                None => {},
            }
            return PollOutcome::Pending;
        }
        let ev = self.stream.poll_upstream(cx);
        let r = self.route_false(ev);
        proof {
            if self.pulled_items@.len() == old(self).pulled_items@.len() + 1 {
                assert(self.pulled_items@.drop_last() =~= old(self).pulled_items@);
            }
        }
        r
    }

    /// One partition's output so far: the items already delivered to its
    /// consumer followed by the items still waiting in its buffer.
    pub open spec fn output(&self, side: bool) -> Seq<I> {
        if side {
            self.delivered_true() + self.buffered_true()
        } else {
            self.delivered_false() + self.buffered_false()
        }
    }

    /// No silent drop, no duplication: in any well-formed coordinator state
    /// the two partitions' outputs, taken together as a bag, hold exactly the
    /// items pulled from upstream so far — each of them once.
    pub proof fn lemma_no_silent_drop(&self)
        requires
            self.wf(),
        ensures
            self.output(true).to_multiset().add(self.output(false).to_multiset())
                == self.pulled().to_multiset(),
    {
        lemma_route_side_partition(self.pulled(), self.route());
    }

    /// Partition correctness and order preservation: one partition's output
    /// selects items from strictly increasing upstream positions — exactly
    /// the positions whose item the predicate routed to this side — keeping
    /// their upstream order, and each selected item is one for which the
    /// predicate's contract allows the answer `side`.
    pub proof fn lemma_partition_correct(&self, side: bool)
        requires
            self.wf(),
        ensures
            self.output(side).len() == side_indices(self.route(), side).len(),
            forall|k: int|
                0 <= k < self.output(side).len() ==> 0 <= #[trigger] side_indices(
                    self.route(),
                    side,
                )[k] < self.pulled().len(),
            forall|k: int|
                0 <= k < self.output(side).len() ==> self.output(side)[k] == self.pulled()[#[trigger] side_indices(
                    self.route(),
                    side,
                )[k]] && self.route()[side_indices(self.route(), side)[k]] == side,
            forall|k: int|
                0 <= k < self.output(side).len() ==> call_ensures(
                    self.pred(),
                    (&#[trigger] self.output(side)[k],),
                    side,
                ),
            forall|k1: int, k2: int|
                0 <= k1 < k2 < self.output(side).len() ==> #[trigger] side_indices(
                    self.route(),
                    side,
                )[k1] < #[trigger] side_indices(self.route(), side)[k2],
            forall|j: int|
                0 <= j < self.pulled().len() && self.route()[j] == side ==> side_indices(
                    self.route(),
                    side,
                ).contains(j),
    {
        lemma_route_side_selection(self.pulled(), self.route(), side);
        assert forall|k: int| 0 <= k < self.output(side).len() implies call_ensures(
            self.pred(),
            (&self.output(side)[k],),
            side,
        ) by {
            let j = side_indices(self.route(), side)[k];
            assert(call_ensures(self.pred(), (&self.pulled()[j],), self.route()[j]));
        }
    }
}

/// A handle on the shared coordinator that yields the items for which the
/// predicate returns `true`. Polling it goes through a non-blocking attempt
/// at exclusive access; see `SplitByBuffered::poll_next_true` for the routing
/// contract.
#[verifier::reject_recursive_types(I)]
#[verifier::reject_recursive_types(S)]
#[verifier::reject_recursive_types(P)]
pub struct TrueSplitByBuffered<I, S, P> {
    stream: Arc<Mutex<SplitByBuffered<I, S, P>>>,
}

impl<I, S, P> TrueSplitByBuffered<I, S, P> {
    /// The shared coordinator behind this handle.
    pub closed spec fn shared(&self) -> Arc<Mutex<SplitByBuffered<I, S, P>>> {
        self.stream
    }

    pub fn new(stream: Arc<Mutex<SplitByBuffered<I, S, P>>>) -> (r: Self)
        ensures
            r.shared() == stream,
    {
        TrueSplitByBuffered { stream }
    }

    /// Borrow the shared coordinator, for a caller that serializes access to
    /// it with a non-blocking lock attempt.
    pub fn coordinator(&self) -> (r: &Arc<Mutex<SplitByBuffered<I, S, P>>>)
        ensures
            r == self.shared(),
    {
        &self.stream
    }
}

/// A handle on the shared coordinator that yields the items for which the
/// predicate returns `false`. Polling it goes through a non-blocking attempt
/// at exclusive access; see `SplitByBuffered::poll_next_false` for the
/// routing contract.
#[verifier::reject_recursive_types(I)]
#[verifier::reject_recursive_types(S)]
#[verifier::reject_recursive_types(P)]
pub struct FalseSplitByBuffered<I, S, P> {
    stream: Arc<Mutex<SplitByBuffered<I, S, P>>>,
}

impl<I, S, P> FalseSplitByBuffered<I, S, P> {
    /// The shared coordinator behind this handle.
    pub closed spec fn shared(&self) -> Arc<Mutex<SplitByBuffered<I, S, P>>> {
        self.stream
    }

    pub fn new(stream: Arc<Mutex<SplitByBuffered<I, S, P>>>) -> (r: Self)
        ensures
            r.shared() == stream,
    {
        FalseSplitByBuffered { stream }
    }

    /// Borrow the shared coordinator, for a caller that serializes access to
    /// it with a non-blocking lock attempt.
    pub fn coordinator(&self) -> (r: &Arc<Mutex<SplitByBuffered<I, S, P>>>)
        ensures
            r == self.shared(),
    {
        &self.stream
    }
}

} // verus!
