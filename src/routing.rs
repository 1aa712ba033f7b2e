use crate::registry::Registry;
use vstd::prelude::*;

verus! {

broadcast use Seq::lemma_filter_push;

/// The responses among `responses` whose target has a callback in `registry`,
/// in order.
pub open spec fn routable<C>(registry: Map<u32, C>, responses: Seq<(u32, Seq<u8>)>) -> Seq<
    (u32, Seq<u8>),
> {
    responses.filter(|r: (u32, Seq<u8>)| registry.contains_key(r.0))
}

/// One response produced by the engine: opaque bytes and the session that
/// should receive them.
pub struct Response {
    pub target: u32,
    pub payload: Vec<u8>,
}

impl View for Response {
    type V = (u32, Seq<u8>);

    open spec fn view(&self) -> (u32, Seq<u8>) {
        (self.target, self.payload@)
    }
}

/// What the caller does next while delivering a batch.
pub enum Step<'a, C, E> {
    /// Hand the payload of response `index` to `callback`, then report the
    /// callback's outcome to the next call of `Batch::advance`.
    Deliver { index: usize, callback: &'a C },
    /// The batch is over; this is the outcome of the whole routing call.
    Done(Result<(), E>),
}

/// The responses of one engine call, delivered in the order the engine
/// produced them.
///
/// Responses whose target has no registered callback are dropped; the first
/// failed delivery ends the batch, and nothing after it is delivered.
pub struct Batch {
    responses: Vec<Response>,
    cursor: usize,
    failed: bool,
    delivered: Ghost<Seq<int>>,
}

impl Batch {
    /// The responses of the batch, in the order the engine produced them.
    pub closed spec fn responses(&self) -> Seq<(u32, Seq<u8>)> {
        self.responses@.map_values(|r: Response| r@)
    }

    /// How many responses have been either handed out or dropped.
    pub closed spec fn cursor(&self) -> int {
        self.cursor as int
    }

    /// Whether a delivery of this batch has failed.
    pub closed spec fn failed(&self) -> bool {
        self.failed
    }

    /// The indices of the responses handed out for delivery, in order.
    pub closed spec fn delivered(&self) -> Seq<int> {
        self.delivered@
    }

    /// The responses handed out for delivery, in the order they were handed out.
    pub open spec fn trace(&self) -> Seq<(u32, Seq<u8>)> {
        self.delivered().map_values(|i: int| self.responses()[i])
    }

    /// The cursor stays within the batch, and the responses handed out lie
    /// before it, in increasing order.
    pub closed spec fn wf(&self) -> bool {
        &&& self.cursor <= self.responses@.len()
        &&& forall|k: int|
            0 <= k < self.delivered@.len() ==> 0 <= #[trigger] self.delivered@[k] < self.cursor
        &&& forall|k: int, l: int|
            0 <= k < l < self.delivered@.len() ==> #[trigger] self.delivered@[k]
                < #[trigger] self.delivered@[l]
    }

    /// A batch of which nothing has been delivered yet.
    pub fn new(responses: Vec<Response>) -> (r: Batch)
        ensures
            r.wf(),
            r.responses() == responses@.map_values(|r: Response| r@),
            r.cursor() == 0,
            !r.failed(),
            r.delivered() == Seq::<int>::empty(),
    {
        Batch { responses, cursor: 0, failed: false, delivered: Ghost(Seq::empty()) }
    }

    /// The number of responses in the batch.
    pub fn len(&self) -> (r: usize)
        ensures
            r == self.responses().len(),
    {
        self.responses.len()
    }

    /// The session that response `index` is meant for.
    pub fn target(&self, index: usize) -> (r: u32)
        requires
            index < self.responses().len(),
        ensures
            r == self.responses()[index as int].0,
    {
        self.responses[index].target
    }

    /// The bytes of response `index`, as the engine produced them.
    pub fn payload(&self, index: usize) -> (r: &[u8])
        requires
            index < self.responses().len(),
        ensures
            r@ == self.responses()[index as int].1,
    {
        self.responses[index].payload.as_slice()
    }

    /// Takes the outcome of the previous delivery (`Ok(())` before the first)
    /// and says what to do next.
    ///
    /// A failed outcome ends the batch at once and is the batch's result; a
    /// batch that has failed delivers nothing more. Otherwise the responses
    /// after the cursor whose target is not registered are dropped, and the
    /// first one whose target is registered is handed out with the callback
    /// registered for it now. When none is left, the batch succeeds.
    pub fn advance<'a, C, E>(&mut self, registry: &'a Registry<C>, last: Result<(), E>) -> (r:
        Step<'a, C, E>)
        requires
            old(self).wf(),
        ensures
            final(self).wf(),
            final(self).responses() == old(self).responses(),
            old(self).failed() || last is Err ==> {
                &&& r == Step::<'a, C, E>::Done(last)
                &&& final(self).failed()
                &&& final(self).cursor() == old(self).cursor()
                &&& final(self).delivered() == old(self).delivered()
            },
            !old(self).failed() && last is Ok ==> final(self).trace() == old(self).trace()
                + routable(
                registry@,
                old(self).responses().subrange(old(self).cursor(), final(self).cursor()),
            ),
            !old(self).failed() && last is Ok ==> !final(self).failed() && match r {
                Step::Deliver { index, callback } => {
                    let target = old(self).responses()[index as int].0;
                    &&& old(self).cursor() <= index < old(self).responses().len()
                    &&& final(self).cursor() == index + 1
                    &&& registry@.contains_key(target)
                    &&& *callback == registry@[target]
                    &&& forall|j: int|
                        old(self).cursor() <= j < index ==> !registry@.contains_key(
                            #[trigger] old(self).responses()[j].0,
                        )
                    &&& final(self).delivered() == old(self).delivered().push(index as int)
                    &&& final(self).trace() == old(self).trace().push(
                        old(self).responses()[index as int],
                    )
                },
                Step::Done(res) => {
                    &&& res is Ok
                    &&& final(self).cursor() == old(self).responses().len()
                    &&& forall|j: int|
                        old(self).cursor() <= j < old(self).responses().len()
                            ==> !registry@.contains_key(#[trigger] old(self).responses()[j].0)
                    &&& final(self).delivered() == old(self).delivered()
                },
            },
    {
        if self.failed {
            return Step::Done(last);
        }
        if last.is_err() {
            self.failed = true;
            return Step::Done(last);
        }
        while self.cursor < self.responses.len()
            invariant
                self.wf(),
                !old(self).failed,
                last is Ok,
                self.responses@ == old(self).responses@,
                !self.failed,
                old(self).cursor <= self.cursor,
                self.delivered@ == old(self).delivered@,
                routable(registry@, self.responses().subrange(old(self).cursor as int, self.cursor as int))
                    == Seq::<(u32, Seq<u8>)>::empty(),
                forall|j: int|
                    old(self).cursor <= j < self.cursor ==> !registry@.contains_key(
                        #[trigger] self.responses@[j].target,
                    ),
            decreases self.responses@.len() - self.cursor,
        {
            let i = self.cursor;
            proof {
                let done = self.responses().subrange(old(self).cursor as int, i as int);
                assert(self.responses().subrange(old(self).cursor as int, i + 1) =~= done.push(
                    self.responses()[i as int],
                ));
            }
            match registry.lookup(self.responses[i].target) {
                Some(callback) => {
                    self.cursor = i + 1;
                    self.delivered = Ghost(self.delivered@.push(i as int));
                    return Step::Deliver { index: i, callback };
                },
                None => {
                    self.cursor = i + 1;
                },
            }
        }
        Step::Done(Ok(()))
    }
}

/// The payloads that session `target` receives from a sequence of deliveries,
/// in the order they are delivered.
pub open spec fn received(target: u32, trace: Seq<(u32, Seq<u8>)>) -> Seq<Seq<u8>> {
    trace.filter(|r: (u32, Seq<u8>)| r.0 == target).map_values(|r: (u32, Seq<u8>)| r.1)
}

/// Within one batch, responses are handed out in the order the engine
/// produced them: an earlier hand-out always has the lower index.
pub proof fn lemma_batch_order(batch: &Batch)
    requires
        batch.wf(),
    ensures
        forall|k: int, l: int|
            0 <= k < l < batch.delivered().len() ==> #[trigger] batch.delivered()[k]
                < #[trigger] batch.delivered()[l],
{
}

/// When the deliveries of one routing call all come before those of another,
/// each target receives the responses of the first call before those of the
/// second, each call's in its own order.
pub proof fn lemma_per_target_order(
    target: u32,
    first: Seq<(u32, Seq<u8>)>,
    second: Seq<(u32, Seq<u8>)>,
)
    ensures
        received(target, first + second) == received(target, first) + received(target, second),
{
    let pred = |r: (u32, Seq<u8>)| r.0 == target;
    Seq::filter_distributes_over_add(first, second, pred);
    assert(received(target, first + second) =~= received(target, first) + received(
        target,
        second,
    ));
}

/// Consecutive steps compose: what is handed out between cursors `a` and `b`
/// and then between `b` and `c` is what is routable between `a` and `c`. So a
/// batch run from start to end against a registry that does not change, with
/// no failed delivery, hands out exactly the routable responses, in order.
pub proof fn lemma_steps_compose<C>(
    registry: Map<u32, C>,
    responses: Seq<(u32, Seq<u8>)>,
    a: int,
    b: int,
    c: int,
)
    requires
        0 <= a <= b <= c <= responses.len(),
    ensures
        routable(registry, responses.subrange(a, b)) + routable(registry, responses.subrange(b, c))
            == routable(registry, responses.subrange(a, c)),
{
    broadcast use Seq::filter_distributes_over_add;

    assert(responses.subrange(a, c) =~= responses.subrange(a, b) + responses.subrange(b, c));
}

} // verus!
