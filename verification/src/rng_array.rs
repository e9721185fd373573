//! Seeded stream generator: eight independently seeded pseudorandom streams,
//! of which the active one picks the stream that serves each draw.

use rand::distributions::{Distribution, Uniform};
use rand::rngs::StdRng;
use rand::{Rng, SeedableRng};
use vstd::prelude::*;

verus! {

/// Number of streams that a generator holds.
pub const STREAM_COUNT: usize = 8;

/// `rand::rngs::StdRng`, the generator behind each stream. The verifier sees
/// nothing inside it.
#[verifier::external_type_specification]
#[verifier::external_body]
pub struct ExStdRng(StdRng);

/// The internal state of a stream, as the words it holds.
pub uninterp spec fn stream_state(rng: StdRng) -> Seq<u32>;

/// The state of a stream that was just seeded with `seed`.
pub uninterp spec fn seeded_state(seed: u64) -> Seq<u32>;

/// What a stream in state `state` answers when asked for a selector, and the
/// state in which that leaves it.
pub uninterp spec fn selector_draw(state: Seq<u32>) -> (u32, Seq<u32>);

/// What a stream in state `state` answers when asked for a uniform integer of
/// `[low, high)`, and the state in which that leaves it.
pub uninterp spec fn uniform_draw(state: Seq<u32>, low: u32, high: u32) -> (u32, Seq<u32>);

/// `StdRng::seed_from_u64`: the stream depends on the seed alone.
#[verifier::external_body]
fn seed_stream(seed: u64) -> (rng: StdRng)
    ensures
        stream_state(rng) == seeded_state(seed),
{
    StdRng::seed_from_u64(seed)
}

/// `Rng::gen_range` over `0..8` on a `StdRng`: the answer lies in the range,
/// and it and the state left behind depend on the state before alone.
#[verifier::external_body]
fn draw_selector(rng: &mut StdRng) -> (selector: u32)
    ensures
        selector < 8,
        (selector, stream_state(*final(rng))) == selector_draw(stream_state(*old(rng))),
{
    rng.gen_range(0..8)
}

/// `Uniform::from(low..high)` and one `Distribution::sample` of it on a
/// `StdRng`: the answer lies in the range, and it and the state left behind
/// depend on the state before and on the bounds alone. The outside call
/// panics on an empty range.
#[verifier::external_body]
fn draw_uniform(rng: &mut StdRng, low: u32, high: u32) -> (value: u32)
    requires
        low < high,
    ensures
        low <= value < high,
        (value, stream_state(*final(rng))) == uniform_draw(stream_state(*old(rng)), low, high),
{
    Uniform::from(low..high).sample(rng)
}

/// The generator as contracts see it: the state of each stream, and which
/// stream is active.
pub struct StreamsView {
    pub states: Seq<Seq<u32>>,
    pub active: nat,
}

/// The generator right after it was built from `seeds`.
pub open spec fn initial_streams(seeds: Seq<u64>) -> StreamsView {
    StreamsView { states: Seq::new(seeds.len(), |i: int| seeded_state(seeds[i])), active: 0 }
}

/// First half of a draw: the active stream names the stream that serves the
/// draw, and advances by doing so.
pub open spec fn select_step(v: StreamsView) -> StreamsView {
    let drawn = selector_draw(v.states[v.active as int]);
    StreamsView { states: v.states.update(v.active as int, drawn.1), active: drawn.0 as nat }
}

/// A whole draw of a uniform integer of `[low, high)`: the value, and the
/// generator after it.
pub open spec fn uniform_step(v: StreamsView, low: u32, high: u32) -> (u32, StreamsView) {
    let chosen = select_step(v);
    let drawn = uniform_draw(chosen.states[chosen.active as int], low, high);
    (
        drawn.0,
        StreamsView {
            states: chosen.states.update(chosen.active as int, drawn.1),
            active: chosen.active,
        },
    )
}

/// The draws that a run of requests gives, each request being the bounds
/// `(low, high)` of a uniform integer: for each draw the stream that served
/// it and the value.
pub open spec fn draw_trace(v: StreamsView, requests: Seq<(u32, u32)>) -> Seq<(u32, u32)>
    decreases requests.len(),
{
    if requests.len() == 0 {
        Seq::empty()
    } else {
        let drawn = uniform_step(v, requests[0].0, requests[0].1);
        seq![(drawn.1.active as u32, drawn.0)] + draw_trace(drawn.1, requests.drop_first())
    }
}

/// The generator after a run of requests.
pub open spec fn streams_after(v: StreamsView, requests: Seq<(u32, u32)>) -> StreamsView
    decreases requests.len(),
{
    if requests.len() == 0 {
        v
    } else {
        streams_after(uniform_step(v, requests[0].0, requests[0].1).1, requests.drop_first())
    }
}

/// Two generators built from the same seeds answer the same run of requests
/// with the same streams and the same values, and are left in the same
/// state.
pub proof fn lemma_same_seeds_same_draws(
    a: RngArrayNative,
    b: RngArrayNative,
    seeds: Seq<u64>,
    requests: Seq<(u32, u32)>,
)
    requires
        a@ == initial_streams(seeds),
        b@ == initial_streams(seeds),
    ensures
        draw_trace(a@, requests) == draw_trace(b@, requests),
        streams_after(a@, requests) == streams_after(b@, requests),
{
}

/// A run of requests followed by one more draw is the run of all of them.
pub proof fn lemma_draw_trace_extends(v: StreamsView, requests: Seq<(u32, u32)>, last: (u32, u32))
    ensures
        draw_trace(v, requests.push(last)) == draw_trace(v, requests).push(
            (
                uniform_step(streams_after(v, requests), last.0, last.1).1.active as u32,
                uniform_step(streams_after(v, requests), last.0, last.1).0,
            ),
        ),
        streams_after(v, requests.push(last)) == uniform_step(
            streams_after(v, requests),
            last.0,
            last.1,
        ).1,
    decreases requests.len(),
{
    let longer = requests.push(last);
    if requests.len() == 0 {
        let next = uniform_step(v, last.0, last.1).1;
        assert(longer[0] == last);
        assert(longer.drop_first() =~= requests);
        assert(draw_trace(next, longer.drop_first()) =~= Seq::<(u32, u32)>::empty());
        assert(streams_after(next, longer.drop_first()) == next);
        assert(draw_trace(v, longer) =~= draw_trace(v, requests).push(
            (uniform_step(v, last.0, last.1).1.active as u32, uniform_step(v, last.0, last.1).0),
        ));
    } else {
        let next = uniform_step(v, requests[0].0, requests[0].1).1;
        assert(longer[0] == requests[0]);
        assert(longer.drop_first() =~= requests.drop_first().push(last));
        lemma_draw_trace_extends(next, requests.drop_first(), last);
        assert(draw_trace(v, longer) =~= draw_trace(v, requests).push(
            (
                uniform_step(streams_after(v, requests), last.0, last.1).1.active as u32,
                uniform_step(streams_after(v, requests), last.0, last.1).0,
            ),
        ));
    }
}

/// Eight seeded streams and the index of the active one.
pub struct RngArrayNative {
    rngs: Vec<StdRng>,
    index: u32,
}

impl View for RngArrayNative {
    type V = StreamsView;

    closed spec fn view(&self) -> StreamsView {
        StreamsView {
            states: Seq::new(self.rngs@.len(), |i: int| stream_state(self.rngs@[i])),
            active: self.index as nat,
        }
    }
}

impl RngArrayNative {
    /// Eight streams, and an active stream among them.
    pub open spec fn wf(&self) -> bool {
        &&& self@.states.len() == STREAM_COUNT
        &&& self@.active < STREAM_COUNT
    }

    /// Seeds stream `i` with `seeds[i]`; stream 0 is active.
    pub fn new(seeds: [u64; 8]) -> (generator: RngArrayNative)
        ensures
            generator.wf(),
            generator@ == initial_streams(seeds@),
    {
        let mut rngs: Vec<StdRng> = Vec::new();
        let mut i: usize = 0;
        while i < 8
            invariant
                i <= 8,
                rngs@.len() == i,
                forall|j: int| 0 <= j < i ==> stream_state(#[trigger] rngs@[j]) == seeded_state(seeds@[j]),
            decreases 8 - i,
        {
            rngs.push(seed_stream(seeds[i]));
            i = i + 1;
        }
        let generator = RngArrayNative { rngs, index: 0 };
        assert(generator@.states =~= initial_streams(seeds@).states);
        generator
    }

    /// Lets the active stream pick the stream for this draw and hands that
    /// stream out; it stays active for the next draw.
    pub fn get_mut(&mut self) -> (rng: &mut StdRng)
        requires
            old(self).wf(),
        ensures
            stream_state(*rng) == select_step(old(self)@).states[select_step(old(self)@).active as int],
            final(self)@.states =~= select_step(old(self)@).states.update(
                select_step(old(self)@).active as int,
                stream_state(*final(rng)),
            ),
            final(self)@.active == select_step(old(self)@).active,
            final(self).wf(),
    {
        let active = self.index as usize;
        let selector = draw_selector(&mut self.rngs[active]);
        self.index = selector;
        proof {
            assert(self@.states =~= select_step(old(self)@).states);
        }
        let chosen = selector as usize;
        &mut self.rngs[chosen]
    }

    /// Draws a uniform integer of `[low, high)` from the stream that the
    /// active stream picks.
    pub fn sample_uniform(&mut self, low: u32, high: u32) -> (value: u32)
        requires
            old(self).wf(),
            low < high,
        ensures
            final(self).wf(),
            low <= value < high,
            (value, final(self)@) == uniform_step(old(self)@, low, high),
    {
        let rng = self.get_mut();
        let value = draw_uniform(rng, low, high);
        value
    }

    /// Serves a run of requests in order, each the bounds `(low, high)` of a
    /// uniform integer, and answers each with the stream that served it and
    /// the value.
    pub fn sample_many(&mut self, requests: &Vec<(u32, u32)>) -> (draws: Vec<(u32, u32)>)
        requires
            old(self).wf(),
            forall|k: int| 0 <= k < requests@.len() ==> (#[trigger] requests@[k]).0 < requests@[k].1,
        ensures
            final(self).wf(),
            draws@ == draw_trace(old(self)@, requests@),
            final(self)@ == streams_after(old(self)@, requests@),
    {
        let mut draws: Vec<(u32, u32)> = Vec::new();
        let mut i: usize = 0;
        assert(requests@.take(0) =~= Seq::<(u32, u32)>::empty());
        while i < requests.len()
            invariant
                i <= requests.len(),
                self.wf(),
                forall|k: int|
                    0 <= k < requests@.len() ==> (#[trigger] requests@[k]).0 < requests@[k].1,
                draws@ == draw_trace(old(self)@, requests@.take(i as int)),
                self@ == streams_after(old(self)@, requests@.take(i as int)),
            decreases requests.len() - i,
        {
            proof {
                lemma_draw_trace_extends(old(self)@, requests@.take(i as int), requests@[i as int]);
                assert(requests@.take(i as int).push(requests@[i as int]) =~= requests@.take(i + 1));
            }
            let value = self.sample_uniform(requests[i].0, requests[i].1);
            draws.push((self.index, value));
            i = i + 1;
        }
        assert(requests@.take(i as int) =~= requests@);
        draws
    }

    /// The stream that serves as selector for the next draw.
    pub fn active_stream(&self) -> (index: u32)
        ensures
            index == self@.active,
    {
        self.index
    }
}

} // verus!
