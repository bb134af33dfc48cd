//! Resampling by linear interpolation, across chunk boundaries.
//!
//! Output samples lie on a grid that runs through the whole stream of input
//! samples: output `k` at `k * from_rate / to_rate` input samples from the
//! first. The resampler works out between which two input samples each output
//! lies, and how far; it carries the last sample of a chunk and its place on
//! the grid over to the next chunk, so that it makes no difference where the
//! stream is cut.

use vstd::arithmetic::div_mod::*;
use vstd::arithmetic::mul::*;
use vstd::prelude::*;

verus! {

/// An output sample: `a` and `b` are the input samples around it, and it lies
/// `num / to_rate` of the way from `a` to `b`, so that its value is
/// `a * (1 - num / to_rate) + b * num / to_rate`.
#[derive(Debug)]
pub struct Tap<T> {
    pub a: T,
    pub b: T,
    pub num: u32,
}

/// The place of a resampler in its stream.
#[derive(Debug)]
pub struct Resampler<T> {
    /// Input samples per second.
    pub from_rate: u32,
    /// Output samples per second.
    pub to_rate: u32,
    /// The next output's place, in parts of `1 / to_rate` of an input sample
    /// from the carried sample, or from the first one at the start.
    pub phase: u32,
    /// The last sample of the chunk before.
    pub carry: Option<T>,
}

/// How many grid places `pos`, `pos + step`, `pos + 2 * step`, .. lie at or
/// before `bound`.
pub open spec fn places(pos: int, step: int, bound: int) -> int {
    if pos > bound {
        0
    } else {
        (bound - pos) / step + 1
    }
}

/// The output at `pos` parts of `1 / to` from the first of `samples`. Past the
/// last sample there is nothing to lean to, so the last stands in for it. At no
/// samples per second there is one output, the first sample.
pub open spec fn tap_at<T>(samples: Seq<T>, pos: int, to: int) -> Tap<T> {
    let i = if to == 0 {
        0
    } else {
        pos / to
    };
    Tap {
        a: samples[i],
        b: if i + 1 < samples.len() {
            samples[i + 1]
        } else {
            samples.last()
        },
        num: if to == 0 {
            0
        } else {
            (pos % to) as u32
        },
    }
}

/// Two outputs of the same value: between the same samples, or on the same one.
pub open spec fn same_tap<T>(x: Tap<T>, y: Tap<T>) -> bool {
    x.a == y.a && x.num == y.num && (x.num != 0 ==> x.b == y.b)
}

pub open spec fn same_taps<T>(x: Seq<Tap<T>>, y: Seq<Tap<T>>) -> bool {
    x.len() == y.len() && forall|i: int|
        0 <= i < x.len() ==> same_tap(#[trigger] x[i], #[trigger] y[i])
}

impl<T> Resampler<T> {
    /// An input rate above zero; at the start nothing is carried and the first output
    /// is the first sample; later the next output lies after the carried
    /// sample.
    pub open spec fn wf(self) -> bool {
        &&& self.from_rate > 0
        &&& match self.carry {
            None => self.phase == 0,
            Some(_) => 0 < self.phase <= self.from_rate,
        }
    }

    /// The samples at hand: the carried one, then those of a chunk.
    pub open spec fn at_hand(self, input: Seq<T>) -> Seq<T> {
        match self.carry {
            None => input,
            Some(c) => seq![c] + input,
        }
    }

    /// The place of the last sample at hand.
    pub open spec fn last_place(self, input: Seq<T>) -> int {
        (self.at_hand(input).len() - 1) * self.to_rate
    }

    /// How many outputs a chunk completes.
    pub open spec fn count(self, input: Seq<T>) -> int {
        if input.len() == 0 {
            0
        } else {
            places(self.phase as int, self.from_rate as int, self.last_place(input))
        }
    }

    /// The outputs that a chunk completes: those up to its last sample.
    pub open spec fn taps(self, input: Seq<T>) -> Seq<Tap<T>> {
        Seq::new(
            self.count(input) as nat,
            |k: int|
                tap_at(
                    self.at_hand(input),
                    self.phase + k * self.from_rate,
                    self.to_rate as int,
                ),
        )
    }

    /// The resampler after a chunk.
    pub open spec fn after(self, input: Seq<T>) -> Resampler<T> {
        if input.len() == 0 {
            self
        } else {
            Resampler {
                phase: (self.phase + self.count(input) * self.from_rate - self.last_place(
                    input,
                )) as u32,
                carry: Some(input.last()),
                ..self
            }
        }
    }
}

/// `n` is the number of places exactly if the place after the first `n` is the
/// first that lies past the bound.
proof fn lemma_places(pos: int, step: int, bound: int)
    requires
        step > 0,
    ensures
        places(pos, step, bound) >= 0,
        pos + places(pos, step, bound) * step > bound,
        places(pos, step, bound) > 0 ==> pos + (places(pos, step, bound) - 1) * step <= bound,
{
    if pos <= bound {
        let d = bound - pos;
        lemma_fundamental_div_mod(d, step);
        lemma_mod_bound(d, step);
        lemma_div_pos_is_pos(d, step);
        lemma_mul_is_distributive_add_other_way(step, d / step, 1);
        lemma_mul_is_commutative(step, d / step);
    }
}

proof fn lemma_places_unique(pos: int, step: int, bound: int, n: int)
    requires
        step > 0,
        n >= 0,
        pos + n * step > bound,
        n > 0 ==> pos + (n - 1) * step <= bound,
    ensures
        places(pos, step, bound) == n,
{
    lemma_places(pos, step, bound);
    let m = places(pos, step, bound);
    if n < m {
        assert(n * step <= (m - 1) * step) by (nonlinear_arith)
            requires
                n <= m - 1,
                step > 0,
        ;
    } else if m < n {
        assert(m * step <= (n - 1) * step) by (nonlinear_arith)
            requires
                m <= n - 1,
                step > 0,
        ;
    }
}

/// The step of the phase keeps the resampler well-formed.
proof fn lemma_phase<T>(s: Resampler<T>, input: Seq<T>)
    requires
        s.wf(),
        input.len() > 0,
    ensures
        s.count(input) >= 0,
        0 < s.phase + s.count(input) * s.from_rate - s.last_place(input) <= s.from_rate,
        s.after(input).wf(),
        s.last_place(input) >= 0,
{
    let bound = s.last_place(input);
    lemma_places(s.phase as int, s.from_rate as int, bound);
    assert(bound >= 0) by (nonlinear_arith)
        requires
            bound == (s.at_hand(input).len() - 1) * s.to_rate,
            s.at_hand(input).len() >= 1,
            s.to_rate >= 0,
    ;
    let n = s.count(input);
    assert((n - 1) * s.from_rate == n * s.from_rate - s.from_rate) by (nonlinear_arith);
    if n == 0 {
        assert(s.carry is Some);
        assert(n * s.from_rate == 0) by (nonlinear_arith)
            requires
                n == 0,
        ;
    }
}

impl<T: Copy> Resampler<T> {
    /// A resampler at the start of its stream.
    pub fn new(from_rate: u32, to_rate: u32) -> (res: Self)
        requires
            from_rate > 0,
        ensures
            res.wf(),
            res.from_rate == from_rate,
            res.to_rate == to_rate,
            res.phase == 0,
            res.carry is None,
    {
        Resampler { from_rate, to_rate, phase: 0, carry: None }
    }

    /// Takes the next chunk of the stream and gives the outputs that it
    /// completes. An empty chunk changes nothing.
    pub fn process(&mut self, input: &[T]) -> (res: Vec<Tap<T>>)
        requires
            old(self).wf(),
        ensures
            res@ == old(self).taps(input@),
            *final(self) == old(self).after(input@),
            final(self).wf(),
    {
        let mut out: Vec<Tap<T>> = Vec::new();
        if input.len() == 0 {
            assert(out@ =~= old(self).taps(input@));
            return out;
        }
        let ghost before = *self;
        let ghost samples = before.at_hand(input@);
        let ghost from = before.from_rate as int;
        let ghost to = before.to_rate as int;
        let carried: usize = if self.carry.is_some() {
            1
        } else {
            0
        };
        let last: u128 = carried as u128 + input.len() as u128 - 1;
        assert(last == samples.len() - 1);
        assert(last * to <= usize::MAX * u32::MAX) by (nonlinear_arith)
            requires
                0 <= last <= usize::MAX,
                0 <= to <= u32::MAX,
        ;
        let bound: u128 = last * self.to_rate as u128;
        let mut pos: u128 = self.phase as u128;
        proof {
            lemma_phase(before, input@);
            lemma_places(before.phase as int, from, bound as int);
            assert(0 * from == 0);
        }
        while pos <= bound
            invariant
                before.wf(),
                *self == before,
                input@.len() > 0,
                samples == before.at_hand(input@),
                from == before.from_rate,
                to == before.to_rate,
                carried == (if before.carry is Some {
                    1int
                } else {
                    0
                }),
                last == samples.len() - 1,
                last <= usize::MAX,
                bound == last * to,
                bound <= usize::MAX * u32::MAX,
                bound == before.last_place(input@),
                pos == before.phase + out@.len() * from,
                pos <= bound + from,
                out@.len() > 0 ==> before.phase + (out@.len() - 1) * from <= bound,
                forall|k: int|
                    0 <= k < out@.len() ==> out@[k] == tap_at(
                        samples,
                        #[trigger] (before.phase + k * from),
                        to,
                    ),
            decreases bound + from - pos,
        {
            let to_rate: u128 = self.to_rate as u128;
            let idx: u128 = if to_rate == 0 {
                0
            } else {
                pos / to_rate
            };
            let num: u128 = if to_rate == 0 {
                0
            } else {
                pos % to_rate
            };
            proof {
                if to > 0 {
                    lemma_div_is_ordered(pos as int, bound as int, to);
                    lemma_div_multiples_vanish(last as int, to);
                    lemma_mul_is_commutative(last as int, to);
                    lemma_mod_bound(pos as int, to);
                    lemma_div_pos_is_pos(pos as int, to);
                }
                assert(idx <= last);
                assert(num <= to);
            }
            let next: u128 = if idx < last {
                idx + 1
            } else {
                last
            };
            let a: T = self.sample(input, idx as usize);
            let b: T = self.sample(input, next as usize);
            let ghost k = out@.len() as int;
            out.push(Tap { a, b, num: num as u32 });
            proof {
                assert(pos == before.phase + k * from);
                assert((k + 1) * from == k * from + from) by (nonlinear_arith);
                assert(out@[k] == tap_at(samples, before.phase + k * from, to));
            }
            pos = pos + self.from_rate as u128;
        }
        proof {
            lemma_places_unique(before.phase as int, from, bound as int, out@.len() as int);
            assert(out@ =~= before.taps(input@));
        }
        self.phase = (pos - bound) as u32;
        self.carry = Some(input[input.len() - 1]);
        out
    }

    /// The sample at hand at `i`.
    fn sample(&self, input: &[T], i: usize) -> (res: T)
        requires
            i < self.at_hand(input@).len(),
        ensures
            res == self.at_hand(input@)[i as int],
    {
        match self.carry {
            Some(c) => if i == 0 {
                c
            } else {
                input[i - 1]
            },
            None => input[i],
        }
    }
}

/// The first output of the rest of the stream lies where the outputs so far
/// leave off.
proof fn lemma_chunk_count<T>(s: Resampler<T>, x: Seq<T>, y: Seq<T>)
    requires
        s.wf(),
        x.len() > 0,
        y.len() > 0,
    ensures
        s.last_place(x + y) == s.last_place(x) + s.after(x).last_place(y),
        s.count(x + y) == s.count(x) + s.after(x).count(y),
{
    let mid = s.after(x);
    let from = s.from_rate as int;
    let to = s.to_rate as int;
    lemma_phase(s, x);
    lemma_phase(mid, y);
    assert(s.at_hand(x + y).len() == s.at_hand(x).len() + y.len());
    assert(mid.at_hand(y).len() == 1 + y.len());
    lemma_mul_is_distributive_add_other_way(to, s.at_hand(x).len() - 1, y.len() as int);
    let n1 = s.count(x);
    let n2 = mid.count(y);
    lemma_mul_is_distributive_add_other_way(from, n1, n2);
    lemma_mul_is_distributive_add_other_way(from, n1, n2 - 1);
    lemma_places(s.phase as int, from, s.last_place(x));
    lemma_places(mid.phase as int, from, mid.last_place(y));
    if n2 == 0 && n1 > 0 {
        assert(0 * from == 0);
        assert(mid.last_place(y) >= 0);
    }
    lemma_places_unique(s.phase as int, from, s.last_place(x + y), n1 + n2);
}

/// An output that the first part of a chunk completes is the same with the
/// whole chunk at hand.
proof fn lemma_left_tap<T>(left: Seq<T>, y: Seq<T>, pos: int, to: int)
    requires
        to > 0,
        left.len() > 0,
        0 <= pos <= (left.len() - 1) * to,
    ensures
        same_tap(tap_at(left + y, pos, to), tap_at(left, pos, to)),
{
    let edge = left.len() - 1;
    lemma_div_is_ordered(pos, edge * to, to);
    lemma_div_multiples_vanish(edge, to);
    lemma_mul_is_commutative(edge, to);
    lemma_div_pos_is_pos(pos, to);
    lemma_fundamental_div_mod(pos, to);
    if pos / to == edge {
        lemma_mod_bound(pos, to);
        assert(pos % to == 0);
    }
}

/// An output after the first part of a chunk is the same with only the last
/// sample of that part at hand.
proof fn lemma_right_tap<T>(whole: Seq<T>, edge: int, pos: int, to: int)
    requires
        0 < to <= u32::MAX,
        0 <= edge < whole.len(),
        0 <= pos <= (whole.len() - 1 - edge) * to,
    ensures
        tap_at(whole, edge * to + pos, to) == tap_at(whole.skip(edge), pos, to),
{
    let rest = whole.len() - 1 - edge;
    lemma_div_is_ordered(pos, rest * to, to);
    lemma_div_multiples_vanish(rest, to);
    lemma_mul_is_commutative(rest, to);
    lemma_div_pos_is_pos(pos, to);
    lemma_hoist_over_denominator(pos, edge, to as nat);
    lemma_mod_multiples_vanish(edge, pos, to);
    lemma_mul_is_commutative(edge, to);
    assert((edge * to + pos) / to == pos / to + edge);
    assert((edge * to + pos) % to == pos % to);
}

/// Cutting a chunk in two makes no difference to the outputs, nor to what is
/// carried on.
pub proof fn law_two_chunks<T>(s: Resampler<T>, x: Seq<T>, y: Seq<T>)
    requires
        s.wf(),
    ensures
        s.after(x + y) == s.after(x).after(y),
        same_taps(s.taps(x + y), s.taps(x) + s.after(x).taps(y)),
        s.after(x).wf(),
{
    let mid = s.after(x);
    if x.len() == 0 {
        assert(x + y =~= y);
        assert(s.taps(x) + mid.taps(y) =~= s.taps(y));
    } else if y.len() == 0 {
        assert(x + y =~= x);
        assert(s.taps(x) + mid.taps(y) =~= s.taps(x));
        lemma_phase(s, x);
    } else {
        lemma_two_chunks_state(s, x, y);
        lemma_two_chunks_taps(s, x, y);
    }
}

proof fn lemma_two_chunks_state<T>(s: Resampler<T>, x: Seq<T>, y: Seq<T>)
    requires
        s.wf(),
        x.len() > 0,
        y.len() > 0,
    ensures
        s.after(x + y) == s.after(x).after(y),
        s.after(x).wf(),
{
    lemma_phase(s, x);
    lemma_phase(s.after(x), y);
    lemma_chunk_count(s, x, y);
    lemma_mul_is_distributive_add_other_way(
        s.from_rate as int,
        s.count(x),
        s.after(x).count(y),
    );
    assert((x + y).last() == y.last());
}

proof fn lemma_tap_of_first<T>(s: Resampler<T>, x: Seq<T>, y: Seq<T>, k: int)
    requires
        s.wf(),
        x.len() > 0,
        0 <= k < s.count(x),
    ensures
        same_tap(
            tap_at(s.at_hand(x + y), s.phase + k * s.from_rate, s.to_rate as int),
            tap_at(s.at_hand(x), s.phase + k * s.from_rate, s.to_rate as int),
        ),
{
    let from = s.from_rate as int;
    lemma_mul_nonnegative(k, from);
    lemma_places(s.phase as int, from, s.last_place(x));
    lemma_mul_inequality(k, s.count(x) - 1, from);
    assert(s.at_hand(x + y) =~= s.at_hand(x) + y);
    if s.to_rate > 0 {
        lemma_left_tap(s.at_hand(x), y, s.phase + k * from, s.to_rate as int);
    }
}

proof fn lemma_tap_of_second<T>(s: Resampler<T>, x: Seq<T>, y: Seq<T>, j: int)
    requires
        s.wf(),
        x.len() > 0,
        y.len() > 0,
        0 <= j < s.after(x).count(y),
    ensures
        tap_at(
            s.at_hand(x + y),
            s.phase + (s.count(x) + j) * s.from_rate,
            s.to_rate as int,
        ) == tap_at(
            s.after(x).at_hand(y),
            s.after(x).phase + j * s.from_rate,
            s.to_rate as int,
        ),
{
    let mid = s.after(x);
    let from = s.from_rate as int;
    let whole = s.at_hand(x + y);
    let edge = s.at_hand(x).len() - 1;
    lemma_phase(s, x);
    lemma_mul_nonnegative(j, from);
    lemma_places(mid.phase as int, from, mid.last_place(y));
    lemma_mul_inequality(j, mid.count(y) - 1, from);
    lemma_mul_is_distributive_add_other_way(from, s.count(x), j);
    assert(whole =~= s.at_hand(x) + y);
    assert(mid.at_hand(y) =~= whole.skip(edge));
    if s.to_rate == 0 {
        assert(mid.last_place(y) == 0) by (nonlinear_arith)
            requires
                mid.last_place(y) == (mid.at_hand(y).len() - 1) * s.to_rate,
                s.to_rate == 0,
        ;
        assert(mid.count(y) == 0);
    }
    lemma_right_tap(whole, edge, mid.phase + j * from, s.to_rate as int);
}

proof fn lemma_two_chunks_taps<T>(s: Resampler<T>, x: Seq<T>, y: Seq<T>)
    requires
        s.wf(),
        x.len() > 0,
        y.len() > 0,
    ensures
        same_taps(s.taps(x + y), s.taps(x) + s.after(x).taps(y)),
{
    let mid = s.after(x);
    lemma_phase(s, x);
    lemma_phase(mid, y);
    lemma_chunk_count(s, x, y);
    let n1 = s.count(x);
    let all = s.taps(x + y);
    let parts = s.taps(x) + mid.taps(y);
    assert forall|k: int| 0 <= k < all.len() implies same_tap(
        #[trigger] all[k],
        #[trigger] parts[k],
    ) by {
        if k < n1 {
            lemma_tap_of_first(s, x, y, k);
            assert(parts[k] == s.taps(x)[k]);
        } else {
            lemma_tap_of_second(s, x, y, k - n1);
            assert(parts[k] == mid.taps(y)[k - n1]);
        }
    }
}

/// The chunks of a stream, one after the other.
pub open spec fn stream<T>(chunks: Seq<Seq<T>>) -> Seq<T>
    decreases chunks.len(),
{
    if chunks.len() == 0 {
        Seq::empty()
    } else {
        chunks[0] + stream(chunks.skip(1))
    }
}

/// The outputs of all chunks, one chunk at a time.
pub open spec fn taps_by_chunk<T>(s: Resampler<T>, chunks: Seq<Seq<T>>) -> Seq<Tap<T>>
    decreases chunks.len(),
{
    if chunks.len() == 0 {
        Seq::empty()
    } else {
        s.taps(chunks[0]) + taps_by_chunk(s.after(chunks[0]), chunks.skip(1))
    }
}

/// The outputs are the same whether the stream arrives whole or cut into
/// chunks, wherever it is cut.
pub proof fn law_chunking_invariant<T>(s: Resampler<T>, chunks: Seq<Seq<T>>)
    requires
        s.wf(),
    ensures
        same_taps(s.taps(stream(chunks)), taps_by_chunk(s, chunks)),
    decreases chunks.len(),
{
    if chunks.len() > 0 {
        let x = chunks[0];
        let y = stream(chunks.skip(1));
        law_two_chunks(s, x, y);
        law_chunking_invariant(s.after(x), chunks.skip(1));
        let cut = s.taps(x) + s.after(x).taps(y);
        let parts = s.taps(x) + taps_by_chunk(s.after(x), chunks.skip(1));
        assert forall|i: int| 0 <= i < cut.len() implies same_tap(
            #[trigger] cut[i],
            #[trigger] parts[i],
        ) by {
            if i >= s.taps(x).len() {
                let j = i - s.taps(x).len();
                assert(cut[i] == s.after(x).taps(y)[j]);
                assert(parts[i] == taps_by_chunk(s.after(x), chunks.skip(1))[j]);
            }
        }
        let all = s.taps(x + y);
        assert forall|i: int| 0 <= i < all.len() implies same_tap(
            #[trigger] all[i],
            #[trigger] parts[i],
        ) by {
            assert(same_tap(all[i], cut[i]));
            assert(same_tap(cut[i], parts[i]));
        }
    }
}

/// An empty chunk gives nothing and changes nothing.
pub proof fn law_empty_chunk<T>(s: Resampler<T>)
    ensures
        s.after(Seq::empty()) == s,
        s.taps(Seq::empty()) == Seq::<Tap<T>>::empty(),
{
    assert(s.taps(Seq::empty()) =~= Seq::empty());
}

/// Where the rates are equal, the outputs are the input samples themselves.
pub proof fn law_same_rate_is_identity<T>(s: Resampler<T>, input: Seq<T>)
    requires
        s.wf(),
        s.from_rate == s.to_rate,
        s.carry is Some ==> s.phase == s.from_rate,
    ensures
        s.taps(input).len() == input.len(),
        forall|i: int|
            0 <= i < input.len() ==> (#[trigger] s.taps(input)[i]).a == input[i] && s.taps(
                input,
            )[i].num == 0,
        s.after(input).carry is Some ==> s.after(input).phase == s.from_rate,
{
    let to = s.to_rate as int;
    if input.len() > 0 {
        lemma_phase(s, input);
        let n = input.len() as int;
        let bound = s.last_place(input);
        if s.carry is None {
            assert(bound == (n - 1) * to);
            assert(n * to == (n - 1) * to + to) by (nonlinear_arith);
        } else {
            assert(bound == n * to);
            assert((n - 1) * to + to == n * to) by (nonlinear_arith);
        }
        lemma_places_unique(s.phase as int, to, bound, n);
        assert forall|i: int| 0 <= i < input.len() implies (#[trigger] s.taps(input)[i]).a
            == input[i] && s.taps(input)[i].num == 0 by {
            let j = if s.carry is None {
                i
            } else {
                i + 1
            };
            assert((i + 1) * to == i * to + to) by (nonlinear_arith);
            assert(s.phase + i * to == j * to);
            lemma_div_multiples_vanish(j, to);
            lemma_mod_multiples_basic(j, to);
            lemma_mul_is_commutative(j, to);
        }
    }
}

/// From a whole stream of `n` samples come all the outputs from the first
/// sample to the last, at the ratio of the rates.
pub proof fn law_output_count<T>(s: Resampler<T>, input: Seq<T>)
    requires
        s.wf(),
        s.carry is None,
        input.len() > 0,
    ensures
        s.taps(input).len() == (input.len() - 1) * s.to_rate / s.from_rate as int + 1,
{
    lemma_phase(s, input);
}

/// After the first chunk, a chunk that spans whole steps of both rates gives
/// outputs at exactly the ratio of the rates, and leaves the resampler at the
/// same phase.
pub proof fn law_steady_rate<T>(s: Resampler<T>, input: Seq<T>, outputs: int)
    requires
        s.wf(),
        s.carry is Some,
        input.len() > 0,
        input.len() * s.to_rate == outputs * s.from_rate,
    ensures
        s.taps(input).len() == outputs,
        s.after(input).phase == s.phase,
{
    let from = s.from_rate as int;
    lemma_phase(s, input);
    assert(s.last_place(input) == outputs * from);
    assert(outputs >= 0) by (nonlinear_arith)
        requires
            input.len() * s.to_rate == outputs * s.from_rate,
            input.len() > 0,
            s.to_rate >= 0,
            s.from_rate > 0,
    ;
    assert((outputs - 1) * from == outputs * from - from) by (nonlinear_arith);
    lemma_places_unique(s.phase as int, from, outputs * from, outputs);
}

/// From two input samples to three outputs, at most one output is held back at
/// the end of a stream: the one after it lies at the next sample or past it.
pub proof fn law_one_output_is_held_back<T>(s: Resampler<T>, input: Seq<T>, unit: int)
    requires
        s.wf(),
        s.carry is None,
        input.len() > 0,
        s.from_rate == 2 * unit,
        s.to_rate == 3 * unit,
    ensures
        s.after(input).phase == unit || s.after(input).phase == 2 * unit,
        s.after(input).phase + s.from_rate >= s.to_rate,
{
    lemma_phase(s, input);
    let n = s.count(input);
    let m = input.len() - 1;
    let k = 2 * n - 3 * m;
    let phase = s.phase + n * s.from_rate - s.last_place(input);
    assert(s.last_place(input) == m * s.to_rate);
    assert(n * s.from_rate - m * s.to_rate == k * unit) by (nonlinear_arith)
        requires
            k == 2 * n - 3 * m,
            s.from_rate == 2 * unit,
            s.to_rate == 3 * unit,
    ;
    assert(phase == k * unit);
    assert(k == 1 || k == 2) by (nonlinear_arith)
        requires
            0 < k * unit <= 2 * unit,
            unit > 0,
    ;
    assert(phase == unit || phase == 2 * unit) by (nonlinear_arith)
        requires
            phase == k * unit,
            k == 1 || k == 2,
    ;
}

/// Every output lies at its place on the grid: output `k`, counted from the
/// resampler's place, is `k` steps of the input rate further on; it lies
/// between the sample just before that place and the one just after, and its
/// fraction is the rest of the way.
pub proof fn law_outputs_lie_on_the_grid<T>(s: Resampler<T>, input: Seq<T>, k: int)
    requires
        s.wf(),
        s.to_rate > 0,
        0 <= k < s.taps(input).len(),
    ensures
        exists|i: int|
            {
                &&& 0 <= i < s.at_hand(input).len()
                &&& s.taps(input)[k].a == #[trigger] s.at_hand(input)[i]
                &&& i * s.to_rate + s.taps(input)[k].num == s.phase + k * s.from_rate
                &&& s.taps(input)[k].num < s.to_rate
                &&& s.taps(input)[k].num != 0 ==> i + 1 < s.at_hand(input).len() && s.taps(
                    input,
                )[k].b == s.at_hand(input)[i + 1]
            },
{
    let to = s.to_rate as int;
    let from = s.from_rate as int;
    let samples = s.at_hand(input);
    let pos = s.phase + k * from;
    let last = samples.len() - 1;
    let i = pos / to;
    lemma_phase(s, input);
    lemma_places(s.phase as int, from, s.last_place(input));
    lemma_mul_inequality(k, s.count(input) - 1, from);
    lemma_mul_nonnegative(k, from);
    lemma_fundamental_div_mod(pos, to);
    lemma_mod_bound(pos, to);
    lemma_div_pos_is_pos(pos, to);
    lemma_div_is_ordered(pos, last * to, to);
    lemma_div_multiples_vanish(last, to);
    lemma_mul_is_commutative(last, to);
    lemma_mul_is_commutative(to, i);
    assert(i <= last);
    if i == last {
        assert(pos % to == 0);
    }
    assert(s.taps(input)[k].a == samples[i]);
}

/// The outputs of a whole stream: output `k` lies `k * from_rate / to_rate`
/// samples from the first. All the places up to the last sample have one, and
/// no place after it.
pub proof fn law_whole_stream<T>(s: Resampler<T>, input: Seq<T>, k: int)
    requires
        s.wf(),
        s.carry is None,
        s.to_rate > 0,
        input.len() > 0,
        k >= 0,
    ensures
        k < s.taps(input).len() <==> k * s.from_rate <= (input.len() - 1) * s.to_rate,
        k < s.taps(input).len() ==> exists|i: int|
            {
                &&& 0 <= i < input.len()
                &&& s.taps(input)[k].a == #[trigger] input[i]
                &&& i * s.to_rate + s.taps(input)[k].num == k * s.from_rate
                &&& s.taps(input)[k].num < s.to_rate
                &&& s.taps(input)[k].num != 0 ==> i + 1 < input.len() && s.taps(input)[k].b
                    == input[i + 1]
            },
        s.after(input).carry == Some(input[input.len() - 1]),
        s.after(input).phase == s.taps(input).len() * s.from_rate - (input.len() - 1) * s.to_rate,
{
    let from = s.from_rate as int;
    let n = s.taps(input).len() as int;
    lemma_phase(s, input);
    lemma_places(0, from, s.last_place(input));
    if k < n {
        lemma_mul_inequality(k, n - 1, from);
        law_outputs_lie_on_the_grid(s, input, k);
        let i = choose|i: int|
            {
                &&& 0 <= i < s.at_hand(input).len()
                &&& s.taps(input)[k].a == #[trigger] s.at_hand(input)[i]
                &&& i * s.to_rate + s.taps(input)[k].num == s.phase + k * s.from_rate
                &&& s.taps(input)[k].num < s.to_rate
                &&& s.taps(input)[k].num != 0 ==> i + 1 < s.at_hand(input).len() && s.taps(
                    input,
                )[k].b == s.at_hand(input)[i + 1]
            };
        assert(s.taps(input)[k].a == input[i]);
    } else {
        lemma_mul_inequality(n, k, from);
    }
}

/// From two samples to three outputs, the fractions run through none, two
/// thirds and one third of the way.
pub proof fn law_two_to_three<T>(s: Resampler<T>, input: Seq<T>, unit: int, m: int)
    requires
        s.wf(),
        s.carry is None,
        s.from_rate == 2 * unit,
        s.to_rate == 3 * unit,
        m >= 0,
        2 * m + 1 < input.len(),
    ensures
        s.taps(input).len() > 3 * m + 1,
        s.taps(input)[3 * m].a == input[2 * m] && s.taps(input)[3 * m].num == 0,
        s.taps(input)[3 * m + 1].a == input[2 * m] && s.taps(input)[3 * m + 1].b == input[2 * m
            + 1] && s.taps(input)[3 * m + 1].num == 2 * unit,
        2 * m + 2 < input.len() ==> s.taps(input).len() > 3 * m + 2 && s.taps(input)[3 * m + 2].a
            == input[2 * m + 1] && s.taps(input)[3 * m + 2].b == input[2 * m + 2] && s.taps(
            input,
        )[3 * m + 2].num == unit,
{
    lemma_two_to_three_place(s, input, unit, 3 * m, 2 * m, 0);
    lemma_two_to_three_place(s, input, unit, 3 * m + 1, 2 * m, 2);
    if 2 * m + 2 < input.len() {
        lemma_two_to_three_place(s, input, unit, 3 * m + 2, 2 * m + 1, 1);
    }
}

proof fn lemma_two_to_three_place<T>(
    s: Resampler<T>,
    input: Seq<T>,
    unit: int,
    k: int,
    i: int,
    thirds: int,
)
    requires
        s.wf(),
        s.carry is None,
        s.from_rate == 2 * unit,
        s.to_rate == 3 * unit,
        k >= 0,
        i >= 0,
        0 <= thirds < 3,
        2 * k == 3 * i + thirds,
        i + 1 < input.len(),
    ensures
        s.taps(input).len() > k,
        s.taps(input)[k].a == input[i],
        s.taps(input)[k].b == input[i + 1],
        s.taps(input)[k].num == thirds * unit,
{
    let from = s.from_rate as int;
    let to = s.to_rate as int;
    let n = input.len() as int;
    lemma_phase(s, input);
    lemma_places(0, from, s.last_place(input));
    assert(k * from == i * to + thirds * unit) by (nonlinear_arith)
        requires
            from == 2 * unit,
            to == 3 * unit,
            2 * k == 3 * i + thirds,
    ;
    assert(0 <= thirds * unit < to) by (nonlinear_arith)
        requires
            0 <= thirds < 3,
            to == 3 * unit,
            unit > 0,
    ;
    assert(k * from <= (n - 1) * to) by (nonlinear_arith)
        requires
            k * from == i * to + thirds * unit,
            thirds * unit < to,
            i + 1 <= n - 1,
            to > 0,
    ;
    law_whole_stream(s, input, k);
    lemma_fundamental_div_mod_converse(k * from, to, i, thirds * unit);
}

/// At no samples per second a stream has one output, its first sample.
pub proof fn law_first_sample_alone<T>(s: Resampler<T>, input: Seq<T>, more: Seq<T>)
    requires
        s.wf(),
        s.carry is None,
        s.to_rate == 0,
        input.len() > 0,
    ensures
        s.taps(input).len() == 1,
        s.taps(input)[0].a == input[0] && s.taps(input)[0].num == 0,
        s.after(input).taps(more).len() == 0,
{
    let next = s.after(input);
    lemma_phase(s, input);
    assert(s.last_place(input) == 0) by (nonlinear_arith)
        requires
            s.last_place(input) == (s.at_hand(input).len() - 1) * s.to_rate,
            s.to_rate == 0,
    ;
    assert(next.last_place(more) == 0) by (nonlinear_arith)
        requires
            next.last_place(more) == (next.at_hand(more).len() - 1) * next.to_rate,
            next.to_rate == 0,
    ;
    lemma_places_unique(0, s.from_rate as int, 0, 1);
    assert(0 * s.from_rate as int == 0);
}

} // verus!
