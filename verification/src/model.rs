//! The model's integer side: where the fused projection's segments lie, how a scan is cut into
//! chunks, and how sampled ids become completions.

use crate::config::ModelConfig;
use vstd::prelude::*;

verus! {

/// Where each segment of a block's fused input projection ends. The segments are, in order: the two
/// branches (x and z), B, C, the step size, the decay, the trapezoidal weight, and the rotation
/// rates.
#[derive(Clone, Copy, Debug, PartialEq, Eq, Structural)]
pub struct Projection {
    /// End of the x branch.
    pub x: usize,
    /// End of the z branch.
    pub z: usize,
    /// End of B.
    pub b: usize,
    /// End of C.
    pub c: usize,
    /// End of the step sizes.
    pub dt: usize,
    /// End of the decays.
    pub a: usize,
    /// End of the trapezoidal weights.
    pub trap: usize,
    /// End of the rotation rates: the projection's width.
    pub theta: usize,
}

/// The rotation rates of a state: one per pair of channels in the half that is rotated.
pub open spec fn rope_angles(c: ModelConfig) -> nat {
    c.d_state as nat / 4
}

/// The width of B and of C: one state per group.
pub open spec fn group_width(c: ModelConfig) -> nat {
    c.ngroups as nat * c.d_state as nat
}

/// The width of a block's fused input projection.
pub open spec fn projection_width(c: ModelConfig) -> nat {
    2 * c.inner() + 2 * group_width(c) + 3 * c.heads() + rope_angles(c)
}

/// The layout of a block's fused input projection.
pub fn projection(c: &ModelConfig) -> (r: Projection)
    requires
        c.well_formed(),
        projection_width(*c) <= usize::MAX,
    ensures
        r.x == c.inner(),
        r.z - r.x == c.inner(),
        r.b - r.z == group_width(*c),
        r.c - r.b == group_width(*c),
        r.dt - r.c == c.heads(),
        r.a - r.dt == c.heads(),
        r.trap - r.a == c.heads(),
        r.theta - r.trap == rope_angles(*c),
        r.theta == projection_width(*c),
{
    let di: usize = c.d_inner();
    let nh: usize = c.nheads();
    let gn: usize = c.ngroups * c.d_state;
    let z: usize = 2 * di;
    let b: usize = z + gn;
    let e: usize = b + gn;
    let dt: usize = e + nh;
    let a: usize = dt + nh;
    let trap: usize = a + nh;
    let theta: usize = trap + c.d_state / 4;
    Projection { x: di, z, b, c: e, dt, a, trap, theta }
}

/// Like [`projection`], with `None` for a shape that violates an invariant or whose projection is
/// too wide to count.
pub fn try_projection(c: &ModelConfig) -> (r: Option<Projection>)
    ensures
        match r {
            Some(p) => {
                &&& c.well_formed()
                &&& p.theta == projection_width(*c)
                &&& p.x == c.inner() && p.z - p.x == c.inner()
                &&& p.b - p.z == group_width(*c) && p.c - p.b == group_width(*c)
                &&& p.dt - p.c == c.heads() && p.a - p.dt == c.heads()
                &&& p.trap - p.a == c.heads() && p.theta - p.trap == rope_angles(*c)
            },
            None => !c.well_formed() || projection_width(*c) > usize::MAX,
        },
{
    let di: usize = match c.expand.checked_mul(c.d_model) {
        Some(di) => di,
        None => return None,
    };
    if c.validate().is_err() {
        return None;
    }
    let gn: usize = match c.ngroups.checked_mul(c.d_state) {
        Some(gn) => gn,
        None => return None,
    };
    let width: u128 = 2 * (di as u128) + 2 * (gn as u128) + 3 * (c.nheads() as u128) + (c.d_state
        / 4) as u128;
    if width > usize::MAX as u128 {
        return None;
    }
    Some(projection(c))
}

/// The rotated channels and the rest tile a state: rotating whole pairs never reaches past it.
pub proof fn law_rotation_fits_the_state(c: ModelConfig)
    requires
        c.state_size_ok(),
    ensures
        2 * rope_angles(c) <= c.d_state,
        2 * rope_angles(c) == c.d_state / 2,
{
}

/// Chunk `k` of a scan of `t_len` steps in chunks of `c`.
pub open spec fn chunk_bounds(t_len: int, c: int, k: int) -> (int, int) {
    let start = k * c;
    (
        start,
        if start + c < t_len {
            start + c
        } else {
            t_len
        },
    )
}

/// Bounds that cut the steps `0..t_len` into chunks of `c`, of which the last may be shorter.
pub open spec fn cuts_scan(plan: Seq<(usize, usize)>, t_len: int, c: int) -> bool {
    &&& plan.len() == (t_len + c - 1) / c
    &&& forall|k: int|
        0 <= k < plan.len() ==> ((#[trigger] plan[k]).0 as int, plan[k].1 as int) == chunk_bounds(
            t_len,
            c,
            k,
        )
}

/// The chunk length that a configured one stands for: at least one step.
pub open spec fn chunk_len(c: int) -> int {
    if c == 0 {
        1
    } else {
        c
    }
}

/// The chunks of a scan, in order.
pub fn scan_chunks(t_len: usize, c: usize) -> (r: Vec<(usize, usize)>)
    ensures
        cuts_scan(r@, t_len as int, chunk_len(c as int)),
{
    let c: usize = if c == 0 {
        1
    } else {
        c
    };
    let mut plan: Vec<(usize, usize)> = Vec::new();
    let mut t0: usize = 0;
    proof {
        let (n, d) = (t_len as int, c as int);
        assert(0 * d == 0);
        if n == 0 {
            assert((n + d - 1) / d == 0) by (nonlinear_arith)
                requires
                    n == 0,
                    d > 0,
            ;
        }
    }
    while t0 < t_len
        invariant
            c > 0,
            t0 <= t_len,
            t0 < t_len ==> t0 == plan.len() * c,
            t0 == t_len ==> plan.len() == (t_len + c - 1) / (c as int),
            forall|k: int|
                0 <= k < plan.len() ==> ((#[trigger] plan[k]).0 as int, plan[k].1 as int)
                    == chunk_bounds(t_len as int, c as int, k),
        decreases t_len - t0,
    {
        let l: usize = if t_len - t0 < c {
            t_len - t0
        } else {
            c
        };
        let t1: usize = t0 + l;
        proof {
            let (k, n, d) = (plan.len() as int, t_len as int, c as int);
            assert((k + 1) * d == k * d + d) by (nonlinear_arith);
            if t1 == t_len {
                assert((n + d - 1) / d == k + 1) by (nonlinear_arith)
                    requires
                        d > 0,
                        k * d < n <= k * d + d,
                ;
            }
        }
        plan.push((t0, t1));
        t0 = t1;
    }
    plan
}

/// The chunks of a scan cover every step exactly once and in order: they start at 0, each starts
/// where the one before it ends, the last ends with the scan, and none is empty or longer than
/// asked.
pub proof fn law_chunks_cover_the_scan(plan: Seq<(usize, usize)>, t_len: int, c: int)
    requires
        0 < c,
        0 <= t_len,
        cuts_scan(plan, t_len, c),
    ensures
        t_len == 0 ==> plan.len() == 0,
        t_len > 0 ==> plan.len() > 0 && plan[0].0 == 0 && plan.last().1 == t_len,
        forall|k: int| 0 < k < plan.len() ==> (#[trigger] plan[k]).0 == plan[k - 1].1,
        forall|k: int|
            0 <= k < plan.len() ==> (#[trigger] plan[k]).0 < plan[k].1 && plan[k].1 - plan[k].0
                <= c,
{
    let n = plan.len() as int;
    assert(n * c >= t_len && (n - 1) * c < t_len) by (nonlinear_arith)
        requires
            n == (t_len + c - 1) / c,
            c > 0,
            t_len >= 0,
    ;
    assert(t_len == 0 ==> n == 0) by (nonlinear_arith)
        requires
            n == (t_len + c - 1) / c,
            c > 0,
    ;
    assert(0 * c == 0);
    assert(t_len > 0 ==> n > 0) by (nonlinear_arith)
        requires
            n * c >= t_len,
            c > 0,
    ;
    assert forall|k: int| 0 <= k < n implies (#[trigger] plan[k]).0 < plan[k].1 && plan[k].1
        - plan[k].0 <= c by {
        lemma_chunk_start(t_len, c, n, k);
    }
    assert forall|k: int| 0 < k < n implies (#[trigger] plan[k]).0 == plan[k - 1].1 by {
        lemma_chunk_start(t_len, c, n, k - 1);
        assert(plan[k - 1].1 == (k - 1) * c + c);
    }
    if n > 0 {
        lemma_chunk_start(t_len, c, n, n - 1);
        assert(plan[n - 1].1 == chunk_bounds(t_len, c, n - 1).1);
    }
}

/// Every chunk starts within the scan, and only the last may reach its end.
proof fn lemma_chunk_start(t_len: int, c: int, n: int, k: int)
    by (nonlinear_arith)
    requires
        0 <= k < n,
        (n - 1) * c < t_len,
        c > 0,
    ensures
        k * c < t_len,
        k < n - 1 ==> k * c + c < t_len,
        (k + 1) * c == k * c + c,
{
}

/// The ids of a stream up to its first stop token, which is left out.
pub open spec fn until_stop(ids: Seq<i64>, stop: Option<i64>) -> Seq<i64>
    decreases ids.len(),
{
    if ids.len() == 0 {
        Seq::empty()
    } else {
        let before = until_stop(ids.drop_last(), stop);
        if stops(ids.drop_last(), stop) || Some(ids.last()) == stop {
            before
        } else {
            before.push(ids.last())
        }
    }
}

/// Whether a stream holds the stop token.
pub open spec fn stops(ids: Seq<i64>, stop: Option<i64>) -> bool {
    exists|i: int| 0 <= i < ids.len() && Some(#[trigger] ids[i]) == stop
}

/// What comes out of a stream is a prefix of it: all of it without a stop token, else everything
/// before the first; and it never holds the stop token.
pub proof fn law_until_stop_is_a_prefix(ids: Seq<i64>, stop: Option<i64>)
    ensures
        until_stop(ids, stop).is_prefix_of(ids),
        !stops(until_stop(ids, stop), stop),
        !stops(ids, stop) ==> until_stop(ids, stop) == ids,
        stops(ids, stop) ==> until_stop(ids, stop).len() < ids.len() && Some(
            ids[until_stop(ids, stop).len() as int],
        ) == stop,
    decreases ids.len(),
{
    if ids.len() > 0 {
        let rest = ids.drop_last();
        law_until_stop_is_a_prefix(rest, stop);
        let before = until_stop(rest, stop);
        assert(forall|i: int| 0 <= i < rest.len() ==> #[trigger] rest[i] == ids[i]);
        assert(before =~= rest.take(before.len() as int));
        if stops(rest, stop) {
            let i = choose|i: int| 0 <= i < rest.len() && Some(#[trigger] rest[i]) == stop;
            assert(Some(ids[i]) == stop);
            assert(until_stop(ids, stop) =~= ids.take(before.len() as int));
        } else if Some(ids.last()) == stop {
            assert(Some(ids[ids.len() - 1]) == stop);
            assert(until_stop(ids, stop) =~= ids.take(before.len() as int));
        } else {
            assert(until_stop(ids, stop) =~= ids);
            assert(ids =~= ids.take(ids.len() as int));
        }
    } else {
        assert(until_stop(ids, stop) =~= ids.take(0));
    }
}

/// A prompt without tokens cannot be continued.
#[derive(Clone, Copy, Debug, PartialEq, Eq, Structural)]
pub enum GenerateError {
    EmptyPrompt,
}

/// The decisions of one generation: which sampled ids come out, and when to stop sampling.
pub struct Generation {
    out: Vec<i64>,
    stop: Option<i64>,
    max_new: usize,
    done: bool,
}

impl Generation {
    /// The ids that have come out.
    pub closed spec fn emitted(&self) -> Seq<i64> {
        self.out@
    }

    /// The stop token, if there is one.
    pub closed spec fn stop_token(&self) -> Option<i64> {
        self.stop
    }

    /// The most ids that may come out.
    pub closed spec fn limit(&self) -> int {
        self.max_new as int
    }

    /// Whether sampling is over.
    pub closed spec fn ended(&self) -> bool {
        self.done
    }

    /// No more ids have come out than may.
    pub closed spec fn wf(&self) -> bool {
        self.out@.len() <= self.max_new
    }

    /// A generation that continues this prompt.
    pub fn start(prompt: &Vec<i64>, max_new: usize, stop: Option<i64>) -> (r: Result<
        Self,
        GenerateError,
    >)
        ensures
            match r {
                Ok(g) => {
                    &&& prompt@.len() > 0
                    &&& g.wf()
                    &&& g.emitted() == Seq::<i64>::empty()
                    &&& g.stop_token() == stop
                    &&& g.limit() == max_new
                    &&& !g.ended()
                },
                Err(GenerateError::EmptyPrompt) => prompt@.len() == 0,
            },
    {
        if prompt.len() == 0 {
            return Err(GenerateError::EmptyPrompt);
        }
        Ok(Generation { out: Vec::new(), stop, max_new, done: false })
    }

    /// Whether another id is to be sampled.
    pub fn wants_more(&self) -> (r: bool)
        ensures
            r == (!self.ended() && self.emitted().len() < self.limit()),
    {
        !self.done && self.out.len() < self.max_new
    }

    /// Takes a sampled id; `true` if it comes out. The stop token ends the generation and does not.
    pub fn accept(&mut self, id: i64) -> (r: bool)
        requires
            old(self).wf(),
            !old(self).ended(),
            old(self).emitted().len() < old(self).limit(),
        ensures
            final(self).wf(),
            final(self).stop_token() == old(self).stop_token(),
            final(self).limit() == old(self).limit(),
            r == (old(self).stop_token() != Some(id)),
            final(self).ended() == !r,
            final(self).emitted() == if r {
                old(self).emitted().push(id)
            } else {
                old(self).emitted()
            },
    {
        if self.stop == Some(id) {
            self.done = true;
            return false;
        }
        self.out.push(id);
        true
    }

    /// The receiver of the ids has gone: no further id is sampled.
    pub fn close(&mut self)
        requires
            old(self).wf(),
        ensures
            final(self).wf(),
            final(self).ended(),
            final(self).emitted() == old(self).emitted(),
            final(self).stop_token() == old(self).stop_token(),
            final(self).limit() == old(self).limit(),
    {
        self.done = true;
    }

    /// The ids that came out.
    pub fn finish(self) -> (r: Vec<i64>)
        ensures
            r@ == self.emitted(),
    {
        self.out
    }
}

/// A generation's output and whether it has ended, after these ids were offered to it one by one
/// for as long as it wanted more.
pub open spec fn serial_after(ids: Seq<i64>, stop: Option<i64>, max_new: int) -> (Seq<i64>, bool)
    decreases ids.len(),
{
    if ids.len() == 0 {
        (Seq::empty(), false)
    } else {
        let (out, ended) = serial_after(ids.drop_last(), stop, max_new);
        if ended || out.len() >= max_new {
            (out, ended)
        } else if stop == Some(ids.last()) {
            (out, true)
        } else {
            (out.push(ids.last()), false)
        }
    }
}

/// A generation puts out its id stream up to the first stop token, and at most as many ids as it
/// may.
pub proof fn law_generation_runs_until_stop(ids: Seq<i64>, stop: Option<i64>, max_new: int)
    requires
        0 <= max_new,
    ensures
        serial_after(ids, stop, max_new).0 == if ids.len() <= max_new {
            until_stop(ids, stop)
        } else {
            until_stop(ids.take(max_new), stop)
        },
        serial_after(ids, stop, max_new).0.len() <= max_new,
        ids.len() <= max_new ==> serial_after(ids, stop, max_new).1 == stops(ids, stop),
    decreases ids.len(),
{
    if ids.len() > 0 {
        let rest = ids.drop_last();
        law_generation_runs_until_stop(rest, stop, max_new);
        if ids.len() <= max_new {
            law_until_stop_is_a_prefix(rest, stop);
            lemma_stops_push(rest, ids.last(), stop);
            assert(rest.push(ids.last()) =~= ids);
        } else {
            let first = ids.take(max_new);
            if rest.len() > max_new {
                assert(rest.take(max_new) =~= first);
            } else {
                assert(rest =~= first);
            }
            law_until_stop_is_a_prefix(first, stop);
            lemma_ended_or_full(rest, stop, max_new);
        }
    } else {
        law_until_stop_is_a_prefix(ids, stop);
    }
}

/// Offered at least as many ids as may come out, a generation has ended or is full.
proof fn lemma_ended_or_full(ids: Seq<i64>, stop: Option<i64>, max_new: int)
    requires
        0 <= max_new <= ids.len(),
    ensures
        serial_after(ids, stop, max_new).1 || serial_after(ids, stop, max_new).0.len() >= max_new,
    decreases ids.len(),
{
    if ids.len() > max_new {
        lemma_ended_or_full(ids.drop_last(), stop, max_new);
    } else {
        lemma_out_or_ended(ids, stop, max_new);
    }
}

proof fn lemma_out_or_ended(ids: Seq<i64>, stop: Option<i64>, max_new: int)
    requires
        ids.len() <= max_new,
    ensures
        serial_after(ids, stop, max_new).1 || serial_after(ids, stop, max_new).0.len()
            == ids.len(),
    decreases ids.len(),
{
    if ids.len() > 0 {
        lemma_out_or_ended(ids.drop_last(), stop, max_new);
    }
}

proof fn lemma_stops_push(ids: Seq<i64>, id: i64, stop: Option<i64>)
    ensures
        stops(ids.push(id), stop) == (stops(ids, stop) || stop == Some(id)),
{
    let more = ids.push(id);
    if stops(ids, stop) {
        let i = choose|i: int| 0 <= i < ids.len() && Some(#[trigger] ids[i]) == stop;
        assert(Some(more[i]) == stop);
    }
    if stop == Some(id) {
        assert(Some(more[ids.len() as int]) == stop);
    }
    if stops(more, stop) {
        let i = choose|i: int| 0 <= i < more.len() && Some(#[trigger] more[i]) == stop;
        if i < ids.len() {
            assert(Some(ids[i]) == stop);
        }
    }
}

/// A group of completions sampled in parallel, one id per row and round.
pub struct GroupRollout {
    out: Vec<Vec<i64>>,
    finished: Vec<bool>,
    stop: Option<i64>,
    max_new: usize,
    rounds: usize,
    done: bool,
}

/// One row of a group: its ids so far, and whether it has met the stop token.
pub open spec fn row_step(row: (Seq<i64>, bool), id: i64, stop: Option<i64>) -> (Seq<i64>, bool) {
    if row.1 {
        row
    } else if stop == Some(id) {
        (row.0, true)
    } else {
        (row.0.push(id), false)
    }
}

/// A row after one id per round.
pub open spec fn row_after(ids: Seq<i64>, stop: Option<i64>) -> (Seq<i64>, bool)
    decreases ids.len(),
{
    if ids.len() == 0 {
        (Seq::empty(), false)
    } else {
        row_step(row_after(ids.drop_last(), stop), ids.last(), stop)
    }
}

impl GroupRollout {
    /// The rows: their ids, and whether each has met the stop token.
    pub closed spec fn rows(&self) -> Seq<(Seq<i64>, bool)> {
        Seq::new(self.out@.len(), |r: int| (self.out@[r]@, self.finished@[r]))
    }

    /// The stop token, if there is one.
    pub closed spec fn stop_token(&self) -> Option<i64> {
        self.stop
    }

    /// The rounds taken.
    pub closed spec fn taken(&self) -> int {
        self.rounds as int
    }

    /// The most rounds that may be taken.
    pub closed spec fn limit(&self) -> int {
        self.max_new as int
    }

    /// Whether the last round found every row finished.
    pub closed spec fn ended(&self) -> bool {
        self.done
    }

    /// Every row has its mark, and no more rounds were taken than may be.
    pub closed spec fn wf(&self) -> bool {
        &&& self.out@.len() == self.finished@.len()
        &&& self.rounds <= self.max_new
    }

    /// `g` empty rows that continue this prompt.
    pub fn start(prompt: &Vec<i64>, g: usize, max_new: usize, stop: Option<i64>) -> (r: Result<
        Self,
        GenerateError,
    >)
        ensures
            match r {
                Ok(s) => {
                    &&& prompt@.len() > 0
                    &&& s.wf()
                    &&& s.rows() == Seq::new(g as nat, |r: int| (Seq::<i64>::empty(), false))
                    &&& s.stop_token() == stop
                    &&& s.taken() == 0
                    &&& s.limit() == max_new
                    &&& !s.ended()
                },
                Err(GenerateError::EmptyPrompt) => prompt@.len() == 0,
            },
    {
        if prompt.len() == 0 {
            return Err(GenerateError::EmptyPrompt);
        }
        let mut out: Vec<Vec<i64>> = Vec::new();
        let mut finished: Vec<bool> = Vec::new();
        let mut i: usize = 0;
        while i < g
            invariant
                i <= g,
                out.len() == i,
                finished.len() == i,
                forall|r: int|
                    0 <= r < i ==> (#[trigger] out@[r])@ == Seq::<i64>::empty() && !finished@[r],
            decreases g - i,
        {
            out.push(Vec::new());
            finished.push(false);
            i += 1;
        }
        let s = GroupRollout { out, finished, stop, max_new, rounds: 0, done: false };
        assert(s.rows() =~= Seq::new(g as nat, |r: int| (Seq::<i64>::empty(), false)));
        Ok(s)
    }

    /// Whether another round is to be sampled.
    pub fn wants_more(&self) -> (r: bool)
        ensures
            r == (!self.ended() && self.taken() < self.limit()),
    {
        !self.done && self.rounds < self.max_new
    }

    /// Takes a round of sampled ids, one per row; `true` while some row goes on. A row that has met
    /// the stop token takes no more, and the stop token does not come out.
    pub fn accept(&mut self, ids: &Vec<i64>) -> (r: bool)
        requires
            old(self).wf(),
            !old(self).ended(),
            old(self).taken() < old(self).limit(),
            ids.len() == old(self).rows().len(),
        ensures
            final(self).wf(),
            final(self).stop_token() == old(self).stop_token(),
            final(self).limit() == old(self).limit(),
            final(self).taken() == old(self).taken() + 1,
            final(self).rows() == Seq::new(
                ids@.len(),
                |r: int| row_step(old(self).rows()[r], ids@[r], old(self).stop_token()),
            ),
            final(self).ended() == !r,
            r <==> exists|i: int| 0 <= i < ids@.len() && !(#[trigger] final(self).rows()[i]).1,
    {
        let ghost before = self.rows();
        let ghost stop = self.stop;
        let n: usize = ids.len();
        let mut all_done = true;
        let mut i: usize = 0;
        while i < n
            invariant
                n == ids.len(),
                i <= n,
                before.len() == n,
                self.out@.len() == n,
                self.finished@.len() == n,
                self.stop == stop,
                self.max_new == old(self).max_new,
                self.rounds == old(self).rounds,
                forall|r: int|
                    0 <= r < i ==> ((#[trigger] self.out@[r])@, self.finished@[r]) == row_step(
                        before[r],
                        ids@[r],
                        stop,
                    ),
                forall|r: int|
                    i <= r < n ==> ((#[trigger] self.out@[r])@, self.finished@[r]) == before[r],
                all_done <==> (forall|r: int| 0 <= r < i ==> #[trigger] self.finished@[r]),
            decreases n - i,
        {
            let ghost marks = self.finished@;
            assert((self.out@[i as int]@, self.finished@[i as int]) == before[i as int]);
            if self.finished[i] {
            } else if self.stop == Some(ids[i]) {
                self.finished.set(i, true);
            } else {
                self.out[i].push(ids[i]);
                all_done = false;
                assert(!self.finished@[i as int]);
            }
            proof {
                assert forall|r: int| 0 <= r < i implies self.finished@[r]
                    == #[trigger] marks[r] by {}
            }
            i += 1;
        }
        self.rounds = self.rounds + 1;
        self.done = all_done;
        proof {
            let want = Seq::new(
                ids@.len(),
                |r: int| row_step(old(self).rows()[r], ids@[r], old(self).stop_token()),
            );
            assert(self.rows() =~= want);
            if !all_done {
                let r = choose|r: int| 0 <= r < n && !#[trigger] self.finished@[r];
                assert(!self.rows()[r].1);
            }
        }
        !all_done
    }

    /// The rows' ids.
    pub fn finish(self) -> (r: Vec<Vec<i64>>)
        ensures
            r@.len() == self.rows().len(),
            forall|i: int| 0 <= i < r@.len() ==> (#[trigger] r@[i])@ == self.rows()[i].0,
    {
        self.out
    }
}

/// The rows of a group of `g` after these rounds of ids.
pub open spec fn rows_after(
    rounds: Seq<Seq<i64>>,
    g: nat,
    stop: Option<i64>,
) -> Seq<(Seq<i64>, bool)>
    decreases rounds.len(),
{
    if rounds.len() == 0 {
        Seq::new(g, |r: int| (Seq::<i64>::empty(), false))
    } else {
        let before = rows_after(rounds.drop_last(), g, stop);
        Seq::new(g, |r: int| row_step(before[r], rounds.last()[r], stop))
    }
}

/// The ids that row `r` was offered, one per round.
pub open spec fn column(rounds: Seq<Seq<i64>>, r: int) -> Seq<i64> {
    rounds.map_values(|ids: Seq<i64>| ids[r])
}

/// The rows of a group do not touch each other: each is what its own ids alone make of it.
pub proof fn law_rows_are_independent(
    rounds: Seq<Seq<i64>>,
    g: nat,
    stop: Option<i64>,
    r: int,
)
    requires
        0 <= r < g,
    ensures
        rows_after(rounds, g, stop)[r] == row_after(column(rounds, r), stop),
    decreases rounds.len(),
{
    if rounds.len() > 0 {
        law_rows_are_independent(rounds.drop_last(), g, stop, r);
        assert(column(rounds, r).drop_last() =~= column(rounds.drop_last(), r));
        assert(column(rounds, r).last() == rounds.last()[r]);
    }
}

/// A row of a group holds its own id stream up to the first stop token, whatever the other rows do.
pub proof fn law_rows_run_until_stop(ids: Seq<i64>, stop: Option<i64>)
    ensures
        row_after(ids, stop).0 == until_stop(ids, stop),
        row_after(ids, stop).1 == stops(ids, stop),
    decreases ids.len(),
{
    if ids.len() > 0 {
        let rest = ids.drop_last();
        law_rows_run_until_stop(rest, stop);
        lemma_stops_push(rest, ids.last(), stop);
        assert(rest.push(ids.last()) =~= ids);
    }
}

/// A row that has met the stop token stays as it is, so that leaving the rest of the rounds out
/// once every row has done so changes nothing.
pub proof fn law_finished_rows_stay(ids: Seq<i64>, more: Seq<i64>, stop: Option<i64>)
    requires
        row_after(ids, stop).1,
    ensures
        row_after(ids + more, stop) == row_after(ids, stop),
    decreases more.len(),
{
    if more.len() > 0 {
        law_finished_rows_stay(ids, more.drop_last(), stop);
        assert((ids + more).drop_last() =~= ids + more.drop_last());
    } else {
        assert(ids + more =~= ids);
    }
}

/// A row of a group that samples the same ids as a generation on its own puts out the same ids.
pub proof fn law_group_matches_serial(ids: Seq<i64>, stop: Option<i64>, max_new: int)
    requires
        ids.len() <= max_new,
    ensures
        row_after(ids, stop) == serial_after(ids, stop, max_new),
{
    law_rows_run_until_stop(ids, stop);
    law_generation_runs_until_stop(ids, stop, max_new);
}

/// A stream comes out up to its first stop token and not beyond: whatever stands before it comes
/// out whole, and nothing after it does. A stream without it comes out whole, and so does every
/// stream where there is no stop token.
pub proof fn law_the_first_stop_ends_a_stream(before: Seq<i64>, stop: i64, after: Seq<i64>)
    requires
        forall|i: int| 0 <= i < before.len() ==> #[trigger] before[i] != stop,
    ensures
        until_stop(before.push(stop) + after, Some(stop)) == before,
        until_stop(before, Some(stop)) == before,
        until_stop(before + after, None) == before + after,
{
    let whole = before.push(stop) + after;
    law_until_stop_is_a_prefix(before, Some(stop));
    law_until_stop_is_a_prefix(before + after, None);
    law_until_stop_is_a_prefix(whole, Some(stop));
    let n = before.len() as int;
    assert(whole[n] == stop);
    assert(stops(whole, Some(stop)));
    let out = until_stop(whole, Some(stop));
    let k = out.len() as int;
    assert(out =~= whole.take(k));
    if k < n {
        assert(whole[k] == before[k]);
    }
    if k > n {
        assert(out[n] == stop);
        assert(stops(out, Some(stop)));
    }
    assert(whole.take(n) =~= before);
}

/// A round gives a row its id, unless the row has met the stop token or the id is that token.
pub proof fn law_a_round_adds_its_id(out: Seq<i64>, id: i64, stop: Option<i64>)
    ensures
        stop != Some(id) ==> row_step((out, false), id, stop) == (out.push(id), false),
        stop == Some(id) ==> row_step((out, false), id, stop) == (out, true),
        row_step((out, true), id, stop) == (out, true),
{
}

/// Every chunk of a scan but the last is as long as asked; where no length is asked for, chunks
/// are one step long.
pub proof fn law_chunks_are_as_long_as_asked(
    plan: Seq<(usize, usize)>,
    t_len: int,
    c: int,
    k: int,
)
    requires
        0 < c,
        0 <= t_len,
        cuts_scan(plan, t_len, c),
        0 <= k < plan.len() - 1,
    ensures
        plan[k].1 - plan[k].0 == c,
        chunk_len(c) == c,
        chunk_len(0) == 1,
{
    law_chunks_cover_the_scan(plan, t_len, c);
    assert(plan[k + 1].0 == plan[k].1);
    assert((k + 1) * c == k * c + c) by (nonlinear_arith);
}

/// The segments of a projection are two branches as wide as the inner width, one state per group
/// twice, three numbers per head, and a quarter of a state for the rotation.
pub proof fn law_projection_has_these_segments(c: ModelConfig)
    ensures
        rope_angles(c) == c.d_state as nat / 4,
        group_width(c) == c.ngroups as nat * c.d_state as nat,
        projection_width(c) == 2 * (c.expand * c.d_model) + 2 * (c.ngroups * c.d_state) + 3 * ((
        c.expand * c.d_model) / (c.headdim as int)) + c.d_state as int / 4,
{
}

} // verus!
