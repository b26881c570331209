//! Dense token windows over row groups: counting them, numbering them, and finding one again.

use vstd::prelude::*;

verus! {

/// One row group's contiguous block of dense windows in the flattened global window index:
/// `n_windows` windows starting at global window `win_start`.
#[derive(Clone, Copy, Debug, PartialEq, Eq, Structural)]
pub struct GroupWindows {
    pub source: usize,
    pub group: usize,
    pub win_start: usize,
    pub n_windows: usize,
}

/// The dense windows of a group of `n_tokens` tokens: how often a full width of `seq_len + 1` fits.
pub open spec fn window_count(n_tokens: int, seq_len: int) -> int {
    n_tokens / (seq_len + 1)
}

/// The token counts of the first `k` sources, one after the other.
pub open spec fn flat_counts(per_source: Seq<Seq<usize>>, k: nat) -> Seq<usize>
    decreases k,
{
    if k == 0 {
        Seq::empty()
    } else {
        flat_counts(per_source, (k - 1) as nat) + per_source[k - 1]
    }
}

/// The `(source, group)` pairs of the first `k` sources, in the same order.
pub open spec fn flat_groups(per_source: Seq<Seq<usize>>, k: nat) -> Seq<(int, int)>
    decreases k,
{
    if k == 0 {
        Seq::empty()
    } else {
        flat_groups(per_source, (k - 1) as nat) + Seq::new(
            per_source[k - 1].len(),
            |g: int| (k - 1, g),
        )
    }
}

/// The windows that the first `n` of these groups yield together.
pub open spec fn windows_before(counts: Seq<usize>, seq_len: int, n: nat) -> int
    decreases n,
{
    if n == 0 {
        0
    } else {
        windows_before(counts, seq_len, (n - 1) as nat) + window_count(
            counts[n - 1] as int,
            seq_len,
        )
    }
}

/// The windows that all groups of all sources yield together.
pub open spec fn all_windows(per_source: Seq<Seq<usize>>, seq_len: int) -> int {
    let counts = flat_counts(per_source, per_source.len());
    windows_before(counts, seq_len, counts.len())
}

/// The window index of these token counts: one entry per group, source by source, each starting
/// where the windows of the groups before it end.
pub open spec fn indexes(
    index: Seq<GroupWindows>,
    per_source: Seq<Seq<usize>>,
    seq_len: int,
) -> bool {
    let counts = flat_counts(per_source, per_source.len());
    let groups = flat_groups(per_source, per_source.len());
    &&& index.len() == counts.len()
    &&& groups.len() == counts.len()
    &&& forall|i: int|
        0 <= i < index.len() ==> {
            &&& (#[trigger] index[i]).source == groups[i].0
            &&& index[i].group == groups[i].1
            &&& index[i].win_start == windows_before(counts, seq_len, i as nat)
            &&& index[i].n_windows == window_count(counts[i] as int, seq_len)
        }
}

/// The first global window after entry `g`.
pub open spec fn block_end(g: GroupWindows) -> int {
    g.win_start + g.n_windows
}

/// The blocks of an index cover the windows from 0 on without gap or overlap.
pub open spec fn contiguous(index: Seq<GroupWindows>) -> bool {
    &&& index.len() > 0 ==> index[0].win_start == 0
    &&& forall|i: int|
        0 < i < index.len() ==> (#[trigger] index[i]).win_start == block_end(index[i - 1])
    &&& index_total(index) <= usize::MAX
}

/// The number of windows that an index numbers.
pub open spec fn index_total(index: Seq<GroupWindows>) -> int {
    if index.len() == 0 {
        0
    } else {
        block_end(index.last())
    }
}

/// Entry `at` of the index holds global window `gw`.
pub open spec fn holds_window(index: Seq<GroupWindows>, at: int, gw: int) -> bool {
    0 <= at < index.len() && index[at].win_start <= gw < block_end(index[at])
}

/// In a contiguous index a later block starts no earlier than an earlier one ends.
proof fn lemma_blocks_ordered(index: Seq<GroupWindows>, i: int, j: int)
    requires
        contiguous(index),
        0 <= i < j < index.len(),
    ensures
        block_end(index[i]) <= index[j].win_start,
        block_end(index[j]) <= index_total(index),
    decreases j - i,
{
    if i + 1 < j {
        lemma_blocks_ordered(index, i, j - 1);
    }
    assert(index[j].win_start == block_end(index[j - 1]));
    lemma_block_within_total(index, j);
}

/// No block of a contiguous index reaches past its total.
pub proof fn lemma_block_within_total(index: Seq<GroupWindows>, i: int)
    requires
        contiguous(index),
        0 <= i < index.len(),
    ensures
        block_end(index[i]) <= index_total(index),
    decreases index.len() - i,
{
    if i + 1 < index.len() {
        assert(index[i + 1].win_start == block_end(index[i]));
        lemma_block_within_total(index, i + 1);
    }
}

/// Every global window below the total lies in exactly one block, and none lies past the total.
pub proof fn law_windows_partition(index: Seq<GroupWindows>, gw: int)
    requires
        contiguous(index),
        0 <= gw,
    ensures
        gw < index_total(index) <==> (exists|at: int| holds_window(index, at, gw)),
        forall|a: int, b: int|
            #![trigger holds_window(index, a, gw), holds_window(index, b, gw)]
            holds_window(index, a, gw) && holds_window(index, b, gw) ==> a == b,
{
    if gw < index_total(index) {
        lemma_window_found(index, gw, index.len() as int);
    }
    assert forall|at: int| holds_window(index, at, gw) implies gw < index_total(index) by {
        lemma_block_within_total(index, at);
    }
    assert forall|a: int, b: int|
        #![trigger holds_window(index, a, gw), holds_window(index, b, gw)]
        holds_window(index, a, gw) && holds_window(index, b, gw) implies a == b by {
        if a < b {
            lemma_blocks_ordered(index, a, b);
        } else if b < a {
            lemma_blocks_ordered(index, b, a);
        }
    }
}

proof fn lemma_window_found(index: Seq<GroupWindows>, gw: int, n: int)
    requires
        contiguous(index),
        0 <= gw,
        0 < n <= index.len(),
        gw < block_end(index[n - 1]),
    ensures
        exists|at: int| holds_window(index, at, gw),
    decreases n,
{
    if index[n - 1].win_start <= gw {
        assert(holds_window(index, n - 1, gw));
    } else {
        assert(n > 1);
        assert(index[n - 1].win_start == block_end(index[n - 2]));
        lemma_window_found(index, gw, n - 1);
    }
}

/// Dense windows a group yields from `n_tokens`: `floor(n_tokens / (seq_len + 1))`. The remainder
/// is dropped.
pub fn group_window_count(n_tokens: usize, seq_len: usize) -> (r: usize)
    requires
        seq_len < usize::MAX,
    ensures
        r == window_count(n_tokens as int, seq_len as int),
{
    n_tokens / (seq_len + 1)
}

/// The flat lists have one entry per group, however many sources they are taken over.
proof fn lemma_flat_lengths(per_source: Seq<Seq<usize>>, k: nat)
    ensures
        flat_counts(per_source, k).len() == flat_groups(per_source, k).len(),
    decreases k,
{
    if k > 0 {
        lemma_flat_lengths(per_source, (k - 1) as nat);
    }
}

/// The list over fewer sources is a prefix of the list over more.
pub proof fn lemma_flat_prefix(per_source: Seq<Seq<usize>>, j: nat, k: nat)
    requires
        j <= k,
    ensures
        flat_counts(per_source, j).len() <= flat_counts(per_source, k).len(),
        flat_counts(per_source, k).subrange(0, flat_counts(per_source, j).len() as int)
            == flat_counts(per_source, j),
        flat_groups(per_source, j).len() <= flat_groups(per_source, k).len(),
        flat_groups(per_source, k).subrange(0, flat_groups(per_source, j).len() as int)
            == flat_groups(per_source, j),
    decreases k,
{
    if j < k {
        lemma_flat_prefix(per_source, j, (k - 1) as nat);
        let a = flat_counts(per_source, j);
        let b = flat_counts(per_source, (k - 1) as nat);
        let c = flat_counts(per_source, k);
        assert(c.subrange(0, a.len() as int) =~= b.subrange(0, a.len() as int));
        let d = flat_groups(per_source, j);
        let e = flat_groups(per_source, (k - 1) as nat);
        let f = flat_groups(per_source, k);
        assert(f.subrange(0, d.len() as int) =~= e.subrange(0, d.len() as int));
    } else {
        let c = flat_counts(per_source, k);
        assert(c.subrange(0, c.len() as int) =~= c);
        let f = flat_groups(per_source, k);
        assert(f.subrange(0, f.len() as int) =~= f);
    }
}

/// More groups yield no fewer windows.
pub proof fn lemma_windows_before_monotonic(counts: Seq<usize>, seq_len: int, i: nat, j: nat)
    requires
        i <= j <= counts.len(),
        0 <= seq_len,
    ensures
        0 <= windows_before(counts, seq_len, i) <= windows_before(counts, seq_len, j),
    decreases j,
{
    if j > 0 {
        let c = counts[j - 1] as int;
        let w = seq_len + 1;
        assert(c / w >= 0) by (nonlinear_arith)
            requires
                c >= 0,
                w > 0,
        ;
        if i < j {
            lemma_windows_before_monotonic(counts, seq_len, i, (j - 1) as nat);
        } else {
            lemma_windows_before_monotonic(counts, seq_len, (i - 1) as nat, (j - 1) as nat);
        }
    }
}

/// Every pair in the flat list names a group that exists.
proof fn lemma_flat_groups_exist(per_source: Seq<Seq<usize>>, k: nat, i: int)
    requires
        k <= per_source.len(),
        0 <= i < flat_groups(per_source, k).len(),
    ensures
        0 <= flat_groups(per_source, k)[i].0 < k,
        0 <= flat_groups(per_source, k)[i].1 < per_source[flat_groups(per_source, k)[i].0].len(),
        flat_counts(per_source, k)[i]
            == per_source[flat_groups(per_source, k)[i].0][flat_groups(per_source, k)[i].1],
    decreases k,
{
    lemma_flat_lengths(per_source, (k - 1) as nat);
    let before = flat_groups(per_source, (k - 1) as nat);
    if i < before.len() {
        lemma_flat_groups_exist(per_source, (k - 1) as nat, i);
    }
}

/// Every entry of a window index names a group that exists, and numbers as many windows as that
/// group yields.
pub proof fn lemma_entries_exist(
    index: Seq<GroupWindows>,
    per_source: Seq<Seq<usize>>,
    seq_len: int,
)
    requires
        indexes(index, per_source, seq_len),
    ensures
        forall|i: int|
            0 <= i < index.len() ==> {
                &&& (#[trigger] index[i]).source < per_source.len()
                &&& index[i].group < per_source[index[i].source as int].len()
                &&& index[i].n_windows == window_count(
                    per_source[index[i].source as int][index[i].group as int] as int,
                    seq_len,
                )
            },
{
    assert forall|i: int| 0 <= i < index.len() implies {
        &&& (#[trigger] index[i]).source < per_source.len()
        &&& index[i].group < per_source[index[i].source as int].len()
        &&& index[i].n_windows == window_count(
            per_source[index[i].source as int][index[i].group as int] as int,
            seq_len,
        )
    } by {
        lemma_flat_groups_exist(per_source, per_source.len(), i);
    }
}

/// Builds the flattened window index from each source's per-group token counts, assigning each
/// group a contiguous block of global window indices. Returns the index and the total window count.
pub fn build_window_index(per_source_group_tokens: &[Vec<usize>], seq_len: usize) -> (r: (
    Vec<GroupWindows>,
    usize,
))
    requires
        seq_len < usize::MAX,
        all_windows(per_source_group_tokens.deep_view(), seq_len as int) <= usize::MAX,
    ensures
        indexes(r.0@, per_source_group_tokens.deep_view(), seq_len as int),
        r.1 == all_windows(per_source_group_tokens.deep_view(), seq_len as int),
        contiguous(r.0@),
        r.1 == index_total(r.0@),
{
    let ghost per = per_source_group_tokens.deep_view();
    let ghost counts = flat_counts(per, per.len());
    let ghost groups = flat_groups(per, per.len());
    let mut index: Vec<GroupWindows> = Vec::new();
    let mut win_start: usize = 0;
    let mut source: usize = 0;
    proof {
        lemma_flat_lengths(per, per.len());
    }
    while source < per_source_group_tokens.len()
        invariant
            per == per_source_group_tokens.deep_view(),
            per.len() == per_source_group_tokens@.len(),
            counts == flat_counts(per, per.len()),
            groups == flat_groups(per, per.len()),
            seq_len < usize::MAX,
            windows_before(counts, seq_len as int, counts.len()) <= usize::MAX,
            source <= per.len(),
            index.len() == flat_counts(per, source as nat).len(),
            index.len() <= counts.len(),
            groups.len() == counts.len(),
            win_start == windows_before(counts, seq_len as int, index.len() as nat),
            forall|i: int|
                0 <= i < index.len() ==> {
                    &&& (#[trigger] index[i]).source == groups[i].0
                    &&& index[i].group == groups[i].1
                    &&& index[i].win_start == windows_before(counts, seq_len as int, i as nat)
                    &&& index[i].n_windows == window_count(counts[i] as int, seq_len as int)
                },
        decreases per_source_group_tokens.len() - source,
    {
        let groups_here = &per_source_group_tokens[source];
        let ghost base = index.len() as int;
        let mut group: usize = 0;
        proof {
            lemma_flat_prefix(per, source as nat, per.len());
            lemma_flat_prefix(per, (source + 1) as nat, per.len());
            lemma_flat_lengths(per, source as nat);
            lemma_flat_lengths(per, (source + 1) as nat);
            assert(per[source as int] =~= groups_here@);
            let upto = flat_counts(per, (source + 1) as nat);
            let gupto = flat_groups(per, (source + 1) as nat);
            assert(forall|g: int|
                0 <= g < groups_here.len() ==> upto[base + g] == groups_here[g] && gupto[base + g]
                    == (source as int, g));
            assert(forall|i: int|
                0 <= i < upto.len() ==> counts[i] == upto[i] && groups[i] == gupto[i]) by {
                assert(forall|i: int|
                    0 <= i < upto.len() ==> counts.subrange(0, upto.len() as int)[i] == counts[i]);
                assert(forall|i: int|
                    0 <= i < upto.len() ==> groups.subrange(0, gupto.len() as int)[i] == groups[i]);
            }
        }
        while group < groups_here.len()
            invariant
                seq_len < usize::MAX,
                windows_before(counts, seq_len as int, counts.len()) <= usize::MAX,
                group <= groups_here.len(),
                index.len() == base + group,
                base + groups_here.len() <= counts.len(),
                groups.len() == counts.len(),
                forall|g: int|
                    0 <= g < groups_here.len() ==> counts[base + g] == #[trigger] groups_here[g]
                        && groups[base + g] == (source as int, g),
                win_start == windows_before(counts, seq_len as int, index.len() as nat),
                forall|i: int|
                    0 <= i < index.len() ==> {
                        &&& (#[trigger] index[i]).source == groups[i].0
                        &&& index[i].group == groups[i].1
                        &&& index[i].win_start == windows_before(counts, seq_len as int, i as nat)
                        &&& index[i].n_windows == window_count(counts[i] as int, seq_len as int)
                    },
            decreases groups_here.len() - group,
        {
            let n_windows: usize = group_window_count(groups_here[group], seq_len);
            proof {
                let at = index.len() as nat;
                assert(counts[at as int] == groups_here[group as int]);
                lemma_windows_before_monotonic(counts, seq_len as int, at + 1, counts.len());
            }
            index.push(GroupWindows { source, group, win_start, n_windows });
            win_start = win_start + n_windows;
            group = group + 1;
        }
        source = source + 1;
    }
    proof {
        assert forall|i: int| 0 < i < index.len() implies (#[trigger] index[i]).win_start
            == block_end(index[i - 1]) by {
            assert(index[i - 1].win_start == windows_before(counts, seq_len as int, (i - 1) as nat));
        }
    }
    (index, win_start)
}

/// Resolves a global window to `(index entry, window within its group)`, or `None` past the end.
/// Binary search over the contiguous blocks; groups without windows are skipped.
pub fn resolve_window(index: &[GroupWindows], gw: usize) -> (r: Option<(usize, usize)>)
    requires
        contiguous(index@),
    ensures
        match r {
            Some((at, local)) => holds_window(index@, at as int, gw as int) && local == gw
                - index@[at as int].win_start,
            None => gw >= index_total(index@),
        },
{
    let mut lo: usize = 0;
    let mut hi: usize = index.len();
    while lo < hi
        invariant
            contiguous(index@),
            lo <= hi <= index@.len(),
            forall|i: int| 0 <= i < lo ==> block_end(#[trigger] index@[i]) <= gw,
            forall|i: int| hi <= i < index@.len() ==> gw < (#[trigger] index@[i]).win_start,
        decreases hi - lo,
    {
        let mid: usize = lo + (hi - lo) / 2;
        let g = index[mid];
        proof {
            lemma_block_within_total(index@, mid as int);
        }
        if gw < g.win_start {
            proof {
                assert forall|i: int| mid <= i < index@.len() implies gw < (
                #[trigger] index@[i]).win_start by {
                    if mid < i {
                        lemma_blocks_ordered(index@, mid as int, i);
                    }
                }
            }
            hi = mid;
        } else if gw >= g.win_start + g.n_windows {
            proof {
                assert forall|i: int| 0 <= i <= mid implies block_end(#[trigger] index@[i])
                    <= gw by {
                    if i < mid {
                        lemma_blocks_ordered(index@, i, mid as int);
                    }
                }
            }
            lo = mid + 1;
        } else {
            return Some((mid, gw - g.win_start));
        }
    }
    proof {
        if gw < index_total(index@) {
            law_windows_partition(index@, gw as int);
            let at = choose|at: int| holds_window(index@, at, gw as int);
            assert(holds_window(index@, at, gw as int));
        }
    }
    None
}

/// Resolving finds its way back: window `local` of the group at entry `at` is resolved to that
/// entry and that window.
pub proof fn law_resolve_inverts(index: Seq<GroupWindows>, at: int, local: int, found: int)
    requires
        contiguous(index),
        0 <= at < index.len(),
        0 <= local < index[at].n_windows,
        holds_window(index, found, index[at].win_start + local),
    ensures
        found == at,
        index[at].win_start + local - index[found].win_start == local,
{
    let gw = index[at].win_start + local;
    law_windows_partition(index, gw);
    assert(holds_window(index, at, gw));
}

/// A group yields as many windows as fit, side by side, and not one more would fit.
pub proof fn law_windows_are_as_many_as_fit(n_tokens: int, seq_len: int)
    requires
        0 <= n_tokens,
        0 <= seq_len,
    ensures
        0 <= window_count(n_tokens, seq_len),
        window_count(n_tokens, seq_len) * (seq_len + 1) <= n_tokens,
        n_tokens < (window_count(n_tokens, seq_len) + 1) * (seq_len + 1),
{
    let (n, w) = (n_tokens, seq_len + 1);
    assert(0 <= n / w && (n / w) * w <= n && n < (n / w + 1) * w) by (nonlinear_arith)
        requires
            0 <= n,
            0 < w,
    ;
}

/// The groups of the sources are laid out source by source, each source's in order: group `g` of
/// source `s` comes after all groups of the sources before it and the `g` groups of its own.
pub proof fn law_groups_are_laid_out_in_order(per_source: Seq<Seq<usize>>, s: int, g: int)
    requires
        0 <= s < per_source.len(),
        0 <= g < per_source[s].len(),
    ensures
        ({
            let at = per_source.take(s).flatten().len() + g;
            let counts = flat_counts(per_source, per_source.len());
            let groups = flat_groups(per_source, per_source.len());
            &&& counts == per_source.flatten()
            &&& groups.len() == counts.len()
            &&& at < counts.len()
            &&& counts[at] == per_source[s][g]
            &&& groups[at] == (s, g)
        }),
{
    lemma_flat_is_flatten(per_source, per_source.len());
    assert(per_source.take(per_source.len() as int) =~= per_source);
    lemma_group_place(per_source, per_source.len(), s, g);
}

proof fn lemma_flat_is_flatten(per_source: Seq<Seq<usize>>, k: nat)
    requires
        k <= per_source.len(),
    ensures
        flat_counts(per_source, k) == per_source.take(k as int).flatten(),
        flat_groups(per_source, k).len() == flat_counts(per_source, k).len(),
    decreases k,
{
    if k == 0 {
        assert(per_source.take(0).flatten() =~= Seq::empty());
    } else {
        lemma_flat_is_flatten(per_source, (k - 1) as nat);
        let before = per_source.take(k - 1);
        before.lemma_flatten_push(per_source[k - 1]);
        assert(per_source.take(k as int) =~= before.push(per_source[k - 1]));
    }
}

proof fn lemma_group_place(per_source: Seq<Seq<usize>>, k: nat, s: int, g: int)
    requires
        0 <= s < k <= per_source.len(),
        0 <= g < per_source[s].len(),
    ensures
        ({
            let at = per_source.take(s).flatten().len() + g;
            &&& at < flat_counts(per_source, k).len()
            &&& flat_counts(per_source, k)[at] == per_source[s][g]
            &&& flat_groups(per_source, k)[at] == (s, g)
        }),
    decreases k,
{
    lemma_flat_is_flatten(per_source, (k - 1) as nat);
    if s < k - 1 {
        lemma_group_place(per_source, (k - 1) as nat, s, g);
    }
}

/// The index has one entry for every group of every source: that of group `g` of source `s` names
/// them both, holds as many windows as fit into that group's own tokens, and starts right after
/// the windows of all groups before it.
pub proof fn law_every_group_has_its_entry(
    index: Seq<GroupWindows>,
    per_source: Seq<Seq<usize>>,
    seq_len: int,
    s: int,
    g: int,
)
    requires
        indexes(index, per_source, seq_len),
        0 <= s < per_source.len(),
        0 <= g < per_source[s].len(),
    ensures
        index.len() == per_source.flatten().len(),
        ({
            let at = per_source.take(s).flatten().len() + g;
            &&& at < index.len()
            &&& index[at].source == s
            &&& index[at].group == g
            &&& index[at].n_windows == per_source[s][g] as int / (seq_len + 1)
            &&& at == 0 ==> index[at].win_start == 0
            &&& at > 0 ==> index[at].win_start == index[at - 1].win_start + index[at - 1].n_windows
        }),
{
    law_groups_are_laid_out_in_order(per_source, s, g);
    let at = per_source.take(s).flatten().len() + g;
    assert(index[at].source == s);
    if at > 0 {
        assert(index[at - 1].n_windows == window_count(
            flat_counts(per_source, per_source.len())[at - 1] as int,
            seq_len,
        ));
    }
}

/// A window lies in a block exactly where it is none before the block's first and among its
/// number.
pub proof fn law_blocks_hold_their_windows(index: Seq<GroupWindows>, at: int, gw: int)
    requires
        0 <= at < index.len(),
    ensures
        holds_window(index, at, gw) <==> 0 <= gw - index[at].win_start < index[at].n_windows,
        index_total(index) == index.last().win_start + index.last().n_windows,
{
}

} // verus!
