//! A mixture of corpora: how a sampler index becomes a domain and a window of it.

use crate::stream::{option_window, GroupFailure, RowGroupSource, StreamingTokenDataset};
use crate::windows::holds_window;
use vstd::prelude::*;

verus! {

/// SplitMix64: scrambles a number.
pub open spec fn scrambled(x: u64) -> u64 {
    let a: u64 = ((x + 0x9E37_79B9_7F4A_7C15) % 0x1_0000_0000_0000_0000) as u64;
    let b: u64 = (((a ^ (a >> 30)) * 0xBF58_476D_1CE4_E5B9) % 0x1_0000_0000_0000_0000) as u64;
    let c: u64 = (((b ^ (b >> 27)) * 0x94D0_49BB_1331_11EB) % 0x1_0000_0000_0000_0000) as u64;
    c ^ (c >> 31)
}

/// SplitMix64: turns a sampler index into a uniform stream.
pub fn splitmix64(x: u64) -> (r: u64)
    ensures
        r == scrambled(x),
{
    let a: u64 = x.wrapping_add(0x9E37_79B9_7F4A_7C15);
    let b: u64 = (a ^ (a >> 30)).wrapping_mul(0xBF58_476D_1CE4_E5B9);
    let c: u64 = (b ^ (b >> 27)).wrapping_mul(0x94D0_49BB_1331_11EB);
    c ^ (c >> 31)
}

/// The number below 2^53 that stands for a draw's uniform position in the domain weights.
pub fn domain_draw(index: usize) -> (r: u64)
    ensures
        r == scrambled(index as u64) >> 11,
        r < 0x20_0000_0000_0000,
{
    let h: u64 = splitmix64(index as u64);
    assert((h >> 11) < 0x20_0000_0000_0000) by (bit_vector);
    h >> 11
}

/// The window that a draw takes from a domain of `n` windows.
pub open spec fn drawn_window(index: usize, n: int) -> int {
    (scrambled(scrambled(index as u64) ^ 0xD1B5_4A32_D192_ED03) as usize) as int % n
}

/// The window that a draw takes from a domain of `n` windows.
pub fn window_draw(index: usize, n: usize) -> (r: usize)
    requires
        n > 0,
    ensures
        r == drawn_window(index, n as int),
        r < n,
{
    let h: u64 = splitmix64(index as u64);
    (#[verifier::truncate] (splitmix64(h ^ 0xD1B5_4A32_D192_ED03) as usize)) % n
}

/// A mixture over per-domain corpora. Which domain a draw goes to is decided outside, by weights
/// that change with progress; everything after that is decided here.
pub struct MixtureDataset<S: RowGroupSource> {
    domains: Vec<StreamingTokenDataset<S>>,
    total: u64,
    len: usize,
}

/// The windows of these domains together.
pub open spec fn sum_windows<S: RowGroupSource>(domains: Seq<StreamingTokenDataset<S>>) -> int
    decreases domains.len(),
{
    if domains.len() == 0 {
        0
    } else {
        sum_windows(domains.drop_last()) + domains.last().count()
    }
}

proof fn lemma_sum_windows<S: RowGroupSource>(domains: Seq<StreamingTokenDataset<S>>, k: int)
    requires
        0 <= k <= domains.len(),
        forall|i: int| 0 <= i < domains.len() ==> (#[trigger] domains[i]).count() >= 0,
    ensures
        0 <= sum_windows(domains.take(k)) <= sum_windows(domains),
    decreases domains.len(),
{
    if k == domains.len() {
        assert(domains.take(k) =~= domains);
        if k > 0 {
            lemma_sum_windows(domains.drop_last(), k - 1);
            assert(domains.drop_last().take(k - 1) =~= domains.drop_last());
        }
    } else {
        lemma_sum_windows(domains.drop_last(), k);
        assert(domains.drop_last().take(k) =~= domains.take(k));
    }
}

impl<S: RowGroupSource> MixtureDataset<S> {
    /// The domains, in order.
    pub closed spec fn parts(&self) -> Seq<StreamingTokenDataset<S>> {
        self.domains@
    }

    /// The planned number of draws, against which progress is measured.
    pub closed spec fn draws(&self) -> int {
        self.total as int
    }

    /// Every domain is well formed, and the length is that of all of them.
    pub closed spec fn wf(&self) -> bool {
        &&& forall|i: int| 0 <= i < self.domains@.len() ==> (#[trigger] self.domains@[i]).wf()
        &&& self.len == sum_windows(self.domains@)
        &&& self.total >= 1
    }

    /// A mixture of these domains over `total_draws` planned draws, of which there is at least one.
    pub fn new(domains: Vec<StreamingTokenDataset<S>>, total_draws: u64) -> (r: Self)
        requires
            forall|i: int| 0 <= i < domains.len() ==> (#[trigger] domains[i]).wf(),
            sum_windows(domains@) <= usize::MAX,
        ensures
            r.wf(),
            r.parts() == domains@,
            r.draws() == if total_draws == 0 {
                1
            } else {
                total_draws as int
            },
    {
        let ghost all = domains@;
        let mut len: usize = 0;
        let mut i: usize = 0;
        proof {
            assert(all.take(0) =~= Seq::empty());
            assert forall|k: int| 0 <= k < all.len() implies (#[trigger] all[k]).count() >= 0 by {
                all[k].lemma_count_fits();
            }
        }
        while i < domains.len()
            invariant
                all == domains@,
                i <= domains.len(),
                forall|k: int| 0 <= k < all.len() ==> (#[trigger] all[k]).count() >= 0,
                sum_windows(all) <= usize::MAX,
                len == sum_windows(all.take(i as int)),
            decreases domains.len() - i,
        {
            proof {
                lemma_sum_windows(all, i + 1);
                assert(all.take(i + 1).drop_last() =~= all.take(i as int));
            }
            len = len + domains[i].len();
            i += 1;
        }
        assert(all.take(all.len() as int) =~= all);
        let total: u64 = if total_draws == 0 {
            1
        } else {
            total_draws
        };
        MixtureDataset { domains, total, len }
    }

    /// The index range that a sampler draws from: all windows of all domains, and at least one.
    pub fn len(&self) -> (r: usize)
        requires
            self.wf(),
        ensures
            r == if sum_windows(self.parts()) == 0 {
                1
            } else {
                sum_windows(self.parts())
            },
    {
        if self.len == 0 {
            1
        } else {
            self.len
        }
    }

    /// The planned number of draws.
    pub fn planned(&self) -> (r: u64)
        requires
            self.wf(),
        ensures
            r == self.draws(),
            r >= 1,
    {
        self.total
    }

    /// The window that sampler index `index` draws from domain `d`; `None` where the domain has no
    /// window, and an error where the window's group cannot be loaded.
    pub fn try_draw(&self, index: usize, d: usize) -> (r: Result<Option<Vec<i64>>, GroupFailure>)
        requires
            self.wf(),
            d < self.parts().len(),
        ensures
            ({
                let domain = self.parts()[d as int];
                let window = drawn_window(index, domain.count());
                match r {
                    Ok(Some(w)) => domain.count() > 0 && domain.gives(window, Some(w@)),
                    Ok(None) => domain.count() == 0 || domain.absent(window),
                    Err(f) => domain.count() > 0 && holds_window(
                        domain.blocks(),
                        f.group as int,
                        domain.first() + window,
                    ) && domain.fails_saying(f.group as int, f.message@),
                }
            }),
    {
        let domain = &self.domains[d];
        let n: usize = domain.len();
        if n == 0 {
            return Ok(None);
        }
        domain.try_get(window_draw(index, n))
    }

    /// The window that sampler index `index` draws from domain `d`, like
    /// [`try_draw`](Self::try_draw), with `None` also where its group cannot be loaded.
    pub fn draw(&self, index: usize, d: usize) -> (r: Option<Vec<i64>>)
        requires
            self.wf(),
            d < self.parts().len(),
        ensures
            self.parts()[d as int].count() == 0 ==> r is None,
            self.parts()[d as int].count() > 0 ==> self.parts()[d as int].gives(
                drawn_window(index, self.parts()[d as int].count()),
                option_window(r),
            ),
    {
        match self.try_draw(index, d) {
            Ok(window) => window,
            Err(f) => {
                assert(self.parts()[d as int].fails_saying(f.group as int, f.message@));
                None
            },
        }
    }
}

/// The scrambling is SplitMix64's: a step by its odd constant, two rounds of shifting, combining
/// and multiplying, and a last shift, all on 64 bits.
pub proof fn law_scrambling_is_splitmix64(x: u64)
    ensures
        ({
            let a = x.wrapping_add(0x9E37_79B9_7F4A_7C15u64);
            let b = (a ^ (a >> 30u64)).wrapping_mul(0xBF58_476D_1CE4_E5B9u64);
            let c = (b ^ (b >> 27u64)).wrapping_mul(0x94D0_49BB_1331_11EBu64);
            scrambled(x) == c ^ (c >> 31u64)
        }),
{
}

/// A draw takes a window that the domain has, and which one is decided by scrambling the sampler's
/// index twice, the second time with a constant mixed in.
pub proof fn law_draws_stay_in_the_domain(index: usize, n: int)
    requires
        0 < n,
    ensures
        0 <= drawn_window(index, n) < n,
        drawn_window(index, n) == scrambled(
            scrambled(index as u64) ^ 0xD1B5_4A32_D192_ED03u64,
        ) as usize as int % n,
{
}

/// A mixture is as long as its domains together: a further domain adds all of its windows.
pub proof fn law_mixtures_are_as_long_as_their_domains<S: RowGroupSource>(
    domains: Seq<StreamingTokenDataset<S>>,
    more: StreamingTokenDataset<S>,
)
    ensures
        sum_windows(Seq::<StreamingTokenDataset<S>>::empty()) == 0,
        sum_windows(domains.push(more)) == sum_windows(domains) + more.count(),
{
    assert(domains.push(more).drop_last() =~= domains);
}

} // verus!
