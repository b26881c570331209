//! The pretraining corpus: row groups of documents, tokenized on demand and cut into dense windows.

use crate::text::{decimal, usize_to_string};
use crate::tokenizer::{encodes, signed, TextTokenizer};
use crate::windows::{
    all_windows, build_window_index, contiguous, group_window_count, holds_window, index_total,
    indexes, resolve_window, GroupWindows,
};
use rayon::iter::{IntoParallelRefIterator, ParallelIterator};
use std::sync::Arc;
use vstd::prelude::*;

verus! {

broadcast use vstd::string::group_string_axioms;

/// `moka::sync::Cache`: a bounded concurrent cache, shared between its clones. Opaque.
#[verifier::external_type_specification]
#[verifier::external_body]
#[verifier::reject_recursive_types(K)]
#[verifier::reject_recursive_types(V)]
#[verifier::reject_recursive_types(S)]
pub struct ExCache<K, V, S>(moka::sync::Cache<K, V, S>);

/// A source of documents addressable by row group.
pub trait RowGroupSource: Send + Sync {
    /// The number of row groups.
    open spec fn groups(&self) -> nat {
        arbitrary()
    }

    /// Whether reading row group `g` can give these documents.
    open spec fn may_hold(&self, g: int, texts: Seq<Seq<char>>) -> bool {
        arbitrary()
    }

    /// Whether reading row group `g` can fail and say this.
    open spec fn may_fail(&self, g: int, message: Seq<char>) -> bool {
        arbitrary()
    }

    /// Number of row groups.
    fn num_groups(&self) -> (r: usize)
        ensures
            r == self.groups(),
    ;

    /// The text of every document in row group `g`, or why it could not be read.
    fn group_texts(&self, g: usize) -> (r: Result<Vec<String>, String>)
        requires
            g < self.groups(),
        ensures
            match r {
                Ok(texts) => self.may_hold(g as int, texts.deep_view()),
                Err(e) => self.may_fail(g as int, e@),
            },
    ;
}

/// Whether a document can contribute these tokens: its encoding, or none where it has no encoding.
pub open spec fn doc_tokens(tok: TextTokenizer, text: Seq<char>, tokens: Seq<u32>) -> bool {
    encodes(tok, text, Some(tokens)) || (encodes(tok, text, None) && tokens.len() == 0)
}

/// Whether documents can contribute these token lists, one each, in order.
pub open spec fn group_tokens(
    tok: TextTokenizer,
    texts: Seq<Seq<char>>,
    tokens: Seq<Seq<u32>>,
) -> bool {
    &&& tokens.len() == texts.len()
    &&& forall|i: int| 0 <= i < texts.len() ==> #[trigger] doc_tokens(tok, texts[i], tokens[i])
}

/// Whether documents can concatenate to this token stream.
pub open spec fn group_stream(
    tok: TextTokenizer,
    texts: Seq<Seq<char>>,
    stream: Seq<u32>,
) -> bool {
    exists|tokens: Seq<Seq<u32>>| #[trigger]
        group_tokens(tok, texts, tokens) && stream == tokens.flatten()
}

/// The tokens of one document; none if it cannot be encoded.
pub fn encode_or_empty(tok: &TextTokenizer, text: &str) -> (r: Vec<u32>)
    ensures
        doc_tokens(*tok, text@, r@),
        text@.len() == 0 ==> r@.len() == 0,
{
    match tok.encode(text) {
        Ok(ids) => ids,
        Err(_) => Vec::new(),
    }
}

/// `rayon`'s parallel iterator over a slice, mapped and collected: every document goes through
/// `encode_or_empty`. Trusted: the results come back one per document and in the documents' order.
#[verifier::external_body]
fn encode_group(tokenizer: &TextTokenizer, texts: &[String]) -> (r: Vec<Vec<u32>>)
    ensures
        group_tokens(*tokenizer, texts.deep_view(), r.deep_view()),
{
    texts.par_iter().map(|t| encode_or_empty(tokenizer, t)).collect()
}

/// Concatenates token lists.
pub fn concatenate(lists: &Vec<Vec<u32>>) -> (r: Vec<u32>)
    ensures
        r@ == lists.deep_view().flatten(),
{
    let ghost all = lists.deep_view();
    let mut out: Vec<u32> = Vec::new();
    let mut i: usize = 0;
    proof {
        assert(all.take(0) =~= Seq::empty());
    }
    while i < lists.len()
        invariant
            all == lists.deep_view(),
            i <= lists.len(),
            out@ == all.take(i as int).flatten(),
        decreases lists.len() - i,
    {
        let ghost before = out@;
        out.extend_from_slice(lists[i].as_slice());
        proof {
            assert(all[i as int] =~= lists[i as int]@);
            assert(all.take(i + 1) =~= all.take(i as int).push(all[i as int]));
            all.take(i as int).lemma_flatten_push(all[i as int]);
            assert(out@ =~= before + all[i as int]);
        }
        i += 1;
    }
    proof {
        assert(all.take(all.len() as int) =~= all);
    }
    out
}

/// Tokenizes documents and concatenates them into one dense stream.
pub fn token_stream(tok: &TextTokenizer, texts: &Vec<String>) -> (r: Vec<u32>)
    ensures
        group_stream(*tok, texts.deep_view(), r@),
{
    let docs = texts.as_slice();
    let lists = encode_group(tok, docs);
    proof {
        assert(docs.deep_view() =~= texts.deep_view());
    }
    concatenate(&lists)
}

/// Why a corpus could not be opened.
#[derive(Debug)]
pub enum StreamError {
    /// A source failed to read a row group, and said this.
    Source(String),
    /// The windows are too many to number.
    TooManyWindows,
}

/// A row group that could not be loaded.
#[derive(Debug)]
pub struct GroupFailure {
    /// Its entry in the window index.
    pub group: usize,
    /// What its source said.
    pub message: String,
}

impl GroupFailure {
    /// The line to log.
    pub fn line(&self) -> (r: String)
        ensures
            r@ == "streaming dataset: row group "@ + decimal(self.group as nat) + " failed: "@
                + self.message@,
    {
        "streaming dataset: row group ".to_owned().concat(
            usize_to_string(self.group).as_str(),
        ).concat(" failed: ").concat(self.message.as_str())
    }
}

/// Seekable streaming corpus: dense windows of `seq_len + 1` tokens packed per row group, tokenized
/// on demand with a bounded row-group cache. A sub-range `view` shares sources and cache.
pub struct StreamingTokenDataset<S: RowGroupSource> {
    sources: Arc<Vec<S>>,
    index: Arc<Vec<GroupWindows>>,
    cache: moka::sync::Cache<u64, Arc<Vec<u32>>>,
    tokenizer: Arc<TextTokenizer>,
    seq_len: usize,
    offset: usize,
    len: usize,
}

/// Another handle on the same shared value: `Arc::clone`. Trusted: it points to the same value.
#[verifier::external_body]
pub(crate) fn share<T>(a: &Arc<T>) -> (r: Arc<T>)
    ensures
        r == *a,
{
    a.clone()
}

/// Another handle on the same cache: `moka::sync::Cache::clone`. Trusted: clones share one store.
#[verifier::external_body]
fn share_cache(cache: &moka::sync::Cache<u64, Arc<Vec<u32>>>) -> (r: moka::sync::Cache<
    u64,
    Arc<Vec<u32>>,
>)
    ensures
        r == *cache,
{
    cache.clone()
}

/// `moka::sync::Cache::new`: an empty cache that holds at most `capacity` row groups. Nothing is
/// claimed of it, since what it holds later is up to its eviction policy.
#[verifier::external_body]
fn new_cache(capacity: u64) -> moka::sync::Cache<u64, Arc<Vec<u32>>> {
    moka::sync::Cache::new(capacity)
}

/// The window count of each group adds up to a number that fits.
fn windows_fit(per_source: &Vec<Vec<usize>>, seq_len: usize) -> (r: bool)
    requires
        seq_len < usize::MAX,
    ensures
        r <==> all_windows(per_source.deep_view(), seq_len as int) <= usize::MAX,
{
    let ghost per = per_source.deep_view();
    let ghost counts = crate::windows::flat_counts(per, per.len());
    let mut total: usize = 0;
    let mut source: usize = 0;
    let ghost mut seen: nat = 0;
    while source < per_source.len()
        invariant
            per == per_source.deep_view(),
            per.len() == per_source.len(),
            counts == crate::windows::flat_counts(per, per.len()),
            seq_len < usize::MAX,
            source <= per_source.len(),
            seen == crate::windows::flat_counts(per, source as nat).len(),
            seen <= counts.len(),
            total == crate::windows::windows_before(counts, seq_len as int, seen),
        decreases per_source.len() - source,
    {
        let groups = &per_source[source];
        let ghost base = seen;
        proof {
            crate::windows::lemma_flat_prefix(per, (source + 1) as nat, per.len());
            let upto = crate::windows::flat_counts(per, (source + 1) as nat);
            assert(per[source as int] =~= groups@);
            assert forall|g: int| 0 <= g < groups.len() implies counts[base + g]
                == #[trigger] groups[g] by {
                assert(upto[base + g] == groups[g]);
                assert(counts.subrange(0, upto.len() as int)[base + g] == counts[base + g]);
            }
        }
        let mut group: usize = 0;
        while group < groups.len()
            invariant
                counts == crate::windows::flat_counts(per, per.len()),
                per == per_source.deep_view(),
                seq_len < usize::MAX,
                group <= groups.len(),
                seen == base + group,
                base + groups.len() <= counts.len(),
                forall|g: int|
                    0 <= g < groups.len() ==> counts[base + g] == #[trigger] groups[g],
                total == crate::windows::windows_before(counts, seq_len as int, seen),
            decreases groups.len() - group,
        {
            let n: usize = group_window_count(groups[group], seq_len);
            proof {
                assert(counts[seen as int] == groups[group as int]);
                crate::windows::lemma_windows_before_monotonic(
                    counts,
                    seq_len as int,
                    seen + 1,
                    counts.len(),
                );
            }
            if n > usize::MAX - total {
                return false;
            }
            total = total + n;
            group = group + 1;
            proof {
                seen = seen + 1;
            }
        }
        source = source + 1;
    }
    true
}

/// The tokens of an optional window.
pub open spec fn option_window(w: Option<Vec<i64>>) -> Option<Seq<i64>> {
    match w {
        Some(v) => Some(v@),
        None => None,
    }
}

/// A window is the `local`-th full width of a token stream, as signed integers.
pub open spec fn cuts(stream: Seq<u32>, local: int, width: int, window: Seq<i64>) -> bool {
    &&& 0 <= local * width
    &&& local * width + width <= stream.len()
    &&& window == signed(stream.subrange(local * width, local * width + width))
}

/// The window `local` of a token stream, as the signed integers that training takes; `None` where
/// the stream ends before it.
pub fn window_of(stream: &Vec<u32>, local: usize, seq_len: usize) -> (r: Option<Vec<i64>>)
    requires
        seq_len < usize::MAX,
    ensures
        match r {
            Some(w) => cuts(stream@, local as int, seq_len + 1, w@),
            None => (local + 1) * (seq_len + 1) > stream.len(),
        },
{
    let w: usize = seq_len + 1;
    let whole: usize = stream.len() / w;
    if local >= whole {
        proof {
            let n = stream.len() as int;
            let q = whole as int;
            let l = local as int;
            let v = w as int;
            assert((l + 1) * v > n) by (nonlinear_arith)
                requires
                    l >= q,
                    q == n / v,
                    v > 0,
            ;
        }
        return None;
    }
    proof {
        let n = stream.len() as int;
        let q = whole as int;
        let l = local as int;
        let v = w as int;
        assert(l * v + v == (l + 1) * v && (l + 1) * v <= n && 0 <= l * v) by (nonlinear_arith)
            requires
                0 <= l < q,
                q == n / v,
                v > 0,
        ;
    }
    let start: usize = local * w;
    let mut out: Vec<i64> = Vec::new();
    let mut i: usize = 0;
    while i < w
        invariant
            i <= w,
            start + w <= stream.len(),
            out.len() == i,
            forall|j: int| 0 <= j < i ==> out[j] == stream[start + j] as i64,
        decreases w - i,
    {
        out.push(stream[start + i] as i64);
        i += 1;
    }
    proof {
        assert(out@ =~= signed(stream@.subrange(start as int, start + w)));
    }
    Some(out)
}

impl<S: RowGroupSource> StreamingTokenDataset<S> {
    /// The window index.
    pub closed spec fn blocks(&self) -> Seq<GroupWindows> {
        self.index@
    }

    /// The sources, in order.
    pub closed spec fn origins(&self) -> Seq<S> {
        self.sources@
    }

    /// The tokenizer.
    pub closed spec fn tok(&self) -> TextTokenizer {
        *self.tokenizer
    }

    /// The tokens that a window predicts; a window is one wider.
    pub closed spec fn width(&self) -> int {
        self.seq_len + 1
    }

    /// The first global window that is visible.
    pub closed spec fn first(&self) -> int {
        self.offset as int
    }

    /// The number of visible windows.
    pub closed spec fn count(&self) -> int {
        self.len as int
    }

    /// The blocks are contiguous, belong to existing groups, and fit their sizes.
    pub closed spec fn wf(&self) -> bool {
        &&& contiguous(self.index@)
        &&& self.seq_len < usize::MAX
        &&& self.offset + self.len <= usize::MAX
        &&& forall|i: int|
            0 <= i < self.index@.len() ==> {
                &&& (#[trigger] self.index@[i]).source < self.sources@.len()
                &&& self.index@[i].group < self.sources@[self.index@[i].source as int].groups()
            }
    }

    /// Whether loading the group at entry `at` can give this token stream.
    pub open spec fn loads(&self, at: int, stream: Seq<u32>) -> bool {
        let block = self.blocks()[at];
        exists|texts: Seq<Seq<char>>| #[trigger]
            self.origins()[block.source as int].may_hold(block.group as int, texts)
                && group_stream(self.tok(), texts, stream)
    }

    /// Whether loading the group at entry `at` can fail and say this.
    pub open spec fn fails_saying(&self, at: int, message: Seq<char>) -> bool {
        let block = self.blocks()[at];
        self.origins()[block.source as int].may_fail(block.group as int, message)
    }

    /// Whether loading the group at entry `at` can fail.
    pub open spec fn fails(&self, at: int) -> bool {
        exists|message: Seq<char>| #[trigger] self.fails_saying(at, message)
    }

    /// Whether there can be no window `index` although nothing fails: past the end, and where the
    /// group now loads a stream that ends before the window.
    pub open spec fn absent(&self, index: int) -> bool {
        let gw = self.first() + index;
        index >= self.count() || gw >= index_total(self.blocks()) || exists|
            at: int,
            stream: Seq<u32>,
        |
            holds_window(self.blocks(), at, gw) && #[trigger] self.loads(at, stream) && stream.len()
                < (gw - self.blocks()[at].win_start + 1) * self.width()
    }

    /// Whether asking for visible window `index` can give this: a full width of the stream of the
    /// group that holds it; or `None` where there is none, and where the group fails to load.
    pub open spec fn gives(&self, index: int, window: Option<Seq<i64>>) -> bool {
        let gw = self.first() + index;
        match window {
            Some(w) => index < self.count() && exists|at: int, stream: Seq<u32>|
                holds_window(self.blocks(), at, gw) && #[trigger] self.loads(at, stream) && cuts(
                    stream,
                    gw - self.blocks()[at].win_start,
                    self.width(),
                    w,
                ),
            None => self.absent(index) || exists|at: int| #[trigger]
                holds_window(self.blocks(), at, gw) && self.fails(at),
        }
    }

    /// The blocks are contiguous.
    pub proof fn lemma_contiguous(&self)
        requires
            self.wf(),
        ensures
            contiguous(self.blocks()),
    {
    }

    /// The number of visible windows is a number that fits.
    pub proof fn lemma_count_fits(&self)
        ensures
            0 <= self.count() <= usize::MAX,
    {
    }

    /// Tokenizes and concatenates one row group into its dense token stream.
    fn load_group(&self, at: usize) -> (r: Result<Arc<Vec<u32>>, String>)
        requires
            self.wf(),
            at < self.blocks().len(),
        ensures
            match r {
                Ok(stream) => self.loads(at as int, stream@),
                Err(e) => self.fails_saying(at as int, e@),
            },
    {
        let block = self.index[at];
        let source = &self.sources[block.source];
        match source.group_texts(block.group) {
            Ok(texts) => {
                let stream = token_stream(&self.tokenizer, &texts);
                proof {
                    let docs = texts.deep_view();
                    assert(self.origins()[block.source as int].may_hold(block.group as int, docs));
                }
                Ok(Arc::new(stream))
            },
            Err(e) => Err(e),
        }
    }

    /// `moka::sync::Cache::try_get_with`: what is stored under the key, or else what the loader
    /// gives, which is then stored; a failure of the loader is handed on and not stored. Trusted:
    /// the stream is one that `load_group` gave for this entry, since nothing else is ever put into
    /// the cache, which no one outside this module can reach. Whether it is an earlier load or a
    /// new one is left open; a failure may also be that of another thread's load of this entry.
    #[verifier::external_body]
    fn cached_group(&self, at: usize) -> (r: Result<Arc<Vec<u32>>, String>)
        requires
            self.wf(),
            at < self.blocks().len(),
        ensures
            match r {
                Ok(stream) => self.loads(at as int, stream@),
                Err(e) => self.fails_saying(at as int, e@),
            },
    {
        self.cache.try_get_with(at as u64, || self.load_group(at)).map_err(|e| e.to_string())
    }

    /// Opens sources. A count pass tokenizes each group once and keeps only its token count, which
    /// sizes the window index. `cache_groups` bounds how many groups' streams are held at once.
    pub fn new(
        sources: Vec<S>,
        tokenizer: Arc<TextTokenizer>,
        seq_len: usize,
        cache_groups: u64,
    ) -> (r: Result<Self, StreamError>)
        requires
            seq_len < usize::MAX,
        ensures
            match r {
                Ok(ds) => {
                    &&& ds.wf()
                    &&& ds.origins() == sources@
                    &&& ds.tok() == *tokenizer
                    &&& ds.width() == seq_len + 1
                    &&& ds.first() == 0
                    &&& ds.count() == index_total(ds.blocks())
                    &&& exists|counts: Seq<Seq<usize>>| #[trigger]
                        counted(sources@, *tokenizer, counts) && indexes(
                            ds.blocks(),
                            counts,
                            seq_len as int,
                        )
                },
                Err(StreamError::Source(e)) => some_group_fails(sources@, e@),
                Err(StreamError::TooManyWindows) => exists|counts: Seq<Seq<usize>>| #[trigger]
                    counted(sources@, *tokenizer, counts) && all_windows(counts, seq_len as int)
                        > usize::MAX,
            },
    {
        let mut per_source: Vec<Vec<usize>> = Vec::new();
        let mut s: usize = 0;
        while s < sources.len()
            invariant
                s <= sources.len(),
                per_source.len() == s,
                forall|k: int|
                    0 <= k < s ==> #[trigger] source_counted(
                        sources@[k],
                        *tokenizer,
                        per_source@[k]@,
                    ),
            decreases sources.len() - s,
        {
            let source = &sources[s];
            let n_groups: usize = source.num_groups();
            let mut counts: Vec<usize> = Vec::new();
            let mut g: usize = 0;
            while g < n_groups
                invariant
                    s < sources.len(),
                    *source == sources@[s as int],
                    n_groups == source.groups(),
                    g <= n_groups,
                    counts.len() == g,
                    forall|k: int|
                        0 <= k < g ==> #[trigger] group_counted(
                            *source,
                            *tokenizer,
                            k,
                            counts@[k] as int,
                        ),
                decreases n_groups - g,
            {
                let texts = match source.group_texts(g) {
                    Ok(texts) => texts,
                    Err(e) => {
                        assert(sources@[s as int].may_fail(g as int, e@));
                        assert(some_group_fails(sources@, e@));
                        return Err(StreamError::Source(e));
                    },
                };
                let stream = token_stream(&tokenizer, &texts);
                proof {
                    let docs = texts.deep_view();
                    assert(source.may_hold(g as int, docs) && group_stream(
                        *tokenizer,
                        docs,
                        stream@,
                    ));
                    assert(group_counted(*source, *tokenizer, g as int, stream@.len() as int));
                }
                counts.push(stream.len());
                g += 1;
            }
            proof {
                assert(source_counted(*source, *tokenizer, counts@));
            }
            per_source.push(counts);
            s += 1;
        }
        proof {
            let counts = per_source.deep_view();
            assert forall|k: int| 0 <= k < counts.len() implies #[trigger] source_counted(
                sources@[k],
                *tokenizer,
                counts[k],
            ) by {
                assert(counts[k] =~= per_source@[k]@);
            }
            assert(counted(sources@, *tokenizer, counts));
        }
        if !windows_fit(&per_source, seq_len) {
            return Err(StreamError::TooManyWindows);
        }
        let slice = per_source.as_slice();
        let ghost counts = per_source.deep_view();
        assert(slice.deep_view() =~= counts);
        let (index, total) = build_window_index(slice, seq_len);
        proof {
            crate::windows::lemma_entries_exist(index@, counts, seq_len as int);
            assert forall|i: int| 0 <= i < index@.len() implies (
            #[trigger] index@[i]).source < sources@.len() && index@[i].group
                < sources@[index@[i].source as int].groups() by {
                let k = index@[i].source as int;
                assert(source_counted(sources@[k], *tokenizer, counts[k]));
            }
        }
        let ds = StreamingTokenDataset {
            sources: Arc::new(sources),
            index: Arc::new(index),
            cache: new_cache(cache_groups),
            tokenizer,
            seq_len,
            offset: 0,
            len: total,
        };
        assert(ds.wf());
        Ok(ds)
    }

    /// Total dense windows across all sources, whatever part of them is visible.
    pub fn total(&self) -> (r: usize)
        requires
            self.wf(),
        ensures
            r == index_total(self.blocks()),
    {
        if self.index.len() == 0 {
            0
        } else {
            let g = self.index[self.index.len() - 1];
            g.win_start + g.n_windows
        }
    }

    /// The number of visible windows.
    pub fn len(&self) -> (r: usize)
        ensures
            r == self.count(),
    {
        self.len
    }

    /// A view that exposes the global windows `range` as local indices, sharing sources and cache.
    pub fn view(&self, range: std::ops::Range<usize>) -> (r: Self)
        requires
            self.wf(),
        ensures
            r.wf(),
            r.origins() == self.origins(),
            r.tok() == self.tok(),
            r.blocks() == self.blocks(),
            r.width() == self.width(),
            r.first() == range.start,
            r.count() == if range.end >= range.start {
                range.end - range.start
            } else {
                0
            },
    {
        let len: usize = if range.end >= range.start {
            range.end - range.start
        } else {
            0
        };
        StreamingTokenDataset {
            sources: share(&self.sources),
            index: share(&self.index),
            cache: share_cache(&self.cache),
            tokenizer: share(&self.tokenizer),
            seq_len: self.seq_len,
            offset: range.start,
            len,
        }
    }

    /// Where visible window `index` lies: its entry in the index, and its number in that group.
    pub fn locate(&self, index: usize) -> (r: Option<(usize, usize)>)
        requires
            self.wf(),
        ensures
            located(self.blocks(), self.first(), self.count(), index as int, r),
    {
        if index >= self.len {
            return None;
        }
        resolve_window(self.index.as_slice(), self.offset + index)
    }

    /// Visible window `index`: `seq_len + 1` tokens of its group's stream. `None` past the end; an
    /// error where the group cannot be loaded.
    pub fn try_get(&self, index: usize) -> (r: Result<Option<Vec<i64>>, GroupFailure>)
        requires
            self.wf(),
        ensures
            match r {
                Ok(Some(w)) => self.gives(index as int, Some(w@)),
                Ok(None) => self.absent(index as int),
                Err(f) => index < self.count() && holds_window(
                    self.blocks(),
                    f.group as int,
                    self.first() + index,
                ) && self.fails_saying(f.group as int, f.message@),
            },
    {
        let (at, local) = match self.locate(index) {
            Some(p) => p,
            None => return Ok(None),
        };
        match self.cached_group(at) {
            Ok(stream) => {
                let window = window_of(&stream, local, self.seq_len);
                assert(self.loads(at as int, stream@));
                Ok(window)
            },
            Err(message) => Err(GroupFailure { group: at, message }),
        }
    }

    /// Visible window `index`, like [`try_get`](Self::try_get), with `None` also where its group
    /// cannot be loaded.
    pub fn get(&self, index: usize) -> (r: Option<Vec<i64>>)
        requires
            self.wf(),
        ensures
            self.gives(index as int, option_window(r)),
    {
        match self.try_get(index) {
            Ok(window) => window,
            Err(f) => {
                assert(self.fails_saying(f.group as int, f.message@));
                None
            },
        }
    }
}

/// Packing is dense: the first windows of a stream, one after the other, are the stream's tokens up
/// to where the last of them ends, with nothing left out, repeated or put in between.
pub proof fn law_windows_are_dense(stream: Seq<u32>, width: int, windows: Seq<Seq<i64>>)
    requires
        0 < width,
        forall|k: int| 0 <= k < windows.len() ==> #[trigger] cuts(stream, k, width, windows[k]),
    ensures
        0 <= windows.len() * width <= stream.len(),
        windows.flatten() == signed(stream.take(windows.len() * width)),
    decreases windows.len(),
{
    if windows.len() == 0 {
        assert(windows.flatten() =~= signed(stream.take(0)));
    } else {
        let before = windows.drop_last();
        let n = before.len() as int;
        assert forall|k: int| 0 <= k < before.len() implies #[trigger] cuts(
            stream,
            k,
            width,
            before[k],
        ) by {
            assert(cuts(stream, k, width, windows[k]));
        }
        law_windows_are_dense(stream, width, before);
        assert(cuts(stream, n, width, windows[n]));
        assert((n + 1) * width == n * width + width) by (nonlinear_arith);
        before.lemma_flatten_push(windows[n]);
        assert(before.push(windows[n]) =~= windows);
        assert(windows.flatten() =~= signed(stream.take(n * width)) + windows[n]);
        assert(windows.flatten() =~= signed(stream.take(n * width + width)));
    }
}

/// What `locate` finds for visible window `index` of a view that starts at global window `first`
/// and shows `count` windows.
pub open spec fn located(
    blocks: Seq<GroupWindows>,
    first: int,
    count: int,
    index: int,
    r: Option<(usize, usize)>,
) -> bool {
    match r {
        Some((at, local)) => index < count && holds_window(blocks, at as int, first + index)
            && local == first + index - blocks[at as int].win_start,
        None => index >= count || first + index >= index_total(blocks),
    }
}

/// Whether reading some group of some source can fail and say this.
pub open spec fn some_group_fails<S: RowGroupSource>(
    sources: Seq<S>,
    message: Seq<char>,
) -> bool {
    exists|s: int, g: int|
        0 <= s < sources.len() && 0 <= g < sources[s].groups() && #[trigger] sources[s].may_fail(
            g,
            message,
        )
}

/// Whether counting the tokens of group `g` of a source can give `n`.
pub open spec fn group_counted<S: RowGroupSource>(
    source: S,
    tok: TextTokenizer,
    g: int,
    n: int,
) -> bool {
    exists|texts: Seq<Seq<char>>, stream: Seq<u32>|
        #![trigger source.may_hold(g, texts), group_stream(tok, texts, stream)]
        source.may_hold(g, texts) && group_stream(tok, texts, stream) && stream.len() == n
}

/// Whether the count pass over a source can give these counts, one per group.
pub open spec fn source_counted<S: RowGroupSource>(
    source: S,
    tok: TextTokenizer,
    counts: Seq<usize>,
) -> bool {
    &&& counts.len() == source.groups()
    &&& forall|g: int|
        0 <= g < counts.len() ==> #[trigger] group_counted(source, tok, g, counts[g] as int)
}

/// Whether the count pass over all sources can give these counts.
pub open spec fn counted<S: RowGroupSource>(
    sources: Seq<S>,
    tok: TextTokenizer,
    counts: Seq<Seq<usize>>,
) -> bool {
    &&& counts.len() == sources.len()
    &&& forall|k: int|
        0 <= k < counts.len() ==> #[trigger] source_counted(sources[k], tok, counts[k])
}

/// A source that reads the same every time: no group fails, and none changes.
pub open spec fn steady<S: RowGroupSource>(source: S) -> bool {
    &&& forall|g: int, message: Seq<char>| !#[trigger] source.may_fail(g, message)
    &&& forall|g: int, a: Seq<Seq<char>>, b: Seq<Seq<char>>| #[trigger]
        source.may_hold(g, a) && #[trigger] source.may_hold(g, b) ==> a == b
}

/// Documents that contribute the same tokens every time.
pub open spec fn settled(tok: TextTokenizer, texts: Seq<Seq<char>>) -> bool {
    forall|i: int, a: Seq<u32>, b: Seq<u32>|
        0 <= i < texts.len() && #[trigger] doc_tokens(tok, texts[i], a) && #[trigger] doc_tokens(
            tok,
            texts[i],
            b,
        ) ==> a == b
}

/// Settled documents concatenate to one stream.
proof fn lemma_settled_stream(
    tok: TextTokenizer,
    texts: Seq<Seq<char>>,
    a: Seq<u32>,
    b: Seq<u32>,
)
    requires
        settled(tok, texts),
        group_stream(tok, texts, a),
        group_stream(tok, texts, b),
    ensures
        a == b,
{
    let ta = choose|t: Seq<Seq<u32>>| #[trigger]
        group_tokens(tok, texts, t) && a == t.flatten();
    let tb = choose|t: Seq<Seq<u32>>| #[trigger]
        group_tokens(tok, texts, t) && b == t.flatten();
    assert forall|i: int| 0 <= i < texts.len() implies ta[i] == tb[i] by {
        assert(doc_tokens(tok, texts[i], ta[i]));
        assert(doc_tokens(tok, texts[i], tb[i]));
    }
    assert(ta =~= tb);
}

/// A corpus over sources that read the same every time and documents that tokenize the same every
/// time, with the index that its count pass gave.
pub open spec fn reliable<S: RowGroupSource>(
    ds: StreamingTokenDataset<S>,
    counts: Seq<Seq<usize>>,
) -> bool {
    &&& ds.wf()
    &&& counted(ds.origins(), ds.tok(), counts)
    &&& indexes(ds.blocks(), counts, ds.width() - 1)
    &&& forall|s: int| 0 <= s < ds.origins().len() ==> steady(#[trigger] ds.origins()[s])
    &&& forall|s: int, g: int, texts: Seq<Seq<char>>|
        0 <= s < ds.origins().len() && #[trigger] ds.origins()[s].may_hold(g, texts) ==> settled(
            ds.tok(),
            texts,
        )
}

/// A group of a reliable corpus loads one stream, as long as was counted, and does not fail.
proof fn lemma_reliable_group<S: RowGroupSource>(
    ds: StreamingTokenDataset<S>,
    counts: Seq<Seq<usize>>,
    at: int,
    a: Seq<u32>,
    b: Seq<u32>,
)
    requires
        reliable(ds, counts),
        0 <= at < ds.blocks().len(),
        ds.loads(at, a),
        ds.loads(at, b),
    ensures
        a == b,
        ds.blocks()[at].n_windows * ds.width() <= a.len(),
{
    let block = ds.blocks()[at];
    let width = ds.width();
    crate::windows::lemma_entries_exist(ds.blocks(), counts, width - 1);
    let (s, g) = (block.source as int, block.group as int);
    let origin = ds.origins()[s];
    assert(steady(origin));
    let ta = choose|texts: Seq<Seq<char>>| #[trigger]
        origin.may_hold(g, texts) && group_stream(ds.tok(), texts, a);
    let tb = choose|texts: Seq<Seq<char>>| #[trigger]
        origin.may_hold(g, texts) && group_stream(ds.tok(), texts, b);
    assert(ta == tb);
    lemma_settled_stream(ds.tok(), ta, a, b);
    assert(source_counted(origin, ds.tok(), counts[s]));
    assert(group_counted(origin, ds.tok(), g, counts[s][g] as int));
    let (tc, c) = choose|texts: Seq<Seq<char>>, stream: Seq<u32>|
        #![trigger origin.may_hold(g, texts), group_stream(ds.tok(), texts, stream)]
        origin.may_hold(g, texts) && group_stream(ds.tok(), texts, stream) && stream.len()
            == counts[s][g] as int;
    assert(ta == tc);
    lemma_settled_stream(ds.tok(), ta, a, c);
    let (n, q) = (counts[s][g] as int, block.n_windows as int);
    assert(q * width <= n) by (nonlinear_arith)
        requires
            q == n / width,
            width > 0,
            n >= 0,
    ;
}

/// Every window in range is there: asking a reliable corpus for any visible window below the total
/// gives a full one.
pub proof fn law_windows_in_range_exist<S: RowGroupSource>(
    ds: StreamingTokenDataset<S>,
    counts: Seq<Seq<usize>>,
    index: int,
    window: Option<Seq<i64>>,
)
    requires
        reliable(ds, counts),
        0 <= index < ds.count(),
        ds.first() + index < index_total(ds.blocks()),
        ds.gives(index, window),
    ensures
        window matches Some(w) && w.len() == ds.width(),
{
    let gw = ds.first() + index;
    let width = ds.width();
    if window is None {
        if ds.absent(index) {
            let (at, stream) = choose|at: int, stream: Seq<u32>|
                holds_window(ds.blocks(), at, gw) && #[trigger] ds.loads(at, stream)
                    && stream.len() < (gw - ds.blocks()[at].win_start + 1) * ds.width();
            lemma_reliable_group(ds, counts, at, stream, stream);
            let (local, n) = (gw - ds.blocks()[at].win_start, ds.blocks()[at].n_windows as int);
            assert((local + 1) * width <= n * width) by (nonlinear_arith)
                requires
                    local < n,
                    width > 0,
            ;
        } else {
            let at = choose|at: int| #[trigger]
                holds_window(ds.blocks(), at, gw) && ds.fails(at);
            let message = choose|message: Seq<char>| #[trigger] ds.fails_saying(at, message);
            crate::windows::lemma_entries_exist(ds.blocks(), counts, width - 1);
            let block = ds.blocks()[at];
            assert(steady(ds.origins()[block.source as int]));
            assert(ds.origins()[block.source as int].may_fail(block.group as int, message));
        }
    }
}

/// A view of a corpus: the same corpus, of which the windows from `start` to `end` are visible.
pub open spec fn is_view<S: RowGroupSource>(
    v: StreamingTokenDataset<S>,
    ds: StreamingTokenDataset<S>,
    start: int,
    end: int,
) -> bool {
    &&& v.wf()
    &&& v.origins() == ds.origins()
    &&& v.tok() == ds.tok()
    &&& v.blocks() == ds.blocks()
    &&& v.width() == ds.width()
    &&& v.first() == start
    &&& v.count() == end - start
}

/// A view gives what the whole gives: over a reliable corpus, window `i` of the view from `start` to
/// `end` is window `start + i` of the whole and a full one, and past its end there is none; nor is
/// there one past the end of the whole.
pub proof fn law_views_give_the_same<S: RowGroupSource>(
    ds: StreamingTokenDataset<S>,
    counts: Seq<Seq<usize>>,
    v: StreamingTokenDataset<S>,
    start: int,
    end: int,
    i: int,
    through_view: Option<Seq<i64>>,
    directly: Option<Seq<i64>>,
    past_the_end: Option<Seq<i64>>,
)
    requires
        reliable(ds, counts),
        ds.first() == 0,
        ds.count() == index_total(ds.blocks()),
        0 <= start <= end <= index_total(ds.blocks()),
        is_view(v, ds, start, end),
        0 <= i,
        v.gives(i, through_view),
        i < end - start ==> ds.gives(start + i, directly),
        ds.gives(index_total(ds.blocks()), past_the_end),
    ensures
        i < end - start ==> through_view == directly && (through_view matches Some(w) && w.len()
            == ds.width()),
        i >= end - start ==> through_view is None,
        past_the_end is None,
{
    if i < end - start {
        assert(reliable(v, counts));
        law_windows_in_range_exist(v, counts, i, through_view);
        law_windows_in_range_exist(ds, counts, start + i, directly);
        let gw = start + i;
        let x = through_view->0;
        let y = directly->0;
        let (p, a) = choose|at: int, stream: Seq<u32>|
            holds_window(v.blocks(), at, gw) && #[trigger] v.loads(at, stream) && cuts(
                stream,
                gw - v.blocks()[at].win_start,
                v.width(),
                x,
            );
        let (q, b) = choose|at: int, stream: Seq<u32>|
            holds_window(ds.blocks(), at, gw) && #[trigger] ds.loads(at, stream) && cuts(
                stream,
                gw - ds.blocks()[at].win_start,
                ds.width(),
                y,
            );
        ds.lemma_contiguous();
        crate::windows::law_windows_partition(ds.blocks(), gw);
        assert(holds_window(ds.blocks(), p, gw) && holds_window(ds.blocks(), q, gw));
        assert(p == q);
        assert(ds.loads(p, a));
        lemma_reliable_group(ds, counts, p, a, b);
    }
}

/// A view shows what the whole shows: its window `i` is found where window `start + i` of the whole
/// is.
pub proof fn law_view_is_a_shift(
    blocks: Seq<GroupWindows>,
    start: int,
    end: int,
    i: int,
    through_view: Option<(usize, usize)>,
    directly: Option<(usize, usize)>,
)
    requires
        contiguous(blocks),
        0 <= start <= end <= index_total(blocks),
        0 <= i < end - start,
        located(blocks, start, end - start, i, through_view),
        located(blocks, 0, index_total(blocks), start + i, directly),
    ensures
        through_view == directly,
        through_view is Some,
{
    crate::windows::law_windows_partition(blocks, start + i);
}

/// Two views that meet at `cut` partition the windows: every window of the whole is found through
/// exactly one of them.
pub proof fn law_views_partition(
    blocks: Seq<GroupWindows>,
    cut: int,
    gw: int,
    train: Option<(usize, usize)>,
    valid: Option<(usize, usize)>,
)
    requires
        contiguous(blocks),
        0 <= cut <= index_total(blocks),
        0 <= gw < index_total(blocks),
        located(blocks, 0, cut, gw, train),
        gw >= cut ==> located(blocks, cut, index_total(blocks) - cut, gw - cut, valid),
    ensures
        gw < cut ==> train is Some,
        gw >= cut ==> train is None && valid is Some,
{
}

/// A group's stream is its documents, one after the other and none left out: each contributes its
/// own encoding, and nothing only where it has none.
pub proof fn law_streams_are_the_documents_in_order(
    tok: TextTokenizer,
    texts: Seq<Seq<char>>,
    stream: Seq<u32>,
) -> (tokens: Seq<Seq<u32>>)
    requires
        group_stream(tok, texts, stream),
    ensures
        tokens.len() == texts.len(),
        stream == tokens.flatten(),
        forall|i: int|
            0 <= i < texts.len() ==> encodes(tok, texts[i], Some(#[trigger] tokens[i])) || (
            tokens[i] == Seq::<u32>::empty() && encodes(tok, texts[i], None)),
{
    let tokens = choose|t: Seq<Seq<u32>>| #[trigger]
        group_tokens(tok, texts, t) && stream == t.flatten();
    assert forall|i: int| 0 <= i < texts.len() implies encodes(
        tok,
        texts[i],
        Some(#[trigger] tokens[i]),
    ) || (tokens[i] == Seq::<u32>::empty() && encodes(tok, texts[i], None)) by {
        assert(doc_tokens(tok, texts[i], tokens[i]));
        if tokens[i].len() == 0 {
            assert(tokens[i] =~= Seq::empty());
        }
    }
    tokens
}

/// A window is a full width of the stream of the group that holds it, and starts as many widths
/// into that stream as there are windows of the group before it.
pub proof fn law_windows_are_read_from_their_group<S: RowGroupSource>(
    ds: StreamingTokenDataset<S>,
    index: int,
    window: Seq<i64>,
) -> (r: (int, Seq<Seq<char>>, Seq<u32>))
    requires
        ds.gives(index, Some(window)),
    ensures
        index < ds.count(),
        ({
            let (at, texts, stream) = r;
            let block = ds.blocks()[at];
            let local = ds.first() + index - block.win_start;
            &&& 0 <= at < ds.blocks().len()
            &&& 0 <= local < block.n_windows
            &&& ds.origins()[block.source as int].may_hold(block.group as int, texts)
            &&& group_stream(ds.tok(), texts, stream)
            &&& 0 <= local * ds.width()
            &&& (local + 1) * ds.width() <= stream.len()
            &&& window.len() == ds.width()
            &&& forall|j: int|
                0 <= j < ds.width() ==> #[trigger] window[j] == stream[local * ds.width() + j] as int
        }),
{
    let gw = ds.first() + index;
    let width = ds.width();
    let (at, stream) = choose|at: int, stream: Seq<u32>|
        holds_window(ds.blocks(), at, gw) && #[trigger] ds.loads(at, stream) && cuts(
            stream,
            gw - ds.blocks()[at].win_start,
            ds.width(),
            window,
        );
    let block = ds.blocks()[at];
    let texts = choose|texts: Seq<Seq<char>>| #[trigger]
        ds.origins()[block.source as int].may_hold(block.group as int, texts) && group_stream(
            ds.tok(),
            texts,
            stream,
        );
    let local = gw - block.win_start;
    assert((local + 1) * width == local * width + width) by (nonlinear_arith);
    (at, texts, stream)
}

/// The count pass leaves no group out: every group of every source is counted, and its count is the
/// length of a stream that its documents give.
pub proof fn law_every_group_is_counted<S: RowGroupSource>(
    sources: Seq<S>,
    tok: TextTokenizer,
    counts: Seq<Seq<usize>>,
    s: int,
    g: int,
) -> (r: (Seq<Seq<char>>, Seq<u32>))
    requires
        counted(sources, tok, counts),
        0 <= s < sources.len(),
        0 <= g < sources[s].groups(),
    ensures
        counts.len() == sources.len(),
        counts[s].len() == sources[s].groups(),
        sources[s].may_hold(g, r.0),
        group_stream(tok, r.0, r.1),
        counts[s][g] == r.1.len(),
{
    let source = sources[s];
    assert(source_counted(source, tok, counts[s]));
    assert(group_counted(source, tok, g, counts[s][g] as int));
    choose|texts: Seq<Seq<char>>, stream: Seq<u32>|
        #![trigger source.may_hold(g, texts), group_stream(tok, texts, stream)]
        source.may_hold(g, texts) && group_stream(tok, texts, stream) && stream.len()
            == counts[s][g] as int
}

/// A corpus is refused with a source's words only where one of its groups can fail and say them.
pub proof fn law_failures_come_from_a_group<S: RowGroupSource>(
    sources: Seq<S>,
    message: Seq<char>,
) -> (r: (int, int))
    requires
        some_group_fails(sources, message),
    ensures
        0 <= r.0 < sources.len(),
        0 <= r.1 < sources[r.0].groups(),
        sources[r.0].may_fail(r.1, message),
{
    choose|s: int, g: int|
        0 <= s < sources.len() && 0 <= g < sources[s].groups() && #[trigger] sources[s].may_fail(
            g,
            message,
        )
}

} // verus!
