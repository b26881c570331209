//! A code corpus held as Software Heritage blob ids: which ids a row group fetches, from where, and
//! how the answers become documents.

use std::io::Read;
use vstd::prelude::*;

verus! {

broadcast use vstd::string::group_string_axioms;

/// Blobs fetched per row group.
pub const SWH_GROUP_SIZE: usize = 256;

/// Blob fetches in flight at once.
pub const SWH_CONCURRENCY: usize = 32;

/// Where a blob's content lies, before its id.
pub const SWH_CONTENT: &'static str = "https://softwareheritage.s3.amazonaws.com/content/";

/// What decompressing a gzip stream gives; `None` where it is damaged.
pub uninterp spec fn gunzipped(gz: Seq<u8>) -> Option<Seq<u8>>;

/// What bytes read as, where each malformed part of them becomes a replacement character.
pub uninterp spec fn lossy_text(bytes: Seq<u8>) -> Seq<char>;

/// `flate2::read::GzDecoder`, read to its end. Trusted: the bytes, or the failure, are a function
/// of the compressed bytes.
#[verifier::external_body]
fn gunzip(gz: &[u8]) -> (r: Option<Vec<u8>>)
    ensures
        match r {
            Some(bytes) => gunzipped(gz@) == Some(bytes@),
            None => gunzipped(gz@) is None,
        },
{
    let mut bytes = Vec::new();
    flate2::read::GzDecoder::new(gz).read_to_end(&mut bytes).ok().map(|_| bytes)
}

/// `String::from_utf8_lossy`. Trusted: the text is a function of the bytes, and bytes that are
/// well-formed UTF-8 read as the text that they encode.
#[verifier::external_body]
fn decode_lossy(bytes: &[u8]) -> (r: String)
    ensures
        r@ == lossy_text(bytes@),
        vstd::utf8::valid_utf8(bytes@) ==> vstd::utf8::encode_utf8(r@) == bytes@,
{
    String::from_utf8_lossy(bytes).into_owned()
}

/// The address of a blob's content.
pub fn blob_url(blob_id: &str) -> (r: String)
    ensures
        r@ == SWH_CONTENT@ + blob_id@,
{
    SWH_CONTENT.to_owned().concat(blob_id)
}

/// The document in a fetched blob: its gzip stream decompressed and read as text. `None` where the
/// stream is damaged.
pub fn blob_text(gz: &[u8]) -> (r: Option<String>)
    ensures
        match r {
            Some(text) => gunzipped(gz@) is Some && text@ == lossy_text(gunzipped(gz@)->0),
            None => gunzipped(gz@) is None,
        },
{
    match gunzip(gz) {
        Some(bytes) => Some(decode_lossy(bytes.as_slice())),
        None => None,
    }
}

/// The last of the answers for blob `i`, or the empty document if none came.
pub open spec fn answer_for(done: Seq<(usize, Seq<char>)>, i: int) -> Seq<char>
    decreases done.len(),
{
    if done.len() == 0 {
        Seq::empty()
    } else if done.last().0 == i {
        done.last().1
    } else {
        answer_for(done.drop_last(), i)
    }
}

/// Puts answers, which come in any order, back into the order of their blobs. A blob without an
/// answer becomes an empty document.
pub fn place_blobs(n: usize, done: Vec<(usize, String)>) -> (r: Vec<String>)
    requires
        forall|k: int| 0 <= k < done.len() ==> (#[trigger] done[k]).0 < n,
    ensures
        r.len() == n,
        forall|i: int| 0 <= i < n ==> (#[trigger] r[i])@ == answer_for(done.deep_view(), i),
{
    let ghost all = done.deep_view();
    let mut out: Vec<String> = Vec::new();
    let mut i: usize = 0;
    while i < n
        invariant
            i <= n,
            out.len() == i,
            forall|j: int| 0 <= j < i ==> (#[trigger] out[j])@ == Seq::<char>::empty(),
        decreases n - i,
    {
        out.push(String::new());
        i += 1;
    }
    let mut k: usize = 0;
    while k < done.len()
        invariant
            all == done.deep_view(),
            k <= done.len(),
            out.len() == n,
            forall|k: int| 0 <= k < done.len() ==> (#[trigger] done[k]).0 < n,
            forall|j: int| 0 <= j < n ==> (#[trigger] out[j])@ == answer_for(all.take(k as int), j),
        decreases done.len() - k,
    {
        let at: usize = done[k].0;
        let text: String = done[k].1.as_str().to_owned();
        proof {
            assert(all.take(k + 1).drop_last() =~= all.take(k as int));
            assert(all.take(k + 1).last() == (at, text@));
        }
        out.set(at, text);
        k += 1;
    }
    proof {
        assert(all.take(all.len() as int) =~= all);
    }
    out
}

/// With one answer per blob, in whatever order, every document is its own blob's answer.
pub proof fn law_answers_find_their_blob(done: Seq<(usize, Seq<char>)>, k: int)
    requires
        0 <= k < done.len(),
        forall|a: int, b: int|
            0 <= a < b < done.len() ==> (#[trigger] done[a]).0 != (#[trigger] done[b]).0,
    ensures
        answer_for(done, done[k].0 as int) == done[k].1,
    decreases done.len(),
{
    if k < done.len() - 1 {
        law_answers_find_their_blob(done.drop_last(), k);
    }
}

/// A list of blob ids, fetched `SWH_GROUP_SIZE` at a time.
pub struct SoftwareHeritageSource {
    pub blob_ids: Vec<String>,
}

/// The number of row groups over `n` blobs: enough for all of them, and at least one.
pub open spec fn swh_groups(n: int) -> int {
    if n == 0 {
        1
    } else {
        (n + SWH_GROUP_SIZE - 1) / (SWH_GROUP_SIZE as int)
    }
}

/// The first blob of row group `g` over `n` blobs, or `n` past the end.
pub open spec fn swh_start(n: int, g: int) -> int {
    if g * SWH_GROUP_SIZE < n {
        g * SWH_GROUP_SIZE
    } else {
        n
    }
}

/// Every blob lies in exactly one row group: group `b / SWH_GROUP_SIZE` starts at or before it and
/// the next group after it.
pub proof fn law_groups_cover_blobs(n: int, b: int)
    requires
        0 <= b < n,
    ensures
        0 <= b / (SWH_GROUP_SIZE as int) < swh_groups(n),
        forall|g: int|
            g >= 0 ==> (swh_start(n, g) <= b < #[trigger] swh_start(n, g + 1) <==> g == b
                / (SWH_GROUP_SIZE as int)),
{
}

impl SoftwareHeritageSource {
    /// Number of row groups.
    pub fn num_groups(&self) -> (r: usize)
        ensures
            r == swh_groups(self.blob_ids.len() as int),
    {
        let n: usize = self.blob_ids.len();
        let whole: usize = n / SWH_GROUP_SIZE;
        if n % SWH_GROUP_SIZE == 0 {
            if whole == 0 {
                1
            } else {
                whole
            }
        } else {
            whole + 1
        }
    }

    /// The ids that row group `g` fetches, in order; none past the end.
    pub fn group_ids(&self, g: usize) -> (r: &[String])
        ensures
            r@ == self.blob_ids@.subrange(
                swh_start(self.blob_ids.len() as int, g as int),
                swh_start(self.blob_ids.len() as int, g + 1),
            ),
    {
        let n: usize = self.blob_ids.len();
        let all = self.blob_ids.as_slice();
        let start: usize = if g <= n / SWH_GROUP_SIZE {
            g * SWH_GROUP_SIZE
        } else {
            n
        };
        if start >= n {
            return vstd::slice::slice_subrange(all, n, n);
        }
        let end: usize = if n - start < SWH_GROUP_SIZE {
            n
        } else {
            start + SWH_GROUP_SIZE
        };
        vstd::slice::slice_subrange(all, start, end)
    }
}

/// A document is the last answer for its blob, and empty only where none came.
pub proof fn law_documents_are_the_last_answers(done: Seq<(usize, Seq<char>)>, i: int)
    ensures
        (forall|k: int| 0 <= k < done.len() ==> (#[trigger] done[k]).0 != i) ==> answer_for(
            done,
            i,
        ) == Seq::<char>::empty(),
        forall|k: int|
            0 <= k < done.len() && (#[trigger] done[k]).0 == i && (forall|j: int|
                k < j < done.len() ==> (#[trigger] done[j]).0 != i) ==> answer_for(done, i)
                == done[k].1,
    decreases done.len(),
{
    if done.len() > 0 && done.last().0 != i {
        let rest = done.drop_last();
        law_documents_are_the_last_answers(rest, i);
        assert(forall|k: int| 0 <= k < rest.len() ==> #[trigger] rest[k] == done[k]);
        if forall|k: int| 0 <= k < done.len() ==> (#[trigger] done[k]).0 != i {
            assert forall|k: int| 0 <= k < rest.len() implies (#[trigger] rest[k]).0 != i by {
                assert(done[k].0 != i);
            }
        }
        assert forall|k: int|
            0 <= k < done.len() && (#[trigger] done[k]).0 == i && (forall|j: int|
                k < j < done.len() ==> (#[trigger] done[j]).0 != i) implies answer_for(done, i)
            == done[k].1 by {
            assert(rest[k].0 == i);
            assert forall|j: int| k < j < rest.len() implies (#[trigger] rest[j]).0 != i by {
                assert(done[j].0 != i);
            }
        }
    } else if done.len() > 0 {
        assert(done[done.len() - 1].0 == i);
    }
}

/// There are no more row groups than the blobs need, but for the one that there always is; a group
/// fetches up to 256 blobs, and only the last may fetch fewer.
pub proof fn law_groups_are_full(n: int, g: int)
    requires
        0 <= n,
        0 <= g,
    ensures
        n == 0 ==> swh_groups(n) == 1,
        n > 0 ==> (swh_groups(n) - 1) * 256 < n <= swh_groups(n) * 256,
        (g + 1) * 256 <= n ==> swh_start(n, g) == g * 256 && swh_start(n, g + 1) == (g + 1) * 256,
        swh_start(n, g) <= swh_start(n, g + 1) <= n,
        g >= swh_groups(n) ==> swh_start(n, g) == n,
        SWH_CONTENT@ == "https://softwareheritage.s3.amazonaws.com/content/"@,
{
}

} // verus!
