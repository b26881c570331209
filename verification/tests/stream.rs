use gabriel_laevis::chat::IGNORE_ID;
use gabriel_laevis::mix::{domain_draw, splitmix64, window_draw, MixtureDataset};
use gabriel_laevis::stream::{
    encode_or_empty, window_of, RowGroupSource, StreamError, StreamingTokenDataset,
};
use gabriel_laevis::swh::{blob_text, blob_url, place_blobs, SoftwareHeritageSource};
use gabriel_laevis::windows::{build_window_index, group_window_count, resolve_window};
use gabriel_laevis::tokenizer::{load_tokenizer, TextTokenizer};
use std::io::Write;
use std::sync::atomic::{AtomicUsize, Ordering};
use std::sync::Arc;

/// A tokenizer over lower-case letters and the space, one id per character from 1 on.
fn letters() -> Arc<TextTokenizer> {
    let mut vocab = String::from("\"\u{100}\":0");
    for (i, c) in "abcdefghijklmnopqrstuvwxyz\u{120}".chars().enumerate() {
        vocab.push_str(&format!(",\"{c}\":{}", i + 1));
    }
    let json = format!(
        r#"{{"version":"1.0","truncation":null,"padding":null,"added_tokens":[],"normalizer":null,
        "pre_tokenizer":{{"type":"ByteLevel","add_prefix_space":false,"trim_offsets":true,"use_regex":false}},
        "post_processor":null,
        "decoder":{{"type":"ByteLevel","add_prefix_space":true,"trim_offsets":true,"use_regex":true}},
        "model":{{"type":"BPE","dropout":null,"unk_token":null,"continuing_subword_prefix":null,
        "end_of_word_suffix":null,"fuse_unk":false,"byte_fallback":false,"ignore_merges":false,
        "vocab":{{{vocab}}},"merges":[]}}}}"#
    );
    Arc::new(load_tokenizer(&json, 1).unwrap_or_else(|e| panic!("{e:?}")))
}

struct FakeSource {
    groups: Vec<Vec<String>>,
    reads: Arc<AtomicUsize>,
    /// Reads after this many fail.
    lasts: usize,
}

impl RowGroupSource for FakeSource {
    fn num_groups(&self) -> usize {
        self.groups.len()
    }

    fn group_texts(&self, g: usize) -> Result<Vec<String>, String> {
        let before = self.reads.fetch_add(1, Ordering::SeqCst);
        if self.groups[g].is_empty() || before >= self.lasts {
            return Err(format!("group {g} is broken"));
        }
        Ok(self.groups[g].clone())
    }
}

fn fake(groups: Vec<Vec<String>>) -> FakeSource {
    FakeSource { groups, reads: Arc::new(AtomicUsize::new(0)), lasts: usize::MAX }
}

fn open(source: FakeSource, seq_len: usize) -> StreamingTokenDataset<FakeSource> {
    match StreamingTokenDataset::new(vec![source], letters(), seq_len, 8) {
        Ok(ds) => ds,
        Err(e) => panic!("{e:?}"),
    }
}

#[test]
fn window_count_is_floor_over_full_width() {
    // w = seq_len+1 = 4. 10 tokens -> 2 dense windows, remainder 2 dropped.
    assert_eq!(group_window_count(10, 3), 2);
    assert_eq!(group_window_count(8, 3), 2); // exact, no remainder
    assert_eq!(group_window_count(3, 3), 0); // fewer than one window
    assert_eq!(group_window_count(0, 3), 0);
}

#[test]
fn window_index_assigns_contiguous_blocks_and_skips_empty_groups() {
    let (index, total) = build_window_index(&[vec![10, 3], vec![8]], 3);
    assert_eq!(total, 4);
    assert_eq!(
        (index[0].source, index[0].win_start, index[0].n_windows),
        (0, 0, 2)
    );
    assert_eq!(
        (index[1].source, index[1].win_start, index[1].n_windows),
        (0, 2, 0)
    );
    assert_eq!(
        (index[2].source, index[2].win_start, index[2].n_windows),
        (1, 2, 2)
    );
    assert_eq!(resolve_window(&index, 0), Some((0, 0)));
    assert_eq!(resolve_window(&index, 1), Some((0, 1)));
    assert_eq!(resolve_window(&index, 2), Some((2, 0)));
    assert_eq!(resolve_window(&index, 3), Some((2, 1)));
    assert_eq!(resolve_window(&index, 4), None);
}

#[test]
fn streaming_dataset_packs_densely_and_is_seekable() {
    let seq_len = 7;
    let w = seq_len + 1;
    let para = "the quick brown fox jumps over the lazy dog again and again ";
    let source = fake(vec![vec![para.repeat(3), para.repeat(2)], vec![para.repeat(4)]]);
    let ds = open(source, seq_len);

    let n = ds.len();
    assert!(n >= 1, "expected at least one dense window");
    for i in 0..n {
        let win = ds.get(i).expect("in-range window");
        assert_eq!(win.len(), w, "window {i} not full width");
        assert!(
            win.iter().all(|&t| t != IGNORE_ID as i64),
            "window {i} contains padding — packing is not dense"
        );
    }
    assert_eq!(ds.get(n), None, "out of range returns None");

    // Disjoint views over the window space partition the corpus exactly.
    let (a, b) = (n / 2, n);
    let train = ds.view(0..a);
    let valid = ds.view(a..b);
    assert_eq!(train.len() + valid.len(), n);
    assert_eq!(train.get(0), ds.get(0), "view 0 maps to global 0");
    if valid.len() > 0 {
        assert_eq!(valid.get(0), ds.get(a), "valid view offset maps to global a");
    }
    assert_eq!(n, (5 * para.len()) / w + (4 * para.len()) / w);
    assert_eq!(ds.total(), n);
    assert_eq!(valid.total(), n);
    assert_eq!(ds.view(3..1).len(), 0);
    assert_eq!(train.get(a), None);
}

#[test]
fn streaming_skips_unencodable_documents() {
    let tok = letters();
    assert!(tok.encode("\u{0006}").is_err(), "fixture is not actually unencodable");

    let seq_len = 7;
    let para = "the quick brown fox jumps over the lazy dog again and again ";
    let ds = match StreamingTokenDataset::new(
        vec![fake(vec![vec![para.repeat(4), "bad \u{0006} doc".to_string()]])],
        tok,
        seq_len,
        8,
    ) {
        Ok(ds) => ds,
        Err(e) => panic!("unencodable doc must be skipped, not fatal: {e:?}"),
    };
    assert!(ds.len() > 0, "encodable content should still yield windows");
    for i in 0..ds.len() {
        let win = ds.get(i).expect("in-range window");
        assert_eq!(win.len(), seq_len + 1);
    }
}

#[test]
fn mixture_routes_draws_by_domain_weight() {
    let seq_len = 7;
    let para = "the quick brown fox jumps over the lazy dog again and again ";
    let web = open(fake(vec![vec![para.repeat(4)]]), seq_len);
    // A domain whose only doc is too short to fill one window.
    let empty = open(fake(vec![vec!["a".to_string()]]), seq_len);
    assert!(web.len() > 0 && empty.len() == 0, "fixture domains malformed");
    let n = web.len();

    let mix = MixtureDataset::new(vec![web, empty], 100);
    assert_eq!(mix.len(), n);
    assert_eq!(mix.planned(), 100);
    // All draws to the first domain are full windows of it.
    for i in 0..20 {
        assert_eq!(mix.draw(i, 0).expect("web draw").len(), seq_len + 1);
    }
    // All draws to the empty domain yield nothing.
    assert!(
        (0..20).all(|i| mix.draw(i, 1).is_none()),
        "empty-domain draws must be None"
    );
    let none = MixtureDataset::<FakeSource>::new(vec![], 0);
    assert_eq!((none.len(), none.planned()), (1, 1));
}

#[test]
fn windows_concatenate_to_the_stream() {
    let ds = open(fake(vec![vec!["abcd".to_string(), "efghi".to_string()]]), 1);
    let ids: Vec<i64> = (0..ds.len()).flat_map(|i| ds.get(i).unwrap()).collect();
    assert_eq!(ids, vec![1, 2, 3, 4, 5, 6, 7, 8]);
    assert_eq!(ds.locate(3), Some((0, 3)));
    assert_eq!(ds.locate(4), None);
}

#[test]
fn groups_are_loaded_once_and_then_cached() {
    let source = fake(vec![vec!["abcd".to_string()], vec!["efgh".to_string()]]);
    let reads = source.reads.clone();
    let ds = open(source, 1);
    assert_eq!(reads.load(Ordering::SeqCst), 2, "one count pass");
    let view = ds.view(0..2);
    assert_eq!(ds.get(0), Some(vec![1, 2]));
    assert_eq!(ds.get(1), Some(vec![3, 4]));
    assert_eq!(view.get(1), Some(vec![3, 4]));
    assert_eq!(reads.load(Ordering::SeqCst), 3, "a view shares the cache");
    assert_eq!(ds.get(3), Some(vec![7, 8]));
    assert_eq!(reads.load(Ordering::SeqCst), 4);
}

#[test]
fn a_broken_group_fails_the_count_pass() {
    let r = StreamingTokenDataset::new(
        vec![fake(vec![vec!["a".to_string()], vec![]])],
        letters(),
        1,
        8,
    );
    assert!(matches!(r, Err(StreamError::Source(m)) if m == "group 1 is broken"));
}

#[test]
fn a_group_that_fails_later_is_reported() {
    let mut source = fake(vec![vec!["ab".to_string()], vec!["cd".to_string()]]);
    source.lasts = 3;
    let ds = open(source, 1);
    assert_eq!(ds.try_get(0).unwrap(), Some(vec![1, 2]));
    let f = ds.try_get(1).unwrap_err();
    assert_eq!((f.group, f.message.as_str()), (1, "group 1 is broken"));
    assert_eq!(f.line(), "streaming dataset: row group 1 failed: group 1 is broken");
    assert_eq!(ds.get(1), None);
    assert_eq!(ds.try_get(0).unwrap(), Some(vec![1, 2]), "a loaded group stays");
    assert_eq!(ds.try_get(2).unwrap(), None);
    let mix = MixtureDataset::new(vec![ds.view(1..2)], 1);
    assert!(mix.try_draw(0, 0).is_err());
    assert_eq!(mix.draw(0, 0), None);
}

#[test]
fn a_stream_is_cut_at_full_widths() {
    let s = vec![1u32, 2, 3, 4, 5];
    assert_eq!(window_of(&s, 0, 1), Some(vec![1, 2]));
    assert_eq!(window_of(&s, 1, 1), Some(vec![3, 4]));
    assert_eq!(window_of(&s, 2, 1), None);
    assert_eq!(encode_or_empty(&letters(), "ba"), vec![2, 1]);
    assert_eq!(encode_or_empty(&letters(), "B"), Vec::<u32>::new());
}

#[test]
fn draws_are_scrambled_indices() {
    assert_eq!(splitmix64(0), 0xE220_A839_7B1D_CDAF);
    assert_eq!(splitmix64(0x9E37_79B9_7F4A_7C15), 0x6E78_9E6A_A1B9_65F4);
    assert_eq!(domain_draw(0), 0xE220_A839_7B1D_CDAF >> 11);
    assert_eq!(
        window_draw(0, 1000),
        (splitmix64(0xE220_A839_7B1D_CDAF ^ 0xD1B5_4A32_D192_ED03) % 1000) as usize
    );
}

#[test]
fn blobs_are_addressed_and_unpacked() {
    assert_eq!(
        blob_url("abc"),
        "https://softwareheritage.s3.amazonaws.com/content/abc"
    );
    let pack = |bytes: &[u8]| {
        let mut e = flate2::write::GzEncoder::new(Vec::new(), flate2::Compression::default());
        e.write_all(bytes).unwrap();
        e.finish().unwrap()
    };
    assert_eq!(blob_text(&pack("café".as_bytes())), Some("café".to_string()));
    assert_eq!(blob_text(&pack(b"a\xffb")), Some("a\u{fffd}b".to_string()));
    assert_eq!(blob_text(b"not gzip"), None);
}

#[test]
fn blobs_find_their_place() {
    let done = vec![(2, "c".to_string()), (0, "a".to_string())];
    assert_eq!(place_blobs(3, done), vec!["a", "", "c"]);
    assert_eq!(place_blobs(0, vec![]), Vec::<String>::new());
}

#[test]
fn blob_groups_cover_the_ids() {
    let source = SoftwareHeritageSource { blob_ids: (0..600).map(|i| i.to_string()).collect() };
    assert_eq!(source.num_groups(), 3);
    assert_eq!(source.group_ids(0).len(), 256);
    assert_eq!(source.group_ids(1)[0], "256");
    assert_eq!(source.group_ids(2).len(), 88);
    assert_eq!(source.group_ids(3).len(), 0);
    assert_eq!(source.group_ids(usize::MAX).len(), 0);
    assert_eq!(SoftwareHeritageSource { blob_ids: vec![] }.num_groups(), 1);
    let whole = SoftwareHeritageSource { blob_ids: vec![String::new(); 512] };
    assert_eq!(whole.num_groups(), 2);
}
