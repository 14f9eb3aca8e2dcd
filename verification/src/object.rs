//! The content-addressed object store: content-defined chunking with
//! deduplication, reassembly, and deletion over the store's file tables
//! and chunk directory.

use vstd::prelude::*;
use crate::crypto::{sha256_hex, sha256_of};
use crate::encoding::hex_of;
use crate::errors::StoreError;
use crate::store::{
    blob_present,
    ChunkBlob,
    ChunkBlobV,
    FileChunk,
    FileChunkV,
    FileMetadata,
    FileV,
    Store,
    StoreV,
};
use crate::text::str_eq;
use vstd::slice::slice_subrange;
use vstd::slice::slice_to_vec;

verus! {

/// Smallest chunk the chunker may cut.
pub const MIN_CHUNK_SIZE: u32 = 2048;

/// Target average chunk size.
pub const AVG_CHUNK_SIZE: u32 = 8192;

/// Largest chunk the chunker may cut.
pub const MAX_CHUNK_SIZE: u32 = 65536;

/// What the content-defined chunker returns for a byte sequence: the
/// `(offset, length)` spans of its chunks, a function of the bytes alone.
pub uninterp spec fn cuts_of(data: Seq<u8>) -> Seq<(usize, usize)>;

/// The total length of the first `k` spans.
pub open spec fn cum_len(spans: Seq<(usize, usize)>, k: int) -> int
    decreases k,
{
    if k <= 0 {
        0
    } else {
        cum_len(spans, k - 1) + spans[k - 1].1
    }
}

/// Spans cover the input exactly: each starts where the previous ones
/// end, stays within the chunk size cap, and together they span the whole
/// input.
pub open spec fn spans_partition(spans: Seq<(usize, usize)>, n: int) -> bool {
    &&& (n == 0 ==> spans.len() == 0)
    &&& (n > 0 ==> spans.len() > 0)
    &&& (forall|k: int|
        0 <= k < spans.len() ==> 1 <= (#[trigger] spans[k]).1 <= MAX_CHUNK_SIZE)
    &&& (forall|k: int| 0 <= k < spans.len() ==> (#[trigger] spans[k]).0 == cum_len(spans, k))
    &&& cum_len(spans, spans.len() as int) == n
}

/// Relies on `fastcdc::v2020::FastCDC`: with a fixed seed and the
/// parameters above, the cut points depend on the bytes alone and the
/// chunks cover the input exactly.
#[verifier::external_body]
pub fn chunk_spans(data: &[u8]) -> (r: Vec<(usize, usize)>)
    ensures
        r@ == cuts_of(data@),
        spans_partition(r@, data@.len() as int),
{
    fastcdc::v2020::FastCDC::new(data, MIN_CHUNK_SIZE, AVG_CHUNK_SIZE, MAX_CHUNK_SIZE)
        .map(|c| (c.offset, c.length))
        .collect()
}

/// The views of a list of chunk rows.
pub open spec fn row_views(rows: Seq<FileChunk>) -> Seq<FileChunkV> {
    rows.map_values(|c: FileChunk| c@)
}

/// The bytes a span selects.
pub open spec fn span_bytes(data: Seq<u8>, sp: (usize, usize)) -> Seq<u8> {
    data.subrange(sp.0 as int, sp.0 + sp.1)
}

/// The chunk rows recorded for a file cut along the given spans.
pub open spec fn chunk_rows_for(file: Seq<char>, data: Seq<u8>, spans: Seq<(usize, usize)>) -> Seq<
    FileChunkV,
> {
    Seq::new(
        spans.len(),
        |k: int|
            FileChunkV {
                file_hash: file,
                chunk_order: k,
                chunk_hash: hex_of(sha256_of(span_bytes(data, spans[k]))),
                chunk_size: spans[k].1 as int,
            },
    )
}

/// The chunk directory after writing the first `k` chunks, skipping any
/// hash already present (deduplication).
pub open spec fn blobs_after(
    blobs: Seq<ChunkBlobV>,
    data: Seq<u8>,
    spans: Seq<(usize, usize)>,
    k: int,
) -> Seq<ChunkBlobV>
    decreases k,
{
    if k <= 0 {
        blobs
    } else {
        let prev = blobs_after(blobs, data, spans, k - 1);
        let bytes = span_bytes(data, spans[k - 1]);
        let h = hex_of(sha256_of(bytes));
        if blob_present(prev, h) {
            prev
        } else {
            prev.push(ChunkBlobV { chunk_hash: h, data: bytes })
        }
    }
}

/// The store after `create` stores a new file: the file row, its chunk
/// rows, and the deduplicated chunk blobs.
pub open spec fn create_post(
    sv: StoreV,
    data: Seq<u8>,
    file_name: Option<Seq<char>>,
    mime_type: Option<Seq<char>>,
) -> StoreV {
    let h = hex_of(sha256_of(data));
    if sv.has_file(h) {
        sv
    } else {
        StoreV {
            files: sv.files.push(
                FileV {
                    file_hash: h,
                    file_name: if file_name is Some {
                        file_name->Some_0
                    } else {
                        Seq::<char>::empty()
                    },
                    mime_type: if mime_type is Some {
                        mime_type->Some_0
                    } else {
                        Seq::<char>::empty()
                    },
                    size_bytes: data.len() as int,
                    is_complete: true,
                },
            ),
            file_chunks: sv.file_chunks + chunk_rows_for(h, data, cuts_of(data)),
            chunk_blobs: blobs_after(sv.chunk_blobs, data, cuts_of(data), cuts_of(data).len() as int),
            ..sv
        }
    }
}

impl Store {
    /// The index of the file row with this hash.
    pub(crate) fn find_file(&self, file_hash: &str) -> (r: Option<usize>)
        ensures
            match r {
                Some(i) => i < self@.files.len() && self@.files[i as int].file_hash == file_hash@,
                None => !self@.has_file(file_hash@),
            },
    {
        let n = self.files.len();
        let mut i: usize = 0;
        while i < n
            invariant
                n == self@.files.len(),
                i <= n,
                forall|j: int| 0 <= j < i ==> (#[trigger] self@.files[j]).file_hash != file_hash@,
            decreases n - i,
        {
            if str_eq(self.files[i].file_hash.as_str(), file_hash) {
                return Some(i);
            }
            i += 1;
        }
        None
    }

    /// The index of the chunk blob with this hash.
    pub(crate) fn find_blob(&self, chunk_hash: &str) -> (r: Option<usize>)
        ensures
            match r {
                Some(i) => i < self@.chunk_blobs.len() && self@.chunk_blobs[i as int].chunk_hash
                    == chunk_hash@,
                None => !self@.has_blob(chunk_hash@),
            },
    {
        let n = self.chunk_blobs.len();
        let mut i: usize = 0;
        while i < n
            invariant
                n == self@.chunk_blobs.len(),
                i <= n,
                forall|j: int|
                    0 <= j < i ==> (#[trigger] self@.chunk_blobs[j]).chunk_hash != chunk_hash@,
            decreases n - i,
        {
            if str_eq(self.chunk_blobs[i].chunk_hash.as_str(), chunk_hash) {
                return Some(i);
            }
            i += 1;
        }
        None
    }
}

/// Write one chunk to the chunk directory unless a blob with its hash is
/// already there.
fn put_chunk(store: &mut Store, chunk: &[u8]) -> (h: String)
    ensures
        h@ == hex_of(sha256_of(chunk@)),
        final(store)@ == (StoreV { chunk_blobs: final(store)@.chunk_blobs, ..old(store)@ }),
        final(store)@.chunk_blobs == (if blob_present(old(store)@.chunk_blobs, h@) {
            old(store)@.chunk_blobs
        } else {
            old(store)@.chunk_blobs.push(
                ChunkBlobV { chunk_hash: hex_of(sha256_of(chunk@)), data: chunk@ },
            )
        }),
{
    let chunk_hash = sha256_hex(chunk);
    if store.find_blob(chunk_hash.as_str()).is_none() {
        let blob = ChunkBlob { chunk_hash: chunk_hash.clone(), data: slice_to_vec(chunk) };
        store.chunk_blobs.push(blob);
        proof {
            assert(final(store)@.chunk_blobs =~= old(store)@.chunk_blobs.push(
                ChunkBlobV { chunk_hash: hex_of(sha256_of(chunk@)), data: chunk@ },
            ));
            assert(final(store)@ == (StoreV {
                chunk_blobs: final(store)@.chunk_blobs,
                ..old(store)@
            }));
        }
    }
    chunk_hash
}

/// Store a file with content-defined chunking and deduplication: chunks
/// are written to the chunk directory only when absent, the file row and
/// chunk rows go in together, and storing bytes already present changes
/// nothing. Returns the file's content address.
#[verifier::rlimit(100)]
pub fn create(
    store: &mut Store,
    data: &[u8],
    file_name: Option<&str>,
    mime_type: Option<&str>,
) -> (r: String)
    requires
        old(store)@.wf(),
        data@.len() <= 0x7fffffffffffffff,
    ensures
        final(store)@.wf(),
        r@ == hex_of(sha256_of(data@)),
        final(store)@ == create_post(
            old(store)@,
            data@,
            (match file_name {
                Some(s) => Some(s@),
                None => None,
            }),
            (match mime_type {
                Some(s) => Some(s@),
                None => None,
            }),
    ),
{
    let data_len = data.len();
    let file_hash = sha256_hex(data);
    if store.find_file(file_hash.as_str()).is_some() {
        return file_hash;
    }
    let ghost sv0 = store@;
    let ghost spans_g = cuts_of(data@);
    let spans = chunk_spans(data);
    let n = spans.len();
    proof {
        lemma_spans_len_le(spans_g, data@.len() as int);
    }

    // collect the chunk rows
    let mut rows: Vec<FileChunk> = Vec::new();
    let mut k: usize = 0;
    while k < n
        invariant
            n == spans_g.len(),
            spans@ == spans_g,
            spans_partition(spans_g, data@.len() as int),
            k <= n,
            n <= data@.len() <= 0x7fffffffffffffff,
            data@.len() <= usize::MAX,
            file_hash@ == hex_of(sha256_of(data@)),
            row_views(rows@) == chunk_rows_for(file_hash@, data@, spans_g).take(k as int),
        decreases n - k,
    {
        proof {
            lemma_span_in_bounds(spans_g, k as int, data@.len() as int);
        }
        let (off, len) = spans[k];
        proof {
            assert((off, len) == spans_g[k as int]);
            assert(off + len <= data@.len());
        }
        let chunk = slice_subrange(data, off, off + len);
        let chunk_hash = sha256_hex(chunk);
        let row = FileChunk {
            file_hash: file_hash.clone(),
            chunk_order: k as i64,
            chunk_hash,
            chunk_size: len as i64,
        };
        let ghost prev_rows = rows@;
        rows.push(row);
        proof {
            let target = chunk_rows_for(file_hash@, data@, spans_g);
            assert(target.len() == n);
            assert(row_views(prev_rows).len() == prev_rows.len());
            assert(target.take(k as int).len() == k);
            assert(prev_rows.len() == k);
            assert(rows@.len() == k + 1);
            assert(rows@ =~= prev_rows.push(rows@.last()));
            assert(rows@.last()@ == target[k as int]);
            assert(target.take(k + 1)[k as int] == target[k as int]);
            assert forall|j: int| 0 <= j < rows@.len() implies row_views(rows@)[j] == target.take(
                k + 1,
            )[j] by {
                if j < prev_rows.len() {
                    assert(prev_rows.push(rows@.last())[j] == prev_rows[j]);
                    assert(rows@[j] == prev_rows[j]);
                    assert(row_views(prev_rows)[j] == target.take(k as int)[j]);
                } else {
                    assert(prev_rows.push(rows@.last())[j] == rows@.last());
                    assert(rows@[j] == rows@.last());
                }
            }
            assert(row_views(rows@) =~= target.take(k + 1));
        }
        k += 1;
    }

    // write the missing chunks to the chunk directory
    let mut w: usize = 0;
    while w < n
        invariant
            n == spans_g.len(),
            spans@ == spans_g,
            spans_partition(spans_g, data@.len() as int),
            w <= n,
            n <= data@.len() <= 0x7fffffffffffffff,
            data@.len() <= usize::MAX,
            store@ == (StoreV { chunk_blobs: store@.chunk_blobs, ..sv0 }),
            store@.chunk_blobs == blobs_after(sv0.chunk_blobs, data@, spans_g, w as int),
        decreases n - w,
    {
        proof {
            lemma_span_in_bounds(spans_g, w as int, data@.len() as int);
        }
        let (off, len) = spans[w];
        proof {
            assert((off, len) == spans_g[w as int]);
            assert(off + len <= data@.len());
        }
        let chunk = slice_subrange(data, off, off + len);
        let ghost blobs_prev = store@.chunk_blobs;
        let _ = put_chunk(store, chunk);
        proof {
            assert(blobs_after(sv0.chunk_blobs, data@, spans_g, w + 1) == (
            if blob_present(blobs_prev, hex_of(sha256_of(chunk@))) {
                blobs_prev
            } else {
                blobs_prev.push(
                    ChunkBlobV { chunk_hash: hex_of(sha256_of(chunk@)), data: chunk@ },
                )
            }));
            assert(store@.chunk_blobs == blobs_after(sv0.chunk_blobs, data@, spans_g, w + 1));
        }
        w += 1;
    }

    // record the file row and its chunk rows together
    let file_row = FileMetadata {
        file_hash: file_hash.clone(),
        file_name: match file_name {
            Some(s) => s.to_owned(),
            None => String::new(),
        },
        mime_type: match mime_type {
            Some(s) => s.to_owned(),
            None => String::new(),
        },
        size_bytes: data.len() as i64,
        is_complete: true,
    };
    store.files.push(file_row);
    store.file_chunks.append(&mut rows);
    proof {
        assert(chunk_rows_for(file_hash@, data@, spans_g).take(n as int) =~= chunk_rows_for(
            file_hash@,
            data@,
            spans_g,
        ));
        assert(store@.files =~= sv0.files.push(store@.files.last()));
        assert(store@.file_chunks =~= sv0.file_chunks + chunk_rows_for(
            file_hash@,
            data@,
            spans_g,
        ));
        assert(store@ == create_post(
            sv0,
            data@,
            (match file_name {
                Some(s) => Some(s@),
                None => None,
            }),
            (match mime_type {
                Some(s) => Some(s@),
                None => None,
            }),
        ));
        // the new rows keep the store well formed
        let h = file_hash@;
        let rows = chunk_rows_for(h, data@, spans_g);
        let base = sv0.file_chunks.len() as int;
        lemma_wf_no_stray_rows(sv0, h);
        assert forall|a: int, b: int|
            0 <= a < b < store@.files.len() implies (#[trigger] store@.files[a]).file_hash != (
        #[trigger] store@.files[b]).file_hash by {
            if b == store@.files.len() - 1 {
                assert(store@.files[a] == sv0.files[a]);
                assert(store@.files[b].file_hash == h);
                if sv0.files[a].file_hash == h {
                    assert(sv0.has_file(h));
                }
            } else {
                assert(store@.files[a] == sv0.files[a] && store@.files[b] == sv0.files[b]);
            }
        }
        assert forall|a: int, b: int|
            0 <= a < b < store@.file_chunks.len() implies !((
        #[trigger] store@.file_chunks[a]).file_hash == (
        #[trigger] store@.file_chunks[b]).file_hash && store@.file_chunks[a].chunk_order
            == store@.file_chunks[b].chunk_order) by {
            if a < base && b >= base {
                assert(store@.file_chunks[a] == sv0.file_chunks[a]);
                assert(store@.file_chunks[b] == rows[b - base]);
                assert(sv0.file_chunks[a].file_hash != h);
            } else if a >= base {
                assert(store@.file_chunks[a] == rows[a - base]);
                assert(store@.file_chunks[b] == rows[b - base]);
            } else {
                assert(store@.file_chunks[a] == sv0.file_chunks[a]);
                assert(store@.file_chunks[b] == sv0.file_chunks[b]);
            }
        }
        lemma_blobs_after_unique(sv0.chunk_blobs, data@, spans_g, spans_g.len() as int);
        assert forall|i: int|
            0 <= i < store@.file_chunks.len() implies store@.has_file(
            (#[trigger] store@.file_chunks[i]).file_hash,
        ) by {
            if i < base {
                assert(store@.file_chunks[i] == sv0.file_chunks[i]);
                assert(sv0.has_file(sv0.file_chunks[i].file_hash));
                let jf = choose|j: int|
                    0 <= j < sv0.files.len() && (#[trigger] sv0.files[j]).file_hash
                        == sv0.file_chunks[i].file_hash;
                assert((#[trigger] store@.files[jf]).file_hash
                    == store@.file_chunks[i].file_hash);
            } else {
                assert(store@.file_chunks[i] == rows[i - base]);
                let w = store@.files.len() - 1;
                assert((#[trigger] store@.files[w]).file_hash == h);
            }
        }
        assert forall|kk: int|
            0 <= kk < sv0.chats.len() implies store@.has_chat((#[trigger] sv0.chats[kk]).id) by {
            assert(store@.chats[kk].id == sv0.chats[kk].id);
        }
        assert forall|kk: int|
            0 <= kk < sv0.peers.len() implies store@.has_peer((#[trigger] sv0.peers[kk]).id) by {
            assert(store@.peers[kk].id == sv0.peers[kk].id);
        }
        assert forall|kk: int|
            0 <= kk < sv0.files.len() implies store@.has_file(
            (#[trigger] sv0.files[kk]).file_hash,
        ) by {
            assert(store@.files[kk].file_hash == sv0.files[kk].file_hash);
        }
        crate::store::lemma_msg_refs_preserved(sv0, store@);
        assert(store@.wf());
    }
    file_hash
}

/// The cumulative length grows by at least one per span and by at most
/// the chunk cap.
pub proof fn lemma_cum_len_bounds(spans: Seq<(usize, usize)>, a: int, b: int)
    requires
        0 <= a <= b <= spans.len(),
        forall|k: int| 0 <= k < spans.len() ==> 1 <= (#[trigger] spans[k]).1 <= MAX_CHUNK_SIZE,
    ensures
        cum_len(spans, a) + (b - a) <= cum_len(spans, b),
    decreases b - a,
{
    if a < b {
        lemma_cum_len_bounds(spans, a, b - 1);
    }
}

/// A partition has no more spans than bytes.
pub proof fn lemma_spans_len_le(spans: Seq<(usize, usize)>, n: int)
    requires
        spans_partition(spans, n),
    ensures
        spans.len() <= n,
{
    lemma_cum_len_bounds(spans, 0, spans.len() as int);
}

/// A span of a partition stays within the data.
pub proof fn lemma_span_in_bounds(spans: Seq<(usize, usize)>, k: int, n: int)
    requires
        spans_partition(spans, n),
        0 <= k < spans.len(),
    ensures
        spans[k].0 + spans[k].1 <= n,
        spans[k].0 + spans[k].1 == cum_len(spans, k + 1),
        spans[k].0 >= 0,
{
    assert(spans[k].0 == cum_len(spans, k));
    assert(cum_len(spans, k + 1) == cum_len(spans, k) + spans[k].1);
    lemma_cum_len_bounds(spans, k + 1, spans.len() as int);
    lemma_cum_len_bounds(spans, 0, k as int);
}


// --- Reassembly ---

/// Whether a chunk row for this file and order exists.
pub open spec fn has_row(chunks: Seq<FileChunkV>, file: Seq<char>, k: int) -> bool {
    exists|i: int|
        0 <= i < chunks.len() && (#[trigger] chunks[i]).file_hash == file && chunks[i].chunk_order
            == k
}

/// The chunk row for this file and order.
pub open spec fn row_at(chunks: Seq<FileChunkV>, file: Seq<char>, k: int) -> FileChunkV {
    chunks[choose|i: int|
        0 <= i < chunks.len() && (#[trigger] chunks[i]).file_hash == file && chunks[i].chunk_order
            == k]
}

/// The bytes stored under a chunk hash.
pub open spec fn blob_data_of(blobs: Seq<ChunkBlobV>, h: Seq<char>) -> Seq<u8> {
    blobs[choose|i: int| 0 <= i < blobs.len() && (#[trigger] blobs[i]).chunk_hash == h].data
}

/// How many chunk rows a file has.
pub open spec fn file_chunk_count(chunks: Seq<FileChunkV>, file: Seq<char>) -> int {
    chunks.filter(|c: FileChunkV| c.file_hash == file).len() as int
}

/// The concatenation of a file's first `k` chunks, or the first failure:
/// a missing row or a missing blob.
pub open spec fn assemble(sv: StoreV, file: Seq<char>, k: int) -> Result<Seq<u8>, StoreError>
    decreases k,
{
    if k <= 0 {
        Ok(Seq::<u8>::empty())
    } else {
        match assemble(sv, file, k - 1) {
            Err(e) => Err(e),
            Ok(acc) => {
                if !has_row(sv.file_chunks, file, k - 1) {
                    Err(StoreError::ChunkMissing)
                } else {
                    let h = row_at(sv.file_chunks, file, k - 1).chunk_hash;
                    if !blob_present(sv.chunk_blobs, h) {
                        Err(StoreError::ChunkMissing)
                    } else {
                        Ok(acc + blob_data_of(sv.chunk_blobs, h))
                    }
                }
            },
        }
    }
}

/// What `load` returns: the file's chunks in order, concatenated.
pub open spec fn load_spec(sv: StoreV, file: Seq<char>) -> Result<Seq<u8>, StoreError> {
    if !sv.has_file(file) {
        Err(StoreError::NotFound)
    } else {
        assemble(sv, file, file_chunk_count(sv.file_chunks, file))
    }
}

impl Store {
    /// The index of the chunk row with this file hash and order.
    pub(crate) fn find_row(&self, file_hash: &str, order: usize) -> (r: Option<usize>)
        ensures
            match r {
                Some(i) => i < self@.file_chunks.len() && self@.file_chunks[i as int].file_hash
                    == file_hash@ && self@.file_chunks[i as int].chunk_order == order as int,
                None => !has_row(self@.file_chunks, file_hash@, order as int),
            },
    {
        let n = self.file_chunks.len();
        let mut i: usize = 0;
        while i < n
            invariant
                n == self@.file_chunks.len(),
                i <= n,
                forall|j: int|
                    0 <= j < i ==> !((#[trigger] self@.file_chunks[j]).file_hash == file_hash@
                        && self@.file_chunks[j].chunk_order == order as int),
            decreases n - i,
        {
            if self.file_chunks[i].chunk_order >= 0 && (self.file_chunks[i].chunk_order as u64)
                == (order as u64) && str_eq(self.file_chunks[i].file_hash.as_str(), file_hash) {
                return Some(i);
            }
            i += 1;
        }
        None
    }

    /// How many chunk rows a file has.
    fn count_rows(&self, file_hash: &str) -> (r: usize)
        ensures
            r == file_chunk_count(self@.file_chunks, file_hash@),
    {
        let ghost pred = |c: FileChunkV| c.file_hash == file_hash@;
        let n = self.file_chunks.len();
        let mut count: usize = 0;
        let mut i: usize = 0;
        proof {
            reveal_with_fuel(Seq::filter, 2);
            assert(self@.file_chunks.take(0).filter(pred) =~= Seq::<FileChunkV>::empty());
        }
        while i < n
            invariant
                n == self@.file_chunks.len(),
                i <= n,
                pred == (|c: FileChunkV| c.file_hash == file_hash@),
                count == self@.file_chunks.take(i as int).filter(pred).len(),
                count <= i,
            decreases n - i,
        {
            let ghost taken = self@.file_chunks.take(i as int);
            let ghost cur = self@.file_chunks[i as int];
            proof {
                reveal_with_fuel(Seq::filter, 2);
                assert(self@.file_chunks.take(i + 1) =~= taken.push(cur));
                Seq::filter_distributes_over_add(taken, seq![cur], pred);
                assert(taken + seq![cur] =~= taken.push(cur));
                assert(seq![cur].drop_last() =~= Seq::<FileChunkV>::empty());
                assert(seq![cur].last() == cur);
                assert(Seq::<FileChunkV>::empty().filter(pred) =~= Seq::<FileChunkV>::empty());
                if pred(cur) {
                    assert(seq![cur].filter(pred) =~= seq![cur]);
                } else {
                    assert(seq![cur].filter(pred) =~= Seq::<FileChunkV>::empty());
                }
            }
            if str_eq(self.file_chunks[i].file_hash.as_str(), file_hash) {
                count += 1;
            } else {
                proof {
                    assert(!pred(cur));
                }
            }
            i += 1;
        }
        proof {
            assert(self@.file_chunks.take(n as int) =~= self@.file_chunks);
        }
        count
    }
}

/// Load a file by concatenating its chunks in order. Fails with
/// `NotFound` when there is no file row, and with `ChunkMissing` when an
/// expected chunk row or blob is absent.
pub fn load(store: &Store, file_hash: &str) -> (r: Result<Vec<u8>, StoreError>)
    requires
        store@.wf(),
    ensures
        match r {
            Ok(v) => load_spec(store@, file_hash@) == Ok::<Seq<u8>, StoreError>(v@),
            Err(e) => load_spec(store@, file_hash@) == Err::<Seq<u8>, StoreError>(e),
        },
{
    if store.find_file(file_hash).is_none() {
        return Err(StoreError::NotFound);
    }
    let total = store.count_rows(file_hash);
    let fc_len = store.file_chunks.len();
    proof {
        Seq::lemma_filter_len(store@.file_chunks, |c: FileChunkV| c.file_hash == file_hash@);
        assert(total <= store@.file_chunks.len());
    }
    let mut out: Vec<u8> = Vec::new();
    let mut k: usize = 0;
    while k < total
        invariant
            store@.wf(),
            store@.has_file(file_hash@),
            k <= total,
            total == file_chunk_count(store@.file_chunks, file_hash@),
            total <= store@.file_chunks.len() <= usize::MAX,
            assemble(store@, file_hash@, k as int) == Ok::<Seq<u8>, StoreError>(out@),
        decreases total - k,
    {
        let i = match store.find_row(file_hash, k) {
            Some(i) => i,
            None => {
                proof {
                    assert(assemble(store@, file_hash@, k + 1) == Err::<Seq<u8>, StoreError>(
                        StoreError::ChunkMissing,
                    ));
                    lemma_assemble_error_propagates(store@, file_hash@, k + 1, total as int);
                }
                return Err(StoreError::ChunkMissing);
            },
        };
        proof {
            let ghost w = choose|j: int|
                0 <= j < store@.file_chunks.len() && (#[trigger] store@.file_chunks[j]).file_hash
                    == file_hash@ && store@.file_chunks[j].chunk_order == k as int;
            assert(store@.file_chunks[w] == store@.file_chunks[i as int]) by {
                if w != i as int {
                    assert(false);
                }
            }
            assert(row_at(store@.file_chunks, file_hash@, k as int)
                == store@.file_chunks[i as int]);
        }
        let b = match store.find_blob(self_chunk_hash(store, i)) {
            Some(b) => b,
            None => {
                proof {
                    assert(assemble(store@, file_hash@, k + 1) == Err::<Seq<u8>, StoreError>(
                        StoreError::ChunkMissing,
                    ));
                    lemma_assemble_error_propagates(store@, file_hash@, k + 1, total as int);
                }
                return Err(StoreError::ChunkMissing);
            },
        };
        proof {
            let h = store@.file_chunks[i as int].chunk_hash;
            let ghost w2 = choose|j: int|
                0 <= j < store@.chunk_blobs.len() && (#[trigger] store@.chunk_blobs[j]).chunk_hash
                    == h;
            assert(store@.chunk_blobs[w2] == store@.chunk_blobs[b as int]) by {
                if w2 != b as int {
                    assert(false);
                }
            }
            assert(blob_data_of(store@.chunk_blobs, h) == store@.chunk_blobs[b as int].data);
        }
        let ghost prev_out = out@;
        out.extend_from_slice(store.chunk_blobs[b].data.as_slice());
        proof {
            assert(out@ =~= prev_out + store@.chunk_blobs[b as int].data);
        }
        k += 1;
    }
    Ok(out)
}

/// A failed assembly stays failed as more chunks are asked for.
proof fn lemma_assemble_error_propagates(sv: StoreV, file: Seq<char>, k: int, m: int)
    requires
        0 <= k <= m,
        assemble(sv, file, k) is Err,
    ensures
        assemble(sv, file, m) == assemble(sv, file, k),
    decreases m - k,
{
    if k < m {
        lemma_assemble_error_propagates(sv, file, k + 1, m);
    }
}

/// The chunk hash of row `i`, by reference.
fn self_chunk_hash(store: &Store, i: usize) -> (r: &str)
    requires
        i < store@.file_chunks.len(),
    ensures
        r@ == store@.file_chunks[i as int].chunk_hash,
{
    store.file_chunks[i].chunk_hash.as_str()
}

/// Delete a file's rows. The chunk blobs stay: another file may share
/// them. Deleting an unknown file is an error, and so is deleting a
/// file some message still points at: the foreign key holds.
pub fn delete(store: &mut Store, file_hash: &str) -> (r: Result<(), StoreError>)
    requires
        old(store)@.wf(),
    ensures
        final(store)@.wf(),
        match r {
            Ok(()) => old(store)@.has_file(file_hash@) && (forall|j: int|
                0 <= j < old(store)@.messages.len() ==> (
                #[trigger] old(store)@.messages[j]).file_hash != Some(file_hash@))
                && final(store)@ == (StoreV {
                files: old(store)@.files.filter((|f: FileV| f.file_hash != file_hash@)),
                file_chunks: old(store)@.file_chunks.filter(
                    (|c: FileChunkV| c.file_hash != file_hash@),
                ),
                ..old(store)@
            }),
            Err(e) => final(store)@ == old(store)@ && (if !old(store)@.has_file(file_hash@) {
                e == StoreError::NotFound
            } else {
                e == StoreError::ForeignKey && (exists|j: int|
                    0 <= j < old(store)@.messages.len() && (
                    #[trigger] old(store)@.messages[j]).file_hash == Some(file_hash@))
            }),
        },
{
    if store.find_file(file_hash).is_none() {
        return Err(StoreError::NotFound);
    }
    let refs = store.messages.len();
    let mut rk: usize = 0;
    while rk < refs
        invariant
            store == old(store),
            old(store)@.wf(),
            old(store)@.has_file(file_hash@),
            refs == store@.messages.len(),
            rk <= refs,
            forall|j: int|
                0 <= j < rk ==> (#[trigger] store@.messages[j]).file_hash != Some(file_hash@),
        decreases refs - rk,
    {
        let referenced = match &store.messages[rk].file_hash {
            Some(h) => str_eq(h.as_str(), file_hash),
            None => false,
        };
        if referenced {
            proof {
                assert((#[trigger] store@.messages[rk as int]).file_hash == Some(file_hash@));
            }
            return Err(StoreError::ForeignKey);
        }
        rk += 1;
    }
    proof {
        assert forall|j: int|
            0 <= j < old(store)@.messages.len() implies (#[trigger] old(store)@
            .messages[j]).file_hash != Some(file_hash@) by {
            assert(store@.messages[j].file_hash != Some(file_hash@));
        }
    }
    let ghost keep_f = |f: FileV| f.file_hash != file_hash@;
    let ghost keep_c = |c: FileChunkV| c.file_hash != file_hash@;
    let n = store.files.len();
    let mut kept: Vec<FileMetadata> = Vec::new();
    let mut i: usize = 0;
    proof {
        reveal_with_fuel(Seq::filter, 2);
        assert(store@.files.take(0).filter(keep_f) =~= Seq::<FileV>::empty());
    }
    while i < n
        invariant
            n == store@.files.len(),
            i <= n,
            keep_f == (|f: FileV| f.file_hash != file_hash@),
            store@ == old(store)@,
            kept@.map_values(|f: FileMetadata| f@) == store@.files.take(i as int).filter(keep_f),
        decreases n - i,
    {
        let ghost taken = store@.files.take(i as int);
        let ghost cur = store@.files[i as int];
        proof {
            reveal_with_fuel(Seq::filter, 2);
            assert(store@.files.take(i + 1) =~= taken.push(cur));
            Seq::filter_distributes_over_add(taken, seq![cur], keep_f);
            assert(taken + seq![cur] =~= taken.push(cur));
            assert(seq![cur].drop_last() =~= Seq::<FileV>::empty());
            assert(seq![cur].last() == cur);
            assert(Seq::<FileV>::empty().filter(keep_f) =~= Seq::<FileV>::empty());
            if keep_f(cur) {
                assert(seq![cur].filter(keep_f) =~= seq![cur]);
            } else {
                assert(seq![cur].filter(keep_f) =~= Seq::<FileV>::empty());
            }
        }
        if !str_eq(store.files[i].file_hash.as_str(), file_hash) {
            kept.push(copy_file_row(&store.files[i]));
            proof {
                assert(kept@.map_values(|f: FileMetadata| f@) =~= store@.files.take(i + 1).filter(
                    keep_f,
                ));
            }
        } else {
            proof {
                assert(!keep_f(cur));
                assert(kept@.map_values(|f: FileMetadata| f@) =~= store@.files.take(i + 1).filter(
                    keep_f,
                ));
            }
        }
        i += 1;
    }
    proof {
        assert(store@.files.take(n as int) =~= store@.files);
    }
    store.files = kept;

    let m = store.file_chunks.len();
    let mut kept_c: Vec<FileChunk> = Vec::new();
    let mut j: usize = 0;
    proof {
        reveal_with_fuel(Seq::filter, 2);
        assert(old(store)@.file_chunks.take(0).filter(keep_c) =~= Seq::<FileChunkV>::empty());
    }
    while j < m
        invariant
            m == store@.file_chunks.len(),
            j <= m,
            keep_c == (|c: FileChunkV| c.file_hash != file_hash@),
            store@.file_chunks == old(store)@.file_chunks,
            kept_c@.map_values(|c: FileChunk| c@) == old(store)@.file_chunks.take(j as int).filter(
                keep_c,
            ),
        decreases m - j,
    {
        let ghost taken = old(store)@.file_chunks.take(j as int);
        let ghost cur = old(store)@.file_chunks[j as int];
        proof {
            reveal_with_fuel(Seq::filter, 2);
            assert(old(store)@.file_chunks.take(j + 1) =~= taken.push(cur));
            Seq::filter_distributes_over_add(taken, seq![cur], keep_c);
            assert(taken + seq![cur] =~= taken.push(cur));
            assert(seq![cur].drop_last() =~= Seq::<FileChunkV>::empty());
            assert(seq![cur].last() == cur);
            assert(Seq::<FileChunkV>::empty().filter(keep_c) =~= Seq::<FileChunkV>::empty());
            if keep_c(cur) {
                assert(seq![cur].filter(keep_c) =~= seq![cur]);
            } else {
                assert(seq![cur].filter(keep_c) =~= Seq::<FileChunkV>::empty());
            }
        }
        if !str_eq(store.file_chunks[j].file_hash.as_str(), file_hash) {
            kept_c.push(copy_chunk_row(&store.file_chunks[j]));
            proof {
                assert(kept_c@.map_values(|c: FileChunk| c@) =~= old(
                    store,
                )@.file_chunks.take(j + 1).filter(keep_c));
            }
        } else {
            proof {
                assert(!keep_c(cur));
                assert(kept_c@.map_values(|c: FileChunk| c@) =~= old(
                    store,
                )@.file_chunks.take(j + 1).filter(keep_c));
            }
        }
        j += 1;
    }
    proof {
        assert(old(store)@.file_chunks.take(m as int) =~= old(store)@.file_chunks);
    }
    store.file_chunks = kept_c;
    proof {
        assert(final(store)@ == (StoreV {
            files: old(store)@.files.filter(keep_f),
            file_chunks: old(store)@.file_chunks.filter(keep_c),
            ..old(store)@
        }));
        lemma_filter_wf_files(old(store)@.files, keep_f);
        lemma_filter_wf_chunks(old(store)@.file_chunks, keep_c);
        broadcast use vstd::seq_lib::group_filter_ensures;

        assert forall|i: int|
            0 <= i < final(store)@.file_chunks.len() implies final(store)@.has_file(
            (#[trigger] final(store)@.file_chunks[i]).file_hash,
        ) by {
            let c = final(store)@.file_chunks[i];
            lemma_filter_from_source(old(store)@.file_chunks, keep_c, i);
            let k = choose|k: int|
                0 <= k < old(store)@.file_chunks.len() && #[trigger] old(store)@.file_chunks[k]
                    == old(store)@.file_chunks.filter(keep_c)[i];
            assert(old(store)@.has_file(old(store)@.file_chunks[k].file_hash));
            let jf = choose|j: int|
                0 <= j < old(store)@.files.len() && (#[trigger] old(store)@.files[j]).file_hash
                    == c.file_hash;
            assert(keep_c(c));
            assert(keep_f(old(store)@.files[jf]));
            Seq::lemma_filter_contains(old(store)@.files, keep_f, jf);
            assert(old(store)@.files.filter(keep_f).contains(old(store)@.files[jf]));
            let w = choose|w: int|
                0 <= w < old(store)@.files.filter(keep_f).len() && old(store)@.files.filter(
                    keep_f,
                )[w] == old(store)@.files[jf];
            assert((#[trigger] final(store)@.files[w]).file_hash == c.file_hash);
        }
        assert forall|m: int| 0 <= m < final(store)@.messages.len() implies final(store)@
            .msg_refs_ok(#[trigger] final(store)@.messages[m]) by {
            let mm = old(store)@.messages[m];
            assert(old(store)@.msg_refs_ok(mm));
            let jc = choose|j: int|
                0 <= j < old(store)@.chats.len() && (#[trigger] old(store)@.chats[j]).id
                    == mm.chat_id;
            assert((#[trigger] final(store)@.chats[jc]).id == mm.chat_id);
            let jp = choose|j: int|
                0 <= j < old(store)@.peers.len() && (#[trigger] old(store)@.peers[j]).id
                    == mm.peer_id;
            assert((#[trigger] final(store)@.peers[jp]).id == mm.peer_id);
            if mm.file_hash is Some {
                let h = mm.file_hash->Some_0;
                assert(h != file_hash@);
                let jf = choose|j: int|
                    0 <= j < old(store)@.files.len() && (#[trigger] old(store)@.files[j]).file_hash
                        == h;
                assert(keep_f(old(store)@.files[jf]));
                Seq::lemma_filter_contains(old(store)@.files, keep_f, jf);
                assert(old(store)@.files.filter(keep_f).contains(old(store)@.files[jf]));
                let w = choose|w: int|
                    0 <= w < old(store)@.files.filter(keep_f).len() && old(store)@.files.filter(
                        keep_f,
                    )[w] == old(store)@.files[jf];
                assert((#[trigger] final(store)@.files[w]).file_hash == h);
            }
        }
    }
    Ok(())
}

/// A row copy with an equal view.
fn copy_file_row(f: &FileMetadata) -> (r: FileMetadata)
    ensures
        r@ == f@,
{
    FileMetadata {
        file_hash: f.file_hash.clone(),
        file_name: f.file_name.clone(),
        mime_type: f.mime_type.clone(),
        size_bytes: f.size_bytes,
        is_complete: f.is_complete,
    }
}

/// A row copy with an equal view.
fn copy_chunk_row(c: &FileChunk) -> (r: FileChunk)
    ensures
        r@ == c@,
{
    FileChunk {
        file_hash: c.file_hash.clone(),
        chunk_order: c.chunk_order,
        chunk_hash: c.chunk_hash.clone(),
        chunk_size: c.chunk_size,
    }
}

/// Filtering keeps file keys unique.
proof fn lemma_filter_wf_files(files: Seq<FileV>, pred: spec_fn(FileV) -> bool)
    requires
        forall|i: int, j: int|
            0 <= i < j < files.len() ==> (#[trigger] files[i]).file_hash != (
            #[trigger] files[j]).file_hash,
    ensures
        forall|i: int, j: int|
            0 <= i < j < files.filter(pred).len() ==> (#[trigger] files.filter(pred)[i]).file_hash
                != (#[trigger] files.filter(pred)[j]).file_hash,
    decreases files.len(),
{
    broadcast use vstd::seq_lib::group_filter_ensures;

    if files.len() > 0 {
        lemma_filter_wf_files(files.drop_last(), pred);
        reveal(Seq::filter);
        assert forall|i: int, j: int|
            0 <= i < j < files.filter(pred).len() implies (
        #[trigger] files.filter(pred)[i]).file_hash != (#[trigger] files.filter(pred)[j]).file_hash by {
            let fp = files.filter(pred);
            let dp = files.drop_last().filter(pred);
            if pred(files.last()) {
                assert(fp =~= dp.push(files.last()));
                if j < fp.len() - 1 {
                    assert(fp[i] == dp[i] && fp[j] == dp[j]);
                } else {
                    assert(fp[j] == files.last());
                    assert(fp[i] == dp[i]);
                    assert(dp.contains(dp[i]));
                    lemma_filter_from_source(files.drop_last(), pred, i);
                }
            } else {
                assert(fp =~= dp);
            }
        }
    }
}

/// A filtered element comes from the original sequence, keeping the
/// predicate.
pub(crate) proof fn lemma_filter_from_source<A>(s: Seq<A>, pred: spec_fn(A) -> bool, i: int)
    requires
        0 <= i < s.filter(pred).len(),
    ensures
        exists|k: int| 0 <= k < s.len() && #[trigger] s[k] == s.filter(pred)[i],
    decreases s.len(),
{
    reveal(Seq::filter);
    if s.len() > 0 {
        let dp = s.drop_last().filter(pred);
        if pred(s.last()) && i == s.filter(pred).len() - 1 {
            assert(s[s.len() - 1] == s.filter(pred)[i]);
        } else {
            lemma_filter_from_source(s.drop_last(), pred, i);
            let k = choose|k: int| 0 <= k < s.drop_last().len() && #[trigger] s.drop_last()[k]
                == s.drop_last().filter(pred)[i];
            assert(s[k] == s.filter(pred)[i]);
        }
    }
}

/// Filtering keeps chunk keys unique.
proof fn lemma_filter_wf_chunks(chunks: Seq<FileChunkV>, pred: spec_fn(FileChunkV) -> bool)
    requires
        forall|i: int, j: int|
            0 <= i < j < chunks.len() ==> !((#[trigger] chunks[i]).file_hash == (
            #[trigger] chunks[j]).file_hash && chunks[i].chunk_order == chunks[j].chunk_order),
    ensures
        forall|i: int, j: int|
            0 <= i < j < chunks.filter(pred).len() ==> !((
            #[trigger] chunks.filter(pred)[i]).file_hash == (
            #[trigger] chunks.filter(pred)[j]).file_hash && chunks.filter(pred)[i].chunk_order
                == chunks.filter(pred)[j].chunk_order),
    decreases chunks.len(),
{
    broadcast use vstd::seq_lib::group_filter_ensures;

    if chunks.len() > 0 {
        lemma_filter_wf_chunks(chunks.drop_last(), pred);
        reveal(Seq::filter);
        assert forall|i: int, j: int|
            0 <= i < j < chunks.filter(pred).len() implies !((
        #[trigger] chunks.filter(pred)[i]).file_hash == (#[trigger] chunks.filter(
            pred,
        )[j]).file_hash && chunks.filter(pred)[i].chunk_order == chunks.filter(
            pred,
        )[j].chunk_order) by {
            let fp = chunks.filter(pred);
            let dp = chunks.drop_last().filter(pred);
            if pred(chunks.last()) {
                assert(fp =~= dp.push(chunks.last()));
                if j < fp.len() - 1 {
                    assert(fp[i] == dp[i] && fp[j] == dp[j]);
                } else {
                    assert(fp[j] == chunks.last());
                    assert(fp[i] == dp[i]);
                    lemma_filter_from_source(chunks.drop_last(), pred, i);
                }
            } else {
                assert(fp =~= dp);
            }
        }
    }
}


// --- The chunk round trip ---

/// The hypothesis under which content addressing is honest: no two
/// distinct byte sequences share a digest. Cryptographically assumed,
/// never provable; the round-trip law is stated under it.
pub open spec fn digests_injective() -> bool {
    forall|a: Seq<u8>, b: Seq<u8>|
        #![trigger sha256_of(a), sha256_of(b)]
        sha256_of(a) == sha256_of(b) ==> a == b
}

/// Every blob in the chunk directory sits under the hex digest of its
/// own bytes.
pub open spec fn blobs_consistent(blobs: Seq<ChunkBlobV>) -> bool {
    forall|i: int|
        0 <= i < blobs.len() ==> (#[trigger] blobs[i]).chunk_hash == hex_of(
            sha256_of(blobs[i].data),
        )
}

/// No chunk row names this file.
pub open spec fn no_rows_for(chunks: Seq<FileChunkV>, file: Seq<char>) -> bool {
    forall|i: int| 0 <= i < chunks.len() ==> (#[trigger] chunks[i]).file_hash != file
}

proof fn lemma_filter_none<A>(s: Seq<A>, pred: spec_fn(A) -> bool)
    requires
        forall|i: int| 0 <= i < s.len() ==> !pred(#[trigger] s[i]),
    ensures
        s.filter(pred) == Seq::<A>::empty(),
    decreases s.len(),
{
    reveal(Seq::filter);
    if s.len() > 0 {
        lemma_filter_none(s.drop_last(), pred);
    }
}

proof fn lemma_filter_all<A>(s: Seq<A>, pred: spec_fn(A) -> bool)
    requires
        forall|i: int| 0 <= i < s.len() ==> pred(#[trigger] s[i]),
    ensures
        s.filter(pred) == s,
    decreases s.len(),
{
    reveal(Seq::filter);
    if s.len() > 0 {
        lemma_filter_all(s.drop_last(), pred);
        assert(s =~= s.drop_last().push(s.last()));
    }
}

/// Writing chunks only appends to the chunk directory, so presence is
/// stable.
proof fn lemma_blobs_after_monotone(
    blobs: Seq<ChunkBlobV>,
    data: Seq<u8>,
    spans: Seq<(usize, usize)>,
    j: int,
    m: int,
    x: Seq<char>,
)
    requires
        0 <= j <= m,
        blob_present(blobs_after(blobs, data, spans, j), x),
    ensures
        blob_present(blobs_after(blobs, data, spans, m), x),
    decreases m - j,
{
    if j < m {
        let prev = blobs_after(blobs, data, spans, m - 1);
        lemma_blobs_after_monotone(blobs, data, spans, j, m - 1, x);
        let w = choose|i: int| 0 <= i < prev.len() && (#[trigger] prev[i]).chunk_hash == x;
        assert(blobs_after(blobs, data, spans, m).len() >= prev.len());
        assert(blobs_after(blobs, data, spans, m)[w].chunk_hash == x);
    }
}

/// After writing all chunks, each chunk's hash is present.
proof fn lemma_blobs_after_contains(
    blobs: Seq<ChunkBlobV>,
    data: Seq<u8>,
    spans: Seq<(usize, usize)>,
    k: int,
    m: int,
)
    requires
        0 <= k < m <= spans.len(),
    ensures
        blob_present(
            blobs_after(blobs, data, spans, m),
            hex_of(sha256_of(span_bytes(data, spans[k]))),
        ),
{
    let h = hex_of(sha256_of(span_bytes(data, spans[k])));
    let prev = blobs_after(blobs, data, spans, k);
    if blob_present(prev, h) {
        lemma_blobs_after_monotone(blobs, data, spans, k, k + 1, h);
    } else {
        let stepped = blobs_after(blobs, data, spans, k + 1);
        assert(stepped == prev.push(ChunkBlobV { chunk_hash: h, data: span_bytes(data, spans[k]) }));
        assert(stepped[stepped.len() - 1].chunk_hash == h);
    }
    lemma_blobs_after_monotone(blobs, data, spans, k + 1, m, h);
}

/// Writing chunks keeps the chunk hashes unique: a chunk is pushed only
/// when its hash is absent.
proof fn lemma_blobs_after_unique(
    blobs: Seq<ChunkBlobV>,
    data: Seq<u8>,
    spans: Seq<(usize, usize)>,
    m: int,
)
    requires
        forall|i: int, j: int|
            0 <= i < j < blobs.len() ==> (#[trigger] blobs[i]).chunk_hash != (
            #[trigger] blobs[j]).chunk_hash,
    ensures
        forall|i: int, j: int|
            0 <= i < j < blobs_after(blobs, data, spans, m).len() ==> (#[trigger] blobs_after(
                blobs,
                data,
                spans,
                m,
            )[i]).chunk_hash != (#[trigger] blobs_after(blobs, data, spans, m)[j]).chunk_hash,
    decreases m,
{
    if m > 0 {
        lemma_blobs_after_unique(blobs, data, spans, m - 1);
        let prev = blobs_after(blobs, data, spans, m - 1);
        let cur = blobs_after(blobs, data, spans, m);
        let h = hex_of(sha256_of(span_bytes(data, spans[m - 1])));
        if !blob_present(prev, h) {
            assert forall|i: int, j: int|
                0 <= i < j < cur.len() implies (#[trigger] cur[i]).chunk_hash != (
            #[trigger] cur[j]).chunk_hash by {
                if j == cur.len() - 1 {
                    assert(cur[i] == prev[i]);
                    assert(cur[j].chunk_hash == h);
                    assert(prev[i].chunk_hash != h);
                } else {
                    assert(cur[i] == prev[i] && cur[j] == prev[j]);
                }
            }
        }
    }
}

/// A well-formed store without a file row for a hash has no chunk rows
/// for it either: the chunk rows' file references forbid strays.
pub proof fn lemma_wf_no_stray_rows(sv: StoreV, h: Seq<char>)
    requires
        sv.wf(),
        !sv.has_file(h),
    ensures
        no_rows_for(sv.file_chunks, h),
{
    assert forall|i: int|
        0 <= i < sv.file_chunks.len() implies (#[trigger] sv.file_chunks[i]).file_hash != h by {
        assert(sv.has_file(sv.file_chunks[i].file_hash));
    }
}

/// Writing chunks keeps the chunk directory consistent.
proof fn lemma_blobs_after_consistent(
    blobs: Seq<ChunkBlobV>,
    data: Seq<u8>,
    spans: Seq<(usize, usize)>,
    m: int,
)
    requires
        blobs_consistent(blobs),
    ensures
        blobs_consistent(blobs_after(blobs, data, spans, m)),
    decreases m,
{
    if m > 0 {
        lemma_blobs_after_consistent(blobs, data, spans, m - 1);
    }
}

/// One step of the assembled round trip.
proof fn lemma_assemble_created(
    sv: StoreV,
    data: Seq<u8>,
    fname: Option<Seq<char>>,
    mime: Option<Seq<char>>,
    k: int,
)
    requires
        digests_injective(),
        blobs_consistent(sv.chunk_blobs),
        spans_partition(cuts_of(data), data.len() as int),
        !sv.has_file(hex_of(sha256_of(data))),
        no_rows_for(sv.file_chunks, hex_of(sha256_of(data))),
        0 <= k <= cuts_of(data).len(),
    ensures
        assemble(create_post(sv, data, fname, mime), hex_of(sha256_of(data)), k) == Ok::<
            Seq<u8>,
            StoreError,
        >(data.take(cum_len(cuts_of(data), k))),
    decreases k,
{
    let h = hex_of(sha256_of(data));
    let spans = cuts_of(data);
    let n = spans.len() as int;
    let sv1 = create_post(sv, data, fname, mime);
    let rows = chunk_rows_for(h, data, spans);
    if k == 0 {
        assert(data.take(0) =~= Seq::<u8>::empty());
    } else {
        lemma_assemble_created(sv, data, fname, mime, k - 1);
        // the row for order k-1 is the appended one
        let base = sv.file_chunks.len() as int;
        assert(sv1.file_chunks == sv.file_chunks + rows);
        assert(sv1.file_chunks[base + (k - 1)] == rows[k - 1]);
        assert(rows[k - 1].file_hash == h && rows[k - 1].chunk_order == k - 1);
        assert(has_row(sv1.file_chunks, h, k - 1));
        let w = choose|i: int|
            0 <= i < sv1.file_chunks.len() && (#[trigger] sv1.file_chunks[i]).file_hash == h
                && sv1.file_chunks[i].chunk_order == k - 1;
        assert(w >= base) by {
            if w < base {
                assert(sv.file_chunks[w].file_hash != h);
            }
        }
        assert(sv1.file_chunks[w] == rows[w - base]);
        assert(rows[w - base].chunk_order == w - base);
        assert(w - base == k - 1);
        assert(row_at(sv1.file_chunks, h, k - 1) == rows[k - 1]);
        let hk = hex_of(sha256_of(span_bytes(data, spans[k - 1])));
        assert(rows[k - 1].chunk_hash == hk);
        // its blob is present and holds exactly the chunk bytes
        assert(sv1.chunk_blobs == blobs_after(sv.chunk_blobs, data, spans, n));
        lemma_blobs_after_contains(sv.chunk_blobs, data, spans, k - 1, n);
        lemma_blobs_after_consistent(sv.chunk_blobs, data, spans, n);
        let w2 = choose|i: int|
            0 <= i < sv1.chunk_blobs.len() && (#[trigger] sv1.chunk_blobs[i]).chunk_hash == hk;
        assert(sv1.chunk_blobs[w2].chunk_hash == hex_of(sha256_of(sv1.chunk_blobs[w2].data)));
        crate::encoding::lemma_hex_of_injective(
            sha256_of(sv1.chunk_blobs[w2].data),
            sha256_of(span_bytes(data, spans[k - 1])),
        );
        assert(sv1.chunk_blobs[w2].data == span_bytes(data, spans[k - 1]));
        assert(blob_data_of(sv1.chunk_blobs, hk) == span_bytes(data, spans[k - 1]));
        // the pieces concatenate to the longer prefix
        lemma_span_in_bounds(spans, k - 1, data.len() as int);
        assert(spans[k - 1].0 == cum_len(spans, k - 1));
        assert(cum_len(spans, k) == cum_len(spans, k - 1) + spans[k - 1].1);
        lemma_cum_len_bounds(spans, 0, k - 1);
        assert(data.take(cum_len(spans, k - 1)) + span_bytes(data, spans[k - 1]) =~= data.take(
            cum_len(spans, k),
        ));
    }
}

/// The chunk round trip: storing fresh bytes and loading them back by
/// their content address returns the bytes unchanged. Stated under
/// `digests_injective`, the collision-freedom that content addressing
/// assumes, for a store whose chunk directory is consistent and that
/// holds neither the file nor stray rows for it.
pub proof fn lemma_chunk_round_trip(
    sv: StoreV,
    data: Seq<u8>,
    fname: Option<Seq<char>>,
    mime: Option<Seq<char>>,
)
    requires
        digests_injective(),
        blobs_consistent(sv.chunk_blobs),
        spans_partition(cuts_of(data), data.len() as int),
        !sv.has_file(hex_of(sha256_of(data))),
        no_rows_for(sv.file_chunks, hex_of(sha256_of(data))),
    ensures
        load_spec(create_post(sv, data, fname, mime), hex_of(sha256_of(data))) == Ok::<
            Seq<u8>,
            StoreError,
        >(data),
{
    let h = hex_of(sha256_of(data));
    let spans = cuts_of(data);
    let n = spans.len() as int;
    let sv1 = create_post(sv, data, fname, mime);
    let rows = chunk_rows_for(h, data, spans);
    // the new file row exists
    assert(sv1.files[sv1.files.len() - 1].file_hash == h);
    assert(sv1.has_file(h));
    // exactly the appended rows belong to the file
    let pred = |c: FileChunkV| c.file_hash == h;
    Seq::filter_distributes_over_add(sv.file_chunks, rows, pred);
    lemma_filter_none(sv.file_chunks, pred);
    lemma_filter_all(rows, pred);
    assert(sv1.file_chunks.filter(pred) =~= rows);
    assert(file_chunk_count(sv1.file_chunks, h) == n);
    lemma_assemble_created(sv, data, fname, mime, n);
    assert(cum_len(spans, n) == data.len());
    assert(data.take(data.len() as int) =~= data);
}

/// Storing bytes whose content address is already present changes
/// nothing and yields the same address: re-creation deduplicates.
pub proof fn lemma_recreate_noop(
    sv: StoreV,
    data: Seq<u8>,
    fname: Option<Seq<char>>,
    mime: Option<Seq<char>>,
)
    requires
        sv.has_file(hex_of(sha256_of(data))),
    ensures
        create_post(sv, data, fname, mime) == sv,
{
}

/// Storing the same bytes a second time changes nothing, whatever name
/// or type the second call offers: the first call put the content
/// address on the books.
pub proof fn lemma_create_idempotent(
    sv: StoreV,
    data: Seq<u8>,
    fname1: Option<Seq<char>>,
    mime1: Option<Seq<char>>,
    fname2: Option<Seq<char>>,
    mime2: Option<Seq<char>>,
)
    ensures
        create_post(create_post(sv, data, fname1, mime1), data, fname2, mime2) == create_post(
            sv,
            data,
            fname1,
            mime1,
        ),
{
    let h = hex_of(sha256_of(data));
    let sv1 = create_post(sv, data, fname1, mime1);
    if !sv.has_file(h) {
        assert(sv1.files[sv1.files.len() - 1].file_hash == h);
        assert(sv1.has_file(h));
    }
    lemma_recreate_noop(sv1, data, fname2, mime2);
}

/// The chunk round trip for a well-formed store: well-formedness rules
/// out stray chunk rows for the fresh file, so storing and loading by
/// the content address returns the bytes unchanged.
pub proof fn lemma_chunk_round_trip_wf(
    sv: StoreV,
    data: Seq<u8>,
    fname: Option<Seq<char>>,
    mime: Option<Seq<char>>,
)
    requires
        digests_injective(),
        sv.wf(),
        blobs_consistent(sv.chunk_blobs),
        spans_partition(cuts_of(data), data.len() as int),
        !sv.has_file(hex_of(sha256_of(data))),
    ensures
        load_spec(create_post(sv, data, fname, mime), hex_of(sha256_of(data))) == Ok::<
            Seq<u8>,
            StoreError,
        >(data),
{
    lemma_wf_no_stray_rows(sv, hex_of(sha256_of(data)));
    lemma_chunk_round_trip(sv, data, fname, mime);
}

// --- Receiving chunks ---

/// The chunk rows a metadata response announces, taken in list order.
pub open spec fn announced_rows(
    file: Seq<char>,
    list: Seq<(u64, String, u64)>,
) -> Seq<FileChunkV> {
    Seq::new(
        list.len(),
        |k: int|
            FileChunkV {
                file_hash: file,
                chunk_order: k,
                chunk_hash: list[k].1@,
                chunk_size: (if list[k].2 <= 0x7fffffffffffffff {
                    list[k].2 as int
                } else {
                    0x7fffffffffffffff
                }),
            },
    )
}

/// Record a file announced by a transfer: a placeholder file row with
/// `is_complete` off and one chunk row per announced chunk, ordered by
/// list position. A file already known, or one with chunk rows on the
/// books, is refused as a duplicate and nothing changes.
#[verifier::rlimit(50)]
pub fn register_incoming_file(
    store: &mut Store,
    file_hash: &str,
    file_name: &str,
    mime_type: &str,
    size_bytes: i64,
    chunk_list: &Vec<(u64, String, u64)>,
) -> (r: Result<(), StoreError>)
    requires
        old(store)@.wf(),
        chunk_list@.len() <= 0x7fffffff,
    ensures
        final(store)@.wf(),
        match r {
            Ok(()) => !old(store)@.has_file(file_hash@) && final(store)@ == (StoreV {
                files: old(store)@.files.push(
                    FileV {
                        file_hash: file_hash@,
                        file_name: file_name@,
                        mime_type: mime_type@,
                        size_bytes: size_bytes as int,
                        is_complete: false,
                    },
                ),
                file_chunks: old(store)@.file_chunks + announced_rows(file_hash@, chunk_list@),
                ..old(store)@
            }),
            Err(e) => e == StoreError::Duplicate && final(store)@ == old(store)@,
        },
{
    if store.find_file(file_hash).is_some() {
        return Err(StoreError::Duplicate);
    }
    if store.count_rows(file_hash) > 0 {
        return Err(StoreError::Duplicate);
    }
    proof {
        Seq::lemma_filter_len(store@.file_chunks, |c: FileChunkV| c.file_hash == file_hash@);
        assert forall|j: int|
            0 <= j < old(store)@.file_chunks.len() implies (#[trigger] old(
            store,
        )@.file_chunks[j]).file_hash != file_hash@ by {
            let pred = |c: FileChunkV| c.file_hash == file_hash@;
            if old(store)@.file_chunks[j].file_hash == file_hash@ {
                Seq::lemma_filter_contains(old(store)@.file_chunks, pred, j);
                broadcast use vstd::seq_lib::group_to_multiset_ensures;

                assert(old(store)@.file_chunks.filter(pred).contains(
                    old(store)@.file_chunks[j],
                ));
                assert(old(store)@.file_chunks.filter(pred).len() > 0);
            }
        }
    }
    store.files.push(
        FileMetadata {
            file_hash: file_hash.to_owned(),
            file_name: file_name.to_owned(),
            mime_type: mime_type.to_owned(),
            size_bytes,
            is_complete: false,
        },
    );
    proof {
        assert(store@.files =~= old(store)@.files.push(
            FileV {
                file_hash: file_hash@,
                file_name: file_name@,
                mime_type: mime_type@,
                size_bytes: size_bytes as int,
                is_complete: false,
            },
        ));
    }
    let ghost mid = store@;
    let n = chunk_list.len();
    let mut k: usize = 0;
    proof {
        assert(announced_rows(file_hash@, chunk_list@).take(0) =~= Seq::<FileChunkV>::empty());
        assert(store@.file_chunks =~= old(store)@.file_chunks + announced_rows(
            file_hash@,
            chunk_list@,
        ).take(0));
    }
    while k < n
        invariant
            n == chunk_list@.len(),
            n <= 0x7fffffff,
            k <= n,
            mid == (StoreV { files: mid.files, ..old(store)@ }),
            store@ == (StoreV { file_chunks: store@.file_chunks, ..mid }),
            store@.file_chunks == old(store)@.file_chunks + announced_rows(
                file_hash@,
                chunk_list@,
            ).take(k as int),
        decreases n - k,
    {
        proof {
            assert(chunk_list@[k as int] == chunk_list@.index(k as int));
        }
        let entry = &chunk_list[k];
        let capped: i64 = if entry.2 <= 0x7fffffffffffffff {
            entry.2 as i64
        } else {
            0x7fffffffffffffff
        };
        let row = FileChunk {
            file_hash: file_hash.to_owned(),
            chunk_order: k as i64,
            chunk_hash: entry.1.clone(),
            chunk_size: capped,
        };
        proof {
            assert(row@ == announced_rows(file_hash@, chunk_list@)[k as int]);
            assert(announced_rows(file_hash@, chunk_list@).take(k + 1) =~= announced_rows(
                file_hash@,
                chunk_list@,
            ).take(k as int).push(row@));
        }
        let ghost prevv = store@.file_chunks;
        store.file_chunks.push(row);
        proof {
            assert(store@.file_chunks =~= prevv.push(
                announced_rows(file_hash@, chunk_list@)[k as int],
            ));
            assert(store@.file_chunks =~= old(store)@.file_chunks + announced_rows(
                file_hash@,
                chunk_list@,
            ).take(k + 1));
        }
        k += 1;
    }
    proof {
        assert(announced_rows(file_hash@, chunk_list@).take(n as int) =~= announced_rows(
            file_hash@,
            chunk_list@,
        ));
        let base = old(store)@.file_chunks;
        let rows = announced_rows(file_hash@, chunk_list@);
        // new rows collide neither with the old rows (fresh file hash)
        // nor with one another (orders are list positions)
        assert forall|a: int, b: int|
            0 <= a < b < final(store)@.file_chunks.len() implies !((
        #[trigger] final(store)@.file_chunks[a]).file_hash == (
        #[trigger] final(store)@.file_chunks[b]).file_hash && final(store)@.file_chunks[a].chunk_order
            == final(store)@.file_chunks[b].chunk_order) by {
            if a < base.len() && b >= base.len() {
                assert(final(store)@.file_chunks[a] == base[a]);
                assert(final(store)@.file_chunks[b] == rows[b - base.len()]);
                assert(base[a].file_hash != file_hash@);
            } else if a >= base.len() {
                assert(final(store)@.file_chunks[a] == rows[a - base.len()]);
                assert(final(store)@.file_chunks[b] == rows[b - base.len()]);
            } else {
                assert(final(store)@.file_chunks[a] == base[a]);
                assert(final(store)@.file_chunks[b] == base[b]);
            }
        }
        // the fresh file row keeps the files table unique
        assert forall|a: int, b: int|
            0 <= a < b < final(store)@.files.len() implies (
        #[trigger] final(store)@.files[a]).file_hash != (#[trigger] final(store)@.files[b]).file_hash by {
            if b == final(store)@.files.len() - 1 {
                assert(final(store)@.files[a] == old(store)@.files[a]);
                assert(final(store)@.files[b].file_hash == file_hash@);
                assert(!(old(store)@.files[a].file_hash == file_hash@));
            } else {
                assert(final(store)@.files[a] == old(store)@.files[a]);
                assert(final(store)@.files[b] == old(store)@.files[b]);
            }
        }
        // every chunk row still names a file on the books
        assert forall|i: int|
            0 <= i < final(store)@.file_chunks.len() implies final(store)@.has_file(
            (#[trigger] final(store)@.file_chunks[i]).file_hash,
        ) by {
            if i < base.len() {
                assert(final(store)@.file_chunks[i] == base[i]);
                assert(old(store)@.has_file(base[i].file_hash));
                let jf = choose|j: int|
                    0 <= j < old(store)@.files.len() && (#[trigger] old(
                        store,
                    )@.files[j]).file_hash == base[i].file_hash;
                assert((#[trigger] final(store)@.files[jf]).file_hash == base[i].file_hash);
            } else {
                assert(final(store)@.file_chunks[i] == rows[i - base.len()]);
                let w = final(store)@.files.len() - 1;
                assert((#[trigger] final(store)@.files[w]).file_hash == file_hash@);
            }
        }
        assert forall|kk: int|
            0 <= kk < old(store)@.chats.len() implies final(store)@.has_chat(
            (#[trigger] old(store)@.chats[kk]).id,
        ) by {
            assert(final(store)@.chats[kk].id == old(store)@.chats[kk].id);
        }
        assert forall|kk: int|
            0 <= kk < old(store)@.peers.len() implies final(store)@.has_peer(
            (#[trigger] old(store)@.peers[kk]).id,
        ) by {
            assert(final(store)@.peers[kk].id == old(store)@.peers[kk].id);
        }
        assert forall|kk: int|
            0 <= kk < old(store)@.files.len() implies final(store)@.has_file(
            (#[trigger] old(store)@.files[kk]).file_hash,
        ) by {
            assert(final(store)@.files[kk].file_hash == old(store)@.files[kk].file_hash);
        }
        crate::store::lemma_msg_refs_preserved(old(store)@, final(store)@);
        assert(final(store)@ == (StoreV {
            files: old(store)@.files.push(
                FileV {
                    file_hash: file_hash@,
                    file_name: file_name@,
                    mime_type: mime_type@,
                    size_bytes: size_bytes as int,
                    is_complete: false,
                },
            ),
            file_chunks: old(store)@.file_chunks + announced_rows(file_hash@, chunk_list@),
            ..old(store)@
        }));
    }
    Ok(())
}


/// Whether every chunk row of a file has its blob in the chunk
/// directory.
pub open spec fn all_rows_present(sv: StoreV, file: Seq<char>) -> bool {
    forall|i: int|
        0 <= i < sv.file_chunks.len() && (#[trigger] sv.file_chunks[i]).file_hash == file
            ==> blob_present(sv.chunk_blobs, sv.file_chunks[i].chunk_hash)
}

/// The store right after a delivered chunk is written: unchanged when the
/// blob was already there, else with it appended.
pub open spec fn ingest_mid(pre: StoreV, chunk_hash: Seq<char>, data: Seq<u8>) -> StoreV {
    StoreV {
        chunk_blobs: (if blob_present(pre.chunk_blobs, chunk_hash) {
            pre.chunk_blobs
        } else {
            pre.chunk_blobs.push(ChunkBlobV { chunk_hash: chunk_hash, data: data })
        }),
        ..pre
    }
}

/// What taking delivery of a chunk does to the store.
pub open spec fn ingest_post(
    pre: StoreV,
    post: StoreV,
    r: Result<bool, StoreError>,
    file_hash: Seq<char>,
    chunk_hash: Seq<char>,
    data: Seq<u8>,
) -> bool {
    match r {
        Err(e) => e == StoreError::HashMismatch && chunk_hash != hex_of(sha256_of(data)) && post
            == pre,
        Ok(completed) => {
            let mid = ingest_mid(pre, chunk_hash, data);
            &&& chunk_hash == hex_of(sha256_of(data))
            &&& (completed <==> ((exists|i: int|
                {
                    &&& 0 <= i < mid.files.len()
                    &&& (#[trigger] mid.files[i]).file_hash == file_hash
                    &&& !mid.files[i].is_complete
                }) && all_rows_present(mid, file_hash)))
            &&& (if completed {
                exists|i: int|
                    {
                        &&& 0 <= i < mid.files.len()
                        &&& (#[trigger] mid.files[i]).file_hash == file_hash
                        &&& post == (StoreV {
                            files: mid.files.update(i, FileV { is_complete: true, ..mid.files[i] }),
                            ..mid
                        })
                    }
            } else {
                post == mid
            })
        },
    }
}

/// Take delivery of one chunk of a file in transfer: check the bytes
/// against the hash they came under, store them, and report `Ok(true)`
/// exactly when this delivery completed the file, flipping its
/// `is_complete` flag. Later deliveries of a complete file report
/// `Ok(false)`, so completion fires exactly once.
pub fn ingest_chunk(store: &mut Store, file_hash: &str, chunk_hash: &str, data: &[u8]) -> (r:
    Result<bool, StoreError>)
    requires
        old(store)@.wf(),
    ensures
        final(store)@.wf(),
        ingest_post(old(store)@, final(store)@, r, file_hash@, chunk_hash@, data@),
{
    let computed = sha256_hex(data);
    if !str_eq(computed.as_str(), chunk_hash) {
        return Err(StoreError::HashMismatch);
    }
    let _ = put_chunk(store, data);
    let ghost mid = ingest_mid(old(store)@, chunk_hash@, data@);
    proof {
        assert(store@ == mid);
    }
    let i = match store.find_file(file_hash) {
        Some(i) => i,
        None => {
            proof {
                assert forall|j: int|
                    0 <= j < mid.files.len() implies !((#[trigger] mid.files[j]).file_hash
                    == file_hash@ && !mid.files[j].is_complete) by {}
            }
            return Ok(false);
        },
    };
    if store.files[i].is_complete {
        proof {
            assert forall|j: int|
                0 <= j < mid.files.len() implies !((#[trigger] mid.files[j]).file_hash
                == file_hash@ && !mid.files[j].is_complete) by {
                if mid.files[j].file_hash == file_hash@ {
                    if j != i as int {
                        assert(false);
                    }
                }
            }
            assert(!(exists|j: int|
                {
                    &&& 0 <= j < mid.files.len()
                    &&& (#[trigger] mid.files[j]).file_hash == file_hash@
                    &&& !mid.files[j].is_complete
                }));
        }
        return Ok(false);
    }
    // check whether every chunk row of the file now has its blob
    let n = store.file_chunks.len();
    let mut k: usize = 0;
    while k < n
        invariant
            store@ == mid,
            mid.wf(),
            chunk_hash@ == hex_of(sha256_of(data@)),
            mid == ingest_mid(old(store)@, chunk_hash@, data@),
            n == store@.file_chunks.len(),
            k <= n,
            i < store@.files.len(),
            store@.files[i as int].file_hash == file_hash@,
            !store@.files[i as int].is_complete,
            forall|j: int|
                0 <= j < k && (#[trigger] store@.file_chunks[j]).file_hash == file_hash@
                    ==> blob_present(store@.chunk_blobs, store@.file_chunks[j].chunk_hash),
        decreases n - k,
    {
        if str_eq(store.file_chunks[k].file_hash.as_str(), file_hash) {
            if store.find_blob(self_chunk_hash(store, k)).is_none() {
                proof {
                    assert(!all_rows_present(mid, file_hash@));
                }
                return Ok(false);
            }
        }
        k += 1;
    }
    proof {
        assert(all_rows_present(mid, file_hash@));
    }
    let mut f = store.files.remove(i);
    f.is_complete = true;
    store.files.insert(i, f);
    proof {
        assert(final(store)@.files =~= mid.files.update(
            i as int,
            FileV { is_complete: true, ..mid.files[i as int] },
        ));
        assert(final(store)@ == (StoreV { files: final(store)@.files, ..mid }));
        assert((#[trigger] mid.files[i as int]).file_hash == file_hash@);
        assert(!mid.files[i as int].is_complete);
        assert(all_rows_present(mid, file_hash@));
        assert forall|a: int, b: int| 0 <= a < b < final(store)@.files.len() implies (
        #[trigger] final(store)@.files[a]).file_hash != (#[trigger] final(store)@.files[b]).file_hash by {
            assert(final(store)@.files[a].file_hash == mid.files[a].file_hash);
            assert(final(store)@.files[b].file_hash == mid.files[b].file_hash);
        }
        assert forall|k: int|
            0 <= k < mid.chats.len() implies final(store)@.has_chat(
            (#[trigger] mid.chats[k]).id,
        ) by {
            assert(final(store)@.chats[k].id == mid.chats[k].id);
        }
        assert forall|k: int|
            0 <= k < mid.peers.len() implies final(store)@.has_peer(
            (#[trigger] mid.peers[k]).id,
        ) by {
            assert(final(store)@.peers[k].id == mid.peers[k].id);
        }
        assert forall|k: int|
            0 <= k < mid.files.len() implies final(store)@.has_file(
            (#[trigger] mid.files[k]).file_hash,
        ) by {
            assert(final(store)@.files[k].file_hash == mid.files[k].file_hash);
        }
        crate::store::lemma_msg_refs_preserved(mid, final(store)@);
        assert(final(store)@.wf());
        assert(final(store)@ == (StoreV {
            files: mid.files.update(i as int, FileV { is_complete: true, ..mid.files[i as int] }),
            ..mid
        }));
    }
    Ok(true)
}

} // verus!


