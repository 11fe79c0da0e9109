//! Chunk-level change detection against cached file signatures.

use crate::clock::utc_timestamp;
use crate::digest::compute_hash;
use crate::digest::spec_hash;
use crate::paths::is_hidden_path;
use crate::paths::join_path;
use crate::paths::spec_join;
use crate::paths::spec_is_hidden_path;
use crate::paths::with_suffix;
use crate::strmap::StrMap;
use crate::text::contains_text;
use crate::text::views;
use vstd::prelude::*;
use vstd::slice::slice_subrange;
use vstd::slice::slice_to_vec;
use vstd::string::StringExecFns;

verus! {

/// Chunk size for delta comparison (64 KiB).
pub const CHUNK_SIZE: usize = 65536;

/// Files smaller than this (256 KiB) are always transferred whole.
pub const MIN_DELTA_FILE_SIZE: u64 = 262144;

/// Hash information for a single chunk.
#[derive(Debug, Clone)]
pub struct ChunkHash {
    pub index: usize,
    pub offset: u64,
    pub size: usize,
    pub hash: String,
}

/// File signature: whole-file hash plus ordered chunk hashes.
#[derive(Debug, Clone)]
pub struct FileSignature {
    pub path: String,
    pub total_size: u64,
    pub full_hash: String,
    pub chunk_size: usize,
    pub chunk_hashes: Vec<ChunkHash>,
    pub modified_at: String,
    pub created_at: String,
}

/// The number of chunks that cover `len` bytes.
pub open spec fn chunk_count(len: int) -> int {
    if len <= 0 {
        0
    } else {
        (len - 1) / (CHUNK_SIZE as int) + 1
    }
}

/// The offset of the first byte of chunk `i`.
pub open spec fn chunk_start(i: int) -> int {
    i * (CHUNK_SIZE as int)
}

/// The offset just past the last byte of chunk `i` in a file of `len` bytes.
pub open spec fn chunk_end(i: int, len: int) -> int {
    if (i + 1) * (CHUNK_SIZE as int) < len {
        (i + 1) * (CHUNK_SIZE as int)
    } else {
        len
    }
}

/// The number of bytes in chunk `i` of a file of `len` bytes.
pub open spec fn chunk_len(i: int, len: int) -> int {
    chunk_end(i, len) - chunk_start(i)
}

/// The bytes of chunk `i`.
pub open spec fn chunk_bytes(data: Seq<u8>, i: int) -> Seq<u8> {
    data.subrange(chunk_start(i), chunk_end(i, data.len() as int))
}

/// `chunk` is the record of chunk `i` of `data`.
pub open spec fn is_chunk_hash_of(chunk: ChunkHash, data: Seq<u8>, i: int) -> bool {
    &&& chunk.index == i
    &&& chunk.offset == chunk_start(i)
    &&& chunk.size == chunk_len(i, data.len() as int)
    &&& chunk.hash@ == spec_hash(chunk_bytes(data, i))
}

/// `chunks` records every chunk of `data`, in order and end to end.
pub open spec fn chunks_describe(chunks: Seq<ChunkHash>, data: Seq<u8>) -> bool {
    &&& chunks.len() == chunk_count(data.len() as int)
    &&& forall|i: int| 0 <= i < chunks.len() ==> is_chunk_hash_of(#[trigger] chunks[i], data, i)
}

/// `sig` is the signature of a file with contents `data`.
pub open spec fn is_signature_of(sig: FileSignature, data: Seq<u8>) -> bool {
    &&& sig.total_size == data.len()
    &&& sig.full_hash@ == spec_hash(data)
    &&& sig.chunk_size == CHUNK_SIZE
    &&& chunks_describe(sig.chunk_hashes@, data)
}

/// Hashes every chunk of `contents`.
pub fn hash_chunks(contents: &[u8]) -> (chunks: Vec<ChunkHash>)
    ensures
        chunks_describe(chunks@, contents@),
{
    let len = contents.len();
    let mut chunks: Vec<ChunkHash> = Vec::new();
    let mut offset: usize = 0;
    let mut index: usize = 0;
    while offset < len
        invariant
            len == contents@.len(),
            offset <= len,
            offset == chunk_start(index as int) || offset == len,
            offset < len ==> offset == chunk_start(index as int),
            index <= chunk_count(len as int),
            offset == len ==> index == chunk_count(len as int),
            chunks@.len() == index,
            forall|i: int| 0 <= i < index ==> is_chunk_hash_of(#[trigger] chunks@[i], contents@, i),
        decreases len - offset,
    {
        let end: usize = if len - offset > CHUNK_SIZE {
            offset + CHUNK_SIZE
        } else {
            len
        };
        let piece = slice_subrange(contents, offset, end);
        let hash = compute_hash(piece);
        assert(piece@ == chunk_bytes(contents@, index as int));
        chunks.push(ChunkHash { index, offset: offset as u64, size: end - offset, hash });
        offset = end;
        index = index + 1;
    }
    chunks
}

/// Builds the signature of a file from its contents, with the given
/// modification and creation stamps.
pub fn generate_file_signature_at(
    contents: &[u8],
    relative_path: &str,
    modified_at: String,
    created_at: String,
) -> (sig: FileSignature)
    ensures
        is_signature_of(sig, contents@),
        sig.path@ == relative_path@,
        sig.modified_at == modified_at,
        sig.created_at == created_at,
{
    let full_hash = compute_hash(contents);
    let chunk_hashes = hash_chunks(contents);
    FileSignature {
        path: String::from_str(relative_path),
        total_size: contents.len() as u64,
        full_hash,
        chunk_size: CHUNK_SIZE,
        chunk_hashes,
        modified_at,
        created_at,
    }
}

/// Builds the signature of a file from its contents, stamped with the
/// current time as its creation time.
pub fn generate_file_signature(contents: &[u8], relative_path: &str, modified_at: String) -> (sig:
    FileSignature)
    ensures
        is_signature_of(sig, contents@),
        sig.path@ == relative_path@,
        sig.modified_at == modified_at,
{
    let created_at = utc_timestamp();
    generate_file_signature_at(contents, relative_path, modified_at, created_at)
}

/// How a file compares with its cached signature.
#[derive(Debug, Clone, Copy, PartialEq, Eq, Structural)]
pub enum DeltaStatus {
    /// File is new, transfer entirely.
    New,
    /// File unchanged, skip transfer.
    Unchanged,
    /// File modified, changed chunks are listed.
    Modified,
    /// File too small for chunk comparison, transfer entirely.
    SmallFile,
    /// File no longer present locally.
    Deleted,
}

/// The share of a file that need not be sent: `saved` parts out of `out_of`.
/// The percentage is `saved / out_of * 100`.
#[derive(Debug, Clone, Copy, PartialEq, Eq, Structural)]
pub struct SavingsRatio {
    pub saved: u64,
    pub out_of: u64,
}

impl SavingsRatio {
    /// A proper ratio: a positive denominator that bounds the numerator.
    pub open spec fn wf(&self) -> bool {
        0 < self.out_of && self.saved <= self.out_of
    }

    /// Nothing is saved (0%).
    pub open spec fn spec_none() -> SavingsRatio {
        SavingsRatio { saved: 0, out_of: 1 }
    }

    /// Everything is saved (100%).
    pub open spec fn spec_full() -> SavingsRatio {
        SavingsRatio { saved: 1, out_of: 1 }
    }

    /// The ratio of the bytes not sent to the total, or 0% of an empty total.
    pub open spec fn spec_of(total: int, transfer: int) -> SavingsRatio {
        if total > 0 {
            SavingsRatio { saved: (total - transfer) as u64, out_of: total as u64 }
        } else {
            SavingsRatio::spec_none()
        }
    }

    /// The percentage, rounded down to a whole number.
    pub open spec fn spec_percent(&self) -> int {
        self.saved * 100 / (self.out_of as int)
    }

    #[verifier::when_used_as_spec(spec_none)]
    pub fn none() -> (r: SavingsRatio)
        ensures
            r == SavingsRatio::spec_none(),
            r.wf(),
    {
        SavingsRatio { saved: 0, out_of: 1 }
    }

    #[verifier::when_used_as_spec(spec_full)]
    pub fn full() -> (r: SavingsRatio)
        ensures
            r == SavingsRatio::spec_full(),
            r.wf(),
    {
        SavingsRatio { saved: 1, out_of: 1 }
    }

    /// The savings when `transfer` bytes out of `total` are sent.
    pub fn of(total: u64, transfer: u64) -> (r: SavingsRatio)
        requires
            transfer <= total,
        ensures
            r == SavingsRatio::spec_of(total as int, transfer as int),
            r.wf(),
    {
        if total > 0 {
            SavingsRatio { saved: total - transfer, out_of: total }
        } else {
            SavingsRatio { saved: 0, out_of: 1 }
        }
    }

    /// The percentage saved, rounded down to a whole number.
    pub fn percent(&self) -> (p: u64)
        requires
            self.wf(),
        ensures
            p == self.spec_percent(),
            p <= 100,
    {
        let wide: u128 = (self.saved as u128) * 100 / (self.out_of as u128);
        assert(wide <= 100) by (nonlinear_arith)
            requires
                wide == (self.saved as int) * 100 / (self.out_of as int),
                0 < self.out_of,
                self.saved <= self.out_of,
        ;
        wide as u64
    }
}

/// Delta analysis result for a file.
#[derive(Debug, Clone)]
pub struct FileDelta {
    pub path: String,
    pub status: DeltaStatus,
    pub total_size: u64,
    pub transfer_size: u64,
    pub changed_chunks: Vec<usize>,
    pub savings: SavingsRatio,
}

impl FileDelta {
    /// No more is sent than the file holds, and the savings are a proper ratio.
    pub open spec fn wf(&self) -> bool {
        &&& self.transfer_size <= self.total_size
        &&& self.savings.wf()
    }
}

/// Chunk `i` of `data` must be sent: the cached signature has no chunk at
/// that index, or records another hash for it.
pub open spec fn chunk_differs(data: Seq<u8>, cached: Seq<ChunkHash>, i: int) -> bool {
    i >= cached.len() || cached[i].hash@ != spec_hash(chunk_bytes(data, i))
}

/// The indices below `n` of the chunks of `data` that differ from `cached`,
/// in increasing order.
pub open spec fn changed_below(data: Seq<u8>, cached: Seq<ChunkHash>, n: int) -> Seq<usize>
    decreases n,
{
    if n <= 0 {
        Seq::empty()
    } else if chunk_differs(data, cached, n - 1) {
        changed_below(data, cached, n - 1).push((n - 1) as usize)
    } else {
        changed_below(data, cached, n - 1)
    }
}

/// Every index of a chunk of `data` that differs from `cached`.
pub open spec fn changed_chunks(data: Seq<u8>, cached: Seq<ChunkHash>) -> Seq<usize> {
    changed_below(data, cached, chunk_count(data.len() as int))
}

/// The total length of the listed chunks in a file of `len` bytes.
pub open spec fn chunks_total_len(indices: Seq<usize>, len: int) -> int
    decreases indices.len(),
{
    if indices.len() == 0 {
        0
    } else {
        chunks_total_len(indices.drop_last(), len) + chunk_len(indices.last() as int, len)
    }
}

/// `delta` is the full-transfer result with the given status.
pub open spec fn is_whole_file_delta(delta: FileDelta, status: DeltaStatus, len: nat) -> bool {
    &&& delta.status == status
    &&& delta.total_size == len
    &&& delta.transfer_size == len
    &&& delta.changed_chunks@ == Seq::<usize>::empty()
    &&& delta.savings == SavingsRatio::spec_none()
}

/// `delta` is the comparison of a file at `path` with contents `data`
/// against the cached signature, if there is one.
pub open spec fn is_delta_of(
    delta: FileDelta,
    data: Seq<u8>,
    path: Seq<char>,
    cached: Option<FileSignature>,
) -> bool {
    &&& delta.path@ == path
    &&& match cached {
        None => is_whole_file_delta(delta, DeltaStatus::New, data.len()),
        Some(sig) => if data.len() < MIN_DELTA_FILE_SIZE {
            is_whole_file_delta(delta, DeltaStatus::SmallFile, data.len())
        } else if spec_hash(data) == sig.full_hash@ {
            &&& delta.status == DeltaStatus::Unchanged
            &&& delta.total_size == data.len()
            &&& delta.transfer_size == 0
            &&& delta.changed_chunks@ == Seq::<usize>::empty()
            &&& delta.savings == SavingsRatio::spec_full()
        } else {
            &&& delta.status == DeltaStatus::Modified
            &&& delta.total_size == data.len()
            &&& delta.changed_chunks@ == changed_chunks(data, sig.chunk_hashes@)
            &&& delta.transfer_size == chunks_total_len(delta.changed_chunks@, data.len() as int)
            &&& delta.savings == SavingsRatio::spec_of(
                data.len() as int,
                delta.transfer_size as int,
            )
        },
    }
}

/// Compares a file with its cached signature.
///
/// A file without a cached signature is new; a file under 256 KiB is sent
/// whole; a file whose hash equals the cached hash is unchanged; any other
/// file is modified, and the chunks whose hash differs from the cached chunk
/// at the same index, or that have no cached counterpart, are listed.
pub fn compute_file_delta(
    contents: &[u8],
    relative_path: &str,
    cached_signature: Option<&FileSignature>,
) -> (delta: FileDelta)
    ensures
        is_delta_of(
            delta,
            contents@,
            relative_path@,
            match cached_signature {
                Some(sig) => Some(*sig),
                None => None,
            },
        ),
        delta.wf(),
{
    let total_size: u64 = contents.len() as u64;
    let cached = match cached_signature {
        Some(sig) => sig,
        None => {
            return FileDelta {
                path: String::from_str(relative_path),
                status: DeltaStatus::New,
                total_size,
                transfer_size: total_size,
                changed_chunks: Vec::new(),
                savings: SavingsRatio::none(),
            };
        },
    };
    if total_size < MIN_DELTA_FILE_SIZE {
        return FileDelta {
            path: String::from_str(relative_path),
            status: DeltaStatus::SmallFile,
            total_size,
            transfer_size: total_size,
            changed_chunks: Vec::new(),
            savings: SavingsRatio::none(),
        };
    }
    let current_full_hash = compute_hash(contents);
    if current_full_hash == cached.full_hash {
        return FileDelta {
            path: String::from_str(relative_path),
            status: DeltaStatus::Unchanged,
            total_size,
            transfer_size: 0,
            changed_chunks: Vec::new(),
            savings: SavingsRatio::full(),
        };
    }
    let len = contents.len();
    let mut changed: Vec<usize> = Vec::new();
    let mut transfer_size: u64 = 0;
    let mut offset: usize = 0;
    let mut index: usize = 0;
    while offset < len
        invariant
            len == contents@.len(),
            offset <= len,
            offset < len ==> offset == chunk_start(index as int),
            index <= chunk_count(len as int),
            offset == len ==> index == chunk_count(len as int),
            index > 0 ==> offset == chunk_end(index - 1, len as int),
            index == 0 ==> offset == 0,
            changed@ == changed_below(contents@, cached.chunk_hashes@, index as int),
            transfer_size == chunks_total_len(changed@, len as int),
            transfer_size <= offset,
        decreases len - offset,
    {
        let end: usize = if len - offset > CHUNK_SIZE {
            offset + CHUNK_SIZE
        } else {
            len
        };
        let piece = slice_subrange(contents, offset, end);
        let hash = compute_hash(piece);
        assert(piece@ == chunk_bytes(contents@, index as int));
        let differs = if index < cached.chunk_hashes.len() {
            cached.chunk_hashes[index].hash != hash
        } else {
            true
        };
        assert(differs == chunk_differs(contents@, cached.chunk_hashes@, index as int));
        if differs {
            let ghost before = changed@;
            changed.push(index);
            assert(changed@.drop_last() =~= before);
            transfer_size = transfer_size + (end - offset) as u64;
        }
        offset = end;
        index = index + 1;
    }
    FileDelta {
        path: String::from_str(relative_path),
        status: DeltaStatus::Modified,
        total_size,
        transfer_size,
        changed_chunks: changed,
        savings: SavingsRatio::of(total_size, transfer_size),
    }
}

/// Signature cache for a project: the signature of each path at its last
/// successful transfer.
#[derive(Debug, Clone)]
pub struct SignatureCache {
    pub project_id: String,
    pub signatures: StrMap<FileSignature>,
    pub updated_at: String,
}

impl SignatureCache {
    /// The cache is usable: its map of signatures is well formed.
    pub open spec fn wf(&self) -> bool {
        self.signatures.wf()
    }

    /// The cached signature of a path, if there is one.
    pub open spec fn spec_signature(&self, path: Seq<char>) -> Option<FileSignature> {
        if self.signatures@.contains_key(path) {
            Some(self.signatures@[path])
        } else {
            None
        }
    }

    /// An empty cache for a project, stamped with the current time.
    pub fn new(project_id: &str) -> (cache: Self)
        ensures
            cache.wf(),
            cache.project_id@ == project_id@,
            cache.signatures@ == Map::<Seq<char>, FileSignature>::empty(),
    {
        SignatureCache {
            project_id: String::from_str(project_id),
            signatures: StrMap::new(),
            updated_at: utc_timestamp(),
        }
    }

    /// The cached signature of a path.
    pub fn get_signature(&self, path: &str) -> (sig: Option<&FileSignature>)
        requires
            self.wf(),
        ensures
            self.spec_signature(path@) == match sig {
                Some(s) => Some(*s),
                None => None,
            },
    {
        self.signatures.get(path)
    }

    /// Records a signature under its own path, replacing any earlier one.
    pub fn update_signature(&mut self, signature: FileSignature)
        requires
            old(self).wf(),
        ensures
            final(self).wf(),
            final(self).signatures@ == old(self).signatures@.insert(signature.path@, signature),
            final(self).project_id == old(self).project_id,
    {
        let key = signature.path.clone();
        self.signatures.insert(key, signature);
        self.updated_at = utc_timestamp();
    }

    /// Forgets the signature of a path.
    pub fn remove_signature(&mut self, path: &str)
        requires
            old(self).wf(),
        ensures
            final(self).wf(),
            final(self).signatures@ == old(self).signatures@.remove(path@),
            final(self).project_id == old(self).project_id,
            final(self).updated_at == old(self).updated_at,
    {
        let _removed = self.signatures.remove(path);
    }
}

/// A file found by walking the local tree: its path relative to the root,
/// its size as the file system reports it, and its contents if they were
/// read.
#[derive(Debug, Clone)]
pub struct LocalFile {
    pub relative_path: String,
    pub size: u64,
    pub contents: Option<Vec<u8>>,
}

/// Whether a file of this size can only be classified from its contents:
/// it has a cached signature and is large enough for chunk comparison. A
/// file without a cached signature is new and a smaller file is sent whole,
/// whatever the contents are.
pub open spec fn spec_needs_contents(total_size: u64, cached: Option<FileSignature>) -> bool {
    cached is Some && total_size >= MIN_DELTA_FILE_SIZE
}

/// `delta` classifies a file at `path` from its size alone: new without a
/// cached signature, sent whole as a small file with one.
pub open spec fn is_size_delta(
    delta: FileDelta,
    path: Seq<char>,
    total_size: u64,
    cached: Option<FileSignature>,
) -> bool {
    &&& delta.path@ == path
    &&& match cached {
        None => is_whole_file_delta(delta, DeltaStatus::New, total_size as nat),
        Some(_) => is_whole_file_delta(delta, DeltaStatus::SmallFile, total_size as nat),
    }
}

/// Whether a file of this size can only be classified from its contents.
pub fn needs_contents(total_size: u64, cached_signature: Option<&FileSignature>) -> (needed: bool)
    ensures
        needed == spec_needs_contents(
            total_size,
            match cached_signature {
                Some(sig) => Some(*sig),
                None => None,
            },
        ),
{
    cached_signature.is_some() && total_size >= MIN_DELTA_FILE_SIZE
}

/// Classifies a file from its size alone, where that is possible: a file
/// without a cached signature is new, a file under 256 KiB with one is sent
/// whole. There is no result for a file that needs its contents compared.
pub fn delta_from_size(
    relative_path: &str,
    total_size: u64,
    cached_signature: Option<&FileSignature>,
) -> (delta: Option<FileDelta>)
    ensures
        delta is None <==> spec_needs_contents(
            total_size,
            match cached_signature {
                Some(sig) => Some(*sig),
                None => None,
            },
        ),
        delta matches Some(d) ==> d.wf() && is_size_delta(
            d,
            relative_path@,
            total_size,
            match cached_signature {
                Some(sig) => Some(*sig),
                None => None,
            },
        ),
{
    let status = match cached_signature {
        None => DeltaStatus::New,
        Some(_) => {
            if total_size >= MIN_DELTA_FILE_SIZE {
                return None;
            }
            DeltaStatus::SmallFile
        },
    };
    Some(
        FileDelta {
            path: String::from_str(relative_path),
            status,
            total_size,
            transfer_size: total_size,
            changed_chunks: Vec::new(),
            savings: SavingsRatio::none(),
        },
    )
}

/// `delta` is what the analysis reports for a walked file: its
/// classification by size where the size decides, else the comparison of
/// its contents with the cached signature.
pub open spec fn is_file_delta(delta: FileDelta, file: LocalFile, cached: Option<FileSignature>) -> bool {
    if spec_needs_contents(file.size, cached) {
        file.contents matches Some(contents) && is_delta_of(
            delta,
            contents@,
            file.relative_path@,
            cached,
        )
    } else {
        is_size_delta(delta, file.relative_path@, file.size, cached)
    }
}

/// The test for a walked file to take part in the analysis: it is not
/// hidden, and its contents were read if they are needed.
pub open spec fn is_visible(cache: SignatureCache) -> spec_fn(LocalFile) -> bool {
    |f: LocalFile|
        !spec_is_hidden_path(f.relative_path@) && (f.contents is Some || !spec_needs_contents(
            f.size,
            cache.spec_signature(f.relative_path@),
        ))
}

/// The walked files that take part in the analysis: neither dot-files nor
/// under a dot-directory, and read where the contents are needed.
pub open spec fn visible_files(files: Seq<LocalFile>, cache: SignatureCache) -> Seq<LocalFile> {
    files.filter(is_visible(cache))
}

/// The test for a path to be absent from the paths still present on disk.
pub open spec fn is_missing(present: Seq<Seq<char>>) -> spec_fn(Seq<char>) -> bool {
    |k: Seq<char>| !present.contains(k)
}

/// The cached paths that are not among the paths still present on disk.
pub open spec fn missing_paths(cached: Seq<Seq<char>>, present: Seq<Seq<char>>) -> Seq<Seq<char>> {
    cached.filter(is_missing(present))
}

proof fn lemma_visible_files_step(files: Seq<LocalFile>, cache: SignatureCache, i: int)
    requires
        0 <= i < files.len(),
    ensures
        visible_files(files.take(i + 1), cache) == if is_visible(cache)(files[i]) {
            visible_files(files.take(i), cache).push(files[i])
        } else {
            visible_files(files.take(i), cache)
        },
{
    assert(files.take(i + 1) =~= files.take(i).push(files[i]));
    files.take(i).lemma_filter_push(files[i], is_visible(cache));
}

proof fn lemma_missing_paths_step(cached: Seq<Seq<char>>, present: Seq<Seq<char>>, j: int)
    requires
        0 <= j < cached.len(),
    ensures
        missing_paths(cached.take(j + 1), present) == if present.contains(cached[j]) {
            missing_paths(cached.take(j), present)
        } else {
            missing_paths(cached.take(j), present).push(cached[j])
        },
{
    assert(cached.take(j + 1) =~= cached.take(j).push(cached[j]));
    cached.take(j).lemma_filter_push(cached[j], is_missing(present));
}

/// `delta` reports that the cached file at `path` is gone.
pub open spec fn is_deleted_delta(delta: FileDelta, path: Seq<char>) -> bool {
    &&& delta.path@ == path
    &&& delta.status == DeltaStatus::Deleted
    &&& delta.total_size == 0
    &&& delta.transfer_size == 0
    &&& delta.changed_chunks@ == Seq::<usize>::empty()
    &&& delta.savings == SavingsRatio::spec_full()
}

/// The first deltas compare the given files with the cache, one by one.
pub open spec fn deltas_cover_files(
    deltas: Seq<FileDelta>,
    files: Seq<LocalFile>,
    cache: SignatureCache,
) -> bool {
    &&& files.len() <= deltas.len()
    &&& forall|i: int|
        0 <= i < files.len() ==> is_file_delta(
            #[trigger] deltas[i],
            files[i],
            cache.spec_signature(files[i].relative_path@),
        )
}

/// `deltas` is the analysis of a tree: one delta per file that takes part,
/// in walk order, followed by one `Deleted` delta per missing cached path,
/// in cache order.
pub open spec fn is_tree_analysis(
    deltas: Seq<FileDelta>,
    files: Seq<LocalFile>,
    cache: SignatureCache,
    present: Seq<Seq<char>>,
) -> bool {
    let visible = visible_files(files, cache);
    let missing = missing_paths(cache.signatures.spec_keys(), present);
    &&& deltas.len() == visible.len() + missing.len()
    &&& deltas_cover_files(deltas, visible, cache)
    &&& forall|j: int|
        0 <= j < missing.len() ==> is_deleted_delta(#[trigger] deltas[visible.len() + j], missing[j])
    &&& forall|i: int| 0 <= i < deltas.len() ==> (#[trigger] deltas[i]).wf()
}

/// Analyses a walked tree against the cache.
///
/// `files` are the regular files found under the root. Hidden ones are
/// skipped here. A file without a cached signature is new and a file under
/// 256 KiB is sent whole, by its size alone; any other file is compared by
/// its contents, and is skipped if they were not read. `still_present`
/// lists the cached paths that still exist on disk; every other cached path
/// is reported as deleted.
pub fn analyze_delta_sync(
    files: &Vec<LocalFile>,
    cache: &SignatureCache,
    still_present: &Vec<String>,
) -> (deltas: Vec<FileDelta>)
    requires
        cache.wf(),
    ensures
        is_tree_analysis(deltas@, files@, *cache, views(still_present@)),
{
    let mut deltas: Vec<FileDelta> = Vec::new();
    let mut i: usize = 0;
    while i < files.len()
        invariant
            i <= files.len(),
            cache.wf(),
            deltas@.len() == visible_files(files@.take(i as int), *cache).len(),
            deltas_cover_files(deltas@, visible_files(files@.take(i as int), *cache), *cache),
            forall|k: int| 0 <= k < deltas@.len() ==> (#[trigger] deltas@[k]).wf(),
        decreases files.len() - i,
    {
        let file = &files[i];
        proof {
            lemma_visible_files_step(files@, *cache, i as int);
        }
        if !is_hidden_path(file.relative_path.as_str()) {
            let cached = cache.get_signature(file.relative_path.as_str());
            match delta_from_size(file.relative_path.as_str(), file.size, cached) {
                Some(delta) => {
                    deltas.push(delta);
                },
                None => {
                    match &file.contents {
                        Some(contents) => {
                            let delta = compute_file_delta(
                                contents.as_slice(),
                                file.relative_path.as_str(),
                                cached,
                            );
                            deltas.push(delta);
                        },
                        None => {},
                    }
                },
            }
        }
        i = i + 1;
    }
    assert(files@.take(i as int) =~= files@);
    let ghost visible = visible_files(files@, *cache);
    let ghost keys = cache.signatures.spec_keys();
    let ghost present = views(still_present@);
    let count = cache.signatures.len();
    let mut j: usize = 0;
    while j < count
        invariant
            j <= count,
            count == keys.len(),
            keys == cache.signatures.spec_keys(),
            cache.wf(),
            present == views(still_present@),
            visible == visible_files(files@, *cache),
            deltas@.len() == visible.len() + missing_paths(keys.take(j as int), present).len(),
            deltas_cover_files(deltas@, visible, *cache),
            forall|m: int|
                0 <= m < missing_paths(keys.take(j as int), present).len() ==> is_deleted_delta(
                    #[trigger] deltas@[visible.len() + m],
                    missing_paths(keys.take(j as int), present)[m],
                ),
            forall|k: int| 0 <= k < deltas@.len() ==> (#[trigger] deltas@[k]).wf(),
        decreases count - j,
    {
        let key = cache.signatures.key_at(j);
        proof {
            lemma_missing_paths_step(keys, present, j as int);
        }
        if !contains_text(still_present, key.as_str()) {
            deltas.push(
                FileDelta {
                    path: key.clone(),
                    status: DeltaStatus::Deleted,
                    total_size: 0,
                    transfer_size: 0,
                    changed_chunks: Vec::new(),
                    savings: SavingsRatio::full(),
                },
            );
        }
        j = j + 1;
    }
    assert(keys.take(j as int) =~= keys);
    deltas
}

/// The chunks of `data` with an index below `n` that `wanted` lists, each
/// with its index, in increasing order.
pub open spec fn extracted_below(data: Seq<u8>, wanted: Seq<usize>, n: int) -> Seq<
    (usize, Seq<u8>),
>
    decreases n,
{
    if n <= 0 {
        Seq::empty()
    } else if wanted.contains((n - 1) as usize) {
        extracted_below(data, wanted, n - 1).push(((n - 1) as usize, chunk_bytes(data, n - 1)))
    } else {
        extracted_below(data, wanted, n - 1)
    }
}

/// The listed chunks of `data`, each with its bytes.
pub open spec fn extracted_chunks(data: Seq<u8>, wanted: Seq<usize>) -> Seq<(usize, Seq<u8>)> {
    extracted_below(data, wanted, chunk_count(data.len() as int))
}

/// `chunks` holds exactly the indices and bytes of `expected`.
pub open spec fn chunks_match(chunks: Seq<(usize, Vec<u8>)>, expected: Seq<(usize, Seq<u8>)>) -> bool {
    &&& chunks.len() == expected.len()
    &&& forall|k: int|
        0 <= k < chunks.len() ==> (#[trigger] chunks[k]).0 == expected[k].0 && chunks[k].1@
            == expected[k].1
}

fn index_listed(list: &[usize], index: usize) -> (listed: bool)
    ensures
        listed == list@.contains(index),
{
    let mut i: usize = 0;
    while i < list.len()
        invariant
            i <= list.len(),
            forall|k: int| 0 <= k < i ==> list@[k] != index,
        decreases list.len() - i,
    {
        if list[i] == index {
            return true;
        }
        i = i + 1;
    }
    false
}

/// Extracts the chunks of a file whose index is listed, for transfer.
/// Indices beyond the last chunk select nothing.
pub fn extract_changed_chunks(contents: &[u8], changed_indices: &[usize]) -> (chunks: Vec<
    (usize, Vec<u8>),
>)
    ensures
        chunks_match(chunks@, extracted_chunks(contents@, changed_indices@)),
{
    let len = contents.len();
    let mut chunks: Vec<(usize, Vec<u8>)> = Vec::new();
    let mut offset: usize = 0;
    let mut index: usize = 0;
    while offset < len
        invariant
            len == contents@.len(),
            offset <= len,
            offset < len ==> offset == chunk_start(index as int),
            index <= chunk_count(len as int),
            offset == len ==> index == chunk_count(len as int),
            chunks_match(chunks@, extracted_below(contents@, changed_indices@, index as int)),
        decreases len - offset,
    {
        let end: usize = if len - offset > CHUNK_SIZE {
            offset + CHUNK_SIZE
        } else {
            len
        };
        if index_listed(changed_indices, index) {
            let piece = slice_subrange(contents, offset, end);
            assert(piece@ == chunk_bytes(contents@, index as int));
            chunks.push((index, slice_to_vec(piece)));
        }
        offset = end;
        index = index + 1;
    }
    chunks
}

/// Totals over a set of deltas.
#[derive(Debug, Clone, Copy)]
pub struct DeltaTransferStats {
    pub total_files: usize,
    pub new_files: usize,
    pub modified_files: usize,
    pub unchanged_files: usize,
    pub deleted_files: usize,
    pub total_size: u64,
    pub transfer_size: u64,
    pub savings_bytes: u64,
    pub savings: SavingsRatio,
}

/// The number of deltas with one of two statuses.
pub open spec fn count_status(deltas: Seq<FileDelta>, a: DeltaStatus, b: DeltaStatus) -> int
    decreases deltas.len(),
{
    if deltas.len() == 0 {
        0
    } else {
        count_status(deltas.drop_last(), a, b) + if deltas.last().status == a
            || deltas.last().status == b {
            1int
        } else {
            0int
        }
    }
}

/// The bytes on the local side: the sizes of all files but the deleted ones.
pub open spec fn sum_total_size(deltas: Seq<FileDelta>) -> int
    decreases deltas.len(),
{
    if deltas.len() == 0 {
        0
    } else {
        sum_total_size(deltas.drop_last()) + if deltas.last().status != DeltaStatus::Deleted {
            deltas.last().total_size as int
        } else {
            0int
        }
    }
}

/// The bytes to send: the transfer sizes of new, small and modified files.
pub open spec fn sum_transfer_size(deltas: Seq<FileDelta>) -> int
    decreases deltas.len(),
{
    if deltas.len() == 0 {
        0
    } else {
        sum_transfer_size(deltas.drop_last()) + if deltas.last().status == DeltaStatus::Unchanged
            || deltas.last().status == DeltaStatus::Deleted {
            0int
        } else {
            deltas.last().transfer_size as int
        }
    }
}

/// `stats` are the totals of `deltas`.
pub open spec fn is_stats_of(stats: DeltaTransferStats, deltas: Seq<FileDelta>) -> bool {
    &&& stats.total_files == deltas.len()
    &&& stats.new_files == count_status(deltas, DeltaStatus::New, DeltaStatus::SmallFile)
    &&& stats.modified_files == count_status(deltas, DeltaStatus::Modified, DeltaStatus::Modified)
    &&& stats.unchanged_files == count_status(
        deltas,
        DeltaStatus::Unchanged,
        DeltaStatus::Unchanged,
    )
    &&& stats.deleted_files == count_status(deltas, DeltaStatus::Deleted, DeltaStatus::Deleted)
    &&& stats.total_size == sum_total_size(deltas)
    &&& stats.transfer_size == sum_transfer_size(deltas)
    &&& stats.savings_bytes == sum_total_size(deltas) - sum_transfer_size(deltas)
    &&& stats.savings == SavingsRatio::spec_of(sum_total_size(deltas), sum_transfer_size(deltas))
}

/// Totals the deltas of an analysis. New and small files count as new.
/// There is no result when the local bytes do not fit in 64 bits.
pub fn calculate_transfer_stats(deltas: &Vec<FileDelta>) -> (stats: Option<DeltaTransferStats>)
    requires
        forall|i: int| 0 <= i < deltas@.len() ==> (#[trigger] deltas@[i]).wf(),
    ensures
        stats is None <==> sum_total_size(deltas@) > u64::MAX,
        stats matches Some(s) ==> is_stats_of(s, deltas@),
{
    let mut total_size: u128 = 0;
    let mut transfer_size: u128 = 0;
    let mut new_files: usize = 0;
    let mut modified_files: usize = 0;
    let mut unchanged_files: usize = 0;
    let mut deleted_files: usize = 0;
    let mut i: usize = 0;
    while i < deltas.len()
        invariant
            i <= deltas.len(),
            forall|k: int| 0 <= k < deltas@.len() ==> (#[trigger] deltas@[k]).wf(),
            total_size == sum_total_size(deltas@.take(i as int)),
            transfer_size == sum_transfer_size(deltas@.take(i as int)),
            transfer_size <= total_size,
            total_size <= i * 0xffff_ffff_ffff_ffff,
            new_files == count_status(
                deltas@.take(i as int),
                DeltaStatus::New,
                DeltaStatus::SmallFile,
            ),
            modified_files == count_status(
                deltas@.take(i as int),
                DeltaStatus::Modified,
                DeltaStatus::Modified,
            ),
            unchanged_files == count_status(
                deltas@.take(i as int),
                DeltaStatus::Unchanged,
                DeltaStatus::Unchanged,
            ),
            deleted_files == count_status(
                deltas@.take(i as int),
                DeltaStatus::Deleted,
                DeltaStatus::Deleted,
            ),
            new_files <= i,
            modified_files <= i,
            unchanged_files <= i,
            deleted_files <= i,
        decreases deltas.len() - i,
    {
        let delta = &deltas[i];
        proof {
            assert(deltas@.take(i + 1).drop_last() =~= deltas@.take(i as int));
            assert(deltas@.take(i + 1).last() == deltas@[i as int]);
            assert(deltas@[i as int].wf());
        }
        match delta.status {
            DeltaStatus::New => {
                new_files = new_files + 1;
                total_size = total_size + delta.total_size as u128;
                transfer_size = transfer_size + delta.transfer_size as u128;
            },
            DeltaStatus::SmallFile => {
                new_files = new_files + 1;
                total_size = total_size + delta.total_size as u128;
                transfer_size = transfer_size + delta.transfer_size as u128;
            },
            DeltaStatus::Modified => {
                modified_files = modified_files + 1;
                total_size = total_size + delta.total_size as u128;
                transfer_size = transfer_size + delta.transfer_size as u128;
            },
            DeltaStatus::Unchanged => {
                unchanged_files = unchanged_files + 1;
                total_size = total_size + delta.total_size as u128;
            },
            DeltaStatus::Deleted => {
                deleted_files = deleted_files + 1;
            },
        }
        i = i + 1;
    }
    assert(deltas@.take(i as int) =~= deltas@);
    if total_size > 0xffff_ffff_ffff_ffff {
        return None;
    }
    let total: u64 = total_size as u64;
    let transfer: u64 = transfer_size as u64;
    Some(
        DeltaTransferStats {
            total_files: deltas.len(),
            new_files,
            modified_files,
            unchanged_files,
            deleted_files,
            total_size: total,
            transfer_size: transfer,
            savings_bytes: total - transfer,
            savings: SavingsRatio::of(total, transfer),
        },
    )
}

/// A path that was transferred: its present contents and modification
/// stamp, or no contents when the file no longer exists.
#[derive(Debug, Clone)]
pub struct SyncedFile {
    pub path: String,
    pub contents: Option<Vec<u8>>,
    pub modified_at: String,
}

/// The last entry for `path` among the transferred files.
pub open spec fn last_sync_of(synced: Seq<SyncedFile>, path: Seq<char>) -> Option<SyncedFile>
    decreases synced.len(),
{
    if synced.len() == 0 {
        None
    } else if synced.last().path@ == path {
        Some(synced.last())
    } else {
        last_sync_of(synced.drop_last(), path)
    }
}

/// What the cache holds for `path` once `synced` has been applied to
/// `before`: the signature of the last transferred contents, nothing when the
/// file went away, and the earlier state when the path was not transferred.
pub open spec fn path_reflects_sync(
    before: Map<Seq<char>, FileSignature>,
    after: Map<Seq<char>, FileSignature>,
    synced: Seq<SyncedFile>,
    path: Seq<char>,
) -> bool {
    match last_sync_of(synced, path) {
        None => {
            &&& after.contains_key(path) == before.contains_key(path)
            &&& after.contains_key(path) ==> after[path] == before[path]
        },
        Some(entry) => match entry.contents {
            Some(contents) => {
                &&& after.contains_key(path)
                &&& is_signature_of(after[path], contents@)
                &&& after[path].path@ == path
                &&& after[path].modified_at == entry.modified_at
            },
            None => !after.contains_key(path),
        },
    }
}

/// `after` is `before` with the signatures of the transferred paths renewed.
pub open spec fn cache_reflects_sync(
    before: Map<Seq<char>, FileSignature>,
    after: Map<Seq<char>, FileSignature>,
    synced: Seq<SyncedFile>,
) -> bool {
    forall|path: Seq<char>| #[trigger] path_reflects_sync(before, after, synced, path)
}

/// Renews the cache after a successful transfer: the signature of every
/// transferred path is regenerated from its contents, and a path whose file
/// no longer exists is forgotten. Other paths are left alone.
pub fn update_cache_after_sync(cache: &mut SignatureCache, synced_files: &Vec<SyncedFile>)
    requires
        old(cache).wf(),
    ensures
        final(cache).wf(),
        final(cache).project_id == old(cache).project_id,
        cache_reflects_sync(old(cache).signatures@, final(cache).signatures@, synced_files@),
{
    let mut i: usize = 0;
    while i < synced_files.len()
        invariant
            i <= synced_files.len(),
            cache.wf(),
            cache.project_id == old(cache).project_id,
            cache_reflects_sync(
                old(cache).signatures@,
                cache.signatures@,
                synced_files@.take(i as int),
            ),
        decreases synced_files.len() - i,
    {
        let entry = &synced_files[i];
        let ghost mid = cache.signatures@;
        match &entry.contents {
            Some(contents) => {
                let sig = generate_file_signature(
                    contents.as_slice(),
                    entry.path.as_str(),
                    entry.modified_at.clone(),
                );
                cache.update_signature(sig);
            },
            None => {
                cache.remove_signature(entry.path.as_str());
            },
        }
        proof {
            let done = synced_files@.take(i as int);
            let next = synced_files@.take(i + 1);
            assert(next.drop_last() =~= done);
            assert(next.last() == synced_files@[i as int]);
            assert forall|path: Seq<char>| #[trigger]
                path_reflects_sync(old(cache).signatures@, cache.signatures@, next, path) by {
                assert(path_reflects_sync(old(cache).signatures@, mid, done, path));
            }
        }
        i = i + 1;
    }
    assert(synced_files@.take(i as int) =~= synced_files@);
}

/// A file of at least 256 KiB compared with its own signature is unchanged,
/// nothing of it is sent, and the savings are 100%.
pub proof fn lemma_own_signature_is_unchanged(
    data: Seq<u8>,
    path: Seq<char>,
    sig: FileSignature,
    delta: FileDelta,
)
    requires
        data.len() >= MIN_DELTA_FILE_SIZE,
        is_signature_of(sig, data),
        is_delta_of(delta, data, path, Some(sig)),
    ensures
        delta.status == DeltaStatus::Unchanged,
        delta.transfer_size == 0,
        delta.savings == SavingsRatio::spec_full(),
        delta.savings.spec_percent() == 100,
{
}

/// Where the size decides, the classification by size is the one that the
/// comparison of the contents gives: for a file whose contents have the
/// reported size, `delta_from_size` and `compute_file_delta` agree.
pub proof fn lemma_size_delta_agrees(
    data: Seq<u8>,
    path: Seq<char>,
    total_size: u64,
    cached: Option<FileSignature>,
    delta: FileDelta,
)
    requires
        data.len() == total_size,
        !spec_needs_contents(total_size, cached),
    ensures
        is_delta_of(delta, data, path, cached) <==> is_size_delta(delta, path, total_size, cached),
{
}

/// A file under 256 KiB that has a cached signature is always sent whole,
/// whatever that signature records.
pub proof fn lemma_small_file_is_sent_whole(
    data: Seq<u8>,
    path: Seq<char>,
    sig: FileSignature,
    delta: FileDelta,
)
    requires
        data.len() < MIN_DELTA_FILE_SIZE,
        is_delta_of(delta, data, path, Some(sig)),
    ensures
        delta.status == DeltaStatus::SmallFile,
        delta.transfer_size == data.len(),
        delta.changed_chunks@.len() == 0,
        delta.savings.spec_percent() == 0,
{
}

/// The changed chunks below `n` are exactly the differing ones, in
/// increasing order.
pub proof fn lemma_changed_below_members(data: Seq<u8>, cached: Seq<ChunkHash>, n: int)
    requires
        0 <= n <= usize::MAX,
    ensures
        forall|i: int|
            0 <= i <= usize::MAX ==> (changed_below(data, cached, n).contains(i as usize) <==> (i
                < n && chunk_differs(data, cached, i))),
        forall|a: int, b: int|
            0 <= a < b < changed_below(data, cached, n).len() ==> changed_below(data, cached, n)[a]
                < changed_below(data, cached, n)[b],
        forall|a: int|
            0 <= a < changed_below(data, cached, n).len() ==> changed_below(data, cached, n)[a]
                < n,
    decreases n,
{
    if n > 0 {
        lemma_changed_below_members(data, cached, n - 1);
        let prev = changed_below(data, cached, n - 1);
        let cur = changed_below(data, cached, n);
        assert forall|i: int| 0 <= i <= usize::MAX implies (cur.contains(i as usize) <==> (i < n
            && chunk_differs(data, cached, i))) by {
            if chunk_differs(data, cached, n - 1) {
                assert(cur == prev.push((n - 1) as usize));
                assert(cur[prev.len() as int] == (n - 1) as usize);
                if prev.contains(i as usize) {
                    let k = prev.index_of(i as usize);
                    assert(cur[k] == i as usize);
                }
                if cur.contains(i as usize) {
                    let k = cur.index_of(i as usize);
                    if k < prev.len() {
                        assert(prev[k] == i as usize);
                    }
                }
            }
        }
    }
}

/// When a file keeps its length and only the bytes of chunk `k` change,
/// no other chunk is reported as changed against the old signature.
pub proof fn lemma_only_touched_chunk_changes(
    old_data: Seq<u8>,
    new_data: Seq<u8>,
    sig: FileSignature,
    k: int,
)
    requires
        old_data.len() == new_data.len(),
        new_data.len() <= usize::MAX,
        is_signature_of(sig, old_data),
        forall|i: int|
            0 <= i < chunk_count(new_data.len() as int) && i != k ==> chunk_bytes(new_data, i)
                == chunk_bytes(old_data, i),
    ensures
        forall|j: int|
            0 <= j < changed_chunks(new_data, sig.chunk_hashes@).len() ==> changed_chunks(
                new_data,
                sig.chunk_hashes@,
            )[j] == k,
        changed_chunks(new_data, sig.chunk_hashes@).len() <= 1,
{
    let n = chunk_count(new_data.len() as int);
    let changed = changed_chunks(new_data, sig.chunk_hashes@);
    lemma_changed_below_members(new_data, sig.chunk_hashes@, n);
    assert forall|j: int| 0 <= j < changed.len() implies changed[j] == k by {
        let i = changed[j] as int;
        assert(changed.contains(i as usize));
        assert(chunk_differs(new_data, sig.chunk_hashes@, i));
        if i != k {
            assert(is_chunk_hash_of(sig.chunk_hashes@[i], old_data, i));
        }
    }
    if changed.len() >= 2 {
        assert(changed[0] < changed[1]);
    }
}

/// Where the signature cache of a project is kept: in the directory
/// `delta_cache` of the application data, in a file named after the
/// project.
pub fn get_cache_path(app_data_dir: &str, project_id: &str) -> (path: String)
    ensures
        path@ == spec_join(spec_join(app_data_dir@, "delta_cache"@), project_id@ + ".json"@),
{
    let dir = join_path(app_data_dir, "delta_cache");
    let name = with_suffix(project_id, ".json");
    join_path(dir.as_str(), name.as_str())
}

} // verus!
