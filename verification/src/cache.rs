//! The result cache: where a video's cached results live, how a video is
//! fingerprinted, and when cached results may be reused.
//!
//! Reading and writing the cache files is the caller's business.
use vstd::prelude::*;
use crate::error::AutoSubError;
use crate::model_manager::{home_dir, join, join_path};
use crate::text::push_char;
use vstd::string::StringSliceAdditionalSpecFns;

verus! {

/// Version of the processing pipeline that wrote a cache entry.
pub open spec fn pipeline_version() -> Seq<char> {
    "v5"@
}

/// Version of the recogniser that wrote a cache entry.
pub open spec fn whisper_version() -> Seq<char> {
    "1.8.4"@
}

/// Cache metadata for validation (the content of `meta.json`).
#[derive(Debug, Clone)]
pub struct CacheMeta {
    pub model: String,
    pub lang: String,
    /// Duration of the video in microseconds.
    pub duration: i64,
    pub whisper_version: String,
    pub pipeline_version: String,
}

/// A cache entry may be reused: it was made with the same model and
/// language, by the same recogniser and pipeline versions.
pub open spec fn spec_cache_hit(meta: CacheMeta, model: Seq<char>, lang: Seq<char>) -> bool {
    &&& meta.model@ == model
    &&& meta.lang@ == lang
    &&& meta.whisper_version@ == whisper_version()
    &&& meta.pipeline_version@ == pipeline_version()
}

impl CacheMeta {
    /// Metadata for results made now with `model` and `lang`.
    pub fn new(model: &str, lang: &str, duration: i64) -> (m: CacheMeta)
        ensures
            m.model@ == model@,
            m.lang@ == lang@,
            m.duration == duration,
            m.whisper_version@ == whisper_version(),
            m.pipeline_version@ == pipeline_version(),
    {
        CacheMeta {
            model: model.to_owned(),
            lang: lang.to_owned(),
            duration,
            whisper_version: "1.8.4".to_owned(),
            pipeline_version: "v5".to_owned(),
        }
    }
}

/// Whether the cache entry described by `meta` may be reused for `model`
/// and `lang`.
pub fn cache_hit(meta: &CacheMeta, model: &str, lang: &str) -> (b: bool)
    ensures
        b == spec_cache_hit(*meta, model@, lang@),
{
    meta.model == model.to_owned() && meta.lang == lang.to_owned() && meta.whisper_version
        == "1.8.4".to_owned() && meta.pipeline_version == "v5".to_owned()
}

/// Metadata written now is reused later for the same model and language.
pub proof fn lemma_fresh_meta_hits(meta: CacheMeta, model: Seq<char>, lang: Seq<char>)
    requires
        meta.model@ == model,
        meta.lang@ == lang,
        meta.whisper_version@ == whisper_version(),
        meta.pipeline_version@ == pipeline_version(),
    ensures
        spec_cache_hit(meta, model, lang),
{
}

/// A cache entry is never reused for another model or another language,
/// nor when it was made by another recogniser version (1.8.4) or pipeline
/// version (v5).
pub proof fn lemma_hit_needs_same_request(meta: CacheMeta, model: Seq<char>, lang: Seq<char>)
    requires
        spec_cache_hit(meta, model, lang),
    ensures
        meta.model@ == model && meta.lang@ == lang,
        meta.whisper_version@ == "1.8.4"@,
        meta.pipeline_version@ == "v5"@,
{
}

/// `cache_hit` answers yes exactly for entries made with the same model and
/// language by recogniser version 1.8.4 and pipeline version v5.
pub proof fn lemma_cache_hit_iff(meta: CacheMeta, model: Seq<char>, lang: Seq<char>)
    ensures
        spec_cache_hit(meta, model, lang) <==> (meta.model@ == model && meta.lang@ == lang
            && meta.whisper_version@ == "1.8.4"@ && meta.pipeline_version@ == "v5"@),
{
}

// ── Paths ────────────────────────────────────────────────────────────────────

/// `<dir>/meta.json`.
pub fn meta_path(dir: &str) -> (r: String)
    ensures
        r@ == join_path(dir@, "meta.json"@),
{
    join(dir, "meta.json")
}

/// `<dir>/final.srt`.
pub fn final_srt_path(dir: &str) -> (r: String)
    ensures
        r@ == join_path(dir@, "final.srt"@),
{
    join(dir, "final.srt")
}

/// `<dir>/raw.json`.
pub fn raw_json_path(dir: &str) -> (r: String)
    ensures
        r@ == join_path(dir@, "raw.json"@),
{
    join(dir, "raw.json")
}

/// The cached subtitles of `dir` when its metadata allows reuse for `model`
/// and `lang`.
pub fn cached_srt(dir: &str, meta: &CacheMeta, model: &str, lang: &str) -> (r: Option<String>)
    ensures
        spec_cache_hit(*meta, model@, lang@) ==> (r matches Some(p) && p@ == join_path(
            dir@,
            "final.srt"@,
        )),
        !spec_cache_hit(*meta, model@, lang@) ==> r is None,
{
    if cache_hit(meta, model, lang) {
        Some(final_srt_path(dir))
    } else {
        None
    }
}

// ── Fingerprint ──────────────────────────────────────────────────────────────

/// SHA-256 digest of a byte sequence.
pub uninterp spec fn sha256_digest(data: Seq<u8>) -> Seq<u8>;

/// `sha2::Sha256::digest`: the digest is a function of the data alone and
/// is 32 bytes long.
#[verifier::external_body]
fn sha256(data: &[u8]) -> (r: Vec<u8>)
    ensures
        r@ == sha256_digest(data@),
        r@.len() == 32,
{
    <sha2::Sha256 as sha2::Digest>::digest(data).to_vec()
}

/// Byte `i` of the little-endian encoding of `n`.
pub open spec fn le_byte(n: u64, i: u64) -> u8 {
    ((n >> (8 * i) as u64) & 0xff) as u8
}

/// `n.to_le_bytes()`.
pub open spec fn le_bytes(n: u64) -> Seq<u8> {
    Seq::new(8, |i: int| le_byte(n, i as u64))
}

/// The lowercase hexadecimal digit of `d < 16`.
pub open spec fn hex_digit(d: u8) -> char {
    if d < 10 {
        (48 + d) as char
    } else {
        (87 + d) as char
    }
}

/// Lowercase hexadecimal encoding (`{:x}`), two digits per byte.
pub open spec fn hex_lower(data: Seq<u8>) -> Seq<char> {
    Seq::new(
        2 * data.len(),
        |i: int|
            if i % 2 == 0 {
                hex_digit(data[i / 2] / 16)
            } else {
                hex_digit(data[i / 2] % 16)
            },
    )
}

/// The bytes hashed to fingerprint a video: its first bytes, its path (UTF-8)
/// and, when known, its size (little-endian).
pub open spec fn fingerprint_input(head: Seq<u8>, path: &str, size: Option<u64>) -> Seq<u8> {
    head + path.spec_bytes() + match size {
        Some(n) => le_bytes(n),
        None => Seq::<u8>::empty(),
    }
}

/// Fingerprint of a video: lowercase hex SHA-256 of `fingerprint_input`.
pub open spec fn spec_fingerprint(head: Seq<u8>, path: &str, size: Option<u64>) -> Seq<char> {
    hex_lower(sha256_digest(fingerprint_input(head, path, size)))
}

fn hex_char(d: u8) -> (c: char)
    requires
        d < 16,
    ensures
        c == hex_digit(d),
{
    if d < 10 {
        (48u8 + d) as char
    } else {
        (87u8 + d) as char
    }
}

/// Fingerprint of a video from its first bytes (`head`, up to 1 MiB), its
/// path and its size when it could be read.
pub fn file_fingerprint(head: &[u8], path: &str, size: Option<u64>) -> (r: String)
    ensures
        r@ == spec_fingerprint(head@, path, size),
        r@.len() == 64,
{
    let mut data: Vec<u8> = Vec::new();
    let mut i: usize = 0;
    while i < head.len()
        invariant
            i <= head.len(),
            data@ == head@.take(i as int),
        decreases head.len() - i,
    {
        data.push(head[i]);
        i = i + 1;
        assert(data@ =~= head@.take(i as int));
    }
    assert(head@.take(head.len() as int) =~= head@);
    let pb: &[u8] = path.as_bytes();
    let ghost before = data@;
    let mut j: usize = 0;
    while j < pb.len()
        invariant
            j <= pb.len(),
            data@ == before + pb@.take(j as int),
        decreases pb.len() - j,
    {
        data.push(pb[j]);
        j = j + 1;
        assert(data@ =~= before + pb@.take(j as int));
    }
    assert(pb@.take(pb.len() as int) =~= pb@);
    let ghost before2 = data@;
    match size {
        Some(n) => {
            let mut k: u64 = 0;
            while k < 8
                invariant
                    k <= 8,
                    data@ == before2 + le_bytes(n).take(k as int),
                decreases 8 - k,
            {
                let b: u8 = ((n >> (8 * k)) & 0xff) as u8;
                data.push(b);
                k = k + 1;
                assert(data@ =~= before2 + le_bytes(n).take(k as int));
            }
            assert(le_bytes(n).take(8) =~= le_bytes(n));
        },
        None => {
            assert(data@ =~= before2 + Seq::<u8>::empty());
        },
    }
    assert(data@ == fingerprint_input(head@, path, size));
    let digest = sha256(data.as_slice());
    let mut r = String::new();
    let mut k: usize = 0;
    while k < digest.len()
        invariant
            k <= digest.len() == 32,
            r@ == hex_lower(digest@).take(2 * k),
        decreases digest.len() - k,
    {
        let b: u8 = digest[k];
        push_char(&mut r, hex_char(b / 16));
        push_char(&mut r, hex_char(b % 16));
        k = k + 1;
        assert(r@ =~= hex_lower(digest@).take(2 * k));
    }
    assert(hex_lower(digest@).take(64) =~= hex_lower(digest@));
    r
}

/// Cache directory of a fingerprinted video under a home directory:
/// `<home>/.autosub/cache/<first 16 characters of the fingerprint>`.
pub open spec fn spec_cache_dir(home: Seq<char>, fingerprint: Seq<char>) -> Seq<char> {
    join_path(join_path(join_path(home, ".autosub"@), "cache"@), fingerprint.take(16))
}

/// The cache directory for a fingerprint under `home`.
pub fn cache_dir_in(home: &str, fingerprint: &str) -> (r: String)
    requires
        fingerprint@.len() >= 16,
    ensures
        r@ == spec_cache_dir(home@, fingerprint@),
{
    let v = crate::text::chars_of(fingerprint);
    let short = crate::text::string_from(&v, 0, 16);
    assert(v@.subrange(0, 16) =~= fingerprint@.take(16));
    let a = join(home, ".autosub");
    let b = join(a.as_str(), "cache");
    join(b.as_str(), short.as_str())
}

/// Cache directory of the video at `video_path`, given its first bytes and
/// its size: an error when the home directory is unknown.
pub fn cache_dir(video_path: &str, head: &[u8], size: Option<u64>) -> (r: Result<
    String,
    AutoSubError,
>)
    ensures
        match r {
            Ok(d) => exists|h: Seq<char>|
                d@ == spec_cache_dir(h, spec_fingerprint(head@, video_path, size)),
            Err(e) => e matches AutoSubError::Cache(m) && m@ == "Cannot determine home directory"@,
        },
{
    let fp = file_fingerprint(head, video_path, size);
    match home_dir() {
        Some(h) => {
            let d = cache_dir_in(h.as_str(), fp.as_str());
            assert(d@ == spec_cache_dir(h@, spec_fingerprint(head@, video_path, size)));
            Ok(d)
        },
        None => Err(AutoSubError::Cache("Cannot determine home directory".to_owned())),
    }
}

} // verus!
