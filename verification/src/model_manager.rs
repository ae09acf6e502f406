//! Catalogue of speech-recognition models, their file layout under
//! `~/.autosub/models`, and whether they are ready to run.
//!
//! The file system is seen through a [`FileProbe`]: the sizes of the files
//! that exist, gathered by the caller.
use vstd::prelude::*;

verus! {

// ── Paths ────────────────────────────────────────────────────────────────────

/// `base` joined with the relative component `comp` (`Path::join` with `/`
/// separators): a separator is inserted unless `base` is empty or already
/// ends with one.
pub open spec fn join_path(base: Seq<char>, comp: Seq<char>) -> Seq<char> {
    if base.len() == 0 {
        comp
    } else if base.last() == '/' {
        base + comp
    } else {
        base + seq!['/'] + comp
    }
}

/// `base` joined with the relative component `comp`.
pub fn join(base: &str, comp: &str) -> (r: String)
    ensures
        r@ == join_path(base@, comp@),
{
    let mut r = base.to_owned();
    let n: usize = crate::text::chars_of(base).len();
    if n > 0 {
        let v = crate::text::chars_of(base);
        if v[n - 1] != '/' {
            crate::text::push_char(&mut r, '/');
        }
    }
    r.append(comp);
    r
}

/// The models directory for a home directory: `<home>/.autosub/models`, with
/// `.` standing in for an unknown home.
pub open spec fn models_dir(home: Option<Seq<char>>) -> Seq<char> {
    let h = match home {
        Some(h) => h,
        None => "."@,
    };
    join_path(join_path(h, ".autosub"@), "models"@)
}

/// The user's home directory (`dirs::home_dir`), as a string. It depends on
/// the environment and the password database, so nothing is stated of it.
#[verifier::external_body]
pub(crate) fn home_dir() -> (h: Option<String>) {
    dirs::home_dir().map(|p| p.to_string_lossy().to_string())
}

// ── File probe ───────────────────────────────────────────────────────────────

/// Sizes of the files that exist, keyed by path; the first entry for a path
/// counts.
#[derive(Debug, Clone)]
pub struct FileProbe {
    pub files: Vec<(String, u64)>,
}

/// Size recorded for `path`, if any.
pub open spec fn probe_size(files: Seq<(String, u64)>, path: Seq<char>) -> Option<u64>
    decreases files.len(),
{
    if files.len() == 0 {
        None
    } else if files[0].0@ == path {
        Some(files[0].1)
    } else {
        probe_size(files.drop_first(), path)
    }
}

/// The file at `path` exists and holds at least `min_bytes` bytes.
pub open spec fn spec_file_ok(probe: FileProbe, path: Seq<char>, min_bytes: u64) -> bool {
    match probe_size(probe.files@, path) {
        Some(n) => n >= min_bytes,
        None => false,
    }
}

impl FileProbe {
    /// Size recorded for `path`, if any.
    pub fn size_of(&self, path: &str) -> (r: Option<u64>)
        ensures
            r == probe_size(self.files@, path@),
    {
        let p = path.to_owned();
        let n: usize = self.files.len();
        let mut i: usize = 0;
        assert(self.files@.skip(0) =~= self.files@);
        while i < n
            invariant
                i <= n == self.files.len(),
                p@ == path@,
                probe_size(self.files@, path@) == probe_size(self.files@.skip(i as int), path@),
            decreases n - i,
        {
            assert(self.files@.skip(i as int).drop_first() =~= self.files@.skip(i + 1));
            assert(self.files@.skip(i as int)[0] == self.files@[i as int]);
            if self.files[i].0 == p {
                return Some(self.files[i].1);
            }
            i = i + 1;
        }
        assert(self.files@.skip(n as int).len() == 0);
        None
    }

    /// Whether the file at `path` exists and holds at least `min_bytes` bytes.
    pub fn file_ok(&self, path: &str, min_bytes: u64) -> (b: bool)
        ensures
            b == spec_file_ok(*self, path@, min_bytes),
    {
        match self.size_of(path) {
            Some(n) => n >= min_bytes,
            None => false,
        }
    }
}

// ── Model kind ───────────────────────────────────────────────────────────────

/// The kind of model decides the arguments passed to the recogniser.
#[derive(Debug, Clone)]
pub enum ModelKind {
    /// SenseVoice: model and tokens.
    SenseVoice { model: String, tokens: String },
    /// FireRedASR CTC: encoder, decoder and tokens.
    FireRedAsr { encoder: String, decoder: String, tokens: String },
    /// Paraformer: model and tokens.
    Paraformer { model: String, tokens: String },
}

/// Minimum size of a tokens file.
pub const TOKENS_MIN_BYTES: u64 = 100;

/// Every file of the model exists and is large enough: the main model file
/// (or encoder) at least `min_bytes`, a FireRedASR decoder at least a quarter
/// of that, tokens at least 100 bytes.
pub open spec fn spec_files_valid(kind: ModelKind, min_bytes: u64, probe: FileProbe) -> bool {
    match kind {
        ModelKind::SenseVoice { model, tokens } => spec_file_ok(probe, model@, min_bytes)
            && spec_file_ok(probe, tokens@, TOKENS_MIN_BYTES),
        ModelKind::FireRedAsr { encoder, decoder, tokens } => spec_file_ok(
            probe,
            encoder@,
            min_bytes,
        ) && spec_file_ok(probe, decoder@, (min_bytes / 4) as u64) && spec_file_ok(
            probe,
            tokens@,
            TOKENS_MIN_BYTES,
        ),
        ModelKind::Paraformer { model, tokens } => spec_file_ok(probe, model@, min_bytes)
            && spec_file_ok(probe, tokens@, TOKENS_MIN_BYTES),
    }
}

impl ModelKind {
    /// Checks that every file exists and is large enough.
    pub fn files_valid(&self, min_bytes: u64, probe: &FileProbe) -> (b: bool)
        ensures
            b == spec_files_valid(*self, min_bytes, *probe),
    {
        match self {
            ModelKind::SenseVoice { model, tokens } => {
                probe.file_ok(model.as_str(), min_bytes) && probe.file_ok(
                    tokens.as_str(),
                    TOKENS_MIN_BYTES,
                )
            },
            ModelKind::FireRedAsr { encoder, decoder, tokens } => {
                probe.file_ok(encoder.as_str(), min_bytes) && probe.file_ok(
                    decoder.as_str(),
                    min_bytes / 4,
                ) && probe.file_ok(tokens.as_str(), TOKENS_MIN_BYTES)
            },
            ModelKind::Paraformer { model, tokens } => {
                probe.file_ok(model.as_str(), min_bytes) && probe.file_ok(
                    tokens.as_str(),
                    TOKENS_MIN_BYTES,
                )
            },
        }
    }
}

// ── Model config and info ────────────────────────────────────────────────────

/// Everything needed to run a model (resolved paths).
#[derive(Debug, Clone)]
pub struct ModelConfig {
    pub id: String,
    pub kind: ModelKind,
}

/// What the front end shows of a model; it does not need the model to be
/// downloaded.
#[derive(Debug, Clone)]
pub struct ModelInfo {
    pub id: String,
    pub display_name: String,
    pub description: String,
    pub languages: Vec<String>,
    pub size_mb: u32,
    pub is_downloaded: bool,
    /// 1 = fast, 2 = balanced, 3 = strong, 4 = best.
    pub tier: u8,
}

/// The models that the catalogue knows, in display order.
pub open spec fn known_ids() -> Seq<Seq<char>> {
    seq!["sense-voice-2024"@, "sense-voice-2025"@, "paraformer-zh"@, "fire-red-v2"@]
}

/// The abstract content of a config: its id and the paths of its kind.
pub enum KindSpec {
    SenseVoice { model: Seq<char>, tokens: Seq<char> },
    FireRedAsr { encoder: Seq<char>, decoder: Seq<char>, tokens: Seq<char> },
    Paraformer { model: Seq<char>, tokens: Seq<char> },
}

pub open spec fn kind_spec(k: ModelKind) -> KindSpec {
    match k {
        ModelKind::SenseVoice { model, tokens } => KindSpec::SenseVoice {
            model: model@,
            tokens: tokens@,
        },
        ModelKind::FireRedAsr { encoder, decoder, tokens } => KindSpec::FireRedAsr {
            encoder: encoder@,
            decoder: decoder@,
            tokens: tokens@,
        },
        ModelKind::Paraformer { model, tokens } => KindSpec::Paraformer {
            model: model@,
            tokens: tokens@,
        },
    }
}

/// Runtime config of model `id` under the models directory `base`, `None`
/// for an unknown id. `sense-voice-2025` uses the int8 model when it exists
/// and the fp32 one otherwise.
pub open spec fn spec_config(base: Seq<char>, id: Seq<char>, probe: FileProbe) -> Option<
    KindSpec,
> {
    if id == "sense-voice-2024"@ {
        let dir = join_path(base, id);
        Some(
            KindSpec::SenseVoice {
                model: join_path(dir, "model.int8.onnx"@),
                tokens: join_path(dir, "tokens.txt"@),
            },
        )
    } else if id == "sense-voice-2025"@ {
        let dir = join_path(base, id);
        let int8 = join_path(dir, "model.int8.onnx"@);
        Some(
            KindSpec::SenseVoice {
                model: if probe_size(probe.files@, int8) is Some {
                    int8
                } else {
                    join_path(dir, "model.onnx"@)
                },
                tokens: join_path(dir, "tokens.txt"@),
            },
        )
    } else if id == "paraformer-zh"@ {
        let dir = join_path(base, id);
        Some(
            KindSpec::Paraformer {
                model: join_path(dir, "model.int8.onnx"@),
                tokens: join_path(dir, "tokens.txt"@),
            },
        )
    } else if id == "fire-red-v2"@ {
        let dir = join_path(base, id);
        Some(
            KindSpec::FireRedAsr {
                encoder: join_path(dir, "encoder.int8.onnx"@),
                decoder: join_path(dir, "decoder.int8.onnx"@),
                tokens: join_path(dir, "tokens.txt"@),
            },
        )
    } else {
        None
    }
}

/// Path of the voice-activity-detection model under `base`.
pub open spec fn spec_vad_path(base: Seq<char>) -> Seq<char> {
    join_path(base, "silero_vad.onnx"@)
}

/// Minimum size of the VAD model (1 MB).
pub const VAD_MIN_BYTES: u64 = 1_000_000;
/// Minimum size of a main model file (5 MiB).
pub const MODEL_MIN_BYTES: u64 = 5 * 1024 * 1024;

/// The VAD model is present and every file of model `id` is valid.
pub open spec fn spec_is_ready(base: Seq<char>, id: Seq<char>, probe: FileProbe) -> bool {
    &&& spec_file_ok(probe, spec_vad_path(base), VAD_MIN_BYTES)
    &&& spec_config(base, id, probe) is Some
    &&& spec_kind_files_valid(spec_config(base, id, probe).unwrap(), MODEL_MIN_BYTES, probe)
}

/// `spec_files_valid` on the abstract content of a config.
pub open spec fn spec_kind_files_valid(k: KindSpec, min_bytes: u64, probe: FileProbe) -> bool {
    match k {
        KindSpec::SenseVoice { model, tokens } => spec_file_ok(probe, model, min_bytes)
            && spec_file_ok(probe, tokens, TOKENS_MIN_BYTES),
        KindSpec::FireRedAsr { encoder, decoder, tokens } => spec_file_ok(
            probe,
            encoder,
            min_bytes,
        ) && spec_file_ok(probe, decoder, (min_bytes / 4) as u64) && spec_file_ok(
            probe,
            tokens,
            TOKENS_MIN_BYTES,
        ),
        KindSpec::Paraformer { model, tokens } => spec_file_ok(probe, model, min_bytes)
            && spec_file_ok(probe, tokens, TOKENS_MIN_BYTES),
    }
}

/// The first `k` known ids whose model is ready, in catalogue order.
pub open spec fn ready_prefix(base: Seq<char>, probe: FileProbe, k: int) -> Seq<Seq<char>>
    decreases k,
{
    if k <= 0 {
        seq![]
    } else {
        let p = ready_prefix(base, probe, k - 1);
        if spec_is_ready(base, known_ids()[k - 1], probe) {
            p.push(known_ids()[k - 1])
        } else {
            p
        }
    }
}

/// The known ids whose model is ready, in catalogue order.
pub open spec fn spec_ready_ids(base: Seq<char>, probe: FileProbe) -> Seq<Seq<char>> {
    ready_prefix(base, probe, 4)
}

/// Display name of the `i`-th catalogue entry.
pub open spec fn info_display_name(i: int) -> Seq<char> {
    if i == 0 {
        "SenseVoice Small 2024"@
    } else if i == 1 {
        "SenseVoice Small 2025"@
    } else if i == 2 {
        "Paraformer-zh (Alibaba)"@
    } else {
        "FireRedASR v2 CTC"@
    }
}

/// Description of the `i`-th catalogue entry.
pub open spec fn info_description(i: int) -> Seq<char> {
    if i == 0 {
        "~60MB · Nhanh nhất · zh/en/ja/ko/yue · Nhận diện cảm xúc"@
    } else if i == 1 {
        "~60MB · Nhanh · Cập nhật tháng 9/2025 · Chính xác hơn 2024"@
    } else if i == 2 {
        "~220MB · Cân bằng · Chuyên tiếng Trung Phổ thông · Dấu câu tốt"@
    } else {
        "~250MB · Mạnh nhất · zh/en + 20 phương ngữ · Tốt nhất cho tiếng Trung"@
    }
}

/// Languages of the `i`-th catalogue entry.
pub open spec fn info_languages(i: int) -> Seq<Seq<char>> {
    if i == 0 || i == 1 {
        seq!["zh"@, "yue"@, "en"@, "ja"@, "ko"@]
    } else if i == 2 {
        seq!["zh"@]
    } else {
        seq!["zh"@, "en"@, "yue"@, "dialect"@]
    }
}

/// Approximate download size in MB of the `i`-th catalogue entry.
pub open spec fn info_size_mb(i: int) -> u32 {
    if i == 0 || i == 1 {
        60
    } else if i == 2 {
        220
    } else {
        250
    }
}

/// Tier of the `i`-th catalogue entry.
pub open spec fn info_tier(i: int) -> u8 {
    if i == 0 || i == 1 {
        1
    } else if i == 2 {
        2
    } else {
        3
    }
}

/// `infos` is the catalogue, with download states for models under `base`.
pub open spec fn is_catalogue(infos: Seq<ModelInfo>, base: Seq<char>, probe: FileProbe) -> bool {
    &&& infos.len() == 4
    &&& forall|i: int|
        0 <= i < 4 ==> {
            &&& (#[trigger] infos[i]).id@ == known_ids()[i]
            &&& infos[i].display_name@ == info_display_name(i)
            &&& infos[i].description@ == info_description(i)
            &&& infos[i].languages.deep_view() == info_languages(i)
            &&& infos[i].size_mb == info_size_mb(i)
            &&& infos[i].tier == info_tier(i)
            &&& infos[i].is_downloaded == spec_is_ready(base, known_ids()[i], probe)
        }
}

pub struct ModelManager;

impl ModelManager {
    /// The models directory for a given home directory.
    pub fn models_dir_for(home: Option<String>) -> (r: String)
        ensures
            r@ == models_dir(
                match home {
                    Some(h) => Some(h@),
                    None => None,
                },
            ),
    {
        let h = match home {
            Some(h) => h,
            None => ".".to_owned(),
        };
        let a = join(h.as_str(), ".autosub");
        join(a.as_str(), "models")
    }

    pub(crate) fn base_dir() -> (r: String)
        ensures
            exists|h: Option<Seq<char>>| r@ == models_dir(h),
    {
        let home = home_dir();
        let ghost h = match &home {
            Some(h) => Some(h@),
            None => None,
        };
        let r = Self::models_dir_for(home);
        assert(r@ == models_dir(h));
        r
    }

    /// Where the models live: `~/.autosub/models`.
    pub fn get_models_dir() -> (r: String)
        ensures
            exists|h: Option<Seq<char>>| r@ == models_dir(h),
    {
        Self::base_dir()
    }

    /// Path of the VAD model.
    pub fn vad_model_path() -> (r: String)
        ensures
            exists|h: Option<Seq<char>>| r@ == spec_vad_path(models_dir(h)),
    {
        let base = Self::base_dir();
        join(base.as_str(), "silero_vad.onnx")
    }

    /// The VAD model is present and at least 1 MB.
    pub fn vad_ready(probe: &FileProbe) -> (b: bool)
        ensures
            exists|h: Option<Seq<char>>|
                b == spec_file_ok(*probe, spec_vad_path(models_dir(h)), VAD_MIN_BYTES),
    {
        let base = Self::base_dir();
        Self::vad_ready_in(base.as_str(), probe)
    }

    /// The VAD model under `base` is present and at least 1 MB.
    pub fn vad_ready_in(base: &str, probe: &FileProbe) -> (b: bool)
        ensures
            b == spec_file_ok(*probe, spec_vad_path(base@), VAD_MIN_BYTES),
    {
        let path = join(base, "silero_vad.onnx");
        probe.file_ok(path.as_str(), VAD_MIN_BYTES)
    }

    /// Runtime config of model `id` under the models directory `base`.
    pub fn config_in(base: &str, id: &str, probe: &FileProbe) -> (r: Option<ModelConfig>)
        ensures
            match r {
                Some(c) => c.id@ == id@ && spec_config(base@, id@, *probe) == Some(
                    kind_spec(c.kind),
                ),
                None => spec_config(base@, id@, *probe) is None,
            },
    {
        let id_s = id.to_owned();
        if id_s == "sense-voice-2024".to_owned() {
            let dir = join(base, id);
            Some(
                ModelConfig {
                    id: id_s,
                    kind: ModelKind::SenseVoice {
                        model: join(dir.as_str(), "model.int8.onnx"),
                        tokens: join(dir.as_str(), "tokens.txt"),
                    },
                },
            )
        } else if id_s == "sense-voice-2025".to_owned() {
            let dir = join(base, id);
            let int8 = join(dir.as_str(), "model.int8.onnx");
            let model = if probe.size_of(int8.as_str()).is_some() {
                int8
            } else {
                join(dir.as_str(), "model.onnx")
            };
            Some(
                ModelConfig {
                    id: id_s,
                    kind: ModelKind::SenseVoice { model, tokens: join(dir.as_str(), "tokens.txt") },
                },
            )
        } else if id_s == "paraformer-zh".to_owned() {
            let dir = join(base, id);
            Some(
                ModelConfig {
                    id: id_s,
                    kind: ModelKind::Paraformer {
                        model: join(dir.as_str(), "model.int8.onnx"),
                        tokens: join(dir.as_str(), "tokens.txt"),
                    },
                },
            )
        } else if id_s == "fire-red-v2".to_owned() {
            let dir = join(base, id);
            Some(
                ModelConfig {
                    id: id_s,
                    kind: ModelKind::FireRedAsr {
                        encoder: join(dir.as_str(), "encoder.int8.onnx"),
                        decoder: join(dir.as_str(), "decoder.int8.onnx"),
                        tokens: join(dir.as_str(), "tokens.txt"),
                    },
                },
            )
        } else {
            None
        }
    }

    /// Resolves a model id to its runtime config with absolute paths.
    pub fn get_config(id: &str, probe: &FileProbe) -> (r: Option<ModelConfig>)
        ensures
            exists|h: Option<Seq<char>>|
                match r {
                    Some(c) => c.id@ == id@ && spec_config(models_dir(h), id@, *probe) == Some(
                        kind_spec(c.kind),
                    ),
                    None => spec_config(models_dir(h), id@, *probe) is None,
                },
    {
        let base = Self::base_dir();
        Self::config_in(base.as_str(), id, probe)
    }

    /// Whether model `id` under the models directory `base` is fully
    /// downloaded and the VAD model is ready.
    pub fn is_ready_in(base: &str, id: &str, probe: &FileProbe) -> (b: bool)
        ensures
            b == spec_is_ready(base@, id@, *probe),
    {
        let vad = join(base, "silero_vad.onnx");
        if !probe.file_ok(vad.as_str(), VAD_MIN_BYTES) {
            return false;
        }
        match Self::config_in(base, id, probe) {
            Some(c) => c.kind.files_valid(MODEL_MIN_BYTES, probe),
            None => false,
        }
    }

    /// Whether model `id` is fully downloaded and the VAD model is ready.
    pub fn is_ready(id: &str, probe: &FileProbe) -> (b: bool)
        ensures
            exists|h: Option<Seq<char>>| b == spec_is_ready(models_dir(h), id@, *probe),
    {
        let base = Self::base_dir();
        Self::is_ready_in(base.as_str(), id, probe)
    }

    fn make_info(
        base: &str,
        probe: &FileProbe,
        id: &str,
        display_name: &str,
        description: &str,
        languages: Vec<String>,
        size_mb: u32,
        tier: u8,
    ) -> (m: ModelInfo)
        ensures
            m.id@ == id@,
            m.display_name@ == display_name@,
            m.description@ == description@,
            m.languages == languages,
            m.size_mb == size_mb,
            m.tier == tier,
            m.is_downloaded == spec_is_ready(base@, id@, *probe),
    {
        ModelInfo {
            id: id.to_owned(),
            display_name: display_name.to_owned(),
            description: description.to_owned(),
            languages,
            size_mb,
            is_downloaded: Self::is_ready_in(base, id, probe),
            tier,
        }
    }

    /// The catalogue with the download state of each model under `base`.
    pub fn all_model_info_in(base: &str, probe: &FileProbe) -> (r: Vec<ModelInfo>)
        ensures
            is_catalogue(r@, base@, *probe),
    {
        let l0 = vec![
            "zh".to_owned(),
            "yue".to_owned(),
            "en".to_owned(),
            "ja".to_owned(),
            "ko".to_owned(),
        ];
        assert(l0.deep_view() =~= info_languages(0));
        let l1 = vec![
            "zh".to_owned(),
            "yue".to_owned(),
            "en".to_owned(),
            "ja".to_owned(),
            "ko".to_owned(),
        ];
        assert(l1.deep_view() =~= info_languages(1));
        let l2 = vec!["zh".to_owned()];
        assert(l2.deep_view() =~= info_languages(2));
        let l3 = vec!["zh".to_owned(), "en".to_owned(), "yue".to_owned(), "dialect".to_owned()];
        assert(l3.deep_view() =~= info_languages(3));
        let r = vec![
            Self::make_info(
                base,
                probe,
                "sense-voice-2024",
                "SenseVoice Small 2024",
                "~60MB · Nhanh nhất · zh/en/ja/ko/yue · Nhận diện cảm xúc",
                l0,
                60,
                1,
            ),
            Self::make_info(
                base,
                probe,
                "sense-voice-2025",
                "SenseVoice Small 2025",
                "~60MB · Nhanh · Cập nhật tháng 9/2025 · Chính xác hơn 2024",
                l1,
                60,
                1,
            ),
            Self::make_info(
                base,
                probe,
                "paraformer-zh",
                "Paraformer-zh (Alibaba)",
                "~220MB · Cân bằng · Chuyên tiếng Trung Phổ thông · Dấu câu tốt",
                l2,
                220,
                2,
            ),
            Self::make_info(
                base,
                probe,
                "fire-red-v2",
                "FireRedASR v2 CTC",
                "~250MB · Mạnh nhất · zh/en + 20 phương ngữ · Tốt nhất cho tiếng Trung",
                l3,
                250,
                3,
            ),
        ];
        assert forall|i: int| 0 <= i < 4 implies {
            &&& (#[trigger] r@[i]).id@ == known_ids()[i]
            &&& r@[i].display_name@ == info_display_name(i)
            &&& r@[i].description@ == info_description(i)
            &&& r@[i].languages.deep_view() == info_languages(i)
            &&& r@[i].size_mb == info_size_mb(i)
            &&& r@[i].tier == info_tier(i)
            &&& r@[i].is_downloaded == spec_is_ready(base@, known_ids()[i], *probe)
        } by {
            if i == 0 {
            } else if i == 1 {
            } else if i == 2 {
            } else {
            }
        }
        r
    }

    /// Every model of the catalogue with its download state, for the UI.
    pub fn all_model_info(probe: &FileProbe) -> (r: Vec<ModelInfo>)
        ensures
            exists|h: Option<Seq<char>>| is_catalogue(r@, models_dir(h), *probe),
    {
        let base = Self::base_dir();
        Self::all_model_info_in(base.as_str(), probe)
    }

    /// Ids of the models that are downloaded and ready, in catalogue order.
    pub fn list_ready_ids(probe: &FileProbe) -> (r: Vec<String>)
        ensures
            exists|h: Option<Seq<char>>| r.deep_view() == spec_ready_ids(models_dir(h), *probe),
    {
        let base = Self::base_dir();
        Self::list_ready_ids_in(base.as_str(), probe)
    }

    /// Ids of the models under `base` that are ready, in catalogue order.
    pub fn list_ready_ids_in(base: &str, probe: &FileProbe) -> (r: Vec<String>)
        ensures
            r.deep_view() == spec_ready_ids(base@, *probe),
    {
        let infos = Self::all_model_info_in(base, probe);
        let mut r: Vec<String> = Vec::new();
        let mut i: usize = 0;
        while i < infos.len()
            invariant
                i <= infos.len() == 4,
                is_catalogue(infos@, base@, *probe),
                r.deep_view() == ready_prefix(base@, *probe, i as int),
            decreases infos.len() - i,
        {
            assert(infos@[i as int].id@ == known_ids()[i as int]);
            if infos[i].is_downloaded {
                let id = infos[i].id.clone();
                r.push(id);
                assert(r.deep_view() =~= ready_prefix(base@, *probe, i + 1));
            }
            i = i + 1;
        }
        r
    }
}


// ── Laws ─────────────────────────────────────────────────────────────────────

/// A model id resolves to a config exactly when it is in the catalogue.
pub proof fn lemma_config_iff_known(base: Seq<char>, id: Seq<char>, probe: FileProbe)
    ensures
        spec_config(base, id, probe) is Some <==> known_ids().contains(id),
{
    if known_ids().contains(id) {
        let i = choose|i: int| 0 <= i < known_ids().len() && known_ids()[i] == id;
        assert(i == 0 || i == 1 || i == 2 || i == 3);
    } else {
        assert(known_ids()[0] == "sense-voice-2024"@);
        assert(known_ids()[1] == "sense-voice-2025"@);
        assert(known_ids()[2] == "paraformer-zh"@);
        assert(known_ids()[3] == "fire-red-v2"@);
    }
}

/// Each known model resolves to its documented files in `<base>/<id>`:
/// `model.int8.onnx` and `tokens.txt` for sense-voice-2024 and
/// paraformer-zh; `encoder.int8.onnx`, `decoder.int8.onnx` and `tokens.txt`
/// for fire-red-v2; for sense-voice-2025 `model.int8.onnx` when that file
/// exists and `model.onnx` otherwise, with `tokens.txt`. Only the
/// sense-voice-2025 config depends on which files exist.
pub proof fn lemma_config_file_names(base: Seq<char>, probe: FileProbe, other: FileProbe)
    ensures
        spec_config(base, "sense-voice-2024"@, probe) == Some(
            KindSpec::SenseVoice {
                model: join_path(join_path(base, "sense-voice-2024"@), "model.int8.onnx"@),
                tokens: join_path(join_path(base, "sense-voice-2024"@), "tokens.txt"@),
            },
        ),
        spec_config(base, "sense-voice-2025"@, probe) == Some(
            KindSpec::SenseVoice {
                model: if probe_size(
                    probe.files@,
                    join_path(join_path(base, "sense-voice-2025"@), "model.int8.onnx"@),
                ) is Some {
                    join_path(join_path(base, "sense-voice-2025"@), "model.int8.onnx"@)
                } else {
                    join_path(join_path(base, "sense-voice-2025"@), "model.onnx"@)
                },
                tokens: join_path(join_path(base, "sense-voice-2025"@), "tokens.txt"@),
            },
        ),
        spec_config(base, "paraformer-zh"@, probe) == Some(
            KindSpec::Paraformer {
                model: join_path(join_path(base, "paraformer-zh"@), "model.int8.onnx"@),
                tokens: join_path(join_path(base, "paraformer-zh"@), "tokens.txt"@),
            },
        ),
        spec_config(base, "fire-red-v2"@, probe) == Some(
            KindSpec::FireRedAsr {
                encoder: join_path(join_path(base, "fire-red-v2"@), "encoder.int8.onnx"@),
                decoder: join_path(join_path(base, "fire-red-v2"@), "decoder.int8.onnx"@),
                tokens: join_path(join_path(base, "fire-red-v2"@), "tokens.txt"@),
            },
        ),
        forall|id: Seq<char>|
            id != "sense-voice-2025"@ ==> spec_config(base, id, probe) == spec_config(
                base,
                id,
                other,
            ),
{
    reveal_strlit("sense-voice-2024");
    reveal_strlit("sense-voice-2025");
    reveal_strlit("paraformer-zh");
    reveal_strlit("fire-red-v2");
}

/// A model is only ready when the VAD model is ready too.
pub proof fn lemma_ready_needs_vad(base: Seq<char>, id: Seq<char>, probe: FileProbe)
    requires
        spec_is_ready(base, id, probe),
    ensures
        spec_file_ok(probe, spec_vad_path(base), VAD_MIN_BYTES),
        known_ids().contains(id),
{
    lemma_config_iff_known(base, id, probe);
}

proof fn lemma_ready_prefix(base: Seq<char>, probe: FileProbe, k: int)
    requires
        0 <= k <= 4,
    ensures
        forall|x: Seq<char>|
            ready_prefix(base, probe, k).contains(x) <==> exists|i: int|
                0 <= i < k && known_ids()[i] == x && spec_is_ready(base, x, probe),
    decreases k,
{
    if k > 0 {
        lemma_ready_prefix(base, probe, k - 1);
        let p = ready_prefix(base, probe, k - 1);
        assert forall|x: Seq<char>|
            ready_prefix(base, probe, k).contains(x) <==> exists|i: int|
                0 <= i < k && known_ids()[i] == x && spec_is_ready(base, x, probe) by {
            if ready_prefix(base, probe, k).contains(x) {
                if !p.contains(x) {
                    assert(known_ids()[k - 1] == x);
                }
            }
            if exists|i: int| 0 <= i < k && known_ids()[i] == x && spec_is_ready(base, x, probe) {
                let i = choose|i: int|
                    0 <= i < k && known_ids()[i] == x && spec_is_ready(base, x, probe);
                if i == k - 1 {
                    assert(ready_prefix(base, probe, k)[p.len() as int] == x);
                } else {
                    let j = choose|j: int| 0 <= j < p.len() && p[j] == x;
                    assert(ready_prefix(base, probe, k)[j] == x);
                }
            }
        }
    }
}

/// The ready list holds exactly the catalogue models that are ready.
pub proof fn lemma_ready_ids_exact(base: Seq<char>, probe: FileProbe)
    ensures
        forall|x: Seq<char>|
            spec_ready_ids(base, probe).contains(x) <==> (known_ids().contains(x)
                && spec_is_ready(base, x, probe)),
{
    lemma_ready_prefix(base, probe, 4);
    assert forall|x: Seq<char>|
        spec_ready_ids(base, probe).contains(x) <==> (known_ids().contains(x) && spec_is_ready(
            base,
            x,
            probe,
        )) by {
        if known_ids().contains(x) && spec_is_ready(base, x, probe) {
            let i = choose|i: int| 0 <= i < known_ids().len() && known_ids()[i] == x;
            assert(0 <= i < 4 && known_ids()[i] == x && spec_is_ready(base, x, probe));
        }
        if spec_ready_ids(base, probe).contains(x) {
            let i = choose|i: int|
                0 <= i < 4 && known_ids()[i] == x && spec_is_ready(base, x, probe);
            assert(known_ids()[i] == x);
        }
    }
}

} // verus!
