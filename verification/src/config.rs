//! Configuration: its fields, its validation, and the resolution of the
//! named GPU profiles.

use vstd::prelude::*;
use vstd::string::StrSliceExecFns;

use crate::text::push_str;

verus! {

pub struct Config {
    pub identity: IdentityConfig,
    pub server: ServerConfig,
    pub compute: ComputeConfig,
    pub ui: UiConfig,
    pub logging: LoggingConfig,
    pub reporting: ReportingConfig,
}

pub struct UiConfig {
    pub disable_tui: bool,
}

impl Default for UiConfig {
    fn default() -> (r: Self)
        ensures
            !r.disable_tui,
    {
        UiConfig { disable_tui: false }
    }
}

pub struct LoggingConfig {
    pub enabled: bool,
    pub kernel_activity: bool,
}

impl Default for LoggingConfig {
    fn default() -> (r: Self)
        ensures
            !r.enabled,
            !r.kernel_activity,
    {
        LoggingConfig { enabled: false, kernel_activity: false }
    }
}

pub struct IdentityConfig {
    pub uuid: String,
    pub nickname: String,
    pub code: String,
}

pub struct ServerConfig {
    pub url: String,
}

pub struct ComputeConfig {
    pub use_cpu: bool,
    /// 0 = all logical cores.
    pub cpu_threads: usize,
    pub cpu_chunk_size: u64,
    pub use_gpu: bool,
    /// Named GPU profile; see `ResolvedGpu::from_profile` for the list.
    /// Determines backend, blocks, threads/block, and chunk size.
    pub gpu_profile: String,
    /// Override the profile's chunk size.
    pub gpu_chunk_size: Option<u64>,
    /// Override the profile's block count.
    pub gpu_blocks: Option<u32>,
}

pub struct ReportingConfig {
    /// Milliseconds between reports.
    pub report_interval: u64,
}

#[derive(Debug, Clone, Copy, PartialEq, Eq, Structural)]
pub enum GpuBackendKind {
    Cuda,
    Hip,
    Vulkan,
}

#[derive(Debug, Clone, Copy)]
pub struct ResolvedGpu {
    pub kind: GpuBackendKind,
    pub blocks: u32,
    pub threads_per_block: u32,
    pub chunk_size: u64,
}

/// Why a configuration is refused.
#[derive(Debug)]
pub enum ConfigError {
    InvalidUuid,
    InvalidNickname,
    ZeroCpuChunkSize,
    MissingGpuProfile,
    ReportIntervalTooShort,
    CudaNeedsBlocks,
    HipNeedsBlocks,
    /// The unknown profile's name.
    UnknownGpuProfile(String),
    NoBackend,
    /// The configuration text is not TOML.
    UnreadableToml,
    /// The configuration has no `identity.code` entry to write the code into.
    NoIdentityCode,
    /// The edited configuration could not be written out as TOML.
    UnwritableToml,
}

/// The text of each configuration error.
pub open spec fn config_error_text(e: ConfigError) -> Seq<char> {
    match e {
        ConfigError::InvalidUuid => "identity.uuid must be 16–64 hex characters"@,
        ConfigError::InvalidNickname => "identity.nickname must be 2–8 characters"@,
        ConfigError::ZeroCpuChunkSize => "compute.cpu_chunk_size must be > 0"@,
        ConfigError::MissingGpuProfile => "compute.gpu_profile must be set when use_gpu = true"@,
        ConfigError::ReportIntervalTooShort => "reporting.report_interval must be >= 5ms"@,
        ConfigError::CudaNeedsBlocks => "gpu_profile = \"cuda\" requires gpu_blocks in config.toml"@,
        ConfigError::HipNeedsBlocks => "gpu_profile = \"hip\" requires gpu_blocks in config.toml"@,
        ConfigError::UnknownGpuProfile(p) => "unknown gpu_profile \""@ + p@ + "\"\nvalid profiles: vulkan, cuda, hip\n"@,
        ConfigError::NoBackend => "no compute backend enabled; set use_cpu, use_gpu, or use_amd to true in config.toml"@,
        ConfigError::UnreadableToml => "failed to parse config file as TOML"@,
        ConfigError::NoIdentityCode => "config file has no identity.code entry"@,
        ConfigError::UnwritableToml => "failed to write config file as TOML"@,
    }
}

impl ConfigError {
    /// The error's text.
    pub fn message(&self) -> (s: String)
        ensures
            s@ == config_error_text(*self),
    {
        match self {
            ConfigError::InvalidUuid => String::from_str("identity.uuid must be 16–64 hex characters"),
            ConfigError::InvalidNickname => String::from_str("identity.nickname must be 2–8 characters"),
            ConfigError::ZeroCpuChunkSize => String::from_str("compute.cpu_chunk_size must be > 0"),
            ConfigError::MissingGpuProfile => String::from_str("compute.gpu_profile must be set when use_gpu = true"),
            ConfigError::ReportIntervalTooShort => String::from_str("reporting.report_interval must be >= 5ms"),
            ConfigError::CudaNeedsBlocks => String::from_str("gpu_profile = \"cuda\" requires gpu_blocks in config.toml"),
            ConfigError::HipNeedsBlocks => String::from_str("gpu_profile = \"hip\" requires gpu_blocks in config.toml"),
            ConfigError::UnknownGpuProfile(p) => {
                let mut s = String::from_str("unknown gpu_profile \"");
                push_str(&mut s, p.as_str());
                push_str(&mut s, "\"\nvalid profiles: vulkan, cuda, hip\n");
                s
            },
            ConfigError::NoBackend => String::from_str(
                "no compute backend enabled; set use_cpu, use_gpu, or use_amd to true in config.toml",
            ),
            ConfigError::UnreadableToml => String::from_str("failed to parse config file as TOML"),
            ConfigError::NoIdentityCode => String::from_str("config file has no identity.code entry"),
            ConfigError::UnwritableToml => String::from_str("failed to write config file as TOML"),
        }
    }
}

/// Equality of two string slices, character by character.
pub fn str_eq(a: &str, b: &str) -> (r: bool)
    ensures
        r == (a@ == b@),
{
    let n = a.unicode_len();
    if n != b.unicode_len() {
        return false;
    }
    let mut i: usize = 0;
    while i < n
        invariant
            0 <= i <= n,
            n == a@.len(),
            n == b@.len(),
            forall|k: int| 0 <= k < i ==> a@[k] == b@[k],
        decreases n - i,
    {
        if a.get_char(i) != b.get_char(i) {
            return false;
        }
        i = i + 1;
    }
    assert(a@ =~= b@);
    true
}

/// `r` is what resolving the GPU profile named `p` with the overrides
/// `blocks` and `chunk` gives: "vulkan" (1024 blocks and 268435456 shuffles
/// per chunk unless overridden), "cuda" or "hip" (blocks required, 536870912
/// shuffles per chunk unless overridden), all with 256 threads per block;
/// any other name is unknown.
pub open spec fn resolves_to(p: Seq<char>, blocks: Option<u32>, chunk: Option<u64>, r: Result<ResolvedGpu, ConfigError>) -> bool {
    if p == "vulkan"@ {
        r == Ok::<ResolvedGpu, ConfigError>(ResolvedGpu {
            kind: GpuBackendKind::Vulkan,
            blocks: blocks.unwrap_or(1024),
            threads_per_block: 256,
            chunk_size: chunk.unwrap_or(268435456),
        })
    } else if p == "cuda"@ || p == "hip"@ {
        match blocks {
            Some(b) => r == Ok::<ResolvedGpu, ConfigError>(ResolvedGpu {
                kind: if p == "cuda"@ { GpuBackendKind::Cuda } else { GpuBackendKind::Hip },
                blocks: b,
                threads_per_block: 256,
                chunk_size: chunk.unwrap_or(536870912),
            }),
            None => r matches Err(e) && (if p == "cuda"@ { e is CudaNeedsBlocks } else { e is HipNeedsBlocks }),
        }
    } else {
        r matches Err(e) && e matches ConfigError::UnknownGpuProfile(name) && name@ == p
    }
}

/// Law: what a GPU profile resolves to. A profile resolves exactly when it
/// is "vulkan", or "cuda" or "hip" with a block count; it then runs 256
/// threads per block on the backend it names, and an override of the block
/// count or of the chunk size is always taken, whatever the profile. Any
/// other name is refused as unknown, with that name.
pub proof fn lemma_profile_resolution(p: Seq<char>, blocks: Option<u32>, chunk: Option<u64>, r: Result<ResolvedGpu, ConfigError>)
    requires
        resolves_to(p, blocks, chunk, r),
    ensures
        r is Ok <==> (p == "vulkan"@ || ((p == "cuda"@ || p == "hip"@) && blocks is Some)),
        r matches Ok(g) ==> {
            &&& g.threads_per_block == 256
            &&& (blocks matches Some(b) ==> g.blocks == b)
            &&& (chunk matches Some(c) ==> g.chunk_size == c)
            &&& (p == "vulkan"@ ==> g.kind == GpuBackendKind::Vulkan)
            &&& (p == "cuda"@ ==> g.kind == GpuBackendKind::Cuda)
            &&& (p == "hip"@ ==> g.kind == GpuBackendKind::Hip)
        },
        !(p == "vulkan"@ || p == "cuda"@ || p == "hip"@) ==> (r matches Err(ConfigError::UnknownGpuProfile(name)) && name@ == p),
{
    reveal_strlit("vulkan");
    reveal_strlit("cuda");
    reveal_strlit("hip");
    assert("cuda"@ != "vulkan"@) by {
        assert("cuda"@.len() != "vulkan"@.len());
    }
    assert("hip"@ != "vulkan"@) by {
        assert("hip"@.len() != "vulkan"@.len());
    }
    assert("hip"@ != "cuda"@) by {
        assert("hip"@.len() != "cuda"@.len());
    }
}

impl ResolvedGpu {
    /// Resolves a named GPU profile; see `resolves_to`.
    pub fn from_profile(profile: &str, block_override: Option<u32>, chunk_override: Option<u64>) -> (r: Result<Self, ConfigError>)
        ensures
            resolves_to(profile@, block_override, chunk_override, r),
    {
        let (kind, blocks, tpb, chunk) = if str_eq(profile, "vulkan") {
            let b = block_override.unwrap_or(1024);
            (GpuBackendKind::Vulkan, b, 256u32, chunk_override.unwrap_or(268435456))
        } else if str_eq(profile, "cuda") {
            let b = match block_override {
                Some(b) => b,
                None => {
                    proof {
                        reveal_strlit("vulkan");
                        reveal_strlit("cuda");
                    }
                    return Err(ConfigError::CudaNeedsBlocks);
                },
            };
            (GpuBackendKind::Cuda, b, 256u32, chunk_override.unwrap_or(536870912))
        } else if str_eq(profile, "hip") {
            let b = match block_override {
                Some(b) => b,
                None => {
                    proof {
                        reveal_strlit("vulkan");
                        reveal_strlit("cuda");
                        reveal_strlit("hip");
                    }
                    return Err(ConfigError::HipNeedsBlocks);
                },
            };
            (GpuBackendKind::Hip, b, 256u32, chunk_override.unwrap_or(536870912))
        } else {
            return Err(ConfigError::UnknownGpuProfile(profile.to_owned()));
        };
        proof {
            reveal_strlit("vulkan");
            reveal_strlit("cuda");
            reveal_strlit("hip");
        }
        Ok(ResolvedGpu {
            kind,
            blocks: block_override.unwrap_or(blocks),
            threads_per_block: tpb,
            chunk_size: chunk_override.unwrap_or(chunk),
        })
    }
}

/// `s` with every '-' removed.
pub open spec fn without_dashes(s: Seq<char>) -> Seq<char>
    decreases s.len(),
{
    if s.len() == 0 {
        s
    } else if s.last() == '-' {
        without_dashes(s.drop_last())
    } else {
        without_dashes(s.drop_last()).push(s.last())
    }
}

pub open spec fn is_hex_digit(c: char) -> bool {
    ||| (48 <= c as u32 && c as u32 <= 57)
    ||| (65 <= c as u32 && c as u32 <= 70)
    ||| (97 <= c as u32 && c as u32 <= 102)
}

/// Law: the hexadecimal digits are exactly '0' to '9', 'a' to 'f' and 'A' to 'F'.
pub proof fn lemma_hex_digits(c: char)
    ensures
        is_hex_digit(c) <==> (c == '0' || c == '1' || c == '2' || c == '3' || c == '4' || c == '5' || c == '6'
            || c == '7' || c == '8' || c == '9' || c == 'a' || c == 'b' || c == 'c' || c == 'd' || c == 'e'
            || c == 'f' || c == 'A' || c == 'B' || c == 'C' || c == 'D' || c == 'E' || c == 'F'),
{
}

/// A uuid is 16 to 64 hexadecimal digits, with dashes anywhere.
pub open spec fn uuid_ok(uuid: Seq<char>) -> bool {
    let h = without_dashes(uuid);
    &&& 16 <= h.len() <= 64
    &&& forall|k: int| 0 <= k < h.len() ==> is_hex_digit(#[trigger] h[k])
}

/// A nickname is 2 to 8 characters long.
pub open spec fn nickname_ok(nick: Seq<char>) -> bool {
    2 <= nick.len() <= 8
}

/// The first rule, in this order, that `c` breaks, if any: uuid, nickname,
/// a non-zero CPU chunk size, a GPU profile when the GPU is used, and a
/// report interval of at least 5 ms.
pub open spec fn first_violation(c: Config) -> Option<ConfigError> {
    if !uuid_ok(c.identity.uuid@) {
        Some(ConfigError::InvalidUuid)
    } else if !nickname_ok(c.identity.nickname@) {
        Some(ConfigError::InvalidNickname)
    } else if c.compute.cpu_chunk_size == 0 {
        Some(ConfigError::ZeroCpuChunkSize)
    } else if c.compute.use_gpu && c.compute.gpu_profile@.len() == 0 {
        Some(ConfigError::MissingGpuProfile)
    } else if c.reporting.report_interval < 5 {
        Some(ConfigError::ReportIntervalTooShort)
    } else {
        None
    }
}

/// Whether a uuid is well formed; see `uuid_ok`.
pub fn check_uuid(uuid: &str) -> (ok: bool)
    ensures
        ok == uuid_ok(uuid@),
{
    let n = uuid.unicode_len();
    let mut count: usize = 0;
    let mut all_hex = true;
    let mut i: usize = 0;
    while i < n
        invariant
            0 <= i <= n,
            n == uuid@.len(),
            count == without_dashes(uuid@.take(i as int)).len(),
            count <= i,
            all_hex == (forall|k: int| 0 <= k < count ==> is_hex_digit(#[trigger] without_dashes(uuid@.take(i as int))[k])),
        decreases n - i,
    {
        let c = uuid.get_char(i);
        let ghost before = without_dashes(uuid@.take(i as int));
        assert(uuid@.take(i + 1).drop_last() =~= uuid@.take(i as int));
        if c != '-' {
            let v = c as u32;
            let hex = (48 <= v && v <= 57) || (65 <= v && v <= 70) || (97 <= v && v <= 102);
            let ghost after = before.push(c);
            assert(without_dashes(uuid@.take(i + 1)) == after);
            if all_hex {
                if !hex {
                    all_hex = false;
                    assert(!is_hex_digit(after[count as int]));
                } else {
                    assert forall|k: int| 0 <= k < count + 1 implies is_hex_digit(#[trigger] after[k]) by {
                        if k < count {
                            assert(after[k] == before[k]);
                        }
                    }
                }
            } else {
                let ghost bad = choose|k: int| 0 <= k < count && !is_hex_digit(#[trigger] before[k]);
                assert(after[bad] == before[bad]);
            }
            count = count + 1;
        } else {
            assert(without_dashes(uuid@.take(i + 1)) == before);
        }
        i = i + 1;
    }
    assert(uuid@.take(n as int) =~= uuid@);
    all_hex && 16 <= count && count <= 64
}

impl Config {
    /// Checks the configuration; see `first_violation`.
    pub fn validate(&self) -> (r: Result<(), ConfigError>)
        ensures
            match first_violation(*self) {
                None => r is Ok,
                Some(e) => r == Err::<(), ConfigError>(e),
            },
    {
        if !check_uuid(self.identity.uuid.as_str()) {
            return Err(ConfigError::InvalidUuid);
        }
        let nick = self.identity.nickname.as_str().unicode_len();
        if nick < 2 || nick > 8 {
            return Err(ConfigError::InvalidNickname);
        }
        if self.compute.cpu_chunk_size == 0 {
            return Err(ConfigError::ZeroCpuChunkSize);
        }
        if self.compute.use_gpu && self.compute.gpu_profile.as_str().is_empty() {
            return Err(ConfigError::MissingGpuProfile);
        }
        if self.reporting.report_interval < 5 {
            return Err(ConfigError::ReportIntervalTooShort);
        }
        Ok(())
    }

    /// Resolves the configured GPU profile with its overrides.
    pub fn resolve_gpu(&self) -> (r: Result<ResolvedGpu, ConfigError>)
        ensures
            resolves_to(self.compute.gpu_profile@, self.compute.gpu_blocks, self.compute.gpu_chunk_size, r),
    {
        ResolvedGpu::from_profile(
            self.compute.gpu_profile.as_str(),
            self.compute.gpu_blocks,
            self.compute.gpu_chunk_size,
        )
    }
}

/// The CPU backend to start: its worker threads (0 = all cores) and chunk size.
pub struct CpuPlan {
    pub threads: usize,
    pub chunk_size: u64,
}

/// The backends to start, in backend-id order: the CPU first, then the GPU
/// with its resolved profile (or why it cannot be resolved).
pub struct BackendPlan {
    pub cpu: Option<CpuPlan>,
    pub gpu: Option<Result<ResolvedGpu, ConfigError>>,
}

impl Config {
    /// The backends this configuration asks for; an error when it asks for none.
    pub fn backend_plan(&self) -> (r: Result<BackendPlan, ConfigError>)
        ensures
            !self.compute.use_cpu && !self.compute.use_gpu ==> r matches Err(ConfigError::NoBackend),
            self.compute.use_cpu || self.compute.use_gpu ==> r is Ok,
            r matches Ok(p) ==> {
                &&& (p.cpu is Some <==> self.compute.use_cpu)
                &&& (p.cpu matches Some(c) ==> c.threads == self.compute.cpu_threads && c.chunk_size == self.compute.cpu_chunk_size)
                &&& (p.gpu is Some <==> self.compute.use_gpu)
                &&& (p.gpu matches Some(g) ==> resolves_to(self.compute.gpu_profile@, self.compute.gpu_blocks, self.compute.gpu_chunk_size, g))
            },
    {
        if !self.compute.use_cpu && !self.compute.use_gpu {
            return Err(ConfigError::NoBackend);
        }
        let cpu = if self.compute.use_cpu {
            Some(CpuPlan { threads: self.compute.cpu_threads, chunk_size: self.compute.cpu_chunk_size })
        } else {
            None
        };
        let gpu = if self.compute.use_gpu {
            Some(self.resolve_gpu())
        } else {
            None
        };
        Ok(BackendPlan { cpu, gpu })
    }
}

#[verifier::external_type_specification]
#[verifier::external_body]
pub struct ExTomlValue(toml::Value);

#[verifier::external_type_specification]
#[verifier::external_body]
pub struct ExTomlDeError(toml::de::Error);

#[verifier::external_type_specification]
#[verifier::external_body]
pub struct ExTomlSerError(toml::ser::Error);

/// The TOML document that `toml::from_str` reads from `raw`, or `None` when
/// `raw` is not TOML.
pub uninterp spec fn toml_document(raw: Seq<char>) -> Option<toml::Value>;

/// The document `doc` with its `identity.code` entry set to the string
/// `code`, or `None` when `doc` has no such entry.
pub uninterp spec fn toml_with_identity_code(doc: toml::Value, code: Seq<char>) -> Option<toml::Value>;

/// The text that `toml::to_string_pretty` writes for `doc`, or `None` when it fails.
pub uninterp spec fn toml_pretty_text(doc: toml::Value) -> Option<Seq<char>>;

/// Reads a TOML document.
///
/// Wraps `toml::from_str::<toml::Value>`. The result depends on the text
/// alone; the contract names it, the document or its absence.
#[verifier::external_body]
fn toml_parse(raw: &str) -> (r: Result<toml::Value, toml::de::Error>)
    ensures
        r is Ok <==> toml_document(raw@) is Some,
        r matches Ok(doc) ==> toml_document(raw@) == Some(doc),
{
    toml::from_str::<toml::Value>(raw)
}

/// Sets the string `identity.code` of a document.
///
/// Wraps `toml::Value::get_mut`, indexing the document by "identity" and
/// then by "code" as `doc["identity"]["code"]` does, and stores the string
/// in that entry. Where `doc["identity"]["code"]` would panic (no such
/// entry) this gives `None`. The result depends on the arguments alone.
#[verifier::external_body]
fn toml_set_identity_code(doc: toml::Value, code: &str) -> (r: Option<toml::Value>)
    ensures
        r == toml_with_identity_code(doc, code@),
{
    let mut doc = doc;
    let found = match doc.get_mut("identity") {
        Some(identity) => match identity.get_mut("code") {
            Some(slot) => {
                *slot = toml::Value::String(code.to_string());
                true
            },
            None => false,
        },
        None => false,
    };
    if found { Some(doc) } else { None }
}

/// Writes a TOML document as text.
///
/// Wraps `toml::to_string_pretty`. The result depends on the document alone;
/// the contract names it.
#[verifier::external_body]
fn toml_to_pretty(doc: &toml::Value) -> (r: Result<String, toml::ser::Error>)
    ensures
        r is Ok <==> toml_pretty_text(*doc) is Some,
        r matches Ok(text) ==> toml_pretty_text(*doc) == Some(text@),
{
    toml::to_string_pretty(doc)
}

/// What writing a recovery code into the configuration text `raw` gives:
/// the text must be TOML with an `identity.code` entry; the entry becomes
/// `code` and the document is written out again.
pub open spec fn recovery_code_outcome(raw: Seq<char>, code: Seq<char>, r: Result<String, ConfigError>) -> bool {
    match toml_document(raw) {
        None => r matches Err(ConfigError::UnreadableToml),
        Some(doc) => match toml_with_identity_code(doc, code) {
            None => r matches Err(ConfigError::NoIdentityCode),
            Some(edited) => match toml_pretty_text(edited) {
                None => r matches Err(ConfigError::UnwritableToml),
                Some(text) => r matches Ok(s) && s@ == text,
            },
        },
    }
}

/// The configuration text `raw` with `identity.code` set to `code`, as the
/// recovery code the server issues on first registration is persisted; see
/// `recovery_code_outcome`.
pub fn with_recovery_code(raw: &str, code: &str) -> (r: Result<String, ConfigError>)
    ensures
        recovery_code_outcome(raw@, code@, r),
{
    let doc = match toml_parse(raw) {
        Ok(doc) => doc,
        Err(_) => return Err(ConfigError::UnreadableToml),
    };
    let edited = match toml_set_identity_code(doc, code) {
        Some(edited) => edited,
        None => return Err(ConfigError::NoIdentityCode),
    };
    match toml_to_pretty(&edited) {
        Ok(text) => Ok(text),
        Err(_) => Err(ConfigError::UnwritableToml),
    }
}

} // verus!
