use bogoforge::config::{
    with_recovery_code,
    ComputeConfig, Config, ConfigError, GpuBackendKind, IdentityConfig, LoggingConfig, ReportingConfig,
    ResolvedGpu, ServerConfig, UiConfig,
};

fn sample_config() -> Config {
    Config {
        identity: IdentityConfig {
            uuid: "0123456789abcdef-0123".to_string(),
            nickname: "bogo".to_string(),
            code: String::new(),
        },
        server: ServerConfig { url: "wss://bogo.swapjs.dev/ws".to_string() },
        compute: ComputeConfig {
            use_cpu: true,
            cpu_threads: 0,
            cpu_chunk_size: 50_000_000,
            use_gpu: false,
            gpu_profile: String::new(),
            gpu_chunk_size: None,
            gpu_blocks: None,
        },
        ui: UiConfig::default(),
        logging: LoggingConfig::default(),
        reporting: ReportingConfig { report_interval: 1000 },
    }
}

#[test]
fn vulkan_profile_defaults() {
    let g = ResolvedGpu::from_profile("vulkan", None, None).unwrap();
    assert_eq!(g.kind, GpuBackendKind::Vulkan);
    assert_eq!(g.blocks, 1024);
    assert_eq!(g.threads_per_block, 256);
    assert_eq!(g.chunk_size, 268435456);
}

#[test]
fn vulkan_profile_overrides() {
    let g = ResolvedGpu::from_profile("vulkan", Some(64), Some(1000)).unwrap();
    assert_eq!(g.blocks, 64);
    assert_eq!(g.chunk_size, 1000);
}

#[test]
fn cuda_profile_needs_blocks() {
    match ResolvedGpu::from_profile("cuda", None, None) {
        Err(e) => {
            assert!(matches!(e, ConfigError::CudaNeedsBlocks));
            assert_eq!(e.message(), "gpu_profile = \"cuda\" requires gpu_blocks in config.toml");
        }
        Ok(_) => panic!("cuda without blocks must be refused"),
    }
    let g = ResolvedGpu::from_profile("cuda", Some(2048), None).unwrap();
    assert_eq!(g.kind, GpuBackendKind::Cuda);
    assert_eq!(g.blocks, 2048);
    assert_eq!(g.threads_per_block, 256);
    assert_eq!(g.chunk_size, 536870912);
}

#[test]
fn hip_profile() {
    assert!(matches!(ResolvedGpu::from_profile("hip", None, Some(5)), Err(ConfigError::HipNeedsBlocks)));
    let g = ResolvedGpu::from_profile("hip", Some(1), Some(5)).unwrap();
    assert_eq!(g.kind, GpuBackendKind::Hip);
    assert_eq!(g.blocks, 1);
    assert_eq!(g.chunk_size, 5);
}

#[test]
fn unknown_profile() {
    match ResolvedGpu::from_profile("opencl", Some(1), None) {
        Err(ConfigError::UnknownGpuProfile(p)) => {
            assert_eq!(p, "opencl");
            assert_eq!(
                ConfigError::UnknownGpuProfile(p).message(),
                "unknown gpu_profile \"opencl\"\nvalid profiles: vulkan, cuda, hip\n"
            );
        }
        _ => panic!("unknown profile must be refused"),
    }
    assert!(matches!(ResolvedGpu::from_profile("", None, None), Err(ConfigError::UnknownGpuProfile(_))));
    assert!(matches!(ResolvedGpu::from_profile("Vulkan", None, None), Err(ConfigError::UnknownGpuProfile(_))));
}

#[test]
fn resolve_gpu_uses_config() {
    let mut c = sample_config();
    c.compute.gpu_profile = "hip".to_string();
    c.compute.gpu_blocks = Some(7);
    c.compute.gpu_chunk_size = Some(9);
    let g = c.resolve_gpu().unwrap();
    assert_eq!(g.kind, GpuBackendKind::Hip);
    assert_eq!(g.blocks, 7);
    assert_eq!(g.chunk_size, 9);
}

#[test]
fn validate_accepts_sample() {
    assert!(sample_config().validate().is_ok());
}

#[test]
fn validate_uuid_rules() {
    let mut c = sample_config();
    c.identity.uuid = "0123456789abcde".to_string(); // 15 digits
    assert!(matches!(c.validate(), Err(ConfigError::InvalidUuid)));
    c.identity.uuid = "0123-4567-89ab-cdef".to_string(); // 16 digits with dashes
    assert!(c.validate().is_ok());
    c.identity.uuid = "0123456789abcdeg".to_string();
    assert!(matches!(c.validate(), Err(ConfigError::InvalidUuid)));
    c.identity.uuid = "A".repeat(64);
    assert!(c.validate().is_ok());
    c.identity.uuid = "A".repeat(65);
    assert!(matches!(c.validate(), Err(ConfigError::InvalidUuid)));
    assert_eq!(ConfigError::InvalidUuid.message(), "identity.uuid must be 16–64 hex characters");
}

#[test]
fn validate_nickname_counts_characters() {
    let mut c = sample_config();
    c.identity.nickname = "a".to_string();
    assert!(matches!(c.validate(), Err(ConfigError::InvalidNickname)));
    c.identity.nickname = "abcdefgh".to_string();
    assert!(c.validate().is_ok());
    c.identity.nickname = "abcdefghi".to_string();
    assert!(matches!(c.validate(), Err(ConfigError::InvalidNickname)));
    // Five characters, ten bytes: the rule counts characters.
    c.identity.nickname = "ééééé".to_string();
    assert!(c.validate().is_ok());
    c.identity.nickname = "éééééééé".to_string();
    assert!(c.validate().is_ok());
    c.identity.nickname = "ééééééééé".to_string();
    assert!(matches!(c.validate(), Err(ConfigError::InvalidNickname)));
    c.identity.nickname = "é".to_string();
    assert!(matches!(c.validate(), Err(ConfigError::InvalidNickname)));
    assert_eq!(ConfigError::InvalidNickname.message(), "identity.nickname must be 2–8 characters");
}

#[test]
fn validate_compute_and_reporting() {
    let mut c = sample_config();
    c.compute.cpu_chunk_size = 0;
    assert!(matches!(c.validate(), Err(ConfigError::ZeroCpuChunkSize)));
    let mut c = sample_config();
    c.compute.use_gpu = true;
    assert!(matches!(c.validate(), Err(ConfigError::MissingGpuProfile)));
    c.compute.gpu_profile = "vulkan".to_string();
    assert!(c.validate().is_ok());
    let mut c = sample_config();
    c.reporting.report_interval = 4;
    assert!(matches!(c.validate(), Err(ConfigError::ReportIntervalTooShort)));
    c.reporting.report_interval = 5;
    assert!(c.validate().is_ok());
}

#[test]
fn validate_reports_first_violation() {
    let mut c = sample_config();
    c.identity.uuid = "x".to_string();
    c.identity.nickname = "x".to_string();
    c.reporting.report_interval = 0;
    assert!(matches!(c.validate(), Err(ConfigError::InvalidUuid)));
}

#[test]
fn defaults_are_off() {
    assert!(!UiConfig::default().disable_tui);
    let l = LoggingConfig::default();
    assert!(!l.enabled);
    assert!(!l.kernel_activity);
}

#[test]
fn backend_plan_follows_switches() {
    let mut c = sample_config();
    let p = c.backend_plan().unwrap();
    let cpu = p.cpu.expect("cpu enabled");
    assert_eq!((cpu.threads, cpu.chunk_size), (0, 50_000_000));
    assert!(p.gpu.is_none());
    c.compute.use_gpu = true;
    c.compute.gpu_profile = "vulkan".to_string();
    let p = c.backend_plan().unwrap();
    assert!(matches!(p.gpu, Some(Ok(g)) if g.kind == GpuBackendKind::Vulkan));
    c.compute.use_cpu = false;
    c.compute.use_gpu = false;
    match c.backend_plan() {
        Err(e) => assert_eq!(
            e.message(),
            "no compute backend enabled; set use_cpu, use_gpu, or use_amd to true in config.toml"
        ),
        Ok(_) => panic!("no backend must be refused"),
    }
}

const SAMPLE_TOML: &str = "[identity]\nuuid = \"0123456789abcdef\"\nnickname = \"bogo\"\ncode = \"\"\n\n[reporting]\nreport_interval = 1000\n";

#[test]
fn recovery_code_is_written_into_identity() {
    let text = with_recovery_code(SAMPLE_TOML, "XYZ-42").unwrap();
    let doc: toml::Value = toml::from_str(&text).unwrap();
    assert_eq!(doc["identity"]["code"].as_str(), Some("XYZ-42"));
    assert_eq!(doc["identity"]["nickname"].as_str(), Some("bogo"));
    assert_eq!(doc["reporting"]["report_interval"].as_integer(), Some(1000));
    let again = with_recovery_code(&text, "XYZ-42").unwrap();
    assert_eq!(again, text);
}

#[test]
fn recovery_code_needs_toml_with_identity_code() {
    match with_recovery_code("this is [not toml", "c") {
        Err(e) => {
            assert!(matches!(e, ConfigError::UnreadableToml));
            assert_eq!(e.message(), "failed to parse config file as TOML");
        }
        Ok(_) => panic!("bad TOML must be refused"),
    }
    assert!(matches!(with_recovery_code("[server]\nurl = \"x\"\n", "c"), Err(ConfigError::NoIdentityCode)));
    assert!(matches!(with_recovery_code("[identity]\nuuid = \"u\"\n", "c"), Err(ConfigError::NoIdentityCode)));
    assert!(matches!(with_recovery_code("identity = 3\n", "c"), Err(ConfigError::NoIdentityCode)));
}
