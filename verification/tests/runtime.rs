use ullam::text::TextBlock;
use ullam::fixed_bytes::{fixed_bytes, FixedBytesError, JsonBytes, JsonItem};
use ullam::analysis::{CausalRelevance, EvidenceStrength, IssueImportance};
use ullam::aggregate::{Coverage, ObservationCategory, PhaseType, Severity};
use ullam::text::join_strings;
use ullam::runtime::{
    arch_flag, check_is_gguf, download_progress_due, first_prerelease, gpu_flag, os_flag,
    release_path, release_path_segments, release_query, release_url, select_release_asset,
    server_binary_name, ReleaseUrlError,
    should_log_progress, readiness_step, BetterIoError, ChunkProgressLogger, Model, Readiness, TargetArch, TargetOs,
    READY_TIMEOUT_SECS, TEN_MB,
};
use ullam::time::Duration;

fn strings(items: &[&str]) -> Vec<String> {
    items.iter().map(|s| s.to_string()).collect()
}

#[test]
fn gguf_names() {
    assert!(check_is_gguf("model.gguf").is_ok());
    assert!(check_is_gguf(".gguf").is_ok());
    assert!(check_is_gguf("model.GGUF").is_err());
    assert!(check_is_gguf("model.gguf.bin").is_err());
    assert!(check_is_gguf("gguf").is_err());
    let _ = Model::HuggingFace { model: "m.gguf".to_string(), owner: "o".to_string(), repo: "r".to_string() };
    let _ = Model::Local(std::path::PathBuf::from("/tmp/m.gguf"));
}

#[test]
fn progress_logging_thresholds() {
    assert!(!should_log_progress(TEN_MB - 1, 0, 0));
    assert!(should_log_progress(TEN_MB, 0, 0));
    assert!(should_log_progress(5, 5, 0));
    assert!(!should_log_progress(4, 5, 0));
    assert!(should_log_progress(TEN_MB + 7, 100 * TEN_MB, 7));
    assert!(!should_log_progress(TEN_MB + 6, 100 * TEN_MB, 7));
    assert!(download_progress_due(0, 10));
    assert!(download_progress_due(2 * 1024 * 1024, 10 * 1024 * 1024));
    assert!(download_progress_due(10, 10));
    assert!(!download_progress_due(11, 10));
}

#[test]
fn release_flags() {
    assert_eq!(gpu_flag(true, &TargetOs::Windows, &TargetArch::X86_64), "cuda-13.1");
    assert_eq!(gpu_flag(false, &TargetOs::Windows, &TargetArch::X86_64), "hip");
    assert_eq!(gpu_flag(true, &TargetOs::Linux, &TargetArch::X86_64), "vulkan");
    assert_eq!(gpu_flag(false, &TargetOs::MacOs, &TargetArch::Aarch64), "");
    assert_eq!(arch_flag(&TargetArch::X86_64), "x64");
    assert_eq!(arch_flag(&TargetArch::Aarch64), "arm64");
    assert_eq!(os_flag(&TargetOs::Linux), "ubuntu");
    assert_eq!(os_flag(&TargetOs::MacOs), "macos");
    assert_eq!(os_flag(&TargetOs::Windows), "win");
    assert_eq!(server_binary_name(&TargetOs::Windows), "llama-server.exe");
    assert_eq!(server_binary_name(&TargetOs::Linux), "llama-server");
}

#[test]
fn release_asset_selection() {
    let names = strings(&[
        "llama-b1-bin-ubuntu-x64.zip",
        "llama-b1-bin-ubuntu-vulkan-arm64.tar.gz",
        "llama-b1-bin-ubuntu-vulkan-x64.tar.gz",
        "llama-b1-bin-ubuntu-vulkan-x64-2.tar.gz",
    ]);
    assert_eq!(select_release_asset(&names, "vulkan", "x64", "ubuntu"), Some(2));
    assert_eq!(select_release_asset(&names, "", "x64", "ubuntu"), Some(0));
    assert_eq!(select_release_asset(&names, "cuda", "x64", "win"), None);
    assert_eq!(select_release_asset(&vec![], "", "", ""), None);
}

#[test]
fn release_endpoint_paths() {
    let segs = release_path_segments(strings(&["repos", "ggml-org", "llama.cpp", "releases", "latest"]), false);
    assert_eq!(segs, strings(&["repos", "ggml-org", "llama.cpp", "releases", "latest"]));
    let segs = release_path_segments(strings(&["repos", "o", "r", "releases", "latest", ""]), true);
    assert_eq!(segs, strings(&["repos", "o", "r", "releases"]));
    let segs = release_path_segments(strings(&["repos", "o", "r"]), false);
    assert_eq!(segs, strings(&["repos", "o", "r", "releases", "latest"]));
    let segs = release_path_segments(vec![], true);
    assert_eq!(segs, strings(&["releases"]));
    assert_eq!(release_path(strings(&["repos", "o", "r", "latest"]), true), "repos/o/r/releases");
    assert_eq!(release_query(true), Some("per_page=1"));
    assert_eq!(release_query(false), None);
    assert_eq!(first_prerelease(&vec![false, true, true]), Some(1));
    assert_eq!(first_prerelease(&vec![false]), None);
}

#[test]
fn release_endpoint_urls() {
    let base = "https://api.github.com/repos/ggml-org/llama.cpp/releases/latest";
    match release_url(base, true) {
        Ok(url) => assert_eq!(url, "https://api.github.com/repos/ggml-org/llama.cpp/releases?per_page=1"),
        Err(_) => panic!("a valid URL was refused"),
    }
    match release_url(base, false) {
        Ok(url) => assert_eq!(url, "https://api.github.com/repos/ggml-org/llama.cpp/releases/latest"),
        Err(_) => panic!("a valid URL was refused"),
    }
    match release_url("https://api.github.com/repos/o/r?per_page=5", false) {
        Ok(url) => assert_eq!(url, "https://api.github.com/repos/o/r/releases/latest"),
        Err(_) => panic!("a valid URL was refused"),
    }
    match release_url("https://api.github.com/repos/o/r/", true) {
        Ok(url) => assert_eq!(url, "https://api.github.com/repos/o/r/releases?per_page=1"),
        Err(_) => panic!("a valid URL was refused"),
    }
    assert!(matches!(release_url("not a url", true), Err(ReleaseUrlError::InvalidUrl)));
    assert!(matches!(release_url("", false), Err(ReleaseUrlError::InvalidUrl)));
}

#[test]
fn io_error_keeps_its_parts() {
    let e = BetterIoError::new(
        std::path::PathBuf::from("/tmp/x"),
        "opening",
        std::io::Error::new(std::io::ErrorKind::NotFound, "gone"),
    );
    assert_eq!(e.location, std::path::PathBuf::from("/tmp/x"));
    assert_eq!(e.context, "opening");
    assert_eq!(e.error.kind(), std::io::ErrorKind::NotFound);
}

#[test]
fn report_names() {
    assert_eq!(PhaseType::Preflight.as_str(), "preflight");
    assert_eq!(PhaseType::Maneuver.as_str(), "maneuver");
    assert_eq!(Severity::Critical.as_str(), "critical");
    assert_eq!(ObservationCategory::Gps.as_str(), "gps");
    assert_eq!(ObservationCategory::Other.as_str(), "other");
    assert_eq!(EvidenceStrength::Moderate.as_str(), "moderate");
    assert_eq!(IssueImportance::Important.as_str(), "important");
    assert_eq!(CausalRelevance::ContributingFactor.as_str(), "contributing factor");
    assert_eq!(CausalRelevance::LikelyCause.as_str(), "likely cause");
}

#[test]
fn coverage_rendering() {
    let c = Coverage { available_messages: strings(&["ATT", "GPS"]), missing_messages: vec![] };
    assert_eq!(c.render(), "  available=ATT,GPS\n");
    let c = Coverage { available_messages: vec![], missing_messages: strings(&["RCIN", "BAT", "X"]) };
    assert_eq!(c.render(), "  available=\n  missing=RCIN,BAT,X\n");
    assert_eq!(join_strings(&strings(&["a"]), "; "), "a");
    assert_eq!(join_strings(&strings(&["a", "", "c"]), "; "), "a; ; c");
}

#[test]
fn fixed_bytes_from_text_and_arrays() {
    assert_eq!(fixed_bytes(JsonBytes::Text("AB".to_string()), 4).ok(), Some(vec![65, 66, 0, 0]));
    assert_eq!(fixed_bytes(JsonBytes::Text("é".to_string()), 2).ok(), Some(vec![0xc3, 0xa9]));
    assert!(fixed_bytes(JsonBytes::Text("ABC".to_string()), 2) == Err(FixedBytesError::TooLong));
    let items = vec![JsonItem::Unsigned(1), JsonItem::Unsigned(255)];
    assert_eq!(fixed_bytes(JsonBytes::Items(items), 3).ok(), Some(vec![1, 255, 0]));
    let items = vec![JsonItem::Unsigned(1), JsonItem::Unsigned(256), JsonItem::NotUnsigned];
    assert!(fixed_bytes(JsonBytes::Items(items), 3) == Err(FixedBytesError::OutOfRange));
    let items = vec![JsonItem::NotUnsigned, JsonItem::Unsigned(256)];
    assert!(fixed_bytes(JsonBytes::Items(items), 3) == Err(FixedBytesError::NonByte));
    assert!(fixed_bytes(JsonBytes::Other, 3) == Err(FixedBytesError::NotBytes));
    assert_eq!(FixedBytesError::TooLong.message(), "fixed byte value is too long");
    assert_eq!(fixed_bytes(JsonBytes::Items(vec![]), 0).ok(), Some(vec![]));
}

#[test]
fn readiness_steps() {
    let timeout = Duration::from_secs(READY_TIMEOUT_SECS);
    assert!(matches!(readiness_step(&Duration::from_secs(0), &timeout, false), Readiness::Ask));
    assert!(matches!(readiness_step(&Duration::from_millis(59_999), &timeout, false), Readiness::Ask));
    assert!(matches!(readiness_step(&Duration::from_secs(60), &timeout, false), Readiness::GiveUp));
    assert!(matches!(readiness_step(&Duration::from_secs(61), &timeout, true), Readiness::Settle));
    assert!(matches!(readiness_step(&Duration::from_secs(1), &timeout, true), Readiness::Settle));
}

#[test]
fn progress_logger_keeps_its_last_report() {
    let mut logger = ChunkProgressLogger::new();
    assert!(!logger.check_and_log(TEN_MB - 1, 0));
    assert_eq!(logger.last_logged_bytes, 0);
    assert!(logger.check_and_log(TEN_MB + 5, 0));
    assert_eq!(logger.last_logged_bytes, TEN_MB + 5);
    assert!(!logger.check_and_log(2 * TEN_MB, 0));
    assert!(logger.check_and_log(2 * TEN_MB + 5, 0));
    assert!(logger.check_and_log(2 * TEN_MB + 6, 2 * TEN_MB + 6));
    assert_eq!(logger.last_logged_bytes, 2 * TEN_MB + 6);
}

#[test]
fn release_paths_settle_after_one_rewrite() {
    for prerelease in [true, false] {
        for segs in [strings(&["repos", "o", "r"]), strings(&["repos", "o", "r", "releases", ""]), vec![]] {
            let once = release_path_segments(segs, prerelease);
            let twice = release_path_segments(once.clone(), prerelease);
            assert_eq!(once, twice);
        }
    }
}

#[test]
fn byte_arrays_read_back_unchanged() {
    for bytes in [vec![], vec![0u8, 255, 7], vec![b'A'; 4]] {
        let items = JsonBytes::Items(bytes.iter().map(|b| JsonItem::Unsigned(*b as u64)).collect());
        assert!(matches!(fixed_bytes(items, bytes.len()), Ok(v) if v == bytes));
    }
}
