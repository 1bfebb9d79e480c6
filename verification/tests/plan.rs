use xybrid::plan::{
    download_total_fits, pipeline_display_name, summarize_plan, DownloadNote, OfflineStatus, PlanSummary, StageStatus,
};

#[test]
fn all_cached_pipeline_runs_offline() {
    let s = summarize_plan(&vec![StageStatus::Cached, StageStatus::Cached]);
    assert_eq!(s, PlanSummary { total_download_bytes: 0, all_cached: true, requires_network: false });
    assert_eq!(s.offline_status(), OfflineStatus::Capable);
    assert_eq!(s.download_note(), DownloadNote::AllCached);
}

#[test]
fn missing_models_add_up() {
    let s = summarize_plan(&vec![
        StageStatus::NotCached { size_bytes: 1000 },
        StageStatus::Cached,
        StageStatus::NotCached { size_bytes: 24 },
    ]);
    assert_eq!(s.total_download_bytes, 1024);
    assert!(!s.all_cached);
    assert_eq!(s.offline_status(), OfflineStatus::NeedsDownload);
    assert_eq!(s.download_note(), DownloadNote::Bytes(1024));
}

#[test]
fn cloud_stage_needs_network() {
    let s = summarize_plan(&vec![StageStatus::Cloud, StageStatus::Cached]);
    assert!(s.requires_network);
    assert!(s.all_cached);
    assert_eq!(s.offline_status(), OfflineStatus::NeedsNetwork);
    assert_eq!(s.download_note(), DownloadNote::AllCached);
}

#[test]
fn failed_checks_are_not_cached() {
    let s = summarize_plan(&vec![StageStatus::ResolveFailed, StageStatus::CacheCheckFailed]);
    assert_eq!(s, PlanSummary { total_download_bytes: 0, all_cached: false, requires_network: false });
    assert_eq!(s.offline_status(), OfflineStatus::NeedsDownload);
    assert_eq!(s.download_note(), DownloadNote::Silent);
}

#[test]
fn empty_pipeline_is_offline_capable() {
    let s = summarize_plan(&Vec::new());
    assert_eq!(s.offline_status(), OfflineStatus::Capable);
}

#[test]
fn display_name_falls_back() {
    assert_eq!(pipeline_display_name(Some("voice".to_string()), Some("file".to_string())), "voice");
    assert_eq!(pipeline_display_name(None, Some("file".to_string())), "file");
    assert_eq!(pipeline_display_name(None, None), "pipeline");
}

#[test]
fn download_total_overflow_detected() {
    assert!(download_total_fits(&vec![StageStatus::NotCached { size_bytes: u64::MAX }, StageStatus::Cached]));
    assert!(!download_total_fits(&vec![
        StageStatus::NotCached { size_bytes: u64::MAX },
        StageStatus::NotCached { size_bytes: 1 },
    ]));
    assert!(download_total_fits(&Vec::new()));
}
