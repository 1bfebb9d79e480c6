//! Execution plan of a pipeline: what must be downloaded before it runs and
//! whether it can run offline.
use vstd::prelude::*;

verus! {

/// What was found out about a stage of a pipeline.
#[derive(Debug, Clone, Copy, PartialEq, Eq, Structural)]
pub enum StageStatus {
    /// The stage runs in the cloud and needs the network.
    Cloud,
    /// The stage's model could not be resolved in the registry.
    ResolveFailed,
    /// The model was resolved, but whether it is cached could not be told.
    CacheCheckFailed,
    /// The model is in the local cache.
    Cached,
    /// The model must be downloaded: `size_bytes` of it.
    NotCached { size_bytes: u64 },
}

/// A device stage that keeps the pipeline from having all its models cached.
pub open spec fn lacks_cached_model(s: StageStatus) -> bool {
    s is ResolveFailed || s is CacheCheckFailed || s is NotCached
}

/// Bytes that a stage needs downloaded.
pub open spec fn download_of(s: StageStatus) -> nat {
    match s {
        StageStatus::NotCached { size_bytes } => size_bytes as nat,
        _ => 0,
    }
}

/// Bytes that the stages need downloaded, all together.
pub open spec fn download_total(stages: Seq<StageStatus>) -> nat
    decreases stages.len(),
{
    if stages.len() == 0 {
        0
    } else {
        download_total(stages.drop_last()) + download_of(stages.last())
    }
}

/// Every device stage has its model cached.
pub open spec fn every_model_cached(stages: Seq<StageStatus>) -> bool {
    forall|i: int| 0 <= i < stages.len() ==> !lacks_cached_model(#[trigger] stages[i])
}

/// Some stage runs in the cloud.
pub open spec fn some_cloud_stage(stages: Seq<StageStatus>) -> bool {
    exists|i: int| 0 <= i < stages.len() && #[trigger] stages[i] is Cloud
}

/// Whether a pipeline can run without the network.
#[derive(Debug, Clone, Copy, PartialEq, Eq, Structural)]
pub enum OfflineStatus {
    /// No stage needs the network and every model is cached.
    Capable,
    /// Some stage runs in the cloud.
    NeedsNetwork,
    /// Some model still has to be downloaded (or could not be checked).
    NeedsDownload,
}

/// What the plan says about downloading.
#[derive(Debug, Clone, Copy, PartialEq, Eq, Structural)]
pub enum DownloadNote {
    /// This many bytes must be downloaded.
    Bytes(u64),
    /// Nothing to download: every model is cached.
    AllCached,
    /// Nothing is said.
    Silent,
}

/// The totals of a plan.
#[derive(Debug, Clone, Copy, PartialEq, Eq, Structural)]
pub struct PlanSummary {
    pub total_download_bytes: u64,
    pub all_cached: bool,
    pub requires_network: bool,
}

proof fn lemma_download_total_prefix(stages: Seq<StageStatus>, i: int)
    requires
        0 <= i <= stages.len(),
    ensures
        download_total(stages.take(i)) <= download_total(stages),
    decreases stages.len(),
{
    if i < stages.len() {
        assert(stages.drop_last().take(i) =~= stages.take(i));
        lemma_download_total_prefix(stages.drop_last(), i);
    } else {
        assert(stages.take(i) =~= stages);
    }
}

/// Adds up what the stages of a pipeline need: the bytes to download (of the
/// models that are not cached), whether every device stage has its model
/// cached, and whether some stage runs in the cloud.
pub fn summarize_plan(stages: &Vec<StageStatus>) -> (summary: PlanSummary)
    requires
        download_total(stages@) <= u64::MAX,
    ensures
        summary.total_download_bytes == download_total(stages@),
        summary.all_cached == every_model_cached(stages@),
        summary.requires_network == some_cloud_stage(stages@),
{
    let mut total: u64 = 0;
    let mut all_cached = true;
    let mut requires_network = false;
    let mut i: usize = 0;
    while i < stages.len()
        invariant
            i <= stages.len(),
            download_total(stages@) <= u64::MAX,
            total == download_total(stages@.take(i as int)),
            all_cached == every_model_cached(stages@.take(i as int)),
            requires_network == some_cloud_stage(stages@.take(i as int)),
        decreases stages.len() - i,
    {
        let ghost pre = stages@.take(i as int);
        let ghost post = stages@.take(i + 1);
        proof {
            assert(post.drop_last() =~= pre);
            assert(post.last() == stages@[i as int]);
            lemma_download_total_prefix(stages@, i + 1);
            assert forall|k: int| 0 <= k < i implies pre[k] == post[k] by {}
            if some_cloud_stage(pre) {
                let k = choose|k: int| 0 <= k < pre.len() && #[trigger] pre[k] is Cloud;
                assert(post[k] is Cloud);
            }
            if stages@[i as int] is Cloud {
                assert(post[i as int] is Cloud);
            }
            if !every_model_cached(pre) {
                let k = choose|k: int| 0 <= k < pre.len() && lacks_cached_model(#[trigger] pre[k]);
                assert(lacks_cached_model(post[k]));
            }
            if lacks_cached_model(stages@[i as int]) {
                assert(lacks_cached_model(post[i as int]));
            }
        }
        match stages[i] {
            StageStatus::Cloud => {
                requires_network = true;
            },
            StageStatus::ResolveFailed => {
                all_cached = false;
            },
            StageStatus::CacheCheckFailed => {
                all_cached = false;
            },
            StageStatus::Cached => {},
            StageStatus::NotCached { size_bytes } => {
                total = total + size_bytes;
                all_cached = false;
            },
        }
        i = i + 1;
    }
    assert(stages@.take(stages.len() as int) =~= stages@);
    PlanSummary { total_download_bytes: total, all_cached, requires_network }
}

/// Whether the bytes to download, all together, fit in a `u64` (when they do
/// not, adding them up overflows).
pub fn download_total_fits(stages: &Vec<StageStatus>) -> (fits: bool)
    ensures
        fits == (download_total(stages@) <= u64::MAX),
{
    let mut total: u64 = 0;
    let mut i: usize = 0;
    while i < stages.len()
        invariant
            i <= stages.len(),
            total == download_total(stages@.take(i as int)),
        decreases stages.len() - i,
    {
        proof {
            assert(stages@.take(i + 1).drop_last() =~= stages@.take(i as int));
            assert(stages@.take(i + 1).last() == stages@[i as int]);
        }
        match stages[i] {
            StageStatus::NotCached { size_bytes } => {
                match total.checked_add(size_bytes) {
                    Some(t) => {
                        total = t;
                    },
                    None => {
                        proof {
                            lemma_download_total_prefix(stages@, i + 1);
                        }
                        return false;
                    },
                }
            },
            _ => {},
        }
        i = i + 1;
    }
    assert(stages@.take(stages.len() as int) =~= stages@);
    true
}

/// Whether the summed-up pipeline can run offline.
pub open spec fn offline_status_of(s: PlanSummary) -> OfflineStatus {
    if !s.requires_network && s.all_cached {
        OfflineStatus::Capable
    } else if s.requires_network {
        OfflineStatus::NeedsNetwork
    } else {
        OfflineStatus::NeedsDownload
    }
}

/// What the summed-up plan says about downloading.
pub open spec fn download_note_of(s: PlanSummary) -> DownloadNote {
    if s.total_download_bytes > 0 {
        DownloadNote::Bytes(s.total_download_bytes)
    } else if s.all_cached {
        DownloadNote::AllCached
    } else {
        DownloadNote::Silent
    }
}

impl PlanSummary {
    /// Whether the pipeline can run offline, and if not, why.
    pub fn offline_status(&self) -> (status: OfflineStatus)
        ensures
            status == offline_status_of(*self),
    {
        if !self.requires_network && self.all_cached {
            OfflineStatus::Capable
        } else if self.requires_network {
            OfflineStatus::NeedsNetwork
        } else {
            OfflineStatus::NeedsDownload
        }
    }

    /// What to say about downloading.
    pub fn download_note(&self) -> (note: DownloadNote)
        ensures
            note == download_note_of(*self),
    {
        if self.total_download_bytes > 0 {
            DownloadNote::Bytes(self.total_download_bytes)
        } else if self.all_cached {
            DownloadNote::AllCached
        } else {
            DownloadNote::Silent
        }
    }
}

/// The name a plan is shown under: the pipeline's own name, else the stem of
/// its file name, else "pipeline".
pub fn pipeline_display_name(name: Option<String>, file_stem: Option<String>) -> (shown: String)
    ensures
        shown@ == match name {
            Some(n) => n@,
            None => match file_stem {
                Some(f) => f@,
                None => "pipeline"@,
            },
        },
{
    match name {
        Some(n) => n,
        None => match file_stem {
            Some(f) => f,
            None => String::from_str("pipeline"),
        },
    }
}

/// A pipeline can run offline exactly when every one of its stages has its
/// model in the local cache (no cloud stage, no model missing or unchecked).
pub proof fn law_offline_iff_every_stage_cached(stages: Seq<StageStatus>, summary: PlanSummary)
    requires
        summary.total_download_bytes == download_total(stages),
        summary.all_cached == every_model_cached(stages),
        summary.requires_network == some_cloud_stage(stages),
    ensures
        (offline_status_of(summary) == OfflineStatus::Capable) <==> (forall|i: int|
            0 <= i < stages.len() ==> #[trigger] stages[i] is Cached),
        (offline_status_of(summary) == OfflineStatus::NeedsNetwork) <==> some_cloud_stage(stages),
{
    if forall|i: int| 0 <= i < stages.len() ==> #[trigger] stages[i] is Cached {
        assert(!some_cloud_stage(stages));
    }
    if offline_status_of(summary) == OfflineStatus::Capable {
        assert forall|i: int| 0 <= i < stages.len() implies #[trigger] stages[i] is Cached by {
            assert(!lacks_cached_model(stages[i]));
            if stages[i] is Cloud {
                assert(some_cloud_stage(stages));
            }
        }
    }
}

/// When every model is cached there is nothing to download, and the plan
/// says so.
pub proof fn law_all_cached_downloads_nothing(stages: Seq<StageStatus>)
    requires
        every_model_cached(stages),
    ensures
        download_total(stages) == 0,
    decreases stages.len(),
{
    if stages.len() > 0 {
        let prefix = stages.drop_last();
        assert forall|i: int| 0 <= i < prefix.len() implies !lacks_cached_model(
            #[trigger] prefix[i],
        ) by {
            assert(prefix[i] == stages[i]);
        }
        law_all_cached_downloads_nothing(prefix);
        assert(!lacks_cached_model(stages[stages.len() - 1]));
    }
}

/// Whenever anything is to be downloaded the plan says how much, whether or
/// not some stage runs in the cloud; with nothing to download it says that
/// all is cached exactly when every device stage has its model cached, and
/// says nothing otherwise.
pub proof fn law_download_note_reports_any_download(stages: Seq<StageStatus>, summary: PlanSummary)
    requires
        summary.total_download_bytes == download_total(stages),
        summary.all_cached == every_model_cached(stages),
        summary.requires_network == some_cloud_stage(stages),
    ensures
        download_total(stages) > 0 ==> download_note_of(summary) == DownloadNote::Bytes(
            summary.total_download_bytes,
        ),
        download_total(stages) == 0 && every_model_cached(stages) ==> download_note_of(summary)
            == DownloadNote::AllCached,
        download_total(stages) == 0 && !every_model_cached(stages) ==> download_note_of(summary)
            == DownloadNote::Silent,
        (forall|i: int| 0 <= i < stages.len() ==> #[trigger] stages[i] is Cached || stages[i] is Cloud)
            ==> download_note_of(summary) == DownloadNote::AllCached,
{
    if forall|i: int| 0 <= i < stages.len() ==> #[trigger] stages[i] is Cached || stages[i] is Cloud {
        assert forall|i: int| 0 <= i < stages.len() implies !lacks_cached_model(#[trigger] stages[i]) by {
            assert(stages[i] is Cached || stages[i] is Cloud);
        }
        law_all_cached_downloads_nothing(stages);
    }
}

} // verus!
