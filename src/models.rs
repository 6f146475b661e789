//! The records the engines read and write, and their mathematical views.

use vstd::prelude::*;
use crate::status::{ConflictPolicy, IndexStatus, ItemStatus, JobStatus};

verus! {

/// The view of an optional string.
pub open spec fn opt_view(o: Option<String>) -> Option<Seq<char>> {
    match o {
        Some(s) => Some(s@),
        None => None,
    }
}

/// A copy of an optional string.
pub fn clone_opt(o: &Option<String>) -> (r: Option<String>)
    ensures
        opt_view(r) == opt_view(*o),
{
    match o {
        Some(s) => Some(s.clone()),
        None => None,
    }
}

/// One entry of a listing or of the catalog: an object or a folder.
pub struct S3ObjectEntry {
    pub key: String,
    pub name: String,
    pub size: i64,
    pub last_modified: Option<String>,
    pub etag: Option<String>,
    pub storage_class: Option<String>,
    pub is_folder: bool,
    pub content_type: Option<String>,
}

pub struct EntryView {
    pub key: Seq<char>,
    pub name: Seq<char>,
    pub size: int,
    pub last_modified: Option<Seq<char>>,
    pub etag: Option<Seq<char>>,
    pub storage_class: Option<Seq<char>>,
    pub is_folder: bool,
}

impl View for S3ObjectEntry {
    type V = EntryView;

    open spec fn view(&self) -> EntryView {
        EntryView {
            key: self.key@,
            name: self.name@,
            size: self.size as int,
            last_modified: opt_view(self.last_modified),
            etag: opt_view(self.etag),
            storage_class: opt_view(self.storage_class),
            is_folder: self.is_folder,
        }
    }
}

/// One page of entries with the token that continues it.
pub struct S3ObjectListPage {
    pub entries: Vec<S3ObjectEntry>,
    pub next_continuation_token: Option<String>,
    pub is_truncated: bool,
}

/// A configured S3-compatible endpoint.
pub struct StorageTarget {
    pub id: String,
    pub name: String,
    pub provider: String,
    pub endpoint: String,
    pub region: Option<String>,
    pub force_path_style: bool,
    pub default_bucket: Option<String>,
    pub pinned_buckets: Vec<String>,
    pub skip_destructive_confirmations: bool,
    pub has_credentials: bool,
    pub updated_at: i64,
}

/// The static credentials of a target.
pub struct TargetCredentials {
    pub access_key_id: String,
    pub secret_access_key: String,
    pub session_token: Option<String>,
}

pub struct S3BucketSummary {
    pub name: String,
    pub created_at: Option<i64>,
}

pub struct S3ConnectionResult {
    pub ok: bool,
    pub message: String,
    pub bucket_count: usize,
}

pub struct SyncProfile {
    pub id: String,
    pub name: String,
    pub target_id: String,
    pub local_root_path: String,
    pub bucket: String,
    pub prefix: String,
    pub schedule_interval_minutes: Option<i64>,
    pub conflict_policy: String,
    pub delete_policy: String,
    pub include_globs: Vec<String>,
    pub exclude_globs: Vec<String>,
    pub enabled: bool,
    pub last_run_at: Option<i64>,
    pub next_run_at: Option<i64>,
    pub updated_at: i64,
}

pub struct BucketStats {
    pub object_count: i64,
    pub total_size: i64,
}

pub struct DirectoryFileEntry {
    pub absolute_path: String,
    pub relative_path: String,
    pub size: u64,
}

pub struct TransferQueueItem {
    pub id: String,
    pub direction: String,
    pub target_id: String,
    pub bucket: String,
    pub key: String,
    pub source_path: Option<String>,
    pub destination_path: Option<String>,
    pub total_bytes: Option<i64>,
    pub transferred_bytes: Option<i64>,
    pub status: String,
    pub retry_count: i64,
    pub created_at: i64,
    pub updated_at: i64,
}

/// User preferences.
pub struct AppSettings {
    pub theme: String,
    pub font_size: i64,
    pub date_format: String,
    pub size_format: String,
    pub show_file_icons: bool,
    pub compact_mode: bool,
    pub animate_transitions: bool,
    pub double_click_nav: bool,
    pub show_hidden: bool,
    pub remember_path: bool,
    pub auto_refresh: bool,
    pub confirm_delete: bool,
    pub concurrent_uploads: i64,
    pub concurrent_downloads: i64,
    pub multipart_threshold_mb: i64,
    pub part_size_mb: i64,
    pub auto_retry: bool,
    pub retry_count: i64,
    pub preserve_timestamps: bool,
    pub verify_checksum: bool,
}

impl Default for AppSettings {
    fn default() -> (r: Self)
        ensures
            r.theme@ == "dark"@,
            r.font_size == 12,
            r.date_format@ == "relative"@,
            r.size_format@ == "binary"@,
            r.show_file_icons,
            !r.compact_mode,
            r.animate_transitions,
            r.double_click_nav,
            !r.show_hidden,
            r.remember_path,
            !r.auto_refresh,
            r.confirm_delete,
            r.concurrent_uploads == 3,
            r.concurrent_downloads == 5,
            r.multipart_threshold_mb == 100,
            r.part_size_mb == 8,
            r.auto_retry,
            r.retry_count == 3,
            r.preserve_timestamps,
            r.verify_checksum,
    {
        AppSettings {
            theme: String::from_str("dark"),
            font_size: 12,
            date_format: String::from_str("relative"),
            size_format: String::from_str("binary"),
            show_file_icons: true,
            compact_mode: false,
            animate_transitions: true,
            double_click_nav: true,
            show_hidden: false,
            remember_path: true,
            auto_refresh: false,
            confirm_delete: true,
            concurrent_uploads: 3,
            concurrent_downloads: 5,
            multipart_threshold_mb: 100,
            part_size_mb: 8,
            auto_retry: true,
            retry_count: 3,
            preserve_timestamps: true,
            verify_checksum: true,
        }
    }
}

/// A clone job: what to copy where, and how far it has got.
pub struct CloneJob {
    pub id: String,
    pub status: JobStatus,
    pub source_target_id: String,
    pub source_bucket: String,
    pub source_prefix: String,
    pub dest_target_id: String,
    pub dest_bucket: String,
    pub dest_prefix: String,
    pub conflict_policy: ConflictPolicy,
    pub is_same_target: bool,
    pub enumeration_token: Option<String>,
    pub enumeration_complete: bool,
    pub total_items: i64,
    pub completed_items: i64,
    pub failed_items: i64,
    pub skipped_items: i64,
    pub total_bytes: i64,
    pub transferred_bytes: i64,
    pub created_at: i64,
    pub updated_at: i64,
    pub completed_at: Option<i64>,
}

/// One object to copy within a clone job.
pub struct CloneJobItem {
    pub id: String,
    pub job_id: String,
    pub source_key: String,
    pub dest_key: String,
    pub size: i64,
    pub source_etag: Option<String>,
    pub source_last_modified: Option<String>,
    pub status: ItemStatus,
    pub error_message: Option<String>,
    pub retry_count: i64,
    pub created_at: i64,
    pub updated_at: i64,
}

pub struct ItemView {
    pub id: Seq<char>,
    pub job_id: Seq<char>,
    pub source_key: Seq<char>,
    pub dest_key: Seq<char>,
    pub size: int,
    pub source_etag: Option<Seq<char>>,
    pub source_last_modified: Option<Seq<char>>,
    pub status: ItemStatus,
    pub error_message: Option<Seq<char>>,
    pub retry_count: int,
    pub created_at: int,
    pub updated_at: int,
}

impl View for CloneJobItem {
    type V = ItemView;

    open spec fn view(&self) -> ItemView {
        ItemView {
            id: self.id@,
            job_id: self.job_id@,
            source_key: self.source_key@,
            dest_key: self.dest_key@,
            size: self.size as int,
            source_etag: opt_view(self.source_etag),
            source_last_modified: opt_view(self.source_last_modified),
            status: self.status,
            error_message: opt_view(self.error_message),
            retry_count: self.retry_count as int,
            created_at: self.created_at as int,
            updated_at: self.updated_at as int,
        }
    }
}

impl CloneJobItem {
    /// A copy of the item.
    pub fn duplicate(&self) -> (r: CloneJobItem)
        ensures
            r@ == self@,
    {
        CloneJobItem {
            id: self.id.clone(),
            job_id: self.job_id.clone(),
            source_key: self.source_key.clone(),
            dest_key: self.dest_key.clone(),
            size: self.size,
            source_etag: clone_opt(&self.source_etag),
            source_last_modified: clone_opt(&self.source_last_modified),
            status: self.status,
            error_message: clone_opt(&self.error_message),
            retry_count: self.retry_count,
            created_at: self.created_at,
            updated_at: self.updated_at,
        }
    }
}

/// The persisted state of a bucket's index.
pub struct BucketIndexState {
    pub target_id: String,
    pub bucket: String,
    pub status: IndexStatus,
    pub total_objects: i64,
    pub indexed_objects: i64,
    pub total_size: i64,
    pub continuation_token: Option<String>,
    pub last_indexed_at: Option<i64>,
    pub created_at: i64,
    pub updated_at: i64,
}

/// One catalog row: an object, or a folder (real marker or synthesized).
pub struct BucketIndexObject {
    pub target_id: String,
    pub bucket: String,
    pub key: String,
    pub parent_prefix: String,
    pub name: String,
    pub is_folder: bool,
    pub size: i64,
    pub last_modified: Option<String>,
    pub etag: Option<String>,
    pub storage_class: Option<String>,
}

pub struct RowView {
    pub target_id: Seq<char>,
    pub bucket: Seq<char>,
    pub key: Seq<char>,
    pub parent_prefix: Seq<char>,
    pub name: Seq<char>,
    pub is_folder: bool,
    pub size: int,
    pub last_modified: Option<Seq<char>>,
    pub etag: Option<Seq<char>>,
    pub storage_class: Option<Seq<char>>,
}

impl View for BucketIndexObject {
    type V = RowView;

    open spec fn view(&self) -> RowView {
        RowView {
            target_id: self.target_id@,
            bucket: self.bucket@,
            key: self.key@,
            parent_prefix: self.parent_prefix@,
            name: self.name@,
            is_folder: self.is_folder,
            size: self.size as int,
            last_modified: opt_view(self.last_modified),
            etag: opt_view(self.etag),
            storage_class: opt_view(self.storage_class),
        }
    }
}

/// One object as a listing call reports it.
pub struct ListedObject {
    pub key: Option<String>,
    pub size: Option<i64>,
    pub last_modified: Option<String>,
    pub etag: Option<String>,
    pub storage_class: Option<String>,
}

pub struct ListedView {
    pub key: Seq<char>,
    pub size: int,
    pub last_modified: Option<Seq<char>>,
    pub etag: Option<Seq<char>>,
    pub storage_class: Option<Seq<char>>,
}

impl View for ListedObject {
    type V = ListedView;

    /// A missing key reads as empty and a missing size as 0.
    open spec fn view(&self) -> ListedView {
        ListedView {
            key: match self.key {
                Some(k) => k@,
                None => Seq::empty(),
            },
            size: match self.size {
                Some(n) => n as int,
                None => 0,
            },
            last_modified: opt_view(self.last_modified),
            etag: opt_view(self.etag),
            storage_class: opt_view(self.storage_class),
        }
    }
}

/// Progress of a clone job as the caller sees it.
pub struct CloneProgressEvent {
    pub job_id: String,
    pub status: JobStatus,
    pub total_items: i64,
    pub completed_items: i64,
    pub failed_items: i64,
    pub skipped_items: i64,
    pub total_bytes: i64,
    pub transferred_bytes: i64,
    pub current_key: Option<String>,
}

/// Progress of an index run as the caller sees it.
pub struct IndexProgressEvent {
    pub target_id: String,
    pub bucket: String,
    pub status: IndexStatus,
    pub indexed_objects: i64,
    pub total_size: i64,
}

} // verus!
