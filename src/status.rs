//! The closed sets of states and policies that jobs, items and index runs
//! move through, with their stored names.

use vstd::prelude::*;
use crate::text::str_eq;

verus! {

/// Where a clone job stands.
#[derive(Clone, Copy, Debug, PartialEq, Eq, Structural)]
pub enum JobStatus {
    Pending,
    Enumerating,
    Running,
    Paused,
    Cancelled,
    Completed,
    Failed,
}

/// Where one item of a clone job stands.
#[derive(Clone, Copy, Debug, PartialEq, Eq, Structural)]
pub enum ItemStatus {
    Pending,
    Active,
    Completed,
    Skipped,
    Failed,
}

/// What to do when the destination already holds the key.
#[derive(Clone, Copy, Debug, PartialEq, Eq, Structural)]
pub enum ConflictPolicy {
    Overwrite,
    Skip,
    OverwriteIfNewer,
}

/// Where the index of one bucket stands.
#[derive(Clone, Copy, Debug, PartialEq, Eq, Structural)]
pub enum IndexStatus {
    Idle,
    Indexing,
    Error,
}

pub open spec fn job_status_name(s: JobStatus) -> Seq<char> {
    match s {
        JobStatus::Pending => "pending"@,
        JobStatus::Enumerating => "enumerating"@,
        JobStatus::Running => "running"@,
        JobStatus::Paused => "paused"@,
        JobStatus::Cancelled => "cancelled"@,
        JobStatus::Completed => "completed"@,
        JobStatus::Failed => "failed"@,
    }
}

pub open spec fn item_status_name(s: ItemStatus) -> Seq<char> {
    match s {
        ItemStatus::Pending => "pending"@,
        ItemStatus::Active => "active"@,
        ItemStatus::Completed => "completed"@,
        ItemStatus::Skipped => "skipped"@,
        ItemStatus::Failed => "failed"@,
    }
}

pub open spec fn index_status_name(s: IndexStatus) -> Seq<char> {
    match s {
        IndexStatus::Idle => "idle"@,
        IndexStatus::Indexing => "indexing"@,
        IndexStatus::Error => "error"@,
    }
}

/// The policy a stored name selects; any name but `skip` and
/// `overwriteIfNewer` means overwrite.
pub open spec fn conflict_policy_of(name: Seq<char>) -> ConflictPolicy {
    if name == "skip"@ {
        ConflictPolicy::Skip
    } else if name == "overwriteIfNewer"@ {
        ConflictPolicy::OverwriteIfNewer
    } else {
        ConflictPolicy::Overwrite
    }
}

/// A terminal status ends the job: nothing moves it further in a run.
pub open spec fn is_terminal(s: JobStatus) -> bool {
    s == JobStatus::Completed || s == JobStatus::Failed || s == JobStatus::Cancelled
}

impl JobStatus {
    /// The stored name of the status.
    pub fn as_str(&self) -> (r: &'static str)
        ensures
            r@ == job_status_name(*self),
    {
        match self {
            JobStatus::Pending => "pending",
            JobStatus::Enumerating => "enumerating",
            JobStatus::Running => "running",
            JobStatus::Paused => "paused",
            JobStatus::Cancelled => "cancelled",
            JobStatus::Completed => "completed",
            JobStatus::Failed => "failed",
        }
    }

    /// The status with the stored name `s`, if any.
    pub fn parse(s: &str) -> (r: Option<JobStatus>)
        ensures
            match r {
                Some(st) => job_status_name(st) == s@,
                None => forall|st: JobStatus| job_status_name(st) != s@,
            },
    {
        if str_eq(s, "pending") {
            Some(JobStatus::Pending)
        } else if str_eq(s, "enumerating") {
            Some(JobStatus::Enumerating)
        } else if str_eq(s, "running") {
            Some(JobStatus::Running)
        } else if str_eq(s, "paused") {
            Some(JobStatus::Paused)
        } else if str_eq(s, "cancelled") {
            Some(JobStatus::Cancelled)
        } else if str_eq(s, "completed") {
            Some(JobStatus::Completed)
        } else if str_eq(s, "failed") {
            Some(JobStatus::Failed)
        } else {
            assert forall|st: JobStatus| job_status_name(st) != s@ by {
                match st {
                    JobStatus::Pending => {},
                    JobStatus::Enumerating => {},
                    JobStatus::Running => {},
                    JobStatus::Paused => {},
                    JobStatus::Cancelled => {},
                    JobStatus::Completed => {},
                    JobStatus::Failed => {},
                }
            }
            None
        }
    }
}

impl ItemStatus {
    /// The stored name of the status.
    pub fn as_str(&self) -> (r: &'static str)
        ensures
            r@ == item_status_name(*self),
    {
        match self {
            ItemStatus::Pending => "pending",
            ItemStatus::Active => "active",
            ItemStatus::Completed => "completed",
            ItemStatus::Skipped => "skipped",
            ItemStatus::Failed => "failed",
        }
    }

    /// The status with the stored name `s`, if any.
    pub fn parse(s: &str) -> (r: Option<ItemStatus>)
        ensures
            match r {
                Some(st) => item_status_name(st) == s@,
                None => forall|st: ItemStatus| item_status_name(st) != s@,
            },
    {
        if str_eq(s, "pending") {
            Some(ItemStatus::Pending)
        } else if str_eq(s, "active") {
            Some(ItemStatus::Active)
        } else if str_eq(s, "completed") {
            Some(ItemStatus::Completed)
        } else if str_eq(s, "skipped") {
            Some(ItemStatus::Skipped)
        } else if str_eq(s, "failed") {
            Some(ItemStatus::Failed)
        } else {
            assert forall|st: ItemStatus| item_status_name(st) != s@ by {
                match st {
                    ItemStatus::Pending => {},
                    ItemStatus::Active => {},
                    ItemStatus::Completed => {},
                    ItemStatus::Skipped => {},
                    ItemStatus::Failed => {},
                }
            }
            None
        }
    }
}

impl IndexStatus {
    /// The stored name of the status.
    pub fn as_str(&self) -> (r: &'static str)
        ensures
            r@ == index_status_name(*self),
    {
        match self {
            IndexStatus::Idle => "idle",
            IndexStatus::Indexing => "indexing",
            IndexStatus::Error => "error",
        }
    }

    /// The status with the stored name `s`, if any.
    pub fn parse(s: &str) -> (r: Option<IndexStatus>)
        ensures
            match r {
                Some(st) => index_status_name(st) == s@,
                None => forall|st: IndexStatus| index_status_name(st) != s@,
            },
    {
        if str_eq(s, "idle") {
            Some(IndexStatus::Idle)
        } else if str_eq(s, "indexing") {
            Some(IndexStatus::Indexing)
        } else if str_eq(s, "error") {
            Some(IndexStatus::Error)
        } else {
            assert forall|st: IndexStatus| index_status_name(st) != s@ by {
                match st {
                    IndexStatus::Idle => {},
                    IndexStatus::Indexing => {},
                    IndexStatus::Error => {},
                }
            }
            None
        }
    }
}

impl ConflictPolicy {
    /// The policy a stored name selects (unknown names overwrite).
    pub fn from_name(s: &str) -> (r: ConflictPolicy)
        ensures
            r == conflict_policy_of(s@),
    {
        if str_eq(s, "skip") {
            ConflictPolicy::Skip
        } else if str_eq(s, "overwriteIfNewer") {
            ConflictPolicy::OverwriteIfNewer
        } else {
            ConflictPolicy::Overwrite
        }
    }

    /// The stored name of the policy.
    pub fn as_str(&self) -> (r: &'static str)
        ensures
            conflict_policy_of(r@) == *self,
    {
        proof {
            reveal_strlit("skip");
            reveal_strlit("overwrite");
            reveal_strlit("overwriteIfNewer");
        }
        match self {
            ConflictPolicy::Overwrite => {
                assert("overwrite"@.len() != "skip"@.len());
                assert("overwrite"@.len() != "overwriteIfNewer"@.len());
                "overwrite"
            },
            ConflictPolicy::Skip => "skip",
            ConflictPolicy::OverwriteIfNewer => {
                assert("overwriteIfNewer"@.len() != "skip"@.len());
                "overwriteIfNewer"
            },
        }
    }
}

} // verus!
