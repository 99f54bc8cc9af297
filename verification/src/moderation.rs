//! Reports, their categories and the rule that resolves them once enough
//! sway has voted.
use vstd::prelude::*;
use crate::text::str_eq;
use crate::models::VoteType;

verus! {

/// What a report says is wrong.
#[derive(Clone, Copy, Debug, PartialEq, Eq, Structural)]
pub enum ReportCategory {
    Spam,
    Misinformation,
    NsfwUnmarked,
    Harassment,
    HateSpeech,
    IllegalContent,
}

/// Severity of each category, from 1 to 5.
pub open spec fn category_severity(c: ReportCategory) -> u8 {
    match c {
        ReportCategory::Spam => 1,
        ReportCategory::Misinformation => 2,
        ReportCategory::NsfwUnmarked => 2,
        ReportCategory::Harassment => 3,
        ReportCategory::HateSpeech => 5,
        ReportCategory::IllegalContent => 5,
    }
}

/// Human-readable name of each category.
pub open spec fn category_label(c: ReportCategory) -> Seq<char> {
    match c {
        ReportCategory::Spam => "Spam"@,
        ReportCategory::Misinformation => "Misinformation"@,
        ReportCategory::NsfwUnmarked => "NSFW (unmarked)"@,
        ReportCategory::Harassment => "Harassment"@,
        ReportCategory::HateSpeech => "Hate Speech"@,
        ReportCategory::IllegalContent => "Illegal Content"@,
    }
}

impl ReportCategory {
    /// Severity of the category.
    pub fn severity(&self) -> (s: u8)
        ensures
            s == category_severity(*self),
            1 <= s <= 5,
    {
        match self {
            ReportCategory::Spam => 1,
            ReportCategory::Misinformation => 2,
            ReportCategory::NsfwUnmarked => 2,
            ReportCategory::Harassment => 3,
            ReportCategory::HateSpeech => 5,
            ReportCategory::IllegalContent => 5,
        }
    }

    /// Human-readable name of the category.
    pub fn label(&self) -> (l: &'static str)
        ensures
            l@ == category_label(*self),
    {
        match self {
            ReportCategory::Spam => "Spam",
            ReportCategory::Misinformation => "Misinformation",
            ReportCategory::NsfwUnmarked => "NSFW (unmarked)",
            ReportCategory::Harassment => "Harassment",
            ReportCategory::HateSpeech => "Hate Speech",
            ReportCategory::IllegalContent => "Illegal Content",
        }
    }
}

/// Where a report stands.
#[derive(Clone, Copy, Debug, PartialEq, Eq, Structural)]
pub enum ReportStatus {
    Open,
    Blacklisted,
    Dismissed,
}

impl Default for ReportStatus {
    /// A new report is open.
    fn default() -> (s: ReportStatus)
        ensures
            s == ReportStatus::Open,
    {
        ReportStatus::Open
    }
}

/// What a report is about.
#[derive(Clone, Copy, Debug, PartialEq, Eq, Structural)]
pub enum ReportTarget {
    Leaf,
    User,
    Root,
}

/// Number that stands for each kind of target in store keys.
pub open spec fn target_code_of(t: ReportTarget) -> u8 {
    match t {
        ReportTarget::Leaf => 0,
        ReportTarget::User => 1,
        ReportTarget::Root => 2,
    }
}

/// Number that stands for `t` in store keys (its declaration order).
pub fn target_code(t: ReportTarget) -> (c: u8)
    ensures
        c == target_code_of(t),
{
    match t {
        ReportTarget::Leaf => 0,
        ReportTarget::User => 1,
        ReportTarget::Root => 2,
    }
}

/// The target kind named by `text` in a request path (`leaf`, `user`, `root`).
pub open spec fn target_named(text: Seq<char>) -> Option<ReportTarget> {
    if text == "leaf"@ {
        Some(ReportTarget::Leaf)
    } else if text == "user"@ {
        Some(ReportTarget::User)
    } else if text == "root"@ {
        Some(ReportTarget::Root)
    } else {
        None
    }
}

/// Reads the target kind from its name; `None` for any other text.
pub fn parse_report_target(text: &str) -> (t: Option<ReportTarget>)
    ensures
        t == target_named(text@),
{
    if str_eq(text, "leaf") {
        Some(ReportTarget::Leaf)
    } else if str_eq(text, "user") {
        Some(ReportTarget::User)
    } else if str_eq(text, "root") {
        Some(ReportTarget::Root)
    } else {
        None
    }
}



/// Total sway at which a report of severity `severity` resolves.
pub open spec fn threshold_of(severity: u8) -> int {
    severity as int * 20
}

/// Total sway at which a report of severity `severity` resolves.
pub fn resolution_threshold(severity: u8) -> (t: u32)
    ensures
        t == threshold_of(severity),
{
    severity as u32 * 20
}

/// The status after checking the vote totals of a report in `status`:
/// a resolved report stays as it is; an open one is blacklisted when the
/// blacklist votes reach the threshold, else dismissed when the dismiss
/// votes do, else it stays open (`None`).
pub open spec fn resolved_status(status: ReportStatus, blacklist_reached: bool, dismiss_reached: bool) -> Option<ReportStatus> {
    if status != ReportStatus::Open {
        Some(status)
    } else if blacklist_reached {
        Some(ReportStatus::Blacklisted)
    } else if dismiss_reached {
        Some(ReportStatus::Dismissed)
    } else {
        None
    }
}

/// Resolves a report from whether each vote total reached the threshold.
pub fn resolve_status(status: ReportStatus, blacklist_reached: bool, dismiss_reached: bool) -> (r:
    Option<ReportStatus>)
    ensures
        r == resolved_status(status, blacklist_reached, dismiss_reached),
{
    match status {
        ReportStatus::Open => {
            if blacklist_reached {
                Some(ReportStatus::Blacklisted)
            } else if dismiss_reached {
                Some(ReportStatus::Dismissed)
            } else {
                None
            }
        },
        _ => Some(status),
    }
}

/// Resolution is final, and never reopens: a resolved report keeps its
/// status whatever the votes, and no check yields `Open`.
pub proof fn lemma_resolution_final(status: ReportStatus, b1: bool, d1: bool, b2: bool, d2: bool)
    ensures
        status != ReportStatus::Open ==> resolved_status(status, b1, d1) == Some(status),
        resolved_status(status, b1, d1) != Some(ReportStatus::Open),
        resolved_status(status, b1, d1) matches Some(s) ==> resolved_status(s, b2, d2) == Some(s),
{
}

/// Blacklist votes win over dismiss votes when both reach the threshold.
pub proof fn lemma_blacklist_precedence(dismiss_reached: bool)
    ensures
        resolved_status(ReportStatus::Open, true, dismiss_reached) == Some(ReportStatus::Blacklisted),
{
}

/// Why a vote on a report is refused.
#[derive(Clone, Copy, Debug, PartialEq, Eq, Structural)]
pub enum VoteRejection {
    /// No report has the id.
    NotFound,
    /// The report is already blacklisted or dismissed.
    AlreadyResolved,
}

impl VoteRejection {
    /// The message a client is told.
    pub fn message(&self) -> (m: &'static str)
        ensures
            *self == VoteRejection::NotFound ==> m@ == "Report not found"@,
            *self == VoteRejection::AlreadyResolved ==> m@ == "Report is already resolved"@,
    {
        match self {
            VoteRejection::NotFound => "Report not found",
            VoteRejection::AlreadyResolved => "Report is already resolved",
        }
    }
}

/// Whether a report in `status` (`None` when there is no such report) takes
/// votes: only an open report does.
pub open spec fn vote_verdict(status: Option<ReportStatus>) -> Result<(), VoteRejection> {
    match status {
        None => Err(VoteRejection::NotFound),
        Some(ReportStatus::Open) => Ok(()),
        Some(_) => Err(VoteRejection::AlreadyResolved),
    }
}

/// Decides whether a report in `status` takes votes.
pub fn check_vote(status: Option<ReportStatus>) -> (r: Result<(), VoteRejection>)
    ensures
        r == vote_verdict(status),
{
    match status {
        None => Err(VoteRejection::NotFound),
        Some(ReportStatus::Open) => Ok(()),
        Some(_) => Err(VoteRejection::AlreadyResolved),
    }
}

/// What blacklisting does to its target besides listing it.
#[derive(Clone, Copy, Debug, PartialEq, Eq, Structural)]
pub enum BlacklistEffect {
    /// The user is banned.
    BanUser,
    /// The leaf is marked deleted.
    DeleteLeaf,
    /// Nothing more: a root is only listed.
    ListOnly,
}

/// The effect of blacklisting a target of kind `t`.
pub open spec fn effect_of(t: ReportTarget) -> BlacklistEffect {
    match t {
        ReportTarget::User => BlacklistEffect::BanUser,
        ReportTarget::Leaf => BlacklistEffect::DeleteLeaf,
        ReportTarget::Root => BlacklistEffect::ListOnly,
    }
}

/// The effect of blacklisting a target of kind `t`.
pub fn blacklist_effect(t: ReportTarget) -> (e: BlacklistEffect)
    ensures
        e == effect_of(t),
{
    match t {
        ReportTarget::User => BlacklistEffect::BanUser,
        ReportTarget::Leaf => BlacklistEffect::DeleteLeaf,
        ReportTarget::Root => BlacklistEffect::ListOnly,
    }
}

/// A resolved report takes no more votes: once a check resolves it, every
/// later vote is refused.
pub proof fn lemma_resolved_report_refuses_votes(status: ReportStatus, blacklist_reached: bool, dismiss_reached: bool)
    requires
        resolved_status(status, blacklist_reached, dismiss_reached) is Some,
    ensures
        vote_verdict(resolved_status(status, blacklist_reached, dismiss_reached)) == Err::<(), VoteRejection>(
            VoteRejection::AlreadyResolved,
        ),
{
}

/// A request to report a target.
#[derive(Clone, Debug)]
pub struct ReportRequest {
    pub reporter_address: String,
    pub target_type: ReportTarget,
    pub target_id: String,
    pub category: ReportCategory,
}

/// A request to vote on a report.
#[derive(Clone, Debug)]
pub struct BlacklistVoteRequest {
    pub voter_address: String,
    pub report_id: String,
    pub vote_type: VoteType,
}

} // verus!
