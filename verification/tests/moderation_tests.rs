use moot::moderation::{
    blacklist_effect, check_vote, parse_report_target, resolution_threshold, resolve_status,
    BlacklistEffect, ReportCategory, ReportStatus, ReportTarget, VoteRejection,
};

#[test]
fn severities() {
    assert_eq!(ReportCategory::Spam.severity(), 1);
    assert_eq!(ReportCategory::Misinformation.severity(), 2);
    assert_eq!(ReportCategory::NsfwUnmarked.severity(), 2);
    assert_eq!(ReportCategory::Harassment.severity(), 3);
    assert_eq!(ReportCategory::HateSpeech.severity(), 5);
    assert_eq!(ReportCategory::IllegalContent.severity(), 5);
}

#[test]
fn labels() {
    assert_eq!(ReportCategory::Spam.label(), "Spam");
    assert_eq!(ReportCategory::Misinformation.label(), "Misinformation");
    assert_eq!(ReportCategory::NsfwUnmarked.label(), "NSFW (unmarked)");
    assert_eq!(ReportCategory::Harassment.label(), "Harassment");
    assert_eq!(ReportCategory::HateSpeech.label(), "Hate Speech");
    assert_eq!(ReportCategory::IllegalContent.label(), "Illegal Content");
}

#[test]
fn thresholds() {
    assert_eq!(resolution_threshold(ReportCategory::Spam.severity()), 20);
    assert_eq!(resolution_threshold(ReportCategory::HateSpeech.severity()), 100);
}

#[test]
fn targets_from_path() {
    assert_eq!(parse_report_target("leaf"), Some(ReportTarget::Leaf));
    assert_eq!(parse_report_target("user"), Some(ReportTarget::User));
    assert_eq!(parse_report_target("root"), Some(ReportTarget::Root));
    assert_eq!(parse_report_target("Leaf"), None);
    assert_eq!(parse_report_target(""), None);
}

#[test]
fn default_status_is_open() {
    assert_eq!(ReportStatus::default(), ReportStatus::Open);
}

#[test]
fn open_report_resolution() {
    assert_eq!(resolve_status(ReportStatus::Open, false, false), None);
    assert_eq!(resolve_status(ReportStatus::Open, true, false), Some(ReportStatus::Blacklisted));
    assert_eq!(resolve_status(ReportStatus::Open, false, true), Some(ReportStatus::Dismissed));
}

#[test]
fn blacklist_wins_over_dismiss() {
    assert_eq!(resolve_status(ReportStatus::Open, true, true), Some(ReportStatus::Blacklisted));
}

#[test]
fn resolved_reports_stay_resolved() {
    assert_eq!(resolve_status(ReportStatus::Dismissed, true, true), Some(ReportStatus::Dismissed));
    assert_eq!(resolve_status(ReportStatus::Blacklisted, false, true), Some(ReportStatus::Blacklisted));
}

#[test]
fn only_open_reports_take_votes() {
    assert_eq!(check_vote(Some(ReportStatus::Open)), Ok(()));
    assert_eq!(check_vote(Some(ReportStatus::Blacklisted)), Err(VoteRejection::AlreadyResolved));
    assert_eq!(check_vote(Some(ReportStatus::Dismissed)), Err(VoteRejection::AlreadyResolved));
    assert_eq!(check_vote(None), Err(VoteRejection::NotFound));
    assert_eq!(VoteRejection::NotFound.message(), "Report not found");
    assert_eq!(VoteRejection::AlreadyResolved.message(), "Report is already resolved");
}

#[test]
fn blacklisting_effects() {
    assert_eq!(blacklist_effect(ReportTarget::User), BlacklistEffect::BanUser);
    assert_eq!(blacklist_effect(ReportTarget::Leaf), BlacklistEffect::DeleteLeaf);
    assert_eq!(blacklist_effect(ReportTarget::Root), BlacklistEffect::ListOnly);
}
