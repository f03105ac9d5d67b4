use vstd::prelude::*;
use crate::model::{find_key, index_of_key, AccountId, Report, ReportView, Work, WorkView};

verus! {

/// The reports after `reporter` files `reason` at `now`: their earlier
/// report is overwritten, or a new one is appended.
pub open spec fn reports_after(prior: Seq<ReportView>, reporter: Seq<char>, reason: Seq<char>, now: u64) -> Seq<ReportView> {
    let report = ReportView { reporter, reason, timestamp: now };
    match index_of_key::<Report>(prior, reporter) {
        Some(i) => prior.update(i, report),
        None => prior.push(report),
    }
}

/// The reports filed against `w`, none when it has no report list.
pub open spec fn reports_of(w: WorkView) -> Seq<ReportView> {
    match w.reported_infringements {
        Some(r) => r,
        None => Seq::empty(),
    }
}

/// `w` after `reporter` files `reason` at `now`.
pub open spec fn work_reported(w: WorkView, reporter: Seq<char>, reason: Seq<char>, now: u64) -> WorkView {
    WorkView { reported_infringements: Some(reports_after(reports_of(w), reporter, reason, now)), ..w }
}

/// Files `reporter`'s report against `work`, one report per reporter.
pub fn record_report(work: &mut Work, reporter: &AccountId, reason: String, now: u64)
    ensures
        final(work)@ == work_reported(old(work)@, reporter@, reason@, now),
{
    let mut reports = match work.reported_infringements.take() {
        Some(r) => r,
        None => Vec::new(),
    };
    let ghost prior = reports.deep_view();
    assert(prior =~= reports_of(old(work)@));
    let report = Report { reporter: reporter.clone(), reason, timestamp: now };
    match find_key(&reports, reporter) {
        Some(i) => {
            reports.set(i, report);
            assert(reports.deep_view() =~= prior.update(i as int, report@));
        },
        None => {
            reports.push(report);
            assert(reports.deep_view() =~= prior.push(report@));
        },
    }
    work.reported_infringements = Some(reports);
}

} // verus!
