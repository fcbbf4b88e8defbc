//! The progress reports of a run, in order, and what the callback answered to them.
use crate::opt::generate::{Progress, QUADS_PER_REPORT};
use vstd::prelude::*;

verus! {

/// The callback may have answered `answer` to the report.
pub open spec fn answered<F: Fn(Progress) -> bool>(progress: F, p: Progress, answer: bool) -> bool {
    call_ensures(progress, (p,), answer)
}

/// The callback let the run go on at every one of the reports.
pub open spec fn all_accepted<F: Fn(Progress) -> bool>(progress: F, reports: Seq<Progress>) -> bool {
    forall|i: int| 0 <= i < reports.len() ==> answered(progress, #[trigger] reports[i], true)
}

/// The callback let the run go on at the first `k` reports and stopped it at the next.
pub open spec fn stops_at<F: Fn(Progress) -> bool>(
    progress: F,
    reports: Seq<Progress>,
    k: int,
) -> bool {
    &&& 0 <= k < reports.len()
    &&& all_accepted(progress, reports.take(k))
    &&& answered(progress, reports[k], false)
}

/// The callback stopped the run at one of the reports, having let it go on at all before.
pub open spec fn is_stopped<F: Fn(Progress) -> bool>(progress: F, reports: Seq<Progress>) -> bool {
    exists|k: int| #[trigger] stops_at(progress, reports, k)
}

/// Number of reports that are made before the quad with number `idx` is converted.
pub open spec fn reports_before(idx: int) -> int {
    (idx + QUADS_PER_REPORT - 1) / QUADS_PER_REPORT as int
}

/// The reports made while `total` quads are converted.
pub open spec fn quad_reports(total: int) -> Seq<Progress> {
    Seq::new(
        reports_before(total) as nat,
        |i: int|
            Progress::QuadsPlaced { done: (i * QUADS_PER_REPORT) as usize, total: total as usize },
    )
}

/// The reports of a greedy run before quads are converted.
pub open spec fn opening_reports() -> Seq<Progress> {
    seq![Progress::Start, Progress::PlanesBuilt, Progress::PlanesMeshed]
}

/// The reports of a greedy run that makes `total` quads.
pub open spec fn greedy_reports(total: int) -> Seq<Progress> {
    opening_reports() + quad_reports(total) + seq![Progress::Finished]
}

/// A run that went on through one part of its reports goes on or stops as the rest does.
pub(crate) proof fn lemma_after_accepted<F: Fn(Progress) -> bool>(
    progress: F,
    first: Seq<Progress>,
    rest: Seq<Progress>,
)
    requires
        all_accepted(progress, first),
    ensures
        all_accepted(progress, rest) ==> all_accepted(progress, first + rest),
        is_stopped(progress, rest) ==> is_stopped(progress, first + rest),
{
    let all = first + rest;
    if all_accepted(progress, rest) {
        assert forall|i: int| 0 <= i < all.len() implies answered(
            progress,
            #[trigger] all[i],
            true,
        ) by {
            if i < first.len() {
                assert(all[i] == first[i]);
            } else {
                assert(all[i] == rest[i - first.len()]);
            }
        }
    }
    if is_stopped(progress, rest) {
        let k = choose|k: int| #[trigger] stops_at(progress, rest, k);
        let at = first.len() + k;
        assert forall|i: int| 0 <= i < at implies answered(
            progress,
            #[trigger] all.take(at)[i],
            true,
        ) by {
            if i < first.len() {
                assert(all.take(at)[i] == first[i]);
            } else {
                assert(all.take(at)[i] == rest.take(k)[i - first.len()]);
            }
        }
        assert(stops_at(progress, all, at));
    }
}

/// A run that stopped in one part of its reports stopped, whatever would have come after it.
pub(crate) proof fn lemma_stopped_early<F: Fn(Progress) -> bool>(
    progress: F,
    first: Seq<Progress>,
    rest: Seq<Progress>,
)
    requires
        is_stopped(progress, first),
    ensures
        is_stopped(progress, first + rest),
{
    let k = choose|k: int| #[trigger] stops_at(progress, first, k);
    assert((first + rest).take(k) =~= first.take(k));
    assert(stops_at(progress, first + rest, k));
}

/// The answer to one report.
pub(crate) proof fn lemma_one_report<F: Fn(Progress) -> bool>(progress: F, p: Progress, go: bool)
    requires
        answered(progress, p, go),
    ensures
        go ==> all_accepted(progress, seq![p]),
        !go ==> is_stopped(progress, seq![p]),
{
    if !go {
        assert(stops_at(progress, seq![p], 0));
    }
}

/// A greedy run tells that it starts, that its planes are built and meshed, how many quads are placed at every
/// thousandth of them, and that it is done.
pub proof fn greedy_runs_tell_how_far_they_are(total: int, i: int)
    requires
        0 <= total <= usize::MAX,
        0 <= i,
    ensures
        ({
            let reports = greedy_reports(total);
            &&& reports[0] is Start
            &&& reports[1] is PlanesBuilt
            &&& reports[2] is PlanesMeshed
            &&& reports.last() is Finished
            &&& i * 1000 < total <==> i + 3 < reports.len() - 1
            &&& i * 1000 < total ==> (reports[i + 3] matches Progress::QuadsPlaced {
                done,
                total: of,
            } && done == i * 1000 && of == total)
        }),
{
}

} // verus!
