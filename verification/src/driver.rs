//! The driver-side error sink. The scanner reports every lexical defect here
//! and then keeps scanning; the sink records each defect for later display and
//! marks the run as having encountered an error. It never halts its caller.

use vstd::prelude::*;

verus! {

/// One recorded lexical defect: the 1-based source line it was noticed on, an
/// optional location tag, and a human-readable message.
#[derive(Clone, Debug, PartialEq, Eq)]
pub struct Report {
    pub line: usize,
    pub location: String,
    pub message: String,
}

/// Mathematical view of a recorded defect.
pub ghost struct ReportModel {
    pub line: int,
    pub location: Seq<char>,
    pub message: Seq<char>,
}

impl View for Report {
    type V = ReportModel;

    open spec fn view(&self) -> ReportModel {
        ReportModel { line: self.line as int, location: self.location@, message: self.message@ }
    }
}

/// The views of a report sequence, element by element.
pub open spec fn report_models(rs: Seq<Report>) -> Seq<ReportModel> {
    rs.map_values(|r: Report| r@)
}

/// The error sink the scanner writes to. It only accumulates: reports are
/// appended in the order they arrive and `had_error` is set once the first one
/// lands, so a single scan pass surfaces every defect in the source.
pub struct RustyLocks {
    had_error: bool,
    reports: Vec<Report>,
}

/// Mathematical view of the error sink.
pub ghost struct RustyLocksModel {
    pub had_error: bool,
    pub reports: Seq<ReportModel>,
}

impl View for RustyLocks {
    type V = RustyLocksModel;

    closed spec fn view(&self) -> RustyLocksModel {
        RustyLocksModel { had_error: self.had_error, reports: report_models(self.reports@) }
    }
}

impl RustyLocks {
    /// A fresh sink: no error seen, nothing recorded.
    pub fn new() -> (rl: RustyLocks)
        ensures
            !rl@.had_error,
            rl@.reports == Seq::<ReportModel>::empty(),
    {
        RustyLocks { had_error: false, reports: Vec::new() }
    }

    /// Record a defect with a location tag and mark the run as failed.
    pub fn report(&mut self, line: usize, location: String, message: String)
        ensures
            final(self)@.had_error,
            final(self)@.reports == old(self)@.reports.push(
                (ReportModel { line: line as int, location: location@, message: message@ }),
            ),
    {
        let r = Report { line, location, message };
        let ghost rm = r@;
        self.reports.push(r);
        self.had_error = true;
        proof {
            assert(report_models(self.reports@) =~= old(self)@.reports.push(rm));
        }
    }

    /// Record a defect with no location tag and mark the run as failed.
    pub fn error(&mut self, line: usize, message: String)
        ensures
            final(self)@.had_error,
            final(self)@.reports == old(self)@.reports.push(
                (ReportModel { line: line as int, location: Seq::<char>::empty(), message: message@ }),
            ),
    {
        let location = String::new();
        self.report(line, location, message);
    }

    /// Whether any defect has been recorded so far.
    pub fn had_error(&self) -> (b: bool)
        ensures
            b == self@.had_error,
    {
        self.had_error
    }

    /// The defects recorded so far, in arrival order.
    pub fn reports(&self) -> (rs: &Vec<Report>)
        ensures
            report_models(rs@) == self@.reports,
    {
        &self.reports
    }
}

} // verus!
