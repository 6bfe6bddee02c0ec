//! The progress of a consolidation job and the transitions between its
//! states. The caller performs the file operations and reports what
//! happened; these methods decide the next state.

use vstd::prelude::*;
use crate::text::{append_str, chars_of, string_of};

verus! {

broadcast use vstd::string::group_string_axioms;

#[derive(Debug, Clone, Copy, PartialEq, Eq, Structural)]
pub enum ConsolidationStatus {
    Pending,
    Analyzing,
    Processing,
    WritingProject,
    Completed,
    Cancelled,
    Failed,
}

/// A failure while processing one file, or of the whole job when fatal.
#[derive(Debug, Clone)]
pub struct ProcessingError {
    pub file_path: String,
    pub error_message: String,
    pub is_fatal: bool,
}

/// What a running job reports.
#[derive(Debug, Clone)]
pub struct ConsolidationProgress {
    pub job_id: String,
    pub status: ConsolidationStatus,
    pub current_file: String,
    pub current_operation: String,
    pub files_processed: u64,
    pub files_total: u64,
    pub bytes_processed: u64,
    pub bytes_total: u64,
    pub errors: Vec<ProcessingError>,
    pub warnings: Vec<String>,
}

impl ConsolidationStatus {
    /// Whether no further transition happens.
    pub open spec fn spec_is_terminal(self) -> bool {
        self == ConsolidationStatus::Completed || self == ConsolidationStatus::Cancelled || self
            == ConsolidationStatus::Failed
    }

    pub fn is_terminal(&self) -> (r: bool)
        ensures
            r == self.spec_is_terminal(),
    {
        match self {
            ConsolidationStatus::Completed | ConsolidationStatus::Cancelled | ConsolidationStatus::Failed => true,
            _ => false,
        }
    }
}

/// The changes of status a job may make: forward through analysis,
/// processing and writing to completion, or from any running state into
/// `Cancelled` or `Failed`; a finished job never changes.
pub open spec fn allowed(from: ConsolidationStatus, to: ConsolidationStatus) -> bool {
    &&& !from.spec_is_terminal()
    &&& (to == from || (from == ConsolidationStatus::Pending && to == ConsolidationStatus::Analyzing) || (from
        == ConsolidationStatus::Analyzing && to == ConsolidationStatus::Processing) || (from
        == ConsolidationStatus::Processing && to == ConsolidationStatus::WritingProject) || (from
        == ConsolidationStatus::WritingProject && to == ConsolidationStatus::Completed) || to
        == ConsolidationStatus::Cancelled || to == ConsolidationStatus::Failed)
}

/// Whether one of the errors is fatal.
pub open spec fn any_fatal(errors: Seq<ProcessingError>) -> bool {
    exists|i: int| 0 <= i < errors.len() && (#[trigger] errors[i]).is_fatal
}

fn text_of(prefix: &str, rest: &str) -> (r: String)
    ensures
        r@ == prefix@ + rest@,
{
    let mut v = chars_of(prefix);
    append_str(&mut v, rest);
    string_of(&v)
}

fn transition_allowed(from: ConsolidationStatus, to: ConsolidationStatus) -> (r: bool)
    ensures
        r == allowed(from, to),
{
    if from.is_terminal() {
        return false;
    }
    to == from || (from == ConsolidationStatus::Pending && to == ConsolidationStatus::Analyzing) || (from
        == ConsolidationStatus::Analyzing && to == ConsolidationStatus::Processing) || (from
        == ConsolidationStatus::Processing && to == ConsolidationStatus::WritingProject) || (from
        == ConsolidationStatus::WritingProject && to == ConsolidationStatus::Completed) || to
        == ConsolidationStatus::Cancelled || to == ConsolidationStatus::Failed
}

impl ConsolidationProgress {
    /// No more files are counted as done than there are to do.
    pub open spec fn wf(&self) -> bool {
        self.files_processed <= self.files_total
    }

    /// A pending job with nothing counted yet.
    pub fn new(job_id: String) -> (r: ConsolidationProgress)
        ensures
            r.job_id == job_id,
            r.status == ConsolidationStatus::Pending,
            r.files_processed == 0 && r.files_total == 0 && r.bytes_processed == 0 && r.bytes_total == 0,
            r.errors@.len() == 0,
            r.warnings@.len() == 0,
            r.wf(),
    {
        ConsolidationProgress {
            job_id,
            status: ConsolidationStatus::Pending,
            current_file: String::new(),
            current_operation: String::new(),
            files_processed: 0,
            files_total: 0,
            bytes_processed: 0,
            bytes_total: 0,
            errors: Vec::new(),
            warnings: Vec::new(),
        }
    }

    /// Enters `status`, described by `operation`, when the change is allowed;
    /// otherwise nothing changes.
    pub fn update_status(&mut self, status: ConsolidationStatus, operation: &str)
        ensures
            final(self).status == if allowed(old(self).status, status) { status } else { old(self).status },
            allowed(old(self).status, status) ==> final(self).current_operation@ == operation@,
            !allowed(old(self).status, status) ==> final(self).current_operation == old(self).current_operation,
            final(self).files_total == old(self).files_total,
            final(self).files_processed == old(self).files_processed,
            final(self).bytes_processed == old(self).bytes_processed,
            final(self).errors@ == old(self).errors@,
            final(self).warnings@ == old(self).warnings@,
    {
        if transition_allowed(self.status, status) {
            self.status = status;
            self.current_operation = operation.to_owned();
        }
    }

    /// Records the totals to process; the file total never drops below the
    /// files already done.
    pub fn set_totals(&mut self, files_total: u64, bytes_total: u64)
        ensures
            final(self).files_total == if files_total >= old(self).files_processed { files_total } else { old(self).files_processed },
            final(self).wf(),
            final(self).bytes_total == bytes_total,
            final(self).status == old(self).status,
            final(self).files_processed == old(self).files_processed,
            final(self).bytes_processed == old(self).bytes_processed,
            final(self).errors@ == old(self).errors@,
    {
        self.files_total = if files_total >= self.files_processed { files_total } else { self.files_processed };
        self.bytes_total = bytes_total;
    }

    pub fn update_current_file(&mut self, path: &str)
        ensures
            final(self).current_file@ == path@,
            final(self).status == old(self).status,
            final(self).files_processed == old(self).files_processed,
            final(self).bytes_processed == old(self).bytes_processed,
            final(self).errors@ == old(self).errors@,
            final(self).warnings@ == old(self).warnings@,
    {
        self.current_file = path.to_owned();
    }

    pub fn add_error(&mut self, error: ProcessingError)
        ensures
            final(self).errors@ == old(self).errors@.push(error),
            final(self).status == old(self).status,
            final(self).warnings@ == old(self).warnings@,
            final(self).files_processed == old(self).files_processed,
            final(self).bytes_processed == old(self).bytes_processed,
    {
        self.errors.push(error);
    }

    pub fn add_warning(&mut self, warning: String)
        ensures
            final(self).warnings@ == old(self).warnings@.push(warning),
            final(self).status == old(self).status,
            final(self).errors@ == old(self).errors@,
            final(self).files_processed == old(self).files_processed,
            final(self).bytes_processed == old(self).bytes_processed,
    {
        self.warnings.push(warning);
    }

    /// Counts one more file of `bytes` bytes as done; the file count stops at
    /// the total, the byte count at its largest value.
    pub fn increment_processed(&mut self, bytes: u64)
        ensures
            final(self).files_processed == if old(self).files_processed < old(self).files_total {
                old(self).files_processed + 1
            } else {
                old(self).files_processed as int
            },
            old(self).wf() ==> final(self).wf(),
            final(self).files_total == old(self).files_total,
            final(self).bytes_processed == if old(self).bytes_processed as int + bytes as int <= u64::MAX {
                old(self).bytes_processed + bytes
            } else {
                u64::MAX as int
            },
            final(self).files_processed >= old(self).files_processed,
            final(self).bytes_processed >= old(self).bytes_processed,
            final(self).status == old(self).status,
            final(self).errors@ == old(self).errors@,
            final(self).warnings@ == old(self).warnings@,
    {
        if self.files_processed < self.files_total {
            self.files_processed = self.files_processed + 1;
        }
        if self.bytes_processed as u128 + bytes as u128 <= u64::MAX as u128 {
            self.bytes_processed = self.bytes_processed + bytes;
        } else {
            self.bytes_processed = u64::MAX;
        }
    }

    /// A source file is missing: a warning when offline media are skipped,
    /// else a non-fatal error for the file. Either way the file is skipped.
    pub fn record_offline(&mut self, path: &str, skip_offline_media: bool)
        ensures
            skip_offline_media ==> final(self).warnings@.len() == old(self).warnings@.len() + 1
                && final(self).errors@ == old(self).errors@,
            !skip_offline_media ==> final(self).warnings@ == old(self).warnings@ && final(self).errors@.len()
                == old(self).errors@.len() + 1 && final(self).errors@.last().file_path@ == path@
                && !final(self).errors@.last().is_fatal,
            final(self).status == old(self).status,
            final(self).files_processed == old(self).files_processed,
            final(self).bytes_processed == old(self).bytes_processed,
    {
        if skip_offline_media {
            self.add_warning(text_of("Skipping offline media: ", path));
        } else {
            self.add_error(ProcessingError {
                file_path: path.to_owned(),
                error_message: "File is offline".to_owned(),
                is_fatal: false,
            });
        }
    }

    /// A file could not be processed: a non-fatal error for it; the job goes
    /// on with the next file.
    pub fn record_item_failure(&mut self, path: &str, message: String)
        ensures
            final(self).errors@.len() == old(self).errors@.len() + 1,
            final(self).errors@.drop_last() == old(self).errors@,
            final(self).errors@.last().file_path@ == path@,
            final(self).errors@.last().error_message == message,
            !final(self).errors@.last().is_fatal,
            final(self).status == old(self).status,
            final(self).files_processed == old(self).files_processed,
    {
        self.add_error(ProcessingError { file_path: path.to_owned(), error_message: message, is_fatal: false });
        assert(self.errors@.drop_last() =~= old(self).errors@);
    }

    /// The job as a whole failed (a setting is out of range, or the project
    /// or its report cannot be written): a fatal error, and the job becomes
    /// `Failed`.
    pub fn record_job_failure(&mut self, path: &str, message: String)
        ensures
            final(self).errors@.len() == old(self).errors@.len() + 1,
            final(self).errors@.last().is_fatal,
            final(self).status == if old(self).status.spec_is_terminal() { old(self).status } else { ConsolidationStatus::Failed },
            final(self).files_processed == old(self).files_processed,
    {
        self.add_error(ProcessingError { file_path: path.to_owned(), error_message: message, is_fatal: true });
        self.update_status(ConsolidationStatus::Failed, "Consolidation failed");
    }

    /// Checks the cancel flag: when set, the job becomes `Cancelled` with a
    /// non-fatal error recorded, and `true` is returned.
    pub fn check_cancelled(&mut self, cancel_requested: bool) -> (r: bool)
        ensures
            r == cancel_requested,
            cancel_requested && !old(self).status.spec_is_terminal() ==> final(self).status == ConsolidationStatus::Cancelled,
            cancel_requested ==> final(self).errors@.len() == old(self).errors@.len() + 1 && !final(self).errors@.last().is_fatal,
            cancel_requested && old(self).status.spec_is_terminal() ==> final(self).status == old(self).status,
            !cancel_requested ==> final(self).status == old(self).status && final(self).errors@ == old(self).errors@,
            final(self).files_processed == old(self).files_processed,
            final(self).bytes_processed == old(self).bytes_processed,
    {
        if cancel_requested {
            self.update_status(ConsolidationStatus::Cancelled, "Cancelled by user");
            self.add_error(ProcessingError {
                file_path: String::new(),
                error_message: "Consolidation cancelled".to_owned(),
                is_fatal: false,
            });
        }
        cancel_requested
    }

    /// Ends the job once its project is written: `Completed` unless an
    /// error is fatal, then `Failed`; a finished job keeps its status.
    pub fn finish(&mut self)
        ensures
            old(self).status.spec_is_terminal() ==> final(self).status == old(self).status,
            old(self).status == ConsolidationStatus::WritingProject ==> final(self).status == if any_fatal(old(self).errors@) {
                ConsolidationStatus::Failed
            } else {
                ConsolidationStatus::Completed
            },
            !old(self).status.spec_is_terminal() && any_fatal(old(self).errors@) ==> final(self).status == ConsolidationStatus::Failed,
            final(self).errors@ == old(self).errors@,
            final(self).files_processed == old(self).files_processed,
    {
        let mut fatal = false;
        let mut i: usize = 0;
        while i < self.errors.len()
            invariant
                i <= self.errors@.len(),
                fatal == exists|j: int| 0 <= j < i && (#[trigger] self.errors@[j]).is_fatal,
            decreases self.errors@.len() - i,
        {
            if self.errors[i].is_fatal {
                fatal = true;
            }
            i = i + 1;
        }
        if fatal {
            self.update_status(ConsolidationStatus::Failed, "Consolidation failed");
        } else {
            self.update_status(ConsolidationStatus::Completed, "Consolidation complete");
        }
    }
}

} // verus!
