//! The caller-facing snapshot of a task: its id, a human-readable status
//! label, and an error descriptor when the task failed or was canceled.

use vstd::prelude::*;

verus! {

use vstd::string::StringExecFns;
use crate::common::ErrorInfo;
use crate::image_service::ImageProcessingStatus;
use crate::image_service::ImageProcessingTask;
use crate::image_service::TaskId;

/// The status label shown to external callers for each lifecycle state. A
/// failed task and a canceled task both read as an error.
pub open spec fn status_label_spec(s: ImageProcessingStatus) -> Seq<char> {
    match s {
        ImageProcessingStatus::WaitingForImageAttachment => "Waiting for image"@,
        ImageProcessingStatus::Waiting => "Waiting for process"@,
        ImageProcessingStatus::InProgress => "In progress"@,
        ImageProcessingStatus::Completed(r) => match r {
            Ok(_) => "Completed"@,
            Err(_) => "Error"@,
        },
        ImageProcessingStatus::Canceled(_) => "Error"@,
    }
}

/// The error descriptor is present exactly for a failed or canceled task
/// and carries the recorded message.
pub open spec fn error_info_matches(s: ImageProcessingStatus, e: Option<ErrorInfo>) -> bool {
    match s {
        ImageProcessingStatus::Completed(r) => match r {
            Ok(_) => e is None,
            Err(msg) => e matches Some(info) && info.error_code == 0 && info.msg@ == msg@
                && info.human_msg@ == msg@,
        },
        ImageProcessingStatus::Canceled(msg) => e matches Some(info) && info.error_code == 0
            && info.msg@ == msg@ && info.human_msg@ == msg@,
        _ => e is None,
    }
}

/// What a caller polling a task receives.
pub struct ImageProcessingTaskDto {
    pub id: TaskId,
    pub error: Option<ErrorInfo>,
    pub status: String,
}

impl ImageProcessingTaskDto {
    /// The snapshot of a task's current record.
    pub fn from(value: &ImageProcessingTask) -> (res: ImageProcessingTaskDto)
        ensures
            res.id == value.id,
            res.status@ == status_label_spec(value.status),
            error_info_matches(value.status, res.error),
    {
        let mut error: Option<ErrorInfo> = None;
        let status: &str = match value.get_status() {
            ImageProcessingStatus::WaitingForImageAttachment => "Waiting for image",
            ImageProcessingStatus::Waiting => "Waiting for process",
            ImageProcessingStatus::InProgress => "In progress",
            ImageProcessingStatus::Completed(r) => match r {
                Ok(_) => "Completed",
                Err(e) => {
                    error = Some(
                        ErrorInfo { error_code: 0, msg: e.clone(), human_msg: e.clone() },
                    );
                    "Error"
                },
            },
            ImageProcessingStatus::Canceled(e) => {
                error = Some(ErrorInfo { error_code: 0, msg: e.clone(), human_msg: e.clone() });
                "Error"
            },
        };
        ImageProcessingTaskDto { id: value.id, error, status: String::from_str(status) }
    }
}

} // verus!
