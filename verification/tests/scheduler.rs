use articles_image_service::dto::ImageProcessingTaskDto;
use articles_image_service::image_service::Error;
use articles_image_service::image_service::HookHandle;
use articles_image_service::image_service::ImageHandle;
use articles_image_service::image_service::ImageProcessingService;
use articles_image_service::image_service::ImageProcessingStatus;
use articles_image_service::image_service::TransformHandle;
use articles_image_service::image_service::WorkerStep;
use articles_image_service::image_service::should_invoke_callback;
use articles_image_service::image_service::worker_after_transform;

fn img(token: u64) -> Option<ImageHandle> {
    Some(ImageHandle { token })
}

#[test]
fn create_with_image_is_admitted_at_once() {
    let mut svc = ImageProcessingService::new(1, 30);
    let (id, admitted) = svc.create_image_processing_task(img(7), Some("photo"), None, None, None);
    assert_eq!(id, 0);
    let task = admitted.expect("a free slot admits the new task");
    assert_eq!(task.id, id);
    assert!(matches!(task.status, ImageProcessingStatus::InProgress));
    assert_eq!(task.file_name, "photo");
    assert_eq!(svc.in_progress_tasks_count(), 1);
}

#[test]
fn concurrency_bound_is_never_exceeded() {
    let mut svc = ImageProcessingService::new(2, 30);
    let mut admitted_count = 0;
    for i in 0..5u64 {
        let (_, admitted) =
            svc.create_image_processing_task(img(i), Some("n"), None, None, None);
        if admitted.is_some() {
            admitted_count += 1;
        }
    }
    assert_eq!(admitted_count, 2);
    assert_eq!(svc.in_progress_tasks_count(), 2);
    assert!(svc.start_next_task_if_possible().is_none());
    assert_eq!(svc.in_progress_tasks_count(), 2);
}

#[test]
fn admission_is_fifo() {
    let mut svc = ImageProcessingService::new(1, 30);
    let (a, first) = svc.create_image_processing_task(img(1), Some("a"), None, None, None);
    let (b, none_b) = svc.create_image_processing_task(img(2), Some("b"), None, None, None);
    let (c, none_c) = svc.create_image_processing_task(img(3), Some("c"), None, None, None);
    assert_eq!(first.unwrap().id, a);
    assert!(none_b.is_none());
    assert!(none_c.is_none());
    assert!(svc.apply_completion(a, Ok("a.jpg".to_string())));
    assert_eq!(svc.start_next_task_if_possible().unwrap().id, b);
    assert!(svc.apply_completion(b, Ok("b.jpg".to_string())));
    assert_eq!(svc.start_next_task_if_possible().unwrap().id, c);
}

#[test]
fn attach_on_assigned_task_fails_without_mutation() {
    let mut svc = ImageProcessingService::new(0, 30);
    let (id, _) = svc.create_image_processing_task(img(5), Some("n"), None, None, None);
    let before = svc.get_task_by_id(id).unwrap();
    let res = svc.attach_image_to_task(id, ImageHandle { token: 9 });
    assert!(matches!(res, Err(Error::ImageAlreadyAssigned)));
    let after = svc.get_task_by_id(id).unwrap();
    assert!(matches!(after.status, ImageProcessingStatus::Waiting));
    assert_eq!(after.image, before.image);
}

#[test]
fn operations_on_unknown_id_report_not_found() {
    let mut svc = ImageProcessingService::new(1, 30);
    let unknown = 424242;
    assert!(matches!(
        svc.attach_image_to_task(unknown, ImageHandle { token: 1 }),
        Err(Error::TaskNotFound(i)) if i == unknown
    ));
    svc.cancel_task(unknown, "nothing there".to_string());
    assert!(svc.get_task_by_id(unknown).is_none());
    assert!(!svc.remove_image_processing_task(unknown));
    assert!(!svc.apply_completion(unknown, Ok("x.jpg".to_string())));
}

#[test]
fn task_without_image_waits_until_attach_succeeds() {
    let mut svc = ImageProcessingService::new(4, 30);
    let (id, admitted) = svc.create_image_processing_task(None, Some("n"), None, None, None);
    assert!(admitted.is_none());
    let task = svc.get_task_by_id(id).unwrap();
    assert!(matches!(task.status, ImageProcessingStatus::WaitingForImageAttachment));
    assert!(svc.start_next_task_if_possible().is_none());
    assert_eq!(svc.in_progress_tasks_count(), 0);
    svc.attach_image_to_task(id, ImageHandle { token: 3 }).unwrap();
    let task = svc.get_task_by_id(id).unwrap();
    assert!(matches!(task.status, ImageProcessingStatus::Waiting));
    let admitted = svc.start_next_task_if_possible().unwrap();
    assert_eq!(admitted.id, id);
    assert!(matches!(admitted.status, ImageProcessingStatus::InProgress));
}

#[test]
fn remove_is_idempotent_and_query_reports_absence() {
    let mut svc = ImageProcessingService::new(1, 30);
    let (id, _) = svc.create_image_processing_task(None, Some("n"), None, None, None);
    assert!(svc.remove_image_processing_task(id));
    assert!(!svc.remove_image_processing_task(id));
    assert!(svc.get_task_by_id(id).is_none());
    assert!(!svc.remove_image_processing_task(id));
    assert!(svc.get_task_by_id(id).is_none());
}

#[test]
fn first_task_completes_before_second_ever_runs() {
    let transform = Some(TransformHandle { token: 1 });
    let mut svc = ImageProcessingService::new(1, 30);
    let (a, admitted_a) =
        svc.create_image_processing_task(img(1), Some("a"), None, transform, None);
    let (b, admitted_b) =
        svc.create_image_processing_task(img(2), Some("b"), None, transform, None);
    assert!(admitted_a.is_some());
    assert!(admitted_b.is_none());
    let task_b = svc.get_task_by_id(b).unwrap();
    assert!(!matches!(task_b.status, ImageProcessingStatus::InProgress));
    // the worker for a: the transform succeeds, persistence succeeds
    let step = worker_after_transform(ImageHandle { token: 1 }, Some(Ok(ImageHandle { token: 10 })));
    assert!(matches!(step, WorkerStep::Persist(h) if h.token == 10));
    assert!(svc.apply_completion(a, Ok("a.jpg".to_string())));
    let task_a = svc.get_task_by_id(a).unwrap();
    assert!(matches!(task_a.status, ImageProcessingStatus::Completed(Ok(_))));
    let admitted = svc.start_next_task_if_possible().unwrap();
    assert_eq!(admitted.id, b);
}

#[test]
fn failing_transform_reports_error_status() {
    let transform = Some(TransformHandle { token: 1 });
    let mut svc = ImageProcessingService::new(1, 30);
    let (id, admitted) = svc.create_image_processing_task(img(1), Some("n"), None, transform, None);
    assert!(admitted.is_some());
    let step = worker_after_transform(ImageHandle { token: 1 }, Some(Err("boom".to_string())));
    let outcome = match step {
        WorkerStep::Report(outcome) => outcome,
        WorkerStep::Persist(_) => panic!("a failed transform never persists"),
    };
    assert!(svc.apply_completion(id, outcome));
    let task = svc.get_task_by_id(id).unwrap();
    let dto = ImageProcessingTaskDto::from(&task);
    assert_eq!(dto.status, "Error");
    assert!(!dto.error.unwrap().msg.is_empty());
}

#[test]
fn cancel_before_admission_reports_error_without_running() {
    let mut svc = ImageProcessingService::new(1, 30);
    let (id, _) = svc.create_image_processing_task(None, Some("n"), None, None, None);
    svc.cancel_task(id, "decode failed".to_string());
    let task = svc.get_task_by_id(id).unwrap();
    assert!(matches!(task.status, ImageProcessingStatus::Canceled(_)));
    let dto = ImageProcessingTaskDto::from(&task);
    assert_eq!(dto.status, "Error");
    assert_eq!(dto.error.unwrap().msg, "decode failed");
    // the canceled entry is never admitted, even after an attach attempt
    assert!(svc.attach_image_to_task(id, ImageHandle { token: 1 }).is_err());
    assert!(svc.start_next_task_if_possible().is_none());
    assert_eq!(svc.in_progress_tasks_count(), 0);
}

#[test]
fn canceled_task_keeps_its_state_after_worker_completion() {
    let mut svc = ImageProcessingService::new(1, 30);
    let (id, admitted) = svc.create_image_processing_task(img(1), Some("n"), None, None, None);
    assert!(admitted.is_some());
    svc.cancel_task(id, "too slow".to_string());
    assert!(svc.apply_completion(id, Ok("late.jpg".to_string())));
    let task = svc.get_task_by_id(id).unwrap();
    assert!(matches!(task.status, ImageProcessingStatus::Canceled(_)));
    // the slot was still freed
    assert_eq!(svc.in_progress_tasks_count(), 0);
}

#[test]
fn completion_for_removed_task_frees_the_slot() {
    let mut svc = ImageProcessingService::new(1, 30);
    let (id, admitted) = svc.create_image_processing_task(img(1), Some("n"), None, None, None);
    assert!(admitted.is_some());
    assert!(svc.remove_image_processing_task(id));
    assert!(svc.apply_completion(id, Ok("gone.jpg".to_string())));
    assert!(svc.get_task_by_id(id).is_none());
    assert_eq!(svc.in_progress_tasks_count(), 0);
    // a second completion for the same id matches no running worker
    assert!(!svc.apply_completion(id, Ok("gone.jpg".to_string())));
}

#[test]
fn hook_runs_only_after_successful_persistence() {
    let hook = Some(HookHandle { token: 4 });
    assert!(should_invoke_callback(&Ok("a.jpg".to_string()), hook));
    assert!(!should_invoke_callback(&Err("no".to_string()), hook));
    assert!(!should_invoke_callback(&Ok("a.jpg".to_string()), None));
}

#[test]
fn destination_uses_root_and_subfolder() {
    let root = vec!["srv".to_string(), "img".to_string()];
    let mut svc = ImageProcessingService::new_with_custom_path(1, 20, root);
    let (id, _) =
        svc.create_image_processing_task(None, Some("pic"), Some("a/b"), None, None);
    let task = svc.get_task_by_id(id).unwrap();
    assert_eq!(task.folder, vec!["srv", "img", "a", "b"]);
    assert_eq!(task.file_name, "pic");
}

#[test]
fn random_name_is_generated_when_none_is_given() {
    let mut svc = ImageProcessingService::new(1, 30);
    let (id, _) = svc.create_image_processing_task(None, None, None, None, None);
    let task = svc.get_task_by_id(id).unwrap();
    assert_eq!(task.file_name.chars().count(), 15);
    assert!(task.file_name.chars().all(|c| c.is_ascii_alphanumeric()));
}

#[test]
fn error_messages_describe_the_failure() {
    assert_eq!(
        Error::ImageAlreadyAssigned.message(),
        "Image in ImageProcessingTask already assigned"
    );
    assert_eq!(Error::TaskNotFound(3).message(), "Task not found");
}

#[test]
fn status_labels_cover_every_state() {
    let mut svc = ImageProcessingService::new(1, 30);
    let (waiting_attach, _) = svc.create_image_processing_task(None, Some("a"), None, None, None);
    let dto = ImageProcessingTaskDto::from(&svc.get_task_by_id(waiting_attach).unwrap());
    assert_eq!(dto.status, "Waiting for image");
    assert!(dto.error.is_none());

    let (running, _) = svc.create_image_processing_task(img(1), Some("b"), None, None, None);
    let dto = ImageProcessingTaskDto::from(&svc.get_task_by_id(running).unwrap());
    assert_eq!(dto.status, "In progress");

    let (queued, _) = svc.create_image_processing_task(img(2), Some("c"), None, None, None);
    let dto = ImageProcessingTaskDto::from(&svc.get_task_by_id(queued).unwrap());
    assert_eq!(dto.status, "Waiting for process");

    assert!(svc.apply_completion(running, Ok("b.jpg".to_string())));
    let dto = ImageProcessingTaskDto::from(&svc.get_task_by_id(running).unwrap());
    assert_eq!(dto.status, "Completed");
    assert!(dto.error.is_none());
}
