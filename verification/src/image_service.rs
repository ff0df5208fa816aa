//! The admission-controlled task scheduler and its lifecycle state machine.
//!
//! The scheduler owns a table of task records, a FIFO queue of task ids
//! awaiting a worker slot, and the set of ids whose workers are currently
//! running. It is a sequential state machine: the runtime layer serializes
//! access to it, launches one worker per admitted task, and reports each
//! worker's terminal outcome back through `apply_completion`.
//!
//! Policy for races the runtime layer can produce: terminal states are
//! sticky. A record that reached `Completed` or `Canceled` is never moved to
//! any other state; a worker's completion for a canceled or removed task is
//! recorded nowhere, and a queued id whose record was canceled or removed is
//! discarded at admission instead of being admitted.

use vstd::prelude::*;
use std::collections::HashMap;
use std::collections::VecDeque;

verus! {

use crate::common::StringPath;
use crate::utils::generate_random_name;
use crate::utils::split_path_str_to_folder_names;
use crate::utils::split_path_spec;

broadcast use vstd::std_specs::hash::group_hash_axioms, vstd::seq_lib::group_seq_properties;

/// Identifies one task for the lifetime of the process. Identifiers are
/// allocated from a per-scheduler counter and never reused.
pub type TaskId = u64;

/// Stands for one decoded image held by the runtime layer on the scheduler's
/// behalf; the scheduler never looks inside the image itself.
#[derive(Clone, Copy, PartialEq, Eq, Structural, Debug)]
pub struct ImageHandle {
    pub token: u64,
}

/// Stands for one processing function registered with the runtime layer.
#[derive(Clone, Copy, PartialEq, Eq, Structural, Debug)]
pub struct TransformHandle {
    pub token: u64,
}

/// Stands for one completion callback registered with the runtime layer.
#[derive(Clone, Copy, PartialEq, Eq, Structural, Debug)]
pub struct HookHandle {
    pub token: u64,
}

/// Errors surfaced to callers of the scheduler's operations.
#[derive(Debug)]
pub enum Error {
    /// `attach_image_to_task` was called for a task that already holds an
    /// image.
    ImageAlreadyAssigned,
    /// An operation referenced an id that is unknown, removed, or no longer
    /// accepts the operation.
    TaskNotFound(TaskId),
}

impl Error {
    /// A human-readable description of the error.
    pub fn message(&self) -> (res: &'static str)
        ensures
            *self is ImageAlreadyAssigned ==> res@ == "Image in ImageProcessingTask already assigned"@,
            *self is TaskNotFound ==> res@ == "Task not found"@,
    {
        match self {
            Error::ImageAlreadyAssigned => "Image in ImageProcessingTask already assigned",
            Error::TaskNotFound(_) => "Task not found",
        }
    }
}

/// One task's lifecycle state. The non-terminal states are ordered
/// (`WaitingForImageAttachment`, then `Waiting`, then `InProgress`); a record
/// only ever moves forward along that order, into `Completed` with the
/// worker's outcome, or into `Canceled` from any non-terminal state.
pub enum ImageProcessingStatus {
    /// Created without an image; not schedulable until one is attached.
    WaitingForImageAttachment,
    /// Holds an image and sits in the admission queue.
    Waiting,
    /// Admitted; a worker is running it.
    InProgress,
    /// The worker finished: the path of the written artifact, or the error
    /// that the transform or the encoder reported.
    Completed(Result<StringPath, String>),
    /// Aborted from outside before completion, with the reason.
    Canceled(String),
}

impl ImageProcessingStatus {
    /// No transition leaves a terminal state.
    pub open spec fn is_terminal(self) -> bool {
        self is Completed || self is Canceled
    }
}

impl Clone for ImageProcessingStatus {
    fn clone(&self) -> (res: Self)
        ensures
            res == *self,
    {
        match self {
            ImageProcessingStatus::WaitingForImageAttachment => ImageProcessingStatus::WaitingForImageAttachment,
            ImageProcessingStatus::Waiting => ImageProcessingStatus::Waiting,
            ImageProcessingStatus::InProgress => ImageProcessingStatus::InProgress,
            ImageProcessingStatus::Completed(r) => ImageProcessingStatus::Completed(
                match r {
                    Ok(p) => Ok(p.clone()),
                    Err(e) => Err(e.clone()),
                },
            ),
            ImageProcessingStatus::Canceled(e) => ImageProcessingStatus::Canceled(e.clone()),
        }
    }
}

/// One unit of work: where its artifact goes, what it processes, and where
/// it stands in its lifecycle.
pub struct ImageProcessingTask {
    pub id: TaskId,
    pub status: ImageProcessingStatus,
    pub folder: Vec<String>,
    pub file_name: String,
    pub image: Option<ImageHandle>,
    pub processing_func: Option<TransformHandle>,
    pub callback: Option<HookHandle>,
}

impl ImageProcessingTask {
    pub fn get_status(&self) -> (res: &ImageProcessingStatus)
        ensures
            *res == self.status,
    {
        &self.status
    }

    /// The destination directory, as its folder names from the output root.
    pub fn get_folder(&self) -> (res: &Vec<String>)
        ensures
            *res == self.folder,
    {
        &self.folder
    }

    /// The base name of the artifact to write.
    pub fn get_file_name(&self) -> (res: &String)
        ensures
            *res == self.file_name,
    {
        &self.file_name
    }

    pub fn get_image(&self) -> (res: Option<ImageHandle>)
        ensures
            res == self.image,
    {
        self.image
    }

    pub fn get_processing_func(&self) -> (res: Option<TransformHandle>)
        ensures
            res == self.processing_func,
    {
        self.processing_func
    }

    pub fn get_callback(&self) -> (res: Option<HookHandle>)
        ensures
            res == self.callback,
    {
        self.callback
    }

}

impl Clone for ImageProcessingTask {
    fn clone(&self) -> (res: Self)
        ensures
            res@ == self@,
    {
        Self {
            id: self.id,
            status: self.status.clone(),
            folder: clone_string_vec(&self.folder),
            file_name: self.file_name.clone(),
            image: self.image,
            processing_func: self.processing_func,
            callback: self.callback,
        }
    }
}

fn clone_string_vec(v: &Vec<String>) -> (res: Vec<String>)
    ensures
        res@ == v@,
{
    let mut res: Vec<String> = Vec::new();
    let mut i: usize = 0;
    while i < v.len()
        invariant
            0 <= i <= v@.len(),
            res@ == v@.subrange(0, i as int),
        decreases v@.len() - i,
    {
        res.push(v[i].clone());
        assert(res@ =~= v@.subrange(0, i + 1));
        i += 1;
    }
    proof {
        assert(res@ =~= v@);
    }
    res
}

/// One task record as the contracts see it: the same fields, with the
/// destination directory as a sequence of folder names.
pub ghost struct TaskModel {
    pub id: TaskId,
    pub status: ImageProcessingStatus,
    pub folder: Seq<String>,
    pub file_name: String,
    pub image: Option<ImageHandle>,
    pub processing_func: Option<TransformHandle>,
    pub callback: Option<HookHandle>,
}

impl View for ImageProcessingTask {
    type V = TaskModel;

    open spec fn view(&self) -> TaskModel {
        TaskModel {
            id: self.id,
            status: self.status,
            folder: self.folder@,
            file_name: self.file_name,
            image: self.image,
            processing_func: self.processing_func,
            callback: self.callback,
        }
    }
}

impl TaskModel {
    /// The record's image is present exactly when its state asks for one:
    /// a record waiting for attachment has none, and a queued or running
    /// record has one.
    pub open spec fn state_ok(self) -> bool {
        &&& self.status is WaitingForImageAttachment ==> self.image is None
        &&& self.status is Waiting ==> self.image is Some
        &&& self.status is InProgress ==> self.image is Some
    }
}

/// The same record with another status.
pub open spec fn with_status(t: TaskModel, status: ImageProcessingStatus) -> TaskModel {
    TaskModel { status, ..t }
}

/// The records a task table holds, as the contracts see them.
pub open spec fn table_view(m: Map<u64, ImageProcessingTask>) -> Map<u64, TaskModel> {
    m.map_values(|t: ImageProcessingTask| t@)
}

/// The scheduler's abstract state: the record table, the admission queue,
/// the ids of the running workers, and the next fresh id.
pub ghost struct ServiceState {
    pub max: u32,
    pub quality: u8,
    pub folder: Seq<String>,
    pub tasks: Map<u64, TaskModel>,
    pub queue: Seq<u64>,
    pub running: Seq<u64>,
    pub next_id: u64,
}

/// A queue entry may be admitted while its record still exists and still
/// waits for a worker slot.
pub open spec fn admissible(tasks: Map<u64, TaskModel>, id: u64) -> bool {
    tasks.contains_key(id) && tasks[id].status is Waiting
}

/// The index of the earliest queue entry that may be admitted, or -1.
pub open spec fn first_admissible_index(tasks: Map<u64, TaskModel>, queue: Seq<u64>) -> int
    decreases queue.len(),
{
    if queue.len() == 0 {
        -1
    } else if admissible(tasks, queue[0]) {
        0
    } else {
        let r = first_admissible_index(tasks, queue.drop_first());
        if r < 0 {
            -1
        } else {
            r + 1
        }
    }
}

impl ServiceState {
    /// The invariants the scheduler maintains across every operation.
    pub open spec fn wf(self) -> bool {
        &&& self.queue.no_duplicates()
        &&& self.running.no_duplicates()
        &&& forall|i: int|
            0 <= i < self.queue.len() ==> !self.running.contains(#[trigger] self.queue[i])
        &&& forall|id: u64|
            self.tasks.contains_key(id) ==> (#[trigger] self.tasks[id]).id == id
        &&& forall|id: u64| #[trigger] self.tasks.contains_key(id) ==> id < self.next_id
        &&& forall|i: int| 0 <= i < self.queue.len() ==> #[trigger] self.queue[i] < self.next_id
        &&& forall|i: int|
            0 <= i < self.running.len() ==> #[trigger] self.running[i] < self.next_id
        &&& forall|id: u64|
            self.tasks.contains_key(id) && (#[trigger] self.tasks[id]).status is InProgress
                ==> self.running.contains(id)
        &&& forall|id: u64|
            self.tasks.contains_key(id) ==> (#[trigger] self.tasks[id]).state_ok()
        &&& forall|i: int|
            0 <= i < self.queue.len() && self.tasks.contains_key(#[trigger] self.queue[i])
                ==> (self.tasks[self.queue[i]].status is Waiting
                || self.tasks[self.queue[i]].status is Canceled)
        &&& forall|i: int|
            0 <= i < self.running.len() && self.tasks.contains_key(#[trigger] self.running[i])
                ==> (self.tasks[self.running[i]].status is InProgress
                || self.tasks[self.running[i]].status.is_terminal())
        &&& self.running.len() <= self.max
    }

    /// The state after a freshly created record is inserted: the record is
    /// stored, its id is queued when it already holds an image, and the id
    /// counter moves on.
    pub open spec fn with_created(self, t: TaskModel) -> ServiceState {
        ServiceState {
            max: self.max,
            quality: self.quality,
            folder: self.folder,
            tasks: self.tasks.insert(t.id, t),
            queue: if t.image is Some {
                self.queue.push(t.id)
            } else {
                self.queue
            },
            running: self.running,
            next_id: (self.next_id + 1) as u64,
        }
    }
}

/// How one admission attempt relates the state before it, the state after
/// it, and the task it hands to the runtime layer: with a free worker slot
/// it removes everything up to and including the earliest admissible queue
/// entry, marks that entry's record in progress and returns a copy of it;
/// entries whose record was canceled or removed while queued are discarded,
/// never admitted.
pub open spec fn admission_rel(
    pre: ServiceState,
    post: ServiceState,
    admitted: Option<TaskModel>,
) -> bool {
    &&& post.max == pre.max
    &&& post.quality == pre.quality
    &&& post.folder == pre.folder
    &&& post.next_id == pre.next_id
    &&& if pre.running.len() >= pre.max {
        &&& admitted is None
        &&& post.tasks == pre.tasks
        &&& post.queue == pre.queue
        &&& post.running == pre.running
    } else {
        let k = first_admissible_index(pre.tasks, pre.queue);
        if k < 0 {
            &&& admitted is None
            &&& post.tasks == pre.tasks
            &&& post.queue == Seq::<u64>::empty()
            &&& post.running == pre.running
        } else {
            let id = pre.queue[k];
            let t = with_status(pre.tasks[id], ImageProcessingStatus::InProgress);
            &&& admitted == Some(t)
            &&& post.tasks == pre.tasks.insert(id, t)
            &&& post.queue == pre.queue.skip(k + 1)
            &&& post.running == pre.running.push(id)
        }
    }
}

/// The scheduler. The runtime layer serializes access to it, performs the
/// worker launches it requests, and feeds completions back.
pub struct ImageProcessingService {
    /// How many tasks may run concurrently.
    pub max_in_progress_tasks_count: u32,
    /// The encoder quality handed to the codec for every artifact.
    pub image_quality: u8,
    /// The output root, as folder names; empty means the process's working
    /// directory.
    pub image_folder: Vec<String>,
    tasks: HashMap<u64, ImageProcessingTask>,
    waiting_task_ids: VecDeque<u64>,
    running_task_ids: Vec<u64>,
    next_task_id: u64,
}

impl View for ImageProcessingService {
    type V = ServiceState;

    closed spec fn view(&self) -> ServiceState {
        ServiceState {
            max: self.max_in_progress_tasks_count,
            quality: self.image_quality,
            folder: self.image_folder@,
            tasks: table_view(self.tasks@),
            queue: self.waiting_task_ids@,
            running: self.running_task_ids@,
            next_id: self.next_task_id,
        }
    }
}

impl ImageProcessingService {
    pub open spec fn well_formed(self) -> bool {
        self@.wf()
    }

    /// The number of tasks currently admitted whose completion has not yet
    /// been reconciled.
    pub fn in_progress_tasks_count(&self) -> (res: usize)
        ensures
            res == self@.running.len(),
    {
        self.running_task_ids.len()
    }

    /// The id the next created task will get.
    pub fn next_task_id(&self) -> (res: u64)
        ensures
            res == self@.next_id,
    {
        self.next_task_id
    }
}

impl Default for ImageProcessingService {
    /// An empty scheduler with ten worker slots, encoder quality 30, and the
    /// working directory as output root.
    fn default() -> (res: Self)
        ensures
            res.well_formed(),
            res@.max == 10,
            res@.quality == 30,
            res@.folder == Seq::<String>::empty(),
            res@.tasks == Map::<u64, TaskModel>::empty(),
            res@.queue == Seq::<u64>::empty(),
            res@.running == Seq::<u64>::empty(),
            res@.next_id == 0,
    {
        let res = ImageProcessingService {
            max_in_progress_tasks_count: 10,
            image_quality: 30,
            image_folder: Vec::new(),
            tasks: HashMap::new(),
            waiting_task_ids: VecDeque::new(),
            running_task_ids: Vec::new(),
            next_task_id: 0,
        };
        res
    }
}

impl ImageProcessingService {
    /// An empty scheduler with the given bound and quality, writing to the
    /// working directory.
    pub fn new(max_in_progress_tasks_count: u32, image_quality: u8) -> (res: Self)
        ensures
            res.well_formed(),
            res@.max == max_in_progress_tasks_count,
            res@.quality == image_quality,
            res@.folder == Seq::<String>::empty(),
            res@.tasks == Map::<u64, TaskModel>::empty(),
            res@.queue == Seq::<u64>::empty(),
            res@.running == Seq::<u64>::empty(),
            res@.next_id == 0,
    {
        ImageProcessingService {
            max_in_progress_tasks_count,
            image_quality,
            ..ImageProcessingService::default()
        }
    }

    /// An empty scheduler with the given bound, quality and output root.
    pub fn new_with_custom_path(
        max_in_progress_tasks_count: u32,
        image_quality: u8,
        image_folder: Vec<String>,
    ) -> (res: Self)
        ensures
            res.well_formed(),
            res@.max == max_in_progress_tasks_count,
            res@.quality == image_quality,
            res@.folder == image_folder@,
            res@.tasks == Map::<u64, TaskModel>::empty(),
            res@.queue == Seq::<u64>::empty(),
            res@.running == Seq::<u64>::empty(),
            res@.next_id == 0,
    {
        ImageProcessingService {
            max_in_progress_tasks_count,
            image_quality,
            image_folder,
            ..ImageProcessingService::default()
        }
    }
}


/// The view of an optionally returned task.
pub open spec fn view_option(o: Option<ImageProcessingTask>) -> Option<TaskModel> {
    match o {
        Some(t) => Some(t@),
        None => None,
    }
}

/// The character views of a sequence of folder names.
pub open spec fn seq_string_views(s: Seq<String>) -> Seq<Seq<char>> {
    s.map_values(|x: String| x@)
}

proof fn lemma_table_view_insert(m: Map<u64, ImageProcessingTask>, k: u64, v: ImageProcessingTask)
    ensures
        table_view(m.insert(k, v)) == table_view(m).insert(k, v@),
{
    assert(table_view(m.insert(k, v)) =~= table_view(m).insert(k, v@));
}

proof fn lemma_table_view_remove(m: Map<u64, ImageProcessingTask>, k: u64)
    ensures
        table_view(m.remove(k)) == table_view(m).remove(k),
{
    assert(table_view(m.remove(k)) =~= table_view(m).remove(k));
}

proof fn lemma_table_view_facts(m: Map<u64, ImageProcessingTask>)
    ensures
        forall|k: u64| #[trigger] table_view(m).contains_key(k) <==> m.contains_key(k),
        forall|k: u64| m.contains_key(k) ==> #[trigger] table_view(m)[k] == m[k]@,
{
}

/// What `first_admissible_index` returns: a position in the queue holding
/// an admissible entry with none earlier, or -1 when no entry is admissible.
pub proof fn lemma_first_admissible_index_props(tasks: Map<u64, TaskModel>, queue: Seq<u64>)
    ensures
        ({
            let k = first_admissible_index(tasks, queue);
            &&& k >= 0 ==> 0 <= k < queue.len() && admissible(tasks, queue[k]) && (forall|j: int|
                0 <= j < k ==> !admissible(tasks, queue[j]))
            &&& k < 0 ==> forall|j: int| 0 <= j < queue.len() ==> !admissible(tasks, queue[j])
        }),
    decreases queue.len(),
{
    if queue.len() > 0 && !admissible(tasks, queue[0]) {
        lemma_first_admissible_index_props(tasks, queue.drop_first());
        assert(forall|j: int|
            0 <= j < queue.drop_first().len() ==> queue.drop_first()[j] == queue[j + 1]);
        let k = first_admissible_index(tasks, queue);
        let r = first_admissible_index(tasks, queue.drop_first());
        if r >= 0 {
            assert(k == r + 1);
            assert(admissible(tasks, queue[k]));
            assert forall|j: int| 0 <= j < k implies !admissible(tasks, queue[j]) by {
                if j > 0 {
                    assert(queue[j] == queue.drop_first()[j - 1]);
                    assert(!admissible(tasks, queue.drop_first()[j - 1]));
                }
            }
        } else {
            assert forall|j: int| 0 <= j < queue.len() implies !admissible(tasks, queue[j]) by {
                if j > 0 {
                    assert(queue[j] == queue.drop_first()[j - 1]);
                    assert(!admissible(tasks, queue.drop_first()[j - 1]));
                }
            }
        }
    }
}

proof fn lemma_first_admissible_found(tasks: Map<u64, TaskModel>, queue: Seq<u64>, k: int)
    requires
        0 <= k < queue.len(),
        admissible(tasks, queue[k]),
        forall|j: int| 0 <= j < k ==> !admissible(tasks, queue[j]),
    ensures
        first_admissible_index(tasks, queue) == k,
    decreases k,
{
    if k > 0 {
        assert(forall|j: int|
            0 <= j < k - 1 ==> queue.drop_first()[j] == queue[j + 1] && !admissible(
                tasks,
                queue[j + 1],
            ));
        lemma_first_admissible_found(tasks, queue.drop_first(), k - 1);
    }
}

proof fn lemma_first_admissible_none(tasks: Map<u64, TaskModel>, queue: Seq<u64>)
    requires
        forall|j: int| 0 <= j < queue.len() ==> !admissible(tasks, queue[j]),
    ensures
        first_admissible_index(tasks, queue) == -1,
    decreases queue.len(),
{
    if queue.len() > 0 {
        assert(forall|j: int|
            0 <= j < queue.drop_first().len() ==> queue.drop_first()[j] == queue[j + 1]);
        lemma_first_admissible_none(tasks, queue.drop_first());
    }
}

fn find_index(v: &Vec<u64>, id: u64) -> (res: Option<usize>)
    ensures
        match res {
            Some(i) => i < v@.len() && v@[i as int] == id,
            None => !v@.contains(id),
        },
{
    let mut i: usize = 0;
    while i < v.len()
        invariant
            0 <= i <= v@.len(),
            forall|j: int| 0 <= j < i ==> v@[j] != id,
        decreases v@.len() - i,
    {
        if v[i] == id {
            return Some(i);
        }
        i += 1;
    }
    assert(!v@.contains(id));
    None
}

impl ImageProcessingService {
    /// Admits the earliest queued task that still waits for a slot, when a
    /// worker slot is free: its record becomes `InProgress` and a copy of it
    /// is returned for the runtime layer to launch. Queue entries whose
    /// record was canceled or removed while queued are discarded. Safe to
    /// call at any time; does nothing when all slots are taken or nothing is
    /// admissible.
    pub fn start_next_task_if_possible(&mut self) -> (admitted: Option<ImageProcessingTask>)
        requires
            old(self).well_formed(),
        ensures
            final(self).well_formed(),
            admission_rel(old(self)@, final(self)@, view_option(admitted)),
            admitted matches Some(t) ==> t@.status is InProgress && t@.image is Some
                && final(self)@.tasks.contains_key(t@.id) && final(self)@.tasks[t@.id] == t@,
    {
        if self.running_task_ids.len() >= self.max_in_progress_tasks_count as usize {
            return None;
        }
        let ghost pre = self@;
        let ghost mut dropped: int = 0;
        loop
            invariant
                self.well_formed(),
                pre == old(self)@,
                pre.wf(),
                self@.max == pre.max,
                self@.quality == pre.quality,
                self@.folder == pre.folder,
                self@.next_id == pre.next_id,
                self@.tasks == pre.tasks,
                self@.running == pre.running,
                pre.running.len() < pre.max,
                0 <= dropped <= pre.queue.len(),
                self@.queue == pre.queue.skip(dropped),
                forall|j: int| 0 <= j < dropped ==> !admissible(pre.tasks, pre.queue[j]),
            decreases self@.queue.len(),
        {
            let popped = self.waiting_task_ids.pop_front();
            match popped {
                None => {
                    proof {
                        assert(pre.queue.skip(dropped).len() == 0);
                        assert(dropped == pre.queue.len());
                        lemma_first_admissible_none(pre.tasks, pre.queue);
                        assert(self@.queue =~= Seq::<u64>::empty());
                    }
                    return None;
                },
                Some(id) => {
                    proof {
                        assert(id == pre.queue.skip(dropped)[0]);
                        assert(id == pre.queue[dropped]);
                    }
                    let admissible_now = match self.tasks.get(&id) {
                        Some(t) => matches!(t.status, ImageProcessingStatus::Waiting),
                        None => false,
                    };
                    proof {
                        lemma_table_view_facts(self.tasks@);
                        assert(admissible_now == admissible(pre.tasks, id));
                    }
                    if admissible_now {
                        proof {
                            lemma_first_admissible_found(pre.tasks, pre.queue, dropped);
                        }
                        let mut nt = self.tasks.get(&id).unwrap().clone();
                        nt.status = ImageProcessingStatus::InProgress;
                        let out = nt.clone();
                        let ghost tasks0 = self.tasks@;
                        self.tasks.insert(id, nt);
                        self.running_task_ids.push(id);
                        proof {
                            lemma_table_view_insert(tasks0, id, nt);
                            assert(self@.queue =~= pre.queue.skip(dropped + 1));
                            assert(self@.tasks[id] == with_status(pre.tasks[id], ImageProcessingStatus::InProgress));
                            assert(self@.tasks =~= pre.tasks.insert(id, with_status(pre.tasks[id], ImageProcessingStatus::InProgress)));
                            // the popped entry is in neither the remaining queue nor
                            // the old running set, so uniqueness survives the push
                            assert(!pre.running.contains(id));
                            assert(self@.running.no_duplicates()) by {
                                assert(forall|i: int, j: int|
                                    0 <= i < j < self@.running.len() ==> self@.running[i] != self@.running[j]);
                            }
                            assert(forall|i: int|
                                0 <= i < self@.queue.len() ==> !self@.running.contains(
                                    #[trigger] self@.queue[i],
                                )) by {
                                assert(forall|i: int|
                                    0 <= i < self@.queue.len() ==> self@.queue[i] == pre.queue[
                                        dropped + 1 + i
                                    ] && self@.queue[i] != id);
                            }
                            assert(self.well_formed());
                        }
                        return Some(out);
                    }
                    proof {
                        dropped = dropped + 1;
                        assert(self@.queue =~= pre.queue.skip(dropped));
                    }
                },
            }
        }
    }

    /// Creates a task. The record is stored under a fresh id with the
    /// destination built from the output root and the optional sub-folder,
    /// the given name or a random one, and status `Waiting` (queued) when an
    /// image is supplied or `WaitingForImageAttachment` otherwise. Admission
    /// is attempted afterwards; a task the attempt admits is returned with
    /// the fresh id.
    pub fn create_image_processing_task(
        &mut self,
        image: Option<ImageHandle>,
        name: Option<&str>,
        sub_folder: Option<&str>,
        processing_func: Option<TransformHandle>,
        callback: Option<HookHandle>,
    ) -> (res: (TaskId, Option<ImageProcessingTask>))
        requires
            old(self).well_formed(),
            old(self)@.next_id < u64::MAX,
        ensures
            final(self).well_formed(),
            res.0 == old(self)@.next_id,
            exists|t: TaskModel|
                {
                    &&& #[trigger] created_task_ok(
                        t,
                        old(self)@,
                        image,
                        name,
                        sub_folder,
                        processing_func,
                        callback,
                    )
                    &&& admission_rel(old(self)@.with_created(t), final(self)@, view_option(res.1))
                },
    {
        let id = self.next_task_id;
        self.next_task_id = self.next_task_id + 1;

        let mut folder = clone_string_vec(&self.image_folder);
        if let Some(sub) = sub_folder {
            let mut parts = split_path_str_to_folder_names(sub);
            proof {
                assert(parts.deep_view() =~= seq_string_views(parts@));
                assert(folder.deep_view() =~= seq_string_views(folder@));
            }
            folder.append(&mut parts);
        }
        proof {
            assert(seq_string_views(folder@) =~= seq_string_views(old(self)@.folder) + (match sub_folder {
                Some(sf) => crate::utils::split_path_spec(sf@),
                None => Seq::<Seq<char>>::empty(),
            }));
        }

        let file_name = match name {
            None => generate_random_name(15),
            Some(s) => String::from_str(s),
        };

        let with_image = image.is_some();
        let task = ImageProcessingTask {
            id,
            status: if with_image {
                ImageProcessingStatus::Waiting
            } else {
                ImageProcessingStatus::WaitingForImageAttachment
            },
            folder,
            file_name,
            image,
            processing_func,
            callback,
        };
        let ghost t = task@;
        let ghost tasks0 = self.tasks@;
        self.tasks.insert(id, task);
        if with_image {
            self.waiting_task_ids.push_back(id);
        }
        proof {
            lemma_table_view_insert(tasks0, id, task);
            assert(self@ == old(self)@.with_created(t));
            assert(self.well_formed());
        }
        let admitted = self.start_next_task_if_possible();
        proof {
            assert(created_task_ok(
                t,
                old(self)@,
                image,
                name,
                sub_folder,
                processing_func,
                callback,
            ));
        }
        (id, admitted)
    }

    /// Attaches the image of a task created without one: the record takes
    /// the image, becomes `Waiting` and is queued. Fails with
    /// `ImageAlreadyAssigned`, changing nothing, when the record already
    /// holds an image; fails with `TaskNotFound`, changing nothing, when the
    /// id is unknown or its record already reached a terminal state.
    pub fn attach_image_to_task(&mut self, id: TaskId, image: ImageHandle) -> (res: Result<
        (),
        Error,
    >)
        requires
            old(self).well_formed(),
        ensures
            final(self).well_formed(),
            final(self)@.max == old(self)@.max,
            final(self)@.quality == old(self)@.quality,
            final(self)@.folder == old(self)@.folder,
            final(self)@.next_id == old(self)@.next_id,
            final(self)@.running == old(self)@.running,
            match res {
                Ok(_) => {
                    &&& old(self)@.tasks.contains_key(id)
                    &&& old(self)@.tasks[id].image is None
                    &&& !old(self)@.tasks[id].status.is_terminal()
                    &&& final(self)@.tasks == old(self)@.tasks.insert(
                        id,
                        TaskModel {
                            status: ImageProcessingStatus::Waiting,
                            image: Some(image),
                            ..old(self)@.tasks[id]
                        },
                    )
                    &&& final(self)@.queue == old(self)@.queue.push(id)
                },
                Err(Error::ImageAlreadyAssigned) => {
                    &&& old(self)@.tasks.contains_key(id)
                    &&& old(self)@.tasks[id].image is Some
                    &&& final(self)@ == old(self)@
                },
                Err(Error::TaskNotFound(missing)) => {
                    &&& missing == id
                    &&& (!old(self)@.tasks.contains_key(id) || (old(self)@.tasks[id].image is None
                        && old(self)@.tasks[id].status.is_terminal()))
                    &&& final(self)@ == old(self)@
                },
            },
    {
        let (known, has_image, terminal) = match self.tasks.get(&id) {
            None => (false, false, false),
            Some(t) => (
                true,
                t.image.is_some(),
                matches!(
                    t.status,
                    ImageProcessingStatus::Completed(_) | ImageProcessingStatus::Canceled(_)
                ),
            ),
        };
        if !known {
            return Err(Error::TaskNotFound(id));
        }
        if has_image {
            return Err(Error::ImageAlreadyAssigned);
        }
        if terminal {
            return Err(Error::TaskNotFound(id));
        }
        let mut nt = self.tasks.get(&id).unwrap().clone();
        nt.status = ImageProcessingStatus::Waiting;
        nt.image = Some(image);
        let ghost tasks0 = self.tasks@;
        self.tasks.insert(id, nt);
        self.waiting_task_ids.push_back(id);
        proof {
            lemma_table_view_facts(tasks0);
            lemma_table_view_insert(tasks0, id, nt);
            assert(self@.tasks =~= old(self)@.tasks.insert(
                id,
                TaskModel {
                    status: ImageProcessingStatus::Waiting,
                    image: Some(image),
                    ..old(self)@.tasks[id]
                },
            ));
            // the record was waiting for its image, so its id cannot sit in
            // the queue or the running set, and the push keeps both laws
            assert(old(self)@.tasks[id].status is WaitingForImageAttachment);
            assert(!old(self)@.queue.contains(id)) by {
                assert(forall|i: int|
                    0 <= i < old(self)@.queue.len() ==> old(self)@.queue[i] != id);
            }
            assert(!old(self)@.running.contains(id)) by {
                assert(forall|i: int|
                    0 <= i < old(self)@.running.len() ==> old(self)@.running[i] != id);
            }
            assert(self@.queue.no_duplicates()) by {
                assert(forall|i: int, j: int|
                    0 <= i < j < self@.queue.len() ==> self@.queue[i] != self@.queue[j]);
            }
            assert forall|i: int|
                0 <= i < self@.queue.len() implies !self@.running.contains(
                #[trigger] self@.queue[i],
            ) by {
                if i < old(self)@.queue.len() {
                    assert(self@.queue[i] == old(self)@.queue[i]);
                }
            }
            assert forall|i: int|
                0 <= i < self@.queue.len() && self@.tasks.contains_key(
                    #[trigger] self@.queue[i],
                ) implies (self@.tasks[self@.queue[i]].status is Waiting
                || self@.tasks[self@.queue[i]].status is Canceled) by {
                if i < old(self)@.queue.len() {
                    assert(self@.queue[i] == old(self)@.queue[i]);
                    assert(self@.queue[i] != id);
                }
            }
            assert forall|id2: u64|
                #![trigger self@.tasks[id2]]
                #![trigger self@.tasks.contains_key(id2)]
                self@.tasks.contains_key(id2) implies self@.tasks[id2].id == id2 && id2 < self@.next_id by {
                if id2 == id {
                    assert(old(self)@.tasks.contains_key(id));
                    assert(old(self)@.tasks[id].id == id);
                } else {
                    assert(old(self)@.tasks.contains_key(id2));
                    assert(self@.tasks[id2] == old(self)@.tasks[id2]);
                }
            }
            assert(self.well_formed());
        }
        Ok(())
    }

    /// Cancels a task: a record in a non-terminal state becomes
    /// `Canceled(reason)`. A terminal record and an unknown id are left
    /// untouched; the operation never fails.
    pub fn cancel_task(&mut self, task_id: TaskId, reason: String)
        requires
            old(self).well_formed(),
        ensures
            final(self).well_formed(),
            final(self)@.max == old(self)@.max,
            final(self)@.quality == old(self)@.quality,
            final(self)@.folder == old(self)@.folder,
            final(self)@.next_id == old(self)@.next_id,
            final(self)@.queue == old(self)@.queue,
            final(self)@.running == old(self)@.running,
            final(self)@.tasks == (if old(self)@.tasks.contains_key(task_id) && !old(
                self,
            )@.tasks[task_id].status.is_terminal() {
                old(self)@.tasks.insert(
                    task_id,
                    with_status(
                        old(self)@.tasks[task_id],
                        ImageProcessingStatus::Canceled(reason),
                    ),
                )
            } else {
                old(self)@.tasks
            }),
    {
        let (known, terminal) = match self.tasks.get(&task_id) {
            None => (false, false),
            Some(t) => (
                true,
                matches!(
                    t.status,
                    ImageProcessingStatus::Completed(_) | ImageProcessingStatus::Canceled(_)
                ),
            ),
        };
        if !known || terminal {
            return ;
        }
        let mut nt = self.tasks.get(&task_id).unwrap().clone();
        nt.status = ImageProcessingStatus::Canceled(reason);
        let ghost tasks0 = self.tasks@;
        self.tasks.insert(task_id, nt);
        proof {
            lemma_table_view_facts(tasks0);
            lemma_table_view_insert(tasks0, task_id, nt);
            assert(self@.tasks =~= old(self)@.tasks.insert(
                task_id,
                with_status(old(self)@.tasks[task_id], ImageProcessingStatus::Canceled(reason)),
            ));
            assert forall|id2: u64|
                self@.tasks.contains_key(id2) && (#[trigger] self@.tasks[id2]).status
                    is InProgress implies self@.running.contains(id2) by {
                assert(id2 != task_id);
                assert(old(self)@.tasks[id2] == self@.tasks[id2]);
            }
            assert forall|id2: u64|
                #![trigger self@.tasks[id2]]
                #![trigger self@.tasks.contains_key(id2)]
                self@.tasks.contains_key(id2) implies self@.tasks[id2].id == id2 && id2 < self@.next_id by {
                if id2 == task_id {
                    assert(old(self)@.tasks.contains_key(task_id));
                    assert(old(self)@.tasks[task_id].id == task_id);
                } else {
                    assert(old(self)@.tasks.contains_key(id2));
                    assert(self@.tasks[id2] == old(self)@.tasks[id2]);
                }
            }
            assert(self.well_formed());
        }
    }

    /// Removes a task's record and reports whether it existed. A worker
    /// already running for the id keeps running; its completion is later
    /// discarded as referring to an unknown id.
    pub fn remove_image_processing_task(&mut self, id: TaskId) -> (res: bool)
        requires
            old(self).well_formed(),
        ensures
            final(self).well_formed(),
            final(self)@.max == old(self)@.max,
            final(self)@.quality == old(self)@.quality,
            final(self)@.folder == old(self)@.folder,
            final(self)@.next_id == old(self)@.next_id,
            final(self)@.queue == old(self)@.queue,
            final(self)@.running == old(self)@.running,
            res == old(self)@.tasks.contains_key(id),
            final(self)@.tasks == old(self)@.tasks.remove(id),
    {
        let ghost tasks0 = self.tasks@;
        let removed = self.tasks.remove(&id);
        proof {
            lemma_table_view_remove(tasks0, id);
            assert(self.well_formed());
        }
        match removed {
            Some(_) => true,
            None => false,
        }
    }

    /// A snapshot of the task's current record, or nothing for an unknown
    /// id.
    pub fn get_task_by_id(&self, task_id: TaskId) -> (res: Option<ImageProcessingTask>)
        ensures
            match res {
                Some(t) => self@.tasks.contains_key(task_id) && t@ == self@.tasks[task_id],
                None => !self@.tasks.contains_key(task_id),
            },
    {
        match self.tasks.get(&task_id) {
            Some(task) => Some(task.clone()),
            None => None,
        }
    }

    /// Applies one completion report from a worker: frees the worker's
    /// slot and, when the record still exists and is still `InProgress`,
    /// stores the terminal outcome. A report whose id matches no running
    /// worker is discarded whole; a record already canceled or removed
    /// keeps its state, only the slot is freed. Returns whether a slot was
    /// freed.
    pub fn apply_completion(&mut self, id: TaskId, outcome: Result<StringPath, String>) -> (res:
        bool)
        requires
            old(self).well_formed(),
        ensures
            final(self).well_formed(),
            final(self)@.max == old(self)@.max,
            final(self)@.quality == old(self)@.quality,
            final(self)@.folder == old(self)@.folder,
            final(self)@.next_id == old(self)@.next_id,
            final(self)@.queue == old(self)@.queue,
            res == old(self)@.running.contains(id),
            !old(self)@.running.contains(id) ==> final(self)@ == old(self)@,
            old(self)@.running.contains(id) ==> {
                &&& exists|i: int|
                    0 <= i < old(self)@.running.len() && old(self)@.running[i] == id
                        && final(self)@.running == old(self)@.running.remove(i)
                &&& final(self)@.tasks == (if old(self)@.tasks.contains_key(id) && old(
                    self,
                )@.tasks[id].status is InProgress {
                    old(self)@.tasks.insert(
                        id,
                        with_status(
                            old(self)@.tasks[id],
                            ImageProcessingStatus::Completed(outcome),
                        ),
                    )
                } else {
                    old(self)@.tasks
                })
            },
    {
        let found = find_index(&self.running_task_ids, id);
        match found {
            None => false,
            Some(i) => {
                proof {
                    assert(old(self)@.running.contains(id)) by {
                        assert(old(self)@.running[i as int] == id);
                    }
                }
                self.running_task_ids.remove(i);
                proof {
                    old(self)@.running.remove_ensures(i as int);
                }
                let update = match self.tasks.get(&id) {
                    Some(t) => matches!(t.status, ImageProcessingStatus::InProgress),
                    None => false,
                };
                if update {
                    let mut nt = self.tasks.get(&id).unwrap().clone();
                    nt.status = ImageProcessingStatus::Completed(outcome);
                    let ghost tasks0 = self.tasks@;
                    self.tasks.insert(id, nt);
                    proof {
                        lemma_table_view_insert(tasks0, id, nt);
                        assert(self@.tasks =~= old(self)@.tasks.insert(
                            id,
                            with_status(
                                old(self)@.tasks[id],
                                ImageProcessingStatus::Completed(outcome),
                            ),
                        ));
                    }
                }
                proof {
                    let r0 = old(self)@.running;
                    let r1 = self@.running;
                    assert(r1 == r0.remove(i as int));
                    assert(r1.no_duplicates()) by {
                        assert(forall|a: int, b: int|
                            0 <= a < b < r1.len() ==> r1[a] != r1[b]);
                    }
                    assert(forall|x: u64| r1.contains(x) ==> r0.contains(x)) by {
                        assert(forall|a: int|
                            0 <= a < r1.len() ==> r0.contains(r1[a])) by {
                            assert(forall|a: int|
                                0 <= a < r1.len() ==> r1[a] == (if a < i as int {
                                    r0[a]
                                } else {
                                    r0[a + 1]
                                }));
                        }
                    }
                    assert(!r1.contains(id)) by {
                        assert(forall|a: int| 0 <= a < r1.len() ==> r1[a] != id);
                    }
                    assert(forall|x: u64| r0.contains(x) && x != id ==> r1.contains(x)) by {
                        assert(forall|a: int|
                            0 <= a < r0.len() && r0[a] != id ==> r1.contains(r0[a])) by {
                            assert(forall|a: int|
                                0 <= a < r0.len() && a < i as int ==> r1[a] == r0[a]);
                            assert(forall|a: int|
                                (i as int) < a < r0.len() ==> r1[a - 1] == r0[a]);
                        }
                    }
                    assert(self.well_formed());
                }
                true
            },
        }
    }
}

/// What a freshly created record looks like: the fresh id, the supplied
/// image, transform and callback, the destination assembled from the output
/// root and the split sub-folder, the given name or a random fifteen-letter
/// one, and the state that matches the image's presence.
pub open spec fn created_task_ok(
    t: TaskModel,
    pre: ServiceState,
    image: Option<ImageHandle>,
    name: Option<&str>,
    sub_folder: Option<&str>,
    processing_func: Option<TransformHandle>,
    callback: Option<HookHandle>,
) -> bool {
    &&& t.id == pre.next_id
    &&& t.status == (if image is Some {
        ImageProcessingStatus::Waiting
    } else {
        ImageProcessingStatus::WaitingForImageAttachment
    })
    &&& t.image == image
    &&& t.processing_func == processing_func
    &&& t.callback == callback
    &&& seq_string_views(t.folder) == seq_string_views(pre.folder) + (match sub_folder {
        Some(sf) => crate::utils::split_path_spec(sf@),
        None => Seq::<Seq<char>>::empty(),
    })
    &&& match name {
        Some(n) => t.file_name@ == n@,
        None => t.file_name@.len() == 15 && (forall|i: int|
            0 <= i < t.file_name@.len() ==> crate::utils::is_alphanumeric_char(
                #[trigger] t.file_name@[i],
            )),
    }
}


/// What a worker does next once the optional transform has run.
pub enum WorkerStep {
    /// Hand this image to the codec for persistence.
    Persist(ImageHandle),
    /// Skip persistence and report this terminal outcome.
    Report(Result<StringPath, String>),
}

/// The worker's decision after the optional transform: without a transform
/// the original image is persisted; a transformed image replaces it; a
/// transform error ends the task with that error and nothing is persisted.
/// The runtime layer passes the transform's result, or nothing when the
/// task has no transform.
pub fn worker_after_transform(
    image: ImageHandle,
    transform_result: Option<Result<ImageHandle, String>>,
) -> (res: WorkerStep)
    ensures
        match transform_result {
            None => res == WorkerStep::Persist(image),
            Some(Ok(transformed)) => res == WorkerStep::Persist(transformed),
            Some(Err(e)) => res == WorkerStep::Report(Err(e)),
        },
{
    match transform_result {
        None => WorkerStep::Persist(image),
        Some(Ok(transformed)) => WorkerStep::Persist(transformed),
        Some(Err(e)) => WorkerStep::Report(Err(e)),
    }
}

/// A worker's completion hook runs exactly when persistence succeeded and a
/// hook was registered, after the completion is reported.
pub fn should_invoke_callback(
    outcome: &Result<StringPath, String>,
    callback: Option<HookHandle>,
) -> (res: bool)
    ensures
        res == (outcome is Ok && callback is Some),
{
    outcome.is_ok() && callback.is_some()
}

/// The ids of the records marked in progress.
pub open spec fn in_progress_ids(s: ServiceState) -> Set<u64> {
    s.tasks.dom().filter(|id: u64| s.tasks[id].status is InProgress)
}

/// However the scheduler is driven, the records marked in progress never
/// outnumber the occupied worker slots, and those never exceed the
/// configured bound.
pub proof fn lemma_in_progress_bounded(s: ServiceState)
    requires
        s.wf(),
    ensures
        in_progress_ids(s).finite(),
        in_progress_ids(s).len() <= s.running.len(),
        s.running.len() <= s.max,
{
    let ips = in_progress_ids(s);
    let rs = s.running.to_set();
    assert forall|id: u64| ips.contains(id) implies rs.contains(id) by {
        assert(s.tasks.contains_key(id));
        assert(s.running.contains(id));
    }
    s.running.unique_seq_to_set();
    vstd::set_lib::lemma_len_subset(ips, rs);
}

/// FIFO admission: while an earlier queue entry can still be admitted, no
/// later entry is the one admitted. The task admitted is the queue's
/// earliest entry that is still admissible.
pub proof fn lemma_admission_is_fifo(
    pre: ServiceState,
    post: ServiceState,
    admitted: Option<TaskModel>,
    i: int,
    j: int,
)
    requires
        pre.wf(),
        admission_rel(pre, post, admitted),
        pre.running.len() < pre.max,
        0 <= i < j < pre.queue.len(),
        admissible(pre.tasks, pre.queue[i]),
    ensures
        admitted is Some,
        0 <= first_admissible_index(pre.tasks, pre.queue) <= i,
        admitted == Some(
            with_status(
                pre.tasks[pre.queue[first_admissible_index(pre.tasks, pre.queue)]],
                ImageProcessingStatus::InProgress,
            ),
        ),
        admitted->Some_0.id != pre.queue[j],
{
    lemma_first_admissible_index_props(pre.tasks, pre.queue);
    let k = first_admissible_index(pre.tasks, pre.queue);
    assert(k >= 0);
    assert(k <= i);
    assert(pre.tasks[pre.queue[k]].id == pre.queue[k]);
    assert(pre.queue[k] != pre.queue[j]);
}

/// A record still waiting for its image is never the one admitted, and
/// admission leaves it untouched.
pub proof fn lemma_unattached_never_admitted(
    pre: ServiceState,
    post: ServiceState,
    admitted: Option<TaskModel>,
    id: u64,
)
    requires
        pre.wf(),
        admission_rel(pre, post, admitted),
        pre.tasks.contains_key(id),
        pre.tasks[id].status is WaitingForImageAttachment,
    ensures
        admitted matches Some(t) ==> t.id != id,
        post.tasks.contains_key(id),
        post.tasks[id] == pre.tasks[id],
{
    lemma_first_admissible_index_props(pre.tasks, pre.queue);
    let k = first_admissible_index(pre.tasks, pre.queue);
    if pre.running.len() < pre.max && k >= 0 {
        assert(admissible(pre.tasks, pre.queue[k]));
        assert(pre.queue[k] != id);
        assert(pre.tasks[pre.queue[k]].id == pre.queue[k]);
    }
}

/// Removing a task twice reports success once, then failure, and the id
/// stays absent afterwards, so every later query reports absence.
pub proof fn lemma_remove_idempotent(
    s0: ServiceState,
    s1: ServiceState,
    s2: ServiceState,
    id: u64,
    r1: bool,
    r2: bool,
)
    requires
        s0.tasks.contains_key(id),
        r1 == s0.tasks.contains_key(id),
        s1.tasks == s0.tasks.remove(id),
        r2 == s1.tasks.contains_key(id),
        s2.tasks == s1.tasks.remove(id),
    ensures
        r1,
        !r2,
        !s1.tasks.contains_key(id),
        !s2.tasks.contains_key(id),
{
}

} // verus!
