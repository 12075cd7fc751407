//! A queue of transfer tasks: which task starts next, and how tasks move
//! from pending through in progress to completed, failed or cancelled.
use vstd::prelude::*;
use crate::config::{generate_instance_id, hyphenated_uuid};
use crate::lists::{first_where, lemma_first_where, lemma_first_where_props};
use crate::share::{opt_view, clone_opt};
use crate::text::str_equal;

verus! {

#[derive(Debug, Clone, Copy, PartialEq, Eq, Structural)]
pub enum TaskStatus {
    Pending,
    InProgress,
    Completed,
    Failed,
    Cancelled,
}

/// The bit pattern of the `f64` value 1.0, the progress of a finished task.
pub const PROGRESS_DONE_BITS: u64 = 0x3FF0_0000_0000_0000;

#[derive(Debug)]
pub struct TransferTask {
    pub task_id: String,
    pub file_id: String,
    pub file_name: String,
    pub file_size: u64,
    pub target_device: String,
    pub status: TaskStatus,
    /// The fraction done, as the bit pattern of an `f64` (`f64::to_bits`).
    pub progress_bits: u64,
    pub error: Option<String>,
}

/// A task with its text as character sequences.
pub struct TaskView {
    pub task_id: Seq<char>,
    pub file_id: Seq<char>,
    pub file_name: Seq<char>,
    pub file_size: u64,
    pub target_device: Seq<char>,
    pub status: TaskStatus,
    pub progress_bits: u64,
    pub error: Option<Seq<char>>,
}

impl View for TransferTask {
    type V = TaskView;

    open spec fn view(&self) -> TaskView {
        TaskView {
            task_id: self.task_id@,
            file_id: self.file_id@,
            file_name: self.file_name@,
            file_size: self.file_size,
            target_device: self.target_device@,
            status: self.status,
            progress_bits: self.progress_bits,
            error: opt_view(self.error),
        }
    }
}

impl Clone for TransferTask {
    fn clone(&self) -> (r: Self)
        ensures
            r@ == self@,
    {
        TransferTask {
            task_id: self.task_id.clone(),
            file_id: self.file_id.clone(),
            file_name: self.file_name.clone(),
            file_size: self.file_size,
            target_device: self.target_device.clone(),
            status: self.status,
            progress_bits: self.progress_bits,
            error: clone_opt(&self.error),
        }
    }
}

impl TransferTask {
    /// A pending task, with no progress, under a fresh random id.
    pub fn new(file_id: String, file_name: String, file_size: u64, target_device: String) -> (t: TransferTask)
        ensures
            hyphenated_uuid(t.task_id@),
            t.file_id == file_id,
            t.file_name == file_name,
            t.file_size == file_size,
            t.target_device == target_device,
            t.status == TaskStatus::Pending,
            t.progress_bits == 0,
            t.error is None,
    {
        TransferTask {
            task_id: generate_instance_id(),
            file_id,
            file_name,
            file_size,
            target_device,
            status: TaskStatus::Pending,
            progress_bits: 0,
            error: None,
        }
    }
}

pub open spec fn tasks_view(v: Seq<TransferTask>) -> Seq<TaskView> {
    v.map_values(|t: TransferTask| t@)
}

pub open spec fn is_pending() -> spec_fn(TaskView) -> bool {
    |t: TaskView| t.status == TaskStatus::Pending
}

pub open spec fn has_id(id: Seq<char>) -> spec_fn(TaskView) -> bool {
    |t: TaskView| t.task_id == id
}

/// `s` with the first task of id `id` changed to `changed`, if there is one.
pub open spec fn change_first(s: Seq<TaskView>, id: Seq<char>, changed: TaskView) -> Seq<TaskView> {
    let i = first_where(s, has_id(id));
    if i >= 0 {
        s.update(i, changed)
    } else {
        s
    }
}

/// The number of tasks in progress.
pub open spec fn in_progress_count(s: Seq<TaskView>) -> nat {
    s.filter(|t: TaskView| t.status == TaskStatus::InProgress).len()
}

pub struct TaskQueue {
    tasks: Vec<TransferTask>,
    max_concurrent: usize,
}

impl TaskQueue {
    pub closed spec fn tasks_spec(&self) -> Seq<TaskView> {
        tasks_view(self.tasks@)
    }

    pub closed spec fn max_spec(&self) -> usize {
        self.max_concurrent
    }

    pub fn new(max_concurrent: usize) -> (q: TaskQueue)
        ensures
            q.tasks_spec() == Seq::<TaskView>::empty(),
            q.max_spec() == max_concurrent,
    {
        let q = TaskQueue { tasks: Vec::new(), max_concurrent };
        assert(q.tasks_spec() =~= Seq::<TaskView>::empty());
        q
    }

    pub fn update_max_concurrent(&mut self, n: usize)
        ensures
            final(self).max_spec() == n,
            final(self).tasks_spec() == old(self).tasks_spec(),
    {
        self.max_concurrent = n;
    }

    /// Puts a task at the end of the queue.
    pub fn add_task(&mut self, task: TransferTask)
        ensures
            final(self).tasks_spec() == old(self).tasks_spec().push(task@),
            final(self).max_spec() == old(self).max_spec(),
    {
        let ghost before = self.tasks@;
        self.tasks.push(task);
        assert(tasks_view(self.tasks@) =~= tasks_view(before).push(self.tasks@[before.len() as int]@));
    }

    fn find(&self, task_id: &str) -> (r: Option<usize>)
        ensures
            match r {
                Some(i) => i < self.tasks@.len() && i == first_where(self.tasks_spec(), has_id(task_id@)),
                None => first_where(self.tasks_spec(), has_id(task_id@)) == -1,
            },
    {
        let ghost s = self.tasks_spec();
        let ghost p = has_id(task_id@);
        let mut i: usize = 0;
        while i < self.tasks.len()
            invariant
                i <= self.tasks@.len(),
                s == self.tasks_spec(),
                p == has_id(task_id@),
                forall|k: int| 0 <= k < i ==> !p(#[trigger] s[k]),
            decreases self.tasks@.len() - i,
        {
            if str_equal(self.tasks[i].task_id.as_str(), task_id) {
                proof {
                    assert(p(s[i as int]));
                    lemma_first_where(s, p, i as int);
                }
                return Some(i);
            }
            assert(!p(s[i as int]));
            i = i + 1;
        }
        proof {
            lemma_first_where(s, p, i as int);
        }
        None
    }

    /// Takes the first pending task: it becomes in progress, and a copy of
    /// it (as it now is) is given back.  Nothing when no task is pending.
    pub fn get_next_pending(&mut self) -> (r: Option<TransferTask>)
        ensures
            ({
                let s = old(self).tasks_spec();
                let i = first_where(s, is_pending());
                if i >= 0 {
                    let started = TaskView { status: TaskStatus::InProgress, ..s[i] };
                    &&& final(self).tasks_spec() == s.update(i, started)
                    &&& r matches Some(t) && t@ == started
                } else {
                    &&& final(self).tasks_spec() == s
                    &&& r is None
                }
            }),
            final(self).max_spec() == old(self).max_spec(),
    {
        let ghost s = self.tasks_spec();
        let ghost p = is_pending();
        let mut i: usize = 0;
        while i < self.tasks.len()
            invariant
                i <= self.tasks@.len(),
                s == self.tasks_spec(),
                s == old(self).tasks_spec(),
                self.max_concurrent == old(self).max_concurrent,
                self.tasks@ == old(self).tasks@,
                p == is_pending(),
                forall|k: int| 0 <= k < i ==> !p(#[trigger] s[k]),
            decreases self.tasks@.len() - i,
        {
            if self.tasks[i].status == TaskStatus::Pending {
                proof {
                    assert(p(s[i as int]));
                    lemma_first_where(s, p, i as int);
                }
                let mut t = self.tasks[i].clone();
                t.status = TaskStatus::InProgress;
                let out = t.clone();
                let ghost before = self.tasks@;
                self.tasks.set(i, t);
                assert(tasks_view(self.tasks@) =~= tasks_view(before).update(
                    i as int,
                    TaskView { status: TaskStatus::InProgress, ..tasks_view(before)[i as int] },
                ));
                return Some(out);
            }
            assert(!p(s[i as int]));
            i = i + 1;
        }
        proof {
            lemma_first_where(s, p, i as int);
        }
        None
    }

    fn change(&mut self, i: usize, t: TransferTask)
        requires
            i < old(self).tasks@.len(),
        ensures
            final(self).tasks_spec() == old(self).tasks_spec().update(i as int, t@),
            final(self).max_spec() == old(self).max_spec(),
    {
        let ghost before = self.tasks@;
        let ghost tv = t@;
        self.tasks.set(i, t);
        assert(tasks_view(self.tasks@) =~= tasks_view(before).update(i as int, tv));
    }

    /// Records the progress of the task `task_id`.
    pub fn update_task_progress(&mut self, task_id: &str, progress_bits: u64)
        ensures
            ({
                let s = old(self).tasks_spec();
                let i = first_where(s, has_id(task_id@));
                final(self).tasks_spec() == change_first(s, task_id@, TaskView { progress_bits, ..s[i] })
            }),
            final(self).max_spec() == old(self).max_spec(),
    {
        if let Some(i) = self.find(task_id) {
            let mut t = self.tasks[i].clone();
            t.progress_bits = progress_bits;
            self.change(i, t);
        }
    }

    /// Marks the task `task_id` completed, with all of its progress done.
    pub fn complete_task(&mut self, task_id: &str)
        ensures
            ({
                let s = old(self).tasks_spec();
                let i = first_where(s, has_id(task_id@));
                final(self).tasks_spec() == change_first(
                    s,
                    task_id@,
                    TaskView { status: TaskStatus::Completed, progress_bits: PROGRESS_DONE_BITS, ..s[i] },
                )
            }),
            final(self).max_spec() == old(self).max_spec(),
    {
        if let Some(i) = self.find(task_id) {
            let mut t = self.tasks[i].clone();
            t.status = TaskStatus::Completed;
            t.progress_bits = PROGRESS_DONE_BITS;
            self.change(i, t);
        }
    }

    /// Marks the task `task_id` failed with `error`.
    pub fn fail_task(&mut self, task_id: &str, error: String)
        ensures
            ({
                let s = old(self).tasks_spec();
                let i = first_where(s, has_id(task_id@));
                final(self).tasks_spec() == change_first(
                    s,
                    task_id@,
                    TaskView { status: TaskStatus::Failed, error: Some(error@), ..s[i] },
                )
            }),
            final(self).max_spec() == old(self).max_spec(),
    {
        if let Some(i) = self.find(task_id) {
            let mut t = self.tasks[i].clone();
            t.status = TaskStatus::Failed;
            t.error = Some(error);
            self.change(i, t);
        }
    }

    /// Marks the task `task_id` cancelled.
    pub fn cancel_task(&mut self, task_id: &str)
        ensures
            ({
                let s = old(self).tasks_spec();
                let i = first_where(s, has_id(task_id@));
                final(self).tasks_spec() == change_first(
                    s,
                    task_id@,
                    TaskView { status: TaskStatus::Cancelled, ..s[i] },
                )
            }),
            final(self).max_spec() == old(self).max_spec(),
    {
        if let Some(i) = self.find(task_id) {
            let mut t = self.tasks[i].clone();
            t.status = TaskStatus::Cancelled;
            self.change(i, t);
        }
    }

    /// A copy of every task, in queue order.
    pub fn list_tasks(&self) -> (r: Vec<TransferTask>)
        ensures
            tasks_view(r@) == self.tasks_spec(),
    {
        let mut r: Vec<TransferTask> = Vec::new();
        let mut i: usize = 0;
        while i < self.tasks.len()
            invariant
                i <= self.tasks@.len(),
                tasks_view(r@) == tasks_view(self.tasks@.take(i as int)),
            decreases self.tasks@.len() - i,
        {
            let ghost before = r@;
            r.push(self.tasks[i].clone());
            assert(tasks_view(r@) =~= tasks_view(before).push(self.tasks@[i as int]@));
            assert(tasks_view(self.tasks@.take(i + 1)) =~= tasks_view(self.tasks@.take(i as int)).push(
                self.tasks@[i as int]@,
            ));
            i = i + 1;
        }
        assert(self.tasks@.take(self.tasks@.len() as int) =~= self.tasks@);
        r
    }

    /// A copy of the first task of id `task_id`.
    pub fn get_task(&self, task_id: &str) -> (r: Option<TransferTask>)
        ensures
            ({
                let s = self.tasks_spec();
                let i = first_where(s, has_id(task_id@));
                if i >= 0 {
                    r matches Some(t) && t@ == s[i]
                } else {
                    r is None
                }
            }),
    {
        match self.find(task_id) {
            Some(i) => Some(self.tasks[i].clone()),
            None => None,
        }
    }

    /// The number of tasks in progress.
    pub fn active_count(&self) -> (n: usize)
        ensures
            n == in_progress_count(self.tasks_spec()),
    {
        let ghost f = |t: TaskView| t.status == TaskStatus::InProgress;
        let mut n: usize = 0;
        let mut i: usize = 0;
        while i < self.tasks.len()
            invariant
                i <= self.tasks@.len(),
                f == (|t: TaskView| t.status == TaskStatus::InProgress),
                n == tasks_view(self.tasks@.take(i as int)).filter(f).len(),
                n <= i,
            decreases self.tasks@.len() - i,
        {
            proof {
                assert(tasks_view(self.tasks@.take(i + 1)) =~= tasks_view(self.tasks@.take(i as int)).push(
                    self.tasks@[i as int]@,
                ));
                tasks_view(self.tasks@.take(i as int)).lemma_filter_push(self.tasks@[i as int]@, f);
            }
            if self.tasks[i].status == TaskStatus::InProgress {
                n = n + 1;
            }
            i = i + 1;
        }
        assert(self.tasks@.take(self.tasks@.len() as int) =~= self.tasks@);
        n
    }

    /// Whether another task may start: fewer are in progress than allowed.
    pub fn can_start_new(&self) -> (r: bool)
        ensures
            r == (in_progress_count(self.tasks_spec()) < self.max_spec()),
    {
        self.active_count() < self.max_concurrent
    }
}

/// Taking the next pending task starts the first pending one and leaves
/// every other task as it was.
pub proof fn law_next_pending_is_first(s: Seq<TaskView>)
    ensures
        first_where(s, is_pending()) >= 0 ==> s[first_where(s, is_pending())].status
            == TaskStatus::Pending,
        forall|k: int| 0 <= k < first_where(s, is_pending()) ==> s[k].status != TaskStatus::Pending,
        first_where(s, is_pending()) == -1 ==> forall|k: int|
            0 <= k < s.len() ==> s[k].status != TaskStatus::Pending,
{
    lemma_first_where_props(s, is_pending());
    assert forall|k: int| 0 <= k < first_where(s, is_pending()) implies s[k].status != TaskStatus::Pending by {
        assert(!is_pending()(s[k]));
    }
    if first_where(s, is_pending()) == -1 {
        assert forall|k: int| 0 <= k < s.len() implies s[k].status != TaskStatus::Pending by {
            assert(!is_pending()(s[k]));
        }
    }
}


proof fn lemma_start_count(s: Seq<TaskView>, i: int, x: TaskView)
    requires
        0 <= i < s.len(),
        s[i].status != TaskStatus::InProgress,
        x.status == TaskStatus::InProgress,
    ensures
        in_progress_count(s.update(i, x)) == in_progress_count(s) + 1,
    decreases s.len(),
{
    let f = |t: TaskView| t.status == TaskStatus::InProgress;
    let pre = s.drop_last();
    let last = s.last();
    assert(s =~= pre.push(last));
    pre.lemma_filter_push(last, f);
    if i == s.len() - 1 {
        assert(s.update(i, x) =~= pre.push(x));
        pre.lemma_filter_push(x, f);
    } else {
        lemma_start_count(pre, i, x);
        assert(s.update(i, x) =~= pre.update(i, x).push(last));
        pre.update(i, x).lemma_filter_push(last, f);
    }
}

/// Starting the next pending task puts exactly one more task in progress;
/// so a scheduler that starts a task only while `can_start_new` holds never
/// has more than `max_concurrent` tasks in progress.
pub proof fn law_start_keeps_limit(s: Seq<TaskView>, max_concurrent: usize)
    requires
        in_progress_count(s) < max_concurrent,
    ensures
        ({
            let i = first_where(s, is_pending());
            i >= 0 ==> {
                let after = s.update(i, TaskView { status: TaskStatus::InProgress, ..s[i] });
                &&& in_progress_count(after) == in_progress_count(s) + 1
                &&& in_progress_count(after) <= max_concurrent
            }
        }),
{
    lemma_first_where_props(s, is_pending());
    let i = first_where(s, is_pending());
    if i >= 0 {
        assert(is_pending()(s[i]));
        lemma_start_count(s, i, TaskView { status: TaskStatus::InProgress, ..s[i] });
    }
}

} // verus!
