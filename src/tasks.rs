//! Per-session registry of background tasks, with ordinal numbering,
//! listing and cancellation.
//!
//! The registry keeps what the planner and the user see of each task; the
//! handle that aborts a running task stays with whoever spawned it, who fires
//! it when `cancel_task` reports that the task was registered.

use vstd::prelude::*;

verus! {

/// Relies on `chrono::Utc::now` and `DateTime::timestamp_millis`: the current
/// time in milliseconds since the Unix epoch. Nothing is known of the value.
#[verifier::external_body]
fn now_millis() -> (r: i64) {
    chrono::Utc::now().timestamp_millis()
}

/// One registered background task.
pub struct BackgroundTask {
    pub name: String,
    pub start_time: i64,
    pub ordinal: u64,
    pub original_prompt: String,
}

/// What the registry knows of a task.
pub struct TaskRecord {
    pub name: Seq<char>,
    pub start_time: i64,
    pub ordinal: u64,
    pub original_prompt: Seq<char>,
}

impl BackgroundTask {
    pub open spec fn record(&self) -> TaskRecord {
        TaskRecord {
            name: self.name@,
            start_time: self.start_time,
            ordinal: self.ordinal,
            original_prompt: self.original_prompt@,
        }
    }
}

/// A snapshot of one running task, as `list_tasks` hands it out.
pub struct TaskSummary {
    pub id: String,
    pub name: String,
    pub start_time: i64,
    pub status: String,
    pub ordinal: u64,
    pub original_prompt: String,
}

/// The registry: tasks keyed by id, and the last ordinal handed out.
pub struct TaskManager {
    tasks: Vec<(String, BackgroundTask)>,
    counter: u64,
}

/// The registry's contents: each task by id, and the last ordinal given.
pub struct TaskTable {
    pub tasks: Map<Seq<char>, TaskRecord>,
    pub counter: u64,
}

impl TaskTable {
    /// The table after registering `id`; a task already under `id` is replaced.
    pub open spec fn added(self, id: Seq<char>, name: Seq<char>, prompt: Seq<char>, start_time: i64) -> TaskTable {
        TaskTable {
            tasks: self.tasks.insert(
                id,
                TaskRecord {
                    name,
                    start_time,
                    ordinal: (self.counter + 1) as u64,
                    original_prompt: prompt,
                },
            ),
            counter: (self.counter + 1) as u64,
        }
    }

    /// The table after `id` is taken out.
    pub open spec fn removed(self, id: Seq<char>) -> TaskTable {
        TaskTable { tasks: self.tasks.remove(id), counter: self.counter }
    }
}

impl View for TaskManager {
    type V = TaskTable;

    closed spec fn view(&self) -> TaskTable {
        TaskTable {
            tasks: Map::new(
                |k: Seq<char>| self.has_key(k),
                |k: Seq<char>| self.tasks@[self.index_of(k)].1.record(),
            ),
            counter: self.counter,
        }
    }
}

impl TaskManager {
    spec fn has_key(&self, k: Seq<char>) -> bool {
        exists|i: int| 0 <= i < self.tasks.len() && #[trigger] self.tasks@[i].0@ == k
    }

    spec fn index_of(&self, k: Seq<char>) -> int {
        choose|i: int| 0 <= i < self.tasks.len() && #[trigger] self.tasks@[i].0@ == k
    }

    /// Ids are unique and every ordinal was handed out already.
    pub closed spec fn wf(&self) -> bool {
        &&& forall|i: int, j: int|
            0 <= i < j < self.tasks.len() ==> #[trigger] self.tasks@[i].0@ != #[trigger] self.tasks@[j].0@
        &&& forall|i: int| 0 <= i < self.tasks.len() ==> #[trigger] self.tasks@[i].1.ordinal <= self.counter
    }

    proof fn lemma_index_of(&self, i: int)
        requires
            self.wf(),
            0 <= i < self.tasks.len(),
        ensures
            self.has_key(self.tasks@[i].0@),
            self.index_of(self.tasks@[i].0@) == i,
    {
        let k = self.tasks@[i].0@;
        assert(self.tasks@[i].0@ == k);
        let j = self.index_of(k);
        if j != i {
            if j < i {
                assert(self.tasks@[j].0@ != self.tasks@[i].0@);
            } else {
                assert(self.tasks@[i].0@ != self.tasks@[j].0@);
            }
        }
    }

    pub fn new() -> (r: Self)
        ensures
            r.wf(),
            r@.tasks == Map::<Seq<char>, TaskRecord>::empty(),
            r@.counter == 0,
    {
        let r = TaskManager { tasks: Vec::new(), counter: 0 };
        assert(r@.tasks =~= Map::<Seq<char>, TaskRecord>::empty());
        r
    }

    fn position(&self, id: &str) -> (r: Option<usize>)
        requires
            self.wf(),
        ensures
            match r {
                Some(i) => i < self.tasks.len() && self.tasks@[i as int].0@ == id@
                    && self@.tasks.contains_key(id@),
                None => !self@.tasks.contains_key(id@),
            },
    {
        let key = id.to_string();
        let mut i: usize = 0;
        while i < self.tasks.len()
            invariant
                self.wf(),
                i <= self.tasks.len(),
                key@ == id@,
                forall|k: int| 0 <= k < i ==> self.tasks@[k].0@ != id@,
            decreases self.tasks.len() - i,
        {
            if self.tasks[i].0 == key {
                proof {
                    self.lemma_index_of(i as int);
                }
                return Some(i);
            }
            i = i + 1;
        }
        None
    }

    /// Takes out the entry at `i` and gives back the table without its id.
    fn take_at(&mut self, i: usize) -> (r: (String, BackgroundTask))
        requires
            old(self).wf(),
            i < old(self).tasks.len(),
        ensures
            final(self).wf(),
            r.0@ == old(self).tasks@[i as int].0@,
            final(self)@ == old(self)@.removed(r.0@),
    {
        let ghost before = self.tasks@;
        let ghost k = before[i as int].0@;
        let r = self.tasks.remove(i);
        proof {
            assert(self.tasks@ =~= before.remove(i as int));
            assert forall|a: int, b: int|
                0 <= a < b < self.tasks.len() implies #[trigger] self.tasks@[a].0@
                != #[trigger] self.tasks@[b].0@ by {
                let a2 = if a < i { a } else { a + 1 };
                let b2 = if b < i { b } else { b + 1 };
                assert(old(self).tasks@[a2].0@ != old(self).tasks@[b2].0@);
            }
            assert forall|a: int| 0 <= a < self.tasks.len() implies #[trigger] self.tasks@[a].1.ordinal
                <= self.counter by {
                let a2 = if a < i { a } else { a + 1 };
                assert(old(self).tasks@[a2].1.ordinal <= self.counter);
            }
            assert forall|q: Seq<char>| #[trigger] self@.tasks.dom().contains(q) == old(self)@.tasks.remove(
                k,
            ).dom().contains(q) by {
                if self.has_key(q) {
                    let a = choose|a: int| 0 <= a < self.tasks.len() && #[trigger] self.tasks@[a].0@ == q;
                    let a2 = if a < i { a } else { a + 1 };
                    assert(old(self).tasks@[a2].0@ == q);
                    assert(a2 != i);
                }
                if old(self).has_key(q) && q != k {
                    let a = choose|a: int| 0 <= a < old(self).tasks.len() && #[trigger] old(self).tasks@[a].0@ == q;
                    assert(a != i);
                    let a2 = if a < i { a } else { a - 1 };
                    assert(self.tasks@[a2].0@ == q);
                }
            }
            assert forall|q: Seq<char>| #[trigger] self@.tasks.dom().contains(q) implies self@.tasks[q]
                == old(self)@.tasks.remove(k)[q] by {
                let a = self.index_of(q);
                self.lemma_index_of(a);
                let a2 = if a < i { a } else { a + 1 };
                old(self).lemma_index_of(a2);
                assert(old(self).tasks@[a2] == self.tasks@[a]);
            }
            assert(self@.tasks =~= old(self)@.tasks.remove(k));
        }
        r
    }

    /// Registers a task under `id`, stamped with the current time, and
    /// returns its ordinal: one more than the last ordinal handed out.
    pub fn add_task(&mut self, id: String, name: String, original_prompt: String) -> (r: u64)
        requires
            old(self).wf(),
            old(self)@.counter < u64::MAX,
        ensures
            final(self).wf(),
            r == old(self)@.counter + 1,
            final(self)@.counter == r,
            final(self)@.tasks.contains_key(id@),
            final(self)@ == old(self)@.added(id@, name@, original_prompt@, final(self)@.tasks[id@].start_time),
    {
        match self.position(id.as_str()) {
            Some(i) => {
                self.take_at(i);
            },
            None => {
                assert(self@.removed(id@).tasks =~= self@.tasks);
            },
        }
        let ghost mid = *self;
        assert(!mid@.tasks.contains_key(id@));
        assert(mid@.counter == old(self)@.counter);
        let ordinal = self.counter + 1;
        let start_time = now_millis();
        let task = BackgroundTask { name, start_time, ordinal, original_prompt };
        self.counter = ordinal;
        let ghost key = id@;
        let ghost rec = task.record();
        self.tasks.push((id, task));
        proof {
            let n = mid.tasks.len() as int;
            assert(self.tasks@[n].0@ == key);
            assert forall|a: int, b: int|
                0 <= a < b < self.tasks.len() implies #[trigger] self.tasks@[a].0@
                != #[trigger] self.tasks@[b].0@ by {
                if b == n {
                    assert(mid.tasks@[a] == self.tasks@[a]);
                    assert(mid.has_key(mid.tasks@[a].0@));
                    assert(mid@.tasks.contains_key(mid.tasks@[a].0@));
                } else {
                    assert(mid.tasks@[a].0@ != mid.tasks@[b].0@);
                }
            }
            assert forall|a: int| 0 <= a < self.tasks.len() implies #[trigger] self.tasks@[a].1.ordinal
                <= self.counter by {
                if a < n {
                    assert(mid.tasks@[a].1.ordinal <= mid.counter);
                }
            }
            self.lemma_index_of(n);
            assert forall|q: Seq<char>| #[trigger] self@.tasks.dom().contains(q) == mid@.tasks.insert(
                key,
                rec,
            ).dom().contains(q) by {
                if self.has_key(q) && q != key {
                    let a = choose|a: int| 0 <= a < self.tasks.len() && #[trigger] self.tasks@[a].0@ == q;
                    assert(a < n);
                    assert(mid.tasks@[a].0@ == q);
                }
                if mid.has_key(q) {
                    let a = choose|a: int| 0 <= a < mid.tasks.len() && #[trigger] mid.tasks@[a].0@ == q;
                    assert(self.tasks@[a].0@ == q);
                }
            }
            assert forall|q: Seq<char>| #[trigger] self@.tasks.dom().contains(q) implies self@.tasks[q]
                == mid@.tasks.insert(key, rec)[q] by {
                if q != key {
                    let a = self.index_of(q);
                    self.lemma_index_of(a);
                    assert(a != n);
                    mid.lemma_index_of(a);
                    assert(mid.tasks@[a] == self.tasks@[a]);
                }
            }
            assert(self@.tasks =~= mid@.tasks.insert(key, rec));
            assert(mid@.tasks.insert(key, rec) =~= old(self)@.tasks.insert(key, rec));
            assert(rec.start_time == self@.tasks[key].start_time);
        }
        ordinal
    }

    /// Takes the task under `id` out of the registry, if it is there.
    pub fn remove_task(&mut self, id: &str)
        requires
            old(self).wf(),
        ensures
            final(self).wf(),
            final(self)@ == old(self)@.removed(id@),
    {
        match self.position(id) {
            Some(i) => {
                self.take_at(i);
            },
            None => {
                assert(self@.removed(id@).tasks =~= self@.tasks);
            },
        }
    }

    /// Takes the task under `id` out of the registry and reports whether it
    /// was there; the caller then fires that task's cancel handle.
    pub fn cancel_task(&mut self, id: &str) -> (r: bool)
        requires
            old(self).wf(),
        ensures
            final(self).wf(),
            r == old(self)@.tasks.contains_key(id@),
            final(self)@ == old(self)@.removed(id@),
            r ==> final(self)@.tasks.len() + 1 == old(self)@.tasks.len(),
            !r ==> final(self)@.tasks.len() == old(self)@.tasks.len(),
    {
        proof {
            self.lemma_len();
        }
        match self.position(id) {
            Some(i) => {
                self.take_at(i);
                proof {
                    self.lemma_len();
                    assert(self@.tasks.dom() =~= old(self)@.tasks.dom().remove(id@));
                }
                true
            },
            None => {
                assert(self@.removed(id@).tasks =~= self@.tasks);
                false
            },
        }
    }

    /// How many tasks are registered.
    pub fn len(&self) -> (r: usize)
        requires
            self.wf(),
        ensures
            r as int == self@.tasks.len(),
    {
        proof {
            self.lemma_len();
        }
        self.tasks.len()
    }

    /// The registry holds finitely many tasks, as many as it lists.
    pub proof fn lemma_finite(&self)
        requires
            self.wf(),
        ensures
            self@.tasks.dom().finite(),
    {
        self.lemma_len();
    }

    proof fn lemma_len(&self)
        requires
            self.wf(),
        ensures
            self@.tasks.dom() == self.tasks@.map_values(|e: (String, BackgroundTask)| e.0@).to_set(),
            self@.tasks.len() == self.tasks.len(),
    {
        let ks = self.tasks@.map_values(|e: (String, BackgroundTask)| e.0@);
        assert forall|q: Seq<char>| #[trigger] self@.tasks.dom().contains(q) == ks.to_set().contains(q) by {
            if self.has_key(q) {
                let a = choose|a: int| 0 <= a < self.tasks.len() && #[trigger] self.tasks@[a].0@ == q;
                assert(ks[a] == q);
            }
            if ks.contains(q) {
                let a = choose|a: int| 0 <= a < ks.len() && ks[a] == q;
                assert(self.tasks@[a].0@ == q);
            }
        }
        assert(self@.tasks.dom() =~= ks.to_set());
        assert(ks.no_duplicates()) by {
            assert forall|a: int, b: int| 0 <= a < ks.len() && 0 <= b < ks.len() && a != b implies ks[a]
                != ks[b] by {
                if a < b {
                    assert(self.tasks@[a].0@ != self.tasks@[b].0@);
                } else {
                    assert(self.tasks@[b].0@ != self.tasks@[a].0@);
                }
            }
        }
        ks.unique_seq_to_set();
    }

    /// A snapshot of every registered task, each with status `Running`.
    pub fn list_tasks(&self) -> (r: Vec<TaskSummary>)
        requires
            self.wf(),
        ensures
            r.len() == self@.tasks.len(),
            forall|i: int, j: int| 0 <= i < j < r.len() ==> #[trigger] r@[i].id@ != #[trigger] r@[j].id@,
            forall|i: int|
                0 <= i < r.len() ==> {
                    let s = #[trigger] r@[i];
                    &&& self@.tasks.contains_key(s.id@)
                    &&& s.name@ == self@.tasks[s.id@].name
                    &&& s.start_time == self@.tasks[s.id@].start_time
                    &&& s.ordinal == self@.tasks[s.id@].ordinal
                    &&& s.original_prompt@ == self@.tasks[s.id@].original_prompt
                    &&& s.status@ == seq!['R', 'u', 'n', 'n', 'i', 'n', 'g']
                },
    {
        proof {
            self.lemma_len();
        }
        let mut out: Vec<TaskSummary> = Vec::new();
        let mut i: usize = 0;
        while i < self.tasks.len()
            invariant
                self.wf(),
                i <= self.tasks.len(),
                out.len() == i,
                forall|k: int| 0 <= k < i ==> #[trigger] out@[k].id@ == self.tasks@[k].0@,
                forall|k: int|
                    0 <= k < i ==> {
                        let s = #[trigger] out@[k];
                        &&& s.name@ == self.tasks@[k].1.name@
                        &&& s.start_time == self.tasks@[k].1.start_time
                        &&& s.ordinal == self.tasks@[k].1.ordinal
                        &&& s.original_prompt@ == self.tasks@[k].1.original_prompt@
                        &&& s.status@ == seq!['R', 'u', 'n', 'n', 'i', 'n', 'g']
                    },
            decreases self.tasks.len() - i,
        {
            let entry = &self.tasks[i];
            let status: String = "Running".to_string();
            proof {
                reveal_strlit("Running");
            }
            out.push(
                TaskSummary {
                    id: entry.0.clone(),
                    name: entry.1.name.clone(),
                    start_time: entry.1.start_time,
                    status,
                    ordinal: entry.1.ordinal,
                    original_prompt: entry.1.original_prompt.clone(),
                },
            );
            i = i + 1;
        }
        proof {
            assert forall|k: int| 0 <= k < out.len() implies {
                let s = #[trigger] out@[k];
                &&& self@.tasks.contains_key(s.id@)
                &&& s.name@ == self@.tasks[s.id@].name
                &&& s.start_time == self@.tasks[s.id@].start_time
                &&& s.ordinal == self@.tasks[s.id@].ordinal
                &&& s.original_prompt@ == self@.tasks[s.id@].original_prompt
            } by {
                self.lemma_index_of(k);
                assert(out@[k].id@ == self.tasks@[k].0@);
            }
            assert forall|a: int, b: int| 0 <= a < b < out.len() implies #[trigger] out@[a].id@
                != #[trigger] out@[b].id@ by {
                assert(out@[a].id@ == self.tasks@[a].0@);
                assert(out@[b].id@ == self.tasks@[b].0@);
            }
        }
        out
    }
}

/// Each registration hands out a larger ordinal than the one before it.
pub proof fn lemma_ordinals_increase(
    t: TaskTable,
    id1: Seq<char>,
    name1: Seq<char>,
    prompt1: Seq<char>,
    start1: i64,
    id2: Seq<char>,
    name2: Seq<char>,
    prompt2: Seq<char>,
    start2: i64,
)
    requires
        t.counter + 2 <= u64::MAX,
    ensures
        ({
            let t1 = t.added(id1, name1, prompt1, start1);
            let t2 = t1.added(id2, name2, prompt2, start2);
            &&& t1.tasks[id1].ordinal < t2.tasks[id2].ordinal
            &&& t1.tasks[id1].ordinal == t1.counter
            &&& t2.tasks[id2].ordinal == t2.counter
        }),
{
}

/// Cancelling an id succeeds at most once: after a cancellation the id is no
/// longer registered, so a second cancellation of it reports false.
pub proof fn lemma_cancel_once(t: TaskTable, id: Seq<char>)
    ensures
        !t.removed(id).tasks.contains_key(id),
        t.removed(id).removed(id) == t.removed(id),
{
    assert(t.removed(id).removed(id).tasks =~= t.removed(id).tasks);
}

} // verus!
