use vstd::prelude::*;

verus! {

/// A unit of user-tracked work: an id that is never reused, a free-form
/// description, and a completion flag that starts out false.
pub struct Task {
    pub id: u32,
    pub description: String,
    pub done: bool,
}

/// The in-memory owner of all tasks and of the id counter.
///
/// Ids are handed out consecutively starting from 1 and tasks are never
/// removed, so the tasks live in a vector whose entry at position `i` is the
/// task with id `i + 1`.
pub struct ToDo {
    tasks: Vec<Task>,
    next_id: u32,
}

impl ToDo {
    /// The id the next successful `add_task` call will return.
    pub closed spec fn spec_next_id(self) -> u32 {
        self.next_id
    }

    /// The store as a mapping from task id to (description, completion flag).
    pub closed spec fn tasks_map(self) -> Map<u32, (Seq<char>, bool)> {
        Map::new(
            |id: u32| 1 <= id && id < self.next_id,
            |id: u32| (self.tasks@[id - 1].description@, self.tasks@[id - 1].done),
        )
    }

    /// Well-formedness: the counter starts at 1, and the vector holds exactly
    /// the tasks with ids 1 through `next_id - 1`, each at position `id - 1`.
    pub closed spec fn wf(self) -> bool {
        &&& 1 <= self.next_id
        &&& self.tasks@.len() == self.next_id - 1
        &&& forall|i: int|
            0 <= i < self.tasks@.len() ==> (#[trigger] self.tasks@[i]).id == i + 1
    }

    /// Create an empty store whose first id will be 1.
    pub fn new() -> (r: ToDo)
        ensures
            r.wf(),
            r.spec_next_id() == 1,
            r.tasks_map() =~= Map::<u32, (Seq<char>, bool)>::empty(),
    {
        ToDo { tasks: Vec::new(), next_id: 1 }
    }

    /// The id the next successful `add_task` call will return.
    pub fn next_id(&self) -> (r: u32)
        ensures
            r == self.spec_next_id(),
    {
        self.next_id
    }

    /// Insert a new, not yet completed task under a fresh id and return that
    /// id. Any description is accepted, the empty one included.
    pub fn add_task(&mut self, description: String) -> (id: u32)
        requires
            old(self).wf(),
            old(self).spec_next_id() < u32::MAX,
        ensures
            final(self).wf(),
            id == old(self).spec_next_id(),
            !old(self).tasks_map().dom().contains(id),
            final(self).spec_next_id() == id + 1,
            final(self).tasks_map() =~= old(self).tasks_map().insert(
                id,
                (description@, false),
            ),
    {
        let id = self.next_id;
        self.tasks.push(Task { id, description, done: false });
        self.next_id = self.next_id + 1;
        id
    }

    /// If a task with the given id exists, mark it done and report success;
    /// otherwise leave the store untouched and report failure. Completing an
    /// already-completed task succeeds again and changes nothing.
    pub fn complete_task(&mut self, task_id: u32) -> (ok: bool)
        requires
            old(self).wf(),
        ensures
            final(self).wf(),
            ok == old(self).tasks_map().dom().contains(task_id),
            final(self).spec_next_id() == old(self).spec_next_id(),
            ok ==> final(self).tasks_map() =~= old(self).tasks_map().insert(
                task_id,
                (old(self).tasks_map()[task_id].0, true),
            ),
            !ok ==> *final(self) == *old(self),
    {
        if 1 <= task_id && ((task_id - 1) as usize) < self.tasks.len() {
            let idx = (task_id - 1) as usize;
            self.tasks[idx].done = true;
            true
        } else {
            false
        }
    }

    /// A snapshot of every task as (id, description, completion flag),
    /// ordered by id.
    pub fn list_tasks(&self) -> (r: Vec<(u32, String, bool)>)
        requires
            self.wf(),
        ensures
            r@.len() == self.tasks_map().dom().len(),
            r@.len() == self.spec_next_id() - 1,
            forall|j: int|
                0 <= j < r@.len() ==> {
                    let entry = #[trigger] r@[j];
                    &&& entry.0 == j + 1
                    &&& self.tasks_map().dom().contains(entry.0)
                    &&& self.tasks_map()[entry.0] == (entry.1@, entry.2)
                },
    {
        let mut r: Vec<(u32, String, bool)> = Vec::new();
        let mut i: usize = 0;
        proof {
            self.lemma_dom_size();
        }
        while i < self.tasks.len()
            invariant
                self.wf(),
                0 <= i <= self.tasks@.len(),
                r@.len() == i,
                forall|j: int|
                    0 <= j < i ==> {
                        let entry = #[trigger] r@[j];
                        &&& entry.0 == j + 1
                        &&& self.tasks_map().dom().contains(entry.0)
                        &&& self.tasks_map()[entry.0] == (entry.1@, entry.2)
                    },
            decreases self.tasks@.len() - i,
        {
            let t = &self.tasks[i];
            r.push((t.id, t.description.clone(), t.done));
            i = i + 1;
        }
        r
    }

    /// The mapping holds exactly the ids 1 through `next_id - 1`.
    proof fn lemma_dom_size(self)
        requires
            self.wf(),
        ensures
            self.tasks_map().dom().len() == self.spec_next_id() - 1,
    {
        assert(self.tasks_map().dom() =~= Set::new(
            |id: u32| 1 <= id && id < self.next_id,
        ));
        lemma_id_range_size(self.next_id);
    }
}

/// Ids are handed out strictly increasing, starting from 1, and never
/// reused: every id present in a well-formed store is at least 1 and below
/// `next_id`, the id the next `add_task` call returns. Since `add_task`
/// advances `next_id` past each id it returns, no issued id ever repeats.
pub proof fn lemma_issued_ids_below_next(s: ToDo)
    requires
        s.wf(),
    ensures
        forall|id: u32|
            #[trigger] s.tasks_map().dom().contains(id) ==> 1 <= id < s.spec_next_id(),
{
}

/// `complete_task` fails for any id the store never issued: an id at or
/// above `next_id` is absent from the mapping, so `complete_task` reports
/// failure for it and leaves the store unchanged.
pub proof fn lemma_unissued_id_not_found(s: ToDo, id: u32)
    requires
        s.wf(),
        id >= s.spec_next_id() || id == 0,
    ensures
        !s.tasks_map().dom().contains(id),
{
}

/// A task just added is visible: after `add_task` with some description
/// returns id `k`, the store maps `k` to that description, not yet done.
pub proof fn lemma_added_task_visible(s0: ToDo, s1: ToDo, k: u32, description: Seq<char>)
    requires
        s0.wf(),
        s1.wf(),
        k == s0.spec_next_id(),
        s1.tasks_map() =~= s0.tasks_map().insert(k, (description, false)),
    ensures
        s1.tasks_map().dom().contains(k),
        s1.tasks_map()[k] == (description, false),
{
}

/// Completion sticks and is idempotent: after `complete_task(k)` succeeds,
/// the store maps `k` to its unchanged description with the done flag set,
/// and a second `complete_task(k)` succeeds again while changing nothing.
pub proof fn lemma_complete_idempotent(s0: ToDo, s1: ToDo, k: u32)
    requires
        s0.wf(),
        s1.wf(),
        s0.tasks_map().dom().contains(k),
        s1.tasks_map() =~= s0.tasks_map().insert(k, (s0.tasks_map()[k].0, true)),
    ensures
        s1.tasks_map().dom().contains(k),
        s1.tasks_map()[k] == (s0.tasks_map()[k].0, true),
        s1.tasks_map().insert(k, (s1.tasks_map()[k].0, true)) =~= s1.tasks_map(),
{
}

/// The set of ids below `bound` (and at least 1) is finite, with
/// `bound - 1` elements.
proof fn lemma_id_range_size(bound: u32)
    requires
        1 <= bound,
    ensures
        Set::new(|id: u32| 1 <= id && id < bound).finite(),
        Set::new(|id: u32| 1 <= id && id < bound).len() == bound - 1,
    decreases bound,
{
    if bound == 1 {
        assert(Set::new(|id: u32| 1 <= id && id < bound) =~= Set::<u32>::empty());
    } else {
        lemma_id_range_size((bound - 1) as u32);
        let prev = Set::new(|id: u32| 1 <= id && id < bound - 1);
        assert(Set::new(|id: u32| 1 <= id && id < bound) =~= prev.insert(
            (bound - 1) as u32,
        ));
        vstd::set::axiom_set_insert_finite(prev, (bound - 1) as u32);
        vstd::set::axiom_set_insert_len(prev, (bound - 1) as u32);
    }
}

} // verus!
