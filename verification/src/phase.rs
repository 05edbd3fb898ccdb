//! The task state machine: the phases a task moves through, the rules by which
//! it moves, the status map that records where every task stands, and the
//! roll-up of a status map into one workflow phase.

use vstd::prelude::*;
use vstd::string::*;
use crate::text::is_text;

verus! {

/// Lifecycle state of a task, and of a workflow as a whole.
#[derive(Clone, Copy, Debug, PartialEq, Eq, Structural)]
pub enum Phase {
    Pending,
    Running,
    Succeeded,
    Failed,
}

/// The word under which a phase is recorded in a workflow's status.
pub open spec fn phase_word(phase: Phase) -> Seq<char> {
    match phase {
        Phase::Pending => "Pending"@,
        Phase::Running => "Running"@,
        Phase::Succeeded => "Succeeded"@,
        Phase::Failed => "Failed"@,
    }
}

/// The phase that a word names, if it names one.
pub open spec fn phase_of_word(word: Seq<char>) -> Option<Phase> {
    if word == "Pending"@ {
        Some(Phase::Pending)
    } else if word == "Running"@ {
        Some(Phase::Running)
    } else if word == "Succeeded"@ {
        Some(Phase::Succeeded)
    } else if word == "Failed"@ {
        Some(Phase::Failed)
    } else {
        None
    }
}

impl Phase {
    /// Succeeded and Failed are absorbing: nothing moves a task out of them.
    pub open spec fn terminal(self) -> bool {
        self == Phase::Succeeded || self == Phase::Failed
    }

    /// A task that has been started: it is running or has finished.
    pub open spec fn started(self) -> bool {
        self != Phase::Pending
    }

    pub fn is_terminal(&self) -> (r: bool)
        ensures
            r == self.terminal(),
    {
        match self {
            Phase::Succeeded => true,
            Phase::Failed => true,
            _ => false,
        }
    }

    /// The word under which this phase is recorded.
    pub fn word(&self) -> (r: String)
        ensures
            r@ == phase_word(*self),
    {
        match self {
            Phase::Pending => "Pending".to_owned(),
            Phase::Running => "Running".to_owned(),
            Phase::Succeeded => "Succeeded".to_owned(),
            Phase::Failed => "Failed".to_owned(),
        }
    }

    /// Reads a recorded word back into a phase.
    pub fn from_word(word: &String) -> (r: Option<Phase>)
        ensures
            r == phase_of_word(word@),
    {
        if is_text(word, "Pending") {
            Some(Phase::Pending)
        } else if is_text(word, "Running") {
            Some(Phase::Running)
        } else if is_text(word, "Succeeded") {
            Some(Phase::Succeeded)
        } else if is_text(word, "Failed") {
            Some(Phase::Failed)
        } else {
            None
        }
    }
}

/// Every phase is read back from its own word.
pub proof fn lemma_word_round_trip(phase: Phase)
    ensures
        phase_of_word(phase_word(phase)) == Some(phase),
{
    reveal_strlit("Pending");
    reveal_strlit("Running");
    reveal_strlit("Succeeded");
    reveal_strlit("Failed");
    assert("Pending"@.len() == 7);
    assert("Running"@.len() == 7);
    assert("Succeeded"@.len() == 9);
    assert("Failed"@.len() == 6);
    assert("Pending"@[0] == 'P');
    assert("Running"@[0] == 'R');
}

/// What an execution job reports of itself: how many of its runs completed
/// successfully and how many failed.
#[derive(Clone, Copy, Debug, PartialEq, Eq, Structural)]
pub struct JobCounts {
    pub succeeded: i32,
    pub failed: i32,
}

/// The phase of a task after its job was looked at. Only a running task
/// moves: to Failed when the job counts a failure, else to Succeeded when it
/// counts a success. A failure outweighs a success. A job that could not be
/// found (`None`) moves nothing.
pub open spec fn observed(phase: Phase, report: Option<JobCounts>) -> Phase {
    if phase != Phase::Running {
        phase
    } else {
        match report {
            None => Phase::Running,
            Some(counts) => if counts.failed > 0 {
                Phase::Failed
            } else if counts.succeeded > 0 {
                Phase::Succeeded
            } else {
                Phase::Running
            },
        }
    }
}

/// Applies a job's report to the phase of its task.
pub fn observe(phase: Phase, report: Option<JobCounts>) -> (r: Phase)
    ensures
        r == observed(phase, report),
{
    match phase {
        Phase::Running => match report {
            None => Phase::Running,
            Some(counts) => if counts.failed > 0 {
                Phase::Failed
            } else if counts.succeeded > 0 {
                Phase::Succeeded
            } else {
                Phase::Running
            },
        },
        other => other,
    }
}

/// One entry of a status map.
pub struct TaskStatus {
    pub name: String,
    pub phase: Phase,
}

/// Whether no name occurs twice among `entries`.
pub open spec fn distinct_names(entries: Seq<(Seq<char>, Phase)>) -> bool {
    forall|i: int, j: int|
        0 <= i < entries.len() && 0 <= j < entries.len() && #[trigger] entries[i].0
            == #[trigger] entries[j].0 ==> i == j
}

/// Whether some entry carries `name`.
pub open spec fn names_task(entries: Seq<(Seq<char>, Phase)>, name: Seq<char>) -> bool {
    exists|i: int| 0 <= i < entries.len() && #[trigger] entries[i].0 == name
}

/// The place of the entry that carries `name`.
pub open spec fn place_of(entries: Seq<(Seq<char>, Phase)>, name: Seq<char>) -> int {
    choose|i: int| 0 <= i < entries.len() && #[trigger] entries[i].0 == name
}

/// The phase recorded for `name`, if any.
pub open spec fn phase_of(entries: Seq<(Seq<char>, Phase)>, name: Seq<char>) -> Option<Phase> {
    if names_task(entries, name) {
        Some(entries[place_of(entries, name)].1)
    } else {
        None
    }
}

/// The entries read as a map from task name to phase.
pub open spec fn as_map(entries: Seq<(Seq<char>, Phase)>) -> Map<Seq<char>, Phase> {
    Map::new(
        |name: Seq<char>| names_task(entries, name),
        |name: Seq<char>| entries[place_of(entries, name)].1,
    )
}

/// With distinct names, the entry at `i` is the one found under its name.
pub proof fn lemma_place_of_entry(entries: Seq<(Seq<char>, Phase)>, i: int)
    requires
        distinct_names(entries),
        0 <= i < entries.len(),
    ensures
        names_task(entries, entries[i].0),
        place_of(entries, entries[i].0) == i,
        phase_of(entries, entries[i].0) == Some(entries[i].1),
{
}

/// The status of every task of a workflow, by task name. No name occurs twice.
pub struct StatusMap {
    entries: Vec<TaskStatus>,
}

impl StatusMap {
    #[verifier::type_invariant]
    spec fn inv(self) -> bool {
        distinct_names(self.entries())
    }

    /// The entries in the order in which they were first recorded.
    pub closed spec fn entries(&self) -> Seq<(Seq<char>, Phase)> {
        Seq::new(self.entries@.len(), |i: int| (self.entries@[i].name@, self.entries@[i].phase))
    }

    /// The status map as a map from task name to phase.
    pub open spec fn view(&self) -> Map<Seq<char>, Phase> {
        as_map(self.entries())
    }

    pub fn new() -> (r: StatusMap)
        ensures
            r.entries() == Seq::<(Seq<char>, Phase)>::empty(),
    {
        let r = StatusMap { entries: Vec::new() };
        assert(r.entries() =~= Seq::<(Seq<char>, Phase)>::empty());
        r
    }

    /// The number of entries. No name occurs twice among them.
    pub fn len(&self) -> (r: usize)
        ensures
            r == self.entries().len(),
            distinct_names(self.entries()),
    {
        proof {
            use_type_invariant(self);
        }
        self.entries.len()
    }

    /// The name of the entry at `i`.
    pub fn name_at(&self, i: usize) -> (r: &String)
        requires
            i < self.entries().len(),
        ensures
            r@ == self.entries()[i as int].0,
    {
        &self.entries[i].name
    }

    /// The phase of the entry at `i`.
    pub fn phase_at(&self, i: usize) -> (r: Phase)
        requires
            i < self.entries().len(),
        ensures
            r == self.entries()[i as int].1,
    {
        self.entries[i].phase
    }

    /// The place of the entry that carries `name`, if there is one.
    pub fn position(&self, name: &String) -> (r: Option<usize>)
        ensures
            match r {
                Some(i) => i < self.entries().len() && self.entries()[i as int].0 == name@
                    && place_of(self.entries(), name@) == i,
                None => !names_task(self.entries(), name@),
            },
    {
        proof {
            use_type_invariant(self);
        }
        let mut i: usize = 0;
        while i < self.entries.len()
            invariant
                i <= self.entries@.len(),
                distinct_names(self.entries()),
                forall|j: int| 0 <= j < i ==> #[trigger] self.entries()[j].0 != name@,
            decreases self.entries@.len() - i,
        {
            if self.entries[i].name == *name {
                proof {
                    lemma_place_of_entry(self.entries(), i as int);
                }
                return Some(i);
            }
            i += 1;
        }
        None
    }

    /// The phase recorded for `name`, if any.
    pub fn get(&self, name: &String) -> (r: Option<Phase>)
        ensures
            r == phase_of(self.entries(), name@),
    {
        match self.position(name) {
            Some(i) => Some(self.entries[i].phase),
            None => None,
        }
    }

    /// Records `phase` for the entry at `i`.
    pub fn set_at(&mut self, i: usize, phase: Phase)
        requires
            i < old(self).entries().len(),
        ensures
            final(self).entries() == old(self).entries().update(
                i as int,
                (old(self).entries()[i as int].0, phase),
            ),
    {
        proof {
            use_type_invariant(&*self);
        }
        let ghost before = self.entries();
        let ghost after = before.update(i as int, (before[i as int].0, phase));
        assert(distinct_names(after)) by {
            assert forall|a: int, b: int|
                0 <= a < after.len() && 0 <= b < after.len() && #[trigger] after[a].0
                    == #[trigger] after[b].0 implies a == b by {
                assert(before[a].0 == after[a].0);
                assert(before[b].0 == after[b].0);
            }
        }
        let mut entries: Vec<TaskStatus> = Vec::new();
        core::mem::swap(&mut self.entries, &mut entries);
        entries[i].phase = phase;
        assert(Seq::new(entries@.len(), |k: int| (entries@[k].name@, entries@[k].phase))
            =~= after);
        core::mem::swap(&mut self.entries, &mut entries);
        assert(self.entries() =~= after);
    }

    /// Records `phase` for `name`: in place where the name is known, as a
    /// new last entry where it is not.
    pub fn insert(&mut self, name: String, phase: Phase)
        ensures
            names_task(old(self).entries(), name@) ==> final(self).entries() == old(
                self,
            ).entries().update(place_of(old(self).entries(), name@), (name@, phase)),
            !names_task(old(self).entries(), name@) ==> final(self).entries() == old(
                self,
            ).entries().push((name@, phase)),
    {
        proof {
            use_type_invariant(&*self);
        }
        match self.position(&name) {
            Some(i) => {
                self.set_at(i, phase);
            },
            None => {
                let ghost before = self.entries();
                let ghost after = before.push((name@, phase));
                assert(distinct_names(after)) by {
                    assert forall|a: int, b: int|
                        0 <= a < after.len() && 0 <= b < after.len() && #[trigger] after[a].0
                            == #[trigger] after[b].0 implies a == b by {
                        if a < before.len() {
                            assert(before[a].0 == after[a].0);
                        }
                        if b < before.len() {
                            assert(before[b].0 == after[b].0);
                        }
                    }
                }
                let mut entries: Vec<TaskStatus> = Vec::new();
                core::mem::swap(&mut self.entries, &mut entries);
                entries.push(TaskStatus { name, phase });
                assert(Seq::new(entries@.len(), |k: int| (entries@[k].name@, entries@[k].phase))
                    =~= after);
                core::mem::swap(&mut self.entries, &mut entries);
                assert(self.entries() =~= after);
            },
        }
    }
}

impl DeepView for StatusMap {
    type V = Seq<(Seq<char>, Phase)>;

    open spec fn deep_view(&self) -> Seq<(Seq<char>, Phase)> {
        self.entries()
    }
}

impl StatusMap {
    /// A status map with the same entries.
    pub fn duplicate(&self) -> (r: StatusMap)
        ensures
            r.entries() == self.entries(),
    {
        proof {
            use_type_invariant(self);
        }
        let mut entries: Vec<TaskStatus> = Vec::new();
        let mut i: usize = 0;
        while i < self.entries.len()
            invariant
                i <= self.entries@.len(),
                entries@.len() == i,
                forall|k: int|
                    0 <= k < i ==> (#[trigger] entries@[k]).name@ == self.entries@[k].name@
                        && entries@[k].phase == self.entries@[k].phase,
            decreases self.entries@.len() - i,
        {
            entries.push(TaskStatus { name: self.entries[i].name.clone(), phase: self.entries[i].phase });
            i += 1;
        }
        assert(Seq::new(entries@.len(), |k: int| (entries@[k].name@, entries@[k].phase))
            =~= self.entries());
        StatusMap { entries }
    }
}

/// The phase of a workflow, from the phases of its tasks: Failed if any task
/// failed; else Succeeded if every task succeeded; else Running.
pub open spec fn aggregate_phase(entries: Seq<(Seq<char>, Phase)>) -> Phase {
    if exists|i: int| 0 <= i < entries.len() && (#[trigger] entries[i]).1 == Phase::Failed {
        Phase::Failed
    } else if forall|i: int| 0 <= i < entries.len() ==> (#[trigger] entries[i]).1 == Phase::Succeeded {
        Phase::Succeeded
    } else {
        Phase::Running
    }
}

/// Rolls the task phases up into the phase of the workflow.
pub fn aggregate(statuses: &StatusMap) -> (r: Phase)
    ensures
        r == aggregate_phase(statuses.entries()),
{
    let mut any_failed = false;
    let mut all_succeeded = true;
    let mut i: usize = 0;
    while i < statuses.len()
        invariant
            i <= statuses.entries().len(),
            any_failed == exists|j: int|
                0 <= j < i && (#[trigger] statuses.entries()[j]).1 == Phase::Failed,
            all_succeeded == forall|j: int|
                0 <= j < i ==> (#[trigger] statuses.entries()[j]).1 == Phase::Succeeded,
        decreases statuses.entries().len() - i,
    {
        match statuses.phase_at(i) {
            Phase::Failed => {
                any_failed = true;
                all_succeeded = false;
            },
            Phase::Succeeded => {},
            _ => {
                all_succeeded = false;
            },
        }
        i += 1;
    }
    if any_failed {
        Phase::Failed
    } else if all_succeeded {
        Phase::Succeeded
    } else {
        Phase::Running
    }
}

} // verus!
