//! Progress of an evaluation: counts of tasks by stage, the tasks that are
//! executing, and the line that reports them.

use vstd::prelude::*;

use indexmap::IndexSet;

use crate::grammar::{decimal, decimal_string};
use crate::outside::{set_entries, set_get, set_insert, set_len, set_new, set_swap_remove};

verus! {

/// The most executing tasks that a report names.
pub const MAX_TASKS: usize = 10;

/// An event of an evaluation, as far as progress needs it.
pub enum Event {
    /// A task was started and awaits execution.
    TaskStarted,
    /// An attempt to execute a task started.
    TaskExecutionStarted { id: String, attempt: u64 },
    /// An attempt to execute a task completed.
    TaskExecutionCompleted { id: String },
    /// A task completed.
    TaskCompleted,
    /// Any other event.
    Other,
}

/// The state of an evaluation's progress.
pub struct State {
    ids: IndexSet<String>,
    completed: usize,
    ready: usize,
    executing: usize,
}

/// Whether the members of `s` are distinct.
pub open spec fn distinct(s: Seq<Seq<char>>) -> bool {
    forall|i: int, j: int| 0 <= i < s.len() && 0 <= j < s.len() && i != j ==> s[i] != s[j]
}

/// `ids` joined by `", "`.
pub open spec fn joined(ids: Seq<Seq<char>>) -> Seq<char>
    decreases ids.len(),
{
    if ids.len() == 0 {
        Seq::empty()
    } else if ids.len() == 1 {
        ids[0]
    } else {
        joined(ids.drop_last()) + seq![',', ' '] + ids.last()
    }
}

/// The executing tasks as a report names them: the first few joined, and an
/// ellipsis where there are more.
pub open spec fn ids_text(ids: Seq<Seq<char>>) -> Seq<char> {
    if ids.len() > MAX_TASKS {
        joined(ids.subrange(0, MAX_TASKS as int)) + seq!['.', '.', '.']
    } else {
        joined(ids)
    }
}

/// `n` tasks at a stage, as a report says it.
pub open spec fn count_text(n: nat, stage: Seq<char>) -> Seq<char> {
    decimal(n) + seq![' '] + stage + seq![' ', 't', 'a', 's', 'k'] + if n == 1 {
        Seq::<char>::empty()
    } else {
        seq!['s']
    }
}

impl State {
    /// The executing tasks, in order.
    pub closed spec fn ids(&self) -> Seq<Seq<char>> {
        set_entries(self.ids)
    }

    /// The number of completed tasks.
    pub closed spec fn spec_completed(&self) -> nat {
        self.completed as nat
    }

    /// The number of tasks awaiting execution.
    pub closed spec fn spec_ready(&self) -> nat {
        self.ready as nat
    }

    /// The number of executing tasks.
    pub closed spec fn spec_executing(&self) -> nat {
        self.executing as nat
    }

    /// The report on the state.
    pub open spec fn spec_message(&self) -> Seq<char> {
        seq![' ', '-', ' '] + count_text(self.spec_completed(), "completed"@) + seq![',', ' ']
            + count_text(self.spec_ready(), "ready"@) + seq![',', ' '] + count_text(
            self.spec_executing(),
            "executing"@,
        ) + seq![':', ' '] + ids_text(self.ids())
    }

    /// A state before any event.
    pub fn new() -> (r: State)
        ensures
            r.ids() == Seq::<Seq<char>>::empty(),
            r.spec_completed() == 0,
            r.spec_ready() == 0,
            r.spec_executing() == 0,
    {
        State { ids: set_new(), completed: 0, ready: 0, executing: 0 }
    }

    /// The number of completed tasks.
    pub fn completed(&self) -> (r: usize)
        ensures
            r == self.spec_completed(),
    {
        self.completed
    }

    /// The number of tasks awaiting execution.
    pub fn ready(&self) -> (r: usize)
        ensures
            r == self.spec_ready(),
    {
        self.ready
    }

    /// The number of executing tasks.
    pub fn executing(&self) -> (r: usize)
        ensures
            r == self.spec_executing(),
    {
        self.executing
    }

    /// Takes one event into account. A task's first attempt leaves the
    /// ready tasks; every attempt joins the executing ones until it completes.
    pub fn apply(&mut self, event: Event)
        requires
            distinct(old(self).ids()),
            event is TaskStarted ==> old(self).spec_ready() < usize::MAX,
            event is TaskCompleted ==> old(self).spec_completed() < usize::MAX,
            event matches Event::TaskExecutionStarted { attempt, .. } ==> (attempt == 0
                ==> old(self).spec_ready() > 0) && old(self).spec_executing() < usize::MAX,
            event is TaskExecutionCompleted ==> old(self).spec_executing() > 0,
        ensures
            distinct(final(self).ids()),
            match event {
                Event::TaskStarted => final(self).spec_ready() == old(self).spec_ready() + 1
                    && final(self).spec_executing() == old(self).spec_executing()
                    && final(self).spec_completed() == old(self).spec_completed()
                    && final(self).ids() == old(self).ids(),
                Event::TaskExecutionStarted { id, attempt } => final(self).spec_ready() == (if attempt
                    == 0 {
                    old(self).spec_ready() - 1
                } else {
                    old(self).spec_ready() as int
                }) && final(self).spec_executing() == old(self).spec_executing() + 1
                    && final(self).spec_completed() == old(self).spec_completed()
                    && final(self).ids() == (if old(self).ids().contains(id@) {
                    old(self).ids()
                } else {
                    old(self).ids().push(id@)
                }),
                Event::TaskExecutionCompleted { id } => final(self).spec_ready()
                    == old(self).spec_ready() && final(self).spec_executing()
                    == old(self).spec_executing() - 1 && final(self).spec_completed()
                    == old(self).spec_completed() && final(self).ids() == (if old(self).ids().contains(
                    id@,
                ) {
                    old(self).ids().update(
                        old(self).ids().index_of(id@),
                        old(self).ids().last(),
                    ).drop_last()
                } else {
                    old(self).ids()
                }),
                Event::TaskCompleted => final(self).spec_completed() == old(self).spec_completed()
                    + 1 && final(self).spec_ready() == old(self).spec_ready()
                    && final(self).spec_executing() == old(self).spec_executing()
                    && final(self).ids() == old(self).ids(),
                Event::Other => *final(self) == *old(self),
            },
    {
        match event {
            Event::TaskStarted => {
                self.ready = self.ready + 1;
            },
            Event::TaskExecutionStarted { id, attempt } => {
                if attempt == 0 {
                    self.ready = self.ready - 1;
                }
                self.executing = self.executing + 1;
                let ghost before = set_entries(self.ids);
                let _ = set_insert(&mut self.ids, id);
                assert(distinct(set_entries(self.ids))) by {
                    assert forall|i: int, j: int|
                        0 <= i < set_entries(self.ids).len() && 0 <= j < set_entries(self.ids).len() && i
                            != j implies set_entries(self.ids)[i] != set_entries(self.ids)[j] by {
                        if i < before.len() && j < before.len() {
                        } else if i == before.len() {
                            assert(set_entries(self.ids)[j] == before[j]);
                        } else {
                            assert(set_entries(self.ids)[i] == before[i]);
                        }
                    }
                }
            },
            Event::TaskExecutionCompleted { id } => {
                self.executing = self.executing - 1;
                let ghost before = set_entries(self.ids);
                let _ = set_swap_remove(&mut self.ids, id.as_str());
                proof {
                    if before.contains(id@) {
                        let k = before.index_of(id@);
                        let after = before.update(k, before.last()).drop_last();
                        assert(set_entries(self.ids) == after);
                        assert forall|i: int, j: int|
                            0 <= i < after.len() && 0 <= j < after.len() && i != j implies after[i]
                            != after[j] by {
                            let bi = if i == k {
                                before.len() - 1
                            } else {
                                i
                            };
                            let bj = if j == k {
                                before.len() - 1
                            } else {
                                j
                            };
                            assert(after[i] == before[bi]);
                            assert(after[j] == before[bj]);
                        }
                    }
                }
            },
            Event::TaskCompleted => {
                self.completed = self.completed + 1;
            },
            Event::Other => {},
        }
    }

    /// The report on the state, such as
    /// ` - 2 completed tasks, 1 ready task, 0 executing tasks: `.
    pub fn message(&self) -> (r: String)
        ensures
            r@ == self.spec_message(),
    {
        let mut s = String::from_str(" - ");
        append_count(&mut s, self.completed, "completed");
        s.append(", ");
        append_count(&mut s, self.ready, "ready");
        s.append(", ");
        append_count(&mut s, self.executing, "executing");
        s.append(": ");
        let t = self.ids_message();
        s.append(t.as_str());
        proof {
            reveal_strlit(" - ");
            reveal_strlit(", ");
            reveal_strlit(": ");
        }
        s
    }

    /// The executing tasks as a report names them.
    pub fn ids_message(&self) -> (r: String)
        ensures
            r@ == ids_text(self.ids()),
    {
        let n = set_len(&self.ids);
        let shown = if n > MAX_TASKS {
            MAX_TASKS
        } else {
            n
        };
        let ghost ids = self.ids();
        let mut s = String::new();
        let mut i: usize = 0;
        while i < shown
            invariant
                ids == self.ids(),
                n == ids.len(),
                shown <= n,
                i <= shown,
                s@ == joined(ids.subrange(0, i as int)),
            decreases shown - i,
        {
            if i > 0 {
                s.append(", ");
                proof {
                    reveal_strlit(", ");
                }
            }
            if let Some(id) = set_get(&self.ids, i) {
                s.append(id.as_str());
            }
            proof {
                let sub = ids.subrange(0, i + 1);
                assert(sub.drop_last() =~= ids.subrange(0, i as int));
                if i == 0 {
                    assert(joined(sub) == sub[0]);
                    assert(s@ =~= sub[0]);
                }
            }
            i = i + 1;
        }
        if n > MAX_TASKS {
            s.append("...");
            proof {
                reveal_strlit("...");
            }
        } else {
            assert(ids.subrange(0, n as int) =~= ids);
        }
        s
    }
}

/// Appends `n` tasks at `stage` to `s`.
fn append_count(s: &mut String, n: usize, stage: &str)
    ensures
        final(s)@ == old(s)@ + count_text(n as nat, stage@),
{
    let d = decimal_string(n);
    s.append(d.as_str());
    s.append(" ");
    s.append(stage);
    s.append(" task");
    if n != 1 {
        s.append("s");
    }
    proof {
        reveal_strlit(" ");
        reveal_strlit(" task");
        reveal_strlit("s");
    }
}

} // verus!
