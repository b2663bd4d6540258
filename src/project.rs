use vstd::prelude::*;
use crate::error::PlzError;

verus! {

/// The texts of a sequence of strings.
pub open spec fn texts(v: Seq<String>) -> Seq<Seq<char>> {
    v.map_values(|s: String| s@)
}

/// A named workflow: the shell commands it runs, in order.
#[derive(Debug, Clone)]
pub struct Task {
    pub script: Vec<String>,
}

impl View for Task {
    type V = Seq<Seq<char>>;

    open spec fn view(&self) -> Seq<Seq<char>> {
        texts(self.script@)
    }
}

impl Task {
    /// A task that runs `script`.
    pub fn new(script: Vec<String>) -> (t: Task)
        ensures
            t.script@ == script@,
    {
        Task { script }
    }
}

/// The decoded manifest: a mapping from task name to task.
#[derive(Debug, Clone)]
pub struct Project {
    entries: Vec<(String, Task)>,
}

impl View for Project {
    type V = Map<Seq<char>, Seq<Seq<char>>>;

    closed spec fn view(&self) -> Map<Seq<char>, Seq<Seq<char>>> {
        Map::new(
            |k: Seq<char>| self.has_name(k),
            |k: Seq<char>| self.entries@[self.index_of(k)].1@,
        )
    }
}

impl Project {
    spec fn has_name(&self, k: Seq<char>) -> bool {
        exists|i: int| 0 <= i < self.entries@.len() && #[trigger] self.entries@[i].0@ == k
    }

    spec fn index_of(&self, k: Seq<char>) -> int {
        choose|i: int| 0 <= i < self.entries@.len() && #[trigger] self.entries@[i].0@ == k
    }

    /// Task names are unique.
    pub closed spec fn wf(&self) -> bool {
        forall|i: int, j: int|
            0 <= i < self.entries@.len() && 0 <= j < self.entries@.len()
                && #[trigger] self.entries@[i].0@ == #[trigger] self.entries@[j].0@ ==> i == j
    }

    proof fn lemma_index_of(&self, i: int)
        requires
            self.wf(),
            0 <= i < self.entries@.len(),
        ensures
            self.has_name(self.entries@[i].0@),
            self.index_of(self.entries@[i].0@) == i,
    {
        let k = self.entries@[i].0@;
        assert(self.has_name(k));
        let j = self.index_of(k);
        assert(self.entries@[j].0@ == k);
    }

    /// A project that defines no tasks.
    pub fn new() -> (p: Project)
        ensures
            p.wf(),
            p@ == Map::<Seq<char>, Seq<Seq<char>>>::empty(),
    {
        let p = Project { entries: Vec::new() };
        assert(p@ =~= Map::<Seq<char>, Seq<Seq<char>>>::empty());
        p
    }

    /// Defines the task `name`, replacing an earlier task of that name.
    pub fn insert(&mut self, name: String, task: Task)
        requires
            old(self).wf(),
        ensures
            final(self).wf(),
            final(self)@ == old(self)@.insert(name@, task@),
    {
        let ghost old_p = *self;
        let n = self.entries.len();
        let mut i: usize = 0;
        while i < n
            invariant
                n == self.entries@.len(),
                *self == old_p,
                0 <= i <= n,
                forall|j: int| 0 <= j < i ==> #[trigger] self.entries@[j].0@ != name@,
            ensures
                i < n ==> self.entries@[i as int].0@ == name@,
            decreases n - i,
        {
            if self.entries[i].0 == name {
                break;
            }
            i = i + 1;
        }
        let ghost k = name@;
        let ghost tv = task@;
        if i < n {
            self.entries.set(i, (name, task));
            proof {
                assert forall|a: int, b: int|
                    0 <= a < self.entries@.len() && 0 <= b < self.entries@.len()
                        && #[trigger] self.entries@[a].0@ == #[trigger] self.entries@[b].0@
                    implies a == b by {
                    if a != i && b != i {
                        assert(old_p.entries@[a].0@ == old_p.entries@[b].0@);
                    } else if a == i && b != i {
                        assert(old_p.entries@[i as int].0@ == old_p.entries@[b].0@);
                    } else if b == i && a != i {
                        assert(old_p.entries@[a].0@ == old_p.entries@[i as int].0@);
                    }
                };
                assert forall|q: Seq<char>| #[trigger] self@.contains_key(q) == old_p@.insert(k, tv).contains_key(q) by {
                    if old_p.has_name(q) {
                        let j = old_p.index_of(q);
                        if j != i {
                            assert(self.entries@[j].0@ == q);
                        } else {
                            assert(self.entries@[i as int].0@ == q);
                        }
                    }
                    if self.has_name(q) {
                        let j = self.index_of(q);
                        if j != i {
                            assert(old_p.entries@[j].0@ == q);
                        }
                    }
                };
                assert forall|q: Seq<char>| #[trigger] self@.contains_key(q) implies self@[q] == old_p@.insert(k, tv)[q] by {
                    let j = self.index_of(q);
                    self.lemma_index_of(j);
                    if j != i {
                        old_p.lemma_index_of(j);
                    }
                };
                assert(self@ =~= old_p@.insert(k, tv));
            }
        } else {
            self.entries.push((name, task));
            proof {
                assert forall|a: int, b: int|
                    0 <= a < self.entries@.len() && 0 <= b < self.entries@.len()
                        && #[trigger] self.entries@[a].0@ == #[trigger] self.entries@[b].0@
                    implies a == b by {
                    if a != n && b != n {
                        assert(old_p.entries@[a].0@ == old_p.entries@[b].0@);
                    }
                };
                assert forall|q: Seq<char>| #[trigger] self@.contains_key(q) == old_p@.insert(k, tv).contains_key(q) by {
                    if old_p.has_name(q) {
                        let j = old_p.index_of(q);
                        assert(self.entries@[j].0@ == q);
                    }
                    if q == k {
                        assert(self.entries@[n as int].0@ == q);
                    }
                    if self.has_name(q) {
                        let j = self.index_of(q);
                        if j != n {
                            assert(old_p.entries@[j].0@ == q);
                        }
                    }
                };
                assert forall|q: Seq<char>| #[trigger] self@.contains_key(q) implies self@[q] == old_p@.insert(k, tv)[q] by {
                    let j = self.index_of(q);
                    self.lemma_index_of(j);
                    if j != n {
                        old_p.lemma_index_of(j);
                    }
                };
                assert(self@ =~= old_p@.insert(k, tv));
            }
        }
    }

    /// The task called `name`; names are compared exactly.
    pub fn lookup(&self, name: &str) -> (r: Result<&Task, PlzError>)
        requires
            self.wf(),
        ensures
            match r {
                Ok(t) => self@.contains_key(name@) && t@ == self@[name@],
                Err(e) => !self@.contains_key(name@) && (e matches PlzError::UnknownTask(n) && n@ == name@),
            },
    {
        let wanted = name.to_owned();
        let n = self.entries.len();
        let mut i: usize = 0;
        while i < n
            invariant
                n == self.entries@.len(),
                self.wf(),
                wanted@ == name@,
                0 <= i <= n,
                forall|j: int| 0 <= j < i ==> #[trigger] self.entries@[j].0@ != name@,
            decreases n - i,
        {
            if self.entries[i].0 == wanted {
                proof {
                    self.lemma_index_of(i as int);
                }
                return Ok(&self.entries[i].1);
            }
            i = i + 1;
        }
        proof {
            if self.has_name(name@) {
                let j = self.index_of(name@);
                assert(self.entries@[j].0@ == name@);
            }
        }
        Err(PlzError::UnknownTask(wanted))
    }
}

} // verus!
