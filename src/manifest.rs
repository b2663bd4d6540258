use vstd::prelude::*;
use vstd::string::*;
use crate::error::PlzError;
use crate::project::{texts, Project, Task};

verus! {

/// A decoded structured-text document, as far as the manifest's schema reads it.
#[derive(Debug)]
pub enum Doc {
    /// A table: its keys and values, in order.
    Table(Vec<(String, Doc)>),
    /// An array of values.
    Array(Vec<Doc>),
    /// A string.
    Text(String),
    /// Any other scalar (a number, a boolean, a date).
    Other,
}

/// A task's `script`: an array of strings.
pub open spec fn script_ok(v: Doc) -> bool {
    v matches Doc::Array(items) && forall|i: int| 0 <= i < items@.len() ==> #[trigger] items@[i] is Text
}

/// A task's table: no key but `script`.
pub open spec fn task_ok(v: Doc) -> bool {
    v matches Doc::Table(fields) && forall|i: int|
        0 <= i < fields@.len() ==> (#[trigger] fields@[i]).0@ == "script"@ && script_ok(fields@[i].1)
}

/// The `tasks` table: every value is a task's table.
pub open spec fn tasks_ok(v: Doc) -> bool {
    v matches Doc::Table(entries) && forall|i: int| 0 <= i < entries@.len() ==> task_ok((#[trigger] entries@[i]).1)
}

/// A manifest: a table with no key but `tasks`.
pub open spec fn manifest_ok(doc: Doc) -> bool {
    doc matches Doc::Table(top) && forall|i: int|
        0 <= i < top@.len() ==> (#[trigger] top@[i]).0@ == "tasks"@ && tasks_ok(top@[i].1)
}

/// The commands of a valid `script` array.
pub open spec fn script_model(items: Seq<Doc>) -> Seq<Seq<char>> {
    Seq::new(items.len(), |i: int| items[i]->Text_0@)
}

/// The commands of a valid task table; without `script`, none.
pub open spec fn task_model(fields: Seq<(String, Doc)>) -> Seq<Seq<char>> {
    if fields.len() == 0 {
        Seq::empty()
    } else {
        script_model(fields.last().1->Array_0@)
    }
}

/// The tasks of a valid `tasks` table; a later entry of a name wins.
pub open spec fn tasks_model(entries: Seq<(String, Doc)>) -> Map<Seq<char>, Seq<Seq<char>>>
    decreases entries.len(),
{
    if entries.len() == 0 {
        Map::empty()
    } else {
        tasks_model(entries.drop_last()).insert(entries.last().0@, task_model(entries.last().1->Table_0@))
    }
}

/// The tasks of a valid manifest; without `tasks`, none.
pub open spec fn manifest_model(top: Seq<(String, Doc)>) -> Map<Seq<char>, Seq<Seq<char>>> {
    if top.len() == 0 {
        Map::empty()
    } else {
        tasks_model(top.last().1->Table_0@)
    }
}

/// A task's table has a key other than `script`.
pub open spec fn task_has_unknown_key(v: Doc) -> bool {
    v is Table && exists|k: int| 0 <= k < v->Table_0@.len() && (#[trigger] v->Table_0@[k]).0@ != "script"@
}

/// Some task in the `tasks` table has a key other than `script`.
pub open spec fn tasks_have_unknown_key(v: Doc) -> bool {
    v is Table && exists|j: int| 0 <= j < v->Table_0@.len() && task_has_unknown_key((#[trigger] v->Table_0@[j]).1)
}

/// The manifest has a key that its schema does not know: one other than
/// `tasks` at the top, or one other than `script` in some task's table.
pub open spec fn has_unknown_key(doc: Doc) -> bool {
    doc is Table && exists|i: int|
        0 <= i < doc->Table_0@.len() && ((#[trigger] doc->Table_0@[i]).0@ != "tasks"@
            || tasks_have_unknown_key(doc->Table_0@[i].1))
}

/// A manifest with an unknown key, at the top or in a task, is refused by the
/// schema: it describes no project.
pub proof fn lemma_unknown_key_refused(doc: Doc)
    requires
        has_unknown_key(doc),
    ensures
        !manifest_ok(doc),
{
    let top = doc->Table_0@;
    let i = choose|i: int|
        0 <= i < top.len() && ((#[trigger] top[i]).0@ != "tasks"@ || tasks_have_unknown_key(top[i].1));
    if top[i].0@ != "tasks"@ {
        assert(!manifest_ok(doc)) by {
            if manifest_ok(doc) {
                assert(top[i].0@ == "tasks"@);
            }
        };
    } else {
        let entries = top[i].1->Table_0@;
        let j = choose|j: int| 0 <= j < entries.len() && task_has_unknown_key((#[trigger] entries[j]).1);
        let fields = entries[j].1->Table_0@;
        let k = choose|k: int| 0 <= k < fields.len() && (#[trigger] fields[k]).0@ != "script"@;
        assert(!manifest_ok(doc)) by {
            if manifest_ok(doc) {
                assert(tasks_ok(top[i].1));
                assert(task_ok(entries[j].1));
                assert(fields[k].0@ == "script"@);
            }
        };
    }
}

fn schema_error(what: &str, key: &str) -> (e: PlzError)
    ensures
        e is ManifestSchema,
{
    let m = String::from_str(what).concat(key);
    PlzError::ManifestSchema(m)
}

fn decode_script(v: &Doc) -> (r: Result<Vec<String>, PlzError>)
    ensures
        match r {
            Ok(s) => script_ok(*v) && texts(s@) == script_model(v->Array_0@),
            Err(e) => !script_ok(*v) && e is ManifestSchema,
        },
{
    match v {
        Doc::Array(items) => {
            let mut out: Vec<String> = Vec::new();
            let n = items.len();
            let mut i: usize = 0;
            while i < n
                invariant
                    n == items@.len(),
                    items@ == v->Array_0@,
                    0 <= i <= n,
                    out@.len() == i,
                    forall|j: int| 0 <= j < i ==> #[trigger] items@[j] is Text,
                    forall|j: int| 0 <= j < i ==> #[trigger] out@[j]@ == items@[j]->Text_0@,
                decreases n - i,
            {
                match &items[i] {
                    Doc::Text(s) => out.push(s.clone()),
                    _ => {
                        proof {
                            assert(!script_ok(*v)) by {
                                if script_ok(*v) {
                                    assert(items@[i as int] is Text);
                                }
                            };
                        }
                        return Err(schema_error("invalid type: `script` holds a value that is not a string", ""));
                    },
                }
                i = i + 1;
            }
            assert(texts(out@) =~= script_model(items@));
            Ok(out)
        },
        _ => Err(schema_error("invalid type: `script` is not an array", "")),
    }
}

fn decode_task(v: &Doc) -> (r: Result<Task, PlzError>)
    ensures
        match r {
            Ok(t) => task_ok(*v) && t@ == task_model(v->Table_0@),
            Err(e) => !task_ok(*v) && e is ManifestSchema,
        },
{
    match v {
        Doc::Table(fields) => {
            let key = String::from_str("script");
            let mut script: Vec<String> = Vec::new();
            let n = fields.len();
            let mut i: usize = 0;
            while i < n
                invariant
                    n == fields@.len(),
                    fields@ == v->Table_0@,
                    0 <= i <= n,
                    key@ == "script"@,
                    forall|j: int| 0 <= j < i ==> (#[trigger] fields@[j]).0@ == "script"@ && script_ok(fields@[j].1),
                    texts(script@) == task_model(fields@.take(i as int)),
                decreases n - i,
            {
                if fields[i].0 != key {
                    proof {
                        assert(!task_ok(*v)) by {
                            if task_ok(*v) {
                                assert(fields@[i as int].0@ == "script"@);
                            }
                        };
                    }
                    return Err(schema_error("unknown field in a task: ", fields[i].0.as_str()));
                }
                match decode_script(&fields[i].1) {
                    Ok(s) => script = s,
                    Err(e) => {
                        proof {
                            assert(!task_ok(*v)) by {
                                if task_ok(*v) {
                                    assert(script_ok(fields@[i as int].1));
                                }
                            };
                        }
                        return Err(e);
                    },
                }
                proof {
                    assert(fields@.take(i + 1).last() == fields@[i as int]);
                }
                i = i + 1;
            }
            assert(fields@.take(n as int) =~= fields@);
            Ok(Task::new(script))
        },
        _ => Err(schema_error("invalid type: a task is not a table", "")),
    }
}

fn decode_tasks(v: &Doc) -> (r: Result<Project, PlzError>)
    ensures
        match r {
            Ok(p) => tasks_ok(*v) && p.wf() && p@ == tasks_model(v->Table_0@),
            Err(e) => !tasks_ok(*v) && e is ManifestSchema,
        },
{
    match v {
        Doc::Table(entries) => {
            let mut p = Project::new();
            let n = entries.len();
            let mut i: usize = 0;
            while i < n
                invariant
                    n == entries@.len(),
                    entries@ == v->Table_0@,
                    0 <= i <= n,
                    p.wf(),
                    forall|j: int| 0 <= j < i ==> task_ok((#[trigger] entries@[j]).1),
                    p@ == tasks_model(entries@.take(i as int)),
                decreases n - i,
            {
                match decode_task(&entries[i].1) {
                    Ok(t) => p.insert(entries[i].0.clone(), t),
                    Err(e) => {
                        proof {
                            assert(!tasks_ok(*v)) by {
                                if tasks_ok(*v) {
                                    assert(task_ok(entries@[i as int].1));
                                }
                            };
                        }
                        return Err(e);
                    },
                }
                proof {
                    assert(entries@.take(i + 1).drop_last() =~= entries@.take(i as int));
                }
                i = i + 1;
            }
            assert(entries@.take(n as int) =~= entries@);
            Ok(p)
        },
        _ => Err(schema_error("invalid type: `tasks` is not a table", "")),
    }
}

/// The project that a decoded manifest describes. The schema is strict: a key
/// other than `tasks` at the top, or other than `script` in a task, or a value
/// of the wrong type, is a schema error. Missing `tasks` means no tasks, and a
/// missing `script` means no commands.
pub fn decode_project(doc: &Doc) -> (r: Result<Project, PlzError>)
    ensures
        match r {
            Ok(p) => manifest_ok(*doc) && p.wf() && p@ == manifest_model(doc->Table_0@),
            Err(e) => !manifest_ok(*doc) && e is ManifestSchema,
        },
{
    match doc {
        Doc::Table(top) => {
            let key = String::from_str("tasks");
            let mut p = Project::new();
            let n = top.len();
            let mut i: usize = 0;
            while i < n
                invariant
                    n == top@.len(),
                    top@ == doc->Table_0@,
                    0 <= i <= n,
                    key@ == "tasks"@,
                    p.wf(),
                    forall|j: int| 0 <= j < i ==> (#[trigger] top@[j]).0@ == "tasks"@ && tasks_ok(top@[j].1),
                    p@ == manifest_model(top@.take(i as int)),
                decreases n - i,
            {
                if top[i].0 != key {
                    proof {
                        assert(!manifest_ok(*doc)) by {
                            if manifest_ok(*doc) {
                                assert(top@[i as int].0@ == "tasks"@);
                            }
                        };
                    }
                    return Err(schema_error("unknown field: ", top[i].0.as_str()));
                }
                match decode_tasks(&top[i].1) {
                    Ok(q) => p = q,
                    Err(e) => {
                        proof {
                            assert(!manifest_ok(*doc)) by {
                                if manifest_ok(*doc) {
                                    assert(tasks_ok(top@[i as int].1));
                                }
                            };
                        }
                        return Err(e);
                    },
                }
                proof {
                    assert(top@.take(i + 1).last() == top@[i as int]);
                }
                i = i + 1;
            }
            assert(top@.take(n as int) =~= top@);
            Ok(p)
        },
        _ => Err(schema_error("invalid type: the manifest is not a table", "")),
    }
}

} // verus!
