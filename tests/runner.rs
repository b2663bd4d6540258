use plz::error::PlzError;
use plz::locate::{Locator, Probe, MANIFEST_NAME};
use plz::manifest::{decode_project, Doc};
use plz::project::{Project, Task};
use plz::script::{trace_line, Outcome, ScriptRun};
use plz::session::Session;
use plz::startup::Startup;

fn strings(v: &[&str]) -> Vec<String> {
    v.iter().map(|s| s.to_string()).collect()
}

fn project(tasks: &[(&str, &[&str])]) -> Project {
    let mut p = Project::new();
    for (name, script) in tasks {
        p.insert(name.to_string(), Task::new(strings(script)));
    }
    p
}

/// Feeds `codes` to a run of `script`; gives the commands handed out and the result.
fn drive(script: &[&str], codes: &[Outcome]) -> (Vec<String>, Option<Result<(), PlzError>>) {
    let mut run = ScriptRun::begin(Task::new(strings(script)));
    let mut handed = Vec::new();
    let mut next = codes.iter();
    while let Some(cmd) = run.current() {
        handed.push(cmd.clone());
        match next.next() {
            Some(o) => run.record(o.clone()),
            None => break,
        }
    }
    (handed, run.finish())
}

/// Runs the tasks `requested`; `fails` names the tasks whose run fails.
fn run_session(p: Project, requested: &[&str], fails: &[&str]) -> (Vec<Vec<String>>, Result<(), PlzError>) {
    let mut s = Session::new(p, strings(requested));
    let mut ran = Vec::new();
    loop {
        if let Some(r) = s.outcome() {
            return (ran, r.clone());
        }
        let task = s.current_task().unwrap().clone();
        let failed = task.script.iter().any(|c| fails.contains(&c.as_str()));
        ran.push(task.script.clone());
        if failed {
            s.task_done(Err(PlzError::CommandFailed(0, 1)));
        } else {
            s.task_done(Ok(()));
        }
    }
}

#[test]
fn manifest_name_is_plz_toml() {
    assert_eq!(MANIFEST_NAME, "plz.toml");
}

#[test]
fn trace_line_prefixes_command() {
    assert_eq!(trace_line("echo hello"), "+ echo hello");
    assert_eq!(trace_line(""), "+ ");
}

#[test]
fn lookup_finds_defined_task() {
    let p = project(&[("hi", &["echo hello"]), ("build", &["make", "make install"])]);
    let t = p.lookup("build").unwrap();
    assert_eq!(t.script, strings(&["make", "make install"]));
    assert_eq!(p.lookup("hi").unwrap().script, strings(&["echo hello"]));
}

#[test]
fn lookup_unknown_task_names_it() {
    let p = project(&[("build", &["make"])]);
    match p.lookup("deploy") {
        Err(PlzError::UnknownTask(n)) => assert_eq!(n, "deploy"),
        other => panic!("unexpected {:?}", other),
    }
}

#[test]
fn lookup_compares_names_exactly() {
    let p = project(&[("build", &["make"])]);
    assert!(matches!(p.lookup("Build"), Err(PlzError::UnknownTask(_))));
    assert!(matches!(p.lookup(" build"), Err(PlzError::UnknownTask(_))));
    assert!(matches!(p.lookup(""), Err(PlzError::UnknownTask(_))));
}

#[test]
fn empty_project_defines_nothing() {
    let p = Project::new();
    assert!(matches!(p.lookup("anything"), Err(PlzError::UnknownTask(_))));
}

#[test]
fn insert_replaces_task_of_same_name() {
    let mut p = project(&[("t", &["one"])]);
    p.insert("t".to_string(), Task::new(strings(&["two", "three"])));
    assert_eq!(p.lookup("t").unwrap().script, strings(&["two", "three"]));
}

#[test]
fn script_all_succeed_runs_every_command() {
    let (handed, r) = drive(&["a", "b", "c"], &[Outcome::Exited(0), Outcome::Exited(0), Outcome::Exited(0)]);
    assert_eq!(handed, strings(&["a", "b", "c"]));
    assert!(matches!(r, Some(Ok(()))));
}

#[test]
fn failing_command_halts_task() {
    let (handed, r) = drive(&["true", "false", "echo never"], &[Outcome::Exited(0), Outcome::Exited(1), Outcome::Exited(0)]);
    assert_eq!(handed, strings(&["true", "false"]));
    assert!(matches!(r, Some(Err(PlzError::CommandFailed(1, 1)))));
}

#[test]
fn negative_exit_code_is_failure() {
    let (handed, r) = drive(&["x", "y"], &[Outcome::Exited(-2)]);
    assert_eq!(handed, strings(&["x"]));
    assert!(matches!(r, Some(Err(PlzError::CommandFailed(0, -2)))));
}

#[test]
fn executor_error_halts_task() {
    let (handed, r) = drive(&["ok", "bad (", "never"], &[Outcome::Exited(0), Outcome::ExecutorFailed("parse error".to_string())]);
    assert_eq!(handed, strings(&["ok", "bad ("]));
    match r {
        Some(Err(PlzError::ExecutorError(1, m))) => assert_eq!(m, "parse error"),
        other => panic!("unexpected {:?}", other),
    }
}

#[test]
fn empty_script_is_done_at_once() {
    let run = ScriptRun::begin(Task::new(Vec::new()));
    assert!(run.current().is_none());
    assert!(matches!(run.finish(), Some(Ok(()))));
}

#[test]
fn running_script_has_no_result_yet() {
    let mut run = ScriptRun::begin(Task::new(strings(&["a", "b"])));
    assert!(run.finish().is_none());
    run.record(Outcome::Exited(0));
    assert_eq!(run.current().unwrap(), "b");
    assert!(run.finish().is_none());
}

#[test]
fn repeated_runs_hand_out_same_commands() {
    let script = ["a", "b", "c"];
    let (first, _) = drive(&script, &[Outcome::Exited(0), Outcome::Exited(0), Outcome::Exited(0)]);
    let (second, _) = drive(&script, &[Outcome::Exited(0), Outcome::Exited(3)]);
    assert_eq!(first, strings(&script));
    assert_eq!(second, strings(&["a", "b"]));
    assert_eq!(&first[..second.len()], &second[..]);
}

#[test]
fn single_task_happy_path() {
    let p = project(&[("hi", &["echo hello"])]);
    let (ran, r) = run_session(p, &["hi"], &[]);
    assert_eq!(ran, vec![strings(&["echo hello"])]);
    assert!(r.is_ok());
}

#[test]
fn unknown_task_runs_nothing() {
    let p = project(&[("build", &["make"])]);
    let (ran, r) = run_session(p, &["deploy"], &[]);
    assert!(ran.is_empty());
    match r {
        Err(PlzError::UnknownTask(n)) => assert_eq!(n, "deploy"),
        other => panic!("unexpected {:?}", other),
    }
}

#[test]
fn unknown_task_stops_later_tasks() {
    let p = project(&[("a", &["echo a"]), ("c", &["echo c"])]);
    let (ran, r) = run_session(p, &["a", "b", "c"], &[]);
    assert_eq!(ran, vec![strings(&["echo a"])]);
    assert!(matches!(r, Err(PlzError::UnknownTask(_))));
}

#[test]
fn second_task_fails_third_never_runs() {
    let p = project(&[("a", &["echo a1", "echo a2"]), ("b", &["false", "echo b2"]), ("c", &["echo c"])]);
    let (ran, r) = run_session(p, &["a", "b", "c"], &["false"]);
    assert_eq!(ran, vec![strings(&["echo a1", "echo a2"]), strings(&["false", "echo b2"])]);
    assert!(matches!(r, Err(PlzError::CommandFailed(0, 1))));
}

#[test]
fn duplicate_requests_run_each_time() {
    let p = project(&[("a", &["echo a"])]);
    let (ran, r) = run_session(p, &["a", "a"], &[]);
    assert_eq!(ran.len(), 2);
    assert!(r.is_ok());
}

#[test]
fn no_requested_tasks_succeeds() {
    let p = project(&[("a", &["echo a"])]);
    let s = Session::new(p, Vec::new());
    assert!(matches!(s.outcome(), Some(Ok(()))));
    assert!(s.current_task().is_none());
    assert!(matches!(Session::new(Project::new(), Vec::new()).outcome(), Some(Ok(()))));
}

#[test]
fn session_stage_is_finished_after_failure() {
    let p = project(&[("a", &["x"])]);
    let mut s = Session::new(p, strings(&["a", "a"]));
    s.task_done(Err(PlzError::ExecutorError(0, "boom".to_string())));
    assert!(s.current_task().is_none());
    assert!(matches!(s.outcome(), Some(Err(PlzError::ExecutorError(0, _)))));
}

#[test]
fn locator_climbs_to_nearest_manifest() {
    let mut l = Locator::new(strings(&["tmp", "proj", "a", "b"]));
    assert_eq!(l.components(), &strings(&["tmp", "proj", "a", "b"]));
    assert!(matches!(l.advance(false), Probe::Climb));
    assert_eq!(l.components(), &strings(&["tmp", "proj", "a"]));
    assert!(matches!(l.advance(false), Probe::Climb));
    assert!(matches!(l.advance(true), Probe::Found));
    assert_eq!(l.into_components(), strings(&["tmp", "proj"]));
}

#[test]
fn locator_finds_manifest_in_start_directory() {
    let mut l = Locator::new(strings(&["home", "me"]));
    assert!(matches!(l.advance(true), Probe::Found));
    assert_eq!(l.components(), &strings(&["home", "me"]));
}

#[test]
fn locator_at_root_probes_once_then_fails() {
    let mut l: Locator<String> = Locator::new(Vec::new());
    assert!(matches!(l.advance(false), Probe::Exhausted));
    assert!(l.components().is_empty());
}

#[test]
fn startup_reaches_running_in_project_root() {
    let mut s = Startup::begin(strings(&["tmp", "proj", "a", "b"]));
    s = s.probed(false);
    s = s.probed(false);
    s = s.probed(true);
    match &s {
        Startup::Reading(root) => assert_eq!(root, &strings(&["tmp", "proj"])),
        _ => panic!("expected the root"),
    }
    s = s.read(Ok(project(&[("pwd", &["pwd"])])));
    assert!(matches!(s, Startup::Entering(_, _)));
    s = s.entered(Ok(()), strings(&["pwd"]));
    match s {
        Startup::Running(session) => {
            assert_eq!(session.current_task().unwrap().script, strings(&["pwd"]));
        }
        _ => panic!("expected running"),
    }
}

#[test]
fn startup_without_manifest_fails() {
    let mut s = Startup::begin(strings(&["x"]));
    s = s.probed(false);
    s = s.probed(false);
    assert!(matches!(s, Startup::Failed(PlzError::ManifestNotFound)));
}

#[test]
fn startup_decode_failure_runs_no_task() {
    let mut s = Startup::begin(strings(&["p"]));
    s = s.probed(true);
    s = s.read(Err(PlzError::ManifestSchema("unknown field `name`".to_string())));
    assert!(matches!(s, Startup::Failed(PlzError::ManifestSchema(_))));
}

#[test]
fn startup_chdir_failure_runs_no_task() {
    let mut s = Startup::begin(strings(&["p"]));
    s = s.probed(true);
    s = s.read(Ok(project(&[("a", &["x"])])));
    s = s.entered(Err(PlzError::ChdirFailed("denied".to_string())), strings(&["a"]));
    assert!(matches!(s, Startup::Failed(PlzError::ChdirFailed(_))));
}

fn text(s: &str) -> Doc {
    Doc::Text(s.to_string())
}

fn table(entries: Vec<(&str, Doc)>) -> Doc {
    Doc::Table(entries.into_iter().map(|(k, v)| (k.to_string(), v)).collect())
}

/// A decoded TOML value, as the library's schema reads it.
fn to_doc(v: toml::Value) -> Doc {
    match v {
        toml::Value::Table(t) => Doc::Table(t.into_iter().map(|(k, v)| (k, to_doc(v))).collect()),
        toml::Value::Array(a) => Doc::Array(a.into_iter().map(to_doc).collect()),
        toml::Value::String(s) => Doc::Text(s),
        _ => Doc::Other,
    }
}

/// The decoder's value for `src`.
fn parsed(src: &str) -> Doc {
    to_doc(toml::from_str(src).unwrap())
}

#[test]
fn empty_manifest_defines_no_tasks() {
    let p = decode_project(&table(vec![])).unwrap();
    assert!(matches!(p.lookup("hi"), Err(PlzError::UnknownTask(_))));
    let p = decode_project(&parsed("")).unwrap();
    assert!(matches!(p.lookup("hi"), Err(PlzError::UnknownTask(_))));
}

#[test]
fn manifest_with_one_task_decodes() {
    let p = decode_project(&parsed("[tasks.hi]\nscript = [\"echo hello\"]")).unwrap();
    assert_eq!(p.lookup("hi").unwrap().script, strings(&["echo hello"]));
}

#[test]
fn manifest_with_several_tasks_decodes() {
    let src = "[tasks.a]\nscript = [\"echo a1\", \"echo a2\"]\n\n[tasks.b]\nscript = []\n";
    let p = decode_project(&parsed(src)).unwrap();
    assert_eq!(p.lookup("a").unwrap().script, strings(&["echo a1", "echo a2"]));
    assert!(p.lookup("b").unwrap().script.is_empty());
}

#[test]
fn missing_script_is_empty() {
    let doc = table(vec![("tasks", table(vec![("t", table(vec![]))]))]);
    let p = decode_project(&doc).unwrap();
    assert!(p.lookup("t").unwrap().script.is_empty());
}

#[test]
fn empty_tasks_table_defines_no_tasks() {
    let p = decode_project(&table(vec![("tasks", table(vec![]))])).unwrap();
    assert!(matches!(p.lookup("t"), Err(PlzError::UnknownTask(_))));
}

#[test]
fn unknown_top_level_key_is_schema_error() {
    let r = decode_project(&parsed("name = \"x\"\n[tasks.hi]\nscript = [\"echo\"]"));
    assert!(matches!(r, Err(PlzError::ManifestSchema(_))));
    let r = decode_project(&table(vec![("task", table(vec![]))]));
    assert!(matches!(r, Err(PlzError::ManifestSchema(_))));
}

#[test]
fn unknown_task_key_is_schema_error() {
    let r = decode_project(&parsed("[tasks.hi]\nscript = [\"echo\"]\ndeps = [\"x\"]"));
    assert!(matches!(r, Err(PlzError::ManifestSchema(_))));
}

#[test]
fn non_string_command_is_schema_error() {
    let r = decode_project(&parsed("[tasks.hi]\nscript = [1, 2]"));
    assert!(matches!(r, Err(PlzError::ManifestSchema(_))));
    let doc = table(vec![("tasks", table(vec![("t", table(vec![("script", Doc::Array(vec![text("ok"), Doc::Other]))]))]))]);
    assert!(matches!(decode_project(&doc), Err(PlzError::ManifestSchema(_))));
}

#[test]
fn wrong_value_types_are_schema_errors() {
    let script_text = table(vec![("tasks", table(vec![("t", table(vec![("script", text("make"))]))]))]);
    assert!(matches!(decode_project(&script_text), Err(PlzError::ManifestSchema(_))));
    let task_text = table(vec![("tasks", table(vec![("t", text("make"))]))]);
    assert!(matches!(decode_project(&task_text), Err(PlzError::ManifestSchema(_))));
    let tasks_array = table(vec![("tasks", Doc::Array(vec![]))]);
    assert!(matches!(decode_project(&tasks_array), Err(PlzError::ManifestSchema(_))));
    assert!(matches!(decode_project(&Doc::Other), Err(PlzError::ManifestSchema(_))));
}

#[test]
fn schema_error_names_unknown_key() {
    match decode_project(&table(vec![("name", text("x"))])) {
        Err(PlzError::ManifestSchema(m)) => assert!(m.contains("name")),
        other => panic!("unexpected {:?}", other),
    }
}
