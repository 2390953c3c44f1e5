use cfg_patch::{
    run, Candidate, Category, Diff, Job, Mapping, OutOfTurn, Patch, Patches, Reply, Request, Stage,
};
use std::collections::BTreeMap;
use std::path::{Path, PathBuf};

fn mapping(pairs: &[(&str, &str)]) -> Mapping {
    let mut m = Mapping::new();
    for (key, value) in pairs {
        m.insert(key.to_string(), value.to_string());
    }
    m
}

fn patch(engines: &[(&str, &str)], flight_model: &[(&str, &str)]) -> Patch {
    Patch { engines: mapping(engines), flight_model: mapping(flight_model) }
}

fn patches(entries: Vec<(&str, Patch)>) -> Patches {
    let mut p = Patches::new();
    for (name, patch) in entries {
        p.insert(name.to_string(), patch);
    }
    p
}

fn candidate(path: &str) -> Candidate {
    let path = PathBuf::from(path);
    let name = path.file_name().and_then(|n| n.to_str()).map(|n| n.to_string());
    Candidate { path, name }
}

/// Files in memory, and what a driver of a run does with them.
struct Disk {
    files: BTreeMap<PathBuf, String>,
    console: Vec<String>,
    searches: Vec<(PathBuf, String)>,
}

impl Disk {
    fn new(files: &[(&str, &str)]) -> Disk {
        Disk {
            files: files.iter().map(|(p, t)| (PathBuf::from(p), t.to_string())).collect(),
            console: Vec::new(),
            searches: Vec::new(),
        }
    }

    fn text(&self, path: &str) -> Option<&str> {
        self.files.get(Path::new(path)).map(|t| t.as_str())
    }

    fn locate(&mut self, root: &Path, name: &str) -> Option<PathBuf> {
        self.searches.push((root.to_path_buf(), name.to_string()));
        self.files.keys().find(|p| p.starts_with(root) && p.ends_with(name)).cloned()
    }

    fn replace(&mut self, path: &Path, text: String) {
        let backup = path.with_extension("bak.cfg");
        assert!(!self.files.contains_key(&backup));
        let old = self.files.remove(path).unwrap();
        self.files.insert(backup, old);
        self.files.insert(path.to_path_buf(), text);
    }

    fn drive(&mut self, patches: Patches, candidates: Vec<Candidate>) -> Vec<Stage> {
        let mut stages = Vec::new();
        let (mut job, mut request) = Job::new(patches, candidates);
        loop {
            stages.push(job.stage());
            let reply = match request {
                Request::Locate(category) => {
                    let root = job.package().unwrap().clone();
                    Reply::Located(self.locate(&root, category.file_name()))
                }
                Request::Read(category) => {
                    let path = job.target(category).unwrap();
                    Reply::Text(self.files.get(path).unwrap().clone())
                }
                Request::Replace { category, text, report } => {
                    self.console.extend(report);
                    let path = job.target(category).unwrap().clone();
                    self.replace(&path, text);
                    Reply::Replaced
                }
                Request::Finish => return stages,
            };
            let (next, result) = run(job, reply);
            job = next;
            request = result.unwrap();
        }
    }
}

#[test]
fn scenario_end_to_end() {
    let mut disk = Disk::new(&[("root/FlyerX/engines.cfg", "power = 50 ; base\nmix = 12\n")]);
    let stages = disk.drive(
        patches(vec![("FlyerX", patch(&[("power", "75")], &[]))]),
        vec![candidate("root/FlyerX")],
    );
    assert_eq!(disk.text("root/FlyerX/engines.bak.cfg"), Some("power = 50 ; base\nmix = 12\n"));
    assert_eq!(disk.text("root/FlyerX/engines.cfg"), Some("power = 75 ; 50 ; base\nmix = 12\n"));
    assert_eq!(disk.console, vec!["power = 75 ; 50 ; base".to_string()]);
    assert_eq!(disk.files.len(), 2);
    assert_eq!(
        stages,
        vec![
            Stage::Locating(Category::Engines),
            Stage::Reading(Category::Engines),
            Stage::Rereading(Category::Engines),
            Stage::Replacing(Category::Engines),
            Stage::Finished,
        ]
    );
}

#[test]
fn scenario_end_to_end_keeps_line_endings() {
    let mut disk = Disk::new(&[("root/FlyerX/engines.cfg", "power=50;base\r\nmix = 12")]);
    disk.drive(
        patches(vec![("FlyerX", patch(&[("power", "75")], &[]))]),
        vec![candidate("root/FlyerX")],
    );
    assert_eq!(disk.text("root/FlyerX/engines.bak.cfg"), Some("power=50;base\r\nmix = 12"));
    assert_eq!(disk.text("root/FlyerX/engines.cfg"), Some("power = 75 ; 50 ; base\r\nmix = 12"));
    assert_eq!(disk.console, vec!["power = 75 ; 50 ; base".to_string()]);
}

#[test]
fn satisfied_patch_touches_no_file() {
    let mut disk = Disk::new(&[("root/FlyerX/engines.cfg", "thrust = 100 ; max\n")]);
    let stages = disk.drive(
        patches(vec![("FlyerX", patch(&[("thrust", "100")], &[]))]),
        vec![candidate("root/FlyerX")],
    );
    assert_eq!(disk.files.len(), 1);
    assert_eq!(disk.text("root/FlyerX/engines.cfg"), Some("thrust = 100 ; max\n"));
    assert!(disk.console.is_empty());
    assert_eq!(
        stages,
        vec![Stage::Locating(Category::Engines), Stage::Reading(Category::Engines), Stage::Finished]
    );
}

#[test]
fn second_run_changes_nothing() {
    let mut disk = Disk::new(&[
        ("root/FlyerX/engines.cfg", "power = 50 ; base\nmix = 12\n"),
        ("root/FlyerX/model/flight_model.cfg", "drag=0.3\nlift = 2\n"),
    ]);
    let spec = || patches(vec![("FlyerX", patch(&[("power", "75")], &[("drag", "0.25")]))]);
    disk.drive(spec(), vec![candidate("root/FlyerX")]);
    assert_eq!(disk.text("root/FlyerX/model/flight_model.cfg"), Some("drag = 0.25 ; 0.3\nlift = 2\n"));
    assert_eq!(disk.text("root/FlyerX/model/flight_model.bak.cfg"), Some("drag=0.3\nlift = 2\n"));
    let after_first = disk.files.clone();
    disk.console.clear();
    disk.drive(spec(), vec![candidate("root/FlyerX")]);
    assert_eq!(disk.files, after_first);
    assert!(disk.console.is_empty());
}

#[test]
fn empty_mapping_is_never_searched_for() {
    let mut disk = Disk::new(&[
        ("root/FlyerX/engines.cfg", "power = 50\n"),
        ("root/FlyerX/flight_model.cfg", "drag = 1\n"),
    ]);
    disk.drive(
        patches(vec![("FlyerX", patch(&[], &[("drag", "2")]))]),
        vec![candidate("root/FlyerX")],
    );
    assert_eq!(disk.searches, vec![(PathBuf::from("root/FlyerX"), "flight_model.cfg".to_string())]);
    assert_eq!(disk.text("root/FlyerX/engines.cfg"), Some("power = 50\n"));
    assert_eq!(disk.text("root/FlyerX/flight_model.cfg"), Some("drag = 2 ; 1\n"));
}

#[test]
fn both_files_are_compared_before_one_is_replaced() {
    let mut disk = Disk::new(&[
        ("root/A/engines.cfg", "power = 50\n"),
        ("root/A/flight_model.cfg", "drag = 1\n"),
    ]);
    let stages = disk.drive(
        patches(vec![("A", patch(&[("power", "75")], &[("drag", "2")]))]),
        vec![candidate("root/A")],
    );
    assert_eq!(
        stages,
        vec![
            Stage::Locating(Category::Engines),
            Stage::Reading(Category::Engines),
            Stage::Locating(Category::FlightModel),
            Stage::Reading(Category::FlightModel),
            Stage::Rereading(Category::Engines),
            Stage::Replacing(Category::Engines),
            Stage::Rereading(Category::FlightModel),
            Stage::Replacing(Category::FlightModel),
            Stage::Finished,
        ]
    );
    assert_eq!(disk.console, vec!["power = 75 ; 50".to_string(), "drag = 2 ; 1".to_string()]);
}

#[test]
fn only_packages_that_the_patches_name_are_in_scope() {
    let mut disk = Disk::new(&[
        ("root/Other/engines.cfg", "power = 50\n"),
        ("root/flyerx/engines.cfg", "power = 50\n"),
        ("root/FlyerX/engines.cfg", "power = 50\n"),
    ]);
    disk.drive(
        patches(vec![("FlyerX", patch(&[("power", "75")], &[])), ("Absent", patch(&[("a", "b")], &[]))]),
        vec![
            candidate("root/Other"),
            Candidate { path: PathBuf::from("root/odd"), name: None },
            candidate("root/flyerx"),
            candidate("root/FlyerX"),
        ],
    );
    assert_eq!(disk.searches, vec![(PathBuf::from("root/FlyerX"), "engines.cfg".to_string())]);
    assert_eq!(disk.text("root/Other/engines.cfg"), Some("power = 50\n"));
    assert_eq!(disk.text("root/flyerx/engines.cfg"), Some("power = 50\n"));
    assert_eq!(disk.text("root/FlyerX/engines.cfg"), Some("power = 75 ; 50\n"));
}

#[test]
fn file_that_is_not_found_is_passed_over() {
    let mut disk = Disk::new(&[("root/A/flight_model.cfg", "drag = 1\n")]);
    let stages = disk.drive(
        patches(vec![("A", patch(&[("power", "75")], &[("drag", "2")]))]),
        vec![candidate("root/A")],
    );
    assert_eq!(
        stages,
        vec![
            Stage::Locating(Category::Engines),
            Stage::Locating(Category::FlightModel),
            Stage::Reading(Category::FlightModel),
            Stage::Rereading(Category::FlightModel),
            Stage::Replacing(Category::FlightModel),
            Stage::Finished,
        ]
    );
    assert_eq!(disk.text("root/A/flight_model.cfg"), Some("drag = 2 ; 1\n"));
}

#[test]
fn packages_are_worked_on_in_the_order_given() {
    let mut disk = Disk::new(&[
        ("root/A/engines.cfg", "power = 1\n"),
        ("root/B/engines.cfg", "power = 2\n"),
        ("root/C/engines.cfg", "power = 3\n"),
    ]);
    disk.drive(
        patches(vec![
            ("A", patch(&[("power", "9")], &[])),
            ("B", patch(&[], &[])),
            ("C", patch(&[("power", "9")], &[])),
        ]),
        vec![candidate("root/C"), candidate("root/B"), candidate("root/A")],
    );
    assert_eq!(disk.console, vec!["power = 9 ; 3".to_string(), "power = 9 ; 1".to_string()]);
    assert_eq!(disk.text("root/B/engines.cfg"), Some("power = 2\n"));
    assert_eq!(disk.files.len(), 5);
}

#[test]
fn run_without_work_finishes_at_once() {
    let (job, request) = Job::new(Patches::new(), vec![candidate("root/A")]);
    assert_eq!(request, Request::Finish);
    assert_eq!(job.stage(), Stage::Finished);
    assert_eq!(job.package(), None);
    let (job, request) = Job::new(patches(vec![("A", patch(&[("k", "v")], &[]))]), Vec::new());
    assert_eq!(request, Request::Finish);
    assert_eq!(job.stage(), Stage::Finished);
}

#[test]
fn finished_run_takes_every_reply() {
    let (job, _) = Job::new(Patches::new(), Vec::new());
    let (job, result) = run(job, Reply::Replaced);
    assert_eq!(result, Ok(Request::Finish));
    let (job, result) = run(job, Reply::Text("x".to_string()));
    assert_eq!(result, Ok(Request::Finish));
    assert_eq!(job.stage(), Stage::Finished);
}

#[test]
fn reply_out_of_turn_changes_nothing() {
    let (job, request) = Job::new(
        patches(vec![("A", patch(&[("k", "v")], &[]))]),
        vec![candidate("root/A")],
    );
    assert_eq!(request, Request::Locate(Category::Engines));
    let (job, result) = run(job, Reply::Text("k = 1".to_string()));
    assert_eq!(result, Err(OutOfTurn {}));
    assert_eq!(job.stage(), Stage::Locating(Category::Engines));
    assert_eq!(job.package(), Some(&PathBuf::from("root/A")));
    assert_eq!(job.target(Category::Engines), None);
    let (job, result) = run(job, Reply::Located(Some(PathBuf::from("root/A/engines.cfg"))));
    assert_eq!(result, Ok(Request::Read(Category::Engines)));
    assert_eq!(job.target(Category::Engines), Some(&PathBuf::from("root/A/engines.cfg")));
    let (job, result) = run(job, Reply::Replaced);
    assert_eq!(result, Err(OutOfTurn {}));
    let (job, result) = run(job, Reply::Text("k = 1 ; c".to_string()));
    assert_eq!(result, Ok(Request::Read(Category::Engines)));
    assert_eq!(job.stage(), Stage::Rereading(Category::Engines));
    let (job, result) = run(job, Reply::Text("k = 1 ; c".to_string()));
    assert_eq!(
        result,
        Ok(Request::Replace {
            category: Category::Engines,
            text: "k = v ; 1 ; c".to_string(),
            report: vec!["k = v ; 1 ; c".to_string()],
        })
    );
    let (job, result) = run(job, Reply::Located(None));
    assert_eq!(result, Err(OutOfTurn {}));
    let (job, result) = run(job, Reply::Replaced);
    assert_eq!(result, Ok(Request::Finish));
    assert_eq!(job.stage(), Stage::Finished);
}

#[test]
fn rewriter_reads_the_file_anew() {
    let (job, _) = Job::new(
        patches(vec![("A", patch(&[("k", "v")], &[]))]),
        vec![candidate("root/A")],
    );
    let (job, _) = run(job, Reply::Located(Some(PathBuf::from("root/A/engines.cfg"))));
    let (job, _) = run(job, Reply::Text("k = 1\n".to_string()));
    let (_, result) = run(job, Reply::Text("first\nk = 2 ; later\n".to_string()));
    assert_eq!(
        result,
        Ok(Request::Replace {
            category: Category::Engines,
            text: "first\nk = v ; 1 ; later\n".to_string(),
            report: vec!["k = v ; 1 ; later".to_string()],
        })
    );
}

#[test]
fn category_file_names() {
    assert_eq!(Category::Engines.file_name(), "engines.cfg");
    assert_eq!(Category::FlightModel.file_name(), "flight_model.cfg");
    assert_eq!(Category::Engines.following(), Some(Category::FlightModel));
    assert_eq!(Category::FlightModel.following(), None);
}

#[test]
fn patch_wants_only_where_a_mapping_has_entries() {
    let p = patch(&[], &[("drag", "2")]);
    assert!(!p.wants(Category::Engines));
    assert!(p.wants(Category::FlightModel));
    assert_eq!(p.next_wanted(Some(Category::Engines)), Some(Category::FlightModel));
    assert_eq!(p.next_wanted(Some(Category::FlightModel)), Some(Category::FlightModel));
    assert_eq!(p.next_wanted(None), None);
    assert_eq!(patch(&[], &[]).next_wanted(Some(Category::Engines)), None);
    assert!(p.mapping(Category::Engines).is_empty());
    assert_eq!(p.mapping(Category::FlightModel).get("drag"), Some(&"2".to_string()));
}

#[test]
fn new_diff_has_nothing_pending() {
    let d = Diff::new();
    assert!(!d.pending(Category::Engines));
    assert!(!d.pending(Category::FlightModel));
    assert_eq!(d.next_pending(Some(Category::Engines)), None);
    assert_eq!(d.changes(Category::Engines).path, None);
    assert!(d.changes(Category::FlightModel).changes.is_empty());
}

#[test]
fn patches_insert_and_get() {
    let mut p = Patches::new();
    assert!(p.get("FlyerX").is_none());
    assert!(p.insert("FlyerX".to_string(), patch(&[("power", "75")], &[])).is_none());
    let found = p.get("FlyerX").unwrap();
    assert_eq!(found.engines.get("power"), Some(&"75".to_string()));
    assert!(found.flight_model.is_empty());
    assert!(p.get("flyerx").is_none());
    let previous = p.insert("FlyerX".to_string(), patch(&[], &[("drag", "2")])).unwrap();
    assert_eq!(previous.engines.get("power"), Some(&"75".to_string()));
    assert!(p.get("FlyerX").unwrap().engines.is_empty());
}
