use abbr::replace::{
    junk_name, Fault, Replace, Reply, Stage, Step, MAX_ATTEMPTS, RENAME_RETRIES,
    RENAME_RETRIES_WINDOWS, TMP_NAME_LEN,
};

fn kinds(rename_retries: usize, replies: &[Reply]) -> (Vec<String>, Replace) {
    let (mut replace, first) = Replace::begin(rename_retries);
    let mut seen = vec![label(&first)];
    for reply in replies {
        seen.push(label(&replace.advance(*reply)));
    }
    (seen, replace)
}

fn label(step: &Step) -> String {
    match step {
        Step::Create(name) => {
            assert_junk_name(name);
            "create".to_string()
        }
        Step::Write => "write".to_string(),
        Step::Rename => "rename".to_string(),
        Step::Remove => "remove".to_string(),
        Step::Finish => "finish".to_string(),
        Step::Fail(fault) => format!("fail {:?}", fault),
    }
}

fn assert_junk_name(name: &str) {
    assert_eq!(name.len(), TMP_NAME_LEN);
    assert!(name.starts_with("junk_"));
    assert!(name[5..].chars().all(|c| c.is_ascii_alphanumeric()), "name {:?}", name);
}

#[test]
fn junk_names_have_the_prefix_and_sixteen_characters() {
    for _ in 0..200 {
        assert_junk_name(&junk_name());
    }
}

#[test]
fn junk_names_differ() {
    let names: std::collections::HashSet<String> = (0..50).map(|_| junk_name()).collect();
    assert!(names.len() > 1);
}

#[test]
fn all_steps_done_replaces_the_file() {
    let (seen, end) = kinds(1, &[Reply::Done, Reply::Done, Reply::Done]);
    assert_eq!(seen, vec!["create", "write", "rename", "finish"]);
    assert_eq!(end.stage, Stage::Finished);
}

#[test]
fn interrupted_write_removes_the_temporary_file_and_never_renames() {
    let (seen, end) = kinds(1, &[Reply::Done, Reply::Failed, Reply::Done]);
    assert_eq!(seen, vec!["create", "write", "remove", "fail Write"]);
    assert_eq!(end.stage, Stage::Failed(Fault::Write));
}

#[test]
fn failed_removal_still_reports_the_first_fault() {
    let (seen, end) = kinds(1, &[Reply::Done, Reply::PermissionDenied, Reply::Failed]);
    assert_eq!(seen, vec!["create", "write", "remove", "fail Write"]);
    assert_eq!(end.stage, Stage::Failed(Fault::Write));
}

#[test]
fn name_collision_is_retried_up_to_the_limit() {
    let mut replies = vec![Reply::AlreadyExists; MAX_ATTEMPTS - 1];
    replies.push(Reply::Done);
    let (seen, end) = kinds(1, &replies);
    assert_eq!(seen, vec!["create", "create", "create", "create", "create", "write"]);
    assert_eq!(end.stage, Stage::Writing);

    let (seen, end) = kinds(1, &vec![Reply::AlreadyExists; MAX_ATTEMPTS]);
    assert_eq!(seen, vec!["create", "create", "create", "create", "create", "fail Create"]);
    assert_eq!(end.stage, Stage::Failed(Fault::Create));
}

#[test]
fn other_creation_failures_are_not_retried() {
    for reply in [Reply::PermissionDenied, Reply::Failed] {
        let (seen, end) = kinds(1, &[reply]);
        assert_eq!(seen, vec!["create", "fail Create"]);
        assert_eq!(end.stage, Stage::Failed(Fault::Create));
    }
}

#[test]
fn denied_rename_is_retried_as_often_as_allowed() {
    let (seen, end) = kinds(1, &[Reply::Done, Reply::Done, Reply::PermissionDenied, Reply::Done]);
    assert_eq!(seen, vec!["create", "write", "rename", "rename", "finish"]);
    assert_eq!(end.stage, Stage::Finished);

    let (seen, end) = kinds(
        1,
        &[Reply::Done, Reply::Done, Reply::PermissionDenied, Reply::PermissionDenied, Reply::Done],
    );
    assert_eq!(seen, vec!["create", "write", "rename", "rename", "remove", "fail Rename"]);
    assert_eq!(end.stage, Stage::Failed(Fault::Rename));

    let mut replies = vec![Reply::Done, Reply::Done];
    replies.extend(vec![Reply::PermissionDenied; 5]);
    replies.push(Reply::Done);
    let (seen, end) = kinds(5, &replies);
    assert_eq!(seen.iter().filter(|s| s.as_str() == "rename").count(), 6);
    assert_eq!(end.stage, Stage::Finished);

    let (seen, _) = kinds(0, &[Reply::Done, Reply::Done, Reply::PermissionDenied]);
    assert_eq!(seen, vec!["create", "write", "rename", "remove"]);
}

#[test]
fn other_rename_failures_are_not_retried() {
    for reply in [Reply::Failed, Reply::AlreadyExists] {
        let (seen, end) = kinds(5, &[Reply::Done, Reply::Done, reply, Reply::Done]);
        assert_eq!(seen, vec!["create", "write", "rename", "remove", "fail Rename"]);
        assert_eq!(end.stage, Stage::Failed(Fault::Rename));
    }
}

#[test]
fn the_end_is_final() {
    let (seen, end) = kinds(1, &[Reply::Done, Reply::Done, Reply::Done, Reply::Failed, Reply::Done]);
    assert_eq!(seen, vec!["create", "write", "rename", "finish", "finish", "finish"]);
    assert_eq!(end.stage, Stage::Finished);

    let (seen, end) = kinds(1, &[Reply::Failed, Reply::Done, Reply::Done]);
    assert_eq!(seen, vec!["create", "fail Create", "fail Create", "fail Create"]);
    assert_eq!(end.stage, Stage::Failed(Fault::Create));
}

#[test]
fn every_failing_course_orders_removal_and_no_rename_after_it() {
    let all = [Reply::Done, Reply::AlreadyExists, Reply::PermissionDenied, Reply::Failed];
    let mut courses: Vec<Vec<Reply>> = vec![Vec::new()];
    for _ in 0..6 {
        let mut longer = Vec::new();
        for course in &courses {
            for reply in all {
                let mut next = course.clone();
                next.push(reply);
                longer.push(next);
            }
        }
        courses = longer;
    }
    for course in courses {
        let (seen, end) = kinds(1, &course);
        let created = seen.iter().any(|s| s == "write");
        match end.stage {
            Stage::Failed(_) => {
                assert_eq!(created, seen.iter().any(|s| s == "remove"), "course {:?}", course);
                assert!(!seen.iter().any(|s| s == "finish"));
            }
            Stage::Finished => {
                assert!(!seen.iter().any(|s| s == "remove"), "course {:?}", course);
            }
            _ => {}
        }
    }
}

/// A directory in memory, with the failures that a test asks for.
struct Disk {
    files: std::collections::BTreeMap<String, Vec<u8>>,
    fail_write: bool,
    denied_renames: usize,
}

impl Disk {
    fn holding(target: &str, contents: &[u8]) -> Disk {
        let mut files = std::collections::BTreeMap::new();
        files.insert(target.to_string(), contents.to_vec());
        Disk { files, fail_write: false, denied_renames: 0 }
    }

    fn replace(&mut self, target: &str, contents: &[u8], retries: usize) -> Result<(), Fault> {
        let (mut machine, mut step) = Replace::begin(retries);
        let mut junk = String::new();
        loop {
            let reply = match step {
                Step::Create(name) => {
                    if self.files.contains_key(&name) {
                        Reply::AlreadyExists
                    } else {
                        self.files.insert(name.clone(), Vec::new());
                        junk = name;
                        Reply::Done
                    }
                }
                Step::Write => {
                    let file = self.files.get_mut(&junk).unwrap();
                    if self.fail_write {
                        file.extend_from_slice(&contents[..contents.len() / 2]);
                        Reply::Failed
                    } else {
                        file.extend_from_slice(contents);
                        Reply::Done
                    }
                }
                Step::Rename => {
                    if self.denied_renames > 0 {
                        self.denied_renames -= 1;
                        Reply::PermissionDenied
                    } else {
                        let written = self.files.remove(&junk).unwrap();
                        self.files.insert(target.to_string(), written);
                        Reply::Done
                    }
                }
                Step::Remove => {
                    self.files.remove(&junk);
                    Reply::Done
                }
                Step::Finish => return Ok(()),
                Step::Fail(fault) => return Err(fault),
            };
            step = machine.advance(reply);
        }
    }

    fn names(&self) -> Vec<&str> {
        self.files.keys().map(|name| name.as_str()).collect()
    }
}

#[test]
fn replacing_puts_the_new_contents_in_place() {
    let mut disk = Disk::holding("db.abb", b"old contents");
    assert_eq!(disk.replace("db.abb", b"new contents, longer", 1), Ok(()));
    assert_eq!(disk.names(), vec!["db.abb"]);
    assert_eq!(disk.files["db.abb"], b"new contents, longer");
}

#[test]
fn replacing_creates_a_target_that_was_not_there() {
    let mut disk = Disk::holding("other", b"x");
    assert_eq!(disk.replace("db.abb", b"first", 1), Ok(()));
    assert_eq!(disk.names(), vec!["db.abb", "other"]);
    assert_eq!(disk.files["db.abb"], b"first");
}

#[test]
fn interrupted_write_leaves_the_target_and_no_temporary_file() {
    let mut disk = Disk::holding("db.abb", b"old contents");
    disk.fail_write = true;
    assert_eq!(disk.replace("db.abb", b"new contents, longer", 1), Err(Fault::Write));
    assert_eq!(disk.names(), vec!["db.abb"]);
    assert_eq!(disk.files["db.abb"], b"old contents");
}

#[test]
fn refused_rename_leaves_the_target_and_no_temporary_file() {
    let mut disk = Disk::holding("db.abb", b"old contents");
    disk.denied_renames = 2;
    assert_eq!(disk.replace("db.abb", b"new", 1), Err(Fault::Rename));
    assert_eq!(disk.names(), vec!["db.abb"]);
    assert_eq!(disk.files["db.abb"], b"old contents");
}

#[test]
fn rename_denied_once_goes_through_on_the_second_try() {
    let mut disk = Disk::holding("db.abb", b"old contents");
    disk.denied_renames = 1;
    assert_eq!(disk.replace("db.abb", b"new", 1), Ok(()));
    assert_eq!(disk.names(), vec!["db.abb"]);
    assert_eq!(disk.files["db.abb"], b"new");
}

#[test]
fn rename_is_tried_twice_at_most_and_six_times_on_windows() {
    assert_eq!(RENAME_RETRIES, 1);
    assert_eq!(RENAME_RETRIES_WINDOWS, 5);
    for retries in [RENAME_RETRIES, RENAME_RETRIES_WINDOWS] {
        let mut replies = vec![Reply::Done, Reply::Done];
        replies.extend(vec![Reply::PermissionDenied; retries + 1]);
        let (seen, end) = kinds(retries, &replies);
        assert_eq!(seen.iter().filter(|s| s.as_str() == "rename").count(), retries + 1);
        assert_eq!(seen.last().map(String::as_str), Some("remove"));
        assert_eq!(end.stage, Stage::Removing(Fault::Rename));
    }
}
