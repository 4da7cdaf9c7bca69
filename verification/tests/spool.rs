use codex_task::spool::RoutedSpool;

/// A spool together with the file of one task.
struct Disk {
    file: Option<String>,
}

impl Disk {
    fn append(&mut self, spool: &mut RoutedSpool, id: &str, msg: &str) {
        let write = spool.append(id, msg);
        let mut text = self.file.take().unwrap_or_default();
        text.push_str(&write.text);
        self.file = Some(text);
        spool.mark_persisted(id, write.place);
    }

    fn take_all(&mut self, spool: &mut RoutedSpool, id: &str) -> Vec<String> {
        let taken = spool.take_all(id, self.file.as_deref());
        self.file = Some(String::new());
        taken
    }
}

#[test]
fn test_spool_append_take_clear_roundtrip() {
    let mut s = RoutedSpool::new("/tmp/codex_spool_1");
    let mut disk = Disk { file: None };

    disk.append(&mut s, "agentB", "hello");
    disk.append(&mut s, "agentB", "world");
    assert_eq!(disk.file.as_deref(), Some("hello\nworld\n"));
    assert_eq!(s.file_for("agentB"), "/tmp/codex_spool_1/spool/agentB.txt");

    let msgs = disk.take_all(&mut s, "agentB");
    assert_eq!(msgs, vec!["hello", "world"]);

    // After take_all, the file is empty and so is what is left.
    let data = disk.file.clone().unwrap_or_default();
    assert!(data.is_empty());
    assert!(disk.take_all(&mut s, "agentB").is_empty());
}

#[test]
fn test_spool_merge_persisted_and_memory() {
    let mut s = RoutedSpool::new("/tmp/codex_spool_2");

    // The file holds two lines of an earlier run.
    let mut disk = Disk { file: Some("persist1\npersist2\n".to_string()) };

    // A message that never reached the disk.
    let _ = s.append("futureA", "mem-only");

    let msgs = disk.take_all(&mut s, "futureA");
    assert_eq!(msgs, vec!["persist1", "persist2", "mem-only"]);

    // The file is empty and memory cleared.
    let data = disk.file.clone().unwrap_or_default();
    assert!(data.is_empty());
    let round2 = disk.take_all(&mut s, "futureA");
    assert!(round2.is_empty());
}

#[test]
fn a_write_names_its_place() {
    let mut s = RoutedSpool::new("/runs/r1/");
    let w = s.append("t.x", "multi\nline");
    assert_eq!(w.dir, "/runs/r1/spool");
    assert_eq!(w.file, "/runs/r1/spool/t.x.txt");
    assert_eq!(w.text, "multi\nline\n");
}

#[test]
fn tasks_have_queues_of_their_own() {
    let mut s = RoutedSpool::new("base");
    let _ = s.append("a", "1");
    let _ = s.append("b", "2");
    let _ = s.append("a", "3");
    assert_eq!(s.take_all("a", None), vec!["1", "3"]);
    assert_eq!(s.take_all("b", None), vec!["2"]);
    assert!(s.take_all("c", None).is_empty());
}

#[test]
fn messages_only_in_memory_follow_those_on_disk() {
    let mut s = RoutedSpool::new("base");
    let mut disk = Disk { file: None };
    disk.append(&mut s, "t", "one");
    let _ = s.append("t", "two");
    assert_eq!(disk.take_all(&mut s, "t"), vec!["one", "two"]);
}

#[test]
fn the_delivered_text_is_that_of_all_messages() {
    let mut s = RoutedSpool::new("base");
    let mut disk = Disk { file: None };
    disk.append(&mut s, "t", "line a\nline b");
    let _ = s.append("t", "line c\nline d");
    let text = disk.take_all(&mut s, "t").join("\n");
    assert_eq!(text, "line a\nline b\nline c\nline d");
}

#[test]
fn empty_lines_of_the_file_are_passed_over() {
    let mut s = RoutedSpool::new("base");
    assert_eq!(s.take_all("t", Some("\na\r\n\n\nb")), vec!["a", "b"]);
}

#[test]
fn a_failed_write_loses_and_repeats_nothing() {
    let mut s = RoutedSpool::new("base");
    let mut disk = Disk { file: None };
    // the write of the first message fails, so it is not marked
    let first = s.append("t", "m1");
    assert_eq!(first.place, 0);
    disk.append(&mut s, "t", "m2");
    let _ = s.append("t", "m3");
    disk.append(&mut s, "t", "m4");
    assert_eq!(disk.file.as_deref(), Some("m2\nm4\n"));
    assert_eq!(disk.take_all(&mut s, "t"), vec!["m2", "m4", "m1", "m3"]);
    assert!(disk.take_all(&mut s, "t").is_empty());
}

#[test]
fn a_mark_without_a_message_changes_nothing() {
    let mut s = RoutedSpool::new("base");
    let _ = s.append("t", "m");
    s.mark_persisted("t", 1);
    s.mark_persisted("other", 0);
    assert_eq!(s.take_all("t", None), vec!["m"]);
}
