use codex_task::output::AgentStream;
use codex_task::output::OutputItem;
use codex_task::output::RingBuffer;
use codex_task::output::StreamKind;

#[test]
fn ring_buffer_caps_and_orders() {
    let mut ring = AgentStream::new(3);
    ring.push_line(StreamKind::Stdout, "a");
    ring.push_line(StreamKind::Stderr, "b");
    ring.push_line(StreamKind::Stdout, "c");
    ring.push_line(StreamKind::Stderr, "d"); // evicts "a"
    let snap = ring.snapshot();
    let texts: Vec<String> = snap.into_iter().map(|i| i.text).collect();
    assert_eq!(texts, vec!["b", "c", "d"]);
}

#[test]
fn a_ring_of_no_capacity_holds_one_item() {
    let mut ring = RingBuffer::new(0);
    assert_eq!(ring.len(), 0);
    ring.push(OutputItem { kind: StreamKind::Stdout, text: "a".to_string() });
    ring.push(OutputItem { kind: StreamKind::Stderr, text: "b".to_string() });
    assert_eq!(ring.len(), 1);
    let snap = ring.snapshot();
    assert_eq!(snap[0].text, "b");
    assert_eq!(snap[0].kind, StreamKind::Stderr);
}

#[test]
fn the_last_items_pushed_are_held() {
    let mut ring = RingBuffer::new(4);
    for i in 0..10 {
        ring.push(OutputItem { kind: StreamKind::Stdout, text: format!("{i}") });
    }
    let texts: Vec<String> = ring.snapshot().into_iter().map(|i| i.text).collect();
    assert_eq!(texts, vec!["6", "7", "8", "9"]);
}

#[test]
fn a_pushed_line_is_handed_back() {
    let mut stream = AgentStream::new(2);
    let item = stream.push_line(StreamKind::Stderr, "oops");
    assert_eq!(item.kind, StreamKind::Stderr);
    assert_eq!(item.text, "oops");
    assert_eq!(stream.snapshot().len(), 1);
}
