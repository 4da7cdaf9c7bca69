use codex_task::interagent::parse_all;
use codex_task::interagent::InterAgentParser;
use codex_task::interagent::PROTOCOL_PRIMER;

#[test]
fn parses_single_block() {
    let input = "hello\n@@to: A-1\nplan x\nrun y\n@@/to\nbye";
    let msgs = parse_all(input);
    assert_eq!(msgs.len(), 1);
    assert_eq!(msgs[0].to, "A-1");
    assert_eq!(msgs[0].body, "plan x\nrun y");
}

#[test]
fn parses_multiple_blocks() {
    let input = "@@to: 1\none\n@@/to\n@@to: 2\n two \n@@/to";
    let msgs = parse_all(input);
    assert_eq!(msgs.len(), 2);
    assert_eq!(msgs[0].to, "1");
    assert_eq!(msgs[0].body, "one");
    assert_eq!(msgs[1].to, "2");
    assert_eq!(msgs[1].body, " two ");
}

#[test]
fn ignores_close_when_not_in_block() {
    let input = "@@/to\n@@to: X\nhello\n@@/to";
    let msgs = parse_all(input);
    assert_eq!(msgs.len(), 1);
    assert_eq!(msgs[0].to, "X");
    assert_eq!(msgs[0].body, "hello");
}

#[test]
fn open_line_tolerates_whitespace() {
    let input = "  @@to:   target-42  \nmsg\n  @@/to  ";
    let msgs = parse_all(input);
    assert_eq!(msgs.len(), 1);
    assert_eq!(msgs[0].to, "target-42");
    assert_eq!(msgs[0].body, "msg");
}

#[test]
fn a_block_that_stays_open_sends_nothing() {
    assert_eq!(parse_all("@@to: a\nnever closed").len(), 0);
    assert_eq!(parse_all("").len(), 0);
}

#[test]
fn an_empty_block_sends_an_empty_message() {
    let msgs = parse_all("@@to: a\n@@/to");
    assert_eq!(msgs.len(), 1);
    assert_eq!(msgs[0].body, "");
}

#[test]
fn blocks_are_not_nested() {
    let msgs = parse_all("@@to: a\n@@to: b\nx\n@@/to\n@@/to");
    assert_eq!(msgs.len(), 1);
    assert_eq!(msgs[0].to, "a");
    assert_eq!(msgs[0].body, "@@to: b\nx");
}

#[test]
fn an_opening_line_needs_a_target() {
    assert_eq!(parse_all("@@to:\nx\n@@/to").len(), 0);
    assert_eq!(parse_all("@@to:   \nx\n@@/to").len(), 0);
    assert_eq!(parse_all("@to: a\nx\n@@/to").len(), 0);
    assert_eq!(parse_all("say @@to: a\nx\n@@/to").len(), 0);
    assert_eq!(parse_all("@@to: a b\nx\n@@/to")[0].to, "a b");
    assert_eq!(parse_all("@@to:a\nx\n@@/to")[0].to, "a");
}

#[test]
fn a_message_comes_with_its_closing_line() {
    let mut parser = InterAgentParser::new();
    assert!(parser.feed_line("talk").is_none());
    assert!(parser.feed_line("@@to: peer").is_none());
    assert!(parser.feed_line("first").is_none());
    assert!(parser.feed_line("second").is_none());
    let m = parser.feed_line("@@/to").unwrap();
    assert_eq!(m.to, "peer");
    assert_eq!(m.body, "first\nsecond");
    assert!(parser.feed_line("@@/to").is_none());
}

#[test]
fn portions_of_input_give_the_same_messages() {
    let input = "a\n@@to: p\n1\n\n2\n@@/to\nb\n@@to: q\n3\n@@/to";
    let whole = parse_all(input);
    let mut parser = InterAgentParser::new();
    let mut portions = Vec::new();
    for line in input.split('\n') {
        if let Some(m) = parser.feed_line(line) {
            portions.push((m.to, m.body));
        }
    }
    assert_eq!(portions.len(), whole.len());
    for i in 0..whole.len() {
        assert_eq!(portions[i].0, whole[i].to);
        assert_eq!(portions[i].1, whole[i].body);
    }
    assert_eq!(whole[0].body, "1\n\n2");
}

#[test]
fn the_primer_shows_the_block() {
    assert!(PROTOCOL_PRIMER.contains("@@to: <task_id>\n<message>\n@@/to"));
    assert!(PROTOCOL_PRIMER.starts_with("Peers and routing:"));
}
