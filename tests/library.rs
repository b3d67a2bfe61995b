use guild_archive::escape::{escape_newlines, unescape_newlines};
use guild_archive::fetcher::{
    is_descending, normalize_page, page_is_well_formed, ChannelFetcher, FetchAction, RetryPolicy,
};
use guild_archive::model::{select_text_channels, ChannelDescriptor, ChannelKind, Message};
use guild_archive::pipeline::{archive_channels, run_pipeline};
use guild_archive::progress::Progress;
use guild_archive::record::{decimal_string, record_fields};
use guild_archive::simulate::{drain_channel, SimulatedSource};
use guild_archive::sink::{RecvOutcome, SendOutcome, SharedSink};

fn msg(id: u64, channel_id: u64, content: &str) -> Message {
    Message { id, channel_id, author_name: format!("user{}", id % 3), content: content.to_string() }
}

fn history(channel_id: u64, n: u64) -> Vec<Message> {
    (1..=n).map(|i| msg(i * 10, channel_id, &format!("m{}", i))).collect()
}

fn ids(msgs: &[Message]) -> Vec<u64> {
    msgs.iter().map(|m| m.id).collect()
}

#[test]
fn newline_written_as_backslash_n() {
    let e = escape_newlines("line1\nline2");
    assert_eq!(e, "line1\\nline2");
    assert!(!e.contains('\n'));
    assert_eq!(unescape_newlines(&e), "line1\nline2");
}

#[test]
fn escape_keeps_other_text() {
    assert_eq!(escape_newlines(""), "");
    assert_eq!(escape_newlines("plain"), "plain");
    assert_eq!(escape_newlines("\n\n"), "\\n\\n");
    assert_eq!(escape_newlines("a\\\nb"), "a\\\\nb");
    assert_eq!(unescape_newlines("a\\\\nb"), "a\\\nb");
}

#[test]
fn decimal_notation() {
    assert_eq!(decimal_string(0), "0");
    assert_eq!(decimal_string(7), "7");
    assert_eq!(decimal_string(1234567890), "1234567890");
    assert_eq!(decimal_string(u64::MAX), "18446744073709551615");
}

#[test]
fn row_has_four_fields_in_order() {
    let m = Message {
        id: 812345678901234567,
        channel_id: 42,
        author_name: "alice, bob".to_string(),
        content: "hi\nthere".to_string(),
    };
    let r = record_fields(&m);
    assert_eq!(r, vec!["812345678901234567", "42", "alice, bob", "hi\\nthere"]);
}

#[test]
fn descending_page_is_reversed() {
    let page = vec![msg(30, 1, "c"), msg(20, 1, "b"), msg(10, 1, "a")];
    assert!(is_descending(&page));
    let n = normalize_page(page);
    assert_eq!(ids(&n), vec![10, 20, 30]);
}

#[test]
fn ascending_page_is_kept() {
    let page = vec![msg(10, 1, "a"), msg(20, 1, "b")];
    assert!(!is_descending(&page));
    assert_eq!(ids(&normalize_page(page)), vec![10, 20]);
    assert_eq!(ids(&normalize_page(vec![msg(5, 1, "x")])), vec![5]);
}

#[test]
fn page_well_formedness() {
    assert!(page_is_well_formed(0, &vec![msg(3, 1, ""), msg(2, 1, "")]));
    assert!(page_is_well_formed(1, &vec![msg(2, 1, ""), msg(3, 1, "")]));
    assert!(page_is_well_formed(9, &vec![]));
    assert!(!page_is_well_formed(2, &vec![msg(2, 1, ""), msg(3, 1, "")]));
    assert!(!page_is_well_formed(0, &vec![msg(2, 1, ""), msg(4, 1, ""), msg(3, 1, "")]));
}

#[test]
fn fetcher_moves_cursor_then_completes() {
    let mut f = ChannelFetcher::new();
    assert_eq!(f.next_request(), Some(0));
    match f.on_page(vec![msg(30, 1, ""), msg(20, 1, "")]) {
        FetchAction::Deliver { messages, next_after } => {
            assert_eq!(ids(&messages), vec![20, 30]);
            assert_eq!(next_after, 30);
        }
        FetchAction::Complete => panic!("expected a delivery"),
    }
    assert_eq!(f.next_request(), Some(30));
    assert!(matches!(f.on_page(vec![]), FetchAction::Complete));
    assert!(f.done);
    assert_eq!(f.next_request(), None);
}

#[test]
fn failure_keeps_cursor() {
    let mut f = ChannelFetcher::new();
    let _ = f.on_page(vec![msg(5, 1, "")]);
    assert_eq!(f.on_failure(), 5);
    assert_eq!(f.on_failure(), 5);
    assert_eq!(f.attempts, 2);
    assert_eq!(f.cursor, 5);
    let _ = f.on_page(vec![msg(6, 1, "")]);
    assert_eq!(f.attempts, 0);
}

#[test]
fn retry_policy() {
    assert!(RetryPolicy::unbounded().should_retry(u64::MAX));
    let p = RetryPolicy { max_attempts: Some(3) };
    assert!(p.should_retry(2));
    assert!(!p.should_retry(3));
}

#[test]
fn drain_delivers_whole_history() {
    let h = history(7, 25);
    let mut src = SimulatedSource { history: history(7, 25), page_size: 4, failures_left: 0 };
    let (written, completions) = drain_channel(&mut src);
    assert_eq!(ids(&written), ids(&h));
    assert_eq!(completions, 1);
}

#[test]
fn drain_terminates_on_shrinking_pages() {
    let mut src = SimulatedSource { history: history(7, 7), page_size: 3, failures_left: 0 };
    assert_eq!(src.fetch_page(0).map(|p| p.len()), Some(3));
    assert_eq!(src.fetch_page(30).map(|p| p.len()), Some(3));
    assert_eq!(src.fetch_page(60).map(|p| ids(&p)), Some(vec![70]));
    assert_eq!(src.fetch_page(70).map(|p| p.len()), Some(0));
    let (written, completions) = drain_channel(&mut src);
    assert_eq!(written.len(), 7);
    assert_eq!(completions, 1);
}

#[test]
fn drain_survives_transient_failures() {
    let mut src = SimulatedSource { history: history(3, 10), page_size: 2, failures_left: 5 };
    let (written, completions) = drain_channel(&mut src);
    assert_eq!(ids(&written), ids(&history(3, 10)));
    assert_eq!(completions, 1);
    assert_eq!(src.failures_left, 0);
}

#[test]
fn drain_of_empty_channel() {
    let mut src = SimulatedSource { history: vec![], page_size: 5, failures_left: 1 };
    let (written, completions) = drain_channel(&mut src);
    assert!(written.is_empty());
    assert_eq!(completions, 1);
}

#[test]
fn capacity_one_two_channels() {
    let hs = vec![history(100, 100), history(200, 100)];
    let written = run_pipeline(&hs, &vec![100, 200], 1);
    assert_eq!(written.len(), 200);
    let a: Vec<u64> = written.iter().filter(|m| m.channel_id == 100).map(|m| m.id).collect();
    let b: Vec<u64> = written.iter().filter(|m| m.channel_id == 200).map(|m| m.id).collect();
    assert_eq!(a, ids(&hs[0]));
    assert_eq!(b, ids(&hs[1]));
    let switches = written.windows(2).filter(|w| w[0].channel_id != w[1].channel_id).count();
    assert!(switches > 1);
}

#[test]
fn empty_server_writes_nothing() {
    let found = select_text_channels(vec![ChannelDescriptor {
        id: 1,
        name: "voice".to_string(),
        kind: ChannelKind::Other,
    }]);
    assert!(found.is_empty());
    let written = run_pipeline(&vec![], &vec![], 100);
    assert!(written.is_empty());
}

#[test]
fn only_text_channels_selected() {
    let cs = vec![
        ChannelDescriptor { id: 1, name: "general".to_string(), kind: ChannelKind::Text },
        ChannelDescriptor { id: 2, name: "voice".to_string(), kind: ChannelKind::Other },
        ChannelDescriptor { id: 3, name: "dev".to_string(), kind: ChannelKind::Text },
    ];
    let kept: Vec<u64> = select_text_channels(cs).iter().map(|c| c.id).collect();
    assert_eq!(kept, vec![1, 3]);
}

#[test]
fn sink_is_bounded_fifo() {
    let mut s = SharedSink::new(2, 1);
    assert!(matches!(s.try_send(msg(1, 1, "")), SendOutcome::Sent));
    assert!(matches!(s.try_send(msg(2, 1, "")), SendOutcome::Sent));
    assert!(s.is_full());
    assert!(matches!(s.try_send(msg(3, 1, "")), SendOutcome::Full(m) if m.id == 3));
    assert!(matches!(s.recv(), RecvOutcome::Received(m) if m.id == 1));
    assert_eq!(s.len(), 1);
    assert!(matches!(s.recv(), RecvOutcome::Received(m) if m.id == 2));
    assert!(matches!(s.recv(), RecvOutcome::Pending));
    s.release();
    assert!(matches!(s.recv(), RecvOutcome::Closed));
    assert!(matches!(s.try_send(msg(4, 1, "")), SendOutcome::Closed(m) if m.id == 4));
}

#[test]
fn progress_counts_and_completes_once() {
    let mut p = Progress::new(2);
    p.increment(0, 50);
    p.increment(0, 7);
    assert_eq!(p.count(0), 57);
    assert_eq!(p.count(1), 0);
    p.increment(1, u64::MAX);
    p.increment(1, 1);
    assert_eq!(p.count(1), u64::MAX);
    assert!(p.complete(0));
    assert!(!p.complete(0));
    assert_eq!(p.channels_completed(), 1);
    assert!(!p.all_done());
    assert!(p.complete(1));
    assert!(p.all_done());
}

#[test]
fn no_channels_is_done_at_once() {
    assert!(Progress::new(0).all_done());
}

#[test]
fn archive_end_to_end() {
    let sources = vec![
        SimulatedSource { history: history(11, 9), page_size: 2, failures_left: 3 },
        SimulatedSource { history: vec![], page_size: 4, failures_left: 0 },
        SimulatedSource { history: history(33, 5), page_size: 5, failures_left: 1 },
    ];
    let (written, completions) = archive_channels(sources, &vec![11, 22, 33], 1);
    assert_eq!(written.len(), 14);
    assert_eq!(completions, vec![1, 1, 1]);
    let a: Vec<u64> = written.iter().filter(|m| m.channel_id == 11).map(|m| m.id).collect();
    let c: Vec<u64> = written.iter().filter(|m| m.channel_id == 33).map(|m| m.id).collect();
    assert_eq!(a, ids(&history(11, 9)));
    assert_eq!(c, ids(&history(33, 5)));
}
