use chat_gateway::storage::ChatStorage;
use chat_gateway::turn::{bot_line, strip_line_prefix, user_line, ChatMessage};
use chat_gateway::pairing::{pairs_from_lines, rows_to_lines, rows_to_pairs};

fn pairs(v: &[(&str, &str)]) -> Vec<(String, String)> {
    v.iter().map(|(a, b)| (a.to_string(), b.to_string())).collect()
}

#[test]
fn volatile_pairs_in_recorded_order() {
    let mut s = ChatStorage::new_memory_only();
    s.save_conversation("s1", "hi", "hello");
    s.save_conversation("s1", "how are you", "fine");
    assert_eq!(s.get_session_pairs("s1"), pairs(&[("hi", "hello"), ("how are you", "fine")]));
}

#[test]
fn durable_pairs_in_recorded_order() {
    let mut s = ChatStorage::new_durable();
    s.save_conversation("s1", "hi", "hello");
    s.save_conversation("s1", "how are you", "fine");
    assert_eq!(s.get_session_pairs("s1"), pairs(&[("hi", "hello"), ("how are you", "fine")]));
}

#[test]
fn both_modes_agree_on_lines() {
    let mut v = ChatStorage::new_memory_only();
    let mut d = ChatStorage::new_durable();
    for s in [&mut v, &mut d] {
        s.save_conversation("s", "a", "b");
        s.save_conversation("s", "c", "d");
    }
    let expected = vec!["User: a", "Bot: b", "User: c", "Bot: d"];
    assert_eq!(v.get_conversation_history("s"), expected);
    assert_eq!(d.get_conversation_history("s"), expected);
}

#[test]
fn recording_never_touches_other_sessions() {
    let mut s = ChatStorage::new_memory_only();
    s.save_conversation("a", "q1", "r1");
    let before = s.get_session_pairs("a");
    s.save_conversation("b", "q2", "r2");
    assert_eq!(s.get_session_pairs("a"), before);
    s.save_conversation("a", "q3", "r3");
    let after = s.get_session_pairs("a");
    assert_eq!(&after[..before.len()], &before[..]);
    assert_eq!(after.len(), before.len() + 1);
}

#[test]
fn delete_session_forgets_everything() {
    let mut s = ChatStorage::new_memory_only();
    s.save_conversation("gone", "q", "r");
    s.save_conversation("kept", "q", "r");
    s.delete_session("gone");
    assert!(!s.get_all_sessions().iter().any(|x| x == "gone"));
    assert!(s.get_session_pairs("gone").is_empty());
    assert!(s.get_conversation_history("gone").is_empty());
    assert_eq!(s.get_session_pairs("kept"), pairs(&[("q", "r")]));
}

#[test]
fn delete_session_durable_and_idempotent() {
    let mut s = ChatStorage::new_durable();
    s.save_conversation("gone", "q", "r");
    s.delete_session("gone");
    s.delete_session("gone");
    assert!(s.get_all_sessions().is_empty());
    assert!(s.get_session_pairs("gone").is_empty());
}

#[test]
fn unknown_session_is_empty_not_an_error() {
    let s = ChatStorage::new_memory_only();
    assert!(s.get_session_pairs("nobody").is_empty());
    assert!(s.get_conversation_history("nobody").is_empty());
    assert!(s.get_all_sessions().is_empty());
}

#[test]
fn all_sessions_lists_each_once() {
    let mut s = ChatStorage::new_durable();
    s.save_conversation("a", "1", "2");
    s.save_conversation("b", "3", "4");
    s.save_conversation("a", "5", "6");
    let mut names = s.get_all_sessions();
    names.sort();
    assert_eq!(names, vec!["a".to_string(), "b".to_string()]);
}

#[test]
fn empty_session_id_is_legal() {
    let mut s = ChatStorage::new_memory_only();
    s.save_conversation("", "q", "r");
    assert_eq!(s.get_session_pairs(""), pairs(&[("q", "r")]));
    assert_eq!(s.get_all_sessions(), vec!["".to_string()]);
}

#[test]
fn odd_length_lines_drop_exactly_the_trailing_line() {
    let lines = vec!["User: a".to_string(), "Bot: b".to_string(), "User: c".to_string()];
    assert_eq!(pairs_from_lines(&lines), pairs(&[("a", "b")]));
}

#[test]
fn pairing_without_prefixes_keeps_lines_whole() {
    let lines = vec!["x".to_string(), "y".to_string()];
    assert_eq!(pairs_from_lines(&lines), pairs(&[("x", "y")]));
}

#[test]
fn pairing_of_empty_and_single_line() {
    assert!(pairs_from_lines(&Vec::new()).is_empty());
    assert!(pairs_from_lines(&vec!["User: alone".to_string()]).is_empty());
}

#[test]
fn display_lines_carry_role_prefixes() {
    assert_eq!(user_line("hi"), "User: hi");
    assert_eq!(bot_line("yo"), "Bot: yo");
    assert_eq!(strip_line_prefix(&"User: hi".to_string(), "User: "), "hi");
    assert_eq!(strip_line_prefix(&"hi".to_string(), "User: "), "hi");
}

#[test]
fn flattening_rows_is_undone_by_pairing() {
    let rows = vec![
        ChatMessage {
            id: Some(1),
            session_id: "s".to_string(),
            user_message: "q1".to_string(),
            bot_reply: "r1".to_string(),
            timestamp: 10,
        },
        ChatMessage {
            id: Some(2),
            session_id: "s".to_string(),
            user_message: "q2".to_string(),
            bot_reply: "r2".to_string(),
            timestamp: 20,
        },
    ];
    let lines = rows_to_lines(&rows);
    assert_eq!(lines, vec!["User: q1", "Bot: r1", "User: q2", "Bot: r2"]);
    assert_eq!(pairs_from_lines(&lines), rows_to_pairs(&rows));
    assert_eq!(rows_to_pairs(&rows), pairs(&[("q1", "r1"), ("q2", "r2")]));
}
