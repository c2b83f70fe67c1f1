use md_preview::instance::{Endpoint, Greeting, GreetingRead, Handle, MAX_MESSAGE, Message, Sent, accept_request, after_greeting, default_socket, greeting_bytes, greeting_read, parse_greeting};

#[test]
fn encode_decode_keeps_the_file_order() {
    let mut msg = Message::new(vec!["/a.md".into(), "/b.md".into(), "/c.md".into()]);
    msg.cwd = Some("/work".into());
    msg.sender_pid = Some(4242);
    msg.own = vec!["/tmp/md-stdin-1".into()];
    assert_eq!(Message::decode(&msg.encode()), Some(msg));
}

#[test]
fn paths_with_newlines_quotes_and_equals_survive() {
    // macOS のパスに入らないのは `/` と NUL だけ。区切りに NUL を選んである理由が
    // これで、改行も引用符も `=` も素通りしなければならない。
    let weird = "/tmp/a\nb/c=d e\"f\\g/日本語 🍡.md";
    let msg = Message::new(vec![weird.to_string()]);
    assert_eq!(Message::decode(&msg.encode()).unwrap().files, vec![weird.to_string()]);
}

#[test]
fn value_side_equals_is_not_split_again() {
    let msg = Message::new(vec!["/tmp/k=v=w.md".into()]);
    assert_eq!(Message::decode(&msg.encode()).unwrap().files, vec!["/tmp/k=v=w.md".to_string()]);
}

#[test]
fn broken_input_is_rejected() {
    assert_eq!(Message::decode(b""), None, "空");
    assert_eq!(Message::decode(b"other\0" as &[u8]), None, "マジック違い");
    assert_eq!(Message::decode(b"md-preview\0x\0" as &[u8]), None, "バージョンが数値でない");
    assert_eq!(Message::decode(b"md-preview\0" as &[u8]), None, "バージョンが無い");
    // 終端の NUL が無い＝途中で切れた通信。尻尾を拾うと半端なパスをタブに載せる。
    assert_eq!(Message::decode(b"md-preview\x001\x00file=/a.md" as &[u8]), None, "終端されていない");
}

#[test]
fn a_newer_protocol_is_not_interpreted() {
    // 相手が新しいときに古い解釈を押し付けない（`cargo install` で入れ替えた直後に
    // 古い窓が生きているのは日常）。
    assert_eq!(Message::decode(b"md-preview\0999\0file=/a.md\0" as &[u8]), None);
}

#[test]
fn unknown_keys_are_ignored_and_the_rest_is_read() {
    // 前方互換の約束そのもの。これが崩れると #36 の `--notify` がキーを足せない。
    let wire = b"md-preview\x001\x00future=1\x00file=/a.md\x00\x00" as &[u8];
    let msg = Message::decode(wire).unwrap();
    assert_eq!(msg.files, vec!["/a.md".to_string()]);
}


#[test]
fn the_greeting_is_read_back_by_the_sender() {
    assert_eq!(parse_greeting(&greeting_bytes(4321)), Greeting::Receiver { pid: Some(4321) });
    assert_eq!(greeting_bytes(7), b"md-preview\x001\x00pid=7\x00".to_vec());
}

#[test]
fn greetings_from_others_are_told_apart() {
    assert_eq!(parse_greeting(b"md-preview\x002\x00pid=1\x00"), Greeting::Incompatible(2));
    assert_eq!(parse_greeting(b"SSH-2.0\x00x\x00y\x00"), Greeting::Stranger);
    assert_eq!(parse_greeting(b"md-preview\x00one\x00pid=1\x00"), Greeting::Stranger);
    assert_eq!(parse_greeting(b"md-preview\x001\x00pid=x\x00"), Greeting::Receiver { pid: None });
    assert_eq!(parse_greeting(b"md-preview\x001\x00who=me\x00pid=9\x00"), Greeting::Receiver { pid: Some(9) });
}

#[test]
fn reading_a_greeting_stops_at_three_tokens_or_too_much() {
    assert_eq!(greeting_read(b"md-preview\x001\x00"), GreetingRead::More);
    assert_eq!(greeting_read(b"md-preview\x001\x00pid=3\x00"), GreetingRead::Complete);
    assert_eq!(greeting_read(&[b'x'; 257]), GreetingRead::Overlong);
}

#[test]
fn what_follows_the_greeting() {
    assert_eq!(after_greeting(Some(Greeting::Receiver { pid: Some(5) })), Ok(Some(5)));
    assert_eq!(after_greeting(Some(Greeting::Incompatible(3))), Err(Sent::Incompatible { version: 3 }));
    assert_eq!(after_greeting(Some(Greeting::Stranger)), Err(Sent::NoReceiver));
    assert_eq!(after_greeting(None), Ok(None));
}

#[test]
fn an_overlong_request_is_dropped() {
    let m = Message::new(vec!["/a.md".to_string()]);
    assert_eq!(accept_request(&m.encode()), Some(m));
    let mut big = Message::new(vec!["x".repeat(MAX_MESSAGE)]).encode();
    big.truncate(MAX_MESSAGE);
    assert_eq!(accept_request(&big), None);
}

#[test]
fn only_our_own_socket_is_unlinked() {
    let h = Handle { socket: "/tmp/s".to_string(), ino: Some((1, 2)) };
    assert!(h.may_unlink(Some((1, 2))));
    assert!(!h.may_unlink(Some((1, 3))));
    assert!(!h.may_unlink(None));
    let h = Handle { socket: "/tmp/s".to_string(), ino: None };
    assert!(h.may_unlink(None));
}

#[test]
fn the_socket_setting_wins_when_it_is_not_empty() {
    assert_eq!(default_socket(Some("/x/s.sock"), "/tmp", None, false), Some(("/x/s.sock".to_string(), false)));
    assert_eq!(default_socket(Some(""), "/tmp", None, false), Some(("/tmp/md-preview.sock".to_string(), false)));
}

#[test]
fn debug_builds_use_their_own_socket_name() {
    assert_eq!(default_socket(None, "/tmp", None, true), Some(("/tmp/md-preview-dev.sock".to_string(), false)));
}

#[test]
fn without_a_temp_dir_the_socket_goes_to_the_run_dir() {
    assert_eq!(default_socket(None, "", Some("/home/u/.config/md-preview/run"), false),
        Some(("/home/u/.config/md-preview/run/md-preview.sock".to_string(), true)));
    assert_eq!(default_socket(None, "", None, false), None);
}

#[test]
fn a_user_endpoint_locks_beside_its_socket() {
    let ep = Endpoint::user_default(Some("/tmp/md-preview.sock".to_string())).unwrap();
    assert_eq!(ep.socket_path(), "/tmp/md-preview.sock");
    assert_eq!(ep.lock_path(), "/tmp/md-preview.sock.lock");
    assert!(Endpoint::user_default(None).is_none());
    assert!(Endpoint::user_default(Some(format!("/{}", "d".repeat(200)))).is_none());
}
