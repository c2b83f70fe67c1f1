use md_preview::instance::{Message, Sent};
use md_preview::launch::{
    close_step, delivery_for, forward_message, incompatible_notice, is_blocked_ext, is_top_frame, menu_action, receive_open, target_id,
    terminal_command, CloseStep, Closing, Delivery, MenuAction, TerminalCommand,
};

fn own(v: &[&str]) -> Vec<String> {
    v.iter().map(|s| s.to_string()).collect()
}

#[test]
fn a_plain_window_closes_immediately() {
    assert_eq!(close_step(false, &Closing::No), CloseStep::Finish);
}

#[test]
fn a_fullscreen_window_exits_fullscreen_first() {
    assert_eq!(close_step(true, &Closing::No), CloseStep::ExitFullscreen);
}

#[test]
fn close_requests_during_the_wait_are_ignored() {
    assert_eq!(close_step(true, &Closing::ExitingFullscreen), CloseStep::KeepWaiting);
    assert_eq!(close_step(false, &Closing::ExitingFullscreen), CloseStep::KeepWaiting);
}

#[test]
fn a_finished_close_ignores_later_requests() {
    assert_eq!(close_step(true, &Closing::Done), CloseStep::Ignore);
    assert_eq!(close_step(false, &Closing::Done), CloseStep::Ignore);
}

#[test]
fn terminal_commands_are_taken_before_paths() {
    assert_eq!(terminal_command(&own(&["md", "-h"]), false), TerminalCommand::Help);
    assert_eq!(terminal_command(&own(&["md", "--version"]), false), TerminalCommand::Version);
    assert_eq!(terminal_command(&own(&["md", "--sample"]), false), TerminalCommand::Sample);
    assert_eq!(terminal_command(&own(&["md", "theme", "nord"]), false), TerminalCommand::Theme);
    assert_eq!(terminal_command(&own(&["md", "uninstall", "--dry-run"]), false), TerminalCommand::Uninstall);
    assert_eq!(terminal_command(&own(&["md", "--html", "a.md"]), true), TerminalCommand::HtmlDump);
    assert_eq!(terminal_command(&own(&["md", "--html", "a.md"]), false), TerminalCommand::Window);
    assert_eq!(terminal_command(&own(&["md", "--help", "x"]), false), TerminalCommand::Window);
    assert_eq!(terminal_command(&own(&["md", "a.md"]), false), TerminalCommand::Window);
    assert_eq!(terminal_command(&own(&["md"]), false), TerminalCommand::Window);
}

#[test]
fn the_forwarded_request_carries_the_tabs_and_the_spool_file() {
    assert!(forward_message(vec![], None, 1, None, "/tmp").is_none());
    let m = forward_message(own(&["/w/a.md"]), Some("/w".to_string()), 42, None, "/tmp").unwrap();
    assert_eq!(m.files, own(&["/w/a.md"]));
    assert_eq!(m.cwd.as_deref(), Some("/w"));
    assert_eq!(m.sender_pid, Some(42));
    assert!(m.own.is_empty());
    assert!(m.activate);
    let doc = "/tmp/md-stdin-9/stdin.md";
    let m = forward_message(own(&[doc]), None, 42, Some(doc), "/tmp").unwrap();
    assert_eq!(m.own, own(&[doc]));
    let m = forward_message(own(&["/etc/hosts"]), None, 42, Some("/etc/hosts"), "/tmp").unwrap();
    assert!(m.own.is_empty());
}

#[test]
fn the_answer_decides_what_happens_next() {
    assert_eq!(delivery_for(&Sent::Delivered { receiver_pid: Some(7) }, true), (Delivery::Done, Some(7)));
    assert_eq!(delivery_for(&Sent::Delivered { receiver_pid: Some(7) }, false), (Delivery::Done, None));
    assert_eq!(delivery_for(&Sent::Incompatible { version: 2 }, true), (Delivery::GiveUp, None));
    assert_eq!(delivery_for(&Sent::NoReceiver, true), (Delivery::Retry, None));
    assert_eq!(incompatible_notice(2), "md: 動いている md（プロトコル 2）の方が新しいので、別の窓で開きます");
}

#[test]
fn launching_extensions_are_never_opened() {
    assert!(is_blocked_ext("/x/Evil.APP"));
    assert!(is_blocked_ext("/x/run.command"));
    assert!(is_blocked_ext("/x/a.jar"));
    assert!(!is_blocked_ext("/x/notes.md"));
    assert!(!is_blocked_ext("/x/noext"));
    assert_eq!(menu_action("open", "/x/a.webloc"), None);
    assert_eq!(menu_action("open", "/x/a.pdf"), Some(MenuAction::Open));
    assert_eq!(menu_action("abs", "/x/a.app"), Some(MenuAction::CopyPath));
    assert_eq!(menu_action("reveal", "/x/a.app"), Some(MenuAction::Reveal));
    assert_eq!(menu_action("delete", "/x/a.md"), None);
}

#[test]
fn an_empty_menu_target_is_nothing() {
    assert_eq!(target_id("  \n"), None);
    assert_eq!(target_id(" /a/b.md\n").as_deref(), Some("/a/b.md"));
}

/// The parts of a URL as the web view's URI type splits them: scheme, authority, path.
fn top(scheme: Option<&str>, authority: Option<&str>, path: &str) -> bool {
    is_top_frame(scheme, authority, path)
}

#[test]
fn top_frame_accepts_only_the_app_page() {
    // mdpreview://localhost/, also with a query or a fragment, and without the slash
    // (the path reads as "/").
    assert!(top(Some("mdpreview"), Some("localhost"), "/"));
}

#[test]
fn html_iframes_are_rejected() {
    for path in ["/docs/page.html", "/__abs/Users/me/page.html", "/a.html"] {
        assert!(!top(Some("mdpreview"), Some("localhost"), path), "{path}");
    }
}

#[test]
fn anonymous_subframes_are_rejected() {
    // `scheme:opaque` reads as an authority without a scheme, with an empty path.
    for u in ["about:blank", "about:srcdoc", "javascript:void(0)"] {
        assert!(!top(None, Some(u), ""), "{u}");
    }
    // A bare path cannot pass for the top frame either.
    assert!(!top(None, None, "/"));
}

#[test]
fn other_origins_are_rejected() {
    assert!(!top(Some("mdpreview"), Some("evil"), "/"));
    assert!(!top(Some("https"), Some("localhost"), "/"));
}

fn request(files: &[&str], docs: &[&str]) -> Message {
    let mut msg = Message::new(own(files));
    msg.own = own(docs);
    msg
}

#[test]
fn a_ready_page_gets_only_the_absolute_ids_at_once() {
    let msg = request(&["/a.md", "relative.md", "", "/dir/b.md"], &[]);
    let mut owned = Vec::new();
    let mut pending = own(&["/queued.md"]);
    let now = receive_open(&msg, true, "/tmp", &mut owned, &mut pending);
    assert_eq!(now, own(&["/a.md", "/dir/b.md"]));
    assert_eq!(pending, own(&["/queued.md"]));
    assert!(owned.is_empty());
}

#[test]
fn a_page_not_yet_ready_queues_the_ids() {
    let msg = request(&["/a.md", "x", "/b.md"], &[]);
    let mut owned = Vec::new();
    let mut pending = own(&["/first.md"]);
    let now = receive_open(&msg, false, "/tmp", &mut owned, &mut pending);
    assert!(now.is_empty());
    assert_eq!(pending, own(&["/first.md", "/a.md", "/b.md"]));
}

#[test]
fn spool_directories_are_taken_over_once_and_only_through_the_check() {
    let msg = request(
        &["/tmp/md-stdin-7/stdin.md"],
        &["/tmp/md-stdin-7/stdin.md", "/etc/hosts", "/tmp/md-stdin-7/again.md", "/tmp/md-stdin-9/stdin.md"],
    );
    let mut owned = own(&["/tmp/md-stdin-1"]);
    let mut pending = Vec::new();
    let now = receive_open(&msg, true, "/tmp", &mut owned, &mut pending);
    assert_eq!(now, own(&["/tmp/md-stdin-7/stdin.md"]));
    assert_eq!(owned, own(&["/tmp/md-stdin-1", "/tmp/md-stdin-7", "/tmp/md-stdin-9"]));
}

#[test]
fn a_spool_directory_already_held_is_not_added_again() {
    let msg = request(&[], &["/tmp/md-stdin-1/stdin.md"]);
    let mut owned = own(&["/tmp/md-stdin-1/"]);
    let mut pending = Vec::new();
    let now = receive_open(&msg, false, "/tmp", &mut owned, &mut pending);
    assert!(now.is_empty());
    assert!(pending.is_empty());
    assert_eq!(owned, own(&["/tmp/md-stdin-1/"]));
}
