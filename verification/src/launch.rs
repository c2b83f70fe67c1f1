//! The decisions of the `md` program around its window: which terminal command the
//! arguments ask for, what is handed to a running window and what to do with the answer,
//! how closing proceeds, and what the context menu may do with a path. The application
//! performs each step (printing, sockets, the event loop, AppKit) and asks here what to do.

use vstd::prelude::*;
use crate::app_config::{has_path, has_path_in, owned_stdin_dir, owned_stdin_dir_spec, texts};
use crate::instance::{Message, Sent};
use crate::markdown::{trim, trimmed};
use crate::paths::{ext_lower, ext_lower_of, one_of};
use crate::text::{chars_eq_str, chars_of, push_str, push_u64, string_of};

verus! {

broadcast use vstd::string::group_string_axioms;

// ── terminal commands ───────────────────────────────────────────────────────

/// What the command line asks for before any window is considered.
#[derive(Debug, PartialEq, Eq, Structural)]
pub enum TerminalCommand {
    /// `--help` / `-h`: print the usage text.
    Help,
    /// `--version` / `-V`.
    Version,
    /// `--sample`: print the sample document.
    Sample,
    /// `theme [<name>]`: list or switch themes (the arguments after `theme` go with it).
    Theme,
    /// `uninstall [...]`: remove what `md` left behind.
    Uninstall,
    /// `--html <file> [theme]`: print the rendered page (development builds only).
    HtmlDump,
    /// Nothing for the terminal: open a window.
    Window,
}

/// The terminal command for the arguments (`args[0]` is the program). `theme` and
/// `uninstall` are taken before any path, so a file of that name needs `./`.
pub open spec fn terminal_spec(args: Seq<Seq<char>>, html_dump: bool) -> TerminalCommand {
    if args.len() == 2 && (args[1] == "--help"@ || args[1] == "-h"@) {
        TerminalCommand::Help
    } else if args.len() == 2 && (args[1] == "--version"@ || args[1] == "-V"@) {
        TerminalCommand::Version
    } else if args.len() == 2 && args[1] == "--sample"@ {
        TerminalCommand::Sample
    } else if args.len() >= 2 && args[1] == "theme"@ {
        TerminalCommand::Theme
    } else if args.len() >= 2 && args[1] == "uninstall"@ {
        TerminalCommand::Uninstall
    } else if html_dump && (args.len() == 3 || args.len() == 4) && args[1] == "--html"@ {
        TerminalCommand::HtmlDump
    } else {
        TerminalCommand::Window
    }
}

/// The terminal command for the arguments (see [`terminal_spec`]); `html_dump` says
/// whether this build offers `--html`.
pub fn terminal_command(args: &[String], html_dump: bool) -> (r: TerminalCommand)
    ensures
        r == terminal_spec(args@.map_values(|a: String| a@), html_dump),
{
    let ghost v = args@.map_values(|a: String| a@);
    if args.len() < 2 {
        return TerminalCommand::Window;
    }
    assert(v[1] == args@[1]@);
    let a = chars_of(args[1].as_str());
    let n = args.len();
    if n == 2 && (chars_eq_str(a.as_slice(), "--help") || chars_eq_str(a.as_slice(), "-h")) {
        TerminalCommand::Help
    } else if n == 2 && (chars_eq_str(a.as_slice(), "--version") || chars_eq_str(a.as_slice(), "-V")) {
        TerminalCommand::Version
    } else if n == 2 && chars_eq_str(a.as_slice(), "--sample") {
        TerminalCommand::Sample
    } else if chars_eq_str(a.as_slice(), "theme") {
        TerminalCommand::Theme
    } else if chars_eq_str(a.as_slice(), "uninstall") {
        TerminalCommand::Uninstall
    } else if html_dump && (n == 3 || n == 4) && chars_eq_str(a.as_slice(), "--html") {
        TerminalCommand::HtmlDump
    } else {
        TerminalCommand::Window
    }
}

// ── handing the paths to a running window ───────────────────────────────────

/// The request handed to a running window: the tabs to open, the sender's working
/// directory and pid, and, for piped input, its spool file, whose removal the receiver
/// takes over when the spool directory passes [`owned_stdin_dir_spec`]. None without tabs.
pub fn forward_message(
    ids: Vec<String>,
    cwd: Option<String>,
    sender_pid: i32,
    stdin_doc: Option<&str>,
    canonical_temp_dir: &str,
) -> (r: Option<Message>)
    ensures
        ids@.len() == 0 ==> r is None,
        ids@.len() > 0 ==> (r matches Some(m) && m.files == ids && m.cwd == cwd && m.sender_pid == Some(sender_pid)
            && m.activate && (match stdin_doc {
            Some(d) => if owned_stdin_dir_spec(d@, canonical_temp_dir@) is Some {
                m.own@.len() == 1 && m.own@[0]@ == d@
            } else {
                m.own@.len() == 0
            },
            None => m.own@.len() == 0,
        })),
{
    if ids.len() == 0 {
        return None;
    }
    let mut msg = Message::new(ids);
    msg.cwd = cwd;
    msg.sender_pid = Some(sender_pid);
    match stdin_doc {
        Some(d) => {
            if owned_stdin_dir(d, canonical_temp_dir).is_some() {
                let mut own: Vec<String> = Vec::new();
                own.push(string_of(chars_of(d).as_slice()));
                msg.own = own;
            }
        },
        None => {},
    }
    Some(msg)
}

/// What to do after one attempt to hand the request over.
#[derive(Debug, PartialEq, Eq, Structural)]
pub enum Delivery {
    /// Handed over: this process is done.
    Done,
    /// Not yet: the owner may still be starting, so waiting can help.
    Retry,
    /// Waiting will not help: open a window here.
    GiveUp,
}

/// The next step after a send, and the pid to bring to the front: a delivered request
/// brings the receiver forward when it asked for activation and the receiver's pid is
/// known; a newer receiver is given up on at once; no receiver may be worth waiting for.
pub fn delivery_for(sent: &Sent, activate: bool) -> (r: (Delivery, Option<i32>))
    ensures
        r == (match *sent {
            Sent::Delivered { receiver_pid } => (Delivery::Done, if activate { receiver_pid } else { None }),
            Sent::Incompatible { version: _ } => (Delivery::GiveUp, None),
            Sent::NoReceiver => (Delivery::Retry, None),
        }),
{
    match sent {
        Sent::Delivered { receiver_pid } => (Delivery::Done, if activate { *receiver_pid } else { None }),
        Sent::Incompatible { version: _ } => (Delivery::GiveUp, None),
        Sent::NoReceiver => (Delivery::Retry, None),
    }
}

/// The note printed when the running window speaks a newer protocol.
pub fn incompatible_notice(version: u32) -> (r: String)
    ensures
        r@ == "md: 動いている md（プロトコル "@ + crate::text::dec(version as nat) + "）の方が新しいので、別の窓で開きます"@,
{
    let mut s = String::new();
    push_str(&mut s, "md: 動いている md（プロトコル ");
    push_u64(&mut s, version as u64);
    push_str(&mut s, "）の方が新しいので、別の窓で開きます");
    s
}

/// The identifiers among `files` that can name a tab: those that start with `/`, in order.
/// Only the shape is looked at here; the page resolves each one and reports what it cannot.
pub open spec fn tab_ids(files: Seq<Seq<char>>) -> Seq<Seq<char>>
    decreases files.len(),
{
    if files.len() == 0 {
        seq![]
    } else if files.last().len() > 0 && files.last()[0] == '/' {
        tab_ids(files.drop_last()).push(files.last())
    } else {
        tab_ids(files.drop_last())
    }
}

/// `owned` after taking over, in order, the spool directory of each document of `docs`
/// that passes [`owned_stdin_dir_spec`] and is not held already (as a path).
pub open spec fn adopt_spool_dirs(owned: Seq<Seq<char>>, docs: Seq<Seq<char>>, canonical_temp_dir: Seq<char>) -> Seq<Seq<char>>
    decreases docs.len(),
{
    if docs.len() == 0 {
        owned
    } else {
        let before = adopt_spool_dirs(owned, docs.drop_last(), canonical_temp_dir);
        match owned_stdin_dir_spec(docs.last(), canonical_temp_dir) {
            Some(d) => if has_path(before, d) { before } else { before.push(d) },
            None => before,
        }
    }
}

/// A request handed to this window: the spool directories it passes on are taken over
/// (each through the same check as the sender's, never on the message's word), and its
/// tab identifiers are returned to be opened now when the page is ready, or else queued
/// in `pending` for the page to take when it is.
pub fn receive_open(msg: &Message, page_ready: bool, canonical_temp_dir: &str, owned: &mut Vec<String>, pending: &mut Vec<String>) -> (r: Vec<String>)
    ensures
        texts(final(owned)@) == adopt_spool_dirs(texts(old(owned)@), texts(msg.own@), canonical_temp_dir@),
        page_ready ==> final(pending)@ == old(pending)@ && texts(r@) == tab_ids(texts(msg.files@)),
        !page_ready ==> texts(final(pending)@) == texts(old(pending)@) + tab_ids(texts(msg.files@)) && r@.len() == 0,
{
    let ghost owned0 = texts(owned@);
    let ghost docs = texts(msg.own@);
    let mut k: usize = 0;
    assert(docs.take(0) =~= Seq::<Seq<char>>::empty());
    while k < msg.own.len()
        invariant
            k <= docs.len(),
            docs == texts(msg.own@),
            texts(owned@) == adopt_spool_dirs(owned0, docs.take(k as int), canonical_temp_dir@),
        decreases docs.len() - k,
    {
        assert(docs.take(k + 1).drop_last() =~= docs.take(k as int));
        assert(docs.take(k + 1).last() == msg.own@[k as int]@);
        match owned_stdin_dir(msg.own[k].as_str(), canonical_temp_dir) {
            Some(dir) => {
                if !has_path_in(owned, dir.as_str()) {
                    owned.push(dir);
                    assert(texts(owned@) =~= adopt_spool_dirs(owned0, docs.take(k as int), canonical_temp_dir@).push(dir@));
                }
            },
            None => {},
        }
        k = k + 1;
    }
    assert(docs.take(k as int) =~= docs);
    let ghost files = texts(msg.files@);
    let mut ids: Vec<String> = Vec::new();
    let mut j: usize = 0;
    assert(files.take(0) =~= Seq::<Seq<char>>::empty());
    while j < msg.files.len()
        invariant
            j <= files.len(),
            files == texts(msg.files@),
            texts(ids@) == tab_ids(files.take(j as int)),
        decreases files.len() - j,
    {
        assert(files.take(j + 1).drop_last() =~= files.take(j as int));
        assert(files.take(j + 1).last() == msg.files@[j as int]@);
        let cs = chars_of(msg.files[j].as_str());
        if cs.len() > 0 && cs[0] == '/' {
            ids.push(msg.files[j].clone());
            assert(texts(ids@) =~= tab_ids(files.take(j as int)).push(msg.files@[j as int]@));
        }
        j = j + 1;
    }
    assert(files.take(j as int) =~= files);
    if page_ready {
        ids
    } else {
        let ghost pending0 = texts(pending@);
        let mut i: usize = 0;
        while i < ids.len()
            invariant
                i <= ids@.len(),
                texts(pending@) == pending0 + texts(ids@).take(i as int),
            decreases ids@.len() - i,
        {
            let ghost before = texts(pending@);
            pending.push(ids[i].clone());
            assert(texts(ids@).take(i + 1) =~= texts(ids@).take(i as int).push(ids@[i as int]@));
            assert(texts(pending@) =~= before.push(ids@[i as int]@));
            assert(texts(pending@) =~= pending0 + texts(ids@).take(i + 1));
            i = i + 1;
        }
        assert(texts(ids@).take(i as int) =~= texts(ids@));
        Vec::new()
    }
}

// ── closing ─────────────────────────────────────────────────────────────────

/// How far closing has come. A full-screen window is first taken out of full screen, so
/// that closing lands on the Space it was started from.
#[derive(Debug, PartialEq, Eq, Structural)]
pub enum Closing {
    No,
    /// Asked to leave full screen; waiting for it to finish.
    ExitingFullscreen,
    /// Cleaned up; events that still arrive change nothing.
    Done,
}

/// What to do on a close request.
#[derive(Debug, PartialEq, Eq, Structural)]
pub enum CloseStep {
    /// Ask to leave full screen and wait.
    ExitFullscreen,
    /// A request during the wait: dropped.
    KeepWaiting,
    /// Clean up and quit.
    Finish,
    /// Already done: nothing.
    Ignore,
}

/// The step for a close request: only a window not yet closing looks at full screen (the
/// flag already drops while the window leaves it).
pub fn close_step(fullscreen: bool, closing: &Closing) -> (r: CloseStep)
    ensures
        r == (match *closing {
            Closing::Done => CloseStep::Ignore,
            Closing::ExitingFullscreen => CloseStep::KeepWaiting,
            Closing::No => if fullscreen { CloseStep::ExitFullscreen } else { CloseStep::Finish },
        }),
{
    match closing {
        Closing::Done => CloseStep::Ignore,
        Closing::ExitingFullscreen => CloseStep::KeepWaiting,
        Closing::No => if fullscreen { CloseStep::ExitFullscreen } else { CloseStep::Finish },
    }
}

// ── messages from the page ──────────────────────────────────────────────────

/// Whether a message comes from the top frame, the application's own page: scheme
/// `mdpreview`, authority `localhost`, path `/` exactly (the parts of the sender frame's
/// URL, none where the URL has no such part). Everything else is refused, including the
/// anonymous subframes (`about:blank`, `about:srcdoc`), which have no scheme and an empty
/// path. This is hygiene against accidents, not a defence against a hostile page.
pub open spec fn top_frame_spec(scheme: Option<Seq<char>>, authority: Option<Seq<char>>, path: Seq<char>) -> bool {
    scheme == Some("mdpreview"@) && authority == Some("localhost"@) && path == "/"@
}

/// Whether a message comes from the top frame (see [`top_frame_spec`]).
pub fn is_top_frame(scheme: Option<&str>, authority: Option<&str>, path: &str) -> (r: bool)
    ensures
        r == top_frame_spec(match scheme { Some(s) => Some(s@), None => None }, match authority {
            Some(a) => Some(a@),
            None => None,
        }, path@),
{
    let s_ok = match scheme {
        Some(s) => chars_eq_str(chars_of(s).as_slice(), "mdpreview"),
        None => false,
    };
    let a_ok = match authority {
        Some(a) => chars_eq_str(chars_of(a).as_slice(), "localhost"),
        None => false,
    };
    s_ok && a_ok && chars_eq_str(chars_of(path).as_slice(), "/")
}

// ── the context menu ────────────────────────────────────────────────────────

/// The extensions `open` could launch or follow (applications, scripts, shortcuts, web
/// locations, Java programs): such a file is never opened from the page.
pub open spec fn blocked_exts() -> Seq<Seq<char>> {
    seq![
        "app"@, "command"@, "terminal"@, "workflow"@, "scpt"@, "scptd"@, "applescript"@, "osascript"@, "action"@,
        "webloc"@, "url"@, "fileloc"@, "shortcut"@, "appex"@, "xpc"@, "prefpane"@, "qlgenerator"@, "vbs"@, "jar"@,
        "jnlp"@,
    ]
}

/// Whether `path`'s extension, case-insensitively, is one of [`blocked_exts`].
pub fn is_blocked_ext(path: &str) -> (r: bool)
    ensures
        r == (ext_lower(path@) matches Some(e) && blocked_exts().contains(e)),
{
    match ext_lower_of(path) {
        None => false,
        Some(e) => {
            let names: [&str; 20] = [
                "app", "command", "terminal", "workflow", "scpt", "scptd", "applescript", "osascript", "action",
                "webloc", "url", "fileloc", "shortcut", "appex", "xpc", "prefpane", "qlgenerator", "vbs", "jar",
                "jnlp",
            ];
            let ghost want = blocked_exts();
            assert(names@.map_values(|n: &str| n@) =~= want);
            let mut k: usize = 0;
            while k < 20
                invariant
                    k <= 20,
                    names@.map_values(|n: &str| n@) == want,
                    want == blocked_exts(),
                    ext_lower(path@) == Some(e@),
                    forall|q: int| 0 <= q < k ==> want[q] != e@,
                decreases 20 - k,
            {
                let name: &str = names[k];
                assert(names@.map_values(|n: &str| n@)[k as int] == names@[k as int]@);
                assert(name == names@[k as int]);
                if chars_eq_str(e.as_slice(), name) {
                    assert(want[k as int] == e@);
                    assert(blocked_exts().contains(e@));
                    return true;
                }
                k = k + 1;
            }
            false
        },
    }
}

/// What the context menu does with a file.
#[derive(Debug, PartialEq, Eq, Structural)]
pub enum MenuAction {
    /// Copy its absolute path.
    CopyPath,
    /// Show it in the Finder.
    Reveal,
    /// Open it with its default application.
    Open,
}

/// The identifier a menu request is about: its payload trimmed, none when that is empty
/// (nothing is open in the preview).
pub fn target_id(payload: &str) -> (r: Option<String>)
    ensures
        trim(payload@).len() == 0 ==> r is None,
        trim(payload@).len() > 0 ==> (r matches Some(s) && s@ == trim(payload@)),
{
    let t = trimmed(chars_of(payload).as_slice());
    if t.len() == 0 {
        None
    } else {
        Some(string_of(t.as_slice()))
    }
}

/// The action for a menu verb on the resolved file `path`: `abs`, `reveal`, and `open`
/// unless the file could launch something (see [`is_blocked_ext`]); none otherwise.
pub fn menu_action(verb: &str, path: &str) -> (r: Option<MenuAction>)
    ensures
        r == (if verb@ == "abs"@ {
            Some(MenuAction::CopyPath)
        } else if verb@ == "reveal"@ {
            Some(MenuAction::Reveal)
        } else if verb@ == "open"@ && !(ext_lower(path@) matches Some(e) && blocked_exts().contains(e)) {
            Some(MenuAction::Open)
        } else {
            None
        }),
{
    let v = chars_of(verb);
    if chars_eq_str(v.as_slice(), "abs") {
        Some(MenuAction::CopyPath)
    } else if chars_eq_str(v.as_slice(), "reveal") {
        Some(MenuAction::Reveal)
    } else if chars_eq_str(v.as_slice(), "open") && !is_blocked_ext(path) {
        Some(MenuAction::Open)
    } else {
        None
    }
}

/// The window and page background as RGBA: the colour of [`crate::theme::window_bg`],
/// opaque.
pub fn window_bg_rgba(theme: Option<&crate::theme::Theme>, os_dark: Option<bool>) -> (r: Option<(u8, u8, u8, u8)>)
    ensures
        match crate::theme::window_bg_spec(match theme {
            Some(t) => Some(crate::theme::theme_view(*t)),
            None => None,
        }, os_dark) {
            Some(v) => r matches Some(c) && c.0 == v[0] && c.1 == v[1] && c.2 == v[2] && c.3 == 255,
            None => r is None,
        },
{
    match crate::theme::window_bg(theme, os_dark) {
        Some(c) => Some((c[0], c[1], c[2], 255u8)),
        None => None,
    }
}

} // verus!
