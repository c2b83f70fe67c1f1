//! Directory listings for the sidebar, and the file list behind the quick-open palette: a
//! breadth-first walk under the root, capped in files, directories and depth. The
//! application reads each directory it is asked for; which directories, in what order, and
//! what is listed are decided here.

use vstd::prelude::*;
use vstd::utf8::*;
use std::collections::VecDeque;
use crate::html::{json_string_spec, push_json_string};
use crate::names::{sort_strings, sorted_texts, texts_of};
use crate::paths::{join, join_spec, strip_prefix, strip_prefix_spec};
use crate::text::{chars_eq_str, chars_of, dec, push_str, push_u64, string_of};

verus! {

broadcast use vstd::string::group_string_axioms;

/// Directories the file list never walks into: version control internals, dependencies and
/// build output, which hold many files nobody reads. (The sidebar still shows them.)
pub open spec fn skipped_names() -> Seq<Seq<char>> {
    seq![
        ".git"@, ".hg"@, ".svn"@, "node_modules"@, "target"@, "dist"@, "build"@, ".next"@, ".nuxt"@, ".svelte-kit"@,
        ".turbo"@, ".parcel-cache"@, ".cache"@, ".venv"@, "venv"@, "__pycache__"@, ".mypy_cache"@, ".pytest_cache"@,
        ".ruff_cache"@, ".gradle"@, ".idea"@, ".terraform"@, "Pods"@,
    ]
}

/// Whether the file list skips a directory of this name (see [`skipped_names`]).
pub fn is_skipped_dir(name: &str) -> (r: bool)
    ensures
        r == skipped_names().contains(name@),
{
    let names: [&str; 23] = [
        ".git", ".hg", ".svn", "node_modules", "target", "dist", "build", ".next", ".nuxt", ".svelte-kit", ".turbo",
        ".parcel-cache", ".cache", ".venv", "venv", "__pycache__", ".mypy_cache", ".pytest_cache", ".ruff_cache",
        ".gradle", ".idea", ".terraform", "Pods",
    ];
    let ghost want = skipped_names();
    assert(names@.map_values(|n: &str| n@) =~= want);
    let v = chars_of(name);
    let mut k: usize = 0;
    while k < 23
        invariant
            k <= 23,
            names@.map_values(|n: &str| n@) == want,
            want == skipped_names(),
            v@ == name@,
            forall|q: int| 0 <= q < k ==> want[q] != name@,
        decreases 23 - k,
    {
        let n: &str = names[k];
        assert(names@.map_values(|n: &str| n@)[k as int] == names@[k as int]@);
        if chars_eq_str(v.as_slice(), n) {
            assert(want[k as int] == name@);
            return true;
        }
        k = k + 1;
    }
    false
}

/// A directory entry as the application read it: its name, and whether it is a directory.
pub struct DirEntry {
    pub name: String,
    pub is_dir: bool,
}

/// The names of the entries that are (or are not) directories, in order.
pub open spec fn names_where(es: Seq<DirEntry>, dirs: bool) -> Seq<Seq<char>>
    decreases es.len(),
{
    if es.len() == 0 {
        seq![]
    } else {
        names_where(es.drop_last(), dirs) + if es.last().is_dir == dirs {
            seq![es.last().name@]
        } else {
            seq![]
        }
    }
}

/// Whether `s` holds the texts of `of` in sorted order.
pub open spec fn sorted_as(s: Seq<Seq<char>>, of: Seq<Seq<char>>) -> bool {
    sorted_texts(s) && s.to_multiset() == of.to_multiset()
}

fn names_of(es: &[DirEntry], dirs: bool) -> (r: Vec<String>)
    ensures
        texts_of(r@) == names_where(es@, dirs),
{
    let mut out: Vec<String> = Vec::new();
    let mut k: usize = 0;
    assert(texts_of(out@) =~= names_where(es@.take(0), dirs));
    while k < es.len()
        invariant
            k <= es@.len(),
            texts_of(out@) == names_where(es@.take(k as int), dirs),
        decreases es@.len() - k,
    {
        let ghost o0 = texts_of(out@);
        assert(es@.take(k + 1).drop_last() =~= es@.take(k as int));
        if es[k].is_dir == dirs {
            out.push(es[k].name.clone());
            assert(texts_of(out@) =~= o0 + seq![es@[k as int].name@]);
        } else {
            assert(o0 =~= o0 + Seq::<Seq<char>>::empty());
        }
        k = k + 1;
    }
    assert(es@.take(k as int) =~= es@);
    out
}

/// Texts joined with `,`.
pub open spec fn join_comma(items: Seq<Seq<char>>) -> Seq<char>
    decreases items.len(),
{
    if items.len() == 0 {
        seq![]
    } else if items.len() == 1 {
        items[0]
    } else {
        join_comma(items.drop_last()) + ","@ + items.last()
    }
}

fn push_joined(s: &mut String, items: &[String])
    ensures
        final(s)@ == old(s)@ + join_comma(texts_of(items@)),
{
    let ghost v = texts_of(items@);
    let ghost s0 = s@;
    let mut k: usize = 0;
    assert(v.take(0) =~= Seq::<Seq<char>>::empty());
    while k < items.len()
        invariant
            k <= items@.len(),
            v == texts_of(items@),
            s@ == s0 + join_comma(v.take(k as int)),
        decreases items@.len() - k,
    {
        if k > 0 {
            push_str(s, ",");
        }
        push_str(s, items[k].as_str());
        proof {
            assert(v.take(k + 1).drop_last() =~= v.take(k as int));
            assert(v.take(k + 1).last() == items@[k as int]@);
            if k == 0 {
                assert(s@ =~= s0 + join_comma(v.take(k + 1)));
            } else {
                assert(s@ =~= s0 + join_comma(v.take(k + 1)));
            }
        }
        k = k + 1;
    }
    assert(v.take(k as int) =~= v);
}

/// Where an entry named `name` in `dir` appears in the listing: relative to the root when
/// it lies under it, else as it is.
pub open spec fn entry_rel(dir: Seq<char>, root: Seq<char>, name: Seq<char>) -> Seq<char> {
    let p = join_spec(dir, name);
    match strip_prefix_spec(p, root) {
        Some(r) => r,
        None => p,
    }
}

/// One entry of a listing as JSON: its name, its path and its kind.
pub open spec fn entry_json(dir: Seq<char>, root: Seq<char>, name: Seq<char>, kind: Seq<char>) -> Seq<char> {
    "{\"name\":"@ + json_string_spec(name) + ",\"path\":"@ + json_string_spec(entry_rel(dir, root, name)) + ",\"kind\":\""@
        + kind + "\"}"@
}

/// The JSON of the entries named `names`, of one kind.
pub open spec fn entries_json(dir: Seq<char>, root: Seq<char>, names: Seq<Seq<char>>, kind: Seq<char>) -> Seq<Seq<char>> {
    names.map_values(|n: Seq<char>| entry_json(dir, root, n, kind))
}

/// A directory listing: the subdirectories, then the files, each group in name order.
pub open spec fn listing_spec(dir: Seq<char>, root: Seq<char>, dirs: Seq<Seq<char>>, files: Seq<Seq<char>>) -> Seq<char> {
    "["@ + join_comma(entries_json(dir, root, dirs, "dir"@) + entries_json(dir, root, files, "file"@)) + "]"@
}

fn entry_item(dir: &str, root: &str, name: &str, kind: &str) -> (r: String)
    ensures
        r@ == entry_json(dir@, root@, name@, kind@),
{
    let p = join(dir, name);
    let rel = match strip_prefix(p.as_str(), root) {
        Some(r) => r,
        None => p,
    };
    let mut s = String::new();
    push_str(&mut s, "{\"name\":");
    push_json_string(&mut s, chars_of(name).as_slice());
    push_str(&mut s, ",\"path\":");
    push_json_string(&mut s, chars_of(rel.as_str()).as_slice());
    push_str(&mut s, ",\"kind\":\"");
    push_str(&mut s, kind);
    push_str(&mut s, "\"}");
    s
}

fn push_items(items: &mut Vec<String>, dir: &str, root: &str, names: &Vec<String>, kind: &str)
    ensures
        texts_of(final(items)@) == texts_of(old(items)@) + entries_json(dir@, root@, texts_of(names@), kind@),
{
    let ghost i0 = texts_of(items@);
    let ghost nv = texts_of(names@);
    let mut k: usize = 0;
    assert(i0 =~= i0 + entries_json(dir@, root@, nv.take(0), kind@));
    while k < names.len()
        invariant
            k <= names@.len(),
            nv == texts_of(names@),
            texts_of(items@) == i0 + entries_json(dir@, root@, nv.take(k as int), kind@),
        decreases names@.len() - k,
    {
        let ghost before = texts_of(items@);
        items.push(entry_item(dir, root, names[k].as_str(), kind));
        assert(texts_of(items@) =~= before.push(entry_json(dir@, root@, nv[k as int], kind@)));
        assert(entries_json(dir@, root@, nv.take(k + 1), kind@) =~= entries_json(dir@, root@, nv.take(k as int), kind@).push(
            entry_json(dir@, root@, nv[k as int], kind@),
        ));
        k = k + 1;
    }
    assert(nv.take(k as int) =~= nv);
}

/// The sidebar's listing of `dir` (see [`listing_spec`]) from its entries as the
/// application read them; paths are relative to `root_dir`.
pub fn list_dir_json(dir: &str, root_dir: &str, entries: &[DirEntry]) -> (r: Vec<u8>)
    ensures
        exists|dn: Seq<Seq<char>>, fnames: Seq<Seq<char>>|
            sorted_as(dn, names_where(entries@, true)) && sorted_as(fnames, names_where(entries@, false)) && r@
                == encode_utf8(#[trigger] listing_spec(dir@, root_dir@, dn, fnames)),
{
    let dirs = sort_strings(names_of(entries, true));
    let files = sort_strings(names_of(entries, false));
    let mut items: Vec<String> = Vec::new();
    assert(texts_of(items@) =~= Seq::<Seq<char>>::empty());
    push_items(&mut items, dir, root_dir, &dirs, "dir");
    push_items(&mut items, dir, root_dir, &files, "file");
    let mut s = String::new();
    push_str(&mut s, "[");
    push_joined(&mut s, items.as_slice());
    push_str(&mut s, "]");
    let ghost dn = texts_of(dirs@);
    let ghost fnames = texts_of(files@);
    assert(texts_of(items@) =~= entries_json(dir@, root_dir@, dn, "dir"@) + entries_json(dir@, root_dir@, fnames, "file"@));
    assert(s@ =~= listing_spec(dir@, root_dir@, dn, fnames));
    let r = crate::text::slice_to_vec_u8(s.as_str().as_bytes());
    assert(sorted_as(dn, names_where(entries@, true)));
    assert(sorted_as(fnames, names_where(entries@, false)));
    r
}

// ── the file list ───────────────────────────────────────────────────────────

/// At most this many files are listed.
pub const FILE_LIST_MAX: usize = 20000;

/// Directories deeper than this below the root are not walked into.
pub const FILE_LIST_MAX_DEPTH: usize = 16;

/// At most this many directories are read.
pub const FILE_LIST_MAX_DIRS: usize = 50000;

/// Why the file list stopped short: which cap was met decides what the palette tells the
/// user.
#[derive(Clone, Copy, Debug, PartialEq, Eq, Structural)]
pub enum Truncation {
    /// The file cap: the walk stopped.
    Files,
    /// The directory cap: the walk stopped.
    Dirs,
    /// Branches below the depth cap were left out; the walk went on.
    Depth,
}

/// A breadth-first walk under the root, one directory at a time: the application asks for
/// the next directory ([`FileWalk::next_dir`]), reads it, and hands the entries back
/// ([`FileWalk::add_listing`]).
pub struct FileWalk {
    queue: VecDeque<(String, usize)>,
    out: Vec<String>,
    visited: usize,
    deep_skipped: bool,
    current: Option<(String, usize)>,
    done: Option<Option<Truncation>>,
}

#[verifier::ext_equal]
/// The state of a [`FileWalk`]: the directories still to read (relative to the root, with
/// their depth), the files listed so far, how many directories were taken up, whether a
/// branch was cut at the depth cap, the directory being read, and the outcome once over.
pub struct WalkView {
    pub pending: Seq<(Seq<char>, nat)>,
    pub out: Seq<Seq<char>>,
    pub visited: nat,
    pub deep_skipped: bool,
    pub current: Option<(Seq<char>, nat)>,
    pub done: Option<Option<Truncation>>,
}

/// The text and depth of a queued directory.
pub open spec fn queued_view(q: (String, usize)) -> (Seq<char>, nat) {
    (q.0@, q.1 as nat)
}

impl View for FileWalk {
    type V = WalkView;

    closed spec fn view(&self) -> WalkView {
        WalkView {
            pending: self.queue@.map_values(|q: (String, usize)| queued_view(q)),
            out: texts_of(self.out@),
            visited: self.visited as nat,
            deep_skipped: self.deep_skipped,
            current: match self.current {
                Some(c) => Some(queued_view(c)),
                None => None,
            },
            done: self.done,
        }
    }
}

/// The path of `name` in the directory `prefix` (both relative to the root).
pub open spec fn join_rel(prefix: Seq<char>, name: Seq<char>) -> Seq<char> {
    if prefix.len() == 0 {
        name
    } else {
        prefix + "/"@ + name
    }
}

/// What the walk does when asked for the next directory: nothing once it is over; over
/// when no directory is left (cut at the depth cap or complete), when the file cap is
/// already met, or when this directory would pass the directory cap; else it hands out the
/// front directory.
pub open spec fn next_spec(o: WalkView) -> (Option<Seq<char>>, WalkView) {
    if o.done is Some {
        (None, o)
    } else if o.pending.len() == 0 {
        (None, WalkView { done: Some(if o.deep_skipped { Some(Truncation::Depth) } else { None }), current: None, ..o })
    } else if o.out.len() >= FILE_LIST_MAX {
        (None, WalkView { pending: o.pending.drop_first(), done: Some(Some(Truncation::Files)), current: None, ..o })
    } else if o.visited + 1 > FILE_LIST_MAX_DIRS {
        (
            None,
            WalkView {
                pending: o.pending.drop_first(),
                visited: o.visited + 1,
                done: Some(Some(Truncation::Dirs)),
                current: None,
                ..o
            },
        )
    } else {
        (
            Some(o.pending[0].0),
            WalkView { pending: o.pending.drop_first(), visited: o.visited + 1, current: Some(o.pending[0]), ..o },
        )
    }
}

/// Whether an entry is a directory the walk goes into from depth `depth`.
pub open spec fn walked_into(e: DirEntry, depth: nat) -> bool {
    e.is_dir && !skipped_names().contains(e.name@) && depth + 1 <= FILE_LIST_MAX_DEPTH
}

/// Whether an entry is a directory cut at the depth cap.
pub open spec fn cut_at_depth(e: DirEntry, depth: nat) -> bool {
    e.is_dir && !skipped_names().contains(e.name@) && depth + 1 > FILE_LIST_MAX_DEPTH
}

/// Whether some entry is a directory cut at the depth cap.
pub open spec fn any_cut(es: Seq<DirEntry>, depth: nat) -> bool {
    exists|k: int| 0 <= k < es.len() && cut_at_depth(#[trigger] es[k], depth)
}

/// The names of the directories the walk goes into, in entry order.
pub open spec fn subdir_names(es: Seq<DirEntry>, depth: nat) -> Seq<Seq<char>>
    decreases es.len(),
{
    if es.len() == 0 {
        seq![]
    } else {
        subdir_names(es.drop_last(), depth) + if walked_into(es.last(), depth) {
            seq![es.last().name@]
        } else {
            seq![]
        }
    }
}

/// The state after the current directory's entries are taken in, given its file names and
/// its walked-into subdirectory names in sorted order: the files are listed (as paths from
/// the root) until the file cap stops the walk; otherwise the subdirectories join the back
/// of the queue one level deeper. Entries that could not be read add nothing.
pub open spec fn listing_step(o: WalkView, es: Option<Seq<DirEntry>>, files: Seq<Seq<char>>, subs: Seq<Seq<char>>) -> WalkView {
    match es {
        None => WalkView { current: None, ..o },
        Some(es) => {
            let dir = o.current->Some_0.0;
            let depth = o.current->Some_0.1;
            let deep = o.deep_skipped || any_cut(es, depth);
            let room = FILE_LIST_MAX - o.out.len();
            let paths = files.map_values(|n: Seq<char>| join_rel(dir, n));
            if files.len() > room {
                WalkView {
                    out: o.out + paths.take(room),
                    deep_skipped: deep,
                    current: None,
                    done: Some(Some(Truncation::Files)),
                    ..o
                }
            } else {
                WalkView {
                    pending: o.pending + subs.map_values(|n: Seq<char>| (join_rel(dir, n), (depth + 1) as nat)),
                    out: o.out + paths,
                    deep_skipped: deep,
                    current: None,
                    ..o
                }
            }
        },
    }
}

/// The entries handed in, if any.
pub open spec fn entries_view(entries: Option<&[DirEntry]>) -> Option<Seq<DirEntry>> {
    match entries {
        Some(es) => Some(es@),
        None => None,
    }
}

fn dir_entries(es: &[DirEntry], depth: usize) -> (r: (Vec<String>, Vec<String>, bool))
    requires
        depth <= FILE_LIST_MAX_DEPTH,
    ensures
        texts_of(r.0@) == names_where(es@, false),
        texts_of(r.1@) == subdir_names(es@, depth as nat),
        r.2 == any_cut(es@, depth as nat),
{
    let mut files: Vec<String> = Vec::new();
    let mut subs: Vec<String> = Vec::new();
    let mut deep = false;
    let mut k: usize = 0;
    assert(texts_of(files@) =~= names_where(es@.take(0), false));
    assert(texts_of(subs@) =~= subdir_names(es@.take(0), depth as nat));
    while k < es.len()
        invariant
            k <= es@.len(),
            texts_of(files@) == names_where(es@.take(k as int), false),
            texts_of(subs@) == subdir_names(es@.take(k as int), depth as nat),
            deep == exists|q: int| 0 <= q < k && cut_at_depth(#[trigger] es@[q], depth as nat),
            depth <= FILE_LIST_MAX_DEPTH,
        decreases es@.len() - k,
    {
        let ghost f0 = texts_of(files@);
        let ghost s0 = texts_of(subs@);
        let e = &es[k];
        assert(es@.take(k + 1).drop_last() =~= es@.take(k as int));
        assert(es@.take(k + 1).last() == es@[k as int]);
        if e.is_dir {
            let skipped = is_skipped_dir(e.name.as_str());
            if !skipped && depth + 1 <= FILE_LIST_MAX_DEPTH {
                subs.push(e.name.clone());
                assert(texts_of(subs@) =~= s0 + seq![e.name@]);
            } else {
                assert(s0 =~= s0 + Seq::<Seq<char>>::empty());
                if !skipped {
                    deep = true;
                    assert(cut_at_depth(es@[k as int], depth as nat));
                }
            }
            assert(f0 =~= f0 + Seq::<Seq<char>>::empty());
        } else {
            files.push(e.name.clone());
            assert(texts_of(files@) =~= f0 + seq![e.name@]);
            assert(s0 =~= s0 + Seq::<Seq<char>>::empty());
        }
        k = k + 1;
    }
    assert(es@.take(k as int) =~= es@);
    (files, subs, deep)
}

proof fn lemma_subdirs_within_depth(es: Seq<DirEntry>, depth: nat)
    ensures
        subdir_names(es, depth).len() > 0 ==> depth + 1 <= FILE_LIST_MAX_DEPTH,
    decreases es.len(),
{
    if es.len() > 0 {
        lemma_subdirs_within_depth(es.drop_last(), depth);
    }
}

fn rel_path(prefix: &str, name: &str) -> (r: String)
    ensures
        r@ == join_rel(prefix@, name@),
{
    let mut s = String::new();
    if chars_of(prefix).len() == 0 {
        push_str(&mut s, name);
    } else {
        push_str(&mut s, prefix);
        push_str(&mut s, "/");
        push_str(&mut s, name);
    }
    s
}

impl FileWalk {
    /// Whether the bookkeeping is within its limits.
    pub closed spec fn wf(&self) -> bool {
        &&& self.out@.len() <= FILE_LIST_MAX
        &&& self.visited <= FILE_LIST_MAX_DIRS + 1
        &&& (self.done is None ==> self.visited <= FILE_LIST_MAX_DIRS)
        &&& forall|q: int| 0 <= q < self.queue@.len() ==> (#[trigger] self.queue@[q]).1 <= FILE_LIST_MAX_DEPTH
        &&& (self.current matches Some(c) ==> c.1 <= FILE_LIST_MAX_DEPTH)
    }

    /// A walk that starts at the root (the empty relative path, depth 0).
    pub fn new() -> (r: FileWalk)
        ensures
            r.wf(),
            r@ == (WalkView {
                pending: seq![(Seq::<char>::empty(), 0nat)],
                out: seq![],
                visited: 0,
                deep_skipped: false,
                current: None,
                done: None,
            }),
    {
        let mut queue: VecDeque<(String, usize)> = VecDeque::new();
        queue.push_back((String::new(), 0));
        let r = FileWalk {
            queue,
            out: Vec::new(),
            visited: 0,
            deep_skipped: false,
            current: None,
            done: None,
        };
        assert(r@.pending =~= seq![(Seq::<char>::empty(), 0nat)]);
        assert(r@.out =~= Seq::<Seq<char>>::empty());
        r
    }

    /// The next directory to read (relative to the root), or none when the walk is over
    /// (see [`next_spec`]).
    pub fn next_dir(&mut self) -> (r: Option<String>)
        requires
            old(self).wf(),
        ensures
            final(self).wf(),
            (match r {
                Some(s) => Some(s@),
                None => None,
            }, final(self)@) == next_spec(old(self)@),
    {
        let ghost o = self@;
        if self.done.is_some() {
            return None;
        }
        let ghost q0 = self.queue@;
        let (dir, depth) = match self.queue.pop_front() {
            None => {
                self.done = Some(if self.deep_skipped { Some(Truncation::Depth) } else { None });
                self.current = None;
                assert(self@.pending =~= o.pending);
                return None;
            },
            Some(front) => front,
        };
        assert(o.pending[0] == queued_view(q0[0]));
        assert(self@.pending =~= o.pending.drop_first());
        assert(forall|q: int| 0 <= q < self.queue@.len() ==> self.queue@[q] == q0[q + 1]);
        if self.out.len() >= FILE_LIST_MAX {
            self.done = Some(Some(Truncation::Files));
            self.current = None;
            return None;
        }
        self.visited = self.visited + 1;
        if self.visited > FILE_LIST_MAX_DIRS {
            self.done = Some(Some(Truncation::Dirs));
            self.current = None;
            return None;
        }
        let r = string_of(chars_of(dir.as_str()).as_slice());
        self.current = Some((dir, depth));
        Some(r)
    }

    /// Takes in the entries of the directory handed out last (none when it could not be
    /// read; see [`listing_step`]): its files, sorted by name, then its subdirectories,
    /// sorted by name, minus those skipped by name or cut at the depth cap.
    pub fn add_listing(&mut self, entries: Option<&[DirEntry]>)
        requires
            old(self).wf(),
            old(self)@.current is Some,
            old(self)@.done is None,
        ensures
            final(self).wf(),
            exists|files: Seq<Seq<char>>, subs: Seq<Seq<char>>|
                (match entries {
                    Some(es) => sorted_as(files, names_where(es@, false)) && sorted_as(subs, subdir_names(es@, old(self)@.current->Some_0.1)),
                    None => true,
                }) && final(self)@ == #[trigger] listing_step(old(self)@, entries_view(entries), files, subs),
    {
        let ghost o = self@;
        let (dir, depth) = match self.current.take() {
            Some(c) => c,
            None => (String::new(), 0),
        };
        assert(o.current == Some((dir@, depth as nat)));
        let es = match entries {
            None => {
                assert(self@ =~= listing_step(o, None, seq![], seq![]));
                return;
            },
            Some(es) => es,
        };
        let (file_names, sub_names, deep) = dir_entries(es, depth);
        let files = sort_strings(file_names);
        let subs = sort_strings(sub_names);
        let ghost fv = texts_of(files@);
        let ghost sv = texts_of(subs@);
        let ghost paths = fv.map_values(|n: Seq<char>| join_rel(dir@, n));
        assert(entries_view(entries) == Some(es@));
        let ghost target_deep = o.deep_skipped || any_cut(es@, o.current->Some_0.1);
        if deep {
            self.deep_skipped = true;
        }
        let room = FILE_LIST_MAX - self.out.len();
        let ghost out0 = texts_of(self.out@);
        let ghost queue0 = self.queue@;
        let mut k: usize = 0;
        while k < files.len()
            invariant
                k <= fv.len(),
                fv == texts_of(files@),
                paths == fv.map_values(|n: Seq<char>| join_rel(dir@, n)),
                out0 == o.out,
                room == FILE_LIST_MAX - out0.len(),
                k <= room,
                texts_of(self.out@) == out0 + paths.take(k as int),
                out0.len() <= FILE_LIST_MAX,
                self.queue@ == queue0,
                self.current is None,
                self.done is None,
                self.visited == o.visited,
                self.deep_skipped == target_deep,
                o.pending == queue0.map_values(|q: (String, usize)| queued_view(q)),
                forall|q: int| 0 <= q < queue0.len() ==> (#[trigger] queue0[q]).1 <= FILE_LIST_MAX_DEPTH,
                o.visited <= FILE_LIST_MAX_DIRS,
                o.current == Some((dir@, depth as nat)),
                o.done is None,
                target_deep == (o.deep_skipped || any_cut(es@, o.current->Some_0.1)),
                sorted_as(fv, names_where(es@, false)),
                sorted_as(sv, subdir_names(es@, depth as nat)),
                entries_view(entries) == Some(es@),
                o == old(self)@,
            decreases fv.len() - k,
        {
            if k >= room {
                self.done = Some(Some(Truncation::Files));
                assert(paths.take(k as int) =~= paths.take(room as int));
                assert(fv.map_values(|n: Seq<char>| join_rel(o.current->Some_0.0, n)) =~= paths);
                assert(self@.out =~= o.out + paths.take(room as int));
                assert(self.wf());
                assert(self@ =~= listing_step(o, Some(es@), fv, sv));
                return;
            }
            assert(fv[k as int] == files@[k as int]@);
            let p = rel_path(dir.as_str(), files[k].as_str());
            assert(paths[k as int] == p@);
            let ghost before = texts_of(self.out@);
            self.out.push(p);
            assert(texts_of(self.out@) =~= before.push(p@));
            assert(paths.take(k + 1) =~= paths.take(k as int).push(paths[k as int]));
            k = k + 1;
        }
        assert(paths.take(k as int) =~= paths);
        proof {
            lemma_subdirs_within_depth(es@, depth as nat);
            vstd::seq_lib::to_multiset_len(sv);
            vstd::seq_lib::to_multiset_len(subdir_names(es@, depth as nat));
        }
        let mut j: usize = 0;
        assert(self.queue@.skip(queue0.len() as int).map_values(|q: (String, usize)| queued_view(q)) =~= sv.take(0).map_values(
            |n: Seq<char>| (join_rel(dir@, n), (depth + 1) as nat),
        ));
        assert(self.queue@.take(queue0.len() as int) =~= queue0);
        while j < subs.len()
            invariant
                j <= sv.len(),
                sv == texts_of(subs@),
                depth <= FILE_LIST_MAX_DEPTH,
                sv.len() > 0 ==> depth + 1 <= FILE_LIST_MAX_DEPTH,
                self.queue@.len() >= queue0.len(),
                self.queue@.take(queue0.len() as int) == queue0,
                self.queue@.skip(queue0.len() as int).map_values(|q: (String, usize)| queued_view(q))
                    == sv.take(j as int).map_values(|n: Seq<char>| (join_rel(dir@, n), (depth + 1) as nat)),
                forall|q: int| queue0.len() <= q < self.queue@.len() ==> (#[trigger] self.queue@[q]).1 == depth + 1,
                texts_of(self.out@) == out0 + paths,
                self.current is None,
                self.done is None,
                self.visited == o.visited,
                self.deep_skipped == target_deep,
                o.pending == queue0.map_values(|q: (String, usize)| queued_view(q)),
                forall|q: int| 0 <= q < queue0.len() ==> (#[trigger] queue0[q]).1 <= FILE_LIST_MAX_DEPTH,
                o.visited <= FILE_LIST_MAX_DIRS,
                out0.len() + paths.len() <= FILE_LIST_MAX,
                o.current == Some((dir@, depth as nat)),
                o.done is None,
                out0 == o.out,
                target_deep == (o.deep_skipped || any_cut(es@, o.current->Some_0.1)),
                paths == fv.map_values(|n: Seq<char>| join_rel(dir@, n)),
            decreases sv.len() - j,
        {
            assert(sv[j as int] == subs@[j as int]@);
            let p = rel_path(dir.as_str(), subs[j].as_str());
            let ghost before = self.queue@;
            let d1: usize = depth + 1;
            let ghost pv = p@;
            self.queue.push_back((p, d1));
            assert(self.queue@.take(queue0.len() as int) =~= before.take(queue0.len() as int));
            assert(self.queue@.skip(queue0.len() as int) =~= before.skip(queue0.len() as int).push(self.queue@[before.len() as int]));
            assert(queued_view(self.queue@[before.len() as int]) == (pv, (depth + 1) as nat));
            assert(self.queue@.skip(queue0.len() as int).map_values(|q: (String, usize)| queued_view(q)) =~= before.skip(
                queue0.len() as int,
            ).map_values(|q: (String, usize)| queued_view(q)).push((pv, (depth + 1) as nat)));
            assert(sv.take(j + 1) =~= sv.take(j as int).push(sv[j as int]));
            assert(sv.take(j + 1).map_values(|n: Seq<char>| (join_rel(dir@, n), (depth + 1) as nat)) =~= sv.take(
                j as int,
            ).map_values(|n: Seq<char>| (join_rel(dir@, n), (depth + 1) as nat)).push((join_rel(dir@, sv[j as int]), (depth + 1) as nat)));
            j = j + 1;
        }
        assert(sv.take(j as int) =~= sv);
        assert(self.queue@ =~= queue0 + self.queue@.skip(queue0.len() as int));
        assert(self@.pending =~= o.pending + sv.map_values(|n: Seq<char>| (join_rel(dir@, n), (depth + 1) as nat)));
        assert(fv.map_values(|n: Seq<char>| join_rel(o.current->Some_0.0, n)) =~= paths);
        assert(sv.map_values(|n: Seq<char>| (join_rel(o.current->Some_0.0, n), o.current->Some_0.1 + 1)) =~= sv.map_values(
            |n: Seq<char>| (join_rel(dir@, n), (depth + 1) as nat),
        ));
        assert(self@ =~= listing_step(o, Some(es@), fv, sv));
    }

    /// The outcome once the walk is over: the cap that cut it short, if any.
    pub fn finished(&self) -> (r: Option<Option<Truncation>>)
        ensures
            r == self@.done,
    {
        self.done
    }

    /// The files listed, as paths from the root.
    pub fn files(&self) -> (r: &Vec<String>)
        ensures
            texts_of(r@) == self@.out,
    {
        &self.out
    }
}

// ── answers as JSON ─────────────────────────────────────────────────────────

/// Why and at which cap the list stopped, as the answer names them (nothing and 0 when it
/// is complete).
pub open spec fn trunc_reason(t: Option<Truncation>) -> (Seq<char>, nat) {
    match t {
        None => (""@, 0),
        Some(Truncation::Files) => ("files"@, FILE_LIST_MAX as nat),
        Some(Truncation::Dirs) => ("dirs"@, FILE_LIST_MAX_DIRS as nat),
        Some(Truncation::Depth) => ("depth"@, FILE_LIST_MAX_DEPTH as nat),
    }
}

/// The file list answer: the paths, whether and why the list was cut, and the cap met,
/// so the palette's warning always names the real limit.
pub open spec fn files_json_spec(paths: Seq<Seq<char>>, t: Option<Truncation>) -> Seq<char> {
    "{\"files\":["@ + join_comma(paths.map_values(|p: Seq<char>| json_string_spec(p))) + "],\"truncated\":"@ + (if t is Some {
        "true"@
    } else {
        "false"@
    }) + ",\"reason\":\""@ + trunc_reason(t).0 + "\",\"limit\":"@ + dec(trunc_reason(t).1) + "}"@
}

fn json_strings(v: &[String]) -> (r: Vec<String>)
    ensures
        texts_of(r@) == texts_of(v@).map_values(|p: Seq<char>| json_string_spec(p)),
{
    let ghost tv = texts_of(v@);
    let mut out: Vec<String> = Vec::new();
    let mut k: usize = 0;
    assert(texts_of(out@) =~= tv.take(0).map_values(|p: Seq<char>| json_string_spec(p)));
    while k < v.len()
        invariant
            k <= v@.len(),
            tv == texts_of(v@),
            texts_of(out@) == tv.take(k as int).map_values(|p: Seq<char>| json_string_spec(p)),
        decreases v@.len() - k,
    {
        let mut s = String::new();
        push_json_string(&mut s, chars_of(v[k].as_str()).as_slice());
        let ghost o0 = texts_of(out@);
        out.push(s);
        assert(texts_of(out@) =~= o0.push(json_string_spec(tv[k as int])));
        assert(tv.take(k + 1).map_values(|p: Seq<char>| json_string_spec(p)) =~= tv.take(k as int).map_values(
            |p: Seq<char>| json_string_spec(p),
        ).push(json_string_spec(tv[k as int])));
        k = k + 1;
    }
    assert(tv.take(k as int) =~= tv);
    out
}

/// The file list answer (see [`files_json_spec`]).
pub fn files_json(paths: &[String], t: Option<Truncation>) -> (r: Vec<u8>)
    ensures
        r@ == encode_utf8(files_json_spec(texts_of(paths@), t)),
{
    let items = json_strings(paths);
    let mut s = String::new();
    push_str(&mut s, "{\"files\":[");
    push_joined(&mut s, items.as_slice());
    push_str(&mut s, "],\"truncated\":");
    if t.is_some() {
        push_str(&mut s, "true");
    } else {
        push_str(&mut s, "false");
    }
    push_str(&mut s, ",\"reason\":\"");
    let limit: usize = match t {
        None => 0,
        Some(Truncation::Files) => {
            push_str(&mut s, "files");
            FILE_LIST_MAX
        },
        Some(Truncation::Dirs) => {
            push_str(&mut s, "dirs");
            FILE_LIST_MAX_DIRS
        },
        Some(Truncation::Depth) => {
            push_str(&mut s, "depth");
            FILE_LIST_MAX_DEPTH
        },
    };
    proof {
        if t is None {
            reveal_strlit("");
            assert(""@ =~= Seq::<char>::empty());
        }
    }
    push_str(&mut s, "\",\"limit\":");
    push_u64(&mut s, limit as u64);
    push_str(&mut s, "}");
    assert(s@ =~= files_json_spec(texts_of(paths@), t));
    crate::text::slice_to_vec_u8(s.as_str().as_bytes())
}

/// One changed file as JSON: its path and its added and deleted line counts.
pub open spec fn changed_item(path: Seq<char>, add: nat, del: nat) -> Seq<char> {
    "{\"path\":"@ + json_string_spec(path) + ",\"add\":"@ + dec(add) + ",\"del\":"@ + dec(del) + "}"@
}

/// The answer listing the changed files (the palette shows them first).
pub open spec fn changed_json_spec(items: Seq<(Seq<char>, nat, nat)>) -> Seq<char> {
    "{\"changed\":["@ + join_comma(items.map_values(|i: (Seq<char>, nat, nat)| changed_item(i.0, i.1, i.2))) + "]}"@
}

/// The changed-files answer for the files and line counts the application found.
pub fn changed_json(items: &[(String, usize, usize)]) -> (r: Vec<u8>)
    ensures
        r@ == encode_utf8(changed_json_spec(items@.map_values(|i: (String, usize, usize)| (i.0@, i.1 as nat, i.2 as nat)))),
{
    let ghost iv = items@.map_values(|i: (String, usize, usize)| (i.0@, i.1 as nat, i.2 as nat));
    let ghost want = iv.map_values(|i: (Seq<char>, nat, nat)| changed_item(i.0, i.1, i.2));
    let mut parts: Vec<String> = Vec::new();
    let mut k: usize = 0;
    assert(texts_of(parts@) =~= want.take(0));
    while k < items.len()
        invariant
            k <= items@.len(),
            iv == items@.map_values(|i: (String, usize, usize)| (i.0@, i.1 as nat, i.2 as nat)),
            want == iv.map_values(|i: (Seq<char>, nat, nat)| changed_item(i.0, i.1, i.2)),
            texts_of(parts@) == want.take(k as int),
        decreases items@.len() - k,
    {
        let it = &items[k];
        let mut s = String::new();
        push_str(&mut s, "{\"path\":");
        push_json_string(&mut s, chars_of(it.0.as_str()).as_slice());
        push_str(&mut s, ",\"add\":");
        push_u64(&mut s, it.1 as u64);
        push_str(&mut s, ",\"del\":");
        push_u64(&mut s, it.2 as u64);
        push_str(&mut s, "}");
        assert(s@ =~= want[k as int]);
        let ghost p0 = texts_of(parts@);
        parts.push(s);
        assert(texts_of(parts@) =~= p0.push(want[k as int]));
        assert(want.take(k + 1) =~= want.take(k as int).push(want[k as int]));
        k = k + 1;
    }
    assert(want.take(k as int) =~= want);
    let mut out = String::new();
    push_str(&mut out, "{\"changed\":[");
    push_joined(&mut out, parts.as_slice());
    push_str(&mut out, "]}");
    crate::text::slice_to_vec_u8(out.as_str().as_bytes())
}

/// The answer to whether a folder holds Markdown somewhere below it.
pub fn has_md_json(found: bool) -> (r: Vec<u8>)
    ensures
        r@ == encode_utf8("{\"has_md\":"@ + (if found { "true"@ } else { "false"@ }) + "}"@),
{
    let mut s = String::new();
    push_str(&mut s, "{\"has_md\":");
    if found {
        push_str(&mut s, "true");
    } else {
        push_str(&mut s, "false");
    }
    push_str(&mut s, "}");
    crate::text::slice_to_vec_u8(s.as_str().as_bytes())
}

/// The answer with a file's added and deleted line counts (for the diff toggle's badge).
pub fn diffstat_json(add: usize, del: usize) -> (r: Vec<u8>)
    ensures
        r@ == encode_utf8("{\"add\":"@ + dec(add as nat) + ",\"del\":"@ + dec(del as nat) + "}"@),
{
    let mut s = String::new();
    push_str(&mut s, "{\"add\":");
    push_u64(&mut s, add as u64);
    push_str(&mut s, ",\"del\":");
    push_u64(&mut s, del as u64);
    push_str(&mut s, "}");
    crate::text::slice_to_vec_u8(s.as_str().as_bytes())
}

/// The walk's order: the directories still to read go by depth, never decreasing, and span
/// at most two neighbouring depths, starting no shallower than the directory being read.
/// Directories are therefore read level by level, and files come out shallow first.
pub open spec fn level_order(v: WalkView) -> bool {
    &&& forall|i: int, j: int| 0 <= i <= j < v.pending.len() ==> (#[trigger] v.pending[i]).1 <= (#[trigger] v.pending[j]).1
    &&& v.pending.len() > 0 ==> v.pending[v.pending.len() - 1].1 <= v.pending[0].1 + 1
    &&& (v.current matches Some(c) ==> (v.pending.len() > 0 ==> c.1 <= v.pending[0].1 && v.pending[v.pending.len() - 1].1
        <= c.1 + 1))
}

/// The walk is breadth-first: a new walk is in level order, and handing out the next
/// directory or taking in a directory's entries (whatever they are) keeps it so.
pub proof fn walk_is_breadth_first(
    o: WalkView,
    es: Option<Seq<DirEntry>>,
    files: Seq<Seq<char>>,
    subs: Seq<Seq<char>>,
)
    ensures
        level_order(WalkView {
            pending: seq![(Seq::<char>::empty(), 0nat)],
            out: seq![],
            visited: 0,
            deep_skipped: false,
            current: None,
            done: None,
        }),
        level_order(o) ==> level_order(next_spec(o).1),
        level_order(o) && o.current is Some ==> level_order(listing_step(o, es, files, subs)),
{
    if level_order(o) {
        let n = next_spec(o).1;
        if o.done is None && o.pending.len() > 0 {
            assert forall|i: int, j: int| 0 <= i <= j < n.pending.len() implies (#[trigger] n.pending[i]).1 <= (
            #[trigger] n.pending[j]).1 by {
                assert(n.pending[i] == o.pending[i + 1] && n.pending[j] == o.pending[j + 1]);
            }
            if n.pending.len() > 0 {
                assert(n.pending[0] == o.pending[1]);
                assert(n.pending[n.pending.len() - 1] == o.pending[o.pending.len() - 1]);
                assert(o.pending[0].1 <= o.pending[1].1);
            }
        }
        if o.current is Some {
            let l = listing_step(o, es, files, subs);
            match es {
                None => {},
                Some(_) => {
                    let d = o.current->Some_0.1;
                    let dir = o.current->Some_0.0;
                    if l.pending != o.pending {
                        let add = subs.map_values(|x: Seq<char>| (join_rel(dir, x), d + 1));
                        assert(l.pending == o.pending + add);
                        assert forall|i: int, j: int| 0 <= i <= j < l.pending.len() implies (#[trigger] l.pending[i]).1
                            <= (#[trigger] l.pending[j]).1 by {
                            if j >= o.pending.len() {
                                assert(l.pending[j] == add[j - o.pending.len()]);
                                if i >= o.pending.len() {
                                    assert(l.pending[i] == add[i - o.pending.len()]);
                                } else {
                                    assert(l.pending[i] == o.pending[i]);
                                    assert(o.pending[i].1 <= o.pending[o.pending.len() - 1].1);
                                }
                            } else {
                                assert(l.pending[i] == o.pending[i] && l.pending[j] == o.pending[j]);
                            }
                        }
                        if l.pending.len() > 0 {
                            if o.pending.len() > 0 {
                                assert(l.pending[0] == o.pending[0]);
                            } else {
                                assert(l.pending[0] == add[0]);
                            }
                            if add.len() > 0 {
                                assert(l.pending[l.pending.len() - 1] == add[add.len() - 1]);
                            } else {
                                assert(l.pending =~= o.pending);
                            }
                        }
                    }
                },
            }
        }
    }
}

/// The file list never holds more than [`FILE_LIST_MAX`] paths: taking in a directory's
/// entries, whatever they are, stops at the cap.
pub proof fn the_file_list_stays_within_its_cap(
    o: WalkView,
    es: Option<Seq<DirEntry>>,
    files: Seq<Seq<char>>,
    subs: Seq<Seq<char>>,
)
    requires
        o.out.len() <= FILE_LIST_MAX,
        o.current is Some,
    ensures
        listing_step(o, es, files, subs).out.len() <= FILE_LIST_MAX,
        next_spec(o).1.out == o.out,
{
}

} // verus!
