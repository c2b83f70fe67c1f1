//! What a window is opened with, decided from the input: a folder, one or more files, or
//! Markdown piped in (which the application first writes to a spool file). Every input ends
//! in folder mode: a root directory for the tree, and the files to open as tabs.
//!
//! The application resolves the arguments on disk (canonical path, whether it is a
//! directory) and spools standard input; the decisions made from those facts are here.

use vstd::prelude::*;
use vstd::utf8::*;
use crate::html::{json_string_spec, push_json_string};
use crate::page::{build_folder_html, folder_page_spec, json_list, push_json_list, scripts_view, PageAssets};
use crate::paths::{
    comp_prefix, comp_view, comps, comps_of, comps_path, comps_prefix, comps_view, file_name, file_name_of,
    is_root, lemma_comps_of_comps_path, lemma_comps_ok, lemma_comps_ok_drop_last, parent_comps, parent_path, path_of_comps, path_starts_with, same_path, Comp, PathComp,
};
use crate::text::{chars_of, push_str, string_of};
use crate::theme::Appearance;
use crate::urlpath::file_id;

verus! {

broadcast use vstd::string::group_string_axioms;

/// The environment variable that carries the spool file of piped input to the detached
/// child, which has no standard input of its own.
pub const STDIN_FILE_ENV: &'static str = "MD_STDIN_FILE";

/// The start of the name of the directory piped input is spooled to; only such a
/// directory is ever cleaned up.
pub const STDIN_DIR_PREFIX: &'static str = "md-stdin-";

/// What opening a window needs, as decided from the input.
pub struct AppConfig {
    pub title: String,
    pub html_bytes: Vec<u8>,
    pub root_dir: String,
    /// The spool directory of piped input, removed when the process ends; none for other
    /// inputs.
    pub stdin_dir: Option<String>,
}

/// The name of an appearance as the page reads it.
pub open spec fn appearance_name(a: Appearance) -> Seq<char> {
    match a {
        Appearance::Light => "light"@,
        Appearance::Dark => "dark"@,
        Appearance::Auto => "auto"@,
    }
}

/// The start-up globals of the page: the theme's appearance, the extensions that are
/// rendered rather than shown as source, the root directory, and the start of the spool
/// directory's name.
pub open spec fn page_globals_spec(appearance: Appearance, root_dir: Seq<char>) -> Seq<char> {
    "window.MD_APPEARANCE = "@ + json_string_spec(appearance_name(appearance)) + "; window.MD_RENDERABLE_EXT = ["@
        + json_list(seq!["md"@, "markdown"@, "html"@, "htm"@]) + "]; window.MD_ROOT_DIR = "@ + json_string_spec(root_dir)
        + "; window.MD_STDIN_PREFIX = "@ + json_string_spec("md-stdin-"@) + ";"@
}

/// The window title for a root directory: its name, `.` when it has none.
pub open spec fn dir_name_spec(p: Seq<char>) -> Seq<char> {
    match file_name(p) {
        Some(n) => n,
        None => "."@,
    }
}

/// The folder page for a root directory and the files opened as tabs.
pub open spec fn folder_html_spec(
    root: Seq<char>,
    theme_css: Seq<char>,
    custom_css: Seq<char>,
    files: Seq<Seq<char>>,
    nonce: Seq<char>,
    base_css: Seq<char>,
    scripts: Seq<(Seq<char>, Seq<char>)>,
) -> Seq<char> {
    folder_page_spec(dir_name_spec(root), theme_css, custom_css, files, nonce, base_css, scripts)
}

/// The texts of a list of strings.
pub open spec fn texts(v: Seq<String>) -> Seq<Seq<char>> {
    v.map_values(|x: String| x@)
}

/// The window title for a root directory (see [`dir_name_spec`]).
fn dir_name(p: &str) -> (r: String)
    ensures
        r@ == dir_name_spec(p@),
{
    match file_name_of(p) {
        Some(n) => string_of(n.as_slice()),
        None => {
            let mut s = String::new();
            push_str(&mut s, ".");
            s
        },
    }
}

impl AppConfig {
    /// The start-up globals of the page (see [`page_globals_spec`]).
    pub fn page_globals(&self, appearance: Appearance) -> (r: String)
        ensures
            r@ == page_globals_spec(appearance, self.root_dir@),
    {
        let mut s = String::new();
        push_str(&mut s, "window.MD_APPEARANCE = ");
        push_json_string(&mut s, chars_of(appearance.as_str()).as_slice());
        push_str(&mut s, "; window.MD_RENDERABLE_EXT = [");
        let exts = crate::request::RENDERABLE_EXT;
        let mut names: Vec<String> = Vec::new();
        let mut k: usize = 0;
        while k < 4
            invariant
                k <= 4,
                exts@ == seq!["md", "markdown", "html", "htm"],
                names@.len() == k,
                forall|q: int| 0 <= q < k ==> (#[trigger] names@[q])@ == exts@[q]@,
            decreases 4 - k,
        {
            names.push(string_of(chars_of(exts[k]).as_slice()));
            k = k + 1;
        }
        assert(names@.map_values(|x: String| x@) =~= seq!["md"@, "markdown"@, "html"@, "htm"@]);
        push_json_list(&mut s, names.as_slice());
        push_str(&mut s, "]; window.MD_ROOT_DIR = ");
        push_json_string(&mut s, chars_of(self.root_dir.as_str()).as_slice());
        push_str(&mut s, "; window.MD_STDIN_PREFIX = ");
        push_json_string(&mut s, chars_of(STDIN_DIR_PREFIX).as_slice());
        push_str(&mut s, ";");
        assert(s@ =~= page_globals_spec(appearance, self.root_dir@));
        s
    }

    /// The folder window for `root` with `initial_files` open as tabs, the first one shown.
    fn folder(
        root: String,
        theme_css: &str,
        custom_css: &str,
        initial_files: &[String],
        nonce: &str,
        assets: &PageAssets,
    ) -> (r: AppConfig)
        ensures
            r.title@ == dir_name_spec(root@),
            r.html_bytes@ == encode_utf8(folder_html_spec(root@, theme_css@, custom_css@, texts(initial_files@),
                nonce@, assets.base_css_view(), assets.scripts_view())),
            r.root_dir@ == root@,
            r.stdin_dir is None,
    {
        let title = dir_name(root.as_str());
        let html = build_folder_html(title.as_str(), theme_css, custom_css, initial_files, nonce, assets);
        assert(initial_files@.map_values(|x: String| x@) =~= texts(initial_files@));
        let html_bytes = crate::text::slice_to_vec_u8(html.as_str().as_bytes());
        AppConfig { title, html_bytes, root_dir: root, stdin_dir: None }
    }

    /// The window for piped input, already spooled to the file `doc`: rooted at the working
    /// directory (see [`stdin_root_spec`]), with `doc` open as the one tab, and its spool
    /// directory noted for removal when it is ours (see [`owned_stdin_dir_spec`]).
    /// `temp_dir` is the system's temporary directory, `canonical_temp_dir` the same
    /// directory with links resolved.
    pub fn from_stdin(
        doc: &str,
        theme_css: &str,
        custom_css: &str,
        current_dir: Option<&str>,
        temp_dir: &str,
        canonical_temp_dir: &str,
        nonce: &str,
        assets: &PageAssets,
    ) -> (r: AppConfig)
        ensures
            r.root_dir@ == stdin_root_spec(doc@, opt_text(current_dir), temp_dir@),
            r.title@ == dir_name_spec(r.root_dir@),
            r.html_bytes@ == encode_utf8(folder_html_spec(r.root_dir@, theme_css@, custom_css@, seq![doc@], nonce@,
                assets.base_css_view(), assets.scripts_view())),
            match owned_stdin_dir_spec(doc@, canonical_temp_dir@) {
                Some(d) => r.stdin_dir matches Some(s) && s@ == d,
                None => r.stdin_dir is None,
            },
    {
        let root = stdin_root(doc, current_dir, temp_dir);
        let id = file_id(doc);
        let mut ids: Vec<String> = Vec::new();
        ids.push(id);
        assert(texts(ids@) =~= seq![doc@]);
        let mut config = AppConfig::folder(root, theme_css, custom_css, ids.as_slice(), nonce, assets);
        config.stdin_dir = owned_stdin_dir(doc, canonical_temp_dir);
        config
    }

    /// The window for the paths given as arguments (see [`plan_spec`]), or the error that
    /// stops `md` from opening one.
    pub fn from_paths(
        args: &[PathArg],
        theme_css: &str,
        custom_css: &str,
        current_dir: Option<&str>,
        nonce: &str,
        assets: &PageAssets,
    ) -> (r: Result<AppConfig, String>)
        ensures
            match plan_spec(arg_views(args@), opt_text(current_dir)) {
                Ok((root, ids)) => r matches Ok(c) && c.root_dir@ == root && c.title@ == dir_name_spec(root)
                    && c.html_bytes@ == encode_utf8(folder_html_spec(root, theme_css@, custom_css@, ids, nonce@,
                    assets.base_css_view(), assets.scripts_view())) && c.stdin_dir is None,
                Err(m) => r matches Err(e) && e@ == m,
            },
    {
        match plan_paths(args, current_dir) {
            Ok((root, ids)) => Ok(AppConfig::folder(root, theme_css, custom_css, ids.as_slice(), nonce, assets)),
            Err(e) => Err(e),
        }
    }
}

/// The text of an optional string.
pub open spec fn opt_text(s: Option<&str>) -> Option<Seq<char>> {
    match s {
        Some(x) => Some(x@),
        None => None,
    }
}

/// `Path::parent` of `p`, written as a path.
pub open spec fn parent_text(p: Seq<char>) -> Option<Seq<char>> {
    match parent_comps(comps(p)) {
        Some(c) => Some(comps_path(c)),
        None => None,
    }
}

/// The root for piped input: the working directory, but the spool file's directory when
/// the working directory is the filesystem root (which would put the whole volume under
/// watch) or unknown; the temporary directory when the spool file has no parent either.
pub open spec fn stdin_root_spec(doc: Seq<char>, cwd: Option<Seq<char>>, temp_dir: Seq<char>) -> Seq<char> {
    match cwd {
        None => match parent_text(doc) {
            Some(p) => p,
            None => temp_dir,
        },
        Some(c) => if parent_comps(comps(c)) is None {
            match parent_text(doc) {
                Some(p) => p,
                None => c,
            }
        } else {
            c
        },
    }
}

fn stdin_root(doc: &str, current_dir: Option<&str>, temp_dir: &str) -> (r: String)
    ensures
        r@ == stdin_root_spec(doc@, opt_text(current_dir), temp_dir@),
{
    match current_dir {
        None => match parent_path(doc) {
            Some(p) => p,
            None => string_of(chars_of(temp_dir).as_slice()),
        },
        Some(c) => {
            if parent_path(c).is_none() {
                match parent_path(doc) {
                    Some(p) => p,
                    None => string_of(chars_of(c).as_slice()),
                }
            } else {
                string_of(chars_of(c).as_slice())
            }
        },
    }
}

/// The spool directory of `doc` when it may be removed: `doc`'s parent directory, named
/// with [`STDIN_DIR_PREFIX`], directly in the (canonical) temporary directory. Anything
/// else, such as the parent of a file named from outside, is never ours to delete.
pub open spec fn owned_stdin_dir_spec(doc: Seq<char>, canonical_temp_dir: Seq<char>) -> Option<Seq<char>> {
    match parent_comps(comps(doc)) {
        None => None,
        Some(dir) => if dir.len() > 0 && (dir.last() matches Comp::Normal(name) && "md-stdin-"@.len() <= name.len()
            && name.take("md-stdin-"@.len() as int) == "md-stdin-"@) && parent_comps(dir) == Some(
            comps(canonical_temp_dir),
        ) {
            Some(comps_path(dir))
        } else {
            None
        },
    }
}

/// The root for piped input is never the filesystem root when the spool file's
/// directory is not: whatever the working directory, the root has a parent. (A spool
/// file without a directory takes the working directory, else the temporary directory,
/// so those must not be the root either.)
pub proof fn stdin_root_is_never_the_filesystem_root(doc: Seq<char>, cwd: Option<Seq<char>>, temp_dir: Seq<char>)
    requires
        parent_comps(comps(doc)) matches Some(dir) ==> parent_comps(dir) is Some,
        parent_comps(comps(doc)) is None ==> match cwd {
            Some(c) => parent_comps(comps(c)) is Some,
            None => parent_comps(comps(temp_dir)) is Some,
        },
    ensures
        parent_comps(comps(stdin_root_spec(doc, cwd, temp_dir))) is Some,
{
    if let Some(dir) = parent_comps(comps(doc)) {
        lemma_comps_ok(doc);
        lemma_comps_ok_drop_last(comps(doc));
        lemma_comps_of_comps_path(dir);
    }
}

/// The spool check takes the file, never the directory it hands back: the directory it
/// names for removal, passed through the same check again, is refused (its parent is the
/// temporary directory itself).
pub proof fn the_spool_check_refuses_its_own_answer(doc: Seq<char>, canonical_temp_dir: Seq<char>)
    ensures
        owned_stdin_dir_spec(doc, canonical_temp_dir) matches Some(d) ==> owned_stdin_dir_spec(d, canonical_temp_dir)
            is None,
{
    if let Some(dir) = parent_comps(comps(doc)) {
        lemma_comps_ok(doc);
        lemma_comps_ok_drop_last(comps(doc));
        lemma_comps_of_comps_path(dir);
    }
}

fn starts_with_text(v: &[char], p: &str) -> (r: bool)
    ensures
        r == (p@.len() <= v@.len() && v@.take(p@.len() as int) == p@),
{
    let pv = chars_of(p);
    if pv.len() > v.len() {
        return false;
    }
    let mut k: usize = 0;
    while k < pv.len()
        invariant
            k <= pv@.len() <= v@.len(),
            pv@ == p@,
            forall|q: int| 0 <= q < k ==> v@[q] == pv@[q],
        decreases pv@.len() - k,
    {
        if v[k] != pv[k] {
            assert(v@.take(p@.len() as int)[k as int] != p@[k as int]);
            return false;
        }
        k = k + 1;
    }
    assert(v@.take(p@.len() as int) =~= p@);
    true
}

/// The spool directory of `doc` when it may be removed (see [`owned_stdin_dir_spec`]).
/// The same check stands where a forwarded request hands a spool file over, so a value
/// from the wire can never name another directory for removal.
pub fn owned_stdin_dir(doc: &str, canonical_temp_dir: &str) -> (r: Option<String>)
    ensures
        match owned_stdin_dir_spec(doc@, canonical_temp_dir@) {
            Some(d) => r matches Some(s) && s@ == d,
            None => r is None,
        },
{
    let c = comps_of(doc);
    let ghost cv = comps_view(c@);
    let n = c.len();
    if n == 0 || is_root(&c[n - 1]) {
        return None;
    }
    let m = n - 1;
    let ghost dir = cv.drop_last();
    assert(cv.take(m as int) =~= dir);
    if m == 0 {
        return None;
    }
    assert(dir.last() == comp_view(c@[m - 1]));
    let ok_name = match &c[m - 1] {
        PathComp::Normal(name) => starts_with_text(name.as_slice(), STDIN_DIR_PREFIX),
        _ => false,
    };
    if !ok_name {
        return None;
    }
    assert(dir.drop_last() =~= cv.take(m - 1));
    let t = comps_of(canonical_temp_dir);
    let ghost tv = comps_view(t@);
    assert(tv.take(t@.len() as int) =~= tv);
    if !(m - 1 == t.len() && comps_prefix(t.as_slice(), t.len(), c.as_slice(), m - 1)) {
        proof {
            if parent_comps(dir) == Some(tv) {
                assert(cv.take(m - 1).take(t@.len() as int) =~= cv.take(m - 1));
            }
        }
        return None;
    }
    assert(cv.take(m - 1).take(tv.len() as int) =~= cv.take(m - 1));
    Some(path_of_comps(c.as_slice(), m))
}

// ── paths given as arguments ────────────────────────────────────────────────

/// A path argument as the application found it on disk: the argument, and either its
/// canonical path and whether that is a directory, or why it could not be opened.
pub struct PathArg {
    pub arg: String,
    pub resolved: Result<(String, bool), String>,
}

/// The content of a [`PathArg`].
pub struct PathArgView {
    pub arg: Seq<char>,
    pub resolved: Result<(Seq<char>, bool), Seq<char>>,
}

/// The content of a path argument.
pub open spec fn arg_view(a: PathArg) -> PathArgView {
    PathArgView {
        arg: a.arg@,
        resolved: match a.resolved {
            Ok((p, d)) => Ok((p@, d)),
            Err(e) => Err(e@),
        },
    }
}

/// The contents of some path arguments.
pub open spec fn arg_views(v: Seq<PathArg>) -> Seq<PathArgView> {
    v.map_values(|a: PathArg| arg_view(a))
}

/// The error for an argument that cannot be opened.
pub open spec fn open_error(arg: Seq<char>, why: Seq<char>) -> Seq<char> {
    "md: '"@ + arg + "' を開けませんでした: "@ + why
}

/// The error for a directory among several paths: only files can be given together.
pub open spec fn dir_error(arg: Seq<char>) -> Seq<char> {
    "md: 複数指定できるのはファイルだけです（'"@ + arg + "' はフォルダ）"@
}

/// The error when the root would be the filesystem root.
pub open spec fn root_error() -> Seq<char> {
    "md: root がファイルシステムの根（'/'）に広がるため開けません\n    同じフォルダのファイルを指定するか、フォルダごと開いてください"@
}

/// Whether `acc` holds a path equal to `p` (the same components).
pub open spec fn has_path(acc: Seq<Seq<char>>, p: Seq<char>) -> bool {
    exists|k: int| 0 <= k < acc.len() && comps(acc[k]) == comps(p)
}

/// The file arguments from `i` on, in order and without repeats, or the first error: an
/// argument that cannot be opened, or a directory.
pub open spec fn resolve_files(args: Seq<PathArgView>, i: nat, acc: Seq<Seq<char>>) -> Result<Seq<Seq<char>>, Seq<char>>
    decreases args.len() - i,
{
    if i >= args.len() {
        Ok(acc)
    } else {
        let a = args[i as int];
        match a.resolved {
            Err(e) => Err(open_error(a.arg, e)),
            Ok((p, is_dir)) => if is_dir {
                Err(dir_error(a.arg))
            } else {
                resolve_files(args, i + 1, if has_path(acc, p) { acc } else { acc.push(p) })
            },
        }
    }
}

/// The deepest directory that holds all of the parents from `i` on, starting from `acc`,
/// or none when a path has no parent or no such directory exists.
pub open spec fn shrink_to(acc: Seq<Comp>, target: Seq<Comp>) -> Option<Seq<Comp>>
    decreases acc.len(),
{
    if comp_prefix(acc, target) {
        Some(acc)
    } else if acc.len() == 0 || acc.last() == Comp::Root {
        None
    } else {
        shrink_to(acc.drop_last(), target)
    }
}

/// The common directory of `acc` and the parents of the paths from `i` on.
pub open spec fn ancestor_from(acc: Seq<Comp>, ps: Seq<Seq<Comp>>, i: int) -> Option<Seq<Comp>>
    decreases ps.len() - i,
{
    if i >= ps.len() || i < 0 {
        Some(acc)
    } else {
        match parent_comps(ps[i]) {
            None => None,
            Some(p) => match shrink_to(acc, p) {
                None => None,
                Some(a) => ancestor_from(a, ps, i + 1),
            },
        }
    }
}

/// The deepest directory that holds every path of `ps` (their parents' longest common
/// leading run of components); none for no paths, or when a path has no parent.
pub open spec fn common_ancestor_spec(ps: Seq<Seq<Comp>>) -> Option<Seq<Comp>> {
    if ps.len() == 0 {
        None
    } else {
        match parent_comps(ps[0]) {
            None => None,
            Some(acc) => ancestor_from(acc, ps, 1),
        }
    }
}

/// The components of some paths.
pub open spec fn path_comps(ps: Seq<Seq<char>>) -> Seq<Seq<Comp>> {
    ps.map_values(|p: Seq<char>| comps(p))
}

fn shrink(a: &[PathComp], n: usize, b: &[PathComp], m: usize) -> (r: Option<usize>)
    requires
        n <= a@.len(),
        m <= b@.len(),
    ensures
        match shrink_to(comps_view(a@).take(n as int), comps_view(b@).take(m as int)) {
            Some(c) => r matches Some(k) && k <= n && c == comps_view(a@).take(k as int),
            None => r is None,
        },
    decreases n,
{
    if comps_prefix(a, n, b, m) {
        return Some(n);
    }
    if n == 0 || is_root(&a[n - 1]) {
        return None;
    }
    assert(comps_view(a@).take(n as int).drop_last() =~= comps_view(a@).take(n - 1));
    shrink(a, n - 1, b, m)
}

/// The deepest directory that holds every one of `paths` (see [`common_ancestor_spec`]).
pub fn common_ancestor(paths: &[String]) -> (r: Option<String>)
    ensures
        match common_ancestor_spec(path_comps(texts(paths@))) {
            Some(c) => r matches Some(s) && s@ == comps_path(c),
            None => r is None,
        },
{
    let ghost ps = path_comps(texts(paths@));
    if paths.len() == 0 {
        return None;
    }
    let first = comps_of(paths[0].as_str());
    let ghost fv = comps_view(first@);
    assert(ps[0] == fv);
    let fl = first.len();
    if fl == 0 || is_root(&first[fl - 1]) {
        return None;
    }
    let mut n: usize = fl - 1;
    assert(fv.take(n as int) =~= fv.drop_last());
    let mut i: usize = 1;
    while i < paths.len()
        invariant
            1 <= i <= paths@.len(),
            n < fl,
            fl == first@.len(),
            fv == comps_view(first@),
            ps == path_comps(texts(paths@)),
            ps.len() == paths@.len(),
            common_ancestor_spec(ps) == ancestor_from(fv.take(n as int), ps, i as int),
        decreases paths@.len() - i,
    {
        let pc = comps_of(paths[i].as_str());
        assert(ps[i as int] == comps_view(pc@));
        let pl = pc.len();
        if pl == 0 || is_root(&pc[pl - 1]) {
            return None;
        }
        assert(comps_view(pc@).take(pl - 1) =~= comps_view(pc@).drop_last());
        match shrink(first.as_slice(), n, pc.as_slice(), pl - 1) {
            None => {
                return None;
            },
            Some(k) => {
                assert(fv.take(n as int).take(k as int) =~= fv.take(k as int));
                n = k;
            },
        }
        i = i + 1;
    }
    Some(path_of_comps(first.as_slice(), n))
}

/// Whether every path of `ps` lies in `base` (component-wise).
pub open spec fn all_under(ps: Seq<Seq<char>>, base: Seq<char>) -> bool {
    forall|k: int| 0 <= k < ps.len() ==> comp_prefix(comps(base), #[trigger] comps(ps[k]))
}

/// The root for the files `ps`: the working directory when it holds them all, else their
/// common directory (see [`common_ancestor_spec`]), else `/`. None when that root is the
/// filesystem root: the whole volume would be watched and listed.
pub open spec fn files_root_spec(ps: Seq<Seq<char>>, cwd: Option<Seq<char>>) -> Option<Seq<char>> {
    let root = if cwd is Some && all_under(ps, cwd->Some_0) {
        cwd->Some_0
    } else {
        match common_ancestor_spec(path_comps(ps)) {
            Some(a) => comps_path(a),
            None => "/"@,
        }
    };
    if parent_comps(comps(root)) is Some {
        Some(root)
    } else {
        None
    }
}

/// The root for files is never the filesystem root (which would watch and list the whole
/// volume): whenever there is a root, it has a parent.
pub proof fn files_root_is_never_the_filesystem_root(ps: Seq<Seq<char>>, cwd: Option<Seq<char>>)
    ensures
        files_root_spec(ps, cwd) matches Some(r) ==> parent_comps(comps(r)) is Some,
{
}

fn files_root(paths: &[String], current_dir: Option<&str>) -> (r: Option<String>)
    ensures
        match files_root_spec(texts(paths@), opt_text(current_dir)) {
            Some(root) => r matches Some(s) && s@ == root,
            None => r is None,
        },
{
    let ghost ps = texts(paths@);
    let mut under = false;
    if let Some(cwd) = current_dir {
        let mut k: usize = 0;
        under = true;
        while k < paths.len()
            invariant
                k <= paths@.len(),
                ps == texts(paths@),
                under ==> forall|q: int| 0 <= q < k ==> comp_prefix(comps(cwd@), #[trigger] comps(ps[q])),
                !under ==> !all_under(ps, cwd@),
            decreases paths@.len() - k,
        {
            if under && !path_starts_with(paths[k].as_str(), cwd) {
                assert(!comp_prefix(comps(cwd@), comps(ps[k as int])));
                under = false;
            }
            k = k + 1;
        }
    }
    let root = if under {
        match current_dir {
            Some(cwd) => string_of(chars_of(cwd).as_slice()),
            None => String::new(),
        }
    } else {
        match common_ancestor(paths) {
            Some(a) => {
                assert(path_comps(texts(paths@)) == path_comps(ps));
                a
            },
            None => {
                let mut s = String::new();
                push_str(&mut s, "/");
                s
            },
        }
    };
    if parent_path(root.as_str()).is_some() {
        Some(root)
    } else {
        None
    }
}

/// The root and the tabs for the path arguments: a single directory is the root itself,
/// with no tab; otherwise the files, in order and without repeats, open as tabs under
/// [`files_root_spec`]. The errors, in the order `md` meets them: an argument that cannot
/// be opened or a directory among several paths (the first such argument), then a root
/// that would be the filesystem root.
pub open spec fn plan_spec(args: Seq<PathArgView>, cwd: Option<Seq<char>>) -> Result<(Seq<char>, Seq<Seq<char>>), Seq<char>> {
    if args.len() == 1 && (args[0].resolved matches Ok((_p, d)) && d) {
        Ok((args[0].resolved->Ok_0.0, seq![]))
    } else {
        match resolve_files(args, 0, seq![]) {
            Err(m) => Err(m),
            Ok(ps) => match files_root_spec(ps, cwd) {
                None => Err(root_error()),
                Some(root) => Ok((root, ps)),
            },
        }
    }
}

pub(crate) fn has_path_in(acc: &Vec<String>, p: &str) -> (r: bool)
    ensures
        r == has_path(texts(acc@), p@),
{
    let mut k: usize = 0;
    while k < acc.len()
        invariant
            k <= acc@.len(),
            forall|q: int| 0 <= q < k ==> comps(texts(acc@)[q]) != comps(p@),
        decreases acc@.len() - k,
    {
        if same_path(acc[k].as_str(), p) {
            assert(comps(texts(acc@)[k as int]) == comps(p@));
            return true;
        }
        k = k + 1;
    }
    false
}

fn push_text3(a: &str, b: &str, c: &str) -> (r: String)
    ensures
        r@ == a@ + b@ + c@,
{
    let mut s = String::new();
    push_str(&mut s, a);
    push_str(&mut s, b);
    push_str(&mut s, c);
    s
}

/// The root and the tabs for the path arguments (see [`plan_spec`]). Both the detaching
/// parent and the window process make this decision, so the parent can report what would
/// stop the child, which has no terminal to report to.
pub fn plan_paths(args: &[PathArg], current_dir: Option<&str>) -> (r: Result<(String, Vec<String>), String>)
    ensures
        match plan_spec(arg_views(args@), opt_text(current_dir)) {
            Ok((root, ids)) => r matches Ok((s, v)) && s@ == root && texts(v@) == ids,
            Err(m) => r matches Err(e) && e@ == m,
        },
{
    let ghost av = arg_views(args@);
    if args.len() == 1 {
        match &args[0].resolved {
            Ok((p, d)) => {
                if *d {
                    assert(av[0] == arg_view(args@[0]));
                    return Ok((string_of(chars_of(p.as_str()).as_slice()), Vec::new()));
                }
            },
            Err(_) => {},
        }
    }
    let mut paths: Vec<String> = Vec::new();
    let mut i: usize = 0;
    assert(texts(paths@) =~= Seq::<Seq<char>>::empty());
    proof {
        if av.len() == 1 {
            assert(av[0] == arg_view(args@[0]));
        }
    }
    while i < args.len()
        invariant
            i <= args@.len(),
            av == arg_views(args@),
            av.len() == args@.len(),
            resolve_files(av, i as nat, texts(paths@)) == resolve_files(av, 0, seq![]),
            !(av.len() == 1 && (av[0].resolved matches Ok((_p, d)) && d)),
        decreases args@.len() - i,
    {
        let a = &args[i];
        assert(av[i as int] == arg_view(args@[i as int]));
        match &a.resolved {
            Err(e) => {
                let mut m = push_text3("md: '", a.arg.as_str(), "' を開けませんでした: ");
                push_str(&mut m, e.as_str());
                return Err(m);
            },
            Ok((p, d)) => {
                if *d {
                    return Err(push_text3("md: 複数指定できるのはファイルだけです（'", a.arg.as_str(), "' はフォルダ）"));
                }
                let ghost p0 = texts(paths@);
                if !has_path_in(&paths, p.as_str()) {
                    paths.push(string_of(chars_of(p.as_str()).as_slice()));
                    assert(texts(paths@) =~= p0.push(p@));
                }
            },
        }
        i = i + 1;
    }
    match files_root(paths.as_slice(), current_dir) {
        None => {
            let mut m = String::new();
            push_str(&mut m, "md: root がファイルシステムの根（'/'）に広がるため開けません\n    同じフォルダのファイルを指定するか、フォルダごと開いてください");
            Err(m)
        },
        Some(root) => {
            let mut ids: Vec<String> = Vec::new();
            let mut k: usize = 0;
            while k < paths.len()
                invariant
                    k <= paths@.len(),
                    ids@.len() == k,
                    forall|q: int| 0 <= q < k ==> (#[trigger] ids@[q])@ == paths@[q]@,
                decreases paths@.len() - k,
            {
                ids.push(file_id(paths[k].as_str()));
                k = k + 1;
            }
            assert(texts(ids@) =~= texts(paths@));
            Ok((root, ids))
        },
    }
}

} // verus!
