//! Serving the viewer's pages: content types, languages for highlighting, which files are
//! rendered, HTML fragments for each kind of view, and routing of requests. Reading files,
//! listing directories and answering over the custom protocol is the application's part.

use vstd::prelude::*;
use crate::text::{chars_of, chars_eq_str, push_str, string_of};
use crate::paths::{ext_lower, ext_lower_of, file_name, file_name_of};
use crate::html::{html_escape_spec, attr_escape_spec, push_html_escaped, push_attr_escaped};
use crate::markdown::newlines;
use vstd::utf8::*;

verus! {

broadcast use vstd::string::group_string_axioms;

/// The content type served for a lower-cased extension.
pub open spec fn mime_for_ext(e: Seq<char>) -> Seq<char> {
    if e == "png"@ {
        "image/png"@
    } else if e == "jpg"@ || e == "jpeg"@ {
        "image/jpeg"@
    } else if e == "gif"@ {
        "image/gif"@
    } else if e == "svg"@ {
        "image/svg+xml"@
    } else if e == "webp"@ {
        "image/webp"@
    } else if e == "ico"@ {
        "image/x-icon"@
    } else if e == "bmp"@ {
        "image/bmp"@
    } else if e == "html"@ || e == "htm"@ {
        "text/html; charset=utf-8"@
    } else if e == "css"@ {
        "text/css; charset=utf-8"@
    } else if e == "js"@ || e == "mjs"@ || e == "cjs"@ {
        "text/javascript; charset=utf-8"@
    } else if e == "json"@ {
        "application/json; charset=utf-8"@
    } else if e == "wasm"@ {
        "application/wasm"@
    } else if e == "woff2"@ {
        "font/woff2"@
    } else if e == "woff"@ {
        "font/woff"@
    } else if e == "ttf"@ {
        "font/ttf"@
    } else if e == "otf"@ {
        "font/otf"@
    } else {
        "application/octet-stream"@
    }
}

/// [`mime_for_ext`].
pub fn mime_of_ext(e: &[char]) -> (r: &'static str)
    ensures
        r@ == mime_for_ext(e@),
{
    if chars_eq_str(e, "png") {
        "image/png"
    } else if chars_eq_str(e, "jpg") || chars_eq_str(e, "jpeg") {
        "image/jpeg"
    } else if chars_eq_str(e, "gif") {
        "image/gif"
    } else if chars_eq_str(e, "svg") {
        "image/svg+xml"
    } else if chars_eq_str(e, "webp") {
        "image/webp"
    } else if chars_eq_str(e, "ico") {
        "image/x-icon"
    } else if chars_eq_str(e, "bmp") {
        "image/bmp"
    } else if chars_eq_str(e, "html") || chars_eq_str(e, "htm") {
        "text/html; charset=utf-8"
    } else if chars_eq_str(e, "css") {
        "text/css; charset=utf-8"
    } else if chars_eq_str(e, "js") || chars_eq_str(e, "mjs") || chars_eq_str(e, "cjs") {
        "text/javascript; charset=utf-8"
    } else if chars_eq_str(e, "json") {
        "application/json; charset=utf-8"
    } else if chars_eq_str(e, "wasm") {
        "application/wasm"
    } else if chars_eq_str(e, "woff2") {
        "font/woff2"
    } else if chars_eq_str(e, "woff") {
        "font/woff"
    } else if chars_eq_str(e, "ttf") {
        "font/ttf"
    } else if chars_eq_str(e, "otf") {
        "font/otf"
    } else {
        "application/octet-stream"
    }
}

/// The highlight.js language for a lower-cased extension.
pub open spec fn hljs_for_ext(e: Seq<char>) -> Seq<char> {
    if e == "md"@ || e == "markdown"@ {
        "markdown"@
    } else if e == "rs"@ {
        "rust"@
    } else if e == "js"@ || e == "mjs"@ || e == "cjs"@ {
        "javascript"@
    } else if e == "ts"@ {
        "typescript"@
    } else if e == "tsx"@ || e == "jsx"@ {
        "javascript"@
    } else if e == "py"@ {
        "python"@
    } else if e == "go"@ {
        "go"@
    } else if e == "java"@ {
        "java"@
    } else if e == "c"@ || e == "h"@ {
        "c"@
    } else if e == "cpp"@ || e == "cc"@ || e == "cxx"@ || e == "hpp"@ {
        "cpp"@
    } else if e == "cs"@ {
        "csharp"@
    } else if e == "rb"@ {
        "ruby"@
    } else if e == "sh"@ || e == "bash"@ || e == "zsh"@ || e == "fish"@ {
        "bash"@
    } else if e == "json"@ {
        "json"@
    } else if e == "yaml"@ || e == "yml"@ {
        "yaml"@
    } else if e == "toml"@ {
        "toml"@
    } else if e == "html"@ || e == "htm"@ || e == "xml"@ {
        "xml"@
    } else if e == "css"@ {
        "css"@
    } else if e == "scss"@ || e == "sass"@ {
        "scss"@
    } else if e == "sql"@ {
        "sql"@
    } else if e == "kt"@ || e == "kts"@ {
        "kotlin"@
    } else if e == "swift"@ {
        "swift"@
    } else if e == "lua"@ {
        "lua"@
    } else if e == "php"@ {
        "php"@
    } else {
        "plaintext"@
    }
}

/// [`hljs_for_ext`].
pub fn hljs_of_ext(e: &[char]) -> (r: &'static str)
    ensures
        r@ == hljs_for_ext(e@),
{
    if chars_eq_str(e, "md") || chars_eq_str(e, "markdown") {
        "markdown"
    } else if chars_eq_str(e, "rs") {
        "rust"
    } else if chars_eq_str(e, "js") || chars_eq_str(e, "mjs") || chars_eq_str(e, "cjs") {
        "javascript"
    } else if chars_eq_str(e, "ts") {
        "typescript"
    } else if chars_eq_str(e, "tsx") || chars_eq_str(e, "jsx") {
        "javascript"
    } else if chars_eq_str(e, "py") {
        "python"
    } else if chars_eq_str(e, "go") {
        "go"
    } else if chars_eq_str(e, "java") {
        "java"
    } else if chars_eq_str(e, "c") || chars_eq_str(e, "h") {
        "c"
    } else if chars_eq_str(e, "cpp") || chars_eq_str(e, "cc") || chars_eq_str(e, "cxx") || chars_eq_str(e, "hpp") {
        "cpp"
    } else if chars_eq_str(e, "cs") {
        "csharp"
    } else if chars_eq_str(e, "rb") {
        "ruby"
    } else if chars_eq_str(e, "sh") || chars_eq_str(e, "bash") || chars_eq_str(e, "zsh") || chars_eq_str(e, "fish") {
        "bash"
    } else if chars_eq_str(e, "json") {
        "json"
    } else if chars_eq_str(e, "yaml") || chars_eq_str(e, "yml") {
        "yaml"
    } else if chars_eq_str(e, "toml") {
        "toml"
    } else if chars_eq_str(e, "html") || chars_eq_str(e, "htm") || chars_eq_str(e, "xml") {
        "xml"
    } else if chars_eq_str(e, "css") {
        "css"
    } else if chars_eq_str(e, "scss") || chars_eq_str(e, "sass") {
        "scss"
    } else if chars_eq_str(e, "sql") {
        "sql"
    } else if chars_eq_str(e, "kt") || chars_eq_str(e, "kts") {
        "kotlin"
    } else if chars_eq_str(e, "swift") {
        "swift"
    } else if chars_eq_str(e, "lua") {
        "lua"
    } else if chars_eq_str(e, "php") {
        "php"
    } else {
        "plaintext"
    }
}

/// The content type for `path` by its extension, case-insensitively.
pub open spec fn guess_mime_spec(path: Seq<char>) -> Seq<char> {
    match ext_lower(path) {
        Some(e) => mime_for_ext(e),
        None => "application/octet-stream"@,
    }
}

/// Renders [`guess_mime_spec`].
pub fn guess_mime(path: &str) -> (r: &'static str)
    ensures
        r@ == guess_mime_spec(path@),
{
    match ext_lower_of(path) {
        Some(e) => mime_of_ext(e.as_slice()),
        None => "application/octet-stream",
    }
}

/// The highlight.js language for `path` by its extension, case-insensitively.
pub open spec fn hljs_lang_spec(path: Seq<char>) -> Seq<char> {
    match ext_lower(path) {
        Some(e) => hljs_for_ext(e),
        None => "plaintext"@,
    }
}

/// Renders [`hljs_lang_spec`].
pub fn extension_to_hljs_lang(path: &str) -> (r: &'static str)
    ensures
        r@ == hljs_lang_spec(path@),
{
    match ext_lower_of(path) {
        Some(e) => hljs_of_ext(e.as_slice()),
        None => "plaintext",
    }
}


/// Image files are served as images, whatever the case of their extension: each image
/// extension gets its own `image/` type, so a picture a document shows is never sent as
/// opaque bytes.
pub proof fn images_are_served_with_their_image_type(p: Seq<char>)
    ensures
        ext_lower(p) == Some("png"@) ==> guess_mime_spec(p) == "image/png"@,
        ext_lower(p) == Some("jpg"@) ==> guess_mime_spec(p) == "image/jpeg"@,
        ext_lower(p) == Some("jpeg"@) ==> guess_mime_spec(p) == "image/jpeg"@,
        ext_lower(p) == Some("gif"@) ==> guess_mime_spec(p) == "image/gif"@,
        ext_lower(p) == Some("svg"@) ==> guess_mime_spec(p) == "image/svg+xml"@,
        ext_lower(p) == Some("webp"@) ==> guess_mime_spec(p) == "image/webp"@,
        ext_lower(p) == Some("ico"@) ==> guess_mime_spec(p) == "image/x-icon"@,
        ext_lower(p) == Some("bmp"@) ==> guess_mime_spec(p) == "image/bmp"@,
{
    if let Some(e) = ext_lower(p) {
        reveal_strlit("bmp");
        reveal_strlit("gif");
        reveal_strlit("ico");
        reveal_strlit("jpeg");
        reveal_strlit("jpg");
        reveal_strlit("png");
        reveal_strlit("svg");
        reveal_strlit("webp");
        assert("jpg"@ != "png"@) by { assert("jpg"@[0] != "png"@[0]); }
        assert("jpeg"@ != "png"@) by { assert("jpeg"@.len() != "png"@.len()); }
        assert("jpeg"@ != "jpg"@) by { assert("jpeg"@.len() != "jpg"@.len()); }
        assert("gif"@ != "png"@) by { assert("gif"@[0] != "png"@[0]); }
        assert("gif"@ != "jpg"@) by { assert("gif"@[0] != "jpg"@[0]); }
        assert("gif"@ != "jpeg"@) by { assert("gif"@.len() != "jpeg"@.len()); }
        assert("svg"@ != "png"@) by { assert("svg"@[0] != "png"@[0]); }
        assert("svg"@ != "jpg"@) by { assert("svg"@[0] != "jpg"@[0]); }
        assert("svg"@ != "jpeg"@) by { assert("svg"@.len() != "jpeg"@.len()); }
        assert("svg"@ != "gif"@) by { assert("svg"@[0] != "gif"@[0]); }
        assert("webp"@ != "png"@) by { assert("webp"@.len() != "png"@.len()); }
        assert("webp"@ != "jpg"@) by { assert("webp"@.len() != "jpg"@.len()); }
        assert("webp"@ != "jpeg"@) by { assert("webp"@[0] != "jpeg"@[0]); }
        assert("webp"@ != "gif"@) by { assert("webp"@.len() != "gif"@.len()); }
        assert("webp"@ != "svg"@) by { assert("webp"@.len() != "svg"@.len()); }
        assert("ico"@ != "png"@) by { assert("ico"@[0] != "png"@[0]); }
        assert("ico"@ != "jpg"@) by { assert("ico"@[0] != "jpg"@[0]); }
        assert("ico"@ != "jpeg"@) by { assert("ico"@.len() != "jpeg"@.len()); }
        assert("ico"@ != "gif"@) by { assert("ico"@[0] != "gif"@[0]); }
        assert("ico"@ != "svg"@) by { assert("ico"@[0] != "svg"@[0]); }
        assert("ico"@ != "webp"@) by { assert("ico"@.len() != "webp"@.len()); }
        assert("bmp"@ != "png"@) by { assert("bmp"@[0] != "png"@[0]); }
        assert("bmp"@ != "jpg"@) by { assert("bmp"@[0] != "jpg"@[0]); }
        assert("bmp"@ != "jpeg"@) by { assert("bmp"@.len() != "jpeg"@.len()); }
        assert("bmp"@ != "gif"@) by { assert("bmp"@[0] != "gif"@[0]); }
        assert("bmp"@ != "svg"@) by { assert("bmp"@[0] != "svg"@[0]); }
        assert("bmp"@ != "webp"@) by { assert("bmp"@.len() != "webp"@.len()); }
        assert("bmp"@ != "ico"@) by { assert("bmp"@[0] != "ico"@[0]); }
    }
}

/// Pages, styles, scripts, data and fonts are served with their own types (text ones as
/// UTF-8), whatever the case of their extension; a path without an extension is opaque
/// bytes.
pub proof fn web_files_are_served_with_their_type(p: Seq<char>)
    ensures
        ext_lower(p) == Some("html"@) ==> guess_mime_spec(p) == "text/html; charset=utf-8"@,
        ext_lower(p) == Some("htm"@) ==> guess_mime_spec(p) == "text/html; charset=utf-8"@,
        ext_lower(p) == Some("css"@) ==> guess_mime_spec(p) == "text/css; charset=utf-8"@,
        ext_lower(p) == Some("js"@) ==> guess_mime_spec(p) == "text/javascript; charset=utf-8"@,
        ext_lower(p) == Some("mjs"@) ==> guess_mime_spec(p) == "text/javascript; charset=utf-8"@,
        ext_lower(p) == Some("cjs"@) ==> guess_mime_spec(p) == "text/javascript; charset=utf-8"@,
        ext_lower(p) == Some("json"@) ==> guess_mime_spec(p) == "application/json; charset=utf-8"@,
        ext_lower(p) == Some("wasm"@) ==> guess_mime_spec(p) == "application/wasm"@,
        ext_lower(p) == Some("woff2"@) ==> guess_mime_spec(p) == "font/woff2"@,
        ext_lower(p) == Some("woff"@) ==> guess_mime_spec(p) == "font/woff"@,
        ext_lower(p) == Some("ttf"@) ==> guess_mime_spec(p) == "font/ttf"@,
        ext_lower(p) == Some("otf"@) ==> guess_mime_spec(p) == "font/otf"@,
        ext_lower(p) is None ==> guess_mime_spec(p) == "application/octet-stream"@,
{
    if let Some(e) = ext_lower(p) {
        reveal_strlit("bmp");
        reveal_strlit("cjs");
        reveal_strlit("css");
        reveal_strlit("gif");
        reveal_strlit("htm");
        reveal_strlit("html");
        reveal_strlit("ico");
        reveal_strlit("jpeg");
        reveal_strlit("jpg");
        reveal_strlit("js");
        reveal_strlit("json");
        reveal_strlit("mjs");
        reveal_strlit("otf");
        reveal_strlit("png");
        reveal_strlit("svg");
        reveal_strlit("ttf");
        reveal_strlit("wasm");
        reveal_strlit("webp");
        reveal_strlit("woff");
        reveal_strlit("woff2");
        assert("html"@ != "png"@) by { assert("html"@.len() != "png"@.len()); }
        assert("html"@ != "jpg"@) by { assert("html"@.len() != "jpg"@.len()); }
        assert("html"@ != "jpeg"@) by { assert("html"@[0] != "jpeg"@[0]); }
        assert("html"@ != "gif"@) by { assert("html"@.len() != "gif"@.len()); }
        assert("html"@ != "svg"@) by { assert("html"@.len() != "svg"@.len()); }
        assert("html"@ != "webp"@) by { assert("html"@[0] != "webp"@[0]); }
        assert("html"@ != "ico"@) by { assert("html"@.len() != "ico"@.len()); }
        assert("html"@ != "bmp"@) by { assert("html"@.len() != "bmp"@.len()); }
        assert("htm"@ != "png"@) by { assert("htm"@[0] != "png"@[0]); }
        assert("htm"@ != "jpg"@) by { assert("htm"@[0] != "jpg"@[0]); }
        assert("htm"@ != "jpeg"@) by { assert("htm"@.len() != "jpeg"@.len()); }
        assert("htm"@ != "gif"@) by { assert("htm"@[0] != "gif"@[0]); }
        assert("htm"@ != "svg"@) by { assert("htm"@[0] != "svg"@[0]); }
        assert("htm"@ != "webp"@) by { assert("htm"@.len() != "webp"@.len()); }
        assert("htm"@ != "ico"@) by { assert("htm"@[0] != "ico"@[0]); }
        assert("htm"@ != "bmp"@) by { assert("htm"@[0] != "bmp"@[0]); }
        assert("htm"@ != "html"@) by { assert("htm"@.len() != "html"@.len()); }
        assert("css"@ != "png"@) by { assert("css"@[0] != "png"@[0]); }
        assert("css"@ != "jpg"@) by { assert("css"@[0] != "jpg"@[0]); }
        assert("css"@ != "jpeg"@) by { assert("css"@.len() != "jpeg"@.len()); }
        assert("css"@ != "gif"@) by { assert("css"@[0] != "gif"@[0]); }
        assert("css"@ != "svg"@) by { assert("css"@[0] != "svg"@[0]); }
        assert("css"@ != "webp"@) by { assert("css"@.len() != "webp"@.len()); }
        assert("css"@ != "ico"@) by { assert("css"@[0] != "ico"@[0]); }
        assert("css"@ != "bmp"@) by { assert("css"@[0] != "bmp"@[0]); }
        assert("css"@ != "html"@) by { assert("css"@.len() != "html"@.len()); }
        assert("css"@ != "htm"@) by { assert("css"@[0] != "htm"@[0]); }
        assert("js"@ != "png"@) by { assert("js"@.len() != "png"@.len()); }
        assert("js"@ != "jpg"@) by { assert("js"@.len() != "jpg"@.len()); }
        assert("js"@ != "jpeg"@) by { assert("js"@.len() != "jpeg"@.len()); }
        assert("js"@ != "gif"@) by { assert("js"@.len() != "gif"@.len()); }
        assert("js"@ != "svg"@) by { assert("js"@.len() != "svg"@.len()); }
        assert("js"@ != "webp"@) by { assert("js"@.len() != "webp"@.len()); }
        assert("js"@ != "ico"@) by { assert("js"@.len() != "ico"@.len()); }
        assert("js"@ != "bmp"@) by { assert("js"@.len() != "bmp"@.len()); }
        assert("js"@ != "html"@) by { assert("js"@.len() != "html"@.len()); }
        assert("js"@ != "htm"@) by { assert("js"@.len() != "htm"@.len()); }
        assert("js"@ != "css"@) by { assert("js"@.len() != "css"@.len()); }
        assert("mjs"@ != "png"@) by { assert("mjs"@[0] != "png"@[0]); }
        assert("mjs"@ != "jpg"@) by { assert("mjs"@[0] != "jpg"@[0]); }
        assert("mjs"@ != "jpeg"@) by { assert("mjs"@.len() != "jpeg"@.len()); }
        assert("mjs"@ != "gif"@) by { assert("mjs"@[0] != "gif"@[0]); }
        assert("mjs"@ != "svg"@) by { assert("mjs"@[0] != "svg"@[0]); }
        assert("mjs"@ != "webp"@) by { assert("mjs"@.len() != "webp"@.len()); }
        assert("mjs"@ != "ico"@) by { assert("mjs"@[0] != "ico"@[0]); }
        assert("mjs"@ != "bmp"@) by { assert("mjs"@[0] != "bmp"@[0]); }
        assert("mjs"@ != "html"@) by { assert("mjs"@.len() != "html"@.len()); }
        assert("mjs"@ != "htm"@) by { assert("mjs"@[0] != "htm"@[0]); }
        assert("mjs"@ != "css"@) by { assert("mjs"@[0] != "css"@[0]); }
        assert("mjs"@ != "js"@) by { assert("mjs"@.len() != "js"@.len()); }
        assert("cjs"@ != "png"@) by { assert("cjs"@[0] != "png"@[0]); }
        assert("cjs"@ != "jpg"@) by { assert("cjs"@[0] != "jpg"@[0]); }
        assert("cjs"@ != "jpeg"@) by { assert("cjs"@.len() != "jpeg"@.len()); }
        assert("cjs"@ != "gif"@) by { assert("cjs"@[0] != "gif"@[0]); }
        assert("cjs"@ != "svg"@) by { assert("cjs"@[0] != "svg"@[0]); }
        assert("cjs"@ != "webp"@) by { assert("cjs"@.len() != "webp"@.len()); }
        assert("cjs"@ != "ico"@) by { assert("cjs"@[0] != "ico"@[0]); }
        assert("cjs"@ != "bmp"@) by { assert("cjs"@[0] != "bmp"@[0]); }
        assert("cjs"@ != "html"@) by { assert("cjs"@.len() != "html"@.len()); }
        assert("cjs"@ != "htm"@) by { assert("cjs"@[0] != "htm"@[0]); }
        assert("cjs"@ != "css"@) by { assert("cjs"@[1] != "css"@[1]); }
        assert("cjs"@ != "js"@) by { assert("cjs"@.len() != "js"@.len()); }
        assert("cjs"@ != "mjs"@) by { assert("cjs"@[0] != "mjs"@[0]); }
        assert("json"@ != "png"@) by { assert("json"@.len() != "png"@.len()); }
        assert("json"@ != "jpg"@) by { assert("json"@.len() != "jpg"@.len()); }
        assert("json"@ != "jpeg"@) by { assert("json"@[1] != "jpeg"@[1]); }
        assert("json"@ != "gif"@) by { assert("json"@.len() != "gif"@.len()); }
        assert("json"@ != "svg"@) by { assert("json"@.len() != "svg"@.len()); }
        assert("json"@ != "webp"@) by { assert("json"@[0] != "webp"@[0]); }
        assert("json"@ != "ico"@) by { assert("json"@.len() != "ico"@.len()); }
        assert("json"@ != "bmp"@) by { assert("json"@.len() != "bmp"@.len()); }
        assert("json"@ != "html"@) by { assert("json"@[0] != "html"@[0]); }
        assert("json"@ != "htm"@) by { assert("json"@.len() != "htm"@.len()); }
        assert("json"@ != "css"@) by { assert("json"@.len() != "css"@.len()); }
        assert("json"@ != "js"@) by { assert("json"@.len() != "js"@.len()); }
        assert("json"@ != "mjs"@) by { assert("json"@.len() != "mjs"@.len()); }
        assert("json"@ != "cjs"@) by { assert("json"@.len() != "cjs"@.len()); }
        assert("wasm"@ != "png"@) by { assert("wasm"@.len() != "png"@.len()); }
        assert("wasm"@ != "jpg"@) by { assert("wasm"@.len() != "jpg"@.len()); }
        assert("wasm"@ != "jpeg"@) by { assert("wasm"@[0] != "jpeg"@[0]); }
        assert("wasm"@ != "gif"@) by { assert("wasm"@.len() != "gif"@.len()); }
        assert("wasm"@ != "svg"@) by { assert("wasm"@.len() != "svg"@.len()); }
        assert("wasm"@ != "webp"@) by { assert("wasm"@[1] != "webp"@[1]); }
        assert("wasm"@ != "ico"@) by { assert("wasm"@.len() != "ico"@.len()); }
        assert("wasm"@ != "bmp"@) by { assert("wasm"@.len() != "bmp"@.len()); }
        assert("wasm"@ != "html"@) by { assert("wasm"@[0] != "html"@[0]); }
        assert("wasm"@ != "htm"@) by { assert("wasm"@.len() != "htm"@.len()); }
        assert("wasm"@ != "css"@) by { assert("wasm"@.len() != "css"@.len()); }
        assert("wasm"@ != "js"@) by { assert("wasm"@.len() != "js"@.len()); }
        assert("wasm"@ != "mjs"@) by { assert("wasm"@.len() != "mjs"@.len()); }
        assert("wasm"@ != "cjs"@) by { assert("wasm"@.len() != "cjs"@.len()); }
        assert("wasm"@ != "json"@) by { assert("wasm"@[0] != "json"@[0]); }
        assert("woff2"@ != "png"@) by { assert("woff2"@.len() != "png"@.len()); }
        assert("woff2"@ != "jpg"@) by { assert("woff2"@.len() != "jpg"@.len()); }
        assert("woff2"@ != "jpeg"@) by { assert("woff2"@.len() != "jpeg"@.len()); }
        assert("woff2"@ != "gif"@) by { assert("woff2"@.len() != "gif"@.len()); }
        assert("woff2"@ != "svg"@) by { assert("woff2"@.len() != "svg"@.len()); }
        assert("woff2"@ != "webp"@) by { assert("woff2"@.len() != "webp"@.len()); }
        assert("woff2"@ != "ico"@) by { assert("woff2"@.len() != "ico"@.len()); }
        assert("woff2"@ != "bmp"@) by { assert("woff2"@.len() != "bmp"@.len()); }
        assert("woff2"@ != "html"@) by { assert("woff2"@.len() != "html"@.len()); }
        assert("woff2"@ != "htm"@) by { assert("woff2"@.len() != "htm"@.len()); }
        assert("woff2"@ != "css"@) by { assert("woff2"@.len() != "css"@.len()); }
        assert("woff2"@ != "js"@) by { assert("woff2"@.len() != "js"@.len()); }
        assert("woff2"@ != "mjs"@) by { assert("woff2"@.len() != "mjs"@.len()); }
        assert("woff2"@ != "cjs"@) by { assert("woff2"@.len() != "cjs"@.len()); }
        assert("woff2"@ != "json"@) by { assert("woff2"@.len() != "json"@.len()); }
        assert("woff2"@ != "wasm"@) by { assert("woff2"@.len() != "wasm"@.len()); }
        assert("woff"@ != "png"@) by { assert("woff"@.len() != "png"@.len()); }
        assert("woff"@ != "jpg"@) by { assert("woff"@.len() != "jpg"@.len()); }
        assert("woff"@ != "jpeg"@) by { assert("woff"@[0] != "jpeg"@[0]); }
        assert("woff"@ != "gif"@) by { assert("woff"@.len() != "gif"@.len()); }
        assert("woff"@ != "svg"@) by { assert("woff"@.len() != "svg"@.len()); }
        assert("woff"@ != "webp"@) by { assert("woff"@[1] != "webp"@[1]); }
        assert("woff"@ != "ico"@) by { assert("woff"@.len() != "ico"@.len()); }
        assert("woff"@ != "bmp"@) by { assert("woff"@.len() != "bmp"@.len()); }
        assert("woff"@ != "html"@) by { assert("woff"@[0] != "html"@[0]); }
        assert("woff"@ != "htm"@) by { assert("woff"@.len() != "htm"@.len()); }
        assert("woff"@ != "css"@) by { assert("woff"@.len() != "css"@.len()); }
        assert("woff"@ != "js"@) by { assert("woff"@.len() != "js"@.len()); }
        assert("woff"@ != "mjs"@) by { assert("woff"@.len() != "mjs"@.len()); }
        assert("woff"@ != "cjs"@) by { assert("woff"@.len() != "cjs"@.len()); }
        assert("woff"@ != "json"@) by { assert("woff"@[0] != "json"@[0]); }
        assert("woff"@ != "wasm"@) by { assert("woff"@[1] != "wasm"@[1]); }
        assert("woff"@ != "woff2"@) by { assert("woff"@.len() != "woff2"@.len()); }
        assert("ttf"@ != "png"@) by { assert("ttf"@[0] != "png"@[0]); }
        assert("ttf"@ != "jpg"@) by { assert("ttf"@[0] != "jpg"@[0]); }
        assert("ttf"@ != "jpeg"@) by { assert("ttf"@.len() != "jpeg"@.len()); }
        assert("ttf"@ != "gif"@) by { assert("ttf"@[0] != "gif"@[0]); }
        assert("ttf"@ != "svg"@) by { assert("ttf"@[0] != "svg"@[0]); }
        assert("ttf"@ != "webp"@) by { assert("ttf"@.len() != "webp"@.len()); }
        assert("ttf"@ != "ico"@) by { assert("ttf"@[0] != "ico"@[0]); }
        assert("ttf"@ != "bmp"@) by { assert("ttf"@[0] != "bmp"@[0]); }
        assert("ttf"@ != "html"@) by { assert("ttf"@.len() != "html"@.len()); }
        assert("ttf"@ != "htm"@) by { assert("ttf"@[0] != "htm"@[0]); }
        assert("ttf"@ != "css"@) by { assert("ttf"@[0] != "css"@[0]); }
        assert("ttf"@ != "js"@) by { assert("ttf"@.len() != "js"@.len()); }
        assert("ttf"@ != "mjs"@) by { assert("ttf"@[0] != "mjs"@[0]); }
        assert("ttf"@ != "cjs"@) by { assert("ttf"@[0] != "cjs"@[0]); }
        assert("ttf"@ != "json"@) by { assert("ttf"@.len() != "json"@.len()); }
        assert("ttf"@ != "wasm"@) by { assert("ttf"@.len() != "wasm"@.len()); }
        assert("ttf"@ != "woff2"@) by { assert("ttf"@.len() != "woff2"@.len()); }
        assert("ttf"@ != "woff"@) by { assert("ttf"@.len() != "woff"@.len()); }
        assert("otf"@ != "png"@) by { assert("otf"@[0] != "png"@[0]); }
        assert("otf"@ != "jpg"@) by { assert("otf"@[0] != "jpg"@[0]); }
        assert("otf"@ != "jpeg"@) by { assert("otf"@.len() != "jpeg"@.len()); }
        assert("otf"@ != "gif"@) by { assert("otf"@[0] != "gif"@[0]); }
        assert("otf"@ != "svg"@) by { assert("otf"@[0] != "svg"@[0]); }
        assert("otf"@ != "webp"@) by { assert("otf"@.len() != "webp"@.len()); }
        assert("otf"@ != "ico"@) by { assert("otf"@[0] != "ico"@[0]); }
        assert("otf"@ != "bmp"@) by { assert("otf"@[0] != "bmp"@[0]); }
        assert("otf"@ != "html"@) by { assert("otf"@.len() != "html"@.len()); }
        assert("otf"@ != "htm"@) by { assert("otf"@[0] != "htm"@[0]); }
        assert("otf"@ != "css"@) by { assert("otf"@[0] != "css"@[0]); }
        assert("otf"@ != "js"@) by { assert("otf"@.len() != "js"@.len()); }
        assert("otf"@ != "mjs"@) by { assert("otf"@[0] != "mjs"@[0]); }
        assert("otf"@ != "cjs"@) by { assert("otf"@[0] != "cjs"@[0]); }
        assert("otf"@ != "json"@) by { assert("otf"@.len() != "json"@.len()); }
        assert("otf"@ != "wasm"@) by { assert("otf"@.len() != "wasm"@.len()); }
        assert("otf"@ != "woff2"@) by { assert("otf"@.len() != "woff2"@.len()); }
        assert("otf"@ != "woff"@) by { assert("otf"@.len() != "woff"@.len()); }
        assert("otf"@ != "ttf"@) by { assert("otf"@[0] != "ttf"@[0]); }
    }
}

/// Each source extension the viewer knows is highlighted, in any case, as its own
/// highlight.js language (and labelled with it), never as plain text: here Markdown,
/// Rust, JavaScript, TypeScript, Python, Go, Java and C. A path without an extension is
/// plain text.
pub proof fn scripting_and_systems_sources_are_highlighted(p: Seq<char>)
    ensures
        ext_lower(p) is None ==> hljs_lang_spec(p) == "plaintext"@,
        ext_lower(p) == Some("md"@) ==> hljs_lang_spec(p) == "markdown"@,
        ext_lower(p) == Some("markdown"@) ==> hljs_lang_spec(p) == "markdown"@,
        ext_lower(p) == Some("rs"@) ==> hljs_lang_spec(p) == "rust"@,
        ext_lower(p) == Some("js"@) ==> hljs_lang_spec(p) == "javascript"@,
        ext_lower(p) == Some("mjs"@) ==> hljs_lang_spec(p) == "javascript"@,
        ext_lower(p) == Some("cjs"@) ==> hljs_lang_spec(p) == "javascript"@,
        ext_lower(p) == Some("ts"@) ==> hljs_lang_spec(p) == "typescript"@,
        ext_lower(p) == Some("tsx"@) ==> hljs_lang_spec(p) == "javascript"@,
        ext_lower(p) == Some("jsx"@) ==> hljs_lang_spec(p) == "javascript"@,
        ext_lower(p) == Some("py"@) ==> hljs_lang_spec(p) == "python"@,
        ext_lower(p) == Some("go"@) ==> hljs_lang_spec(p) == "go"@,
        ext_lower(p) == Some("java"@) ==> hljs_lang_spec(p) == "java"@,
        ext_lower(p) == Some("c"@) ==> hljs_lang_spec(p) == "c"@,
        ext_lower(p) == Some("h"@) ==> hljs_lang_spec(p) == "c"@,
{
    if let Some(e) = ext_lower(p) {
        reveal_strlit("bash");
        reveal_strlit("c");
        reveal_strlit("cc");
        reveal_strlit("cjs");
        reveal_strlit("cpp");
        reveal_strlit("cs");
        reveal_strlit("css");
        reveal_strlit("cxx");
        reveal_strlit("fish");
        reveal_strlit("go");
        reveal_strlit("h");
        reveal_strlit("hpp");
        reveal_strlit("htm");
        reveal_strlit("html");
        reveal_strlit("java");
        reveal_strlit("js");
        reveal_strlit("json");
        reveal_strlit("jsx");
        reveal_strlit("kt");
        reveal_strlit("kts");
        reveal_strlit("lua");
        reveal_strlit("markdown");
        reveal_strlit("md");
        reveal_strlit("mjs");
        reveal_strlit("php");
        reveal_strlit("py");
        reveal_strlit("rb");
        reveal_strlit("rs");
        reveal_strlit("sass");
        reveal_strlit("scss");
        reveal_strlit("sh");
        reveal_strlit("sql");
        reveal_strlit("swift");
        reveal_strlit("toml");
        reveal_strlit("ts");
        reveal_strlit("tsx");
        reveal_strlit("xml");
        reveal_strlit("yaml");
        reveal_strlit("yml");
        reveal_strlit("zsh");
        assert("markdown"@ != "md"@) by { assert("markdown"@.len() != "md"@.len()); }
        assert("rs"@ != "md"@) by { assert("rs"@[0] != "md"@[0]); }
        assert("rs"@ != "markdown"@) by { assert("rs"@.len() != "markdown"@.len()); }
        assert("js"@ != "md"@) by { assert("js"@[0] != "md"@[0]); }
        assert("js"@ != "markdown"@) by { assert("js"@.len() != "markdown"@.len()); }
        assert("js"@ != "rs"@) by { assert("js"@[0] != "rs"@[0]); }
        assert("mjs"@ != "md"@) by { assert("mjs"@.len() != "md"@.len()); }
        assert("mjs"@ != "markdown"@) by { assert("mjs"@.len() != "markdown"@.len()); }
        assert("mjs"@ != "rs"@) by { assert("mjs"@.len() != "rs"@.len()); }
        assert("mjs"@ != "js"@) by { assert("mjs"@.len() != "js"@.len()); }
        assert("cjs"@ != "md"@) by { assert("cjs"@.len() != "md"@.len()); }
        assert("cjs"@ != "markdown"@) by { assert("cjs"@.len() != "markdown"@.len()); }
        assert("cjs"@ != "rs"@) by { assert("cjs"@.len() != "rs"@.len()); }
        assert("cjs"@ != "js"@) by { assert("cjs"@.len() != "js"@.len()); }
        assert("cjs"@ != "mjs"@) by { assert("cjs"@[0] != "mjs"@[0]); }
        assert("ts"@ != "md"@) by { assert("ts"@[0] != "md"@[0]); }
        assert("ts"@ != "markdown"@) by { assert("ts"@.len() != "markdown"@.len()); }
        assert("ts"@ != "rs"@) by { assert("ts"@[0] != "rs"@[0]); }
        assert("ts"@ != "js"@) by { assert("ts"@[0] != "js"@[0]); }
        assert("ts"@ != "mjs"@) by { assert("ts"@.len() != "mjs"@.len()); }
        assert("ts"@ != "cjs"@) by { assert("ts"@.len() != "cjs"@.len()); }
        assert("tsx"@ != "md"@) by { assert("tsx"@.len() != "md"@.len()); }
        assert("tsx"@ != "markdown"@) by { assert("tsx"@.len() != "markdown"@.len()); }
        assert("tsx"@ != "rs"@) by { assert("tsx"@.len() != "rs"@.len()); }
        assert("tsx"@ != "js"@) by { assert("tsx"@.len() != "js"@.len()); }
        assert("tsx"@ != "mjs"@) by { assert("tsx"@[0] != "mjs"@[0]); }
        assert("tsx"@ != "cjs"@) by { assert("tsx"@[0] != "cjs"@[0]); }
        assert("tsx"@ != "ts"@) by { assert("tsx"@.len() != "ts"@.len()); }
        assert("jsx"@ != "md"@) by { assert("jsx"@.len() != "md"@.len()); }
        assert("jsx"@ != "markdown"@) by { assert("jsx"@.len() != "markdown"@.len()); }
        assert("jsx"@ != "rs"@) by { assert("jsx"@.len() != "rs"@.len()); }
        assert("jsx"@ != "js"@) by { assert("jsx"@.len() != "js"@.len()); }
        assert("jsx"@ != "mjs"@) by { assert("jsx"@[0] != "mjs"@[0]); }
        assert("jsx"@ != "cjs"@) by { assert("jsx"@[0] != "cjs"@[0]); }
        assert("jsx"@ != "ts"@) by { assert("jsx"@.len() != "ts"@.len()); }
        assert("jsx"@ != "tsx"@) by { assert("jsx"@[0] != "tsx"@[0]); }
        assert("py"@ != "md"@) by { assert("py"@[0] != "md"@[0]); }
        assert("py"@ != "markdown"@) by { assert("py"@.len() != "markdown"@.len()); }
        assert("py"@ != "rs"@) by { assert("py"@[0] != "rs"@[0]); }
        assert("py"@ != "js"@) by { assert("py"@[0] != "js"@[0]); }
        assert("py"@ != "mjs"@) by { assert("py"@.len() != "mjs"@.len()); }
        assert("py"@ != "cjs"@) by { assert("py"@.len() != "cjs"@.len()); }
        assert("py"@ != "ts"@) by { assert("py"@[0] != "ts"@[0]); }
        assert("py"@ != "tsx"@) by { assert("py"@.len() != "tsx"@.len()); }
        assert("py"@ != "jsx"@) by { assert("py"@.len() != "jsx"@.len()); }
        assert("go"@ != "md"@) by { assert("go"@[0] != "md"@[0]); }
        assert("go"@ != "markdown"@) by { assert("go"@.len() != "markdown"@.len()); }
        assert("go"@ != "rs"@) by { assert("go"@[0] != "rs"@[0]); }
        assert("go"@ != "js"@) by { assert("go"@[0] != "js"@[0]); }
        assert("go"@ != "mjs"@) by { assert("go"@.len() != "mjs"@.len()); }
        assert("go"@ != "cjs"@) by { assert("go"@.len() != "cjs"@.len()); }
        assert("go"@ != "ts"@) by { assert("go"@[0] != "ts"@[0]); }
        assert("go"@ != "tsx"@) by { assert("go"@.len() != "tsx"@.len()); }
        assert("go"@ != "jsx"@) by { assert("go"@.len() != "jsx"@.len()); }
        assert("go"@ != "py"@) by { assert("go"@[0] != "py"@[0]); }
        assert("java"@ != "md"@) by { assert("java"@.len() != "md"@.len()); }
        assert("java"@ != "markdown"@) by { assert("java"@.len() != "markdown"@.len()); }
        assert("java"@ != "rs"@) by { assert("java"@.len() != "rs"@.len()); }
        assert("java"@ != "js"@) by { assert("java"@.len() != "js"@.len()); }
        assert("java"@ != "mjs"@) by { assert("java"@.len() != "mjs"@.len()); }
        assert("java"@ != "cjs"@) by { assert("java"@.len() != "cjs"@.len()); }
        assert("java"@ != "ts"@) by { assert("java"@.len() != "ts"@.len()); }
        assert("java"@ != "tsx"@) by { assert("java"@.len() != "tsx"@.len()); }
        assert("java"@ != "jsx"@) by { assert("java"@.len() != "jsx"@.len()); }
        assert("java"@ != "py"@) by { assert("java"@.len() != "py"@.len()); }
        assert("java"@ != "go"@) by { assert("java"@.len() != "go"@.len()); }
        assert("c"@ != "md"@) by { assert("c"@.len() != "md"@.len()); }
        assert("c"@ != "markdown"@) by { assert("c"@.len() != "markdown"@.len()); }
        assert("c"@ != "rs"@) by { assert("c"@.len() != "rs"@.len()); }
        assert("c"@ != "js"@) by { assert("c"@.len() != "js"@.len()); }
        assert("c"@ != "mjs"@) by { assert("c"@.len() != "mjs"@.len()); }
        assert("c"@ != "cjs"@) by { assert("c"@.len() != "cjs"@.len()); }
        assert("c"@ != "ts"@) by { assert("c"@.len() != "ts"@.len()); }
        assert("c"@ != "tsx"@) by { assert("c"@.len() != "tsx"@.len()); }
        assert("c"@ != "jsx"@) by { assert("c"@.len() != "jsx"@.len()); }
        assert("c"@ != "py"@) by { assert("c"@.len() != "py"@.len()); }
        assert("c"@ != "go"@) by { assert("c"@.len() != "go"@.len()); }
        assert("c"@ != "java"@) by { assert("c"@.len() != "java"@.len()); }
        assert("h"@ != "md"@) by { assert("h"@.len() != "md"@.len()); }
        assert("h"@ != "markdown"@) by { assert("h"@.len() != "markdown"@.len()); }
        assert("h"@ != "rs"@) by { assert("h"@.len() != "rs"@.len()); }
        assert("h"@ != "js"@) by { assert("h"@.len() != "js"@.len()); }
        assert("h"@ != "mjs"@) by { assert("h"@.len() != "mjs"@.len()); }
        assert("h"@ != "cjs"@) by { assert("h"@.len() != "cjs"@.len()); }
        assert("h"@ != "ts"@) by { assert("h"@.len() != "ts"@.len()); }
        assert("h"@ != "tsx"@) by { assert("h"@.len() != "tsx"@.len()); }
        assert("h"@ != "jsx"@) by { assert("h"@.len() != "jsx"@.len()); }
        assert("h"@ != "py"@) by { assert("h"@.len() != "py"@.len()); }
        assert("h"@ != "go"@) by { assert("h"@.len() != "go"@.len()); }
        assert("h"@ != "java"@) by { assert("h"@.len() != "java"@.len()); }
        assert("h"@ != "c"@) by { assert("h"@[0] != "c"@[0]); }
    }
}

/// Each source extension the viewer knows is highlighted, in any case, as its own
/// highlight.js language (and labelled with it), never as plain text: here C++, C#,
/// Ruby, the shells, JSON, YAML and TOML.
pub proof fn cpp_shell_and_data_sources_are_highlighted(p: Seq<char>)
    ensures
        ext_lower(p) == Some("cpp"@) ==> hljs_lang_spec(p) == "cpp"@,
        ext_lower(p) == Some("cc"@) ==> hljs_lang_spec(p) == "cpp"@,
        ext_lower(p) == Some("cxx"@) ==> hljs_lang_spec(p) == "cpp"@,
        ext_lower(p) == Some("hpp"@) ==> hljs_lang_spec(p) == "cpp"@,
        ext_lower(p) == Some("cs"@) ==> hljs_lang_spec(p) == "csharp"@,
        ext_lower(p) == Some("rb"@) ==> hljs_lang_spec(p) == "ruby"@,
        ext_lower(p) == Some("sh"@) ==> hljs_lang_spec(p) == "bash"@,
        ext_lower(p) == Some("bash"@) ==> hljs_lang_spec(p) == "bash"@,
        ext_lower(p) == Some("zsh"@) ==> hljs_lang_spec(p) == "bash"@,
        ext_lower(p) == Some("fish"@) ==> hljs_lang_spec(p) == "bash"@,
        ext_lower(p) == Some("json"@) ==> hljs_lang_spec(p) == "json"@,
        ext_lower(p) == Some("yaml"@) ==> hljs_lang_spec(p) == "yaml"@,
        ext_lower(p) == Some("yml"@) ==> hljs_lang_spec(p) == "yaml"@,
        ext_lower(p) == Some("toml"@) ==> hljs_lang_spec(p) == "toml"@,
{
    if let Some(e) = ext_lower(p) {
        reveal_strlit("bash");
        reveal_strlit("c");
        reveal_strlit("cc");
        reveal_strlit("cjs");
        reveal_strlit("cpp");
        reveal_strlit("cs");
        reveal_strlit("css");
        reveal_strlit("cxx");
        reveal_strlit("fish");
        reveal_strlit("go");
        reveal_strlit("h");
        reveal_strlit("hpp");
        reveal_strlit("htm");
        reveal_strlit("html");
        reveal_strlit("java");
        reveal_strlit("js");
        reveal_strlit("json");
        reveal_strlit("jsx");
        reveal_strlit("kt");
        reveal_strlit("kts");
        reveal_strlit("lua");
        reveal_strlit("markdown");
        reveal_strlit("md");
        reveal_strlit("mjs");
        reveal_strlit("php");
        reveal_strlit("py");
        reveal_strlit("rb");
        reveal_strlit("rs");
        reveal_strlit("sass");
        reveal_strlit("scss");
        reveal_strlit("sh");
        reveal_strlit("sql");
        reveal_strlit("swift");
        reveal_strlit("toml");
        reveal_strlit("ts");
        reveal_strlit("tsx");
        reveal_strlit("xml");
        reveal_strlit("yaml");
        reveal_strlit("yml");
        reveal_strlit("zsh");
        assert("cpp"@ != "md"@) by { assert("cpp"@.len() != "md"@.len()); }
        assert("cpp"@ != "markdown"@) by { assert("cpp"@.len() != "markdown"@.len()); }
        assert("cpp"@ != "rs"@) by { assert("cpp"@.len() != "rs"@.len()); }
        assert("cpp"@ != "js"@) by { assert("cpp"@.len() != "js"@.len()); }
        assert("cpp"@ != "mjs"@) by { assert("cpp"@[0] != "mjs"@[0]); }
        assert("cpp"@ != "cjs"@) by { assert("cpp"@[1] != "cjs"@[1]); }
        assert("cpp"@ != "ts"@) by { assert("cpp"@.len() != "ts"@.len()); }
        assert("cpp"@ != "tsx"@) by { assert("cpp"@[0] != "tsx"@[0]); }
        assert("cpp"@ != "jsx"@) by { assert("cpp"@[0] != "jsx"@[0]); }
        assert("cpp"@ != "py"@) by { assert("cpp"@.len() != "py"@.len()); }
        assert("cpp"@ != "go"@) by { assert("cpp"@.len() != "go"@.len()); }
        assert("cpp"@ != "java"@) by { assert("cpp"@.len() != "java"@.len()); }
        assert("cpp"@ != "c"@) by { assert("cpp"@.len() != "c"@.len()); }
        assert("cpp"@ != "h"@) by { assert("cpp"@.len() != "h"@.len()); }
        assert("cc"@ != "md"@) by { assert("cc"@[0] != "md"@[0]); }
        assert("cc"@ != "markdown"@) by { assert("cc"@.len() != "markdown"@.len()); }
        assert("cc"@ != "rs"@) by { assert("cc"@[0] != "rs"@[0]); }
        assert("cc"@ != "js"@) by { assert("cc"@[0] != "js"@[0]); }
        assert("cc"@ != "mjs"@) by { assert("cc"@.len() != "mjs"@.len()); }
        assert("cc"@ != "cjs"@) by { assert("cc"@.len() != "cjs"@.len()); }
        assert("cc"@ != "ts"@) by { assert("cc"@[0] != "ts"@[0]); }
        assert("cc"@ != "tsx"@) by { assert("cc"@.len() != "tsx"@.len()); }
        assert("cc"@ != "jsx"@) by { assert("cc"@.len() != "jsx"@.len()); }
        assert("cc"@ != "py"@) by { assert("cc"@[0] != "py"@[0]); }
        assert("cc"@ != "go"@) by { assert("cc"@[0] != "go"@[0]); }
        assert("cc"@ != "java"@) by { assert("cc"@.len() != "java"@.len()); }
        assert("cc"@ != "c"@) by { assert("cc"@.len() != "c"@.len()); }
        assert("cc"@ != "h"@) by { assert("cc"@.len() != "h"@.len()); }
        assert("cc"@ != "cpp"@) by { assert("cc"@.len() != "cpp"@.len()); }
        assert("cxx"@ != "md"@) by { assert("cxx"@.len() != "md"@.len()); }
        assert("cxx"@ != "markdown"@) by { assert("cxx"@.len() != "markdown"@.len()); }
        assert("cxx"@ != "rs"@) by { assert("cxx"@.len() != "rs"@.len()); }
        assert("cxx"@ != "js"@) by { assert("cxx"@.len() != "js"@.len()); }
        assert("cxx"@ != "mjs"@) by { assert("cxx"@[0] != "mjs"@[0]); }
        assert("cxx"@ != "cjs"@) by { assert("cxx"@[1] != "cjs"@[1]); }
        assert("cxx"@ != "ts"@) by { assert("cxx"@.len() != "ts"@.len()); }
        assert("cxx"@ != "tsx"@) by { assert("cxx"@[0] != "tsx"@[0]); }
        assert("cxx"@ != "jsx"@) by { assert("cxx"@[0] != "jsx"@[0]); }
        assert("cxx"@ != "py"@) by { assert("cxx"@.len() != "py"@.len()); }
        assert("cxx"@ != "go"@) by { assert("cxx"@.len() != "go"@.len()); }
        assert("cxx"@ != "java"@) by { assert("cxx"@.len() != "java"@.len()); }
        assert("cxx"@ != "c"@) by { assert("cxx"@.len() != "c"@.len()); }
        assert("cxx"@ != "h"@) by { assert("cxx"@.len() != "h"@.len()); }
        assert("cxx"@ != "cpp"@) by { assert("cxx"@[1] != "cpp"@[1]); }
        assert("cxx"@ != "cc"@) by { assert("cxx"@.len() != "cc"@.len()); }
        assert("hpp"@ != "md"@) by { assert("hpp"@.len() != "md"@.len()); }
        assert("hpp"@ != "markdown"@) by { assert("hpp"@.len() != "markdown"@.len()); }
        assert("hpp"@ != "rs"@) by { assert("hpp"@.len() != "rs"@.len()); }
        assert("hpp"@ != "js"@) by { assert("hpp"@.len() != "js"@.len()); }
        assert("hpp"@ != "mjs"@) by { assert("hpp"@[0] != "mjs"@[0]); }
        assert("hpp"@ != "cjs"@) by { assert("hpp"@[0] != "cjs"@[0]); }
        assert("hpp"@ != "ts"@) by { assert("hpp"@.len() != "ts"@.len()); }
        assert("hpp"@ != "tsx"@) by { assert("hpp"@[0] != "tsx"@[0]); }
        assert("hpp"@ != "jsx"@) by { assert("hpp"@[0] != "jsx"@[0]); }
        assert("hpp"@ != "py"@) by { assert("hpp"@.len() != "py"@.len()); }
        assert("hpp"@ != "go"@) by { assert("hpp"@.len() != "go"@.len()); }
        assert("hpp"@ != "java"@) by { assert("hpp"@.len() != "java"@.len()); }
        assert("hpp"@ != "c"@) by { assert("hpp"@.len() != "c"@.len()); }
        assert("hpp"@ != "h"@) by { assert("hpp"@.len() != "h"@.len()); }
        assert("hpp"@ != "cpp"@) by { assert("hpp"@[0] != "cpp"@[0]); }
        assert("hpp"@ != "cc"@) by { assert("hpp"@.len() != "cc"@.len()); }
        assert("hpp"@ != "cxx"@) by { assert("hpp"@[0] != "cxx"@[0]); }
        assert("cs"@ != "md"@) by { assert("cs"@[0] != "md"@[0]); }
        assert("cs"@ != "markdown"@) by { assert("cs"@.len() != "markdown"@.len()); }
        assert("cs"@ != "rs"@) by { assert("cs"@[0] != "rs"@[0]); }
        assert("cs"@ != "js"@) by { assert("cs"@[0] != "js"@[0]); }
        assert("cs"@ != "mjs"@) by { assert("cs"@.len() != "mjs"@.len()); }
        assert("cs"@ != "cjs"@) by { assert("cs"@.len() != "cjs"@.len()); }
        assert("cs"@ != "ts"@) by { assert("cs"@[0] != "ts"@[0]); }
        assert("cs"@ != "tsx"@) by { assert("cs"@.len() != "tsx"@.len()); }
        assert("cs"@ != "jsx"@) by { assert("cs"@.len() != "jsx"@.len()); }
        assert("cs"@ != "py"@) by { assert("cs"@[0] != "py"@[0]); }
        assert("cs"@ != "go"@) by { assert("cs"@[0] != "go"@[0]); }
        assert("cs"@ != "java"@) by { assert("cs"@.len() != "java"@.len()); }
        assert("cs"@ != "c"@) by { assert("cs"@.len() != "c"@.len()); }
        assert("cs"@ != "h"@) by { assert("cs"@.len() != "h"@.len()); }
        assert("cs"@ != "cpp"@) by { assert("cs"@.len() != "cpp"@.len()); }
        assert("cs"@ != "cc"@) by { assert("cs"@[1] != "cc"@[1]); }
        assert("cs"@ != "cxx"@) by { assert("cs"@.len() != "cxx"@.len()); }
        assert("cs"@ != "hpp"@) by { assert("cs"@.len() != "hpp"@.len()); }
        assert("rb"@ != "md"@) by { assert("rb"@[0] != "md"@[0]); }
        assert("rb"@ != "markdown"@) by { assert("rb"@.len() != "markdown"@.len()); }
        assert("rb"@ != "rs"@) by { assert("rb"@[1] != "rs"@[1]); }
        assert("rb"@ != "js"@) by { assert("rb"@[0] != "js"@[0]); }
        assert("rb"@ != "mjs"@) by { assert("rb"@.len() != "mjs"@.len()); }
        assert("rb"@ != "cjs"@) by { assert("rb"@.len() != "cjs"@.len()); }
        assert("rb"@ != "ts"@) by { assert("rb"@[0] != "ts"@[0]); }
        assert("rb"@ != "tsx"@) by { assert("rb"@.len() != "tsx"@.len()); }
        assert("rb"@ != "jsx"@) by { assert("rb"@.len() != "jsx"@.len()); }
        assert("rb"@ != "py"@) by { assert("rb"@[0] != "py"@[0]); }
        assert("rb"@ != "go"@) by { assert("rb"@[0] != "go"@[0]); }
        assert("rb"@ != "java"@) by { assert("rb"@.len() != "java"@.len()); }
        assert("rb"@ != "c"@) by { assert("rb"@.len() != "c"@.len()); }
        assert("rb"@ != "h"@) by { assert("rb"@.len() != "h"@.len()); }
        assert("rb"@ != "cpp"@) by { assert("rb"@.len() != "cpp"@.len()); }
        assert("rb"@ != "cc"@) by { assert("rb"@[0] != "cc"@[0]); }
        assert("rb"@ != "cxx"@) by { assert("rb"@.len() != "cxx"@.len()); }
        assert("rb"@ != "hpp"@) by { assert("rb"@.len() != "hpp"@.len()); }
        assert("rb"@ != "cs"@) by { assert("rb"@[0] != "cs"@[0]); }
        assert("sh"@ != "md"@) by { assert("sh"@[0] != "md"@[0]); }
        assert("sh"@ != "markdown"@) by { assert("sh"@.len() != "markdown"@.len()); }
        assert("sh"@ != "rs"@) by { assert("sh"@[0] != "rs"@[0]); }
        assert("sh"@ != "js"@) by { assert("sh"@[0] != "js"@[0]); }
        assert("sh"@ != "mjs"@) by { assert("sh"@.len() != "mjs"@.len()); }
        assert("sh"@ != "cjs"@) by { assert("sh"@.len() != "cjs"@.len()); }
        assert("sh"@ != "ts"@) by { assert("sh"@[0] != "ts"@[0]); }
        assert("sh"@ != "tsx"@) by { assert("sh"@.len() != "tsx"@.len()); }
        assert("sh"@ != "jsx"@) by { assert("sh"@.len() != "jsx"@.len()); }
        assert("sh"@ != "py"@) by { assert("sh"@[0] != "py"@[0]); }
        assert("sh"@ != "go"@) by { assert("sh"@[0] != "go"@[0]); }
        assert("sh"@ != "java"@) by { assert("sh"@.len() != "java"@.len()); }
        assert("sh"@ != "c"@) by { assert("sh"@.len() != "c"@.len()); }
        assert("sh"@ != "h"@) by { assert("sh"@.len() != "h"@.len()); }
        assert("sh"@ != "cpp"@) by { assert("sh"@.len() != "cpp"@.len()); }
        assert("sh"@ != "cc"@) by { assert("sh"@[0] != "cc"@[0]); }
        assert("sh"@ != "cxx"@) by { assert("sh"@.len() != "cxx"@.len()); }
        assert("sh"@ != "hpp"@) by { assert("sh"@.len() != "hpp"@.len()); }
        assert("sh"@ != "cs"@) by { assert("sh"@[0] != "cs"@[0]); }
        assert("sh"@ != "rb"@) by { assert("sh"@[0] != "rb"@[0]); }
        assert("bash"@ != "md"@) by { assert("bash"@.len() != "md"@.len()); }
        assert("bash"@ != "markdown"@) by { assert("bash"@.len() != "markdown"@.len()); }
        assert("bash"@ != "rs"@) by { assert("bash"@.len() != "rs"@.len()); }
        assert("bash"@ != "js"@) by { assert("bash"@.len() != "js"@.len()); }
        assert("bash"@ != "mjs"@) by { assert("bash"@.len() != "mjs"@.len()); }
        assert("bash"@ != "cjs"@) by { assert("bash"@.len() != "cjs"@.len()); }
        assert("bash"@ != "ts"@) by { assert("bash"@.len() != "ts"@.len()); }
        assert("bash"@ != "tsx"@) by { assert("bash"@.len() != "tsx"@.len()); }
        assert("bash"@ != "jsx"@) by { assert("bash"@.len() != "jsx"@.len()); }
        assert("bash"@ != "py"@) by { assert("bash"@.len() != "py"@.len()); }
        assert("bash"@ != "go"@) by { assert("bash"@.len() != "go"@.len()); }
        assert("bash"@ != "java"@) by { assert("bash"@[0] != "java"@[0]); }
        assert("bash"@ != "c"@) by { assert("bash"@.len() != "c"@.len()); }
        assert("bash"@ != "h"@) by { assert("bash"@.len() != "h"@.len()); }
        assert("bash"@ != "cpp"@) by { assert("bash"@.len() != "cpp"@.len()); }
        assert("bash"@ != "cc"@) by { assert("bash"@.len() != "cc"@.len()); }
        assert("bash"@ != "cxx"@) by { assert("bash"@.len() != "cxx"@.len()); }
        assert("bash"@ != "hpp"@) by { assert("bash"@.len() != "hpp"@.len()); }
        assert("bash"@ != "cs"@) by { assert("bash"@.len() != "cs"@.len()); }
        assert("bash"@ != "rb"@) by { assert("bash"@.len() != "rb"@.len()); }
        assert("bash"@ != "sh"@) by { assert("bash"@.len() != "sh"@.len()); }
        assert("zsh"@ != "md"@) by { assert("zsh"@.len() != "md"@.len()); }
        assert("zsh"@ != "markdown"@) by { assert("zsh"@.len() != "markdown"@.len()); }
        assert("zsh"@ != "rs"@) by { assert("zsh"@.len() != "rs"@.len()); }
        assert("zsh"@ != "js"@) by { assert("zsh"@.len() != "js"@.len()); }
        assert("zsh"@ != "mjs"@) by { assert("zsh"@[0] != "mjs"@[0]); }
        assert("zsh"@ != "cjs"@) by { assert("zsh"@[0] != "cjs"@[0]); }
        assert("zsh"@ != "ts"@) by { assert("zsh"@.len() != "ts"@.len()); }
        assert("zsh"@ != "tsx"@) by { assert("zsh"@[0] != "tsx"@[0]); }
        assert("zsh"@ != "jsx"@) by { assert("zsh"@[0] != "jsx"@[0]); }
        assert("zsh"@ != "py"@) by { assert("zsh"@.len() != "py"@.len()); }
        assert("zsh"@ != "go"@) by { assert("zsh"@.len() != "go"@.len()); }
        assert("zsh"@ != "java"@) by { assert("zsh"@.len() != "java"@.len()); }
        assert("zsh"@ != "c"@) by { assert("zsh"@.len() != "c"@.len()); }
        assert("zsh"@ != "h"@) by { assert("zsh"@.len() != "h"@.len()); }
        assert("zsh"@ != "cpp"@) by { assert("zsh"@[0] != "cpp"@[0]); }
        assert("zsh"@ != "cc"@) by { assert("zsh"@.len() != "cc"@.len()); }
        assert("zsh"@ != "cxx"@) by { assert("zsh"@[0] != "cxx"@[0]); }
        assert("zsh"@ != "hpp"@) by { assert("zsh"@[0] != "hpp"@[0]); }
        assert("zsh"@ != "cs"@) by { assert("zsh"@.len() != "cs"@.len()); }
        assert("zsh"@ != "rb"@) by { assert("zsh"@.len() != "rb"@.len()); }
        assert("zsh"@ != "sh"@) by { assert("zsh"@.len() != "sh"@.len()); }
        assert("zsh"@ != "bash"@) by { assert("zsh"@.len() != "bash"@.len()); }
        assert("fish"@ != "md"@) by { assert("fish"@.len() != "md"@.len()); }
        assert("fish"@ != "markdown"@) by { assert("fish"@.len() != "markdown"@.len()); }
        assert("fish"@ != "rs"@) by { assert("fish"@.len() != "rs"@.len()); }
        assert("fish"@ != "js"@) by { assert("fish"@.len() != "js"@.len()); }
        assert("fish"@ != "mjs"@) by { assert("fish"@.len() != "mjs"@.len()); }
        assert("fish"@ != "cjs"@) by { assert("fish"@.len() != "cjs"@.len()); }
        assert("fish"@ != "ts"@) by { assert("fish"@.len() != "ts"@.len()); }
        assert("fish"@ != "tsx"@) by { assert("fish"@.len() != "tsx"@.len()); }
        assert("fish"@ != "jsx"@) by { assert("fish"@.len() != "jsx"@.len()); }
        assert("fish"@ != "py"@) by { assert("fish"@.len() != "py"@.len()); }
        assert("fish"@ != "go"@) by { assert("fish"@.len() != "go"@.len()); }
        assert("fish"@ != "java"@) by { assert("fish"@[0] != "java"@[0]); }
        assert("fish"@ != "c"@) by { assert("fish"@.len() != "c"@.len()); }
        assert("fish"@ != "h"@) by { assert("fish"@.len() != "h"@.len()); }
        assert("fish"@ != "cpp"@) by { assert("fish"@.len() != "cpp"@.len()); }
        assert("fish"@ != "cc"@) by { assert("fish"@.len() != "cc"@.len()); }
        assert("fish"@ != "cxx"@) by { assert("fish"@.len() != "cxx"@.len()); }
        assert("fish"@ != "hpp"@) by { assert("fish"@.len() != "hpp"@.len()); }
        assert("fish"@ != "cs"@) by { assert("fish"@.len() != "cs"@.len()); }
        assert("fish"@ != "rb"@) by { assert("fish"@.len() != "rb"@.len()); }
        assert("fish"@ != "sh"@) by { assert("fish"@.len() != "sh"@.len()); }
        assert("fish"@ != "bash"@) by { assert("fish"@[0] != "bash"@[0]); }
        assert("fish"@ != "zsh"@) by { assert("fish"@.len() != "zsh"@.len()); }
        assert("json"@ != "md"@) by { assert("json"@.len() != "md"@.len()); }
        assert("json"@ != "markdown"@) by { assert("json"@.len() != "markdown"@.len()); }
        assert("json"@ != "rs"@) by { assert("json"@.len() != "rs"@.len()); }
        assert("json"@ != "js"@) by { assert("json"@.len() != "js"@.len()); }
        assert("json"@ != "mjs"@) by { assert("json"@.len() != "mjs"@.len()); }
        assert("json"@ != "cjs"@) by { assert("json"@.len() != "cjs"@.len()); }
        assert("json"@ != "ts"@) by { assert("json"@.len() != "ts"@.len()); }
        assert("json"@ != "tsx"@) by { assert("json"@.len() != "tsx"@.len()); }
        assert("json"@ != "jsx"@) by { assert("json"@.len() != "jsx"@.len()); }
        assert("json"@ != "py"@) by { assert("json"@.len() != "py"@.len()); }
        assert("json"@ != "go"@) by { assert("json"@.len() != "go"@.len()); }
        assert("json"@ != "java"@) by { assert("json"@[1] != "java"@[1]); }
        assert("json"@ != "c"@) by { assert("json"@.len() != "c"@.len()); }
        assert("json"@ != "h"@) by { assert("json"@.len() != "h"@.len()); }
        assert("json"@ != "cpp"@) by { assert("json"@.len() != "cpp"@.len()); }
        assert("json"@ != "cc"@) by { assert("json"@.len() != "cc"@.len()); }
        assert("json"@ != "cxx"@) by { assert("json"@.len() != "cxx"@.len()); }
        assert("json"@ != "hpp"@) by { assert("json"@.len() != "hpp"@.len()); }
        assert("json"@ != "cs"@) by { assert("json"@.len() != "cs"@.len()); }
        assert("json"@ != "rb"@) by { assert("json"@.len() != "rb"@.len()); }
        assert("json"@ != "sh"@) by { assert("json"@.len() != "sh"@.len()); }
        assert("json"@ != "bash"@) by { assert("json"@[0] != "bash"@[0]); }
        assert("json"@ != "zsh"@) by { assert("json"@.len() != "zsh"@.len()); }
        assert("json"@ != "fish"@) by { assert("json"@[0] != "fish"@[0]); }
        assert("yaml"@ != "md"@) by { assert("yaml"@.len() != "md"@.len()); }
        assert("yaml"@ != "markdown"@) by { assert("yaml"@.len() != "markdown"@.len()); }
        assert("yaml"@ != "rs"@) by { assert("yaml"@.len() != "rs"@.len()); }
        assert("yaml"@ != "js"@) by { assert("yaml"@.len() != "js"@.len()); }
        assert("yaml"@ != "mjs"@) by { assert("yaml"@.len() != "mjs"@.len()); }
        assert("yaml"@ != "cjs"@) by { assert("yaml"@.len() != "cjs"@.len()); }
        assert("yaml"@ != "ts"@) by { assert("yaml"@.len() != "ts"@.len()); }
        assert("yaml"@ != "tsx"@) by { assert("yaml"@.len() != "tsx"@.len()); }
        assert("yaml"@ != "jsx"@) by { assert("yaml"@.len() != "jsx"@.len()); }
        assert("yaml"@ != "py"@) by { assert("yaml"@.len() != "py"@.len()); }
        assert("yaml"@ != "go"@) by { assert("yaml"@.len() != "go"@.len()); }
        assert("yaml"@ != "java"@) by { assert("yaml"@[0] != "java"@[0]); }
        assert("yaml"@ != "c"@) by { assert("yaml"@.len() != "c"@.len()); }
        assert("yaml"@ != "h"@) by { assert("yaml"@.len() != "h"@.len()); }
        assert("yaml"@ != "cpp"@) by { assert("yaml"@.len() != "cpp"@.len()); }
        assert("yaml"@ != "cc"@) by { assert("yaml"@.len() != "cc"@.len()); }
        assert("yaml"@ != "cxx"@) by { assert("yaml"@.len() != "cxx"@.len()); }
        assert("yaml"@ != "hpp"@) by { assert("yaml"@.len() != "hpp"@.len()); }
        assert("yaml"@ != "cs"@) by { assert("yaml"@.len() != "cs"@.len()); }
        assert("yaml"@ != "rb"@) by { assert("yaml"@.len() != "rb"@.len()); }
        assert("yaml"@ != "sh"@) by { assert("yaml"@.len() != "sh"@.len()); }
        assert("yaml"@ != "bash"@) by { assert("yaml"@[0] != "bash"@[0]); }
        assert("yaml"@ != "zsh"@) by { assert("yaml"@.len() != "zsh"@.len()); }
        assert("yaml"@ != "fish"@) by { assert("yaml"@[0] != "fish"@[0]); }
        assert("yaml"@ != "json"@) by { assert("yaml"@[0] != "json"@[0]); }
        assert("yml"@ != "md"@) by { assert("yml"@.len() != "md"@.len()); }
        assert("yml"@ != "markdown"@) by { assert("yml"@.len() != "markdown"@.len()); }
        assert("yml"@ != "rs"@) by { assert("yml"@.len() != "rs"@.len()); }
        assert("yml"@ != "js"@) by { assert("yml"@.len() != "js"@.len()); }
        assert("yml"@ != "mjs"@) by { assert("yml"@[0] != "mjs"@[0]); }
        assert("yml"@ != "cjs"@) by { assert("yml"@[0] != "cjs"@[0]); }
        assert("yml"@ != "ts"@) by { assert("yml"@.len() != "ts"@.len()); }
        assert("yml"@ != "tsx"@) by { assert("yml"@[0] != "tsx"@[0]); }
        assert("yml"@ != "jsx"@) by { assert("yml"@[0] != "jsx"@[0]); }
        assert("yml"@ != "py"@) by { assert("yml"@.len() != "py"@.len()); }
        assert("yml"@ != "go"@) by { assert("yml"@.len() != "go"@.len()); }
        assert("yml"@ != "java"@) by { assert("yml"@.len() != "java"@.len()); }
        assert("yml"@ != "c"@) by { assert("yml"@.len() != "c"@.len()); }
        assert("yml"@ != "h"@) by { assert("yml"@.len() != "h"@.len()); }
        assert("yml"@ != "cpp"@) by { assert("yml"@[0] != "cpp"@[0]); }
        assert("yml"@ != "cc"@) by { assert("yml"@.len() != "cc"@.len()); }
        assert("yml"@ != "cxx"@) by { assert("yml"@[0] != "cxx"@[0]); }
        assert("yml"@ != "hpp"@) by { assert("yml"@[0] != "hpp"@[0]); }
        assert("yml"@ != "cs"@) by { assert("yml"@.len() != "cs"@.len()); }
        assert("yml"@ != "rb"@) by { assert("yml"@.len() != "rb"@.len()); }
        assert("yml"@ != "sh"@) by { assert("yml"@.len() != "sh"@.len()); }
        assert("yml"@ != "bash"@) by { assert("yml"@.len() != "bash"@.len()); }
        assert("yml"@ != "zsh"@) by { assert("yml"@[0] != "zsh"@[0]); }
        assert("yml"@ != "fish"@) by { assert("yml"@.len() != "fish"@.len()); }
        assert("yml"@ != "json"@) by { assert("yml"@.len() != "json"@.len()); }
        assert("yml"@ != "yaml"@) by { assert("yml"@.len() != "yaml"@.len()); }
        assert("toml"@ != "md"@) by { assert("toml"@.len() != "md"@.len()); }
        assert("toml"@ != "markdown"@) by { assert("toml"@.len() != "markdown"@.len()); }
        assert("toml"@ != "rs"@) by { assert("toml"@.len() != "rs"@.len()); }
        assert("toml"@ != "js"@) by { assert("toml"@.len() != "js"@.len()); }
        assert("toml"@ != "mjs"@) by { assert("toml"@.len() != "mjs"@.len()); }
        assert("toml"@ != "cjs"@) by { assert("toml"@.len() != "cjs"@.len()); }
        assert("toml"@ != "ts"@) by { assert("toml"@.len() != "ts"@.len()); }
        assert("toml"@ != "tsx"@) by { assert("toml"@.len() != "tsx"@.len()); }
        assert("toml"@ != "jsx"@) by { assert("toml"@.len() != "jsx"@.len()); }
        assert("toml"@ != "py"@) by { assert("toml"@.len() != "py"@.len()); }
        assert("toml"@ != "go"@) by { assert("toml"@.len() != "go"@.len()); }
        assert("toml"@ != "java"@) by { assert("toml"@[0] != "java"@[0]); }
        assert("toml"@ != "c"@) by { assert("toml"@.len() != "c"@.len()); }
        assert("toml"@ != "h"@) by { assert("toml"@.len() != "h"@.len()); }
        assert("toml"@ != "cpp"@) by { assert("toml"@.len() != "cpp"@.len()); }
        assert("toml"@ != "cc"@) by { assert("toml"@.len() != "cc"@.len()); }
        assert("toml"@ != "cxx"@) by { assert("toml"@.len() != "cxx"@.len()); }
        assert("toml"@ != "hpp"@) by { assert("toml"@.len() != "hpp"@.len()); }
        assert("toml"@ != "cs"@) by { assert("toml"@.len() != "cs"@.len()); }
        assert("toml"@ != "rb"@) by { assert("toml"@.len() != "rb"@.len()); }
        assert("toml"@ != "sh"@) by { assert("toml"@.len() != "sh"@.len()); }
        assert("toml"@ != "bash"@) by { assert("toml"@[0] != "bash"@[0]); }
        assert("toml"@ != "zsh"@) by { assert("toml"@.len() != "zsh"@.len()); }
        assert("toml"@ != "fish"@) by { assert("toml"@[0] != "fish"@[0]); }
        assert("toml"@ != "json"@) by { assert("toml"@[0] != "json"@[0]); }
        assert("toml"@ != "yaml"@) by { assert("toml"@[0] != "yaml"@[0]); }
        assert("toml"@ != "yml"@) by { assert("toml"@.len() != "yml"@.len()); }
    }
}

/// Each source extension the viewer knows is highlighted, in any case, as its own
/// highlight.js language (and labelled with it), never as plain text: here HTML and
/// XML, the style sheets, SQL, Kotlin, Swift, Lua and PHP.
pub proof fn markup_style_and_other_sources_are_highlighted(p: Seq<char>)
    ensures
        ext_lower(p) == Some("html"@) ==> hljs_lang_spec(p) == "xml"@,
        ext_lower(p) == Some("htm"@) ==> hljs_lang_spec(p) == "xml"@,
        ext_lower(p) == Some("xml"@) ==> hljs_lang_spec(p) == "xml"@,
        ext_lower(p) == Some("css"@) ==> hljs_lang_spec(p) == "css"@,
        ext_lower(p) == Some("scss"@) ==> hljs_lang_spec(p) == "scss"@,
        ext_lower(p) == Some("sass"@) ==> hljs_lang_spec(p) == "scss"@,
        ext_lower(p) == Some("sql"@) ==> hljs_lang_spec(p) == "sql"@,
        ext_lower(p) == Some("kt"@) ==> hljs_lang_spec(p) == "kotlin"@,
        ext_lower(p) == Some("kts"@) ==> hljs_lang_spec(p) == "kotlin"@,
        ext_lower(p) == Some("swift"@) ==> hljs_lang_spec(p) == "swift"@,
        ext_lower(p) == Some("lua"@) ==> hljs_lang_spec(p) == "lua"@,
        ext_lower(p) == Some("php"@) ==> hljs_lang_spec(p) == "php"@,
{
    if let Some(e) = ext_lower(p) {
        reveal_strlit("bash");
        reveal_strlit("c");
        reveal_strlit("cc");
        reveal_strlit("cjs");
        reveal_strlit("cpp");
        reveal_strlit("cs");
        reveal_strlit("css");
        reveal_strlit("cxx");
        reveal_strlit("fish");
        reveal_strlit("go");
        reveal_strlit("h");
        reveal_strlit("hpp");
        reveal_strlit("htm");
        reveal_strlit("html");
        reveal_strlit("java");
        reveal_strlit("js");
        reveal_strlit("json");
        reveal_strlit("jsx");
        reveal_strlit("kt");
        reveal_strlit("kts");
        reveal_strlit("lua");
        reveal_strlit("markdown");
        reveal_strlit("md");
        reveal_strlit("mjs");
        reveal_strlit("php");
        reveal_strlit("py");
        reveal_strlit("rb");
        reveal_strlit("rs");
        reveal_strlit("sass");
        reveal_strlit("scss");
        reveal_strlit("sh");
        reveal_strlit("sql");
        reveal_strlit("swift");
        reveal_strlit("toml");
        reveal_strlit("ts");
        reveal_strlit("tsx");
        reveal_strlit("xml");
        reveal_strlit("yaml");
        reveal_strlit("yml");
        reveal_strlit("zsh");
        assert("html"@ != "md"@) by { assert("html"@.len() != "md"@.len()); }
        assert("html"@ != "markdown"@) by { assert("html"@.len() != "markdown"@.len()); }
        assert("html"@ != "rs"@) by { assert("html"@.len() != "rs"@.len()); }
        assert("html"@ != "js"@) by { assert("html"@.len() != "js"@.len()); }
        assert("html"@ != "mjs"@) by { assert("html"@.len() != "mjs"@.len()); }
        assert("html"@ != "cjs"@) by { assert("html"@.len() != "cjs"@.len()); }
        assert("html"@ != "ts"@) by { assert("html"@.len() != "ts"@.len()); }
        assert("html"@ != "tsx"@) by { assert("html"@.len() != "tsx"@.len()); }
        assert("html"@ != "jsx"@) by { assert("html"@.len() != "jsx"@.len()); }
        assert("html"@ != "py"@) by { assert("html"@.len() != "py"@.len()); }
        assert("html"@ != "go"@) by { assert("html"@.len() != "go"@.len()); }
        assert("html"@ != "java"@) by { assert("html"@[0] != "java"@[0]); }
        assert("html"@ != "c"@) by { assert("html"@.len() != "c"@.len()); }
        assert("html"@ != "h"@) by { assert("html"@.len() != "h"@.len()); }
        assert("html"@ != "cpp"@) by { assert("html"@.len() != "cpp"@.len()); }
        assert("html"@ != "cc"@) by { assert("html"@.len() != "cc"@.len()); }
        assert("html"@ != "cxx"@) by { assert("html"@.len() != "cxx"@.len()); }
        assert("html"@ != "hpp"@) by { assert("html"@.len() != "hpp"@.len()); }
        assert("html"@ != "cs"@) by { assert("html"@.len() != "cs"@.len()); }
        assert("html"@ != "rb"@) by { assert("html"@.len() != "rb"@.len()); }
        assert("html"@ != "sh"@) by { assert("html"@.len() != "sh"@.len()); }
        assert("html"@ != "bash"@) by { assert("html"@[0] != "bash"@[0]); }
        assert("html"@ != "zsh"@) by { assert("html"@.len() != "zsh"@.len()); }
        assert("html"@ != "fish"@) by { assert("html"@[0] != "fish"@[0]); }
        assert("html"@ != "json"@) by { assert("html"@[0] != "json"@[0]); }
        assert("html"@ != "yaml"@) by { assert("html"@[0] != "yaml"@[0]); }
        assert("html"@ != "yml"@) by { assert("html"@.len() != "yml"@.len()); }
        assert("html"@ != "toml"@) by { assert("html"@[0] != "toml"@[0]); }
        assert("htm"@ != "md"@) by { assert("htm"@.len() != "md"@.len()); }
        assert("htm"@ != "markdown"@) by { assert("htm"@.len() != "markdown"@.len()); }
        assert("htm"@ != "rs"@) by { assert("htm"@.len() != "rs"@.len()); }
        assert("htm"@ != "js"@) by { assert("htm"@.len() != "js"@.len()); }
        assert("htm"@ != "mjs"@) by { assert("htm"@[0] != "mjs"@[0]); }
        assert("htm"@ != "cjs"@) by { assert("htm"@[0] != "cjs"@[0]); }
        assert("htm"@ != "ts"@) by { assert("htm"@.len() != "ts"@.len()); }
        assert("htm"@ != "tsx"@) by { assert("htm"@[0] != "tsx"@[0]); }
        assert("htm"@ != "jsx"@) by { assert("htm"@[0] != "jsx"@[0]); }
        assert("htm"@ != "py"@) by { assert("htm"@.len() != "py"@.len()); }
        assert("htm"@ != "go"@) by { assert("htm"@.len() != "go"@.len()); }
        assert("htm"@ != "java"@) by { assert("htm"@.len() != "java"@.len()); }
        assert("htm"@ != "c"@) by { assert("htm"@.len() != "c"@.len()); }
        assert("htm"@ != "h"@) by { assert("htm"@.len() != "h"@.len()); }
        assert("htm"@ != "cpp"@) by { assert("htm"@[0] != "cpp"@[0]); }
        assert("htm"@ != "cc"@) by { assert("htm"@.len() != "cc"@.len()); }
        assert("htm"@ != "cxx"@) by { assert("htm"@[0] != "cxx"@[0]); }
        assert("htm"@ != "hpp"@) by { assert("htm"@[1] != "hpp"@[1]); }
        assert("htm"@ != "cs"@) by { assert("htm"@.len() != "cs"@.len()); }
        assert("htm"@ != "rb"@) by { assert("htm"@.len() != "rb"@.len()); }
        assert("htm"@ != "sh"@) by { assert("htm"@.len() != "sh"@.len()); }
        assert("htm"@ != "bash"@) by { assert("htm"@.len() != "bash"@.len()); }
        assert("htm"@ != "zsh"@) by { assert("htm"@[0] != "zsh"@[0]); }
        assert("htm"@ != "fish"@) by { assert("htm"@.len() != "fish"@.len()); }
        assert("htm"@ != "json"@) by { assert("htm"@.len() != "json"@.len()); }
        assert("htm"@ != "yaml"@) by { assert("htm"@.len() != "yaml"@.len()); }
        assert("htm"@ != "yml"@) by { assert("htm"@[0] != "yml"@[0]); }
        assert("htm"@ != "toml"@) by { assert("htm"@.len() != "toml"@.len()); }
        assert("htm"@ != "html"@) by { assert("htm"@.len() != "html"@.len()); }
        assert("xml"@ != "md"@) by { assert("xml"@.len() != "md"@.len()); }
        assert("xml"@ != "markdown"@) by { assert("xml"@.len() != "markdown"@.len()); }
        assert("xml"@ != "rs"@) by { assert("xml"@.len() != "rs"@.len()); }
        assert("xml"@ != "js"@) by { assert("xml"@.len() != "js"@.len()); }
        assert("xml"@ != "mjs"@) by { assert("xml"@[0] != "mjs"@[0]); }
        assert("xml"@ != "cjs"@) by { assert("xml"@[0] != "cjs"@[0]); }
        assert("xml"@ != "ts"@) by { assert("xml"@.len() != "ts"@.len()); }
        assert("xml"@ != "tsx"@) by { assert("xml"@[0] != "tsx"@[0]); }
        assert("xml"@ != "jsx"@) by { assert("xml"@[0] != "jsx"@[0]); }
        assert("xml"@ != "py"@) by { assert("xml"@.len() != "py"@.len()); }
        assert("xml"@ != "go"@) by { assert("xml"@.len() != "go"@.len()); }
        assert("xml"@ != "java"@) by { assert("xml"@.len() != "java"@.len()); }
        assert("xml"@ != "c"@) by { assert("xml"@.len() != "c"@.len()); }
        assert("xml"@ != "h"@) by { assert("xml"@.len() != "h"@.len()); }
        assert("xml"@ != "cpp"@) by { assert("xml"@[0] != "cpp"@[0]); }
        assert("xml"@ != "cc"@) by { assert("xml"@.len() != "cc"@.len()); }
        assert("xml"@ != "cxx"@) by { assert("xml"@[0] != "cxx"@[0]); }
        assert("xml"@ != "hpp"@) by { assert("xml"@[0] != "hpp"@[0]); }
        assert("xml"@ != "cs"@) by { assert("xml"@.len() != "cs"@.len()); }
        assert("xml"@ != "rb"@) by { assert("xml"@.len() != "rb"@.len()); }
        assert("xml"@ != "sh"@) by { assert("xml"@.len() != "sh"@.len()); }
        assert("xml"@ != "bash"@) by { assert("xml"@.len() != "bash"@.len()); }
        assert("xml"@ != "zsh"@) by { assert("xml"@[0] != "zsh"@[0]); }
        assert("xml"@ != "fish"@) by { assert("xml"@.len() != "fish"@.len()); }
        assert("xml"@ != "json"@) by { assert("xml"@.len() != "json"@.len()); }
        assert("xml"@ != "yaml"@) by { assert("xml"@.len() != "yaml"@.len()); }
        assert("xml"@ != "yml"@) by { assert("xml"@[0] != "yml"@[0]); }
        assert("xml"@ != "toml"@) by { assert("xml"@.len() != "toml"@.len()); }
        assert("xml"@ != "html"@) by { assert("xml"@.len() != "html"@.len()); }
        assert("xml"@ != "htm"@) by { assert("xml"@[0] != "htm"@[0]); }
        assert("css"@ != "md"@) by { assert("css"@.len() != "md"@.len()); }
        assert("css"@ != "markdown"@) by { assert("css"@.len() != "markdown"@.len()); }
        assert("css"@ != "rs"@) by { assert("css"@.len() != "rs"@.len()); }
        assert("css"@ != "js"@) by { assert("css"@.len() != "js"@.len()); }
        assert("css"@ != "mjs"@) by { assert("css"@[0] != "mjs"@[0]); }
        assert("css"@ != "cjs"@) by { assert("css"@[1] != "cjs"@[1]); }
        assert("css"@ != "ts"@) by { assert("css"@.len() != "ts"@.len()); }
        assert("css"@ != "tsx"@) by { assert("css"@[0] != "tsx"@[0]); }
        assert("css"@ != "jsx"@) by { assert("css"@[0] != "jsx"@[0]); }
        assert("css"@ != "py"@) by { assert("css"@.len() != "py"@.len()); }
        assert("css"@ != "go"@) by { assert("css"@.len() != "go"@.len()); }
        assert("css"@ != "java"@) by { assert("css"@.len() != "java"@.len()); }
        assert("css"@ != "c"@) by { assert("css"@.len() != "c"@.len()); }
        assert("css"@ != "h"@) by { assert("css"@.len() != "h"@.len()); }
        assert("css"@ != "cpp"@) by { assert("css"@[1] != "cpp"@[1]); }
        assert("css"@ != "cc"@) by { assert("css"@.len() != "cc"@.len()); }
        assert("css"@ != "cxx"@) by { assert("css"@[1] != "cxx"@[1]); }
        assert("css"@ != "hpp"@) by { assert("css"@[0] != "hpp"@[0]); }
        assert("css"@ != "cs"@) by { assert("css"@.len() != "cs"@.len()); }
        assert("css"@ != "rb"@) by { assert("css"@.len() != "rb"@.len()); }
        assert("css"@ != "sh"@) by { assert("css"@.len() != "sh"@.len()); }
        assert("css"@ != "bash"@) by { assert("css"@.len() != "bash"@.len()); }
        assert("css"@ != "zsh"@) by { assert("css"@[0] != "zsh"@[0]); }
        assert("css"@ != "fish"@) by { assert("css"@.len() != "fish"@.len()); }
        assert("css"@ != "json"@) by { assert("css"@.len() != "json"@.len()); }
        assert("css"@ != "yaml"@) by { assert("css"@.len() != "yaml"@.len()); }
        assert("css"@ != "yml"@) by { assert("css"@[0] != "yml"@[0]); }
        assert("css"@ != "toml"@) by { assert("css"@.len() != "toml"@.len()); }
        assert("css"@ != "html"@) by { assert("css"@.len() != "html"@.len()); }
        assert("css"@ != "htm"@) by { assert("css"@[0] != "htm"@[0]); }
        assert("css"@ != "xml"@) by { assert("css"@[0] != "xml"@[0]); }
        assert("scss"@ != "md"@) by { assert("scss"@.len() != "md"@.len()); }
        assert("scss"@ != "markdown"@) by { assert("scss"@.len() != "markdown"@.len()); }
        assert("scss"@ != "rs"@) by { assert("scss"@.len() != "rs"@.len()); }
        assert("scss"@ != "js"@) by { assert("scss"@.len() != "js"@.len()); }
        assert("scss"@ != "mjs"@) by { assert("scss"@.len() != "mjs"@.len()); }
        assert("scss"@ != "cjs"@) by { assert("scss"@.len() != "cjs"@.len()); }
        assert("scss"@ != "ts"@) by { assert("scss"@.len() != "ts"@.len()); }
        assert("scss"@ != "tsx"@) by { assert("scss"@.len() != "tsx"@.len()); }
        assert("scss"@ != "jsx"@) by { assert("scss"@.len() != "jsx"@.len()); }
        assert("scss"@ != "py"@) by { assert("scss"@.len() != "py"@.len()); }
        assert("scss"@ != "go"@) by { assert("scss"@.len() != "go"@.len()); }
        assert("scss"@ != "java"@) by { assert("scss"@[0] != "java"@[0]); }
        assert("scss"@ != "c"@) by { assert("scss"@.len() != "c"@.len()); }
        assert("scss"@ != "h"@) by { assert("scss"@.len() != "h"@.len()); }
        assert("scss"@ != "cpp"@) by { assert("scss"@.len() != "cpp"@.len()); }
        assert("scss"@ != "cc"@) by { assert("scss"@.len() != "cc"@.len()); }
        assert("scss"@ != "cxx"@) by { assert("scss"@.len() != "cxx"@.len()); }
        assert("scss"@ != "hpp"@) by { assert("scss"@.len() != "hpp"@.len()); }
        assert("scss"@ != "cs"@) by { assert("scss"@.len() != "cs"@.len()); }
        assert("scss"@ != "rb"@) by { assert("scss"@.len() != "rb"@.len()); }
        assert("scss"@ != "sh"@) by { assert("scss"@.len() != "sh"@.len()); }
        assert("scss"@ != "bash"@) by { assert("scss"@[0] != "bash"@[0]); }
        assert("scss"@ != "zsh"@) by { assert("scss"@.len() != "zsh"@.len()); }
        assert("scss"@ != "fish"@) by { assert("scss"@[0] != "fish"@[0]); }
        assert("scss"@ != "json"@) by { assert("scss"@[0] != "json"@[0]); }
        assert("scss"@ != "yaml"@) by { assert("scss"@[0] != "yaml"@[0]); }
        assert("scss"@ != "yml"@) by { assert("scss"@.len() != "yml"@.len()); }
        assert("scss"@ != "toml"@) by { assert("scss"@[0] != "toml"@[0]); }
        assert("scss"@ != "html"@) by { assert("scss"@[0] != "html"@[0]); }
        assert("scss"@ != "htm"@) by { assert("scss"@.len() != "htm"@.len()); }
        assert("scss"@ != "xml"@) by { assert("scss"@.len() != "xml"@.len()); }
        assert("scss"@ != "css"@) by { assert("scss"@.len() != "css"@.len()); }
        assert("sass"@ != "md"@) by { assert("sass"@.len() != "md"@.len()); }
        assert("sass"@ != "markdown"@) by { assert("sass"@.len() != "markdown"@.len()); }
        assert("sass"@ != "rs"@) by { assert("sass"@.len() != "rs"@.len()); }
        assert("sass"@ != "js"@) by { assert("sass"@.len() != "js"@.len()); }
        assert("sass"@ != "mjs"@) by { assert("sass"@.len() != "mjs"@.len()); }
        assert("sass"@ != "cjs"@) by { assert("sass"@.len() != "cjs"@.len()); }
        assert("sass"@ != "ts"@) by { assert("sass"@.len() != "ts"@.len()); }
        assert("sass"@ != "tsx"@) by { assert("sass"@.len() != "tsx"@.len()); }
        assert("sass"@ != "jsx"@) by { assert("sass"@.len() != "jsx"@.len()); }
        assert("sass"@ != "py"@) by { assert("sass"@.len() != "py"@.len()); }
        assert("sass"@ != "go"@) by { assert("sass"@.len() != "go"@.len()); }
        assert("sass"@ != "java"@) by { assert("sass"@[0] != "java"@[0]); }
        assert("sass"@ != "c"@) by { assert("sass"@.len() != "c"@.len()); }
        assert("sass"@ != "h"@) by { assert("sass"@.len() != "h"@.len()); }
        assert("sass"@ != "cpp"@) by { assert("sass"@.len() != "cpp"@.len()); }
        assert("sass"@ != "cc"@) by { assert("sass"@.len() != "cc"@.len()); }
        assert("sass"@ != "cxx"@) by { assert("sass"@.len() != "cxx"@.len()); }
        assert("sass"@ != "hpp"@) by { assert("sass"@.len() != "hpp"@.len()); }
        assert("sass"@ != "cs"@) by { assert("sass"@.len() != "cs"@.len()); }
        assert("sass"@ != "rb"@) by { assert("sass"@.len() != "rb"@.len()); }
        assert("sass"@ != "sh"@) by { assert("sass"@.len() != "sh"@.len()); }
        assert("sass"@ != "bash"@) by { assert("sass"@[0] != "bash"@[0]); }
        assert("sass"@ != "zsh"@) by { assert("sass"@.len() != "zsh"@.len()); }
        assert("sass"@ != "fish"@) by { assert("sass"@[0] != "fish"@[0]); }
        assert("sass"@ != "json"@) by { assert("sass"@[0] != "json"@[0]); }
        assert("sass"@ != "yaml"@) by { assert("sass"@[0] != "yaml"@[0]); }
        assert("sass"@ != "yml"@) by { assert("sass"@.len() != "yml"@.len()); }
        assert("sass"@ != "toml"@) by { assert("sass"@[0] != "toml"@[0]); }
        assert("sass"@ != "html"@) by { assert("sass"@[0] != "html"@[0]); }
        assert("sass"@ != "htm"@) by { assert("sass"@.len() != "htm"@.len()); }
        assert("sass"@ != "xml"@) by { assert("sass"@.len() != "xml"@.len()); }
        assert("sass"@ != "css"@) by { assert("sass"@.len() != "css"@.len()); }
        assert("sass"@ != "scss"@) by { assert("sass"@[1] != "scss"@[1]); }
        assert("sql"@ != "md"@) by { assert("sql"@.len() != "md"@.len()); }
        assert("sql"@ != "markdown"@) by { assert("sql"@.len() != "markdown"@.len()); }
        assert("sql"@ != "rs"@) by { assert("sql"@.len() != "rs"@.len()); }
        assert("sql"@ != "js"@) by { assert("sql"@.len() != "js"@.len()); }
        assert("sql"@ != "mjs"@) by { assert("sql"@[0] != "mjs"@[0]); }
        assert("sql"@ != "cjs"@) by { assert("sql"@[0] != "cjs"@[0]); }
        assert("sql"@ != "ts"@) by { assert("sql"@.len() != "ts"@.len()); }
        assert("sql"@ != "tsx"@) by { assert("sql"@[0] != "tsx"@[0]); }
        assert("sql"@ != "jsx"@) by { assert("sql"@[0] != "jsx"@[0]); }
        assert("sql"@ != "py"@) by { assert("sql"@.len() != "py"@.len()); }
        assert("sql"@ != "go"@) by { assert("sql"@.len() != "go"@.len()); }
        assert("sql"@ != "java"@) by { assert("sql"@.len() != "java"@.len()); }
        assert("sql"@ != "c"@) by { assert("sql"@.len() != "c"@.len()); }
        assert("sql"@ != "h"@) by { assert("sql"@.len() != "h"@.len()); }
        assert("sql"@ != "cpp"@) by { assert("sql"@[0] != "cpp"@[0]); }
        assert("sql"@ != "cc"@) by { assert("sql"@.len() != "cc"@.len()); }
        assert("sql"@ != "cxx"@) by { assert("sql"@[0] != "cxx"@[0]); }
        assert("sql"@ != "hpp"@) by { assert("sql"@[0] != "hpp"@[0]); }
        assert("sql"@ != "cs"@) by { assert("sql"@.len() != "cs"@.len()); }
        assert("sql"@ != "rb"@) by { assert("sql"@.len() != "rb"@.len()); }
        assert("sql"@ != "sh"@) by { assert("sql"@.len() != "sh"@.len()); }
        assert("sql"@ != "bash"@) by { assert("sql"@.len() != "bash"@.len()); }
        assert("sql"@ != "zsh"@) by { assert("sql"@[0] != "zsh"@[0]); }
        assert("sql"@ != "fish"@) by { assert("sql"@.len() != "fish"@.len()); }
        assert("sql"@ != "json"@) by { assert("sql"@.len() != "json"@.len()); }
        assert("sql"@ != "yaml"@) by { assert("sql"@.len() != "yaml"@.len()); }
        assert("sql"@ != "yml"@) by { assert("sql"@[0] != "yml"@[0]); }
        assert("sql"@ != "toml"@) by { assert("sql"@.len() != "toml"@.len()); }
        assert("sql"@ != "html"@) by { assert("sql"@.len() != "html"@.len()); }
        assert("sql"@ != "htm"@) by { assert("sql"@[0] != "htm"@[0]); }
        assert("sql"@ != "xml"@) by { assert("sql"@[0] != "xml"@[0]); }
        assert("sql"@ != "css"@) by { assert("sql"@[0] != "css"@[0]); }
        assert("sql"@ != "scss"@) by { assert("sql"@.len() != "scss"@.len()); }
        assert("sql"@ != "sass"@) by { assert("sql"@.len() != "sass"@.len()); }
        assert("kt"@ != "md"@) by { assert("kt"@[0] != "md"@[0]); }
        assert("kt"@ != "markdown"@) by { assert("kt"@.len() != "markdown"@.len()); }
        assert("kt"@ != "rs"@) by { assert("kt"@[0] != "rs"@[0]); }
        assert("kt"@ != "js"@) by { assert("kt"@[0] != "js"@[0]); }
        assert("kt"@ != "mjs"@) by { assert("kt"@.len() != "mjs"@.len()); }
        assert("kt"@ != "cjs"@) by { assert("kt"@.len() != "cjs"@.len()); }
        assert("kt"@ != "ts"@) by { assert("kt"@[0] != "ts"@[0]); }
        assert("kt"@ != "tsx"@) by { assert("kt"@.len() != "tsx"@.len()); }
        assert("kt"@ != "jsx"@) by { assert("kt"@.len() != "jsx"@.len()); }
        assert("kt"@ != "py"@) by { assert("kt"@[0] != "py"@[0]); }
        assert("kt"@ != "go"@) by { assert("kt"@[0] != "go"@[0]); }
        assert("kt"@ != "java"@) by { assert("kt"@.len() != "java"@.len()); }
        assert("kt"@ != "c"@) by { assert("kt"@.len() != "c"@.len()); }
        assert("kt"@ != "h"@) by { assert("kt"@.len() != "h"@.len()); }
        assert("kt"@ != "cpp"@) by { assert("kt"@.len() != "cpp"@.len()); }
        assert("kt"@ != "cc"@) by { assert("kt"@[0] != "cc"@[0]); }
        assert("kt"@ != "cxx"@) by { assert("kt"@.len() != "cxx"@.len()); }
        assert("kt"@ != "hpp"@) by { assert("kt"@.len() != "hpp"@.len()); }
        assert("kt"@ != "cs"@) by { assert("kt"@[0] != "cs"@[0]); }
        assert("kt"@ != "rb"@) by { assert("kt"@[0] != "rb"@[0]); }
        assert("kt"@ != "sh"@) by { assert("kt"@[0] != "sh"@[0]); }
        assert("kt"@ != "bash"@) by { assert("kt"@.len() != "bash"@.len()); }
        assert("kt"@ != "zsh"@) by { assert("kt"@.len() != "zsh"@.len()); }
        assert("kt"@ != "fish"@) by { assert("kt"@.len() != "fish"@.len()); }
        assert("kt"@ != "json"@) by { assert("kt"@.len() != "json"@.len()); }
        assert("kt"@ != "yaml"@) by { assert("kt"@.len() != "yaml"@.len()); }
        assert("kt"@ != "yml"@) by { assert("kt"@.len() != "yml"@.len()); }
        assert("kt"@ != "toml"@) by { assert("kt"@.len() != "toml"@.len()); }
        assert("kt"@ != "html"@) by { assert("kt"@.len() != "html"@.len()); }
        assert("kt"@ != "htm"@) by { assert("kt"@.len() != "htm"@.len()); }
        assert("kt"@ != "xml"@) by { assert("kt"@.len() != "xml"@.len()); }
        assert("kt"@ != "css"@) by { assert("kt"@.len() != "css"@.len()); }
        assert("kt"@ != "scss"@) by { assert("kt"@.len() != "scss"@.len()); }
        assert("kt"@ != "sass"@) by { assert("kt"@.len() != "sass"@.len()); }
        assert("kt"@ != "sql"@) by { assert("kt"@.len() != "sql"@.len()); }
        assert("kts"@ != "md"@) by { assert("kts"@.len() != "md"@.len()); }
        assert("kts"@ != "markdown"@) by { assert("kts"@.len() != "markdown"@.len()); }
        assert("kts"@ != "rs"@) by { assert("kts"@.len() != "rs"@.len()); }
        assert("kts"@ != "js"@) by { assert("kts"@.len() != "js"@.len()); }
        assert("kts"@ != "mjs"@) by { assert("kts"@[0] != "mjs"@[0]); }
        assert("kts"@ != "cjs"@) by { assert("kts"@[0] != "cjs"@[0]); }
        assert("kts"@ != "ts"@) by { assert("kts"@.len() != "ts"@.len()); }
        assert("kts"@ != "tsx"@) by { assert("kts"@[0] != "tsx"@[0]); }
        assert("kts"@ != "jsx"@) by { assert("kts"@[0] != "jsx"@[0]); }
        assert("kts"@ != "py"@) by { assert("kts"@.len() != "py"@.len()); }
        assert("kts"@ != "go"@) by { assert("kts"@.len() != "go"@.len()); }
        assert("kts"@ != "java"@) by { assert("kts"@.len() != "java"@.len()); }
        assert("kts"@ != "c"@) by { assert("kts"@.len() != "c"@.len()); }
        assert("kts"@ != "h"@) by { assert("kts"@.len() != "h"@.len()); }
        assert("kts"@ != "cpp"@) by { assert("kts"@[0] != "cpp"@[0]); }
        assert("kts"@ != "cc"@) by { assert("kts"@.len() != "cc"@.len()); }
        assert("kts"@ != "cxx"@) by { assert("kts"@[0] != "cxx"@[0]); }
        assert("kts"@ != "hpp"@) by { assert("kts"@[0] != "hpp"@[0]); }
        assert("kts"@ != "cs"@) by { assert("kts"@.len() != "cs"@.len()); }
        assert("kts"@ != "rb"@) by { assert("kts"@.len() != "rb"@.len()); }
        assert("kts"@ != "sh"@) by { assert("kts"@.len() != "sh"@.len()); }
        assert("kts"@ != "bash"@) by { assert("kts"@.len() != "bash"@.len()); }
        assert("kts"@ != "zsh"@) by { assert("kts"@[0] != "zsh"@[0]); }
        assert("kts"@ != "fish"@) by { assert("kts"@.len() != "fish"@.len()); }
        assert("kts"@ != "json"@) by { assert("kts"@.len() != "json"@.len()); }
        assert("kts"@ != "yaml"@) by { assert("kts"@.len() != "yaml"@.len()); }
        assert("kts"@ != "yml"@) by { assert("kts"@[0] != "yml"@[0]); }
        assert("kts"@ != "toml"@) by { assert("kts"@.len() != "toml"@.len()); }
        assert("kts"@ != "html"@) by { assert("kts"@.len() != "html"@.len()); }
        assert("kts"@ != "htm"@) by { assert("kts"@[0] != "htm"@[0]); }
        assert("kts"@ != "xml"@) by { assert("kts"@[0] != "xml"@[0]); }
        assert("kts"@ != "css"@) by { assert("kts"@[0] != "css"@[0]); }
        assert("kts"@ != "scss"@) by { assert("kts"@.len() != "scss"@.len()); }
        assert("kts"@ != "sass"@) by { assert("kts"@.len() != "sass"@.len()); }
        assert("kts"@ != "sql"@) by { assert("kts"@[0] != "sql"@[0]); }
        assert("kts"@ != "kt"@) by { assert("kts"@.len() != "kt"@.len()); }
        assert("swift"@ != "md"@) by { assert("swift"@.len() != "md"@.len()); }
        assert("swift"@ != "markdown"@) by { assert("swift"@.len() != "markdown"@.len()); }
        assert("swift"@ != "rs"@) by { assert("swift"@.len() != "rs"@.len()); }
        assert("swift"@ != "js"@) by { assert("swift"@.len() != "js"@.len()); }
        assert("swift"@ != "mjs"@) by { assert("swift"@.len() != "mjs"@.len()); }
        assert("swift"@ != "cjs"@) by { assert("swift"@.len() != "cjs"@.len()); }
        assert("swift"@ != "ts"@) by { assert("swift"@.len() != "ts"@.len()); }
        assert("swift"@ != "tsx"@) by { assert("swift"@.len() != "tsx"@.len()); }
        assert("swift"@ != "jsx"@) by { assert("swift"@.len() != "jsx"@.len()); }
        assert("swift"@ != "py"@) by { assert("swift"@.len() != "py"@.len()); }
        assert("swift"@ != "go"@) by { assert("swift"@.len() != "go"@.len()); }
        assert("swift"@ != "java"@) by { assert("swift"@.len() != "java"@.len()); }
        assert("swift"@ != "c"@) by { assert("swift"@.len() != "c"@.len()); }
        assert("swift"@ != "h"@) by { assert("swift"@.len() != "h"@.len()); }
        assert("swift"@ != "cpp"@) by { assert("swift"@.len() != "cpp"@.len()); }
        assert("swift"@ != "cc"@) by { assert("swift"@.len() != "cc"@.len()); }
        assert("swift"@ != "cxx"@) by { assert("swift"@.len() != "cxx"@.len()); }
        assert("swift"@ != "hpp"@) by { assert("swift"@.len() != "hpp"@.len()); }
        assert("swift"@ != "cs"@) by { assert("swift"@.len() != "cs"@.len()); }
        assert("swift"@ != "rb"@) by { assert("swift"@.len() != "rb"@.len()); }
        assert("swift"@ != "sh"@) by { assert("swift"@.len() != "sh"@.len()); }
        assert("swift"@ != "bash"@) by { assert("swift"@.len() != "bash"@.len()); }
        assert("swift"@ != "zsh"@) by { assert("swift"@.len() != "zsh"@.len()); }
        assert("swift"@ != "fish"@) by { assert("swift"@.len() != "fish"@.len()); }
        assert("swift"@ != "json"@) by { assert("swift"@.len() != "json"@.len()); }
        assert("swift"@ != "yaml"@) by { assert("swift"@.len() != "yaml"@.len()); }
        assert("swift"@ != "yml"@) by { assert("swift"@.len() != "yml"@.len()); }
        assert("swift"@ != "toml"@) by { assert("swift"@.len() != "toml"@.len()); }
        assert("swift"@ != "html"@) by { assert("swift"@.len() != "html"@.len()); }
        assert("swift"@ != "htm"@) by { assert("swift"@.len() != "htm"@.len()); }
        assert("swift"@ != "xml"@) by { assert("swift"@.len() != "xml"@.len()); }
        assert("swift"@ != "css"@) by { assert("swift"@.len() != "css"@.len()); }
        assert("swift"@ != "scss"@) by { assert("swift"@.len() != "scss"@.len()); }
        assert("swift"@ != "sass"@) by { assert("swift"@.len() != "sass"@.len()); }
        assert("swift"@ != "sql"@) by { assert("swift"@.len() != "sql"@.len()); }
        assert("swift"@ != "kt"@) by { assert("swift"@.len() != "kt"@.len()); }
        assert("swift"@ != "kts"@) by { assert("swift"@.len() != "kts"@.len()); }
        assert("lua"@ != "md"@) by { assert("lua"@.len() != "md"@.len()); }
        assert("lua"@ != "markdown"@) by { assert("lua"@.len() != "markdown"@.len()); }
        assert("lua"@ != "rs"@) by { assert("lua"@.len() != "rs"@.len()); }
        assert("lua"@ != "js"@) by { assert("lua"@.len() != "js"@.len()); }
        assert("lua"@ != "mjs"@) by { assert("lua"@[0] != "mjs"@[0]); }
        assert("lua"@ != "cjs"@) by { assert("lua"@[0] != "cjs"@[0]); }
        assert("lua"@ != "ts"@) by { assert("lua"@.len() != "ts"@.len()); }
        assert("lua"@ != "tsx"@) by { assert("lua"@[0] != "tsx"@[0]); }
        assert("lua"@ != "jsx"@) by { assert("lua"@[0] != "jsx"@[0]); }
        assert("lua"@ != "py"@) by { assert("lua"@.len() != "py"@.len()); }
        assert("lua"@ != "go"@) by { assert("lua"@.len() != "go"@.len()); }
        assert("lua"@ != "java"@) by { assert("lua"@.len() != "java"@.len()); }
        assert("lua"@ != "c"@) by { assert("lua"@.len() != "c"@.len()); }
        assert("lua"@ != "h"@) by { assert("lua"@.len() != "h"@.len()); }
        assert("lua"@ != "cpp"@) by { assert("lua"@[0] != "cpp"@[0]); }
        assert("lua"@ != "cc"@) by { assert("lua"@.len() != "cc"@.len()); }
        assert("lua"@ != "cxx"@) by { assert("lua"@[0] != "cxx"@[0]); }
        assert("lua"@ != "hpp"@) by { assert("lua"@[0] != "hpp"@[0]); }
        assert("lua"@ != "cs"@) by { assert("lua"@.len() != "cs"@.len()); }
        assert("lua"@ != "rb"@) by { assert("lua"@.len() != "rb"@.len()); }
        assert("lua"@ != "sh"@) by { assert("lua"@.len() != "sh"@.len()); }
        assert("lua"@ != "bash"@) by { assert("lua"@.len() != "bash"@.len()); }
        assert("lua"@ != "zsh"@) by { assert("lua"@[0] != "zsh"@[0]); }
        assert("lua"@ != "fish"@) by { assert("lua"@.len() != "fish"@.len()); }
        assert("lua"@ != "json"@) by { assert("lua"@.len() != "json"@.len()); }
        assert("lua"@ != "yaml"@) by { assert("lua"@.len() != "yaml"@.len()); }
        assert("lua"@ != "yml"@) by { assert("lua"@[0] != "yml"@[0]); }
        assert("lua"@ != "toml"@) by { assert("lua"@.len() != "toml"@.len()); }
        assert("lua"@ != "html"@) by { assert("lua"@.len() != "html"@.len()); }
        assert("lua"@ != "htm"@) by { assert("lua"@[0] != "htm"@[0]); }
        assert("lua"@ != "xml"@) by { assert("lua"@[0] != "xml"@[0]); }
        assert("lua"@ != "css"@) by { assert("lua"@[0] != "css"@[0]); }
        assert("lua"@ != "scss"@) by { assert("lua"@.len() != "scss"@.len()); }
        assert("lua"@ != "sass"@) by { assert("lua"@.len() != "sass"@.len()); }
        assert("lua"@ != "sql"@) by { assert("lua"@[0] != "sql"@[0]); }
        assert("lua"@ != "kt"@) by { assert("lua"@.len() != "kt"@.len()); }
        assert("lua"@ != "kts"@) by { assert("lua"@[0] != "kts"@[0]); }
        assert("lua"@ != "swift"@) by { assert("lua"@.len() != "swift"@.len()); }
        assert("php"@ != "md"@) by { assert("php"@.len() != "md"@.len()); }
        assert("php"@ != "markdown"@) by { assert("php"@.len() != "markdown"@.len()); }
        assert("php"@ != "rs"@) by { assert("php"@.len() != "rs"@.len()); }
        assert("php"@ != "js"@) by { assert("php"@.len() != "js"@.len()); }
        assert("php"@ != "mjs"@) by { assert("php"@[0] != "mjs"@[0]); }
        assert("php"@ != "cjs"@) by { assert("php"@[0] != "cjs"@[0]); }
        assert("php"@ != "ts"@) by { assert("php"@.len() != "ts"@.len()); }
        assert("php"@ != "tsx"@) by { assert("php"@[0] != "tsx"@[0]); }
        assert("php"@ != "jsx"@) by { assert("php"@[0] != "jsx"@[0]); }
        assert("php"@ != "py"@) by { assert("php"@.len() != "py"@.len()); }
        assert("php"@ != "go"@) by { assert("php"@.len() != "go"@.len()); }
        assert("php"@ != "java"@) by { assert("php"@.len() != "java"@.len()); }
        assert("php"@ != "c"@) by { assert("php"@.len() != "c"@.len()); }
        assert("php"@ != "h"@) by { assert("php"@.len() != "h"@.len()); }
        assert("php"@ != "cpp"@) by { assert("php"@[0] != "cpp"@[0]); }
        assert("php"@ != "cc"@) by { assert("php"@.len() != "cc"@.len()); }
        assert("php"@ != "cxx"@) by { assert("php"@[0] != "cxx"@[0]); }
        assert("php"@ != "hpp"@) by { assert("php"@[0] != "hpp"@[0]); }
        assert("php"@ != "cs"@) by { assert("php"@.len() != "cs"@.len()); }
        assert("php"@ != "rb"@) by { assert("php"@.len() != "rb"@.len()); }
        assert("php"@ != "sh"@) by { assert("php"@.len() != "sh"@.len()); }
        assert("php"@ != "bash"@) by { assert("php"@.len() != "bash"@.len()); }
        assert("php"@ != "zsh"@) by { assert("php"@[0] != "zsh"@[0]); }
        assert("php"@ != "fish"@) by { assert("php"@.len() != "fish"@.len()); }
        assert("php"@ != "json"@) by { assert("php"@.len() != "json"@.len()); }
        assert("php"@ != "yaml"@) by { assert("php"@.len() != "yaml"@.len()); }
        assert("php"@ != "yml"@) by { assert("php"@[0] != "yml"@[0]); }
        assert("php"@ != "toml"@) by { assert("php"@.len() != "toml"@.len()); }
        assert("php"@ != "html"@) by { assert("php"@.len() != "html"@.len()); }
        assert("php"@ != "htm"@) by { assert("php"@[0] != "htm"@[0]); }
        assert("php"@ != "xml"@) by { assert("php"@[0] != "xml"@[0]); }
        assert("php"@ != "css"@) by { assert("php"@[0] != "css"@[0]); }
        assert("php"@ != "scss"@) by { assert("php"@.len() != "scss"@.len()); }
        assert("php"@ != "sass"@) by { assert("php"@.len() != "sass"@.len()); }
        assert("php"@ != "sql"@) by { assert("php"@[0] != "sql"@[0]); }
        assert("php"@ != "kt"@) by { assert("php"@.len() != "kt"@.len()); }
        assert("php"@ != "kts"@) by { assert("php"@[0] != "kts"@[0]); }
        assert("php"@ != "swift"@) by { assert("php"@.len() != "swift"@.len()); }
        assert("php"@ != "lua"@) by { assert("php"@[0] != "lua"@[0]); }
    }
}

// ── what a file is shown as ─────────────────────────────────────────────────

/// How a file is shown; the extension and the content alone decide it.
#[derive(Clone, Copy, PartialEq, Eq, Debug, Structural)]
pub enum ViewKind {
    /// Rendered as Markdown.
    Markdown,
    /// Drawn in an iframe.
    HtmlPage,
    /// Shown as source with line numbers.
    Source,
    /// Not UTF-8: only a notice is shown.
    Binary,
}

/// The extensions whose normal view is a rendering rather than the source.
pub const RENDERABLE_EXT: [&'static str; 4] = ["md", "markdown", "html", "htm"];

/// The kind of a file by its extension alone, case-insensitively (never `Binary`).
pub open spec fn classify_spec(path: Seq<char>) -> ViewKind {
    match ext_lower(path) {
        Some(e) => if e == "md"@ || e == "markdown"@ {
            ViewKind::Markdown
        } else if e == "html"@ || e == "htm"@ {
            ViewKind::HtmlPage
        } else {
            ViewKind::Source
        },
        None => ViewKind::Source,
    }
}

/// Renders [`classify_spec`].
pub fn classify_ext(path: &str) -> (r: ViewKind)
    ensures
        r == classify_spec(path@),
{
    match ext_lower_of(path) {
        Some(e) => if chars_eq_str(e.as_slice(), "md") || chars_eq_str(e.as_slice(), "markdown") {
            ViewKind::Markdown
        } else if chars_eq_str(e.as_slice(), "html") || chars_eq_str(e.as_slice(), "htm") {
            ViewKind::HtmlPage
        } else {
            ViewKind::Source
        },
        None => ViewKind::Source,
    }
}

/// Whether the normal view of `path` is a rendering (Markdown or an HTML page).
pub fn is_renderable(path: &str) -> (r: bool)
    ensures
        r == (classify_spec(path@) == ViewKind::Markdown || classify_spec(path@) == ViewKind::HtmlPage),
{
    match classify_ext(path) {
        ViewKind::Markdown | ViewKind::HtmlPage => true,
        _ => false,
    }
}

/// How to show a file: as its extension says, or always as source (the raw toggle).
#[derive(Clone, Copy, PartialEq, Eq, Debug, Structural)]
pub enum ViewMode {
    Normal,
    RawSource,
}

/// A shown file: its kind, the HTML of its content (without the `.markdown-body`
/// wrapper), and the class added to that wrapper.
pub struct RenderedFile {
    pub kind: ViewKind,
    pub html: String,
    pub body_class: &'static str,
}

/// A notice paragraph, for files that cannot be shown.
pub open spec fn notice_spec(msg: Seq<char>) -> Seq<char> {
    "<p class=\"md-notice\">"@ + html_escape_spec(msg) + "</p>"@
}

/// Renders [`notice_spec`].
pub fn notice_html(msg: &str) -> (r: String)
    ensures
        r@ == notice_spec(msg@),
{
    let mut r = String::new();
    push_str(&mut r, "<p class=\"md-notice\">");
    push_html_escaped(&mut r, chars_of(msg).as_slice());
    push_str(&mut r, "</p>");
    r
}

/// The notice for a file that is not UTF-8, naming it (`file` when it has no name).
pub open spec fn binary_notice_spec(path: Seq<char>) -> Seq<char> {
    notice_spec("バイナリファイルは表示できません: "@ + match file_name(path) {
        Some(n) => n,
        None => "file"@,
    })
}

/// Renders [`binary_notice_spec`].
pub fn binary_notice(path: &str) -> (r: String)
    ensures
        r@ == binary_notice_spec(path@),
{
    let mut m = String::new();
    push_str(&mut m, "バイナリファイルは表示できません: ");
    match file_name_of(path) {
        Some(n) => crate::text::push_chars(&mut m, n.as_slice()),
        None => push_str(&mut m, "file"),
    }
    notice_html(m.as_str())
}

/// The iframe that draws an HTML file from `url`, with `title`; both escaped for an
/// attribute.
pub open spec fn iframe_spec(url: Seq<char>, title: Seq<char>) -> Seq<char> {
    "<iframe class=\"html-frame\" src=\""@ + attr_escape_spec(url) + "\" title=\""@ + attr_escape_spec(title)
        + "\" referrerpolicy=\"no-referrer\"></iframe>"@
}

/// Renders [`iframe_spec`].
pub fn render_html_iframe(url: &str, title: &str) -> (r: String)
    ensures
        r@ == iframe_spec(url@, title@),
{
    let mut r = String::new();
    push_str(&mut r, "<iframe class=\"html-frame\" src=\"");
    push_attr_escaped(&mut r, chars_of(url).as_slice());
    push_str(&mut r, "\" title=\"");
    push_attr_escaped(&mut r, chars_of(title).as_slice());
    push_str(&mut r, "\" referrerpolicy=\"no-referrer\"></iframe>");
    r
}

/// Sources larger than this many bytes are not highlighted.
pub const HIGHLIGHT_MAX_BYTES: usize = 1000000;

/// Sources with more line breaks than this are not highlighted.
pub const HIGHLIGHT_MAX_LINES: usize = 10000;

/// The name of a highlight.js language as shown in the title bar: a fixed spelling for
/// the abbreviations, else the language with its first letter upper-cased.
pub open spec fn lang_label_spec(l: Seq<char>) -> Seq<char> {
    if l == "plaintext"@ {
        "Text"@
    } else if l == "cpp"@ {
        "C++"@
    } else if l == "csharp"@ {
        "C#"@
    } else if l == "javascript"@ {
        "JavaScript"@
    } else if l == "typescript"@ {
        "TypeScript"@
    } else if l == "xml"@ {
        "XML"@
    } else if l == "css"@ {
        "CSS"@
    } else if l == "scss"@ {
        "SCSS"@
    } else if l == "sql"@ {
        "SQL"@
    } else if l == "json"@ {
        "JSON"@
    } else if l == "yaml"@ {
        "YAML"@
    } else if l == "toml"@ {
        "TOML"@
    } else if l == "php"@ {
        "PHP"@
    } else if l.len() == 0 {
        seq![]
    } else {
        seq![upper_char(l[0])] + l.drop_first()
    }
}

/// ASCII upper case of one character.
pub open spec fn upper_char(c: char) -> char {
    if 'a' <= c && c <= 'z' {
        ((c as u32) - 32) as char
    } else {
        c
    }
}

fn lang_label(l: &str) -> (r: String)
    ensures
        r@ == lang_label_spec(l@),
{
    let v = chars_of(l);
    if chars_eq_str(v.as_slice(), "plaintext") { return string_of(chars_of("Text").as_slice()); }
    if chars_eq_str(v.as_slice(), "cpp") { return string_of(chars_of("C++").as_slice()); }
    if chars_eq_str(v.as_slice(), "csharp") { return string_of(chars_of("C#").as_slice()); }
    if chars_eq_str(v.as_slice(), "javascript") { return string_of(chars_of("JavaScript").as_slice()); }
    if chars_eq_str(v.as_slice(), "typescript") { return string_of(chars_of("TypeScript").as_slice()); }
    if chars_eq_str(v.as_slice(), "xml") { return string_of(chars_of("XML").as_slice()); }
    if chars_eq_str(v.as_slice(), "css") { return string_of(chars_of("CSS").as_slice()); }
    if chars_eq_str(v.as_slice(), "scss") { return string_of(chars_of("SCSS").as_slice()); }
    if chars_eq_str(v.as_slice(), "sql") { return string_of(chars_of("SQL").as_slice()); }
    if chars_eq_str(v.as_slice(), "json") { return string_of(chars_of("JSON").as_slice()); }
    if chars_eq_str(v.as_slice(), "yaml") { return string_of(chars_of("YAML").as_slice()); }
    if chars_eq_str(v.as_slice(), "toml") { return string_of(chars_of("TOML").as_slice()); }
    if chars_eq_str(v.as_slice(), "php") { return string_of(chars_of("PHP").as_slice()); }
    if v.len() == 0 {
        return String::new();
    }
    let c = v[0];
    let u = if 'a' <= c && c <= 'z' {
        let x = (c as u8) - 32;
        x as char
    } else {
        c
    };
    let mut r = String::new();
    crate::text::push_char(&mut r, u);
    crate::text::push_chars(&mut r, vstd::slice::slice_subrange(v.as_slice(), 1, v.len()));
    assert(r@ =~= lang_label_spec(l@));
    r
}


/// Whether a source is too large to highlight.
pub open spec fn too_big_spec(content: Seq<char>) -> bool {
    encode_utf8(content).len() > HIGHLIGHT_MAX_BYTES || newlines(encode_utf8(content)) > HIGHLIGHT_MAX_LINES
}

/// The source view of `content` from `path`: a bar with the file name and the language
/// (noting when the file is too large to highlight), then the escaped code, highlighted
/// unless too large.
pub open spec fn source_view_spec(path: Seq<char>, content: Seq<char>) -> Seq<char> {
    let lang = hljs_lang_spec(path);
    let fname = match file_name(path) {
        Some(n) => n,
        None => seq![],
    };
    let big = too_big_spec(content);
    let code_class = if big { "nohighlight"@ } else { "language-"@ + lang };
    let label = if big { lang_label_spec(lang) + " · 大ファイルのためハイライト無効"@ } else { lang_label_spec(lang) };
    "<div class=\"source-view\"><div class=\"source-titlebar\"><span class=\"source-fname\">"@ + html_escape_spec(fname)
        + "</span><span class=\"source-lang\">"@ + html_escape_spec(label)
        + "</span></div><div class=\"source-main\"><pre><code class=\""@ + code_class + "\">"@ + html_escape_spec(content)
        + "</code></pre></div></div>"@
}

/// Renders [`source_view_spec`].
pub fn source_view_html(path: &str, content: &str) -> (r: String)
    ensures
        r@ == source_view_spec(path@, content@),
{
    let lang = extension_to_hljs_lang(path);
    let bytes = content.as_bytes();
    let mut n: usize = 0;
    let mut i: usize = 0;
    assert(bytes@.take(0) =~= Seq::<u8>::empty());
    while i < bytes.len()
        invariant
            i <= bytes@.len(),
            n <= i,
            n == newlines(bytes@.take(i as int)),
        decreases bytes@.len() - i,
    {
        assert(bytes@.take(i + 1).drop_last() =~= bytes@.take(i as int));
        if bytes[i] == 10u8 {
            n = n + 1;
        }
        i = i + 1;
    }
    assert(bytes@.take(i as int) =~= bytes@);
    let big = bytes.len() > HIGHLIGHT_MAX_BYTES || n > HIGHLIGHT_MAX_LINES;
    let mut label = lang_label(lang);
    if big {
        push_str(&mut label, " · 大ファイルのためハイライト無効");
    }
    let mut r = String::new();
    push_str(&mut r, "<div class=\"source-view\"><div class=\"source-titlebar\"><span class=\"source-fname\">");
    match file_name_of(path) {
        Some(nm) => push_html_escaped(&mut r, nm.as_slice()),
        None => {},
    }
    push_str(&mut r, "</span><span class=\"source-lang\">");
    push_html_escaped(&mut r, chars_of(label.as_str()).as_slice());
    push_str(&mut r, "</span></div><div class=\"source-main\"><pre><code class=\"");
    if big {
        push_str(&mut r, "nohighlight");
    } else {
        push_str(&mut r, "language-");
        push_str(&mut r, lang);
    }
    push_str(&mut r, "\">");
    push_html_escaped(&mut r, chars_of(content).as_slice());
    push_str(&mut r, "</code></pre></div></div>");
    proof {
        if file_name(path@) is None {
            assert(html_escape_spec(Seq::<char>::empty()) =~= Seq::<char>::empty());
        }
    }
    assert(r@ =~= source_view_spec(path@, content@));
    r
}

// ── paths under the root ────────────────────────────────────────────────────

/// Whether `rel` has a `..` component.
pub open spec fn has_parent_comp(rel: Seq<char>) -> bool {
    exists|k: int| 0 <= k < crate::paths::comps(rel).len() && crate::paths::comps(rel)[k] is Parent
}

fn parent_comp(rel: &str) -> (r: bool)
    ensures
        r == has_parent_comp(rel@),
{
    let cs = crate::paths::comps_of(rel);
    let ghost cv = crate::paths::comps_view(cs@);
    let mut k: usize = 0;
    while k < cs.len()
        invariant
            k <= cs@.len(),
            cv == crate::paths::comps_view(cs@),
            cv == crate::paths::comps(rel@),
            forall|q: int| 0 <= q < k ==> !(cv[q] is Parent),
        decreases cs@.len() - k,
    {
        assert(cv[k as int] == crate::paths::comp_view(cs@[k as int]));
        match cs[k] {
            crate::paths::PathComp::Parent => return true,
            _ => {},
        }
        k = k + 1;
    }
    false
}

/// The path to resolve for `rel` under the root: none when `rel` climbs with `..`.
pub open spec fn join_candidate_spec(root: Seq<char>, rel: Seq<char>) -> Option<Seq<char>> {
    if has_parent_comp(rel) { None } else { Some(crate::paths::join_spec(root, rel)) }
}

/// Renders [`join_candidate_spec`]; the caller resolves the result to a real path.
pub fn join_candidate(canonical_root: &str, rel: &str) -> (r: Option<String>)
    ensures
        match join_candidate_spec(canonical_root@, rel@) {
            Some(p) => r matches Some(x) && x@ == p,
            None => r is None,
        },
{
    if parent_comp(rel) {
        None
    } else {
        Some(crate::paths::join(canonical_root, rel))
    }
}

/// Whether the components of `base` start those of `p` (`Path::starts_with`).
pub open spec fn path_starts_with(p: Seq<char>, base: Seq<char>) -> bool {
    crate::paths::strip_prefix_spec(p, base) is Some
}

/// A file under the root for `rel`: refused when `rel` climbs with `..`, when
/// `canonical` (the real path the candidate resolved to, none if it did not) is missing,
/// or when it lies outside the root.
pub open spec fn safe_join_spec(canonical_root: Seq<char>, rel: Seq<char>, canonical: Option<Seq<char>>) -> Option<Seq<char>> {
    if has_parent_comp(rel) {
        None
    } else {
        match canonical {
            Some(c) => if path_starts_with(c, canonical_root) { Some(c) } else { None },
            None => None,
        }
    }
}

/// Renders [`safe_join_spec`].
pub fn safe_join(canonical_root: &str, rel: &str, canonical: Option<&str>) -> (r: Option<String>)
    ensures
        match safe_join_spec(canonical_root@, rel@, match canonical { Some(c) => Some(c@), None => None }) {
            Some(p) => r matches Some(x) && x@ == p,
            None => r is None,
        },
{
    if parent_comp(rel) {
        return None;
    }
    match canonical {
        Some(c) => match crate::paths::strip_prefix(c, canonical_root) {
            Some(_) => Some(string_of(chars_of(c).as_slice())),
            None => None,
        },
        None => None,
    }
}

/// A file served for a relative path lies under the root: `safe_join` never answers with a
/// path outside it, nor for a path that climbs with `..`.
pub proof fn safe_join_stays_under_the_root(canonical_root: Seq<char>, rel: Seq<char>, canonical: Option<Seq<char>>)
    ensures
        safe_join_spec(canonical_root, rel, canonical) matches Some(p) ==> path_starts_with(p, canonical_root)
            && !has_parent_comp(rel),
{
}

/// The path to resolve for an identifier: itself when absolute, else under the root.
pub open spec fn id_candidate_spec(root: Seq<char>, id: Seq<char>) -> Option<Seq<char>> {
    if id.len() > 0 && id[0] == '/' { Some(id) } else { join_candidate_spec(root, id) }
}

/// Renders [`id_candidate_spec`]; the caller resolves the result to a real path.
pub fn id_candidate(root: &str, id: &str) -> (r: Option<String>)
    ensures
        match id_candidate_spec(root@, id@) {
            Some(p) => r matches Some(x) && x@ == p,
            None => r is None,
        },
{
    let v = chars_of(id);
    if v.len() > 0 && v[0] == '/' {
        Some(string_of(v.as_slice()))
    } else {
        join_candidate(root, id)
    }
}

/// The file an identifier names: an absolute identifier is opened wherever it is (as
/// resolved); a relative one only under the root ([`safe_join_spec`]).
pub open spec fn id_to_path_spec(root: Seq<char>, id: Seq<char>, canonical: Option<Seq<char>>) -> Option<Seq<char>> {
    if id.len() > 0 && id[0] == '/' { canonical } else { safe_join_spec(root, id, canonical) }
}

/// Renders [`id_to_path_spec`].
pub fn id_to_path(root: &str, id: &str, canonical: Option<&str>) -> (r: Option<String>)
    ensures
        match id_to_path_spec(root@, id@, match canonical { Some(c) => Some(c@), None => None }) {
            Some(p) => r matches Some(x) && x@ == p,
            None => r is None,
        },
{
    let v = chars_of(id);
    if v.len() > 0 && v[0] == '/' {
        match canonical {
            Some(c) => Some(string_of(chars_of(c).as_slice())),
            None => None,
        }
    } else {
        safe_join(root, id, canonical)
    }
}


// ── rendering one file ──────────────────────────────────────────────────────

/// What [`render_file`] gives: kind, HTML and body class.
pub open spec fn render_file_spec(path: Seq<char>, root: Seq<char>, mode: ViewMode, contents: Option<Seq<u8>>, files: Option<Seq<crate::embed::EmbedFileView>>) -> Option<(ViewKind, Seq<char>, Seq<char>)> {
    let kind = match mode {
        ViewMode::RawSource => ViewKind::Source,
        ViewMode::Normal => classify_spec(path),
    };
    if kind == ViewKind::HtmlPage {
        Some((kind, iframe_spec(crate::urlpath::asset_url_spec(root, path), path), "html-page"@))
    } else {
        match contents {
            None => None,
            Some(b) => if !valid_utf8(b) {
                Some((ViewKind::Binary, binary_notice_spec(path), "source-page"@))
            } else {
                let text = decode_utf8(b);
                if kind == ViewKind::Markdown {
                    let (pairs, body) = crate::page::frontmatter_spec(text);
                    let offset = crate::page::body_offset_spec(text, body);
                    let dir = match crate::app_config::parent_text(path) {
                        Some(d) => d,
                        None => root,
                    };
                    Some((kind, crate::page::frontmatter_html_spec(pairs, offset)
                        + crate::markdown::md_html(body, crate::markdown::body_plan(body, files, offset as int, Some((dir, root)))), ""@))
                } else {
                    Some((ViewKind::Source, source_view_spec(path, text), "source-page"@))
                }
            },
        }
    }
}

/// The content of a file: an HTML page is drawn in an iframe without reading it; other
/// files need `contents` (the bytes, none when they could not be read): a notice for
/// bytes that are not UTF-8, Markdown rendered after its front matter (with embeds from
/// `files`), anything else as source. `path` and `root` are real paths.
pub fn render_file(path: &str, root: &str, mode: ViewMode, contents: Option<&[u8]>, files: Option<&Vec<crate::embed::EmbedFile>>) -> (r: Option<RenderedFile>)
    ensures
        match render_file_spec(path@, root@, mode, match contents { Some(b) => Some(b@), None => None }, crate::markdown::opt_files_view(files)) {
            Some((k, h, c)) => r matches Some(x) && x.kind == k && x.html@ == h && x.body_class@ == c,
            None => r is None,
        },
{
    if let Some(b) = contents {
        let _len = crate::text::byte_len(b);
    }
    let kind = match mode {
        ViewMode::RawSource => ViewKind::Source,
        ViewMode::Normal => classify_ext(path),
    };
    if kind == ViewKind::HtmlPage {
        let url = crate::urlpath::asset_url(root, path);
        return Some(RenderedFile { kind, html: render_html_iframe(url.as_str(), path), body_class: "html-page" });
    }
    let bytes = match contents {
        None => return None,
        Some(b) => b,
    };
    let text = match crate::text::str_from_utf8(bytes) {
        None => return Some(RenderedFile { kind: ViewKind::Binary, html: binary_notice(path), body_class: "source-page" }),
        Some(t) => t,
    };
    proof {
        encode_utf8_decode_utf8(text@);
    }
    if kind == ViewKind::Markdown {
        let (pairs, body) = crate::page::parse_frontmatter(text);
        let offset = crate::page::body_line_offset(text, body.as_str());
        proof {
            crate::page::lemma_body_is_tail(text@);
            let k = choose|k: int| 0 <= k <= text@.len() && crate::page::frontmatter_spec(text@).1 == #[trigger] text@.subrange(k, text@.len() as int);
            crate::page::lemma_encode_suffix_len(text@, k);
            let b = encode_utf8(text@);
            let skipped = b.len() - encode_utf8(body@).len();
            crate::markdown::lemma_newlines_le(b.take(skipped));
        }
        let fm = crate::page::render_frontmatter_html(pairs.as_slice(), offset);
        let dir = match crate::paths::parent_path(path) {
            Some(d) => d,
            None => string_of(chars_of(root).as_slice()),
        };
        let doc_base = crate::urlpath::DocBase::new(dir.as_str(), root);
        let inner = crate::markdown::render_body_in(body.as_str(), files, offset, Some(&doc_base));
        let mut html = String::new();
        push_str(&mut html, fm.as_str());
        push_str(&mut html, inner.as_str());
        Some(RenderedFile { kind, html, body_class: "" })
    } else {
        Some(RenderedFile { kind: ViewKind::Source, html: source_view_html(path, text), body_class: "source-page" })
    }
}

// ── answers ─────────────────────────────────────────────────────────────────

/// An answer to a request: status, content type (empty for none) and body.
pub struct Reply {
    pub status: u16,
    pub content_type: String,
    pub body: Vec<u8>,
}

/// A 200 answer with the given content type and body.
pub fn ok_response(content_type: &str, body: Vec<u8>) -> (r: Reply)
    ensures
        r.status == 200,
        r.content_type@ == content_type@,
        r.body@ == body@,
{
    Reply { status: 200, content_type: string_of(chars_of(content_type).as_slice()), body }
}

/// The 404 answer: no content type, the body `Not Found`.
pub fn not_found_response() -> (r: Reply)
    ensures
        r.status == 404,
        r.content_type@ == Seq::<char>::empty(),
        r.body@ == "Not Found"@.map_values(|c: char| c as u8),
{
    let mut b: Vec<u8> = Vec::new();
    let v = chars_of("Not Found");
    let mut k: usize = 0;
    proof {
        reveal_strlit("Not Found");
    }
    while k < v.len()
        invariant
            k <= v@.len(),
            v@ == "Not Found"@,
            b@ == v@.take(k as int).map_values(|c: char| c as u8),
        decreases v@.len() - k,
    {
        b.push(v[k] as u8);
        assert(v@.take(k + 1).map_values(|c: char| c as u8) =~= v@.take(k as int).map_values(|c: char| c as u8).push(v@[k as int] as u8));
        k = k + 1;
    }
    assert(v@.take(k as int) =~= v@);
    Reply { status: 404, content_type: String::new(), body: b }
}

/// Which file a request is about: the one file of single-file mode, or an identifier.
#[derive(Debug, PartialEq, Eq)]
pub enum Target {
    Single,
    Rel(String),
}

impl Target {
    /// Whether the answer replaces the whole preview pane (and so carries the
    /// `.markdown-body` wrapper): for identifiers, not for the single file.
    pub fn wrapped(&self) -> (r: bool)
        ensures
            r == (*self is Rel),
    {
        match self {
            Target::Rel(_) => true,
            Target::Single => false,
        }
    }
}

/// A content fragment as it is sent: inside `<div class="markdown-body ...">` when the
/// target is wrapped, else as it is.
pub open spec fn fragment_spec(wrapped: bool, body_class: Seq<char>, html: Seq<char>) -> Seq<char> {
    if wrapped {
        let class = if body_class.len() == 0 { "markdown-body"@ } else { "markdown-body "@ + body_class };
        "<div class=\""@ + class + "\">"@ + html + "</div>"@
    } else {
        html
    }
}

/// The answer carrying a content fragment for `target` (see [`fragment_spec`]).
pub fn respond_fragment(target: &Target, body_class: &str, html: String) -> (r: Reply)
    ensures
        r.status == 200,
        r.content_type@ == "text/html; charset=utf-8"@,
        r.body@ == encode_utf8(fragment_spec(*target is Rel, body_class@, html@)),
{
    let mut body = String::new();
    if target.wrapped() {
        push_str(&mut body, "<div class=\"markdown-body");
        if !body_class.is_empty() {
            push_str(&mut body, " ");
            push_str(&mut body, body_class);
        }
        push_str(&mut body, "\">");
        push_str(&mut body, html.as_str());
        push_str(&mut body, "</div>");
        proof {
            reveal_strlit("<div class=\"markdown-body");
            reveal_strlit("<div class=\"");
            reveal_strlit("markdown-body");
            reveal_strlit("markdown-body ");
            reveal_strlit(" ");
        }
        assert(body@ =~= fragment_spec(true, body_class@, html@));
    } else {
        push_str(&mut body, html.as_str());
        assert(body@ =~= html@);
    }
    let bytes = crate::text::slice_to_vec_u8(body.as_str().as_bytes());
    ok_response("text/html; charset=utf-8", bytes)
}


/// Where an asset request points: a real absolute path (under [`crate::urlpath::ABS_PREFIX`],
/// with the prefix turned back into `/`), or a path relative to the root (without its
/// leading `/`).
pub enum AssetTarget {
    Abs(String),
    Rel(String),
}

/// The target of an asset path (see [`AssetTarget`]).
pub fn asset_target(url_path: &str) -> (r: AssetTarget)
    ensures
        (url_path@.len() >= 7 && url_path@.take(7) == "/__abs/"@) ==> (r matches AssetTarget::Abs(p) && p@ == "/"@ + url_path@.skip(7)),
        !(url_path@.len() >= 7 && url_path@.take(7) == "/__abs/"@) ==> (r matches AssetTarget::Rel(p) && p@ == (if url_path@.len() > 0 && url_path@[0] == '/' {
            url_path@.skip(1)
        } else {
            url_path@
        })),
{
    let v = chars_of(url_path);
    proof {
        reveal_strlit("/__abs/");
        reveal_strlit("/");
    }
    if v.len() >= 7 && v[0] == '/' && v[1] == '_' && v[2] == '_' && v[3] == 'a' && v[4] == 'b' && v[5] == 's' && v[6] == '/' {
        assert(v@.take(7) =~= "/__abs/"@);
        let mut p = String::new();
        push_str(&mut p, "/");
        push_str(&mut p, string_of(crate::text::slice_to_vec(v.as_slice(), 7, v.len()).as_slice()).as_str());
        assert(p@ =~= "/"@ + url_path@.skip(7));
        return AssetTarget::Abs(p);
    }
    proof {
        if v@.len() >= 7 && v@.take(7) == "/__abs/"@ {
            assert(v@.take(7)[0] == '/' && v@.take(7)[1] == '_' && v@.take(7)[2] == '_' && v@.take(7)[3] == 'a');
            assert(v@.take(7)[4] == 'b' && v@.take(7)[5] == 's' && v@.take(7)[6] == '/');
        }
    }
    if v.len() > 0 && v[0] == '/' {
        let p = string_of(crate::text::slice_to_vec(v.as_slice(), 1, v.len()).as_slice());
        assert(p@ =~= url_path@.skip(1));
        AssetTarget::Rel(p)
    } else {
        AssetTarget::Rel(string_of(v.as_slice()))
    }
}

/// The title of a page served for a Markdown file: its file name, else `Markdown Preview`.
pub open spec fn page_title(path: Seq<char>) -> Seq<char> {
    match crate::paths::file_name(path) {
        Some(n) => n,
        None => "Markdown Preview"@,
    }
}

/// The answer for an asset, as content type and body, or none for a 404: a Markdown file
/// opened directly is served as a whole page, as the preview would show it; an HTML page
/// gets the style gate; anything else (images, stylesheets, fonts) goes out as it is with
/// its MIME type. `contents` is the file as read (none when it could not be).
pub open spec fn asset_reply_spec(
    path: Seq<char>,
    root: Seq<char>,
    contents: Option<Seq<u8>>,
    files: Option<Seq<crate::embed::EmbedFileView>>,
    theme_css: Seq<char>,
    custom_css: Seq<char>,
    nonce: Seq<char>,
    base_css: Seq<char>,
    scripts: Seq<(Seq<char>, Seq<char>)>,
) -> Option<(Seq<char>, Seq<u8>)> {
    match classify_spec(path) {
        ViewKind::Markdown => match render_file_spec(path, root, ViewMode::Normal, contents, files) {
            None => None,
            Some((_k, h, c)) => Some((
                "text/html; charset=utf-8"@,
                encode_utf8(crate::page::page_spec(h, page_title(path), theme_css, custom_css, c, nonce, base_css, scripts)),
            )),
        },
        ViewKind::HtmlPage => match contents {
            None => None,
            Some(b) => Some(("text/html; charset=utf-8"@, style_gate_spec(b))),
        },
        _ => match contents {
            None => None,
            Some(b) => Some((guess_mime_spec(path), b)),
        },
    }
}

/// The answer for an asset (see [`asset_reply_spec`]).
pub fn asset_reply(
    path: &str,
    root: &str,
    contents: Option<Vec<u8>>,
    files: Option<&Vec<crate::embed::EmbedFile>>,
    theme_css: &str,
    custom_css: &str,
    nonce: &str,
    assets: &crate::page::PageAssets,
) -> (r: Reply)
    ensures
        match asset_reply_spec(path@, root@, match contents { Some(b) => Some(b@), None => None }, crate::markdown::opt_files_view(files),
            theme_css@, custom_css@, nonce@, assets.base_css_view(), assets.scripts_view()) {
            Some((ct, body)) => r.status == 200 && r.content_type@ == ct && r.body@ == body,
            None => r.status == 404,
        },
{
    match classify_ext(path) {
        ViewKind::Markdown => {
            let rendered = match &contents {
                Some(b) => render_file(path, root, ViewMode::Normal, Some(b.as_slice()), files),
                None => render_file(path, root, ViewMode::Normal, None, files),
            };
            match rendered {
                None => not_found_response(),
                Some(rf) => {
                    let title = match crate::paths::file_name_of(path) {
                        Some(n) => string_of(n.as_slice()),
                        None => {
                            let mut t = String::new();
                            push_str(&mut t, "Markdown Preview");
                            t
                        },
                    };
                    let page = crate::page::build_html(rf.html.as_str(), title.as_str(), theme_css, custom_css, rf.body_class, nonce, assets);
                    ok_response("text/html; charset=utf-8", crate::text::slice_to_vec_u8(page.as_str().as_bytes()))
                },
            }
        },
        ViewKind::HtmlPage => match contents {
            None => not_found_response(),
            Some(b) => ok_response("text/html; charset=utf-8", inject_style_gate(b)),
        },
        _ => match contents {
            None => not_found_response(),
            Some(b) => ok_response(guess_mime(path), b),
        },
    }
}

// ── routes ──────────────────────────────────────────────────────────────────

/// What a request asks for.
#[derive(Debug, PartialEq, Eq)]
pub enum Route {
    BuiltinLib(String),
    Dir(String),
    HasMd(String),
    Files,
    Changed,
    View(Target),
    Raw(Target),
    Diff(Target),
    DiffStat(Target),
    Index,
    Asset(String),
}

/// The content of a [`Target`].
pub enum TargetView {
    Single,
    Rel(Seq<char>),
}

/// The content of a [`Route`].
pub enum RouteView {
    BuiltinLib(Seq<char>),
    Dir(Seq<char>),
    HasMd(Seq<char>),
    Files,
    Changed,
    View(TargetView),
    Raw(TargetView),
    Diff(TargetView),
    DiffStat(TargetView),
    Index,
    Asset(Seq<char>),
}

/// The content of a target.
pub open spec fn target_view(t: Target) -> TargetView {
    match t {
        Target::Single => TargetView::Single,
        Target::Rel(s) => TargetView::Rel(s@),
    }
}

/// The content of a route.
pub open spec fn route_view(r: Route) -> RouteView {
    match r {
        Route::BuiltinLib(s) => RouteView::BuiltinLib(s@),
        Route::Dir(s) => RouteView::Dir(s@),
        Route::HasMd(s) => RouteView::HasMd(s@),
        Route::Files => RouteView::Files,
        Route::Changed => RouteView::Changed,
        Route::View(t) => RouteView::View(target_view(t)),
        Route::Raw(t) => RouteView::Raw(target_view(t)),
        Route::Diff(t) => RouteView::Diff(target_view(t)),
        Route::DiffStat(t) => RouteView::DiffStat(target_view(t)),
        Route::Index => RouteView::Index,
        Route::Asset(s) => RouteView::Asset(s@),
    }
}

/// The target of a query value where `1` may stand for the open file: that file in
/// single-file mode, else the decoded identifier.
pub open spec fn sentinel_spec(value: Seq<char>, has_single: bool) -> TargetView {
    if has_single && value == "1"@ {
        TargetView::Single
    } else {
        TargetView::Rel(crate::urlpath::percent_decode_spec(value))
    }
}

/// Renders [`sentinel_spec`].
pub fn sentinel_target(value: &str, has_single: bool) -> (r: Target)
    ensures
        target_view(r) == sentinel_spec(value@, has_single),
{
    if has_single && chars_eq_str(chars_of(value).as_slice(), "1") {
        Target::Single
    } else {
        Target::Rel(crate::urlpath::percent_decode(value))
    }
}

/// The route of a request for `url_path` with `query` (one `key=value` pair): built-in
/// libraries under `/__lib/`; the query keys `dir`, `has_md`, `files`, `changed`, `file`,
/// `body`, `raw`, `diff`, `diffstat` matched exactly; else the start page for `/` and a
/// file for any other path.
pub open spec fn route_spec(url: Seq<char>, query: Seq<char>, has_single: bool) -> RouteView {
    if crate::markdown::occurs_at(url, 0, "/__lib/"@) {
        RouteView::BuiltinLib(url.subrange(7, url.len() as int))
    } else {
        let keyed: Option<RouteView> = match crate::text::first_index_of(query, '=') {
            None => None,
            Some(k) => {
                let key = query.subrange(0, k);
                let value = query.subrange(k + 1, query.len() as int);
                if key == "dir"@ {
                    Some(RouteView::Dir(crate::urlpath::percent_decode_spec(value)))
                } else if key == "has_md"@ {
                    Some(RouteView::HasMd(crate::urlpath::percent_decode_spec(value)))
                } else if key == "files"@ {
                    Some(RouteView::Files)
                } else if key == "changed"@ {
                    Some(RouteView::Changed)
                } else if key == "file"@ {
                    Some(RouteView::View(TargetView::Rel(crate::urlpath::percent_decode_spec(value))))
                } else if key == "body"@ {
                    Some(RouteView::View(TargetView::Single))
                } else if key == "raw"@ {
                    Some(RouteView::Raw(sentinel_spec(value, has_single)))
                } else if key == "diff"@ {
                    Some(RouteView::Diff(sentinel_spec(value, has_single)))
                } else if key == "diffstat"@ {
                    Some(RouteView::DiffStat(sentinel_spec(value, has_single)))
                } else {
                    None
                }
            },
        };
        match keyed {
            Some(r) => r,
            None => if url == "/"@ { RouteView::Index } else { RouteView::Asset(url) },
        }
    }
}

/// Renders [`route_spec`].
pub fn parse_route(url_path: &str, query: &str, has_single: bool) -> (r: Route)
    ensures
        route_view(r) == route_spec(url_path@, query@, has_single),
{
    let u = chars_of(url_path);
    proof {
        reveal_strlit("/__lib/");
    }
    if crate::markdown::chars_match(&u, 0, "/__lib/") {
        return Route::BuiltinLib(string_of(vstd::slice::slice_subrange(u.as_slice(), 7, u.len())));
    }
    let q = chars_of(query);
    let qlen = q.len();
    match crate::text::find_char(q.as_slice(), '=') {
        None => {},
        Some(k) => {
            let key = vstd::slice::slice_subrange(q.as_slice(), 0, k);
            let value = string_of(vstd::slice::slice_subrange(q.as_slice(), k + 1, qlen));
            let v = value.as_str();
            if chars_eq_str(key, "dir") {
                return Route::Dir(crate::urlpath::percent_decode(v));
            } else if chars_eq_str(key, "has_md") {
                return Route::HasMd(crate::urlpath::percent_decode(v));
            } else if chars_eq_str(key, "files") {
                return Route::Files;
            } else if chars_eq_str(key, "changed") {
                return Route::Changed;
            } else if chars_eq_str(key, "file") {
                return Route::View(Target::Rel(crate::urlpath::percent_decode(v)));
            } else if chars_eq_str(key, "body") {
                return Route::View(Target::Single);
            } else if chars_eq_str(key, "raw") {
                return Route::Raw(sentinel_target(v, has_single));
            } else if chars_eq_str(key, "diff") {
                return Route::Diff(sentinel_target(v, has_single));
            } else if chars_eq_str(key, "diffstat") {
                return Route::DiffStat(sentinel_target(v, has_single));
            }
        },
    }
    if chars_eq_str(u.as_slice(), "/") {
        Route::Index
    } else {
        Route::Asset(string_of(u.as_slice()))
    }
}

/// The query keys `dir`, `has_md` and `file` carry the same identifier, decoded the same
/// way, and `raw`, `diff` and `diffstat` the same target as `file` (except `1` alone, which
/// in single-file mode stands for the open file): whatever the value, a folder listing or a
/// view is asked for the very identifier a file view would get.
pub proof fn query_keys_decode_their_value_alike(url: Seq<char>, v: Seq<char>, has_single: bool)
    requires
        !crate::markdown::occurs_at(url, 0, "/__lib/"@),
    ensures
        route_spec(url, "file="@ + v, has_single) == RouteView::View(TargetView::Rel(crate::urlpath::percent_decode_spec(v))),
        route_spec(url, "dir="@ + v, has_single) == RouteView::Dir(crate::urlpath::percent_decode_spec(v)),
        route_spec(url, "has_md="@ + v, has_single) == RouteView::HasMd(crate::urlpath::percent_decode_spec(v)),
        !(has_single && v == "1"@) ==> route_spec(url, "raw="@ + v, has_single) == RouteView::Raw(TargetView::Rel(
            crate::urlpath::percent_decode_spec(v),
        )),
        !(has_single && v == "1"@) ==> route_spec(url, "diff="@ + v, has_single) == RouteView::Diff(TargetView::Rel(
            crate::urlpath::percent_decode_spec(v),
        )),
        !(has_single && v == "1"@) ==> route_spec(url, "diffstat="@ + v, has_single) == RouteView::DiffStat(TargetView::Rel(
            crate::urlpath::percent_decode_spec(v),
        )),
{
    reveal_strlit("file");
    reveal_strlit("file=");
    assert(!"file"@.contains('=')) by {
        if "file"@.contains('=') {
            let j = choose|j: int| 0 <= j < "file"@.len() && "file"@[j] == '=';
        }
    }
    assert("file="@ + v =~= "file"@ + seq!['='] + v);
    crate::text::lemma_first_index_after("file"@, '=', v);
    reveal_strlit("dir");
    reveal_strlit("dir=");
    assert(!"dir"@.contains('=')) by {
        if "dir"@.contains('=') {
            let j = choose|j: int| 0 <= j < "dir"@.len() && "dir"@[j] == '=';
        }
    }
    assert("dir="@ + v =~= "dir"@ + seq!['='] + v);
    crate::text::lemma_first_index_after("dir"@, '=', v);
    reveal_strlit("has_md");
    reveal_strlit("has_md=");
    assert(!"has_md"@.contains('=')) by {
        if "has_md"@.contains('=') {
            let j = choose|j: int| 0 <= j < "has_md"@.len() && "has_md"@[j] == '=';
        }
    }
    assert("has_md="@ + v =~= "has_md"@ + seq!['='] + v);
    crate::text::lemma_first_index_after("has_md"@, '=', v);
    reveal_strlit("raw");
    reveal_strlit("raw=");
    assert(!"raw"@.contains('=')) by {
        if "raw"@.contains('=') {
            let j = choose|j: int| 0 <= j < "raw"@.len() && "raw"@[j] == '=';
        }
    }
    assert("raw="@ + v =~= "raw"@ + seq!['='] + v);
    crate::text::lemma_first_index_after("raw"@, '=', v);
    reveal_strlit("diff");
    reveal_strlit("diff=");
    assert(!"diff"@.contains('=')) by {
        if "diff"@.contains('=') {
            let j = choose|j: int| 0 <= j < "diff"@.len() && "diff"@[j] == '=';
        }
    }
    assert("diff="@ + v =~= "diff"@ + seq!['='] + v);
    crate::text::lemma_first_index_after("diff"@, '=', v);
    reveal_strlit("diffstat");
    reveal_strlit("diffstat=");
    assert(!"diffstat"@.contains('=')) by {
        if "diffstat"@.contains('=') {
            let j = choose|j: int| 0 <= j < "diffstat"@.len() && "diffstat"@[j] == '=';
        }
    }
    assert("diffstat="@ + v =~= "diffstat"@ + seq!['='] + v);
    crate::text::lemma_first_index_after("diffstat"@, '=', v);
    reveal_strlit("body");
    reveal_strlit("changed");
    reveal_strlit("diff");
    reveal_strlit("diffstat");
    reveal_strlit("dir");
    reveal_strlit("file");
    reveal_strlit("files");
    reveal_strlit("has_md");
    reveal_strlit("raw");
    assert("file"@ != "dir"@) by { assert("file"@.len() != "dir"@.len()); }
    assert("file"@ != "has_md"@) by { assert("file"@.len() != "has_md"@.len()); }
    assert("file"@ != "files"@) by { assert("file"@.len() != "files"@.len()); }
    assert("file"@ != "changed"@) by { assert("file"@.len() != "changed"@.len()); }
    assert("has_md"@ != "dir"@) by { assert("has_md"@.len() != "dir"@.len()); }
    assert("raw"@ != "dir"@) by { assert("raw"@[0] != "dir"@[0]); }
    assert("raw"@ != "has_md"@) by { assert("raw"@.len() != "has_md"@.len()); }
    assert("raw"@ != "files"@) by { assert("raw"@.len() != "files"@.len()); }
    assert("raw"@ != "changed"@) by { assert("raw"@.len() != "changed"@.len()); }
    assert("raw"@ != "file"@) by { assert("raw"@.len() != "file"@.len()); }
    assert("raw"@ != "body"@) by { assert("raw"@.len() != "body"@.len()); }
    assert("diff"@ != "dir"@) by { assert("diff"@.len() != "dir"@.len()); }
    assert("diff"@ != "has_md"@) by { assert("diff"@.len() != "has_md"@.len()); }
    assert("diff"@ != "files"@) by { assert("diff"@.len() != "files"@.len()); }
    assert("diff"@ != "changed"@) by { assert("diff"@.len() != "changed"@.len()); }
    assert("diff"@ != "file"@) by { assert("diff"@[0] != "file"@[0]); }
    assert("diff"@ != "body"@) by { assert("diff"@[0] != "body"@[0]); }
    assert("diff"@ != "raw"@) by { assert("diff"@.len() != "raw"@.len()); }
    assert("diffstat"@ != "dir"@) by { assert("diffstat"@.len() != "dir"@.len()); }
    assert("diffstat"@ != "has_md"@) by { assert("diffstat"@.len() != "has_md"@.len()); }
    assert("diffstat"@ != "files"@) by { assert("diffstat"@.len() != "files"@.len()); }
    assert("diffstat"@ != "changed"@) by { assert("diffstat"@.len() != "changed"@.len()); }
    assert("diffstat"@ != "file"@) by { assert("diffstat"@.len() != "file"@.len()); }
    assert("diffstat"@ != "body"@) by { assert("diffstat"@.len() != "body"@.len()); }
    assert("diffstat"@ != "raw"@) by { assert("diffstat"@.len() != "raw"@.len()); }
    assert("diffstat"@ != "diff"@) by { assert("diffstat"@.len() != "diff"@.len()); }
}

/// An identifier written into the query with [`crate::urlpath::encode_path`] routes back
/// to that very identifier, whatever characters it holds (spaces, `/`, non-ASCII): as the
/// folder to list, the folder to check for Markdown, and the file to show.
pub proof fn an_encoded_identifier_routes_to_itself(url: Seq<char>, id: Seq<char>, has_single: bool)
    requires
        !crate::markdown::occurs_at(url, 0, "/__lib/"@),
    ensures
        route_spec(url, "dir="@ + crate::urlpath::encode_bytes(encode_utf8(id)), has_single) == RouteView::Dir(id),
        route_spec(url, "has_md="@ + crate::urlpath::encode_bytes(encode_utf8(id)), has_single) == RouteView::HasMd(id),
        route_spec(url, "file="@ + crate::urlpath::encode_bytes(encode_utf8(id)), has_single) == RouteView::View(
            TargetView::Rel(id),
        ),
{
    let v = crate::urlpath::encode_bytes(encode_utf8(id));
    query_keys_decode_their_value_alike(url, v, has_single);
    crate::urlpath::decoding_undoes_encoding(id);
}

// ── the style gate of served HTML pages ─────────────────────────────────────

/// ASCII lower case of a byte.
pub open spec fn lower_byte(b: u8) -> u8 {
    if 65 <= b <= 90 { (b + 32) as u8 } else { b }
}

/// The bytes of ASCII text.
pub open spec fn ascii_bytes(s: Seq<char>) -> Seq<u8> {
    s.map_values(|c: char| c as u8)
}

/// Whether `n` occurs in `h` at `i`, ignoring ASCII case.
pub open spec fn starts_ci(h: Seq<u8>, i: int, n: Seq<u8>) -> bool {
    0 <= i && i + n.len() <= h.len() && forall|k: int| 0 <= k < n.len() ==> lower_byte(#[trigger] h[i + k]) == lower_byte(n[k])
}

/// First position from `i` on where `n` occurs in `h`, ignoring ASCII case.
pub open spec fn find_ci_from(h: Seq<u8>, n: Seq<u8>, i: int) -> Option<int>
    decreases h.len() + 1 - i,
{
    if i < 0 || i + n.len() > h.len() {
        None
    } else if starts_ci(h, i, n) {
        Some(i)
    } else {
        find_ci_from(h, n, i + 1)
    }
}

/// First position of a non-empty `n` in `h`, ignoring ASCII case.
pub open spec fn find_ci_spec(h: Seq<u8>, n: Seq<u8>) -> Option<int> {
    if n.len() == 0 || h.len() < n.len() { None } else { find_ci_from(h, n, 0) }
}

fn lower_b(b: u8) -> (r: u8)
    ensures
        r == lower_byte(b),
{
    if 65 <= b && b <= 90 { b + 32 } else { b }
}

/// Whether `needle` occurs in `hay` at `i`, ignoring ASCII case.
pub fn starts_ci_at(hay: &[u8], i: usize, needle: &[u8]) -> (r: bool)
    ensures
        r == starts_ci(hay@, i as int, needle@),
{
    let hl = hay.len();
    if i > hl || needle.len() > hl - i {
        return false;
    }
    let mut k: usize = 0;
    while k < needle.len()
        invariant
            hl == hay@.len(),
            i + needle@.len() <= hay@.len(),
            k <= needle@.len(),
            forall|q: int| 0 <= q < k ==> lower_byte(#[trigger] hay@[i + q]) == lower_byte(needle@[q]),
        decreases needle@.len() - k,
    {
        if lower_b(hay[i + k]) != lower_b(needle[k]) {
            return false;
        }
        k = k + 1;
    }
    true
}

/// First position of `needle` in `hay`, ignoring ASCII case (none for an empty needle).
pub fn find_ci_ascii(hay: &[u8], needle: &[u8]) -> (r: Option<usize>)
    ensures
        match find_ci_spec(hay@, needle@) {
            Some(i) => r == Some(i as usize) && 0 <= i && i + needle@.len() <= hay@.len(),
            None => r is None,
        },
{
    if needle.len() == 0 || hay.len() < needle.len() {
        return None;
    }
    let last = hay.len() - needle.len();
    let mut i: usize = 0;
    while i <= last
        invariant
            0 < needle@.len() <= hay@.len(),
            last == hay@.len() - needle@.len(),
            last + 1 <= usize::MAX,
            i <= last + 1,
            find_ci_from(hay@, needle@, i as int) == find_ci_from(hay@, needle@, 0),
        decreases last + 1 - i,
    {
        if starts_ci_at(hay, i, needle) {
            return Some(i);
        }
        i = i + 1;
    }
    None
}

/// Where the real `</head>` of `h` is, from `i` on: script elements and comments are
/// skipped whole (a `</head>` inside them does not count), and an unclosed one gives none.
pub open spec fn head_close_from(h: Seq<u8>, i: int) -> Option<int>
    decreases h.len() - i,
{
    if i < 0 || i >= h.len() {
        None
    } else if starts_ci(h, i, ascii_bytes("<script"@)) {
        match find_ci_spec(h.subrange(i, h.len() as int), ascii_bytes("</script>"@)) {
            None => None,
            Some(rel) => if rel >= 0 && i + rel + 9 <= h.len() { head_close_from(h, i + rel + 9) } else { None },
        }
    } else if starts_ci(h, i, ascii_bytes("<!--"@)) {
        match find_ci_spec(h.subrange(i, h.len() as int), ascii_bytes("-->"@)) {
            None => None,
            Some(rel) => if rel >= 0 && i + rel + 3 <= h.len() { head_close_from(h, i + rel + 3) } else { None },
        }
    } else if starts_ci(h, i, ascii_bytes("</head>"@)) {
        Some(i)
    } else {
        head_close_from(h, i + 1)
    }
}

/// The bytes of ASCII text.
fn bytes_of(s: &str) -> (r: Vec<u8>)
    ensures
        r@ == ascii_bytes(s@),
{
    let v = chars_of(s);
    let mut r: Vec<u8> = Vec::new();
    let mut k: usize = 0;
    while k < v.len()
        invariant
            k <= v@.len(),
            r@ == ascii_bytes(v@.take(k as int)),
            v@ == s@,
        decreases v@.len() - k,
    {
        r.push(v[k] as u8);
        assert(ascii_bytes(v@.take(k + 1)) =~= ascii_bytes(v@.take(k as int)).push(v@[k as int] as u8));
        k = k + 1;
    }
    assert(v@.take(k as int) =~= v@);
    r
}

/// Renders [`head_close_from`] from the start.
pub fn find_head_close(hay: &[u8]) -> (r: Option<usize>)
    ensures
        match head_close_from(hay@, 0) {
            Some(i) => r == Some(i as usize),
            None => r is None,
        },
{
    let script = bytes_of("<script");
    let script_end = bytes_of("</script>");
    let comment = bytes_of("<!--");
    let comment_end = bytes_of("-->");
    let head_end = bytes_of("</head>");
    proof {
        reveal_strlit("</script>");
        reveal_strlit("-->");
    }
    let mut i: usize = 0;
    while i < hay.len()
        invariant
            i <= hay@.len(),
            script@ == ascii_bytes("<script"@),
            script_end@ == ascii_bytes("</script>"@),
            comment@ == ascii_bytes("<!--"@),
            comment_end@ == ascii_bytes("-->"@),
            head_end@ == ascii_bytes("</head>"@),
            script_end@.len() == 9,
            comment_end@.len() == 3,
            head_close_from(hay@, i as int) == head_close_from(hay@, 0),
        decreases hay@.len() - i,
    {
        if starts_ci_at(hay, i, script.as_slice()) {
            let rest = vstd::slice::slice_subrange(hay, i, hay.len());
            match find_ci_ascii(rest, script_end.as_slice()) {
                None => return None,
                Some(rel) => {
                    i = i + rel + 9;
                },
            }
        } else if starts_ci_at(hay, i, comment.as_slice()) {
            let rest = vstd::slice::slice_subrange(hay, i, hay.len());
            match find_ci_ascii(rest, comment_end.as_slice()) {
                None => return None,
                Some(rel) => {
                    i = i + rel + 3;
                },
            }
        } else if starts_ci_at(hay, i, head_end.as_slice()) {
            return Some(i);
        } else {
            i = i + 1;
        }
    }
    None
}

/// The script inserted before `</head>`.
pub open spec fn gate_bytes() -> Seq<u8> {
    ascii_bytes("<script>/*md:style-gate*/void 0</script>"@)
}

/// An HTML page with an empty blocking script right before its real `</head>`, so that
/// its stylesheets apply before its own scripts run; unchanged without one.
pub open spec fn style_gate_spec(b: Seq<u8>) -> Seq<u8> {
    match head_close_from(b, 0) {
        Some(pos) => b.subrange(0, pos) + gate_bytes() + b.subrange(pos, b.len() as int),
        None => b,
    }
}

/// Renders [`style_gate_spec`].
pub fn inject_style_gate(bytes: Vec<u8>) -> (r: Vec<u8>)
    ensures
        r@ == style_gate_spec(bytes@),
{
    match find_head_close(bytes.as_slice()) {
        None => bytes,
        Some(pos) => {
            proof {
                lemma_head_close_bound(bytes@, 0);
            }
            let gate = bytes_of("<script>/*md:style-gate*/void 0</script>");
            let mut out: Vec<u8> = Vec::new();
            let mut k: usize = 0;
            while k < pos
                invariant
                    k <= pos,
                    pos <= bytes@.len(),
                    out@ == bytes@.subrange(0, k as int),
                decreases pos - k,
            {
                out.push(bytes[k]);
                assert(bytes@.subrange(0, k + 1) =~= bytes@.subrange(0, k as int).push(bytes@[k as int]));
                k = k + 1;
            }
            let mut g: usize = 0;
            let ghost o1 = out@;
            while g < gate.len()
                invariant
                    g <= gate@.len(),
                    out@ == o1 + gate@.take(g as int),
                decreases gate@.len() - g,
            {
                out.push(gate[g]);
                assert(gate@.take(g + 1) =~= gate@.take(g as int).push(gate@[g as int]));
                g = g + 1;
            }
            assert(gate@.take(g as int) =~= gate@);
            let ghost o2 = out@;
            let mut q = pos;
            while q < bytes.len()
                invariant
                    pos <= q <= bytes@.len(),
                    out@ == o2 + bytes@.subrange(pos as int, q as int),
                decreases bytes@.len() - q,
            {
                out.push(bytes[q]);
                assert(bytes@.subrange(pos as int, q + 1) =~= bytes@.subrange(pos as int, q as int).push(bytes@[q as int]));
                q = q + 1;
            }
            out
        },
    }
}

proof fn lemma_head_close_bound(h: Seq<u8>, i: int)
    requires
        0 <= i,
    ensures
        head_close_from(h, i) matches Some(p) ==> i <= p < h.len(),
    decreases h.len() - i,
{
    if i < h.len() {
        if starts_ci(h, i, ascii_bytes("<script"@)) {
            match find_ci_spec(h.subrange(i, h.len() as int), ascii_bytes("</script>"@)) {
                None => {},
                Some(rel) => if rel >= 0 && i + rel + 9 <= h.len() { lemma_head_close_bound(h, i + rel + 9); },
            }
        } else if starts_ci(h, i, ascii_bytes("<!--"@)) {
            match find_ci_spec(h.subrange(i, h.len() as int), ascii_bytes("-->"@)) {
                None => {},
                Some(rel) => if rel >= 0 && i + rel + 3 <= h.len() { lemma_head_close_bound(h, i + rel + 3); },
            }
        } else if starts_ci(h, i, ascii_bytes("</head>"@)) {
        } else {
            lemma_head_close_bound(h, i + 1);
        }
    }
}

} // verus!
