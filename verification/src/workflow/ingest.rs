//! Taking in the files of a project.

use crate::file_walker::{extension_of, file_extension, is_name};
use crate::language::is_text;
use crate::memory::paths::{components, is_subdirectory, is_under, path_components};
use crate::split::{join_range, joined, rows};
use crate::text::{ascii_lower, chars_of, same_chars, string_of, to_ascii_lower};
use vstd::prelude::*;

verus! {

/// The language tag that goes with a file extension in lower case.
pub open spec fn tag_of_extension(extension: Seq<char>) -> Seq<char> {
    if extension == "rs"@ {
        "rust"@
    } else if extension == "py"@ {
        "python"@
    } else if extension == "js"@ || extension == "jsx"@ {
        "javascript"@
    } else if extension == "ts"@ || extension == "tsx"@ {
        "typescript"@
    } else if extension == "go"@ {
        "go"@
    } else if extension == "java"@ {
        "java"@
    } else if extension == "kt"@ {
        "kotlin"@
    } else if extension == "cs"@ {
        "csharp"@
    } else if extension == "c"@ || extension == "h"@ {
        "c"@
    } else if extension == "cc"@ || extension == "cpp"@ || extension == "hpp"@ {
        "cpp"@
    } else {
        "text"@
    }
}

/// The language tag of a file, by its extension; `text` if the extension
/// names no language.
pub fn detect_language(path: &str) -> (tag: &'static str)
    ensures
        tag@ == tag_of_extension(ascii_lower(extension_of(path@))),
{
    let extension = to_ascii_lower(file_extension(path).as_slice());
    let e = extension.as_slice();
    if is_text(e, "rs") {
        "rust"
    } else if is_text(e, "py") {
        "python"
    } else if is_text(e, "js") || is_text(e, "jsx") {
        "javascript"
    } else if is_text(e, "ts") || is_text(e, "tsx") {
        "typescript"
    } else if is_text(e, "go") {
        "go"
    } else if is_text(e, "java") {
        "java"
    } else if is_text(e, "kt") {
        "kotlin"
    } else if is_text(e, "cs") {
        "csharp"
    } else if is_text(e, "c") || is_text(e, "h") {
        "c"
    } else if is_text(e, "cc") || is_text(e, "cpp") || is_text(e, "hpp") {
        "cpp"
    } else {
        "text"
    }
}

/// A path as it is shown: from the project's root on if it lies below the
/// root, else as it is.
pub open spec fn shown_path(path: Seq<char>, root: Seq<char>) -> Seq<char> {
    if is_under(components(path), components(root)) {
        joined(components(path).skip(components(root).len() as int), "/"@)
    } else {
        path
    }
}

pub fn relative_path_display(path: &str, project_root: &str) -> (r: String)
    ensures
        r@ == shown_path(path@, project_root@),
{
    let whole = path_components(chars_of(path).as_slice());
    let base = path_components(chars_of(project_root).as_slice());
    assert(rows(whole@).len() == whole@.len());
    assert(rows(base@).len() == base@.len());
    if is_subdirectory(&whole, &base) {
        let rest = join_range(&whole, base.len(), whole.len(), chars_of("/").as_slice());
        proof {
            assert(rows(whole@).subrange(base@.len() as int, whole@.len() as int) =~= rows(
                whole@,
            ).skip(base@.len() as int));
        }
        string_of(rest.as_slice())
    } else {
        string_of(chars_of(path).as_slice())
    }
}

/// `s` with `_` in place of each `-`.
pub open spec fn underscored(s: Seq<char>) -> Seq<char> {
    Seq::new(s.len(), |i: int| if s[i] == '-' {
        '_'
    } else {
        s[i]
    })
}

/// The name of a project by the directory it lies in: the directory's
/// name with `_` for `-`, or `plain_sight` if the path ends in no name.
pub open spec fn project_name_of(root: Seq<char>) -> Seq<char> {
    let cs = components(root);
    if cs.len() > 0 && is_name(cs.last()) {
        underscored(cs.last())
    } else {
        "plain_sight"@
    }
}

pub fn infer_project_name(project_root: &str) -> (name: String)
    ensures
        name@ == project_name_of(project_root@),
{
    let cs = path_components(chars_of(project_root).as_slice());
    assert(rows(cs@).len() == cs@.len());
    if cs.len() == 0 {
        return string_of(chars_of("plain_sight").as_slice());
    }
    assert(rows(cs@).last() == cs@[cs.len() - 1]@);
    let last = cs[cs.len() - 1].as_slice();
    if same_chars(last, chars_of("/").as_slice()) || same_chars(last, chars_of(".").as_slice())
        || same_chars(last, chars_of("..").as_slice()) {
        return string_of(chars_of("plain_sight").as_slice());
    }
    let mut out: Vec<char> = Vec::new();
    let mut i: usize = 0;
    while i < last.len()
        invariant
            i <= last.len(),
            out@ == underscored(last@).take(i as int),
        decreases last.len() - i,
    {
        let c = last[i];
        out.push(if c == '-' {
            '_'
        } else {
            c
        });
        i += 1;
        assert(out@ =~= underscored(last@).take(i as int));
    }
    assert(underscored(last@).take(last.len() as int) =~= underscored(last@));
    string_of(out.as_slice())
}

} // verus!
