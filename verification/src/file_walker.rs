//! Which directories are walked and which files are taken.
//!
//! Walking itself is left to the program: here is what it decides by.

use crate::memory::paths::{components, path_components};
use crate::memory::types::texts;
use crate::split::rows;
use crate::text::{chars_of, same_chars};
use vstd::prelude::*;

verus! {

/// A file that was found.
#[derive(Debug)]
pub struct FileInfo {
    pub path: String,
}

/// What is taken: files with one of the extensions, in directories that
/// are not excluded.
#[derive(Debug)]
pub struct FilterOptions {
    pub extensions: Vec<String>,
    pub exclude_directories: Vec<String>,
}

#[derive(Debug)]
pub struct FileWalker {
    filter_options: FilterOptions,
}

/// A component that names a file or a directory: not the root, not `.`,
/// not `..`.
pub open spec fn is_name(component: Seq<char>) -> bool {
    component != "/"@ && component != "."@ && component != ".."@
}

/// One of the named components of `path` is among `excluded`.
pub open spec fn has_excluded(path: Seq<char>, excluded: Seq<Seq<char>>) -> bool {
    exists|i: int|
        0 <= i < components(path).len() && is_name(#[trigger] components(path)[i])
            && excluded.contains(components(path)[i])
}

/// The index of the last dot of a file name that parts name and extension:
/// the last dot, unless it is the first character.
pub open spec fn extension_dot(name: Seq<char>, from: int) -> Option<int>
    decreases from,
{
    if from <= 0 {
        None
    } else if name[from] == '.' {
        Some(from)
    } else {
        extension_dot(name, from - 1)
    }
}

/// The extension of the file a path names: what follows the last dot of
/// its last component, if that component is a name and the dot is not its
/// first character. A path without extension has the empty one.
pub open spec fn extension_of(path: Seq<char>) -> Seq<char> {
    let cs = components(path);
    if cs.len() == 0 || !is_name(cs.last()) {
        Seq::empty()
    } else {
        let name = cs.last();
        match extension_dot(name, name.len() - 1) {
            Some(dot) => name.skip(dot + 1),
            None => Seq::empty(),
        }
    }
}

fn named(component: &[char]) -> (r: bool)
    ensures
        r == is_name(component@),
{
    !same_chars(component, chars_of("/").as_slice()) && !same_chars(
        component,
        chars_of(".").as_slice(),
    ) && !same_chars(component, chars_of("..").as_slice())
}

fn listed(list: &Vec<String>, text: &[char]) -> (r: bool)
    ensures
        r == texts(list@).contains(text@),
{
    let mut i: usize = 0;
    while i < list.len()
        invariant
            i <= list.len(),
            forall|j: int| 0 <= j < i ==> texts(list@)[j] != text@,
        decreases list.len() - i,
    {
        if same_chars(chars_of(list[i].as_str()).as_slice(), text) {
            assert(texts(list@)[i as int] == text@);
            return true;
        }
        i += 1;
    }
    false
}

/// The extension of the file that `path` names.
pub fn file_extension(path: &str) -> (r: Vec<char>)
    ensures
        r@ == extension_of(path@),
{
    let cs = path_components(chars_of(path).as_slice());
    assert(rows(cs@).len() == cs@.len());
    let empty: Vec<char> = Vec::new();
    if cs.len() == 0 {
        return empty;
    }
    assert(rows(cs@).last() == cs@[cs.len() - 1]@);
    let name = cs[cs.len() - 1].as_slice();
    if !named(name) || name.len() == 0 {
        return empty;
    }
    let mut at: usize = name.len() - 1;
    while at > 0 && name[at] != '.'
        invariant
            at < name.len(),
            extension_dot(name@, name.len() - 1) == extension_dot(name@, at as int),
        decreases at,
    {
        at -= 1;
    }
    if at == 0 {
        return empty;
    }
    let n: usize = name.len();
    crate::text::copy_chars(&name[at + 1..n])
}

impl FileWalker {
    pub closed spec fn options(&self) -> FilterOptions {
        self.filter_options
    }

    pub fn with_filter(filter_options: FilterOptions) -> (walker: FileWalker)
        ensures
            walker.options() == filter_options,
    {
        FileWalker { filter_options }
    }

    /// Whether a directory is left out: one of the names on its path is excluded.
    pub fn is_directory_excluded(&self, path: &str) -> (r: bool)
        ensures
            r == has_excluded(path@, texts(self.options().exclude_directories@)),
    {
        let cs = path_components(chars_of(path).as_slice());
        let mut i: usize = 0;
        assert(rows(cs@).len() == cs@.len());
        while i < cs.len()
            invariant
                i <= cs.len(),
                rows(cs@) == components(path@),
                forall|j: int|
                    0 <= j < i ==> !(is_name(#[trigger] components(path@)[j]) && texts(
                        self.filter_options.exclude_directories@,
                    ).contains(components(path@)[j])),
            decreases cs.len() - i,
        {
            let component = cs[i].as_slice();
            assert(components(path@)[i as int] == component@);
            if named(component) && listed(&self.filter_options.exclude_directories, component) {
                return true;
            }
            i += 1;
        }
        false
    }

    /// Whether a file is taken: there are extensions to go by, and the
    /// file's is one of them.
    pub fn takes_file(&self, path: &str) -> (r: bool)
        ensures
            r == (self.options().extensions@.len() > 0 && texts(
                self.options().extensions@,
            ).contains(extension_of(path@))),
    {
        if self.filter_options.extensions.len() == 0 {
            return false;
        }
        let extension = file_extension(path);
        listed(&self.filter_options.extensions, extension.as_slice())
    }
}

} // verus!
