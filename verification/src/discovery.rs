//! Choosing which of the files that were found take part in a run.
//!
//! Listing a directory is the caller's work; deciding by extension which of
//! the listed files are embedded is done here.

use crate::backend::texts_view;
use crate::config::opt_string;
use crate::model::{file_of, last_slash};
use crate::text::{chars_of, same_text};
use vstd::prelude::*;

verus! {

/// The extension of a file name: what stands behind its last dot. A name
/// without a dot, or with its only dot in front, has none.
pub open spec fn extension_of(name: Seq<char>) -> Option<Seq<char>>
    decreases name.len(),
{
    if name.len() <= 1 {
        None
    } else if name.last() == '.' {
        Some(Seq::empty())
    } else {
        match extension_of(name.drop_last()) {
            Some(e) => Some(e.push(name.last())),
            None => None,
        }
    }
}

/// The extension of the file of a path.
pub open spec fn path_extension(path: Seq<char>) -> Option<Seq<char>> {
    extension_of(file_of(path))
}

/// The position of the dot in front of the extension of a file name.
fn extension_dot(name: &Vec<char>) -> (r: Option<usize>)
    ensures
        match r {
            Some(d) => 1 <= d < name@.len() && extension_of(name@) == Some(name@.skip(d + 1)),
            None => extension_of(name@) is None,
        },
{
    let mut end: usize = name.len();
    assert(name@.take(end as int) =~= name@);
    assert(name@.skip(end as int) =~= Seq::<char>::empty());
    proof {
        match extension_of(name@) {
            Some(e) => {
                assert(e + Seq::<char>::empty() =~= e);
            },
            None => {},
        }
    }
    while end > 1
        invariant
            end <= name@.len(),
            match extension_of(name@.take(end as int)) {
                Some(e) => extension_of(name@) == Some(e + name@.skip(end as int)),
                None => extension_of(name@) is None,
            },
        decreases end,
    {
        let ghost part = name@.take(end as int);
        assert(part.last() == name@[end - 1]);
        assert(part.drop_last() =~= name@.take(end - 1));
        if name[end - 1] == '.' {
            assert(extension_of(part) == Some(Seq::<char>::empty()));
            assert(Seq::<char>::empty() + name@.skip(end as int) =~= name@.skip(end as int));
            return Some(end - 1);
        }
        proof {
            match extension_of(name@.take(end - 1)) {
                Some(e) => {
                    assert(extension_of(part) == Some(e.push(name@[end - 1])));
                    assert(e.push(name@[end - 1]) + name@.skip(end as int) =~= e + name@.skip(
                        end - 1,
                    ));
                },
                None => {},
            }
        }
        end -= 1;
    }
    None
}

/// The extension of the file of `path`.
pub fn file_extension(path: &str) -> (r: Option<String>)
    ensures
        opt_string(r) == path_extension(path@),
{
    let chars = chars_of(path);
    let n = chars.len();
    let name = match last_slash(&chars) {
        Some(i) => path.substring_char(i + 1, n),
        None => path,
    };
    assert(name@ =~= file_of(path@));
    let name_chars = chars_of(name);
    match extension_dot(&name_chars) {
        Some(d) => {
            let ext = name.substring_char(d + 1, name_chars.len());
            assert(ext@ =~= name@.skip(d + 1));
            Some(String::from_str(ext))
        },
        None => None,
    }
}

/// Whether a file with this path takes part under these extensions: every
/// file where none are given, else those whose extension is among them.
pub open spec fn is_selected(path: Seq<char>, extensions: Option<Seq<Seq<char>>>) -> bool {
    match extensions {
        None => true,
        Some(list) => match path_extension(path) {
            Some(e) => list.contains(e),
            None => false,
        },
    }
}

/// The characters of each string of an optional list.
pub open spec fn extensions_view(extensions: Option<Vec<String>>) -> Option<Seq<Seq<char>>> {
    match extensions {
        Some(list) => Some(texts_view(list@)),
        None => None,
    }
}

/// Whether the file at `path` takes part under `extensions`.
pub fn is_wanted(path: &str, extensions: &Option<Vec<String>>) -> (r: bool)
    ensures
        r == is_selected(path@, extensions_view(*extensions)),
{
    let list = match extensions {
        None => {
            return true;
        },
        Some(list) => list,
    };
    let ext = match file_extension(path) {
        None => {
            return false;
        },
        Some(ext) => ext,
    };
    let ghost views = texts_view(list@);
    let mut i: usize = 0;
    while i < list.len()
        invariant
            i <= list@.len(),
            views == texts_view(list@),
            *extensions == Some(*list),
            path_extension(path@) == Some(ext@),
            forall|j: int| 0 <= j < i ==> views[j] != ext@,
        decreases list@.len() - i,
    {
        if same_text(list[i].as_str(), ext.as_str()) {
            assert(views[i as int] == ext@);
            assert(views.contains(ext@));
            return true;
        }
        i += 1;
    }
    assert(!views.contains(ext@));
    false
}

/// The files that take part: those of `paths` that are selected under
/// `extensions`, in the order in which they were found.
pub fn select_files(paths: Vec<String>, extensions: &Option<Vec<String>>) -> (selected: Vec<
    String,
>)
    ensures
        texts_view(selected@) == texts_view(paths@).filter(
            |p: Seq<char>| is_selected(p, extensions_view(*extensions)),
        ),
{
    let ghost all = texts_view(paths@);
    let ghost wanted = |p: Seq<char>| is_selected(p, extensions_view(*extensions));
    let mut selected: Vec<String> = Vec::new();
    assert(all.take(0).filter(wanted) =~= Seq::<Seq<char>>::empty());
    for path in it: paths
        invariant
            it.seq() == paths@,
            all == texts_view(paths@),
            wanted == (|p: Seq<char>| is_selected(p, extensions_view(*extensions))),
            texts_view(selected@) == all.take(it.index() as int).filter(wanted),
    {
        let ghost i = it.index() as int;
        let ghost before = texts_view(selected@);
        assert(path == paths@[i]);
        assert(all.take(i + 1).drop_last() =~= all.take(i));
        assert(all.take(i + 1).last() == path@);
        reveal(Seq::filter);
        if is_wanted(path.as_str(), extensions) {
            selected.push(path);
            assert(texts_view(selected@) =~= before.push(path@));
        }
    }
    assert(all.take(all.len() as int) =~= all);
    selected
}

/// Whether an extension is that of an image file.
pub open spec fn is_image_extension(e: Seq<char>) -> bool {
    e == "png"@ || e == "jpg"@ || e == "jpeg"@ || e == "gif"@ || e == "bmp"@ || e == "tiff"@
        || e == "webp"@
}

/// Whether a path is that of an image file, by its extension.
pub open spec fn is_image_path(path: Seq<char>) -> bool {
    match path_extension(path) {
        Some(e) => is_image_extension(e),
        None => false,
    }
}

/// Whether the file at `path` is an image, by its extension.
pub fn is_image(path: &str) -> (r: bool)
    ensures
        r == is_image_path(path@),
{
    match file_extension(path) {
        None => false,
        Some(ext) => {
            let e = ext.as_str();
            same_text(e, "png") || same_text(e, "jpg") || same_text(e, "jpeg") || same_text(
                e,
                "gif",
            ) || same_text(e, "bmp") || same_text(e, "tiff") || same_text(e, "webp")
        },
    }
}

/// The images among the files that were found, in the order in which they
/// were found.
pub fn select_images(paths: Vec<String>) -> (selected: Vec<String>)
    ensures
        texts_view(selected@) == texts_view(paths@).filter(|p: Seq<char>| is_image_path(p)),
{
    let ghost all = texts_view(paths@);
    let ghost wanted = |p: Seq<char>| is_image_path(p);
    let mut selected: Vec<String> = Vec::new();
    assert(all.take(0).filter(wanted) =~= Seq::<Seq<char>>::empty());
    for path in it: paths
        invariant
            it.seq() == paths@,
            all == texts_view(paths@),
            wanted == (|p: Seq<char>| is_image_path(p)),
            texts_view(selected@) == all.take(it.index() as int).filter(wanted),
    {
        let ghost i = it.index() as int;
        let ghost before = texts_view(selected@);
        assert(path == paths@[i]);
        assert(all.take(i + 1).drop_last() =~= all.take(i));
        assert(all.take(i + 1).last() == path@);
        reveal(Seq::filter);
        if is_image(path.as_str()) {
            selected.push(path);
            assert(texts_view(selected@) =~= before.push(path@));
        }
    }
    assert(all.take(all.len() as int) =~= all);
    selected
}

} // verus!
