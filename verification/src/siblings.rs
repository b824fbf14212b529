//! The directories beside a path, and the path's name cut against them.

use std::borrow::Cow;
use vstd::prelude::*;
use vstd::seq_lib::to_multiset_contains;
use vstd::utf8::{decode_utf8, encode_utf8, valid_utf8};
use crate::error::{text_of, RenderError};
use crate::names::{file_name_text, name_to_string, path_file_name_to_string};
use crate::prefix::{lemma_prefix_by_set, shortest_unique, shortest_unique_prefix};

verus! {

/// One entry of a directory, as the file system reports it.
#[derive(Debug, Clone, PartialEq, Eq)]
pub struct Child {
    /// The entry's raw name.
    pub name: Vec<u8>,
    /// Whether the entry is a directory.
    pub is_dir: bool,
}

/// What listing a directory gave.
#[derive(Debug, Clone, PartialEq, Eq)]
pub enum Listing {
    /// The directory could not be listed.
    Unreadable,
    /// The entries of the directory.
    Children(Vec<Child>),
}

/// Some directory among `children` has a name that is not text.
pub open spec fn has_unnamed_dir(children: Seq<Child>) -> bool {
    exists|i: int| 0 <= i < children.len() && is_unnamed_dir(#[trigger] children[i])
}

/// A directory whose name is not text.
pub open spec fn is_unnamed_dir(child: Child) -> bool {
    child.is_dir && !valid_utf8(child.name@)
}

/// A directory whose name is another than `name`.
pub open spec fn is_sibling(child: Child, name: Seq<char>) -> bool {
    child.is_dir && decode_utf8(child.name@) != name
}

/// The names of the directories among `children`, in their order, without
/// `name` itself. It is meant for children whose directories all have text
/// for a name.
pub open spec fn sibling_names(children: Seq<Child>, name: Seq<char>) -> Seq<Seq<char>> {
    children.filter(|c: Child| is_sibling(c, name)).map_values(|c: Child| decode_utf8(c.name@))
}

/// Byte strings in dictionary order: `a` comes before `b` or equals it.
pub open spec fn bytes_le(a: Seq<u8>, b: Seq<u8>) -> bool
    decreases a.len(),
{
    a.len() == 0 || (b.len() > 0 && (a[0] < b[0] || (a[0] == b[0] && bytes_le(
        a.drop_first(),
        b.drop_first(),
    ))))
}

/// Names in ascending order of their UTF-8 bytes.
pub open spec fn ascending(names: Seq<Seq<char>>) -> bool {
    forall|i: int, j: int|
        0 <= i < j < names.len() ==> bytes_le(
            encode_utf8(#[trigger] names[i]),
            encode_utf8(#[trigger] names[j]),
        )
}

/// `slice::sort_unstable` on strings: the same strings, each as often as
/// before, in ascending order. Strings are ordered by their bytes, as in a
/// dictionary.
#[verifier::external_body]
fn sort_names(names: &mut Vec<String>)
    ensures
        final(names).deep_view().to_multiset() == old(names).deep_view().to_multiset(),
        ascending(final(names).deep_view()),
{
    names.sort_unstable();
}

proof fn lemma_sibling_names_step(children: Seq<Child>, name: Seq<char>, i: int)
    requires
        0 <= i < children.len(),
    ensures
        sibling_names(children.take(i + 1), name) == if is_sibling(children[i], name) {
            sibling_names(children.take(i), name).push(decode_utf8(children[i].name@))
        } else {
            sibling_names(children.take(i), name)
        },
{
    reveal(Seq::filter);
    assert(children.take(i + 1).drop_last() =~= children.take(i));
}

/// The siblings are the names of the directories among the children, but for
/// `name`, which is never among them.
pub proof fn lemma_sibling_names(children: Seq<Child>, name: Seq<char>)
    ensures
        !sibling_names(children, name).contains(name),
        forall|other: Seq<char>| #[trigger]
            sibling_names(children, name).contains(other) <==> other != name && exists|i: int|
                0 <= i < children.len() && (#[trigger] children[i]).is_dir && decode_utf8(
                    children[i].name@,
                ) == other,
    decreases children.len(),
{
    let names = sibling_names(children, name);
    if children.len() == 0 {
        assert(names =~= Seq::empty()) by {
            reveal(Seq::filter);
        }
    } else {
        let n = children.len() - 1;
        let before = sibling_names(children.take(n), name);
        lemma_sibling_names(children.take(n), name);
        lemma_sibling_names_step(children, name, n);
        assert(children.take(n + 1) =~= children);
        assert forall|other: Seq<char>| #[trigger]
            names.contains(other) <==> other != name && exists|i: int|
                0 <= i < children.len() && (#[trigger] children[i]).is_dir && decode_utf8(
                    children[i].name@,
                ) == other by {
            if names.contains(other) {
                let k = choose|k: int| 0 <= k < names.len() && names[k] == other;
                if k < before.len() {
                    assert(before.contains(other));
                    let i = choose|i: int|
                        0 <= i < children.take(n).len() && (#[trigger] children.take(n)[i]).is_dir
                            && decode_utf8(children.take(n)[i].name@) == other;
                    assert(children[i].is_dir);
                }
            }
            if other != name && exists|i: int|
                0 <= i < children.len() && (#[trigger] children[i]).is_dir && decode_utf8(
                    children[i].name@,
                ) == other {
                let i = choose|i: int|
                    0 <= i < children.len() && (#[trigger] children[i]).is_dir && decode_utf8(
                        children[i].name@,
                    ) == other;
                if i < n {
                    assert(before.contains(other));
                    let k = choose|k: int| 0 <= k < before.len() && before[k] == other;
                    assert(names[k] == other);
                } else {
                    assert(names[names.len() - 1] == other);
                }
            }
        }
    }
}

/// The directories in `listing` beside the one called `name`, sorted.
///
/// An unreadable listing is an error. So is a directory in it whose name is
/// not text, wherever it stands. Entries that are no directories are passed
/// over, whatever their names.
pub fn dirs_in(listing: &Listing, name: &str) -> (dirs: Result<Vec<String>, RenderError>)
    ensures
        *listing is Unreadable ==> dirs matches Err(RenderError::UnreadableListing),
        listing matches Listing::Children(children) ==> has_unnamed_dir(children@) ==> dirs matches Err(
            RenderError::UndecodableName,
        ),
        listing matches Listing::Children(children) ==> !has_unnamed_dir(children@) ==> (dirs matches Ok(
            found,
        ) && found.deep_view().to_multiset() == sibling_names(children@, name@).to_multiset()
            && ascending(found.deep_view())),
{
    match listing {
        Listing::Unreadable => Err(RenderError::UnreadableListing),
        Listing::Children(children) => {
            let own = name.to_owned();
            let mut found: Vec<String> = Vec::new();
            let mut i: usize = 0;
            assert(sibling_names(children@.take(0), name@) =~= Seq::empty()) by {
                reveal(Seq::filter);
            }
            while i < children.len()
                invariant
                    *listing == Listing::Children(*children),
                    i <= children@.len(),
                    own@ == name@,
                    forall|j: int| 0 <= j < i ==> !is_unnamed_dir(#[trigger] children@[j]),
                    found.deep_view() == sibling_names(children@.take(i as int), name@),
                decreases children@.len() - i,
            {
                let child = &children[i];
                proof {
                    lemma_sibling_names_step(children@, name@, i as int);
                }
                if child.is_dir {
                    match name_to_string(child.name.as_slice()) {
                        None => {
                            return Err(RenderError::UndecodableName);
                        },
                        Some(text) => {
                            if text != own {
                                found.push(text);
                            }
                        },
                    }
                }
                i += 1;
            }
            assert(children@.take(i as int) == children@);
            sort_names(&mut found);
            Ok(found)
        },
    }
}

/// The last name of `path`, cut to its shortest unique prefix among the
/// directories in the listing of the directory that holds it.
///
/// A path without a last name that is text fails first, then an unreadable
/// listing, then a directory in the listing whose name is not text.
pub open spec fn abbreviated(path: Seq<Seq<u8>>, listing: Listing) -> Result<
    Seq<char>,
    RenderError,
> {
    match file_name_text(path) {
        None => Err(RenderError::UndecodableName),
        Some(name) => match listing {
            Listing::Unreadable => Err(RenderError::UnreadableListing),
            Listing::Children(children) => if has_unnamed_dir(children@) {
                Err(RenderError::UndecodableName)
            } else {
                Ok(shortest_unique(name, sibling_names(children@, name)))
            },
        },
    }
}

/// Two lists that hold the same names equally often hold the same set of
/// names.
proof fn lemma_same_names(a: Seq<Seq<char>>, b: Seq<Seq<char>>)
    requires
        a.to_multiset() == b.to_multiset(),
    ensures
        a.to_set() == b.to_set(),
{
    assert forall|name: Seq<char>| a.contains(name) == b.contains(name) by {
        to_multiset_contains(a, name);
        to_multiset_contains(b, name);
    }
}

fn as_strs<'a>(names: &'a Vec<String>) -> (strs: Vec<&'a str>)
    ensures
        strs.deep_view() == names.deep_view(),
{
    let mut strs: Vec<&'a str> = Vec::new();
    let mut i: usize = 0;
    while i < names.len()
        invariant
            i <= names@.len(),
            strs@.len() == i,
            forall|j: int| 0 <= j < i ==> (#[trigger] strs@[j])@ == names@[j]@,
        decreases names@.len() - i,
    {
        strs.push(names[i].as_str());
        i += 1;
    }
    strs
}

/// Cuts the last name of `path` to its shortest unique prefix among the
/// directories beside it, which `listing` holds.
pub fn shortest_unique_path_prefix(path: &[Vec<u8>], listing: &Listing) -> (prefix: Result<
    String,
    RenderError,
>)
    ensures
        text_of(prefix) == abbreviated(path.deep_view(), *listing),
{
    let name = match path_file_name_to_string(path) {
        Some(name) => name,
        None => {
            return Err(RenderError::UndecodableName);
        },
    };
    let dirs = match dirs_in(listing, name.as_str()) {
        Ok(dirs) => dirs,
        Err(error) => {
            return Err(error);
        },
    };
    let strs = as_strs(&dirs);
    proof {
        if let Listing::Children(children) = listing {
            lemma_same_names(dirs.deep_view(), sibling_names(children@, name@));
            lemma_prefix_by_set(name@, dirs.deep_view(), sibling_names(children@, name@));
        }
    }
    match shortest_unique_prefix(name.as_str(), strs.as_slice()) {
        Cow::Borrowed(whole) => Ok(whole.to_owned()),
        Cow::Owned(cut) => Ok(cut),
    }
}

} // verus!
