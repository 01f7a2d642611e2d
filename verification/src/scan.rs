//! The directory scanner's selection rule: of the entries directly inside the
//! autostart directory, keep the regular files whose name carries the
//! descriptor extension; a path that is no directory yields an empty result,
//! not an error.

use vstd::prelude::*;
use vstd::string::StrSliceExecFns;

use crate::text::str_eq;

verus! {

/// One directory entry as the scanner sees it: its file name and whether it
/// is a regular file (a symlink resolved to a regular file counts; a
/// directory, or a symlink to one, does not).
pub struct FsEntry {
    pub name: String,
    pub is_file: bool,
}

/// Whether a file name ends in the descriptor extension, with a non-empty
/// stem before it.
pub open spec fn is_desktop_name(n: Seq<char>) -> bool {
    n.len() > ".desktop"@.len() && n.skip(n.len() - ".desktop"@.len()) == ".desktop"@
}

/// The names of the regular files with the descriptor extension, in the order
/// the entries were given.
pub open spec fn desktop_names(s: Seq<FsEntry>) -> Seq<Seq<char>>
    decreases s.len(),
{
    if s.len() == 0 {
        Seq::empty()
    } else {
        let rest = desktop_names(s.drop_last());
        if s.last().is_file && is_desktop_name(s.last().name@) {
            rest.push(s.last().name@)
        } else {
            rest
        }
    }
}

/// What a directory scan returns: nothing for a path that is no directory,
/// else the descriptor file names among its entries.
pub open spec fn scan_spec(dir_is_dir: bool, s: Seq<FsEntry>) -> Seq<Seq<char>> {
    if dir_is_dir {
        desktop_names(s)
    } else {
        Seq::empty()
    }
}

/// Whether `name` ends in the descriptor extension.
fn has_desktop_ext(name: &str) -> (b: bool)
    ensures
        b == is_desktop_name(name@),
{
    proof {
        reveal_strlit(".desktop");
    }
    let n: usize = name.unicode_len();
    if n > 8 {
        let suf = name.substring_char(n - 8, n);
        proof {
            assert(name@.subrange(n - 8, n as int) =~= name@.skip(n - 8));
        }
        str_eq(suf, ".desktop")
    } else {
        false
    }
}

/// The descriptor files among a directory's entries: regular files whose name
/// ends in the descriptor extension. A path that is no directory (including a
/// path that does not exist) yields an empty result without error; nothing is
/// taken from subdirectories.
pub fn list_desktop_files(dir_is_dir: bool, entries: &Vec<FsEntry>) -> (r: Vec<String>)
    ensures
        r.deep_view() == scan_spec(dir_is_dir, entries@),
{
    let mut r: Vec<String> = Vec::new();
    proof {
        assert(r.deep_view() =~= Seq::<Seq<char>>::empty());
    }
    if !dir_is_dir {
        return r;
    }
    proof {
        assert(entries@.take(0) =~= Seq::<FsEntry>::empty());
    }
    let mut i: usize = 0;
    while i < entries.len()
        invariant
            0 <= i <= entries@.len(),
            r.deep_view() == desktop_names(entries@.take(i as int)),
        decreases entries@.len() - i,
    {
        let e = &entries[i];
        let ghost r0 = r.deep_view();
        if e.is_file && has_desktop_ext(e.name.as_str()) {
            r.push(e.name.clone());
            proof {
                assert(r.deep_view() =~= r0.push(e.name@));
            }
        }
        proof {
            assert(entries@.take(i + 1).drop_last() =~= entries@.take(i as int));
            assert(entries@.take(i + 1).last() == entries@[i as int]);
        }
        i = i + 1;
    }
    proof {
        assert(entries@.take(entries@.len() as int) =~= entries@);
    }
    r
}

} // verus!
