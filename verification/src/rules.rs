//! The rules that mirror and move modes share about destinations: the
//! marker files, the names that are never copied, moved or deleted, when a
//! destination is refused, and what each file's turn does.

use vstd::prelude::*;
use crate::config_model::path_join;
use crate::paths::{file_name_or_empty, segments};
use crate::text::{chars_eq, chars_eq_str, push_str, str_chars};

verus! {

pub open spec fn new_marker() -> Seq<char> {
    ".exsync-managed"@
}

pub open spec fn legacy_marker() -> Seq<char> {
    ".external-sync-managed"@
}

pub open spec fn tmp_prefix() -> Seq<char> {
    ".exsync-tmp."@
}

pub open spec fn is_marker_spec(name: Seq<char>) -> bool {
    name == new_marker() || name == legacy_marker()
}

/// Names that mirror mode neither copies nor deletes: the two markers and
/// `.DS_Store`.
pub open spec fn is_skipped_spec(name: Seq<char>) -> bool {
    is_marker_spec(name) || name == crate::matcher::ds_store()
}

pub open spec fn starts_with(s: Seq<char>, p: Seq<char>) -> bool {
    p.len() <= s.len() && s.subrange(0, p.len() as int) == p
}

/// Bookkeeping names that move mode never moves, completes or counts:
/// the markers, `.DS_Store`, manifests and temporary copies.
pub open spec fn is_special_spec(name: Seq<char>) -> bool {
    ||| is_skipped_spec(name)
    ||| starts_with(name, crate::manifest::manifest_prefix())
    ||| starts_with(name, tmp_prefix())
}

pub fn is_marker_name(name: &str) -> (r: bool)
    ensures
        r == is_marker_spec(name@),
{
    let v = str_chars(name);
    chars_eq_str(&v, ".exsync-managed") || chars_eq_str(&v, ".external-sync-managed")
}

pub fn is_skipped_copy_name(name: &str) -> (r: bool)
    ensures
        r == is_skipped_spec(name@),
{
    is_marker_name(name) || {
        let v = str_chars(name);
        let w = vec!['.', 'D', 'S', '_', 'S', 't', 'o', 'r', 'e'];
        assert(w@ =~= crate::matcher::ds_store());
        chars_eq(&v, &w)
    }
}

fn starts_with_exec(s: &Vec<char>, p: &str) -> (r: bool)
    ensures
        r == starts_with(s@, p@),
{
    let pv = str_chars(p);
    if pv.len() > s.len() {
        return false;
    }
    let head = crate::text::subvec(s, 0, pv.len());
    chars_eq(&head, &pv)
}

pub fn is_special_name(name: &str) -> (r: bool)
    ensures
        r == is_special_spec(name@),
{
    if is_skipped_copy_name(name) {
        return true;
    }
    let v = str_chars(name);
    starts_with_exec(&v, ".exsync-manifest.") || starts_with_exec(&v, ".exsync-tmp.")
}

/// A manifest file: `.exsync-manifest.<entry>`.
pub fn is_manifest_name(name: &str) -> (r: bool)
    ensures
        r == starts_with(name@, crate::manifest::manifest_prefix()),
{
    let v = str_chars(name);
    starts_with_exec(&v, ".exsync-manifest.")
}

/// A temporary copy left by an interrupted move: `.exsync-tmp.<file>.<pid>`.
pub fn is_temp_name(name: &str) -> (r: bool)
    ensures
        r == starts_with(name@, tmp_prefix()),
{
    let v = str_chars(name);
    starts_with_exec(&v, ".exsync-tmp.")
}

/// The content of a current marker file.
pub open spec fn marker_content() -> Seq<u8> {
    seq![101u8, 120, 115, 121, 110, 99, 45, 109, 97, 110, 97, 103, 101, 100, 10]
}

/// A marker file is rewritten unless it holds exactly `exsync-managed\n`.
pub fn marker_needs_rewrite(content: &[u8]) -> (r: bool)
    ensures
        r == (content@ != marker_content()),
{
    let want: [u8; 15] = [101u8, 120, 115, 121, 110, 99, 45, 109, 97, 110, 97, 103, 101, 100, 10];
    assert(want@ =~= marker_content());
    if content.len() != 15 {
        return true;
    }
    let mut i: usize = 0;
    while i < 15
        invariant
            i <= 15,
            content@.len() == 15,
            want@ == marker_content(),
            forall|k: int| 0 <= k < i ==> content@[k] == want@[k],
        decreases 15 - i,
    {
        if content[i] != want[i] {
            return true;
        }
        i = i + 1;
    }
    assert(content@ =~= marker_content());
    false
}

/// The destination of an entry: `<volumes root>/<drive>/<dest>`, joined as
/// paths are joined.
pub fn entry_dest(vol_root: &str, drive: &str, dest: &str) -> (r: String)
    ensures
        r@ == path_join(path_join(vol_root@, drive@), dest@),
{
    let d = crate::paths::join_path(vol_root, drive);
    crate::paths::join_path(d.as_str(), dest)
}

/// Directory-entry names that are valid Unicode, or `None` for one that is
/// not.
pub open spec fn opt_names_view(v: Seq<Option<String>>) -> Seq<Option<Seq<char>>> {
    Seq::new(
        v.len(),
        |i: int|
            match v[i] {
                Some(s) => Some(s@),
                None => None,
            },
    )
}

/// Mirror mode refuses an existing destination that is not a directory
/// (or is a symlink), or that holds something besides the markers and
/// `.DS_Store` while carrying no marker.
pub open spec fn mirror_refuses_spec(plain_dir: bool, has_marker: bool, names: Seq<Option<Seq<char>>>) -> bool {
    !plain_dir || (!has_marker && exists|i: int|
        0 <= i < names.len() && !(#[trigger] names[i] matches Some(n) && is_skipped_spec(n)))
}

pub fn mirror_refuses(plain_dir: bool, has_marker: bool, names: &Vec<Option<String>>) -> (r: bool)
    ensures
        r == mirror_refuses_spec(plain_dir, has_marker, opt_names_view(names@)),
{
    if !plain_dir {
        return true;
    }
    let mut i: usize = 0;
    while i < names.len()
        invariant
            i <= names.len(),
            plain_dir,
            forall|k: int|
                0 <= k < i ==> (#[trigger] opt_names_view(names@)[k] matches Some(n) && is_skipped_spec(n)),
        decreases names.len() - i,
    {
        match &names[i] {
            Some(n) => {
                assert(opt_names_view(names@)[i as int] == Some(n@));
                if !is_skipped_copy_name(n.as_str()) {
                    return !has_marker;
                }
            },
            None => {
                assert(opt_names_view(names@)[i as int] is None);
                return !has_marker;
            },
        }
        i = i + 1;
    }
    false
}

pub open spec fn has_manifest_spec(names: Seq<Option<Seq<char>>>) -> bool {
    exists|i: int|
        0 <= i < names.len() && (#[trigger] names[i] matches Some(n) && starts_with(
            n,
            crate::manifest::manifest_prefix(),
        ))
}

/// Move mode refuses an existing destination that is not a plain
/// directory, or that holds something besides bookkeeping names while
/// carrying neither a marker nor a manifest.
pub open spec fn move_refuses_spec(plain_dir: bool, has_marker: bool, names: Seq<Option<Seq<char>>>) -> bool {
    !plain_dir || (!(has_marker || has_manifest_spec(names)) && exists|i: int|
        0 <= i < names.len() && !(#[trigger] names[i] matches Some(n) && is_special_spec(n)))
}

/// Some name is a manifest file.
pub fn has_manifest_name(names: &Vec<Option<String>>) -> (r: bool)
    ensures
        r == has_manifest_spec(opt_names_view(names@)),
{
    let mut i: usize = 0;
    while i < names.len()
        invariant
            i <= names.len(),
            forall|k: int|
                0 <= k < i ==> !(#[trigger] opt_names_view(names@)[k] matches Some(n) && starts_with(
                    n,
                    crate::manifest::manifest_prefix(),
                )),
        decreases names.len() - i,
    {
        match &names[i] {
            Some(n) => {
                let v = str_chars(n.as_str());
                assert(opt_names_view(names@)[i as int] == Some(n@));
                if starts_with_exec(&v, ".exsync-manifest.") {
                    return true;
                }
            },
            None => {},
        }
        i = i + 1;
    }
    false
}

pub fn move_refuses(plain_dir: bool, has_marker: bool, names: &Vec<Option<String>>) -> (r: bool)
    ensures
        r == move_refuses_spec(plain_dir, has_marker, opt_names_view(names@)),
{
    if !plain_dir {
        return true;
    }
    if has_marker || has_manifest_name(names) {
        return false;
    }
    let mut i: usize = 0;
    while i < names.len()
        invariant
            i <= names.len(),
            plain_dir,
            !(has_marker || has_manifest_spec(opt_names_view(names@))),
            forall|k: int|
                0 <= k < i ==> (#[trigger] opt_names_view(names@)[k] matches Some(n)
                    && is_special_spec(n)),
        decreases names.len() - i,
    {
        match &names[i] {
            Some(n) => {
                assert(opt_names_view(names@)[i as int] == Some(n@));
                if !is_special_name(n.as_str()) {
                    return true;
                }
            },
            None => {
                assert(opt_names_view(names@)[i as int] is None);
                return true;
            },
        }
        i = i + 1;
    }
    false
}

/// Mirror mode copies a selected file unless its name is skipped or some
/// component of its relative path is a marker name.
pub open spec fn mirror_copies_spec(rel: Seq<char>) -> bool {
    &&& !is_skipped_spec(file_name_or_empty(rel))
    &&& forall|i: int| 0 <= i < segments(rel).len() ==> !is_marker_spec(#[trigger] segments(rel)[i])
}

pub fn mirror_copies(rel: &str) -> (r: bool)
    ensures
        r == mirror_copies_spec(rel@),
{
    let name = crate::paths::file_name_of(rel);
    if is_skipped_copy_name(name.as_str()) {
        return false;
    }
    let segs = crate::paths::slash_segments(rel);
    let mut i: usize = 0;
    while i < segs.len()
        invariant
            i <= segs.len(),
            crate::config::strs(segs@) == segments(rel@),
            forall|k: int| 0 <= k < i ==> !is_marker_spec(#[trigger] segments(rel@)[k]),
        decreases segs.len() - i,
    {
        assert(crate::config::strs(segs@)[i as int] == segs@[i as int]@);
        if is_marker_name(segs[i].as_str()) {
            return false;
        }
        i = i + 1;
    }
    true
}

/// Mirror mode deletes a destination file only when its name is not
/// skipped, its copy did not fail, and the source has no file at the same
/// relative path.
pub fn mirror_deletes(name: &str, in_source: bool, failed: bool) -> (r: bool)
    ensures
        r == (!is_skipped_spec(name@) && !failed && !in_source),
{
    !is_skipped_copy_name(name) && !failed && !in_source
}

/// What move mode does with one selected file.
#[derive(Debug, Clone, Copy, PartialEq, Eq, Structural)]
pub enum MoveStep {
    /// Copy, verify and commit, then unlink the source.
    Copy,
    /// The destination already holds identical bytes: unlink the source
    /// without a second copy.
    Duplicate,
    /// The destination holds other bytes under the same name: leave both.
    Collision,
}

/// A file with no destination counterpart is copied; one whose counterpart
/// has the same size and modification time and the same bytes is a
/// duplicate; any other counterpart is a collision.
pub fn move_step(dest_exists: bool, same_size_mtime: bool, same_bytes: bool) -> (r: MoveStep)
    ensures
        r == (if !dest_exists {
            MoveStep::Copy
        } else if same_size_mtime && same_bytes {
            MoveStep::Duplicate
        } else {
            MoveStep::Collision
        }),
{
    if !dest_exists {
        MoveStep::Copy
    } else if same_size_mtime && same_bytes {
        MoveStep::Duplicate
    } else {
        MoveStep::Collision
    }
}

/// A committed destination file gets its manifest line on a later run when
/// no manifest lists it (a manifest that cannot be read counts as listing
/// it) and its source is gone.
pub fn needs_completion(listed: Option<bool>, source_present: bool) -> (r: bool)
    ensures
        r == (listed == Some(false) && !source_present),
{
    match listed {
        Some(false) => !source_present,
        _ => false,
    }
}

/// `PLAN <mode> <rel>`: what a dry run prints for one file.
pub fn plan_line(mode: &str, rel: &str) -> (r: String)
    ensures
        r@ == "PLAN "@ + mode@ + " "@ + rel@,
{
    let mut r = String::new();
    push_str(&mut r, "PLAN ");
    push_str(&mut r, mode);
    push_str(&mut r, " ");
    push_str(&mut r, rel);
    assert(r@ =~= "PLAN "@ + mode@ + " "@ + rel@);
    r
}

/// `<name>: <what>`: the body of a notification about an entry.
pub fn notice(name: &str, what: &str) -> (r: String)
    ensures
        r@ == name@ + ": "@ + what@,
{
    let mut r = String::new();
    push_str(&mut r, name);
    push_str(&mut r, ": ");
    push_str(&mut r, what);
    assert(r@ =~= name@ + ": "@ + what@);
    r
}

} // verus!
