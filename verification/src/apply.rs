//! The patch applicator: executes one change record against the current file
//! content, purely.  Every mutation is a whole-file transform: the caller
//! reads the file's lines, this module derives the new lines, the caller
//! writes them back wholesale.

use vstd::prelude::*;
use crate::lines::{clone_lines, LineOrLines};
use crate::locate::{
    diag_describes_best, lemma_locate_spec_range, lemma_locator_finds_exact_window, locate_marker,
    locate_spec, needle_all_blank, needle_is_blank, window_trim_equal,
};
use crate::record::{is_file_in_current_directory, path_stays_inside, Change, Command, PatchError};
use crate::text::{chars_eq, chars_of, join_nl, lines_total_chars, newline_free, trim_chars, trimmed};

verus! {

/// The splice: the lines outside `[at, at + remove)` kept, the removed range
/// replaced by `insert`.
pub open spec fn spliced(
    lines: Seq<Seq<char>>,
    at: int,
    remove: int,
    insert: Seq<Seq<char>>,
) -> Seq<Seq<char>> {
    lines.subrange(0, at) + insert + lines.subrange(at + remove, lines.len() as int)
}

/// Splices executably: clones the kept lines around the removed range and the
/// inserted lines into a fresh vector.
pub fn splice_lines(lines: &Vec<String>, at: usize, remove: usize, insert: &Vec<String>) -> (r:
    Vec<String>)
    requires
        at + remove <= lines@.len(),
    ensures
        r.deep_view() == spliced(
            lines.deep_view(),
            at as int,
            remove as int,
            insert.deep_view(),
        ),
{
    let mut r: Vec<String> = Vec::new();
    let mut i: usize = 0;
    while i < at
        invariant
            i <= at,
            at + remove <= lines@.len(),
            r@.len() == i,
            forall|j: int| 0 <= j < i ==> (#[trigger] r@[j])@ == lines@[j]@,
        decreases at - i,
    {
        r.push(lines[i].clone());
        i = i + 1;
    }
    let mut p: usize = 0;
    while p < insert.len()
        invariant
            p <= insert@.len(),
            at + remove <= lines@.len(),
            r@.len() == at + p,
            forall|j: int| 0 <= j < at ==> (#[trigger] r@[j])@ == lines@[j]@,
            forall|j: int| at <= j < at + p ==> (#[trigger] r@[j])@ == insert@[j - at]@,
        decreases insert@.len() - p,
    {
        r.push(insert[p].clone());
        p = p + 1;
    }
    let total = lines.len();
    let mut q: usize = at + remove;
    while q < total
        invariant
            at + remove <= q <= total,
            total == lines@.len(),
            r@.len() == at + insert@.len() + (q - at - remove),
            forall|j: int| 0 <= j < at ==> (#[trigger] r@[j])@ == lines@[j]@,
            forall|j: int|
                at <= j < at + insert@.len() ==> (#[trigger] r@[j])@ == insert@[j - at]@,
            forall|j: int|
                at + insert@.len() <= j < r@.len() ==> (#[trigger] r@[j])@ == lines@[j
                    - insert@.len() + remove]@,
        decreases total - q,
    {
        r.push(lines[q].clone());
        q = q + 1;
    }
    proof {
        assert(r.deep_view() =~~= spliced(
            lines.deep_view(),
            at as int,
            remove as int,
            insert.deep_view(),
        ));
    }
    r
}

/// The insert lines echo the marker when their leading lines, trimmed, equal
/// the marker's lines, trimmed, one for one.
pub open spec fn echoes_marker(insert: Seq<Seq<char>>, marker: Seq<Seq<char>>) -> bool {
    &&& insert.len() >= marker.len()
    &&& forall|t: int|
        0 <= t < marker.len() ==> trimmed(#[trigger] insert[t]) == trimmed(marker[t])
}

/// The lines actually inserted: when the insert echoes the marker, the echoed
/// leading lines are dropped so the marker is not duplicated.
pub open spec fn strip_echo(insert: Seq<Seq<char>>, marker: Seq<Seq<char>>) -> Seq<Seq<char>> {
    if echoes_marker(insert, marker) {
        insert.subrange(marker.len() as int, insert.len() as int)
    } else {
        insert
    }
}

/// Drops the insert's leading lines when they echo the marker, trimmed line
/// for trimmed line.
pub fn strip_marker_echo(insert: &Vec<String>, marker: &Vec<String>) -> (r: Vec<String>)
    ensures
        r.deep_view() == strip_echo(insert.deep_view(), marker.deep_view()),
{
    let ghost idv = insert.deep_view();
    let ghost mdv = marker.deep_view();
    if insert.len() < marker.len() {
        return clone_lines(insert);
    }
    let mut t: usize = 0;
    while t < marker.len()
        invariant
            t <= marker@.len() <= insert@.len(),
            idv == insert.deep_view(),
            mdv == marker.deep_view(),
            forall|u: int| 0 <= u < t ==> trimmed(#[trigger] idv[u]) == trimmed(mdv[u]),
        decreases marker@.len() - t,
    {
        let ics = chars_of(insert[t].as_str());
        let ia = trim_chars(&ics);
        let mcs = chars_of(marker[t].as_str());
        let ma = trim_chars(&mcs);
        if !chars_eq(&ia, &ma) {
            proof {
                assert(trimmed(idv[t as int]) != trimmed(mdv[t as int]));
                assert(!echoes_marker(idv, mdv));
            }
            return clone_lines(insert);
        }
        t = t + 1;
    }
    proof {
        assert(echoes_marker(idv, mdv));
    }
    let mut r: Vec<String> = Vec::new();
    let mut i: usize = marker.len();
    while i < insert.len()
        invariant
            marker@.len() <= i <= insert@.len(),
            idv == insert.deep_view(),
            r@.len() == i - marker@.len(),
            forall|j: int|
                0 <= j < r@.len() ==> (#[trigger] r@[j])@ == idv[j + marker@.len()],
        decreases insert@.len() - i,
    {
        r.push(insert[i].clone());
        i = i + 1;
    }
    proof {
        assert(r.deep_view() =~~= idv.subrange(mdv.len() as int, idv.len() as int));
    }
    r
}

/// What `InsertBefore` produces: the stripped insert lines spliced in at the
/// located marker, or nothing when no acceptable occurrence exists.
pub open spec fn insert_before_result(
    file: Seq<Seq<char>>,
    insert: Seq<Seq<char>>,
    marker: Seq<Seq<char>>,
) -> Option<Seq<Seq<char>>> {
    match locate_spec(file, marker) {
        Some(i) => Some(spliced(file, i, 0, strip_echo(insert, marker))),
        None => None,
    }
}

/// What `InsertAfter` produces: an all-blank marker against an empty file
/// makes the insert the whole new file; otherwise the stripped insert lines
/// are spliced in after the located occurrence, which must fit in the file.
pub open spec fn insert_after_result(
    file: Seq<Seq<char>>,
    insert: Seq<Seq<char>>,
    marker: Seq<Seq<char>>,
) -> Option<Seq<Seq<char>>> {
    if needle_all_blank(marker) && file.len() == 0 {
        Some(insert)
    } else {
        match locate_spec(file, marker) {
            Some(i) => if i + marker.len() <= file.len() {
                Some(spliced(file, i + marker.len(), 0, strip_echo(insert, marker)))
            } else {
                None
            },
            None => None,
        }
    }
}

/// What `Delete` produces: exactly `target.len()` lines removed at the
/// located occurrence, which must fit in the file.
pub open spec fn delete_result(file: Seq<Seq<char>>, target: Seq<Seq<char>>) -> Option<
    Seq<Seq<char>>,
> {
    match locate_spec(file, target) {
        Some(i) => if i + target.len() <= file.len() {
            Some(spliced(file, i, target.len() as int, Seq::empty()))
        } else {
            None
        },
        None => None,
    }
}

/// Applies `InsertBefore`: locates the marker and splices the (possibly
/// echo-stripped) insert lines immediately before it.
pub fn apply_insert_before(
    file_lines: &Vec<String>,
    insert: &LineOrLines,
    marker: &LineOrLines,
) -> (r: Result<Vec<String>, PatchError>)
    requires
        lines_total_chars(file_lines.deep_view()) < usize::MAX,
        lines_total_chars(marker@) < usize::MAX,
    ensures
        match insert_before_result(file_lines.deep_view(), insert@, marker@) {
            Some(v) => r matches Ok(new) && new.deep_view() == v,
            None => r matches Err(PatchError::MarkerNotFound { best }) && diag_describes_best(
                file_lines.deep_view(),
                marker@,
                best,
            ),
        },
{
    let ghost fdv = file_lines.deep_view();
    let marker_v = marker.lines();
    let insert_v = insert.lines();
    let (found, diag) = locate_marker(file_lines.as_slice(), marker_v.as_slice());
    match found {
        Some(idx) => {
            proof {
                lemma_locate_spec_range(fdv, marker@);
            }
            let ins = strip_marker_echo(&insert_v, &marker_v);
            Ok(splice_lines(file_lines, idx, 0, &ins))
        },
        None => Err(PatchError::MarkerNotFound { best: diag }),
    }
}

/// Applies `InsertAfter`: an all-blank marker on an empty file writes the
/// insert as the whole new file; otherwise locates the marker and splices the
/// (possibly echo-stripped) insert lines immediately after it.
pub fn apply_insert_after(
    file_lines: &Vec<String>,
    insert: &LineOrLines,
    marker: &LineOrLines,
) -> (r: Result<Vec<String>, PatchError>)
    requires
        lines_total_chars(file_lines.deep_view()) < usize::MAX,
        lines_total_chars(marker@) < usize::MAX,
    ensures
        match insert_after_result(file_lines.deep_view(), insert@, marker@) {
            Some(v) => r matches Ok(new) && new.deep_view() == v,
            None => r matches Err(PatchError::MarkerNotFound { best }) && diag_describes_best(
                file_lines.deep_view(),
                marker@,
                best,
            ),
        },
{
    let ghost fdv = file_lines.deep_view();
    let marker_v = marker.lines();
    let insert_v = insert.lines();
    if file_lines.len() == 0 && needle_is_blank(marker_v.as_slice()) {
        return Ok(clone_lines(&insert_v));
    }
    let (found, diag) = locate_marker(file_lines.as_slice(), marker_v.as_slice());
    match found {
        Some(idx) => {
            proof {
                lemma_locate_spec_range(fdv, marker@);
            }
            let k = marker_v.len();
            if k <= file_lines.len() - idx {
                let ins = strip_marker_echo(&insert_v, &marker_v);
                Ok(splice_lines(file_lines, idx + k, 0, &ins))
            } else {
                Err(PatchError::MarkerNotFound { best: diag })
            }
        },
        None => Err(PatchError::MarkerNotFound { best: diag }),
    }
}

/// Applies `Delete`: locates the target and removes exactly its line count at
/// the located index.
pub fn apply_delete(file_lines: &Vec<String>, target: &LineOrLines) -> (r: Result<
    Vec<String>,
    PatchError,
>)
    requires
        lines_total_chars(file_lines.deep_view()) < usize::MAX,
        lines_total_chars(target@) < usize::MAX,
    ensures
        match delete_result(file_lines.deep_view(), target@) {
            Some(v) => r matches Ok(new) && new.deep_view() == v,
            None => r matches Err(PatchError::MarkerNotFound { best }) && diag_describes_best(
                file_lines.deep_view(),
                target@,
                best,
            ),
        },
{
    let ghost fdv = file_lines.deep_view();
    let target_v = target.lines();
    let (found, diag) = locate_marker(file_lines.as_slice(), target_v.as_slice());
    match found {
        Some(idx) => {
            proof {
                lemma_locate_spec_range(fdv, target@);
            }
            let k = target_v.len();
            if k <= file_lines.len() - idx {
                let empty: Vec<String> = Vec::new();
                proof {
                    assert(empty.deep_view() =~~= Seq::<Seq<char>>::empty());
                }
                Ok(splice_lines(file_lines, idx, k, &empty))
            } else {
                Err(PatchError::MarkerNotFound { best: diag })
            }
        },
        None => Err(PatchError::MarkerNotFound { best: diag }),
    }
}

/// What the caller must do to the filesystem for one record: write these
/// lines as the file's whole new content, rename the file, or remove it.
#[derive(Debug)]
pub enum FileAction {
    Write(Vec<String>),
    Rename(String),
    Remove,
}

/// The view of the file content handed to the planner: the file's lines when
/// the caller could read them, nothing when the file was missing.
pub open spec fn opt_lines_view(file_lines: Option<&Vec<String>>) -> Option<Seq<Seq<char>>> {
    match file_lines {
        Some(fl) => Some(fl.deep_view()),
        None => None,
    }
}

/// The planner's full contract, one clause per command: a path outside the
/// working tree is rejected before anything else; `CreateFile` on an existing
/// path reports `AlreadyExists` and plans no write; renames and removals pass
/// through; the three line edits require the file's lines and produce the
/// applier's result or its marker error.
pub open spec fn plan_matches(
    change: Change,
    file_exists: bool,
    lines: Option<Seq<Seq<char>>>,
    r: Result<FileAction, PatchError>,
) -> bool {
    if !path_stays_inside(change.filename@) {
        r == Err::<FileAction, PatchError>(PatchError::PathEscapesRoot)
    } else {
        match change.command {
            Command::CreateFile { new_lines } => {
                if file_exists {
                    r == Err::<FileAction, PatchError>(PatchError::AlreadyExists)
                } else {
                    r matches Ok(FileAction::Write(v)) && v.deep_view() == new_lines@
                }
            },
            Command::RenameFile { new_filename } => {
                r matches Ok(FileAction::Rename(p)) && p@ == new_filename@
            },
            Command::DeleteFile => r matches Ok(FileAction::Remove),
            Command::InsertBefore { insert_lines, marker_lines } => {
                match lines {
                    None => r == Err::<FileAction, PatchError>(PatchError::NotFound),
                    Some(fl) => match insert_before_result(fl, insert_lines@, marker_lines@) {
                        Some(v) => r matches Ok(FileAction::Write(nv)) && nv.deep_view() == v,
                        None => r matches Err(PatchError::MarkerNotFound { best })
                            && diag_describes_best(fl, marker_lines@, best),
                    },
                }
            },
            Command::InsertAfter { insert_lines, marker_lines } => {
                match lines {
                    None => r == Err::<FileAction, PatchError>(PatchError::NotFound),
                    Some(fl) => match insert_after_result(fl, insert_lines@, marker_lines@) {
                        Some(v) => r matches Ok(FileAction::Write(nv)) && nv.deep_view() == v,
                        None => r matches Err(PatchError::MarkerNotFound { best })
                            && diag_describes_best(fl, marker_lines@, best),
                    },
                }
            },
            Command::Delete { delete_lines } => {
                match lines {
                    None => r == Err::<FileAction, PatchError>(PatchError::NotFound),
                    Some(fl) => match delete_result(fl, delete_lines@) {
                        Some(v) => r matches Ok(FileAction::Write(nv)) && nv.deep_view() == v,
                        None => r matches Err(PatchError::MarkerNotFound { best })
                            && diag_describes_best(fl, delete_lines@, best),
                    },
                }
            },
        }
    }
}

/// Plans one change record against the current state: `file_exists` says
/// whether the target path exists, `file_lines` carries the file's lines for
/// the line-editing commands (`None` when the file could not be found).  The
/// caller performs the returned action; an error means nothing is to be done
/// to the file.
pub fn plan_change(change: &Change, file_exists: bool, file_lines: Option<&Vec<String>>) -> (r:
    Result<FileAction, PatchError>)
    requires
        match file_lines {
            Some(fl) => lines_total_chars(fl.deep_view()) < usize::MAX,
            None => true,
        },
        match change.command {
            Command::InsertAfter { marker_lines, .. } => lines_total_chars(marker_lines@)
                < usize::MAX,
            Command::InsertBefore { marker_lines, .. } => lines_total_chars(marker_lines@)
                < usize::MAX,
            Command::Delete { delete_lines } => lines_total_chars(delete_lines@) < usize::MAX,
            _ => true,
        },
    ensures
        plan_matches(*change, file_exists, opt_lines_view(file_lines), r),
{
    if !is_file_in_current_directory(change.filename.as_str()) {
        return Err(PatchError::PathEscapesRoot);
    }
    match &change.command {
        Command::CreateFile { new_lines } => {
            if file_exists {
                Err(PatchError::AlreadyExists)
            } else {
                Ok(FileAction::Write(new_lines.lines()))
            }
        },
        Command::RenameFile { new_filename } => Ok(FileAction::Rename(new_filename.clone())),
        Command::DeleteFile => Ok(FileAction::Remove),
        Command::InsertBefore { insert_lines, marker_lines } => {
            match file_lines {
                None => Err(PatchError::NotFound),
                Some(fl) => match apply_insert_before(fl, insert_lines, marker_lines) {
                    Ok(v) => Ok(FileAction::Write(v)),
                    Err(e) => Err(e),
                },
            }
        },
        Command::InsertAfter { insert_lines, marker_lines } => {
            match file_lines {
                None => Err(PatchError::NotFound),
                Some(fl) => match apply_insert_after(fl, insert_lines, marker_lines) {
                    Ok(v) => Ok(FileAction::Write(v)),
                    Err(e) => Err(e),
                },
            }
        },
        Command::Delete { delete_lines } => {
            match file_lines {
                None => Err(PatchError::NotFound),
                Some(fl) => match apply_delete(fl, delete_lines) {
                    Ok(v) => Ok(FileAction::Write(v)),
                    Err(e) => Err(e),
                },
            }
        },
    }
}

/// The round trip: inserting lines after an exactly-matched marker and then
/// deleting those very lines restores the original file, line for line, and
/// therefore byte for byte once the lines are joined.  `i` is the located
/// marker index; exactness means the inserted block appears trim-for-trim at
/// its insertion point and at no earlier window of the patched file.
pub proof fn lemma_insert_after_then_delete_round_trip(
    file: Seq<Seq<char>>,
    insert: Seq<Seq<char>>,
    marker: Seq<Seq<char>>,
    i: int,
)
    requires
        locate_spec(file, marker) == Some(i),
        0 <= i,
        i + marker.len() <= file.len(),
        strip_echo(insert, marker).len() >= 1,
        !needle_all_blank(strip_echo(insert, marker)),
        forall|t: int|
            0 <= t < strip_echo(insert, marker).len() ==> newline_free(
                trimmed(#[trigger] strip_echo(insert, marker)[t]),
            ),
        forall|l: int| 0 <= l < file.len() ==> newline_free(trimmed(#[trigger] file[l])),
        forall|v: int|
            0 <= v < i + marker.len() ==> !#[trigger] window_trim_equal(
                spliced(file, i + marker.len(), 0, strip_echo(insert, marker)),
                strip_echo(insert, marker),
                v,
            ),
    ensures
        ({
            let ins = strip_echo(insert, marker);
            let new = spliced(file, i + marker.len(), 0, ins);
            &&& insert_after_result(file, insert, marker) == Some(new)
            &&& delete_result(new, ins) == Some(file)
            &&& join_nl(delete_result(new, ins)->0) == join_nl(file)
        }),
{
    let ins = strip_echo(insert, marker);
    let j = i + marker.len() as int;
    let new = spliced(file, j, 0, ins);
    if needle_all_blank(marker) && file.len() == 0 {
        // an empty file admits only the fresh-file branch: the marker fits in
        // the file only when it has no lines, and then nothing is stripped
        assert(marker.len() == 0);
        assert(echoes_marker(insert, marker));
        assert(ins =~= insert);
        assert(new =~= insert);
        assert(insert_after_result(file, insert, marker) == Some(new));
    } else {
        assert(insert_after_result(file, insert, marker) == Some(new));
    }

    // the patched file around the insertion point
    assert(new.len() == file.len() + ins.len());
    assert forall|l: int| 0 <= l < new.len() implies #[trigger] new[l] == (if l < j {
        file[l]
    } else if l < j + ins.len() {
        ins[l - j]
    } else {
        file[l - ins.len()]
    }) by {
        if l < j {
            assert(new[l] == file.subrange(0, j)[l]);
        } else if l < j + ins.len() {
        } else {
            assert(new[l] == file.subrange(j, file.len() as int)[l - j - ins.len()]);
        }
    }

    // the inserted block sits trim-for-trim at `j`, every line of the patched
    // file still trims to something newline-free, and no earlier window is
    // trim-equal, so the locator finds exactly `j`
    assert(window_trim_equal(new, ins, j));
    assert forall|l: int| 0 <= l < new.len() implies newline_free(trimmed(#[trigger] new[l])) by {
        if j <= l < j + ins.len() {
            assert(new[l] == ins[l - j]);
        }
    }
    lemma_locator_finds_exact_window(new, ins, j);
    assert(locate_spec(new, ins) == Some(j));

    // deleting `ins.len()` lines at `j` restores the original lines
    assert(j + ins.len() <= new.len());
    let restored = spliced(new, j, ins.len() as int, Seq::empty());
    assert(restored =~= file);
    assert(delete_result(new, ins) == Some(file));
}

} // verus!
