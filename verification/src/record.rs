//! Change records: one edit instruction per record, the path-containment
//! guard, and the error kinds the engine surfaces.

use vstd::prelude::*;
use crate::lines::LineOrLines;
use crate::locate::MatchDiagnostic;
use crate::text::chars_of;

verus! {

/// One operation of a change record, a closed sum: each variant carries only
/// the fields that command needs.
#[derive(Debug)]
pub enum Command {
    InsertAfter { insert_lines: LineOrLines, marker_lines: LineOrLines },
    InsertBefore { insert_lines: LineOrLines, marker_lines: LineOrLines },
    Delete { delete_lines: LineOrLines },
    CreateFile { new_lines: LineOrLines },
    RenameFile { new_filename: String },
    DeleteFile,
}

/// One edit instruction: the file it targets, the operation, and a
/// human-readable justification that is reported but never interpreted.
#[derive(Debug)]
pub struct Change {
    pub filename: String,
    pub command: Command,
    pub reason: String,
}

/// The error kinds the engine surfaces for one record.
#[derive(Debug)]
pub enum PatchError {
    /// The target path is absolute or traverses above the working directory.
    PathEscapesRoot,
    /// `CreateFile` found the target already present.
    AlreadyExists,
    /// The file is missing for an operation that requires it to exist.
    NotFound,
    /// No window of the file was acceptably close to the marker; the best
    /// candidate, when any window existed, accompanies the error.
    MarkerNotFound { best: Option<MatchDiagnostic> },
    /// An underlying read, write or rename failed.
    IoError,
    /// The input document does not match the expected shape.
    PayloadMalformed,
}

/// What closing one path component does to the depth below the working
/// directory: `..` ascends, `.` and an empty component are ignored, any other
/// name descends.
pub open spec fn component_step(depth: int, comp: Seq<char>) -> int {
    if comp == seq!['.', '.'] {
        depth - 1
    } else if comp.len() == 0 || comp == seq!['.'] {
        depth
    } else {
        depth + 1
    }
}

/// Scans the path from position `i` with `depth` directories entered so far
/// and `comp` the open component; holds when the walk never ascends above the
/// starting directory.
pub open spec fn scan_stays_inside(p: Seq<char>, i: int, depth: int, comp: Seq<char>) -> bool
    recommends
        0 <= i <= p.len(),
    decreases p.len() - i,
{
    if i < 0 || i >= p.len() {
        component_step(depth, comp) >= 0
    } else if p[i] == '/' {
        let d = component_step(depth, comp);
        &&& d >= 0
        &&& scan_stays_inside(p, i + 1, d, Seq::empty())
    } else {
        scan_stays_inside(p, i + 1, depth, comp.push(p[i]))
    }
}

/// A path that is relative and never traverses above the working directory.
pub open spec fn path_stays_inside(p: Seq<char>) -> bool {
    &&& !(p.len() > 0 && p[0] == '/')
    &&& scan_stays_inside(p, 0, 0, Seq::empty())
}

/// Decides `path_stays_inside`: the target must be relative and must never
/// escape the working directory through parent-traversal components.
pub fn is_file_in_current_directory(path: &str) -> (r: bool)
    ensures
        r == path_stays_inside(path@),
{
    let chars = chars_of(path);
    if chars.len() > 0 && chars[0] == '/' {
        return false;
    }
    let mut depth: usize = 0;
    let mut comp: Vec<char> = Vec::new();
    let mut i: usize = 0;
    while i < chars.len()
        invariant
            i <= chars@.len(),
            chars@ == path@,
            depth <= i,
            scan_stays_inside(path@, 0, 0, Seq::empty()) == scan_stays_inside(
                path@,
                i as int,
                depth as int,
                comp@,
            ),
        decreases chars@.len() - i,
    {
        let c = chars[i];
        if c == '/' {
            let is_dotdot = comp.len() == 2 && comp[0] == '.' && comp[1] == '.';
            let is_skip = comp.len() == 0 || (comp.len() == 1 && comp[0] == '.');
            proof {
                if is_dotdot {
                    assert(comp@ =~= seq!['.', '.']);
                }
                if comp.len() == 1 && comp@[0] == '.' {
                    assert(comp@ =~= seq!['.']);
                }
                if !is_dotdot {
                    assert(comp@ != seq!['.', '.']) by {
                        assert(seq!['.', '.'].len() == 2);
                        if comp@.len() == 2 {
                            assert(comp@[0] != '.' || comp@[1] != '.');
                        }
                    }
                }
                if comp.len() != 1 || comp@[0] != '.' {
                    assert(comp@ != seq!['.']) by {
                        assert(seq!['.'].len() == 1);
                    }
                }
            }
            if is_dotdot {
                if depth == 0 {
                    proof {
                        assert(!scan_stays_inside(path@, i as int, depth as int, comp@));
                    }
                    return false;
                }
                depth = depth - 1;
            } else if !is_skip {
                depth = depth + 1;
            }
            comp = Vec::new();
            proof {
                assert(comp@ =~= Seq::<char>::empty());
            }
        } else {
            comp.push(c);
        }
        i = i + 1;
    }
    let is_dotdot = comp.len() == 2 && comp[0] == '.' && comp[1] == '.';
    proof {
        if is_dotdot {
            assert(comp@ =~= seq!['.', '.']);
        } else {
            assert(comp@ != seq!['.', '.']) by {
                assert(seq!['.', '.'].len() == 2);
                if comp@.len() == 2 {
                    assert(comp@[0] != '.' || comp@[1] != '.');
                }
            }
        }
        if comp.len() == 1 && comp@[0] == '.' {
            assert(comp@ =~= seq!['.']);
        }
    }
    if is_dotdot && depth == 0 {
        return false;
    }
    proof {
        assert(component_step(depth as int, comp@) >= 0);
    }
    true
}

/// The batch failure policy, chosen once for the whole engine: any failed
/// record aborts the rest of the batch, except a path-containment rejection,
/// which only skips that one record.
pub fn error_halts_batch(e: &PatchError) -> (r: bool)
    ensures
        r == !(e is PathEscapesRoot),
{
    match e {
        PatchError::PathEscapesRoot => false,
        _ => true,
    }
}

} // verus!
