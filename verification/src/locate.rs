//! The marker locator: given the file's current lines and a target sequence
//! of lines, find the starting index of the best occurrence of the target,
//! tolerating whitespace drift and small edits but never accepting a window
//! whose edit distance exceeds one twentieth of the target's length.

use vstd::prelude::*;
use crate::distance::{edit_dist, edit_distance_chars, lemma_edit_dist_zero};
use crate::text::{
    chars_of, join_lines_chars, join_nl, lemma_join_nl_injective, lemma_join_nl_len,
    lemma_lines_total_map_trimmed, lemma_lines_total_subrange, lines_total_chars, newline_free,
    push_chars, trim_chars, trimmed,
};

verus! {

/// The needle normalized: every line trimmed, order and count kept.  Both
/// sides of the comparison are normalized the same way.
pub open spec fn normalized_needle(needle: Seq<Seq<char>>) -> Seq<Seq<char>> {
    needle.map_values(|l: Seq<char>| trimmed(l))
}

/// Every line of the needle trims to nothing (an empty needle counts): such a
/// needle carries no anchor at all.
pub open spec fn needle_all_blank(needle: Seq<Seq<char>>) -> bool {
    forall|t: int| 0 <= t < needle.len() ==> trimmed(#[trigger] needle[t]).len() == 0
}

/// The needle's single comparison string: normalized lines joined by newlines.
pub open spec fn needle_key(needle: Seq<Seq<char>>) -> Seq<char> {
    join_nl(normalized_needle(needle))
}

/// The window of `k` file lines starting at `i`, each line trimmed, exactly
/// as the needle is normalized.
pub open spec fn window_lines(file: Seq<Seq<char>>, i: int, k: int) -> Seq<Seq<char>> {
    file.subrange(i, i + k).map_values(|l: Seq<char>| trimmed(l))
}

/// The window's comparison string.
pub open spec fn window_key(file: Seq<Seq<char>>, i: int, k: int) -> Seq<char> {
    join_nl(window_lines(file, i, k))
}

/// The edit distance between the needle's key and the window at `i`.
pub open spec fn window_dist(file: Seq<Seq<char>>, needle: Seq<Seq<char>>, i: int) -> nat {
    edit_dist(needle_key(needle), window_key(file, i, needle.len() as int))
}

/// How many windows of `needle.len()` lines fit in the file.
pub open spec fn window_count(file: Seq<Seq<char>>, needle: Seq<Seq<char>>) -> int {
    file.len() - needle.len() + 1
}

/// The earliest index among the first `n` windows achieving the minimal
/// distance: a later window displaces the best only by a strictly smaller
/// distance.
pub open spec fn best_window(file: Seq<Seq<char>>, needle: Seq<Seq<char>>, n: int) -> int
    recommends
        n >= 1,
    decreases n,
{
    if n <= 1 {
        0
    } else {
        let b = best_window(file, needle, n - 1);
        if window_dist(file, needle, n - 1) < window_dist(file, needle, b) {
            n - 1
        } else {
            b
        }
    }
}

/// The locator's answer.  An all-blank needle matches the start of the file
/// unconditionally; a needle longer than the file has no window; otherwise
/// the earliest minimal-distance window is accepted exactly when twenty times
/// its distance is at most the needle key's character length (a similarity of
/// at least ninety-five percent).
pub open spec fn locate_spec(file: Seq<Seq<char>>, needle: Seq<Seq<char>>) -> Option<int> {
    if needle_all_blank(needle) {
        Some(0)
    } else if needle.len() > file.len() {
        None
    } else {
        let b = best_window(file, needle, window_count(file, needle));
        if 20 * window_dist(file, needle, b) <= needle_key(needle).len() {
            Some(b)
        } else {
            None
        }
    }
}

/// An executable result agrees with `locate_spec`.
pub open spec fn matches_locate_spec(
    file: Seq<Seq<char>>,
    needle: Seq<Seq<char>>,
    r: Option<usize>,
) -> bool {
    match r {
        Some(i) => locate_spec(file, needle) == Some(i as int),
        None => locate_spec(file, needle) is None,
    }
}

/// The best candidate the scan saw, reported with a rejection so a human can
/// judge the near-miss: its window index, its edit distance, and the needle
/// key's character length.
#[derive(Debug, Clone, Copy, PartialEq, Eq, Structural)]
pub struct MatchDiagnostic {
    pub index: usize,
    pub distance: usize,
    pub needle_chars: usize,
}

/// A reported diagnostic names exactly the best window, whenever any window
/// existed.
pub open spec fn diag_describes_best(
    file: Seq<Seq<char>>,
    needle: Seq<Seq<char>>,
    d: Option<MatchDiagnostic>,
) -> bool {
    if !needle_all_blank(needle) && 1 <= needle.len() <= file.len() {
        match d {
            Some(g) => {
                &&& g.index == best_window(file, needle, window_count(file, needle))
                &&& g.distance == window_dist(file, needle, g.index as int)
                &&& g.needle_chars == needle_key(needle).len()
            },
            None => false,
        }
    } else {
        d is None
    }
}

/// `best_window` is in range, minimal, and the earliest minimum.
pub proof fn lemma_best_window(file: Seq<Seq<char>>, needle: Seq<Seq<char>>, n: int)
    requires
        n >= 1,
    ensures
        0 <= best_window(file, needle, n) < n,
        forall|j: int|
            0 <= j < n ==> window_dist(file, needle, best_window(file, needle, n)) <= #[trigger]
                window_dist(file, needle, j),
        forall|j: int|
            0 <= j < best_window(file, needle, n) ==> #[trigger] window_dist(file, needle, j)
                > window_dist(file, needle, best_window(file, needle, n)),
    decreases n,
{
    if n > 1 {
        lemma_best_window(file, needle, n - 1);
    }
}

/// Once a zero-distance window is the running best, no later window displaces
/// it: scanning may stop there.
pub proof fn lemma_best_window_zero_stable(
    file: Seq<Seq<char>>,
    needle: Seq<Seq<char>>,
    n0: int,
    n: int,
)
    requires
        1 <= n0 <= n,
        window_dist(file, needle, best_window(file, needle, n0)) == 0,
    ensures
        best_window(file, needle, n) == best_window(file, needle, n0),
    decreases n,
{
    if n > n0 {
        lemma_best_window_zero_stable(file, needle, n0, n - 1);
    }
}

/// The needle key's length stays under the needle's total-characters bound.
pub proof fn lemma_needle_key_len(needle: Seq<Seq<char>>)
    ensures
        needle_key(needle).len() <= lines_total_chars(needle),
{
    lemma_lines_total_map_trimmed(needle);
    lemma_join_nl_len(normalized_needle(needle));
}

/// A window key's length stays under the file's total-characters bound.
pub proof fn lemma_window_key_len(file: Seq<Seq<char>>, i: int, k: int)
    requires
        0 <= i,
        0 <= k,
        i + k <= file.len(),
    ensures
        window_key(file, i, k).len() <= lines_total_chars(file),
{
    let sub = file.subrange(i, i + k);
    assert(window_lines(file, i, k) == sub.map_values(|l: Seq<char>| trimmed(l)));
    lemma_lines_total_map_trimmed(sub);
    lemma_lines_total_subrange(file, i, i + k);
    lemma_join_nl_len(window_lines(file, i, k));
}

/// The needle appears trim-for-trim at the window starting at `v`.
pub open spec fn window_trim_equal(file: Seq<Seq<char>>, needle: Seq<Seq<char>>, v: int) -> bool {
    forall|t: int| 0 <= t < needle.len() ==> trimmed(file[v + t]) == #[trigger] trimmed(needle[t])
}

/// A found index always lies in range: at zero for an all-blank needle, and
/// otherwise with the whole window inside the file.
pub proof fn lemma_locate_spec_range(file: Seq<Seq<char>>, needle: Seq<Seq<char>>)
    ensures
        match locate_spec(file, needle) {
            Some(i) => {
                &&& 0 <= i <= file.len()
                &&& (needle_all_blank(needle) ==> i == 0)
                &&& (!needle_all_blank(needle) ==> i + needle.len() <= file.len())
            },
            None => true,
        },
{
    if !needle_all_blank(needle) && needle.len() <= file.len() {
        lemma_best_window(file, needle, window_count(file, needle));
    }
}

/// A not-all-blank needle that appears trim-for-trim at a window, with no
/// trim-equal window before it, is located exactly there: exact matches win
/// and the leftmost one is taken.
pub proof fn lemma_locator_finds_exact_window(
    file: Seq<Seq<char>>,
    needle: Seq<Seq<char>>,
    w: int,
)
    requires
        needle.len() >= 1,
        !needle_all_blank(needle),
        forall|t: int| 0 <= t < needle.len() ==> newline_free(trimmed(#[trigger] needle[t])),
        forall|l: int| 0 <= l < file.len() ==> newline_free(trimmed(#[trigger] file[l])),
        0 <= w,
        w + needle.len() <= file.len(),
        window_trim_equal(file, needle, w),
        forall|v: int| 0 <= v < w ==> !window_trim_equal(file, needle, v),
    ensures
        locate_spec(file, needle) == Some(w),
{
    let k = needle.len() as int;
    let tneedle = normalized_needle(needle);
    let n = window_count(file, needle);
    assert(0 <= w < n);

    // the window at `w` has distance zero
    assert(window_lines(file, w, k) =~= tneedle) by {
        assert forall|t: int| 0 <= t < k implies window_lines(file, w, k)[t] == tneedle[t] by {
            assert(file.subrange(w, w + k)[t] == file[w + t]);
            assert(trimmed(needle[t]) == trimmed(file[w + t]));
        }
    }
    assert(needle_key(needle) == window_key(file, w, k));
    lemma_edit_dist_zero(needle_key(needle), window_key(file, w, k));
    assert(window_dist(file, needle, w) == 0);

    lemma_best_window(file, needle, n);
    let b = best_window(file, needle, n);
    assert(window_dist(file, needle, b) <= window_dist(file, needle, w));
    assert(window_dist(file, needle, b) == 0);
    if b < w {
        // zero distance means the joined keys agree, and join is injective on
        // newline-free lines, so the window at `b` would be trim-equal
        lemma_edit_dist_zero(needle_key(needle), window_key(file, b, k));
        assert(join_nl(tneedle) == join_nl(window_lines(file, b, k)));
        assert forall|t: int| 0 <= t < k implies newline_free(#[trigger] tneedle[t]) by {
            assert(tneedle[t] == trimmed(needle[t]));
        }
        assert forall|t: int| 0 <= t < k implies newline_free(
            #[trigger] window_lines(file, b, k)[t],
        ) by {
            assert(file.subrange(b, b + k)[t] == file[b + t]);
            assert(window_lines(file, b, k)[t] == trimmed(file[b + t]));
        }
        lemma_join_nl_injective(tneedle, window_lines(file, b, k));
        assert forall|t: int| 0 <= t < needle.len() implies trimmed(file[b + t]) == #[trigger]
            trimmed(needle[t]) by {
            assert(window_lines(file, b, k)[t] == trimmed(file[b + t]));
            assert(tneedle[t] == trimmed(needle[t]));
        }
        assert(window_trim_equal(file, needle, b));
        assert(false);
    }
    if b > w {
        assert(window_dist(file, needle, w) > window_dist(file, needle, b));
        assert(false);
    }
    assert(b == w);
}

/// An all-blank needle is located at the start of any file, even an empty
/// one.
pub proof fn lemma_locator_blank_needle(file: Seq<Seq<char>>, needle: Seq<Seq<char>>)
    requires
        needle_all_blank(needle),
    ensures
        locate_spec(file, needle) == Some(0int),
{
}

/// The acceptance threshold: when some window's distance is minimal and
/// strictly below one twentieth of the needle key's length, the locator
/// returns the earliest window of that minimal distance; when the minimal
/// distance is strictly above one twentieth, it reports no match.
pub proof fn lemma_locator_threshold(file: Seq<Seq<char>>, needle: Seq<Seq<char>>, i0: int)
    requires
        !needle_all_blank(needle),
        1 <= needle.len() <= file.len(),
        0 <= i0 < window_count(file, needle),
        forall|j: int|
            0 <= j < window_count(file, needle) ==> window_dist(file, needle, i0) <= #[trigger]
                window_dist(file, needle, j),
    ensures
        20 * window_dist(file, needle, i0) < needle_key(needle).len() ==> {
            let b = best_window(file, needle, window_count(file, needle));
            &&& locate_spec(file, needle) == Some(b)
            &&& window_dist(file, needle, b) == window_dist(file, needle, i0)
            &&& b <= i0
        },
        20 * window_dist(file, needle, i0) > needle_key(needle).len() ==> locate_spec(
            file,
            needle,
        ) is None,
{
    let n = window_count(file, needle);
    lemma_best_window(file, needle, n);
    let b = best_window(file, needle, n);
    assert(window_dist(file, needle, b) <= window_dist(file, needle, i0));
    assert(window_dist(file, needle, i0) <= window_dist(file, needle, b));
    if b > i0 {
        assert(window_dist(file, needle, i0) > window_dist(file, needle, b));
    }
}

/// A subrange of the file's trimmed lines is exactly the window's line
/// sequence.
proof fn lemma_trimmed_subrange_is_window(
    tl: Seq<Seq<char>>,
    file: Seq<Seq<char>>,
    i: int,
    k: int,
)
    requires
        tl.len() == file.len(),
        forall|j: int| 0 <= j < file.len() ==> #[trigger] tl[j] == trimmed(file[j]),
        0 <= i,
        0 <= k,
        i + k <= file.len(),
    ensures
        tl.subrange(i, i + k) == window_lines(file, i, k),
{
    assert forall|t: int| 0 <= t < k implies #[trigger] tl.subrange(i, i + k)[t] == window_lines(
        file,
        i,
        k,
    )[t] by {
        assert(file.subrange(i, i + k)[t] == file[i + t]);
    }
    assert(tl.subrange(i, i + k) =~= window_lines(file, i, k));
}

/// Trims every line of the file once, ahead of the window scan.
fn trim_all_lines(lines: &[String]) -> (r: Vec<Vec<char>>)
    ensures
        r@.len() == lines@.len(),
        forall|j: int| 0 <= j < lines@.len() ==> (#[trigger] r@[j])@ == trimmed(lines.deep_view()[j]),
{
    let mut r: Vec<Vec<char>> = Vec::new();
    let mut i: usize = 0;
    while i < lines.len()
        invariant
            i <= lines@.len(),
            r@.len() == i,
            forall|j: int| 0 <= j < i ==> (#[trigger] r@[j])@ == trimmed(lines.deep_view()[j]),
        decreases lines@.len() - i,
    {
        let cs = chars_of(lines[i].as_str());
        let t = trim_chars(&cs);
        r.push(t);
        i = i + 1;
    }
    r
}

/// Decides `needle_all_blank`: whether every line trims to nothing.
pub fn needle_is_blank(needle: &[String]) -> (r: bool)
    ensures
        r == needle_all_blank(needle.deep_view()),
{
    let ghost dv = needle.deep_view();
    let mut i: usize = 0;
    while i < needle.len()
        invariant
            i <= needle@.len(),
            dv == needle.deep_view(),
            dv.len() == needle@.len(),
            forall|t: int| 0 <= t < i ==> trimmed(#[trigger] dv[t]).len() == 0,
        decreases needle@.len() - i,
    {
        let cs = chars_of(needle[i].as_str());
        let t = trim_chars(&cs);
        if t.len() > 0 {
            proof {
                assert(trimmed(dv[i as int]).len() > 0);
            }
            return false;
        }
        i = i + 1;
    }
    true
}

/// Builds the comparison key of the window of `k` trimmed lines at `i`.
fn window_key_build(trimmed_lines: &Vec<Vec<char>>, i: usize, k: usize) -> (r: Vec<char>)
    requires
        i + k <= trimmed_lines@.len(),
    ensures
        r@ == join_nl(trimmed_lines.deep_view().subrange(i as int, i as int + k as int)),
{
    let total = trimmed_lines.len();
    proof {
        assert(i + k <= total);
    }
    let end = i + k;
    let mut sub: Vec<Vec<char>> = Vec::new();
    let mut j: usize = i;
    while j < end
        invariant
            i <= j <= end <= trimmed_lines@.len(),
            end == i + k,
            sub@.len() == j - i,
            forall|t: int| 0 <= t < j - i ==> (#[trigger] sub@[t])@ == trimmed_lines@[i + t]@,
        decreases end - j,
    {
        let mut line: Vec<char> = Vec::new();
        push_chars(&mut line, &trimmed_lines[j]);
        sub.push(line);
        j = j + 1;
    }
    proof {
        assert(sub.deep_view() =~~= trimmed_lines.deep_view().subrange(
            i as int,
            i as int + k as int,
        ));
    }
    join_lines_chars(&sub)
}

/// Finds the best occurrence of `needle` in `file_lines`: exact matches win
/// immediately, otherwise the earliest window of minimal edit distance is
/// accepted when it is at least ninety-five percent similar.  Alongside the
/// answer, reports the best candidate seen, for diagnostics.
pub fn locate_marker(file_lines: &[String], needle: &[String]) -> (r: (
    Option<usize>,
    Option<MatchDiagnostic>,
))
    requires
        lines_total_chars(file_lines.deep_view()) < usize::MAX,
        lines_total_chars(needle.deep_view()) < usize::MAX,
    ensures
        matches_locate_spec(file_lines.deep_view(), needle.deep_view(), r.0),
        diag_describes_best(file_lines.deep_view(), needle.deep_view(), r.1),
{
    let ghost fdv = file_lines.deep_view();
    let ghost ndv = needle.deep_view();
    if needle_is_blank(needle) {
        return (Some(0), None);
    }
    let k = needle.len();
    proof {
        assert(k >= 1);
    }
    if k > file_lines.len() {
        return (None, None);
    }
    let trimmed_needle = trim_all_lines(needle);
    proof {
        assert forall|t: int| 0 <= t < ndv.len() implies #[trigger] trimmed_needle.deep_view()[t]
            == normalized_needle(ndv)[t] by {
            assert(trimmed_needle.deep_view()[t] == trimmed_needle@[t]@);
        }
        assert(trimmed_needle.deep_view() =~~= normalized_needle(ndv));
    }
    let needle_joined = join_lines_chars(&trimmed_needle);
    let needle_len = needle_joined.len();
    proof {
        assert(needle_joined@ == needle_key(ndv));
        lemma_needle_key_len(ndv);
    }
    let trimmed_lines = trim_all_lines(file_lines);
    let ghost tl = trimmed_lines.deep_view();
    proof {
        assert forall|j: int| 0 <= j < fdv.len() implies #[trigger] tl[j] == trimmed(fdv[j]) by {
            assert(tl[j] == trimmed_lines@[j]@);
        }
    }
    let n = file_lines.len() - k + 1;
    proof {
        lemma_window_key_len(fdv, 0, k as int);
        lemma_trimmed_subrange_is_window(tl, fdv, 0, k as int);
    }
    let w0 = window_key_build(&trimmed_lines, 0, k);
    let mut best_i: usize = 0;
    let mut best_d = edit_distance_chars(&needle_joined, &w0);
    proof {
        assert(best_d == window_dist(fdv, ndv, 0));
        assert(best_window(fdv, ndv, 1) == 0);
    }
    let mut i: usize = 1;
    while i < n && best_d > 0
        invariant
            1 <= i <= n,
            n == fdv.len() - k + 1,
            k == ndv.len(),
            1 <= k <= fdv.len(),
            fdv == file_lines.deep_view(),
            ndv == needle.deep_view(),
            lines_total_chars(fdv) < usize::MAX,
            lines_total_chars(ndv) < usize::MAX,
            needle_joined@ == needle_key(ndv),
            needle_len == needle_joined@.len(),
            tl == trimmed_lines.deep_view(),
            tl.len() == fdv.len(),
            forall|j: int| 0 <= j < fdv.len() ==> #[trigger] tl[j] == trimmed(fdv[j]),
            best_i < i,
            best_i == best_window(fdv, ndv, i as int),
            best_d == window_dist(fdv, ndv, best_i as int),
        decreases n - i,
    {
        proof {
            lemma_needle_key_len(ndv);
            lemma_window_key_len(fdv, i as int, k as int);
            lemma_trimmed_subrange_is_window(tl, fdv, i as int, k as int);
        }
        let w = window_key_build(&trimmed_lines, i, k);
        let d = edit_distance_chars(&needle_joined, &w);
        proof {
            assert(d == window_dist(fdv, ndv, i as int));
            assert(best_window(fdv, ndv, i as int + 1) == if window_dist(fdv, ndv, i as int)
                < window_dist(fdv, ndv, best_window(fdv, ndv, i as int)) {
                i as int
            } else {
                best_window(fdv, ndv, i as int)
            });
        }
        if d < best_d {
            best_d = d;
            best_i = i;
        }
        i = i + 1;
    }
    proof {
        if i < n {
            lemma_best_window_zero_stable(fdv, ndv, i as int, n as int);
        }
        assert(best_i == best_window(fdv, ndv, n as int));
    }
    let diag = MatchDiagnostic { index: best_i, distance: best_d, needle_chars: needle_len };
    if best_d <= needle_len / 20 {
        proof {
            assert(20 * (best_d as int) <= needle_len as int) by (nonlinear_arith)
                requires
                    best_d as int <= needle_len as int / 20,
                    best_d >= 0,
                    needle_len >= 0,
            ;
        }
        (Some(best_i), Some(diag))
    } else {
        proof {
            assert(20 * (best_d as int) > needle_len as int) by (nonlinear_arith)
                requires
                    best_d as int > needle_len as int / 20,
                    best_d >= 0,
                    needle_len >= 0,
            ;
        }
        (None, Some(diag))
    }
}

/// The plain locator interface: just the index, if an acceptable match
/// exists.
pub fn find_in_file_lines(file_lines: &[String], needle: &[String]) -> (r: Option<usize>)
    requires
        lines_total_chars(file_lines.deep_view()) < usize::MAX,
        lines_total_chars(needle.deep_view()) < usize::MAX,
    ensures
        matches_locate_spec(file_lines.deep_view(), needle.deep_view(), r),
{
    let (found, _) = locate_marker(file_lines, needle);
    found
}

} // verus!
