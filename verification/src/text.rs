//! Character-level text utilities: whitespace classification, line trimming,
//! and joining lines with newline separators.

use vstd::prelude::*;
use vstd::string::StringExecFns;

verus! {

/// A character that normalization discards at the ends of a line: the Unicode
/// `White_Space` set, the same set `char::is_whitespace` recognizes.
pub open spec fn is_blank_char(c: char) -> bool {
    let u = c as u32;
    ||| u == 0x20
    ||| (0x09 <= u && u <= 0x0D)
    ||| u == 0x85
    ||| u == 0xA0
    ||| u == 0x1680
    ||| (0x2000 <= u && u <= 0x200A)
    ||| u == 0x2028
    ||| u == 0x2029
    ||| u == 0x202F
    ||| u == 0x205F
    ||| u == 0x3000
}

/// Decides `is_blank_char` executably.
pub fn blank_char(c: char) -> (r: bool)
    ensures
        r == is_blank_char(c),
{
    let u = c as u32;
    u == 0x20 || (0x09 <= u && u <= 0x0D) || u == 0x85 || u == 0xA0 || u == 0x1680
        || (0x2000 <= u && u <= 0x200A) || u == 0x2028 || u == 0x2029 || u == 0x202F
        || u == 0x205F || u == 0x3000
}

/// The sequence with leading blank characters removed.
pub open spec fn trim_front(s: Seq<char>) -> Seq<char>
    decreases s.len(),
{
    if s.len() > 0 && is_blank_char(s[0]) {
        trim_front(s.drop_first())
    } else {
        s
    }
}

/// The sequence with trailing blank characters removed.
pub open spec fn trim_back(s: Seq<char>) -> Seq<char>
    decreases s.len(),
{
    if s.len() > 0 && is_blank_char(s.last()) {
        trim_back(s.drop_last())
    } else {
        s
    }
}

/// The sequence with blank characters removed from both ends, as `str::trim`
/// computes it.
pub open spec fn trimmed(s: Seq<char>) -> Seq<char> {
    trim_back(trim_front(s))
}

/// Removes blank characters from both ends, so that `r@ == trimmed(s@)`.
pub fn trim_chars(s: &Vec<char>) -> (r: Vec<char>)
    ensures
        r@ == trimmed(s@),
{
    let len = s.len();
    proof {
        assert(s@.subrange(0, s@.len() as int) =~= s@);
    }
    let mut start: usize = 0;
    loop
        invariant
            start <= s@.len(),
            len == s@.len(),
            trim_front(s@) == trim_front(s@.subrange(start as int, s@.len() as int)),
        ensures
            start <= s@.len(),
            start == s@.len() || !is_blank_char(s@[start as int]),
            trim_front(s@) == trim_front(s@.subrange(start as int, s@.len() as int)),
        decreases s@.len() - start,
    {
        if start < len && blank_char(s[start]) {
            proof {
                let sub = s@.subrange(start as int, s@.len() as int);
                assert(sub[0] == s@[start as int]);
                assert(trim_front(sub) == trim_front(sub.drop_first()));
                assert(sub.drop_first() =~= s@.subrange(start as int + 1, s@.len() as int));
            }
            start = start + 1;
        } else {
            break;
        }
    }
    proof {
        let tail = s@.subrange(start as int, s@.len() as int);
        assert(trim_front(tail) == tail);
        assert(s@ =~= s@.subrange(0, s@.len() as int));
    }
    let mut end: usize = len;
    loop
        invariant
            start <= end <= s@.len(),
            len == s@.len(),
            trim_back(s@.subrange(start as int, s@.len() as int)) == trim_back(
                s@.subrange(start as int, end as int),
            ),
        ensures
            start <= end <= s@.len(),
            end == start || !is_blank_char(s@[end - 1]),
            trim_back(s@.subrange(start as int, s@.len() as int)) == trim_back(
                s@.subrange(start as int, end as int),
            ),
        decreases end,
    {
        if end > start && blank_char(s[end - 1]) {
            proof {
                let sub = s@.subrange(start as int, end as int);
                assert(sub.last() == s@[end - 1]);
                assert(trim_back(sub) == trim_back(sub.drop_last()));
                assert(sub.drop_last() =~= s@.subrange(start as int, end as int - 1));
            }
            end = end - 1;
        } else {
            break;
        }
    }
    proof {
        let mid = s@.subrange(start as int, end as int);
        assert(trim_back(mid) == mid);
    }
    let mut r: Vec<char> = Vec::new();
    let mut i: usize = start;
    while i < end
        invariant
            start <= i <= end <= s@.len(),
            r@ == s@.subrange(start as int, i as int),
        decreases end - i,
    {
        r.push(s[i]);
        proof {
            assert(r@ =~= s@.subrange(start as int, i as int + 1));
        }
        i = i + 1;
    }
    proof {
        assert(r@ =~= s@.subrange(start as int, end as int));
    }
    r
}

/// Compares two character vectors for equality of their contents.
pub fn chars_eq(a: &Vec<char>, b: &Vec<char>) -> (r: bool)
    ensures
        r == (a@ == b@),
{
    if a.len() != b.len() {
        return false;
    }
    let mut i: usize = 0;
    while i < a.len()
        invariant
            i <= a@.len(),
            a@.len() == b@.len(),
            forall|j: int| 0 <= j < i ==> a@[j] == b@[j],
        decreases a@.len() - i,
    {
        if a[i] != b[i] {
            return false;
        }
        i = i + 1;
    }
    proof {
        assert(a@ =~= b@);
    }
    true
}

/// The lines joined into one text, with a single newline between consecutive
/// lines and none at either end.
pub open spec fn join_nl(lines: Seq<Seq<char>>) -> Seq<char>
    decreases lines.len(),
{
    if lines.len() == 0 {
        Seq::empty()
    } else if lines.len() == 1 {
        lines[0]
    } else {
        join_nl(lines.drop_last()) + seq!['\n'] + lines.last()
    }
}

/// Appends every character of `line` to `r`.
pub fn push_chars(r: &mut Vec<char>, line: &Vec<char>)
    ensures
        final(r)@ == old(r)@ + line@,
{
    let mut j: usize = 0;
    while j < line.len()
        invariant
            j <= line@.len(),
            r@ == old(r)@ + line@.subrange(0, j as int),
        decreases line@.len() - j,
    {
        r.push(line[j]);
        proof {
            assert(old(r)@ + line@.subrange(0, j as int + 1) =~= (old(r)@ + line@.subrange(
                0,
                j as int,
            )).push(line@[j as int]));
        }
        j = j + 1;
    }
    proof {
        assert(line@.subrange(0, line@.len() as int) =~= line@);
    }
}

/// Joins the lines with newline separators, so that `r@` is `join_nl` of the
/// lines' views.
pub fn join_lines_chars(lines: &Vec<Vec<char>>) -> (r: Vec<char>)
    ensures
        r@ == join_nl(lines.deep_view()),
{
    let ghost dv = lines.deep_view();
    let mut r: Vec<char> = Vec::new();
    let mut i: usize = 0;
    while i < lines.len()
        invariant
            i <= lines@.len(),
            dv == lines.deep_view(),
            dv.len() == lines@.len(),
            r@ == join_nl(dv.take(i as int)),
        decreases lines@.len() - i,
    {
        if i > 0 {
            r.push('\n');
        }
        push_chars(&mut r, &lines[i]);
        proof {
            let pre = dv.take(i as int);
            let post = dv.take(i as int + 1);
            assert(post.drop_last() =~= pre);
            assert(post.last() == dv[i as int]);
            if i == 0 {
                assert(join_nl(post) == dv[0]);
                assert(r@ =~= dv[0]);
            } else {
                assert(join_nl(post) == join_nl(pre) + seq!['\n'] + dv[i as int]);
                assert(r@ =~= join_nl(pre) + seq!['\n'] + dv[i as int]);
            }
        }
        i = i + 1;
    }
    proof {
        assert(dv.take(dv.len() as int) =~= dv);
    }
    r
}

/// A line without any embedded newline character.
pub open spec fn newline_free(s: Seq<char>) -> bool {
    forall|x: int| 0 <= x < s.len() ==> s[x] != '\n'
}

/// Joining with newline separators is injective on sequences of newline-free
/// lines of equal count: equal joined texts come from equal line sequences.
pub proof fn lemma_join_nl_injective(xs: Seq<Seq<char>>, ys: Seq<Seq<char>>)
    requires
        xs.len() == ys.len(),
        forall|t: int| 0 <= t < xs.len() ==> newline_free(#[trigger] xs[t]),
        forall|t: int| 0 <= t < ys.len() ==> newline_free(#[trigger] ys[t]),
        join_nl(xs) == join_nl(ys),
    ensures
        xs == ys,
    decreases xs.len(),
{
    let n = xs.len() as int;
    if n == 0 {
        assert(xs =~= ys);
    } else if n == 1 {
        assert(xs[0] == join_nl(xs));
        assert(ys[0] == join_nl(ys));
        assert(xs =~= ys);
    } else {
        let j = join_nl(xs);
        let a = join_nl(xs.drop_last());
        let b = xs.last();
        let a2 = join_nl(ys.drop_last());
        let b2 = ys.last();
        assert(j == a + seq!['\n'] + b);
        assert(j == a2 + seq!['\n'] + b2);
        assert(j.len() == a.len() + 1 + b.len());
        assert(j.len() == a2.len() + 1 + b2.len());
        assert(newline_free(b)) by {
            assert(b == xs[n - 1]);
        }
        assert(newline_free(b2)) by {
            assert(b2 == ys[n - 1]);
        }
        if b.len() < b2.len() {
            let p = a.len() as int;
            assert(j[p] == '\n');
            assert(p - a2.len() - 1 >= 0);
            assert(j[p] == b2[p - a2.len() - 1]);
            assert(false);
        }
        if b2.len() < b.len() {
            let p = a2.len() as int;
            assert(j[p] == '\n');
            assert(p - a.len() - 1 >= 0);
            assert(j[p] == b[p - a.len() - 1]);
            assert(false);
        }
        assert(b.len() == b2.len());
        assert(a.len() == a2.len());
        assert forall|t: int| 0 <= t < b.len() implies b[t] == b2[t] by {
            assert(j[a.len() + 1 + t] == b[t]);
            assert(j[a2.len() + 1 + t] == b2[t]);
        }
        assert(b =~= b2);
        assert forall|t: int| 0 <= t < a.len() implies a[t] == a2[t] by {
            assert(j[t] == a[t]);
            assert(j[t] == a2[t]);
        }
        assert(a =~= a2);
        assert forall|t: int| 0 <= t < n - 1 implies newline_free(
            #[trigger] xs.drop_last()[t],
        ) && newline_free(ys.drop_last()[t]) by {
            assert(xs.drop_last()[t] == xs[t]);
            assert(ys.drop_last()[t] == ys[t]);
        }
        lemma_join_nl_injective(xs.drop_last(), ys.drop_last());
        assert forall|t: int| 0 <= t < n implies xs[t] == ys[t] by {
            if t < n - 1 {
                assert(xs.drop_last()[t] == xs[t]);
                assert(ys.drop_last()[t] == ys[t]);
            } else {
                assert(xs[t] == b);
                assert(ys[t] == b2);
            }
        }
        assert(xs =~= ys);
    }
}

/// The lines' lengths summed, plus one per line: an upper bound on the length
/// of any newline-joining of any sub-sequence of the lines.
pub open spec fn lines_total_chars(lines: Seq<Seq<char>>) -> nat
    decreases lines.len(),
{
    if lines.len() == 0 {
        0
    } else {
        lines_total_chars(lines.drop_last()) + lines.last().len() + 1
    }
}

/// Trimming the front never lengthens a line.
pub proof fn lemma_trim_front_len(s: Seq<char>)
    ensures
        trim_front(s).len() <= s.len(),
    decreases s.len(),
{
    if s.len() > 0 && is_blank_char(s[0]) {
        lemma_trim_front_len(s.drop_first());
    }
}

/// Trimming the back never lengthens a line.
pub proof fn lemma_trim_back_len(s: Seq<char>)
    ensures
        trim_back(s).len() <= s.len(),
    decreases s.len(),
{
    if s.len() > 0 && is_blank_char(s.last()) {
        lemma_trim_back_len(s.drop_last());
    }
}

/// Trimming never lengthens a line.
pub proof fn lemma_trimmed_len(s: Seq<char>)
    ensures
        trimmed(s).len() <= s.len(),
{
    lemma_trim_front_len(s);
    lemma_trim_back_len(trim_front(s));
}

/// The joined text is no longer than the total-characters bound.
pub proof fn lemma_join_nl_len(lines: Seq<Seq<char>>)
    ensures
        join_nl(lines).len() <= lines_total_chars(lines),
    decreases lines.len(),
{
    if lines.len() <= 1 {
    } else {
        lemma_join_nl_len(lines.drop_last());
    }
}

/// A prefix of the lines never exceeds the whole bound.
pub proof fn lemma_lines_total_take(lines: Seq<Seq<char>>, m: int)
    requires
        0 <= m <= lines.len(),
    ensures
        lines_total_chars(lines.take(m)) <= lines_total_chars(lines),
    decreases lines.len(),
{
    if m == lines.len() {
        assert(lines.take(m) =~= lines);
    } else {
        assert(lines.take(m) =~= lines.drop_last().take(m));
        lemma_lines_total_take(lines.drop_last(), m);
    }
}

/// A suffix of the lines never exceeds the whole bound.
pub proof fn lemma_lines_total_skip(lines: Seq<Seq<char>>, a: int)
    requires
        0 <= a <= lines.len(),
    ensures
        lines_total_chars(lines.subrange(a, lines.len() as int)) <= lines_total_chars(lines),
    decreases lines.len(),
{
    if a == lines.len() {
    } else {
        let sub = lines.subrange(a, lines.len() as int);
        assert(sub.drop_last() =~= lines.drop_last().subrange(a, lines.len() - 1));
        assert(sub.last() == lines.last());
        lemma_lines_total_skip(lines.drop_last(), a);
    }
}

/// Any contiguous range of the lines stays under the whole bound.
pub proof fn lemma_lines_total_subrange(lines: Seq<Seq<char>>, a: int, b: int)
    requires
        0 <= a <= b <= lines.len(),
    ensures
        lines_total_chars(lines.subrange(a, b)) <= lines_total_chars(lines),
{
    let pre = lines.take(b);
    assert(lines.subrange(a, b) =~= pre.subrange(a, pre.len() as int));
    lemma_lines_total_skip(pre, a);
    lemma_lines_total_take(lines, b);
}

/// Trimming every line never raises the total-characters bound.
pub proof fn lemma_lines_total_map_trimmed(lines: Seq<Seq<char>>)
    ensures
        lines_total_chars(lines.map_values(|l: Seq<char>| trimmed(l))) <= lines_total_chars(lines),
    decreases lines.len(),
{
    if lines.len() == 0 {
    } else {
        let m = lines.map_values(|l: Seq<char>| trimmed(l));
        assert(m.drop_last() =~= lines.drop_last().map_values(|l: Seq<char>| trimmed(l)));
        assert(m.last() == trimmed(lines.last()));
        lemma_trimmed_len(lines.last());
        lemma_lines_total_map_trimmed(lines.drop_last());
    }
}

/// Joins the lines into the file's whole byte content: a single newline
/// between consecutive lines, none at either end.
pub fn join_lines(lines: &Vec<String>) -> (r: String)
    ensures
        r@ == join_nl(lines.deep_view()),
{
    let ghost dv = lines.deep_view();
    let mut r = String::new();
    let mut i: usize = 0;
    while i < lines.len()
        invariant
            i <= lines@.len(),
            dv == lines.deep_view(),
            dv.len() == lines@.len(),
            r@ == join_nl(dv.take(i as int)),
        decreases lines@.len() - i,
    {
        if i > 0 {
            r.append("\n");
        }
        r.append(lines[i].as_str());
        proof {
            reveal_strlit("\n");
            let pre = dv.take(i as int);
            let post = dv.take(i as int + 1);
            assert(post.drop_last() =~= pre);
            assert(post.last() == dv[i as int]);
            if i == 0 {
                assert(r@ =~= dv[0]);
            } else {
                assert("\n"@ =~= seq!['\n']);
                assert(r@ =~= join_nl(pre) + seq!['\n'] + dv[i as int]);
            }
        }
        i = i + 1;
    }
    proof {
        assert(dv.take(dv.len() as int) =~= dv);
    }
    r
}

/// The characters of a string, as a vector.
pub fn chars_of(s: &str) -> (r: Vec<char>)
    ensures
        r@ == s@,
{
    let mut r: Vec<char> = Vec::new();
    for c in it: s.chars()
        invariant
            r@ == it.seq().take(it.index() as int),
    {
        r.push(c);
    }
    proof {
        assert(r@ =~= s@);
    }
    r
}

} // verus!
