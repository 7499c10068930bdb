//! Byte-level text model for interpreting captured command output.
//!
//! External utilities hand the daemon line-oriented text as raw bytes.
//! Everything the daemon ever asks of that text is defined here: how a
//! byte string splits into lines, whether a line contains a marker, and
//! how many lines do.

use vstd::prelude::*;

verus! {

/// Line feed, the byte that terminates a line of command output.
pub const NL: u8 = 10;

/// Does the pattern `pat` occur in `s` starting at index `i`?
pub open spec fn match_at(s: Seq<u8>, pat: Seq<u8>, i: int) -> bool {
    &&& 0 <= i
    &&& i + pat.len() <= s.len()
    &&& s.subrange(i, i + pat.len() as int) == pat
}

/// Does the pattern `pat` occur anywhere in `s`?
pub open spec fn contains_bytes(s: Seq<u8>, pat: Seq<u8>) -> bool {
    exists|i: int| match_at(s, pat, i)
}

/// Index of the first line feed in `s`, or `s.len()` if there is none.
pub open spec fn first_nl(s: Seq<u8>) -> int
    decreases s.len(),
{
    if s.len() == 0 {
        0
    } else if s[0] == NL {
        0
    } else {
        1 + first_nl(s.skip(1))
    }
}

pub proof fn lemma_first_nl(s: Seq<u8>)
    ensures
        0 <= first_nl(s) <= s.len(),
        forall|j: int| 0 <= j < first_nl(s) ==> s[j] != NL,
        first_nl(s) < s.len() ==> s[first_nl(s)] == NL,
    decreases s.len(),
{
    if s.len() == 0 {
    } else if s[0] == NL {
    } else {
        lemma_first_nl(s.skip(1));
        assert forall|j: int| 0 <= j < first_nl(s) implies s[j] != NL by {
            if j > 0 {
                assert(s.skip(1)[j - 1] == s[j]);
            }
        }
        if first_nl(s) < s.len() {
            assert(s.skip(1)[first_nl(s) - 1] == s[first_nl(s)]);
        }
    }
}

/// If no byte before `i` is a line feed and `i` is either a line feed or
/// the end, then `i` is the first line feed position.
pub proof fn lemma_first_nl_here(s: Seq<u8>, i: int)
    requires
        0 <= i <= s.len(),
        forall|j: int| 0 <= j < i ==> s[j] != NL,
        i < s.len() ==> s[i] == NL,
    ensures
        first_nl(s) == i,
{
    lemma_first_nl(s);
    if first_nl(s) < i {
        assert(s[first_nl(s)] == NL);
    } else if first_nl(s) > i {
        assert(i < s.len());
    }
}

/// The lines of `s`: the segments between line feeds, in order.
///
/// A trailing line feed yields a final empty segment, as splitting on the
/// separator does; callers that care only about lines holding a non-empty
/// marker are unaffected.
pub open spec fn lines_of(s: Seq<u8>) -> Seq<Seq<u8>>
    decreases s.len(),
{
    if first_nl(s) == s.len() {
        seq![s]
    } else {
        proof {
            lemma_first_nl(s);
        }
        seq![s.take(first_nl(s))] + lines_of(s.skip(first_nl(s) + 1))
    }
}

/// A byte string has at most one line more than it has bytes, and no
/// line longer than itself.
pub proof fn lemma_lines_of_bounds(s: Seq<u8>)
    ensures
        1 <= lines_of(s).len() <= s.len() + 1,
        forall|i: int| 0 <= i < lines_of(s).len() ==> #[trigger] lines_of(s)[i].len() <= s.len(),
    decreases s.len(),
{
    lemma_first_nl(s);
    let k = first_nl(s);
    if k == s.len() {
    } else {
        lemma_lines_of_bounds(s.skip(k + 1));
        assert forall|i: int| 0 <= i < lines_of(s).len() implies #[trigger] lines_of(s)[i].len()
            <= s.len() by {
            if i > 0 {
                assert(lines_of(s)[i] == lines_of(s.skip(k + 1))[i - 1]);
            }
        }
    }
}

/// A line has at most as many fields as bytes, and no field longer than
/// itself.
pub proof fn lemma_fields_of_bounds(s: Seq<u8>)
    ensures
        fields_of(s).len() <= s.len(),
        forall|i: int| 0 <= i < fields_of(s).len() ==> #[trigger] fields_of(s)[i].len() <= s.len(),
    decreases s.len(),
{
    if s.len() == 0 {
    } else if is_field_sep(s[0]) {
        lemma_fields_of_bounds(s.skip(1));
    } else {
        lemma_first_sep(s);
        let k = first_sep(s);
        lemma_fields_of_bounds(s.skip(k));
        assert forall|i: int| 0 <= i < fields_of(s).len() implies #[trigger] fields_of(s)[i].len()
            <= s.len() by {
            if i > 0 {
                assert(fields_of(s)[i] == fields_of(s.skip(k))[i - 1]);
            }
        }
    }
}

/// How many of the lines `ls` contain the pattern `pat`.
pub open spec fn count_lines_with(ls: Seq<Seq<u8>>, pat: Seq<u8>) -> int
    decreases ls.len(),
{
    if ls.len() == 0 {
        0
    } else {
        count_lines_with(ls.drop_last(), pat) + if contains_bytes(ls.last(), pat) {
            1int
        } else {
            0int
        }
    }
}

pub proof fn lemma_count_lines_with_bounds(ls: Seq<Seq<u8>>, pat: Seq<u8>)
    ensures
        0 <= count_lines_with(ls, pat) <= ls.len(),
    decreases ls.len(),
{
    if ls.len() > 0 {
        lemma_count_lines_with_bounds(ls.drop_last(), pat);
    }
}

/// Space, one of the two bytes that separate fields within a line.
pub const SPACE: u8 = 32;

/// Horizontal tab, the other field separator.
pub const TAB: u8 = 9;

/// Is `b` a field separator?
pub open spec fn is_field_sep(b: u8) -> bool {
    b == SPACE || b == TAB
}

/// Index of the first field separator in `s`, or `s.len()` if there is none.
pub open spec fn first_sep(s: Seq<u8>) -> int
    decreases s.len(),
{
    if s.len() == 0 {
        0
    } else if is_field_sep(s[0]) {
        0
    } else {
        1 + first_sep(s.skip(1))
    }
}

pub proof fn lemma_first_sep(s: Seq<u8>)
    ensures
        0 <= first_sep(s) <= s.len(),
        forall|j: int| 0 <= j < first_sep(s) ==> !is_field_sep(s[j]),
        first_sep(s) < s.len() ==> is_field_sep(s[first_sep(s)]),
    decreases s.len(),
{
    if s.len() == 0 {
    } else if is_field_sep(s[0]) {
    } else {
        lemma_first_sep(s.skip(1));
        assert forall|j: int| 0 <= j < first_sep(s) implies !is_field_sep(s[j]) by {
            if j > 0 {
                assert(s.skip(1)[j - 1] == s[j]);
            }
        }
        if first_sep(s) < s.len() {
            assert(s.skip(1)[first_sep(s) - 1] == s[first_sep(s)]);
        }
    }
}

/// If no byte before `i` is a separator and `i` is either a separator or
/// the end, then `i` is the first separator position.
pub proof fn lemma_first_sep_here(s: Seq<u8>, i: int)
    requires
        0 <= i <= s.len(),
        forall|j: int| 0 <= j < i ==> !is_field_sep(s[j]),
        i < s.len() ==> is_field_sep(s[i]),
    ensures
        first_sep(s) == i,
{
    lemma_first_sep(s);
    if first_sep(s) < i {
        assert(is_field_sep(s[first_sep(s)]));
    } else if first_sep(s) > i {
        assert(i < s.len());
    }
}

/// The fields of a line: the maximal runs of non-separator bytes, in
/// order. Leading, trailing and repeated separators yield no fields, so
/// every field is non-empty.
pub open spec fn fields_of(s: Seq<u8>) -> Seq<Seq<u8>>
    decreases s.len(),
{
    if s.len() == 0 {
        Seq::empty()
    } else if is_field_sep(s[0]) {
        fields_of(s.skip(1))
    } else {
        proof {
            lemma_first_sep(s.skip(1));
        }
        seq![s.take(first_sep(s))] + fields_of(s.skip(first_sep(s)))
    }
}

/// The fields of `line`, materialized.
pub fn split_fields(line: &[u8]) -> (r: Vec<Vec<u8>>)
    ensures
        r.deep_view() == fields_of(line@),
{
    let mut acc: Vec<Vec<u8>> = Vec::new();
    let mut pos: usize = 0;
    let n = line.len();
    proof {
        assert(acc.deep_view() =~= Seq::<Seq<u8>>::empty());
        assert(line@.skip(0) =~= line@);
        assert(Seq::<Seq<u8>>::empty() + fields_of(line@) =~= fields_of(line@));
    }
    while pos < line.len()
        invariant
            pos <= line@.len(),
            n == line@.len(),
            fields_of(line@) == acc.deep_view() + fields_of(line@.skip(pos as int)),
        decreases line@.len() - pos,
    {
        let b = line[pos];
        if b == SPACE || b == TAB {
            proof {
                let t = line@.skip(pos as int);
                assert(t[0] == line@[pos as int]);
                assert(t.skip(1) =~= line@.skip(pos + 1));
                assert(fields_of(t) == fields_of(line@.skip(pos + 1)));
            }
            pos += 1;
        } else {
            let fstart = pos;
            let mut cur: Vec<u8> = Vec::new();
            cur.push(b);
            pos += 1;
            proof {
                assert(cur@ =~= line@.subrange(fstart as int, pos as int));
            }
            while pos < line.len() && line[pos] != SPACE && line[pos] != TAB
                invariant
                    fstart < pos <= line@.len(),
                    line@.len() <= usize::MAX,
                    cur@ == line@.subrange(fstart as int, pos as int),
                    forall|j: int| fstart <= j < pos ==> !is_field_sep(line@[j]),
                    fields_of(line@) == acc.deep_view() + fields_of(
                        line@.skip(fstart as int),
                    ),
                decreases line@.len() - pos,
            {
                cur.push(line[pos]);
                pos += 1;
                proof {
                    assert(cur@ =~= line@.subrange(fstart as int, pos as int));
                }
            }
            proof {
                let t = line@.skip(fstart as int);
                assert forall|j: int| 0 <= j < pos - fstart implies !is_field_sep(t[j]) by {
                    assert(t[j] == line@[fstart + j]);
                }
                if pos < line@.len() {
                    assert(t[pos - fstart] == line@[pos as int]);
                }
                assert(!is_field_sep(t[0]));
                lemma_first_sep_here(t, pos - fstart);
                assert(t.take(pos - fstart) =~= cur@);
                assert(t.skip(pos - fstart) =~= line@.skip(pos as int));
                assert(fields_of(t) == seq![cur@] + fields_of(line@.skip(pos as int)));
            }
            let ghost prev = acc.deep_view();
            let ghost cur_view = cur@;
            acc.push(cur);
            proof {
                assert(acc.deep_view() =~~= prev.push(cur_view));
                assert(prev + (seq![cur_view] + fields_of(line@.skip(pos as int))) =~= prev.push(
                    cur_view,
                ) + fields_of(line@.skip(pos as int)));
            }
        }
    }
    proof {
        assert(line@.skip(line@.len() as int) =~= Seq::<u8>::empty());
        assert(fields_of(Seq::<u8>::empty()) =~= Seq::<Seq<u8>>::empty());
        assert(acc.deep_view() + Seq::<Seq<u8>>::empty() =~= acc.deep_view());
    }
    acc
}

/// Does the pattern occur in `s` starting exactly at `i`?
fn matches_at(s: &[u8], pat: &[u8], i: usize) -> (r: bool)
    requires
        i + pat@.len() <= s@.len(),
    ensures
        r == match_at(s@, pat@, i as int),
{
    let n = s.len();
    let mut j: usize = 0;
    while j < pat.len()
        invariant
            i + pat@.len() <= s@.len(),
            n == s@.len(),
            j <= pat@.len(),
            forall|k: int| 0 <= k < j ==> s@[i + k] == pat@[k],
        decreases pat@.len() - j,
    {
        if s[i + j] != pat[j] {
            proof {
                let sub = s@.subrange(i as int, i + pat@.len() as int);
                assert(sub[j as int] == s@[i + j]);
            }
            return false;
        }
        j += 1;
    }
    proof {
        assert(s@.subrange(i as int, i + pat@.len() as int) =~= pat@);
    }
    true
}

/// Does the pattern occur anywhere in `s`?
pub fn contains_slice(s: &[u8], pat: &[u8]) -> (r: bool)
    ensures
        r == contains_bytes(s@, pat@),
{
    if pat.len() > s.len() {
        return false;
    }
    if pat.is_empty() {
        proof {
            assert(s@.subrange(0, 0) =~= pat@);
            assert(match_at(s@, pat@, 0));
        }
        return true;
    }
    let limit = s.len() - pat.len();
    let mut i: usize = 0;
    while i <= limit
        invariant
            1 <= pat@.len() <= s@.len(),
            s@.len() <= usize::MAX,
            limit == s@.len() - pat@.len(),
            i <= limit + 1,
            forall|k: int| 0 <= k < i ==> !match_at(s@, pat@, k),
        decreases limit + 1 - i,
    {
        if matches_at(s, pat, i) {
            return true;
        }
        i += 1;
    }
    false
}

/// The lines of `out`, materialized.
pub fn split_lines(out: &[u8]) -> (r: Vec<Vec<u8>>)
    ensures
        r.deep_view() == lines_of(out@),
{
    let mut acc: Vec<Vec<u8>> = Vec::new();
    let mut cur: Vec<u8> = Vec::new();
    let mut start: usize = 0;
    let mut i: usize = 0;
    proof {
        assert(acc.deep_view() =~= Seq::<Seq<u8>>::empty());
        assert(cur@ =~= out@.subrange(0, 0));
        assert(out@.skip(0) =~= out@);
        assert(Seq::<Seq<u8>>::empty() + lines_of(out@) =~= lines_of(out@));
    }
    while i < out.len()
        invariant
            start <= i <= out@.len(),
            cur@ == out@.subrange(start as int, i as int),
            forall|j: int| start <= j < i ==> out@[j] != NL,
            lines_of(out@) == acc.deep_view() + lines_of(out@.skip(start as int)),
        decreases out@.len() - i,
    {
        let b = out[i];
        if b == NL {
            proof {
                let tail = out@.skip(start as int);
                assert forall|j: int| 0 <= j < i - start implies tail[j] != NL by {
                    assert(tail[j] == out@[start + j]);
                }
                assert(tail[i - start] == out@[i as int]);
                lemma_first_nl_here(tail, i - start);
                assert(tail.take(i - start) =~= cur@);
                assert(tail.skip(i - start + 1) =~= out@.skip(i + 1));
                assert(lines_of(tail) == seq![cur@] + lines_of(out@.skip(i + 1)));
            }
            let ghost prev = acc.deep_view();
            let ghost cur_view = cur@;
            acc.push(cur);
            proof {
                assert(acc.deep_view() =~~= prev.push(cur_view));
                assert(prev + (seq![cur_view] + lines_of(out@.skip(i + 1))) =~= prev.push(
                    cur_view,
                ) + lines_of(out@.skip(i + 1)));
            }
            cur = Vec::new();
            start = i + 1;
            proof {
                assert(cur@ =~= out@.subrange(start as int, start as int));
            }
        } else {
            cur.push(b);
            proof {
                assert(cur@ =~= out@.subrange(start as int, i + 1));
            }
        }
        i += 1;
    }
    proof {
        let tail = out@.skip(start as int);
        assert forall|j: int| 0 <= j < tail.len() implies tail[j] != NL by {
            assert(tail[j] == out@[start + j]);
        }
        lemma_first_nl_here(tail, tail.len() as int);
        assert(cur@ =~= tail);
        assert(lines_of(tail) == seq![cur@]);
    }
    let ghost prev = acc.deep_view();
    let ghost cur_view = cur@;
    acc.push(cur);
    proof {
        assert(acc.deep_view() =~~= prev.push(cur_view));
        assert(prev + seq![cur_view] =~= prev.push(cur_view));
    }
    acc
}

/// Count the lines of `out` that contain the pattern `pat`.
pub fn count_lines_containing(out: &[u8], pat: &[u8]) -> (r: usize)
    ensures
        r == count_lines_with(lines_of(out@), pat@),
{
    let lines = split_lines(out);
    let ghost ls = lines.deep_view();
    let mut count: usize = 0;
    let mut i: usize = 0;
    proof {
        assert(ls.take(0) =~= Seq::<Seq<u8>>::empty());
    }
    while i < lines.len()
        invariant
            i <= lines@.len(),
            ls == lines.deep_view(),
            ls.len() == lines@.len(),
            count <= i,
            count == count_lines_with(ls.take(i as int), pat@),
        decreases lines@.len() - i,
    {
        proof {
            assert(ls.take(i + 1).drop_last() =~= ls.take(i as int));
            assert(ls.take(i + 1).last() == ls[i as int]);
            assert(ls[i as int] == lines@[i as int].deep_view());
            assert(lines@[i as int].deep_view() =~= lines@[i as int]@);
        }
        if contains_slice(lines[i].as_slice(), pat) {
            count += 1;
        }
        i += 1;
    }
    proof {
        assert(ls.take(ls.len() as int) =~= ls);
    }
    count
}

} // verus!
