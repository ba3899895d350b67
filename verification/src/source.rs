//! Splitting a source text into the lines that are run one by one.
use vstd::prelude::*;
use crate::text::{char_is_whitespace, chars_of, string_of_range, white_space};

verus! {

/// The segments of `s` between newlines (one more than the number of newlines).
pub open spec fn segments(s: Seq<char>) -> Seq<Seq<char>>
    decreases s.len(),
{
    if s.len() == 0 {
        seq![Seq::empty()]
    } else {
        let r = segments(s.drop_last());
        if s.last() == '\n' {
            r.push(Seq::empty())
        } else {
            r.update(r.len() - 1, r.last().push(s.last()))
        }
    }
}

/// The number of leading white-space characters of `s` from `i` on.
pub open spec fn ws_prefix_end(s: Seq<char>, i: int) -> int
    decreases s.len() - i,
{
    if 0 <= i < s.len() && white_space(s[i]) {
        ws_prefix_end(s, i + 1)
    } else {
        i
    }
}

/// The position after the last non-white-space character of `s[..j]`.
pub open spec fn ws_suffix_start(s: Seq<char>, j: int) -> int
    decreases j,
{
    if 0 < j <= s.len() && white_space(s[j - 1]) {
        ws_suffix_start(s, j - 1)
    } else {
        j
    }
}

/// `s` without leading and trailing white space.
pub open spec fn trim(s: Seq<char>) -> Seq<char> {
    let a = ws_prefix_end(s, 0);
    let b = ws_suffix_start(s, s.len() as int);
    if a < b {
        s.subrange(a, b)
    } else {
        Seq::empty()
    }
}

/// The trimmed lines of `lines` that are not empty, in order.
pub open spec fn nonblank(lines: Seq<Seq<char>>) -> Seq<Seq<char>>
    decreases lines.len(),
{
    if lines.len() == 0 {
        Seq::empty()
    } else {
        let r = nonblank(lines.drop_last());
        if trim(lines.last()).len() > 0 {
            r.push(trim(lines.last()))
        } else {
            r
        }
    }
}

/// The lines of a source text that hold something: each line (the text
/// between newlines) trimmed of white space, empty ones left out.
pub open spec fn source_lines_spec(s: Seq<char>) -> Seq<Seq<char>> {
    nonblank(segments(s))
}

proof fn lemma_segments_len(s: Seq<char>)
    ensures
        segments(s).len() >= 1,
    decreases s.len(),
{
    if s.len() > 0 {
        lemma_segments_len(s.drop_last());
    }
}

proof fn lemma_ws_prefix_end(s: Seq<char>, i: int)
    requires
        0 <= i <= s.len(),
    ensures
        i <= ws_prefix_end(s, i) <= s.len(),
        forall|k: int| i <= k < ws_prefix_end(s, i) ==> white_space(#[trigger] s[k]),
        ws_prefix_end(s, i) < s.len() ==> !white_space(s[ws_prefix_end(s, i)]),
    decreases s.len() - i,
{
    if i < s.len() && white_space(s[i]) {
        lemma_ws_prefix_end(s, i + 1);
    }
}

proof fn lemma_ws_suffix_start(s: Seq<char>, j: int)
    requires
        0 <= j <= s.len(),
    ensures
        0 <= ws_suffix_start(s, j) <= j,
        forall|k: int| ws_suffix_start(s, j) <= k < j ==> white_space(#[trigger] s[k]),
        ws_suffix_start(s, j) > 0 ==> !white_space(s[ws_suffix_start(s, j) - 1]),
    decreases j,
{
    if 0 < j && white_space(s[j - 1]) {
        lemma_ws_suffix_start(s, j - 1);
    }
}

proof fn lemma_segments_bound(s: Seq<char>)
    ensures
        forall|j: int| 0 <= j < segments(s).len() ==> #[trigger] segments(s)[j].len() <= s.len(),
    decreases s.len(),
{
    lemma_segments_len(s);
    if s.len() > 0 {
        lemma_segments_bound(s.drop_last());
        lemma_segments_len(s.drop_last());
    }
}

proof fn lemma_trim_bound(x: Seq<char>)
    ensures
        trim(x).len() <= x.len(),
{
    lemma_ws_prefix_end(x, 0);
    lemma_ws_suffix_start(x, x.len() as int);
}

proof fn lemma_nonblank_bound(lines: Seq<Seq<char>>, n: nat)
    requires
        forall|j: int| 0 <= j < lines.len() ==> #[trigger] lines[j].len() <= n,
    ensures
        forall|i: int| 0 <= i < nonblank(lines).len() ==> #[trigger] nonblank(lines)[i].len() <= n,
    decreases lines.len(),
{
    if lines.len() > 0 {
        let d = lines.drop_last();
        assert forall|j: int| 0 <= j < d.len() implies #[trigger] d[j].len() <= n by {
            assert(d[j] == lines[j]);
        }
        lemma_nonblank_bound(d, n);
        lemma_trim_bound(lines.last());
        assert(lines.last().len() <= n);
        let r = nonblank(d);
        assert forall|i: int| 0 <= i < nonblank(lines).len() implies #[trigger] nonblank(lines)[i].len()
            <= n by {
            if i < r.len() {
                assert(nonblank(lines)[i] == r[i]);
            }
        }
    }
}

/// No line is longer than the source text.
pub proof fn lemma_source_lines_bound(s: Seq<char>)
    ensures
        forall|i: int|
            0 <= i < source_lines_spec(s).len() ==> #[trigger] source_lines_spec(s)[i].len() <= s.len(),
{
    lemma_segments_bound(s);
    lemma_nonblank_bound(segments(s), s.len());
}

proof fn lemma_trim_trim(x: Seq<char>)
    ensures
        trim(trim(x)) == trim(x),
        trim(x).len() > 0 ==> !white_space(trim(x)[0]) && !white_space(trim(x).last()),
{
    lemma_ws_prefix_end(x, 0);
    lemma_ws_suffix_start(x, x.len() as int);
    let t = trim(x);
    if t.len() > 0 {
        lemma_ws_prefix_end(t, 0);
        lemma_ws_suffix_start(t, t.len() as int);
        let a = ws_prefix_end(x, 0);
        let b = ws_suffix_start(x, x.len() as int);
        assert(ws_prefix_end(t, 0) == 0) by {
            assert(!white_space(t[0]));
        }
        assert(ws_suffix_start(t, t.len() as int) == t.len()) by {
            assert(!white_space(t[t.len() - 1]));
        }
        assert(t.subrange(0, t.len() as int) =~= t);
    } else {
        assert(trim(t) =~= t);
    }
}

/// Law: every line given to run holds something, with no white space at
/// either end (trimming it again changes nothing).
pub proof fn law_source_lines_trimmed(s: Seq<char>, i: int)
    requires
        0 <= i < source_lines_spec(s).len(),
    ensures
        source_lines_spec(s)[i].len() > 0,
        trim(source_lines_spec(s)[i]) == source_lines_spec(s)[i],
{
    lemma_nonblank_trimmed(segments(s), i);
}

proof fn lemma_nonblank_trimmed(lines: Seq<Seq<char>>, i: int)
    requires
        0 <= i < nonblank(lines).len(),
    ensures
        nonblank(lines)[i].len() > 0,
        trim(nonblank(lines)[i]) == nonblank(lines)[i],
    decreases lines.len(),
{
    let d = lines.drop_last();
    let r = nonblank(d);
    if i < r.len() {
        lemma_nonblank_trimmed(d, i);
    } else {
        lemma_trim_trim(lines.last());
    }
}

/// The trimmed text of `v[lo..hi]`, if it holds anything but white space.
fn trimmed(v: &Vec<char>, lo: usize, hi: usize) -> (r: Option<String>)
    requires
        lo <= hi <= v@.len(),
    ensures
        match r {
            Some(t) => trim(v@.subrange(lo as int, hi as int)).len() > 0 && t@ == trim(
                v@.subrange(lo as int, hi as int),
            ),
            None => trim(v@.subrange(lo as int, hi as int)).len() == 0,
        },
{
    let ghost s = v@.subrange(lo as int, hi as int);
    let mut a = lo;
    proof {
        lemma_ws_prefix_end(s, 0);
    }
    while a < hi && char_is_whitespace(v[a])
        invariant
            lo <= a <= hi <= v@.len(),
            s == v@.subrange(lo as int, hi as int),
            ws_prefix_end(s, 0) == ws_prefix_end(s, a - lo),
        decreases hi - a,
    {
        a = a + 1;
    }
    let mut b = hi;
    proof {
        lemma_ws_suffix_start(s, s.len() as int);
    }
    while b > a && char_is_whitespace(v[b - 1])
        invariant
            lo <= a <= b <= hi <= v@.len(),
            s == v@.subrange(lo as int, hi as int),
            ws_prefix_end(s, 0) == a - lo,
            ws_suffix_start(s, s.len() as int) == ws_suffix_start(s, b - lo),
        decreases b - a,
    {
        b = b - 1;
    }
    proof {
        lemma_ws_prefix_end(s, 0);
        lemma_ws_suffix_start(s, b - lo);
        if b == a && a < hi {
            // everything from a on is white space, so the suffix scan passes a
            assert forall|k: int| a - lo <= k < s.len() implies white_space(#[trigger] s[k]) by {
                lemma_ws_suffix_start(s, s.len() as int);
            }
        }
    }
    if a < b {
        let t = string_of_range(v, a, b);
        assert(t@ =~= trim(s));
        Some(t)
    } else {
        None
    }
}

/// The lines of a source text that hold something, trimmed of white space.
pub fn source_lines(source: &str) -> (r: Vec<String>)
    ensures
        r@.len() == source_lines_spec(source@).len(),
        forall|i: int| 0 <= i < r@.len() ==> #[trigger] r@[i]@ == source_lines_spec(source@)[i],
{
    let chars = chars_of(source);
    let ghost s = chars@;
    let mut out: Vec<String> = Vec::new();
    let mut start: usize = 0;
    let mut i: usize = 0;
    while i < chars.len()
        invariant
            s == chars@,
            start <= i <= chars@.len(),
            segments(s.subrange(0, i as int)).last() == s.subrange(start as int, i as int),
            out@.len() == nonblank(segments(s.subrange(0, i as int)).drop_last()).len(),
            forall|k: int|
                0 <= k < out@.len() ==> #[trigger] out@[k]@ == nonblank(
                    segments(s.subrange(0, i as int)).drop_last(),
                )[k],
        decreases chars@.len() - i,
    {
        assert(s.subrange(0, i + 1).drop_last() =~= s.subrange(0, i as int));
        proof {
            lemma_segments_len(s.subrange(0, i as int));
            lemma_segments_len(s.subrange(0, i + 1));
        }
        if chars[i] == '\n' {
            let ghost segs = segments(s.subrange(0, i as int));
            let t = trimmed(&chars, start, i);
            let ghost before = out@;
            match t {
                Some(line) => {
                    out.push(line);
                },
                None => {},
            }
            proof {
                let segs2 = segments(s.subrange(0, i + 1));
                assert(segs2 == segs.push(Seq::empty()));
                assert(segs2.drop_last() =~= segs);
                assert(segs =~= segs.drop_last().push(segs.last()));
            }
            start = i + 1;
            i = i + 1;
            assert(s.subrange(start as int, i as int) =~= Seq::<char>::empty());
        } else {
            proof {
                let segs = segments(s.subrange(0, i as int));
                let segs2 = segments(s.subrange(0, i + 1));
                assert(segs2.drop_last() =~= segs.drop_last());
                assert(s.subrange(start as int, i + 1) =~= s.subrange(start as int, i as int).push(
                    s[i as int],
                ));
            }
            i = i + 1;
        }
    }
    let ghost segs = segments(s.subrange(0, i as int));
    proof {
        lemma_segments_len(s.subrange(0, i as int));
    }
    let t = trimmed(&chars, start, i);
    match t {
        Some(line) => {
            out.push(line);
        },
        None => {},
    }
    proof {
        assert(s.subrange(0, i as int) =~= s);
        assert(segs =~= segs.drop_last().push(segs.last()));
    }
    out
}

} // verus!
