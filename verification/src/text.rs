//! Greedy line wrapping from per-character advance widths.
//!
//! The metrics provider (bound to one font and size) hands the renderer one
//! advance width per character of the run, in length units. The wrapper
//! scans left to right accumulating width; when adding the next character
//! would push the running sum over the line budget, the line is cut before
//! that character. A character whose own width exceeds the budget is kept
//! whole on a line of its own; the remainder after the scan is flushed as
//! the final line.

use vstd::prelude::*;

verus! {

/// Upper bound on a single character's advance width, in units.
pub const MAX_ADVANCE: i64 = 1_000_000_000;

/// Upper bound on the character count of one text run.
pub const MAX_TEXT_LEN: usize = 1_000_000;

/// The sum of `w[a..b]`.
pub open spec fn range_sum(w: Seq<i64>, a: int, b: int) -> int
    decreases b - a,
{
    if a >= b {
        0
    } else {
        w[a] + range_sum(w, a + 1, b)
    }
}

/// The wrap of `s[from..]`, already `i - from` characters into the current
/// line with accumulated width `sum`. Each result pair is a half-open
/// character range of one line.
pub open spec fn split_rec(
    s: Seq<char>,
    w: Seq<i64>,
    max: int,
    from: int,
    i: int,
    sum: int,
) -> Seq<(int, int)>
    decreases s.len() - i,
    when 0 <= from <= i <= s.len()
{
    if i == s.len() {
        if from == i {
            Seq::empty()
        } else {
            seq![(from, i)]
        }
    } else if sum + w[i] > max && i > from {
        seq![(from, i)] + split_rec(s, w, max, i, i + 1, w[i] as int)
    } else {
        split_rec(s, w, max, from, i + 1, sum + w[i])
    }
}

/// The line ranges of the whole run.
pub open spec fn spec_split(s: Seq<char>, w: Seq<i64>, max: int) -> Seq<(int, int)> {
    split_rec(s, w, max, 0, 0, 0)
}

/// The concatenation of the given ranges of `s`.
pub open spec fn concat_ranges(s: Seq<char>, r: Seq<(int, int)>) -> Seq<char>
    decreases r.len(),
{
    if r.len() == 0 {
        Seq::empty()
    } else {
        s.subrange(r[0].0, r[0].1) + concat_ranges(s, r.drop_first())
    }
}

/// `range_sum` splits at any midpoint.
pub proof fn lemma_range_sum_split(w: Seq<i64>, a: int, b: int, c: int)
    requires
        a <= b <= c,
    ensures
        range_sum(w, a, c) == range_sum(w, a, b) + range_sum(w, b, c),
    decreases b - a,
{
    if a < b {
        lemma_range_sum_split(w, a + 1, b, c);
    }
}

/// A sum of bounded non-negative widths is bounded by count times the bound.
pub proof fn lemma_range_sum_bound(w: Seq<i64>, a: int, b: int)
    requires
        0 <= a <= b <= w.len(),
        forall|k: int| 0 <= k < w.len() ==> 0 <= #[trigger] w[k] <= MAX_ADVANCE,
    ensures
        0 <= range_sum(w, a, b) <= (b - a) * MAX_ADVANCE,
    decreases b - a,
{
    if a < b {
        lemma_range_sum_bound(w, a + 1, b);
        assert((b - a) * MAX_ADVANCE == MAX_ADVANCE + (b - (a + 1)) * MAX_ADVANCE)
            by (nonlinear_arith);
    } else {
        assert((b - a) * MAX_ADVANCE == 0) by (nonlinear_arith)
            requires
                a == b,
        ;
    }
}

/// The shape of a wrap in progress: its lines tile `[from, s.len())` in
/// order, every line is non-empty, every line of two or more characters
/// fits the budget, and the concatenation of the lines is exactly the
/// unconsumed suffix.
proof fn lemma_split_rec_props(s: Seq<char>, w: Seq<i64>, max: int, from: int, i: int, sum: int)
    requires
        0 <= from <= i <= s.len(),
        w.len() == s.len(),
        sum == range_sum(w, from, i),
        i >= from + 2 ==> sum <= max,
    ensures
        ({
            let r = split_rec(s, w, max, from, i, sum);
            &&& (r.len() == 0 <==> from == s.len())
            &&& r.len() > 0 ==> r[0].0 == from && r[r.len() - 1].1 == s.len()
            &&& forall|k: int| 0 <= k < r.len() ==> (#[trigger] r[k]).0 < r[k].1 <= s.len()
                && 0 <= r[k].0
            &&& forall|k: int| 0 <= k < r.len() - 1 ==> (#[trigger] r[k]).1 == r[k + 1].0
            &&& forall|k: int|
                0 <= k < r.len() && (#[trigger] r[k]).1 - r[k].0 >= 2 ==> range_sum(
                    w,
                    r[k].0,
                    r[k].1,
                ) <= max
            &&& concat_ranges(s, r) =~= s.subrange(from, s.len() as int)
        }),
    decreases s.len() - i,
{
    let r = split_rec(s, w, max, from, i, sum);
    if i == s.len() {
        if from < i {
            assert(r == seq![(from, i)]);
            assert(r.drop_first() =~= Seq::<(int, int)>::empty());
            assert(concat_ranges(s, r) == s.subrange(from, i) + concat_ranges(
                s,
                r.drop_first(),
            ));
            assert(concat_ranges(s, r) =~= s.subrange(from, s.len() as int));
        }
    } else if sum + w[i] > max && i > from {
        assert(range_sum(w, i + 1, i + 1) == 0);
        assert(range_sum(w, i, i + 1) == w[i] + range_sum(w, i + 1, i + 1));
        lemma_split_rec_props(s, w, max, i, i + 1, w[i] as int);
        let rest = split_rec(s, w, max, i, i + 1, w[i] as int);
        assert(r == seq![(from, i)] + rest);
        assert(r[0] == (from, i));
        assert(r.drop_first() =~= rest);
        assert(concat_ranges(s, r) == s.subrange(from, i) + concat_ranges(s, r.drop_first()));
        assert(concat_ranges(s, rest) =~= s.subrange(i, s.len() as int));
        assert(s.subrange(from, i) + s.subrange(i, s.len() as int) =~= s.subrange(
            from,
            s.len() as int,
        ));
        assert(forall|k: int| 0 <= k < rest.len() ==> r[k + 1] == rest[k]);
    } else {
        assert(range_sum(w, i + 1, i + 1) == 0);
        assert(range_sum(w, i, i + 1) == w[i] + range_sum(w, i + 1, i + 1));
        lemma_range_sum_split(w, from, i, i + 1);
        lemma_split_rec_props(s, w, max, from, i + 1, sum + w[i]);
    }
}

/// Concatenating all produced lines reconstructs the source text exactly.
pub proof fn lemma_wrap_reconstructs(s: Seq<char>, w: Seq<i64>, max: int)
    requires
        w.len() == s.len(),
    ensures
        concat_ranges(s, spec_split(s, w, max)) =~= s,
{
    lemma_split_rec_props(s, w, max, 0, 0, 0);
    assert(s.subrange(0, s.len() as int) =~= s);
}

/// Every produced line is a non-empty range; consecutive lines are
/// adjacent, the first starts at zero and the last ends at the length; and
/// every line of at least two characters fits the budget — only a single
/// character wider than the budget stands alone on an over-wide line.
pub proof fn lemma_wrap_line_shape(s: Seq<char>, w: Seq<i64>, max: int)
    requires
        w.len() == s.len(),
    ensures
        ({
            let r = spec_split(s, w, max);
            &&& (r.len() == 0 <==> s.len() == 0)
            &&& r.len() > 0 ==> r[0].0 == 0 && r[r.len() - 1].1 == s.len()
            &&& forall|k: int| 0 <= k < r.len() ==> (#[trigger] r[k]).0 < r[k].1 <= s.len()
                && 0 <= r[k].0
            &&& forall|k: int| 0 <= k < r.len() - 1 ==> (#[trigger] r[k]).1 == r[k + 1].0
            &&& forall|k: int|
                0 <= k < r.len() && (#[trigger] r[k]).1 - r[k].0 >= 2 ==> range_sum(
                    w,
                    r[k].0,
                    r[k].1,
                ) <= max
        }),
{
    lemma_split_rec_props(s, w, max, 0, 0, 0);
}

/// A non-empty run whose total width fits the budget yields exactly one
/// line, the whole run.
pub proof fn lemma_wrap_single_line(s: Seq<char>, w: Seq<i64>, max: int)
    requires
        w.len() == s.len(),
        s.len() > 0,
        forall|k: int| 0 <= k < w.len() ==> 0 <= #[trigger] w[k],
        range_sum(w, 0, s.len() as int) <= max,
    ensures
        spec_split(s, w, max) == seq![(0int, s.len() as int)],
{
    assert(range_sum(w, 0, 0) == 0);
    lemma_single_line_rec(s, w, max, 0, 0, 0);
}

/// Generalisation of [`lemma_wrap_single_line`] over a scan in progress.
proof fn lemma_single_line_rec(s: Seq<char>, w: Seq<i64>, max: int, from: int, i: int, sum: int)
    requires
        0 <= from <= i <= s.len(),
        from < s.len(),
        w.len() == s.len(),
        sum == range_sum(w, from, i),
        forall|k: int| 0 <= k < w.len() ==> 0 <= #[trigger] w[k],
        range_sum(w, from, s.len() as int) <= max,
    ensures
        split_rec(s, w, max, from, i, sum) == seq![(from, s.len() as int)],
    decreases s.len() - i,
{
    if i < s.len() {
        assert(range_sum(w, i + 1, i + 1) == 0);
        assert(range_sum(w, i, i + 1) == w[i] + range_sum(w, i + 1, i + 1));
        lemma_range_sum_split(w, from, i, i + 1);
        lemma_range_sum_split(w, from, i + 1, s.len() as int);
        lemma_range_sum_bound_nonneg(w, i + 1, s.len() as int);
        lemma_single_line_rec(s, w, max, from, i + 1, sum + w[i]);
    } else {
        assert(split_rec(s, w, max, from, i, sum) =~= seq![(from, s.len() as int)]);
    }
}

/// A sum of non-negative widths is non-negative.
proof fn lemma_range_sum_bound_nonneg(w: Seq<i64>, a: int, b: int)
    requires
        0 <= a <= b <= w.len(),
        forall|k: int| 0 <= k < w.len() ==> 0 <= #[trigger] w[k],
    ensures
        0 <= range_sum(w, a, b),
    decreases b - a,
{
    if a < b {
        lemma_range_sum_bound_nonneg(w, a + 1, b);
    }
}

/// One text run with its per-character advance widths and line budget.
#[derive(Debug)]
pub struct MultiLine {
    pub text: String,
    pub widths: Vec<i64>,
    pub max_width: i64,
}

impl MultiLine {
    /// One advance per character, all bounded, and a non-negative budget.
    pub open spec fn wf(&self) -> bool {
        &&& self.widths@.len() == self.text@.len()
        &&& self.text@.len() <= MAX_TEXT_LEN
        &&& forall|k: int|
            0 <= k < self.widths@.len() ==> 0 <= #[trigger] self.widths@[k] <= MAX_ADVANCE
        &&& 0 <= self.max_width
    }

    /// Wrap the run greedily into lines.
    pub fn split_text_to_multi_lines(&self) -> (lines: Vec<String>)
        requires
            self.wf(),
        ensures
            ({
                let r = spec_split(self.text@, self.widths@, self.max_width as int);
                &&& lines@.len() == r.len()
                &&& forall|k: int|
                    0 <= k < r.len() ==> (#[trigger] lines@[k])@ == self.text@.subrange(
                        r[k].0,
                        r[k].1,
                    )
            }),
    {
        let s = self.text.as_str();
        let n = s.unicode_len();
        let ghost sv = self.text@;
        let ghost wv = self.widths@;
        let ghost maxv = self.max_width as int;
        let mut lines: Vec<String> = Vec::new();
        let ghost mut emitted: Seq<(int, int)> = Seq::empty();
        let mut from: usize = 0;
        let mut i: usize = 0;
        let mut sum: i64 = 0;
        while i < n
            invariant
                self.wf(),
                n == sv.len(),
                sv == self.text@,
                wv == self.widths@,
                maxv == self.max_width as int,
                s@ == sv,
                0 <= from <= i <= n,
                sum == range_sum(wv, from as int, i as int),
                i >= from + 2 ==> sum <= maxv,
                spec_split(sv, wv, maxv) == emitted + split_rec(
                    sv,
                    wv,
                    maxv,
                    from as int,
                    i as int,
                    sum as int,
                ),
                lines@.len() == emitted.len(),
                forall|k: int|
                    0 <= k < emitted.len() ==> (#[trigger] lines@[k])@ == sv.subrange(
                        emitted[k].0,
                        emitted[k].1,
                    ),
            decreases n - i,
        {
            proof {
                lemma_range_sum_bound(wv, from as int, i as int);
                assert(((i as int) - (from as int)) * MAX_ADVANCE <= 1000000int * MAX_ADVANCE)
                    by (nonlinear_arith)
                    requires
                        (i as int) - (from as int) <= 1000000,
                ;
            }
            let wi = self.widths[i];
            proof {
                assert(range_sum(wv, i as int + 1, i as int + 1) == 0);
                assert(range_sum(wv, i as int, i as int + 1) == wv[i as int] + range_sum(
                    wv,
                    i as int + 1,
                    i as int + 1,
                ));
                lemma_range_sum_split(wv, from as int, i as int, i as int + 1);
            }
            if sum + wi > self.max_width && i > from {
                let seg = s.substring_char(from, i).to_owned();
                lines.push(seg);
                proof {
                    emitted = emitted.push((from as int, i as int));
                    assert(spec_split(sv, wv, maxv) == emitted + split_rec(
                        sv,
                        wv,
                        maxv,
                        i as int,
                        i as int + 1,
                        wv[i as int] as int,
                    ));
                }
                from = i;
                sum = wi;
                i = i + 1;
            } else {
                sum = sum + wi;
                i = i + 1;
            }
        }
        if from < n {
            let seg = s.substring_char(from, n).to_owned();
            lines.push(seg);
            proof {
                emitted = emitted.push((from as int, n as int));
            }
        }
        lines
    }
}

/// The fixed typographic-point to length-unit ratio applied when a font
/// size sets a drawn line's height: 72 points span 25.4 millimetres, so one
/// point is 127/360 of a millimetre-scaled unit.
pub fn to_mm_size(font_size: i64) -> (r: i64)
    requires
        0 <= font_size <= MAX_ADVANCE,
    ensures
        r == font_size * 127 / 360,
        0 <= r <= font_size,
    {
    font_size * 127 / 360
}

} // verus!
