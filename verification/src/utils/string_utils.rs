//! Character-level string tools: splitting text into bounded rows,
//! case-insensitive trigger-word containment, and trigger-word normalization.

use vstd::prelude::*;

verus! {

// ---------------------------------------------------------------------------
// Case folding
// ---------------------------------------------------------------------------
/// The Unicode lowercase form of a character sequence, as `str::to_lowercase`
/// computes it. The mapping depends on the characters alone.
pub uninterp spec fn lower_of(s: Seq<char>) -> Seq<char>;

/// The Unicode uppercase form of a character sequence, as `str::to_uppercase`
/// computes it. The mapping depends on the characters alone.
pub uninterp spec fn upper_of(s: Seq<char>) -> Seq<char>;

/// Relies on `str::to_lowercase`: the Unicode lowercase of the input,
/// a function of the characters alone; an empty string stays empty.
#[verifier::external_body]
pub fn to_lower(s: &str) -> (r: String)
    ensures
        r@ == lower_of(s@),
        s@.len() == 0 ==> r@.len() == 0,
{
    s.to_lowercase()
}

/// Relies on `str::to_uppercase`: the Unicode uppercase of the input,
/// a function of the characters alone; an empty string stays empty.
#[verifier::external_body]
pub fn to_upper(s: &str) -> (r: String)
    ensures
        r@ == upper_of(s@),
        s@.len() == 0 ==> r@.len() == 0,
{
    s.to_uppercase()
}

// ---------------------------------------------------------------------------
// Splitting on a separator character
// ---------------------------------------------------------------------------
/// The segments of `s` from position `i` on, where the segment under
/// construction began at `cur`. Scanning the whole sequence from the start
/// gives exactly the behaviour of `str::split` on a one-character pattern.
pub open spec fn split_from(s: Seq<char>, sep: char, i: int, cur: int) -> Seq<Seq<char>>
    recommends
        0 <= cur <= i <= s.len(),
    decreases s.len() - i,
{
    if i < 0 || i >= s.len() {
        seq![s.subrange(cur, s.len() as int)]
    } else if s[i] == sep {
        seq![s.subrange(cur, i)] + split_from(s, sep, i + 1, i + 1)
    } else {
        split_from(s, sep, i + 1, cur)
    }
}

/// All segments of `s` between occurrences of `sep`; never empty, and
/// splitting the empty sequence yields one empty segment.
pub open spec fn split_chars(s: Seq<char>, sep: char) -> Seq<Seq<char>> {
    split_from(s, sep, 0, 0)
}

/// Split a string on a one-character separator.
pub fn split_str(s: &str, sep: char) -> (parts: Vec<String>)
    ensures
        parts.deep_view() == split_chars(s@, sep),
{
    let n = s.unicode_len();
    let mut parts: Vec<String> = Vec::new();
    let mut start: usize = 0;
    let mut i: usize = 0;
    while i < n
        invariant
            n == s@.len(),
            0 <= start <= i <= n,
            split_chars(s@, sep) == parts.deep_view() + split_from(
                s@,
                sep,
                i as int,
                start as int,
            ),
        decreases n - i,
    {
        if s.get_char(i) == sep {
            let seg = String::from_str(s.substring_char(start, i));
            parts.push(seg);
            proof {
                assert(parts.deep_view() =~= parts.deep_view().drop_last().push(
                    s@.subrange(start as int, i as int),
                ));
                assert(split_from(s@, sep, i as int, start as int) == seq![
                    s@.subrange(start as int, i as int),
                ] + split_from(s@, sep, i as int + 1, i as int + 1));
            }
            start = i + 1;
        }
        i += 1;
    }
    let tail = String::from_str(s.substring_char(start, n));
    parts.push(tail);
    proof {
        assert(split_from(s@, sep, n as int, start as int) == seq![
            s@.subrange(start as int, n as int),
        ]);
        assert(parts.deep_view() =~= parts.deep_view().drop_last().push(
            s@.subrange(start as int, n as int),
        ));
        assert(parts.deep_view() =~= split_chars(s@, sep));
    }
    parts
}

// ---------------------------------------------------------------------------
// Substring containment
// ---------------------------------------------------------------------------
/// `needle` occurs in `hay` starting at position `i`.
pub open spec fn contains_at(hay: Seq<char>, needle: Seq<char>, i: int) -> bool {
    0 <= i && i + needle.len() <= hay.len() && hay.subrange(i, i + needle.len() as int) == needle
}

/// `needle` occurs somewhere in `hay`, as `str::contains` decides it.
pub open spec fn seq_contains(hay: Seq<char>, needle: Seq<char>) -> bool {
    exists|i: int| contains_at(hay, needle, i)
}

/// Substring search: does `needle` occur anywhere in `hay`?
pub fn str_contains(hay: &str, needle: &str) -> (r: bool)
    ensures
        r == seq_contains(hay@, needle@),
{
    let h = hay.unicode_len();
    let n = needle.unicode_len();
    if n > h {
        proof {
            assert(forall|i: int| !contains_at(hay@, needle@, i));
        }
        return false;
    }
    let mut i: usize = 0;
    loop
        invariant
            h == hay@.len(),
            n == needle@.len(),
            n <= h,
            0 <= i <= h - n + 1,
            forall|k: int| 0 <= k < i ==> !contains_at(hay@, needle@, k),
        decreases h - n + 1 - i,
    {
        if i > h - n {
            proof {
                assert forall|k: int| !contains_at(hay@, needle@, k) by {
                    if 0 <= k <= h - n {
                        assert(!contains_at(hay@, needle@, k));
                    }
                }
            }
            return false;
        }
        let mut j: usize = 0;
        let mut is_match = true;
        while j < n
            invariant_except_break
                is_match,
                h == hay@.len(),
                n == needle@.len(),
                i + n <= h,
                0 <= j <= n,
                forall|l: int| 0 <= l < j ==> hay@[i + l] == needle@[l],
            ensures
                is_match ==> forall|l: int| 0 <= l < n ==> hay@[i + l] == needle@[l],
                !is_match ==> exists|l: int| 0 <= l < n && hay@[i + l] != needle@[l],
            decreases n - j,
        {
            if hay.get_char(i + j) != needle.get_char(j) {
                is_match = false;
                break ;
            }
            j += 1;
        }
        if is_match {
            proof {
                assert(hay@.subrange(i as int, i + n) =~= needle@);
                assert(contains_at(hay@, needle@, i as int));
            }
            return true;
        }
        proof {
            let l = choose|l: int| 0 <= l < n && hay@[i + l] != needle@[l];
            assert(hay@.subrange(i as int, i + n)[l] == hay@[i + l]);
            assert(!contains_at(hay@, needle@, i as int));
        }
        i += 1;
    }
}

// ---------------------------------------------------------------------------
// Leftmost occurrence of a pattern
// ---------------------------------------------------------------------------
/// The position of the leftmost occurrence of `pat` in `s` at or after `i`.
pub open spec fn first_occurrence(s: Seq<char>, pat: Seq<char>, i: int) -> Option<int>
    decreases s.len() - i + 1,
{
    if i < 0 || i + pat.len() > s.len() {
        Option::None
    } else if s.subrange(i, i + pat.len() as int) == pat {
        Option::Some(i)
    } else {
        first_occurrence(s, pat, i + 1)
    }
}

/// What a found occurrence means: it lies in range and matches there.
pub proof fn lemma_first_occurrence_props(s: Seq<char>, pat: Seq<char>, i: int)
    requires
        first_occurrence(s, pat, i) is Some,
    ensures
        i <= first_occurrence(s, pat, i).unwrap(),
        first_occurrence(s, pat, i).unwrap() + pat.len() <= s.len(),
        s.subrange(
            first_occurrence(s, pat, i).unwrap(),
            first_occurrence(s, pat, i).unwrap() + pat.len() as int,
        ) == pat,
    decreases s.len() - i + 1,
{
    if !(i < 0 || i + pat.len() > s.len()) && s.subrange(i, i + pat.len() as int) != pat {
        lemma_first_occurrence_props(s, pat, i + 1);
    }
}

/// The position of the leftmost occurrence of `pat` in `hay`, if any.
pub fn find_first(hay: &str, pat: &str) -> (r: Option<usize>)
    ensures
        match r {
            Some(i) => first_occurrence(hay@, pat@, 0) == Option::Some(i as int),
            None => first_occurrence(hay@, pat@, 0) is None,
        },
{
    let h = hay.unicode_len();
    let n = pat.unicode_len();
    if n > h {
        return None;
    }
    let mut i: usize = 0;
    loop
        invariant
            h == hay@.len(),
            n == pat@.len(),
            n <= h,
            0 <= i <= h - n + 1,
            first_occurrence(hay@, pat@, 0) == first_occurrence(hay@, pat@, i as int),
        decreases h - n + 1 - i,
    {
        if i > h - n {
            return None;
        }
        let mut j: usize = 0;
        let mut is_match = true;
        while j < n
            invariant_except_break
                is_match,
                h == hay@.len(),
                n == pat@.len(),
                i + n <= h,
                0 <= j <= n,
                forall|l: int| 0 <= l < j ==> hay@[i + l] == pat@[l],
            ensures
                is_match ==> forall|l: int| 0 <= l < n ==> hay@[i + l] == pat@[l],
                !is_match ==> exists|l: int| 0 <= l < n && hay@[i + l] != pat@[l],
            decreases n - j,
        {
            if hay.get_char(i + j) != pat.get_char(j) {
                is_match = false;
                break ;
            }
            j += 1;
        }
        if is_match {
            proof {
                assert(hay@.subrange(i as int, i + n) =~= pat@);
            }
            return Some(i);
        }
        proof {
            let l = choose|l: int| 0 <= l < n && hay@[i + l] != pat@[l];
            assert(hay@.subrange(i as int, i + n)[l] == hay@[i + l]);
            assert(hay@.subrange(i as int, i + n) != pat@);
        }
        i += 1;
    }
}

/// The end of the line that position `j` lies on: the next newline at or
/// after `j`, or the end of the sequence.
pub open spec fn line_end_from(s: Seq<char>, j: int) -> int
    decreases s.len() - j,
{
    if j < 0 || j >= s.len() {
        s.len() as int
    } else if s[j] == '\n' {
        j
    } else {
        line_end_from(s, j + 1)
    }
}

/// Find the end of the line starting the scan at `from`.
pub fn find_line_end(s: &str, from: usize) -> (r: usize)
    requires
        from <= s@.len(),
    ensures
        r == line_end_from(s@, from as int),
        from <= r <= s@.len(),
{
    let n = s.unicode_len();
    let mut j: usize = from;
    while j < n
        invariant
            n == s@.len(),
            from <= j <= n,
            line_end_from(s@, from as int) == line_end_from(s@, j as int),
        decreases n - j,
    {
        if s.get_char(j) == '\n' {
            return j;
        }
        j += 1;
    }
    n
}

// ---------------------------------------------------------------------------
// Row layout: greedy packing of words into rows of bounded length
// ---------------------------------------------------------------------------
/// A word cut down to the budget: anything longer than `max` keeps its first
/// `max - 3` characters and gains a three-character ellipsis marker.
pub open spec fn truncated_spec(s: Seq<char>, max: int) -> Seq<char> {
    if s.len() <= max {
        s
    } else {
        s.subrange(0, max - 3) + "..."@
    }
}

/// One step of the row-packing fold: append the word to the last row when it
/// fits with a separating space, otherwise start a new (possibly truncated) row.
pub open spec fn batch_push(buf: Seq<Seq<char>>, val: Seq<char>, max: int) -> Seq<Seq<char>> {
    if buf.len() == 0 {
        seq![truncated_spec(val, max)]
    } else {
        let last = buf.last();
        if last.len() + val.len() + 1 > max {
            buf.push(truncated_spec(val, max))
        } else if last.len() > max {
            buf.update(buf.len() - 1, truncated_spec(last, max))
        } else {
            buf.update(buf.len() - 1, last + seq![' '] + val)
        }
    }
}

/// The rows produced by greedily packing the given words in order.
pub open spec fn batch_fold(words: Seq<Seq<char>>, max: int) -> Seq<Seq<char>>
    decreases words.len(),
{
    if words.len() == 0 {
        Seq::empty()
    } else {
        batch_push(batch_fold(words.drop_last(), max), words.last(), max)
    }
}

/// The rows of `text` under a character budget of `max` per row.
pub open spec fn batch_spec(text: Seq<char>, max: int) -> Seq<Seq<char>> {
    batch_fold(split_chars(text, ' '), max)
}

/// The budget is workable: either it leaves room for the ellipsis marker, or
/// no word of the text needs truncating.
pub open spec fn batch_budget_ok(text: Seq<char>, max: int) -> bool {
    max >= 3 || forall|k: int|
        0 <= k < split_chars(text, ' ').len() ==> (#[trigger] split_chars(text, ' ')[k]).len()
            <= max
}

/// Slicing string by spaces with maximum row length
///
/// Parameters:
///  - text: input string
///  - max_row_ln: maximum row length
///
/// Return: vector of string rows
pub fn batch(text: &str, max_row_ln: usize) -> (r: Vec<String>)
    requires
        batch_budget_ok(text@, max_row_ln as int),
    ensures
        r.deep_view() == batch_spec(text@, max_row_ln as int),
{
    let words = split_str(text, ' ');
    let ghost gw = words.deep_view();
    let mut buffer: Vec<String> = Vec::new();
    let mut idx: usize = 0;
    while idx < words.len()
        invariant
            gw == words.deep_view(),
            gw == split_chars(text@, ' '),
            batch_budget_ok(text@, max_row_ln as int),
            0 <= idx <= words.len(),
            buffer.deep_view() == batch_fold(gw.take(idx as int), max_row_ln as int),
        decreases words.len() - idx,
    {
        let ghost prefix = gw.take(idx as int);
        proof {
            assert(gw.take(idx + 1).drop_last() =~= prefix);
            assert(gw.take(idx + 1).last() == gw[idx as int]);
            assert(batch_fold(gw.take(idx + 1), max_row_ln as int) == batch_push(
                batch_fold(prefix, max_row_ln as int),
                gw[idx as int],
                max_row_ln as int,
            ));
            if max_row_ln < 3 {
                assert(gw[idx as int].len() <= max_row_ln);
            }
        }
        let val = &words[idx];
        let val_ln = val.as_str().unicode_len();
        if buffer.len() == 0 {
            let row = truncated(val.clone(), max_row_ln);
            buffer.push(row);
            proof {
                assert(buffer.deep_view() =~= batch_fold(gw.take(idx + 1), max_row_ln as int));
            }
        } else {
            let last_ln = buffer[buffer.len() - 1].as_str().unicode_len();
            if (last_ln as u128) + (val_ln as u128) + 1 > (max_row_ln as u128) {
                let row = truncated(val.clone(), max_row_ln);
                buffer.push(row);
                proof {
                    assert(buffer.deep_view() =~= batch_fold(gw.take(idx + 1), max_row_ln as int));
                }
            } else if last_ln > max_row_ln {
                let mut row = buffer.pop().unwrap();
                truncate(&mut row, max_row_ln);
                buffer.push(row);
                proof {
                    assert(buffer.deep_view() =~= batch_fold(gw.take(idx + 1), max_row_ln as int));
                }
            } else {
                let mut row = buffer.pop().unwrap();
                row.append(" ");
                row.append(val.as_str());
                buffer.push(row);
                proof {
                    assert(" "@ =~= seq![' ']) by {
                        reveal_strlit(" ");
                    }
                    assert(buffer.deep_view() =~= batch_fold(gw.take(idx + 1), max_row_ln as int));
                }
            }
        }
        idx += 1;
    }
    proof {
        assert(gw.take(words.len() as int) =~= gw);
    }
    buffer
}

/// Shorten a row in place to the budget, marking the cut with an ellipsis.
pub fn truncate(s: &mut String, max_ln: usize)
    requires
        old(s)@.len() <= max_ln || max_ln >= 3,
    ensures
        final(s)@ == truncated_spec(old(s)@, max_ln as int),
{
    let r = truncated(s.clone(), max_ln);
    *s = r;
}

/// A copy of the word cut down to the budget: words longer than `max_ln` keep
/// their first `max_ln - 3` characters and gain a three-character marker.
pub fn truncated(s: String, max_ln: usize) -> (r: String)
    requires
        s@.len() <= max_ln || max_ln >= 3,
    ensures
        r@ == truncated_spec(s@, max_ln as int),
{
    let n = s.as_str().unicode_len();
    if n <= max_ln {
        return s;
    }
    let _ln = max_ln - 3;
    let mut out = String::from_str(s.as_str().substring_char(0, _ln));
    out.append("...");
    out
}

// ---------------------------------------------------------------------------
// Laws of the row layout
// ---------------------------------------------------------------------------
proof fn lemma_fold_nonempty(words: Seq<Seq<char>>, max: int)
    requires
        words.len() > 0,
    ensures
        batch_fold(words, max).len() > 0,
{
}

proof fn lemma_fold_rows_bounded(words: Seq<Seq<char>>, max: int)
    requires
        max >= 3 || forall|k: int| 0 <= k < words.len() ==> (#[trigger] words[k]).len() <= max,
    ensures
        forall|k: int|
            0 <= k < batch_fold(words, max).len() ==> (#[trigger] batch_fold(words, max)[k]).len()
                <= max,
    decreases words.len(),
{
    reveal_strlit("...");
    if words.len() > 0 {
        lemma_fold_rows_bounded(words.drop_last(), max);
        let rows = batch_fold(words.drop_last(), max);
        let w = words.last();
        assert(truncated_spec(w, max).len() <= max);
        assert(batch_fold(words, max) == batch_push(rows, w, max));
    }
}

/// No row of the layout ever exceeds the budget: a single word beyond the
/// budget is shortened, never carried over in full.
pub proof fn lemma_batch_rows_bounded(text: Seq<char>, max: int)
    requires
        batch_budget_ok(text, max),
    ensures
        forall|k: int|
            0 <= k < batch_spec(text, max).len() ==> (#[trigger] batch_spec(text, max)[k]).len()
                <= max,
{
    lemma_fold_rows_bounded(split_chars(text, ' '), max);
}

proof fn lemma_join_append(a: Seq<Seq<char>>, b: Seq<Seq<char>>, sep: char)
    requires
        a.len() > 0,
        b.len() > 0,
    ensures
        join_sep(a + b, sep) == join_sep(a, sep) + seq![sep] + join_sep(b, sep),
    decreases b.len(),
{
    if b.len() == 1 {
        assert((a + b).drop_last() =~= a);
        assert((a + b).last() == b[0]);
        assert(join_sep(a + b, sep) == join_sep(a, sep) + seq![sep] + b[0]);
    } else {
        assert((a + b).drop_last() =~= a + b.drop_last());
        lemma_join_append(a, b.drop_last(), sep);
        assert(join_sep(a, sep) + seq![sep] + join_sep(b.drop_last(), sep) + seq![sep] + b.last()
            =~= join_sep(a, sep) + seq![sep] + (join_sep(b.drop_last(), sep) + seq![sep]
            + b.last()));
    }
}

/// Splitting on a separator and joining the segments with it again restores
/// the original sequence.
pub proof fn lemma_join_split(s: Seq<char>, sep: char)
    ensures
        join_sep(split_chars(s, sep), sep) == s,
{
    lemma_join_split_from(s, sep, 0, 0);
    assert(s.subrange(0, s.len() as int) =~= s);
}

proof fn lemma_split_from_nonempty(s: Seq<char>, sep: char, i: int, cur: int)
    requires
        0 <= cur <= i <= s.len(),
    ensures
        split_from(s, sep, i, cur).len() > 0,
    decreases s.len() - i,
{
    if i < s.len() && s[i] != sep {
        lemma_split_from_nonempty(s, sep, i + 1, cur);
    }
}

proof fn lemma_join_split_from(s: Seq<char>, sep: char, i: int, cur: int)
    requires
        0 <= cur <= i <= s.len(),
    ensures
        join_sep(split_from(s, sep, i, cur), sep) == s.subrange(cur, s.len() as int),
    decreases s.len() - i,
{
    if i >= s.len() {
    } else if s[i] == sep {
        lemma_join_split_from(s, sep, i + 1, i + 1);
        lemma_split_from_nonempty(s, sep, i + 1, i + 1);
        lemma_join_append(
            seq![s.subrange(cur, i)],
            split_from(s, sep, i + 1, i + 1),
            sep,
        );
        assert(s.subrange(cur, i) + seq![sep] + s.subrange(i + 1, s.len() as int) =~= s.subrange(
            cur,
            s.len() as int,
        ));
    } else {
        lemma_join_split_from(s, sep, i + 1, cur);
    }
}

proof fn lemma_join_last_extend(parts: Seq<Seq<char>>, suffix: Seq<char>, sep: char)
    requires
        parts.len() > 0,
    ensures
        join_sep(parts.update(parts.len() - 1, parts.last() + suffix), sep) == join_sep(parts, sep)
            + suffix,
{
    let updated = parts.update(parts.len() - 1, parts.last() + suffix);
    if parts.len() == 1 {
        assert(updated[0] == parts[0] + suffix);
    } else {
        assert(updated.drop_last() =~= parts.drop_last());
        assert(updated.last() == parts.last() + suffix);
        assert(join_sep(parts.drop_last(), sep) + seq![sep] + (parts.last() + suffix)
            =~= join_sep(parts.drop_last(), sep) + seq![sep] + parts.last() + suffix);
    }
}

proof fn lemma_fold_preserves_words(words: Seq<Seq<char>>, max: int)
    requires
        forall|k: int| 0 <= k < words.len() ==> (#[trigger] words[k]).len() <= max,
    ensures
        join_sep(batch_fold(words, max), ' ') == join_sep(words, ' '),
    decreases words.len(),
{
    if words.len() == 0 {
    } else {
        let prev = words.drop_last();
        let w = words.last();
        lemma_fold_preserves_words(prev, max);
        let rows = batch_fold(prev, max);
        assert(truncated_spec(w, max) == w);
        if prev.len() == 0 {
            assert(rows.len() == 0);
            assert(batch_fold(words, max) =~= seq![w]);
            assert(words =~= seq![w]);
        } else {
            lemma_fold_nonempty(prev, max);
            lemma_fold_rows_bounded(prev, max);
            let last = rows.last();
            assert(last.len() <= max);
            if last.len() + w.len() + 1 > max {
                let rows2 = rows.push(w);
                assert(batch_fold(words, max) == rows2);
                assert(rows2.drop_last() =~= rows);
                assert(join_sep(rows2, ' ') == join_sep(rows, ' ') + seq![' '] + w);
                assert(words.drop_last() =~= prev);
                assert(join_sep(words, ' ') == join_sep(prev, ' ') + seq![' '] + w);
            } else {
                assert(batch_fold(words, max) == rows.update(rows.len() - 1, last + seq![' '] + w));
                lemma_join_last_extend(rows, seq![' '] + w, ' ');
                assert(last + seq![' '] + w =~= last + (seq![' '] + w));
                assert(rows.update(rows.len() - 1, last + seq![' '] + w) == rows.update(
                    rows.len() - 1,
                    rows.last() + (seq![' '] + w),
                ));
                assert(join_sep(rows, ' ') + (seq![' '] + w) =~= join_sep(rows, ' ') + seq![' ']
                    + w);
                assert(join_sep(words, ' ') == join_sep(prev, ' ') + seq![' '] + w);
            }
        }
    }
}

/// When every word of the text fits the budget, the layout only regroups the
/// words: joining the rows with single spaces restores the words in order,
/// spelling untouched.
pub proof fn lemma_batch_preserves_words(text: Seq<char>, max: int)
    requires
        forall|k: int|
            0 <= k < split_chars(text, ' ').len() ==> (#[trigger] split_chars(text, ' ')[k]).len()
                <= max,
    ensures
        join_sep(batch_spec(text, max), ' ') == text,
{
    lemma_fold_preserves_words(split_chars(text, ' '), max);
    lemma_join_split(text, ' ');
}

proof fn lemma_fold_contains_truncated(words: Seq<Seq<char>>, max: int, k: int)
    requires
        max >= 3,
        0 <= k < words.len(),
        words[k].len() > max,
    ensures
        batch_fold(words, max).contains(truncated_spec(words[k], max)),
    decreases words.len(),
{
    reveal_strlit("...");
    let prev = words.drop_last();
    let w = words.last();
    let rows = batch_fold(prev, max);
    let x = truncated_spec(words[k], max);
    assert(x.len() == max);
    if k == words.len() - 1 {
        if rows.len() == 0 {
            assert(batch_fold(words, max) == seq![truncated_spec(w, max)]);
            assert(batch_fold(words, max)[0] == x);
        } else {
            assert(rows.last().len() + w.len() + 1 > max);
            let rows2 = rows.push(truncated_spec(w, max));
            assert(batch_fold(words, max) == rows2);
            assert(rows2[rows2.len() - 1] == x);
        }
        assert(batch_fold(words, max).contains(x));
    } else {
        lemma_fold_contains_truncated(prev, max, k);
        let i = choose|i: int| 0 <= i < rows.len() && rows[i] == x;
        assert(rows.len() > 0);
        let last = rows.last();
        if last.len() + w.len() + 1 > max {
            let rows2 = rows.push(truncated_spec(w, max));
            assert(batch_fold(words, max) == rows2);
            assert(rows2[i] == x);
            assert(rows2.contains(x));
        } else if last.len() > max {
            let rows2 = rows.update(rows.len() - 1, truncated_spec(last, max));
            assert(batch_fold(words, max) == rows2);
            assert(truncated_spec(last, max).len() == max);
            if i == rows.len() - 1 {
                assert(rows2[i] == truncated_spec(last, max));
                assert(rows2[i].len() == max);
                assert(last == x);
                assert(last.len() == max);
                assert(false);
            } else {
                assert(rows2[i] == x);
            }
            assert(rows2.contains(x));
        } else {
            let rows2 = rows.update(rows.len() - 1, last + seq![' '] + w);
            assert(batch_fold(words, max) == rows2);
            if i == rows.len() - 1 {
                assert(last == x);
                assert(last.len() + w.len() + 1 <= max);
                assert(false);
            }
            assert(rows2[i] == x);
            assert(rows2.contains(x));
        }
    }
}

/// A word longer than the budget is never split over two rows: the layout
/// holds a single row carrying its first `max - 3` characters plus the
/// three-character marker, exactly `max` characters in all.
pub proof fn lemma_long_word_truncated(text: Seq<char>, max: int, k: int)
    requires
        max >= 3,
        0 <= k < split_chars(text, ' ').len(),
        split_chars(text, ' ')[k].len() > max,
    ensures
        batch_spec(text, max).contains(truncated_spec(split_chars(text, ' ')[k], max)),
        truncated_spec(split_chars(text, ' ')[k], max) == split_chars(text, ' ')[k].subrange(
            0,
            max - 3,
        ) + "..."@,
        truncated_spec(split_chars(text, ' ')[k], max).len() == max,
{
    reveal_strlit("...");
    lemma_fold_contains_truncated(split_chars(text, ' '), max, k);
}

/// Laying the same text out twice under the same budget yields the same
/// rows: the layout is a function of text and budget alone, with no hidden
/// state.
pub proof fn lemma_layout_deterministic(
    r1: Seq<Seq<char>>,
    r2: Seq<Seq<char>>,
    text: Seq<char>,
    max: int,
)
    requires
        r1 == batch_spec(text, max),
        r2 == batch_spec(text, max),
    ensures
        r1 == r2,
{
}

// ---------------------------------------------------------------------------
// Trigger-word containment
// ---------------------------------------------------------------------------
/// The comma-separated words of `words` (case-folded) that are non-empty and
/// occur, case-insensitively, somewhere in `message`.
pub open spec fn matched_words(words: Seq<char>, message: Seq<char>) -> Seq<Seq<char>> {
    split_chars(lower_of(words), ',').filter(
        |w: Seq<char>| w.len() > 0 && seq_contains(lower_of(message), w),
    )
}

/// Check contains trigger words in message
///
/// Parameters:
///  - words: comma separated trigger words
///  - message: message
///
/// Return: contains trigger words in vector
pub fn contains_in(words: String, message: String) -> (r: Vec<String>)
    ensures
        r.deep_view() == matched_words(words@, message@),
{
    let l_msg = to_lower(message.as_str());
    let l_words = to_lower(words.as_str());
    let parts = split_str(l_words.as_str(), ',');
    let ghost gp = parts.deep_view();
    let ghost pred = |w: Seq<char>| w.len() > 0 && seq_contains(lower_of(message@), w);
    let mut out: Vec<String> = Vec::new();
    let mut i: usize = 0;
    while i < parts.len()
        invariant
            gp == parts.deep_view(),
            gp == split_chars(lower_of(words@), ','),
            l_msg@ == lower_of(message@),
            pred == (|w: Seq<char>| w.len() > 0 && seq_contains(lower_of(message@), w)),
            0 <= i <= parts.len(),
            out.deep_view() == gp.take(i as int).filter(pred),
        decreases parts.len() - i,
    {
        proof {
            reveal(Seq::filter);
            assert(gp.take(i + 1).drop_last() =~= gp.take(i as int));
            assert(gp.take(i + 1).last() == gp[i as int]);
        }
        let part = &parts[i];
        if !part.as_str().is_empty() && str_contains(l_msg.as_str(), part.as_str()) {
            out.push(part.clone());
            proof {
                assert(out.deep_view() =~= gp.take(i + 1).filter(pred));
            }
        } else {
            proof {
                assert(out.deep_view() =~= gp.take(i + 1).filter(pred));
            }
        }
        i += 1;
    }
    proof {
        assert(gp.take(parts.len() as int) =~= gp);
    }
    out
}

// ---------------------------------------------------------------------------
// Normalizing comma-separated trigger-word lists
// ---------------------------------------------------------------------------
/// The characters with the Unicode `White_Space` property, as
/// `char::is_whitespace` reports them.
pub open spec fn is_space_char(c: char) -> bool {
    c == ' ' || c == '\u{9}' || c == '\u{a}' || c == '\u{b}' || c == '\u{c}' || c == '\u{d}' || c
        == '\u{85}' || c == '\u{a0}' || c == '\u{1680}' || c == '\u{2000}' || c == '\u{2001}' || c
        == '\u{2002}' || c == '\u{2003}' || c == '\u{2004}' || c == '\u{2005}' || c == '\u{2006}'
        || c == '\u{2007}' || c == '\u{2008}' || c == '\u{2009}' || c == '\u{200a}' || c
        == '\u{2028}' || c == '\u{2029}' || c == '\u{202f}' || c == '\u{205f}' || c == '\u{3000}'
}

/// Whether `c` has the Unicode `White_Space` property.
pub fn is_space(c: char) -> (r: bool)
    ensures
        r == is_space_char(c),
{
    c == ' ' || c == '\u{9}' || c == '\u{a}' || c == '\u{b}' || c == '\u{c}' || c == '\u{d}' || c
        == '\u{85}' || c == '\u{a0}' || c == '\u{1680}' || c == '\u{2000}' || c == '\u{2001}' || c
        == '\u{2002}' || c == '\u{2003}' || c == '\u{2004}' || c == '\u{2005}' || c == '\u{2006}'
        || c == '\u{2007}' || c == '\u{2008}' || c == '\u{2009}' || c == '\u{200a}' || c
        == '\u{2028}' || c == '\u{2029}' || c == '\u{202f}' || c == '\u{205f}' || c == '\u{3000}'
}

/// `s` without leading whitespace.
pub open spec fn trim_start_spec(s: Seq<char>) -> Seq<char>
    decreases s.len(),
{
    if s.len() > 0 && is_space_char(s[0]) {
        trim_start_spec(s.drop_first())
    } else {
        s
    }
}

/// `s` without trailing whitespace.
pub open spec fn trim_end_spec(s: Seq<char>) -> Seq<char>
    decreases s.len(),
{
    if s.len() > 0 && is_space_char(s.last()) {
        trim_end_spec(s.drop_last())
    } else {
        s
    }
}

/// `s` without leading and trailing whitespace, as `str::trim` yields it.
pub open spec fn trim_spec(s: Seq<char>) -> Seq<char> {
    trim_end_spec(trim_start_spec(s))
}

proof fn lemma_trim_start_at(s: Seq<char>, a: int)
    requires
        0 <= a <= s.len(),
        forall|k: int| 0 <= k < a ==> is_space_char(s[k]),
        a == s.len() || !is_space_char(s[a]),
    ensures
        trim_start_spec(s) == s.subrange(a, s.len() as int),
    decreases a,
{
    if a == 0 {
        assert(trim_start_spec(s) =~= s.subrange(0, s.len() as int));
    } else {
        let t = s.drop_first();
        assert(forall|k: int| 0 <= k < a - 1 ==> t[k] == s[k + 1]);
        lemma_trim_start_at(t, a - 1);
        assert(t.subrange(a - 1, t.len() as int) =~= s.subrange(a, s.len() as int));
    }
}

proof fn lemma_trim_end_at(s: Seq<char>, b: int)
    requires
        0 <= b <= s.len(),
        forall|k: int| b <= k < s.len() ==> is_space_char(s[k]),
        b == 0 || !is_space_char(s[b - 1]),
    ensures
        trim_end_spec(s) == s.subrange(0, b),
    decreases s.len() - b,
{
    if b == s.len() {
        assert(trim_end_spec(s) =~= s.subrange(0, b));
    } else {
        let t = s.drop_last();
        lemma_trim_end_at(t, b);
        assert(t.subrange(0, b) =~= s.subrange(0, b));
    }
}

/// Strip leading and trailing whitespace.
pub fn trim_str(s: &str) -> (r: String)
    ensures
        r@ == trim_spec(s@),
{
    let n = s.unicode_len();
    let mut a: usize = 0;
    while a < n && is_space(s.get_char(a))
        invariant
            n == s@.len(),
            0 <= a <= n,
            forall|k: int| 0 <= k < a ==> is_space_char(s@[k]),
        decreases n - a,
    {
        a += 1;
    }
    let mut b: usize = n;
    while b > a && is_space(s.get_char(b - 1))
        invariant
            n == s@.len(),
            0 <= a <= b <= n,
            forall|k: int| 0 <= k < a ==> is_space_char(s@[k]),
            forall|k: int| b <= k < n ==> is_space_char(s@[k]),
        decreases b,
    {
        b -= 1;
    }
    proof {
        lemma_trim_start_at(s@, a as int);
        let t = s@.subrange(a as int, n as int);
        if b == a {
            // everything after the leading spaces is whitespace
            lemma_trim_end_at(t, 0);
        } else {
            lemma_trim_end_at(t, b - a);
        }
        assert(t.subrange(0, b - a) =~= s@.subrange(a as int, b as int));
    }
    String::from_str(s.substring_char(a, b))
}

/// `s` with every comma-space pair collapsed to a bare comma, scanning left
/// to right, as `str::replace(", ", ",")` yields it.
pub open spec fn replace_cs(s: Seq<char>) -> Seq<char>
    decreases s.len(),
{
    if s.len() >= 2 && s[0] == ',' && s[1] == ' ' {
        seq![','] + replace_cs(s.subrange(2, s.len() as int))
    } else if s.len() >= 1 {
        seq![s[0]] + replace_cs(s.drop_first())
    } else {
        Seq::empty()
    }
}

/// Collapse every `", "` to `","`.
pub fn replace_comma_space(s: &str) -> (r: String)
    ensures
        r@ == replace_cs(s@),
{
    let n = s.unicode_len();
    let mut out = String::new();
    let mut i: usize = 0;
    proof {
        assert(s@.subrange(0, n as int) =~= s@);
        assert(out@ + replace_cs(s@) =~= replace_cs(s@));
    }
    while i < n
        invariant
            n == s@.len(),
            0 <= i <= n,
            replace_cs(s@) == out@ + replace_cs(s@.subrange(i as int, n as int)),
        decreases n - i,
    {
        let ghost rest = s@.subrange(i as int, n as int);
        if s.get_char(i) == ',' && i + 1 < n && s.get_char(i + 1) == ' ' {
            out.append(",");
            proof {
                reveal_strlit(",");
                assert(rest.subrange(2, rest.len() as int) =~= s@.subrange(i + 2, n as int));
                assert(replace_cs(rest) == seq![','] + replace_cs(s@.subrange(i + 2, n as int)));
                assert(out@ + replace_cs(s@.subrange(i + 2, n as int)) =~= replace_cs(s@));
            }
            i += 2;
        } else {
            out.append(s.substring_char(i, i + 1));
            proof {
                if rest.len() >= 2 && rest[0] == ',' && rest[1] == ' ' {
                    assert(false);
                }
                assert(rest.drop_first() =~= s@.subrange(i + 1, n as int));
                assert(replace_cs(rest) == seq![s@[i as int]] + replace_cs(
                    s@.subrange(i + 1, n as int),
                ));
                assert(s@.subrange(i as int, i + 1) =~= seq![s@[i as int]]);
                assert(out@ + replace_cs(s@.subrange(i + 1, n as int)) =~= replace_cs(s@));
            }
            i += 1;
        }
    }
    proof {
        assert(s@.subrange(n as int, n as int) =~= Seq::<char>::empty());
        assert(out@ + Seq::<char>::empty() =~= out@);
    }
    out
}

/// The parts joined with single copies of `sep`.
pub open spec fn join_sep(parts: Seq<Seq<char>>, sep: char) -> Seq<char>
    decreases parts.len(),
{
    if parts.len() == 0 {
        Seq::empty()
    } else if parts.len() == 1 {
        parts[0]
    } else {
        join_sep(parts.drop_last(), sep) + seq![sep] + parts.last()
    }
}

/// The parts joined with single commas.
pub open spec fn join_commas(parts: Seq<Seq<char>>) -> Seq<char> {
    join_sep(parts, ',')
}

/// Join strings with single commas.
pub fn join_with_commas(parts: &Vec<String>) -> (r: String)
    ensures
        r@ == join_commas(parts.deep_view()),
{
    let ghost gp = parts.deep_view();
    let mut out = String::new();
    let mut i: usize = 0;
    while i < parts.len()
        invariant
            gp == parts.deep_view(),
            0 <= i <= parts.len(),
            out@ == join_commas(gp.take(i as int)),
        decreases parts.len() - i,
    {
        proof {
            reveal_strlit(",");
            assert(gp.take(i + 1).drop_last() =~= gp.take(i as int));
            assert(gp.take(i + 1).last() == gp[i as int]);
        }
        if i > 0 {
            out.append(",");
        }
        out.append(parts[i].as_str());
        proof {
            if i == 0 {
                assert(gp.take(1).len() == 1);
                assert(out@ =~= join_commas(gp.take(i + 1)));
            } else {
                assert(out@ =~= join_commas(gp.take(i + 1)));
            }
        }
        i += 1;
    }
    proof {
        assert(gp.take(parts.len() as int) =~= gp);
    }
    out
}

/// The normal form of a comma-separated trigger-word list: trimmed,
/// case-folded, `", "` collapsed to `","`, empty entries dropped, and the
/// remaining entries joined with single commas.
pub open spec fn normalize_spec(s: Seq<char>) -> Seq<char> {
    join_commas(
        split_chars(replace_cs(lower_of(trim_spec(s))), ',').filter(|w: Seq<char>| w.len() > 0),
    )
}

/// Normalize input string with trigger words
///
/// Example:
///     normalize_words(String::from("test,, lol,")) // -> test,lol
///
/// Parameters:
///  - s: input string
///
/// Return: normalized string
pub fn normalize_words(s: String) -> (r: String)
    ensures
        r@ == normalize_spec(s@),
{
    let trimmed = trim_str(s.as_str());
    let lowered = to_lower(trimmed.as_str());
    let replaced = replace_comma_space(lowered.as_str());
    let parts = split_str(replaced.as_str(), ',');
    let ghost gp = parts.deep_view();
    let ghost pred = |w: Seq<char>| w.len() > 0;
    let mut kept: Vec<String> = Vec::new();
    let mut i: usize = 0;
    while i < parts.len()
        invariant
            gp == parts.deep_view(),
            0 <= i <= parts.len(),
            kept.deep_view() == gp.take(i as int).filter(pred),
            pred == (|w: Seq<char>| w.len() > 0),
        decreases parts.len() - i,
    {
        proof {
            reveal(Seq::filter);
            assert(gp.take(i + 1).drop_last() =~= gp.take(i as int));
            assert(gp.take(i + 1).last() == gp[i as int]);
        }
        if !parts[i].as_str().is_empty() {
            kept.push(parts[i].clone());
            proof {
                assert(kept.deep_view() =~= gp.take(i + 1).filter(pred));
            }
        } else {
            proof {
                assert(kept.deep_view() =~= gp.take(i + 1).filter(pred));
            }
        }
        i += 1;
    }
    proof {
        assert(gp.take(parts.len() as int) =~= gp);
    }
    join_with_commas(&kept)
}

// ---------------------------------------------------------------------------
// Universal string chars length
// ---------------------------------------------------------------------------
/// Universal string chars length
pub trait StringLn: View<V = Seq<char>> {
    fn count(&self) -> (n: usize)
        ensures
            n == self@.len(),
    ;
}

impl StringLn for str {
    fn count(&self) -> (n: usize) {
        self.unicode_len()
    }
}

impl StringLn for String {
    fn count(&self) -> (n: usize) {
        self.as_str().unicode_len()
    }
}

} // verus!
