use vstd::prelude::*;

use crate::geometry::{Pos, Region};
use crate::markers::{generate, lemma_strip_rows, row_of, shifted, strip_markers, Marker, Markers};
use crate::text::{
    chars_of, count_newlines, lemma_newlines_bound, lemma_newlines_concat, lemma_newlines_none, newlines, string_of,
};
use crate::width::{char_width, cw, width_between};

verus! {

/// The index of the first newline at or after `i`, or the length of `t`.
pub open spec fn next_nl(t: Seq<char>, i: int) -> int
    decreases t.len() - i,
{
    if i >= t.len() {
        t.len() as int
    } else if t[i] == '\n' {
        i
    } else {
        next_nl(t, i + 1)
    }
}

/// The index at which row `row` starts; the length of `t` for a row past
/// the last.
pub open spec fn line_start(t: Seq<char>, row: nat) -> int
    decreases row,
{
    if row == 0 {
        0
    } else {
        let e = next_nl(t, line_start(t, (row - 1) as nat));
        if e < t.len() {
            e + 1
        } else {
            t.len() as int
        }
    }
}

/// Within the line that starts at `s` and ends at `e`, the index just after
/// the first character at or after `i` that brings the width from `s` to at
/// least `x`; `e` when the line is too narrow.
pub open spec fn column_index(t: Seq<char>, s: int, i: int, e: int, x: nat) -> int
    decreases e - i,
{
    if i >= e {
        e
    } else if width_between(t, s, i + 1) >= x {
        i + 1
    } else {
        column_index(t, s, i + 1, e, x)
    }
}

/// The index in `t` that the position (`x`, `y`) addresses: the start of
/// row `y`, then characters until their width reaches `x`.
pub open spec fn offset_of(t: Seq<char>, x: nat, y: nat) -> int {
    let s = line_start(t, y);
    if x == 0 {
        s
    } else {
        column_index(t, s, s, next_nl(t, s), x)
    }
}

/// The position of index `i`: the row is the number of newlines before it,
/// the column the width from the start of that row.
pub open spec fn position_of(t: Seq<char>, i: int) -> (nat, nat) {
    let row = newlines(t.subrange(0, i));
    (width_between(t, line_start(t, row), i), row)
}

/// The end of the span that starts at `i` and stays within `budget` columns
/// without passing a newline.
pub open spec fn span_end(t: Seq<char>, i: int, budget: nat) -> int
    decreases t.len() - i,
{
    if i >= t.len() || t[i] == '\n' || cw(t[i]) > budget {
        i
    } else {
        span_end(t, i + 1, (budget - cw(t[i])) as nat)
    }
}

/// `t` without the span of width `w` that starts at (`x`, `y`).
pub open spec fn cut_span(t: Seq<char>, x: nat, y: nat, w: nat) -> Seq<char> {
    let b = offset_of(t, x, y);
    t.subrange(0, b) + t.subrange(span_end(t, b, w), t.len() as int)
}

/// `t` with the span of width `w` at column `x` removed from each of the `n`
/// rows from row `y` on, one row after the other.
pub open spec fn cut_rows(t: Seq<char>, x: nat, y: nat, n: nat, w: nat) -> Seq<char>
    decreases n,
{
    if n == 0 {
        t
    } else {
        cut_rows(cut_span(t, x, y, w), x, y + 1, (n - 1) as nat, w)
    }
}

/// The first index from `i` at which `n` occurs within `t[..e]`.
pub open spec fn first_match(t: Seq<char>, i: int, e: int, n: Seq<char>) -> Option<int>
    decreases e - i + 1,
{
    if i + n.len() > e {
        None
    } else if t.subrange(i, i + n.len()) =~= n {
        Some(i)
    } else {
        first_match(t, i + 1, e, n)
    }
}

/// The index of the `count`-th occurrence of `n` within `t[i..e]`;
/// occurrences may overlap, and a count of zero means the first.
pub open spec fn nth_match(t: Seq<char>, i: int, e: int, n: Seq<char>, count: nat) -> Option<int>
    decreases count,
{
    match first_match(t, i, e, n) {
        None => None,
        Some(j) => if count <= 1 {
            Some(j)
        } else {
            nth_match(t, j + 1, e, n, (count - 1) as nat)
        },
    }
}

/// A width as a `usize`, the largest one standing for any that does not fit.
pub open spec fn clamp(n: nat) -> usize {
    if n <= usize::MAX {
        n as usize
    } else {
        usize::MAX
    }
}

/// The column at which `find` places the `count`-th occurrence of `n` on
/// row `y`, searching from column `x`.
pub open spec fn find_column(t: Seq<char>, x: nat, y: nat, n: Seq<char>, count: nat) -> Option<usize> {
    let s = line_start(t, y);
    match nth_match(t, offset_of(t, x, y), next_nl(t, s), n, count) {
        None => None,
        Some(j) => Some(clamp(width_between(t, s, j))),
    }
}

/// Every marker row after `k` lines were inserted at row `at`.
pub open spec fn shift_all(ms: Seq<(Seq<char>, usize)>, at: usize, k: usize) -> Seq<(Seq<char>, usize)> {
    ms.map_values(|m: (Seq<char>, usize)| (m.0, shifted(m.1, at, k)))
}

/// The index of the first newline of `t` at or after `i`, or its length.
pub fn next_newline(t: &Vec<char>, i: usize) -> (r: usize)
    requires
        i <= t@.len(),
    ensures
        r == next_nl(t@, i as int),
        i <= r <= t@.len(),
{
    let mut j = i;
    while j < t.len() && t[j] != '\n'
        invariant
            i <= j <= t@.len(),
            next_nl(t@, j as int) == next_nl(t@, i as int),
        decreases t@.len() - j,
    {
        j = j + 1;
    }
    j
}

/// Every marker of `ms`, moved down by `row` rows, names one of the first
/// `n + 1` rows.
pub open spec fn rows_fit(ms: Seq<(Seq<char>, usize)>, row: usize, n: nat) -> bool {
    forall|i: int| 0 <= i < ms.len() ==> #[trigger] shifted(ms[i].1, 0, row) <= n
}

/// The number of rows of `region` that have an index.
pub open spec fn rows_within(region: Region) -> usize {
    if region.size.height <= usize::MAX - region.from.y {
        region.size.height
    } else {
        (usize::MAX - region.from.y) as usize
    }
}

/// The text of a document and its markers.
#[derive(Debug)]
pub struct Document {
    markers: Markers,
    text: Vec<char>,
}

impl Document {
    /// A document holding `text` without its marker lines, and a marker for
    /// each of them.
    pub fn new(text: &str) -> (r: Document)
        ensures
            r.chars() == strip_markers(text@, 0, 0).0,
            r.marks() == strip_markers(text@, 0, 0).1,
            r.rows_valid(),
    {
        let chars = chars_of(text);
        let n = chars.len();
        proof {
            lemma_strip_rows(chars@, 0, 0);
        }
        let (text, markers) = generate(&chars);
        Document { markers, text }
    }

    /// The characters of the document.
    pub closed spec fn chars(&self) -> Seq<char> {
        self.text@
    }

    /// The document's markers, in the order they were registered.
    pub closed spec fn marks(&self) -> Seq<(Seq<char>, usize)> {
        self.markers@
    }

    /// Every marker is bound to a row of the text.
    pub open spec fn rows_valid(&self) -> bool {
        forall|i: int| 0 <= i < self.marks().len() ==> #[trigger] self.marks()[i].1 <= newlines(self.chars())
    }

    /// The index of the first newline at or after `i`, or the text's length.
    fn line_end(&self, i: usize) -> (r: usize)
        requires
            i <= self.chars().len(),
        ensures
            r == next_nl(self.chars(), i as int),
            i <= r <= self.chars().len(),
    {
        next_newline(&self.text, i)
    }

    /// The index of the character that `pos` addresses.
    pub fn char_offset(&self, pos: Pos) -> (r: usize)
        ensures
            r == offset_of(self.chars(), pos.x as nat, pos.y as nat),
            r <= self.chars().len(),
    {
        let len = self.text.len();
        let mut s: usize = 0;
        let mut row: usize = 0;
        while row < pos.y && s < len
            invariant
                len == self.text.len(),
                row <= pos.y,
                s <= len,
                s == line_start(self.text@, row as nat),
            decreases len - s,
        {
            let e = self.line_end(s);
            s = if e < len {
                e + 1
            } else {
                len
            };
            row = row + 1;
        }
        proof {
            lemma_line_start_past_end(self.text@, row as nat, pos.y as nat);
        }
        let e = self.line_end(s);
        if pos.x == 0 {
            return s;
        }
        let mut i = s;
        let mut acc: usize = 0;
        while i < e
            invariant
                s <= i <= e <= len,
                len == self.text.len(),
                acc == width_between(self.text@, s as int, i as int),
                acc < pos.x,
                s == line_start(self.text@, pos.y as nat),
                e == next_nl(self.text@, s as int),
                column_index(self.text@, s as int, s as int, e as int, pos.x as nat)
                    == column_index(self.text@, s as int, i as int, e as int, pos.x as nat),
            decreases e - i,
        {
            let w = char_width(self.text[i]);
            assert(width_between(self.text@, s as int, i + 1) == acc + cw(self.text@[i as int]));
            if w >= pos.x - acc {
                return i + 1;
            }
            acc = acc + w;
            i = i + 1;
        }
        e
    }

    /// The end of the span of width at most `w` that starts at index `i`.
    fn span_end(&self, i: usize, w: usize) -> (r: usize)
        requires
            i <= self.chars().len(),
        ensures
            r == span_end(self.chars(), i as int, w as nat),
            i <= r <= self.chars().len(),
    {
        let mut j = i;
        let mut budget = w;
        while j < self.text.len()
            invariant
                i <= j <= self.text.len(),
                span_end(self.text@, j as int, budget as nat) == span_end(self.text@, i as int, w as nat),
            decreases self.text.len() - j,
        {
            let c = self.text[j];
            if c == '\n' {
                return j;
            }
            let cwidth = char_width(c);
            if cwidth > budget {
                return j;
            }
            budget = budget - cwidth;
            j = j + 1;
        }
        j
    }

    /// The indices of the span of width at most `width` that starts at `pos`
    /// and stops before the end of its row.
    pub fn char_span(&self, pos: Pos, width: usize) -> (r: (usize, usize))
        ensures
            r.0 == offset_of(self.chars(), pos.x as nat, pos.y as nat),
            r.1 == span_end(self.chars(), r.0 as int, width as nat),
            r.0 <= r.1 <= self.chars().len(),
    {
        let start = self.char_offset(pos);
        (start, self.span_end(start, width))
    }

    /// `t[..at] + ins + t[end..]`.
    fn spliced(t: &Vec<char>, at: usize, ins: &Vec<char>, end: usize) -> (r: Vec<char>)
        requires
            at <= end <= t@.len(),
        ensures
            r@ == t@.subrange(0, at as int) + ins@ + t@.subrange(end as int, t@.len() as int),
    {
        let mut r: Vec<char> = Vec::new();
        let mut i: usize = 0;
        while i < at
            invariant
                i <= at <= end <= t@.len(),
                r@ == t@.subrange(0, i as int),
            decreases at - i,
        {
            r.push(t[i]);
            i = i + 1;
            assert(r@ =~= t@.subrange(0, i as int));
        }
        let mut k: usize = 0;
        while k < ins.len()
            invariant
                k <= ins@.len(),
                r@ == t@.subrange(0, at as int) + ins@.subrange(0, k as int),
            decreases ins@.len() - k,
        {
            r.push(ins[k]);
            k = k + 1;
            assert(r@ =~= t@.subrange(0, at as int) + ins@.subrange(0, k as int));
        }
        let mut j = end;
        assert(ins@.subrange(0, k as int) =~= ins@);
        while j < t.len()
            invariant
                end <= j <= t@.len(),
                r@ == t@.subrange(0, at as int) + ins@ + t@.subrange(end as int, j as int),
            decreases t@.len() - j,
        {
            r.push(t[j]);
            j = j + 1;
            assert(r@ =~= t@.subrange(0, at as int) + ins@ + t@.subrange(end as int, j as int));
        }
        r
    }

    /// Inserts `s` at `pos`; every marker at or below row `pos.y` moves down
    /// by the number of newlines in `s`.
    pub fn insert_str(&mut self, pos: Pos, s: &str)
        ensures
            final(self).chars() == old(self).chars().subrange(
                0,
                offset_of(old(self).chars(), pos.x as nat, pos.y as nat),
            ) + s@ + old(self).chars().subrange(
                offset_of(old(self).chars(), pos.x as nat, pos.y as nat),
                old(self).chars().len() as int,
            ),
            final(self).marks() == shift_all(old(self).marks(), pos.y, newlines(s@) as usize),
            old(self).rows_valid() ==> final(self).rows_valid(),
            old(self).rows_valid() ==> forall|i: int|
                0 <= i < old(self).marks().len() ==> #[trigger] final(self).marks()[i] == (
                    old(self).marks()[i].0,
                    if old(self).marks()[i].1 >= pos.y {
                        (old(self).marks()[i].1 + newlines(s@)) as usize
                    } else {
                        old(self).marks()[i].1
                    },
                ),
    {
        let index = self.char_offset(pos);
        let ins = chars_of(s);
        let ghost t = self.text@;
        self.text = Self::spliced(&self.text, index, &ins, index);
        let new_len = self.text.len();
        proof {
            let a = t.subrange(0, index as int);
            let b = t.subrange(index as int, t.len() as int);
            assert(t =~= a + b);
            lemma_newlines_concat(a, b);
            lemma_newlines_concat(a, s@);
            lemma_newlines_concat(a + s@, b);
            assert(self.text@ =~= a + s@ + b);
            lemma_newlines_bound(self.text@);
        }
        let k = count_newlines(&ins);
        if k > 0 {
            self.markers.offset_after(pos.y, k);
        }
        assert(self.markers@ =~= shift_all(old(self).marks(), pos.y, newlines(s@) as usize));
        assert(newlines(self.text@) == newlines(t) + newlines(s@));
    }

    /// Removes, on each row of `region`, the span of at most
    /// `region.size.width` columns that starts at column `region.from.x`.
    pub fn delete(&mut self, region: Region)
        ensures
            final(self).chars() == cut_rows(
                old(self).chars(),
                region.from.x as nat,
                region.from.y as nat,
                rows_within(region) as nat,
                region.size.width as nat,
            ),
            final(self).marks() == old(self).marks(),
            newlines(final(self).chars()) == newlines(old(self).chars()),
            old(self).rows_valid() ==> final(self).rows_valid(),
    {
        proof {
            lemma_cut_rows_newlines(
                self.text@,
                region.from.x as nat,
                region.from.y as nat,
                rows_within(region) as nat,
                region.size.width as nat,
            );
        }
        let n = if region.size.height <= usize::MAX - region.from.y {
            region.size.height
        } else {
            usize::MAX - region.from.y
        };
        let x = region.from.x;
        let w = region.size.width;
        let mut k: usize = 0;
        while k < n
            invariant
                k <= n,
                n == rows_within(region),
                n + region.from.y <= usize::MAX,
                x == region.from.x,
                w == region.size.width,
                self.marks() == old(self).marks(),
                cut_rows(old(self).chars(), x as nat, region.from.y as nat, n as nat, w as nat)
                    == cut_rows(self.chars(), x as nat, (region.from.y + k) as nat, (n - k) as nat, w as nat),
            decreases n - k,
        {
            let y = region.from.y + k;
            let (start, end) = self.char_span(Pos::new(x, y), w);
            let empty: Vec<char> = Vec::new();
            let ghost before = self.chars();
            self.text = Self::spliced(&self.text, start, &empty, end);
            assert(self.text@ =~= cut_span(before, x as nat, y as nat, w as nat));
            k = k + 1;
        }
    }

    /// Whether `n` occurs at index `i`.
    fn matches_at(&self, i: usize, n: &Vec<char>) -> (r: bool)
        requires
            i + n@.len() <= self.chars().len(),
        ensures
            r == (self.chars().subrange(i as int, i + n@.len()) =~= n@),
    {
        let len = self.text.len();
        let mut k: usize = 0;
        while k < n.len()
            invariant
                k <= n@.len(),
                len == self.text@.len(),
                i + n@.len() <= len,
                forall|m: int| 0 <= m < k ==> self.text@[i + m] == n@[m],
            decreases n@.len() - k,
        {
            if self.text[i + k] != n[k] {
                assert(self.text@.subrange(i as int, i + n@.len())[k as int] != n@[k as int]);
                return false;
            }
            k = k + 1;
        }
        true
    }

    /// The first index from `i` at which `n` occurs before `e`.
    fn first_match(&self, i: usize, e: usize, n: &Vec<char>) -> (r: Option<usize>)
        requires
            i <= e <= self.chars().len(),
        ensures
            r matches Some(j) ==> first_match(self.chars(), i as int, e as int, n@) == Some(j as int),
            r is None ==> first_match(self.chars(), i as int, e as int, n@) is None,
            r matches Some(j) ==> i <= j <= e,
    {
        let mut j = i;
        while n.len() <= e - j
            invariant
                i <= j <= e <= self.text@.len(),
                first_match(self.text@, i as int, e as int, n@) == first_match(self.text@, j as int, e as int, n@),
            decreases e - j,
        {
            if self.matches_at(j, n) {
                return Some(j);
            }
            if j == e {
                assert(n@.len() == 0);
                assert(self.text@.subrange(j as int, j as int) =~= n@);
            }
            j = j + 1;
        }
        None
    }

    /// The width of `t[s..j]`, the largest `usize` if it does not fit.
    fn width_to(&self, s: usize, j: usize) -> (r: usize)
        requires
            s <= j <= self.chars().len(),
        ensures
            r == clamp(width_between(self.chars(), s as int, j as int)),
    {
        let mut k = s;
        let mut acc: usize = 0;
        while k < j
            invariant
                s <= k <= j <= self.text@.len(),
                acc == clamp(width_between(self.text@, s as int, k as int)),
            decreases j - k,
        {
            let w = char_width(self.text[k]);
            assert(width_between(self.text@, s as int, k + 1) == width_between(self.text@, s as int, k as int) + cw(self.text@[k as int]));
            acc = acc.saturating_add(w);
            k = k + 1;
        }
        acc
    }

    /// The column of the `count`-th occurrence of `needle` on the cursor's
    /// row, searching from the cursor's column; `None` if there is none
    /// before the end of the row.
    pub fn find(&self, cursor: Pos, needle: &str, count: usize) -> (r: Option<usize>)
        ensures
            r == find_column(self.chars(), cursor.x as nat, cursor.y as nat, needle@, count as nat),
    {
        let s = self.char_offset(Pos::new(0, cursor.y));
        let e = self.line_end(s);
        let b = self.char_offset(cursor);
        proof {
            lemma_offset_in_line(self.text@, cursor.x as nat, cursor.y as nat);
        }
        let n = chars_of(needle);
        let mut i = b;
        let mut c = count;
        loop
            invariant
                s == line_start(self.text@, cursor.y as nat),
                e == next_nl(self.text@, s as int),
                s <= i <= e <= self.text@.len(),
                n@ == needle@,
                nth_match(self.text@, b as int, e as int, n@, count as nat)
                    == nth_match(self.text@, i as int, e as int, n@, c as nat),
                find_column(self.text@, cursor.x as nat, cursor.y as nat, needle@, count as nat)
                    == (match nth_match(self.text@, b as int, e as int, n@, count as nat) {
                        None => None,
                        Some(j) => Some(clamp(width_between(self.text@, s as int, j))),
                    }),
            decreases c,
        {
            match self.first_match(i, e, &n) {
                None => {
                    return None;
                },
                Some(j) => {
                    if c <= 1 {
                        return Some(self.width_to(s, j));
                    }
                    if j == e {
                        assert(first_match(self.text@, e + 1, e as int, n@) is None);
                        assert(nth_match(self.text@, e + 1, e as int, n@, (c - 1) as nat) is None);
                        assert(nth_match(self.text@, i as int, e as int, n@, c as nat)
                            == nth_match(self.text@, e + 1, e as int, n@, (c - 1) as nat));
                        return None;
                    }
                    i = j + 1;
                    c = c - 1;
                },
            }
        }
    }

    /// The text of the document.
    pub fn text(&self) -> (r: String)
        ensures
            r@ == self.chars(),
    {
        string_of(&self.text)
    }

    /// The marker registered last under `key`.
    pub fn lookup_marker(&self, key: &str) -> (r: Option<&Marker>)
        ensures
            r matches Some(m) ==> m.name@ == key@ && row_of(self.marks(), key@) == Some(m.row),
            r is None <==> row_of(self.marks(), key@) is None,
    {
        self.markers.get(key)
    }

    /// Registers `markers`, moved down by `row` rows.
    pub fn add_markers(&mut self, row: usize, markers: Markers)
        ensures
            final(self).chars() == old(self).chars(),
            final(self).marks().len() == old(self).marks().len() + markers@.len(),
            final(self).marks().subrange(0, old(self).marks().len() as int) == old(self).marks(),
            forall|i: int|
                0 <= i < markers@.len() ==> #[trigger] final(self).marks()[old(self).marks().len() + i] == (
                markers@[i].0,
                shifted(markers@[i].1, 0, row),
            ),
            old(self).rows_valid() && rows_fit(markers@, row, newlines(old(self).chars()))
                ==> final(self).rows_valid(),
    {
        let ghost m = markers@;
        self.markers.merge(row, markers);
        proof {
            if old(self).rows_valid() && rows_fit(m, row, newlines(old(self).chars())) {
                assert forall|i: int| 0 <= i < self.marks().len() implies #[trigger] self.marks()[i].1 <= newlines(
                    self.chars(),
                ) by {
                    if i < old(self).marks().len() {
                        assert(self.marks()[i] == self.marks().subrange(0, old(self).marks().len() as int)[i]);
                    } else {
                        let j = i - old(self).marks().len();
                        assert(self.marks()[old(self).marks().len() + j] == (m[j].0, shifted(m[j].1, 0, row)));
                    }
                }
            }
        }
    }

    /// Empties the text and drops every marker.
    pub fn clear(&mut self)
        ensures
            final(self).chars() == Seq::<char>::empty(),
            final(self).marks() == Seq::<(Seq<char>, usize)>::empty(),
            final(self).rows_valid(),
    {
        self.markers.clear();
        self.text.clear();
        assert(self.text@ =~= Seq::<char>::empty());
    }
}

pub proof fn lemma_next_nl_facts(t: Seq<char>, i: int)
    requires
        0 <= i <= t.len(),
    ensures
        i <= next_nl(t, i) <= t.len(),
        next_nl(t, i) < t.len() ==> t[next_nl(t, i)] == '\n',
{
    lemma_next_nl_bounds(t, i);
}

proof fn lemma_next_nl_bounds(t: Seq<char>, i: int)
    requires
        0 <= i <= t.len(),
    ensures
        i <= next_nl(t, i) <= t.len(),
        next_nl(t, i) < t.len() ==> t[next_nl(t, i)] == '\n',
        forall|k: int| i <= k < next_nl(t, i) ==> t[k] != '\n',
    decreases t.len() - i,
{
    if i < t.len() && t[i] != '\n' {
        lemma_next_nl_bounds(t, i + 1);
    }
}

proof fn lemma_line_start_bounds(t: Seq<char>, row: nat)
    ensures
        0 <= line_start(t, row) <= t.len(),
    decreases row,
{
    if row > 0 {
        lemma_line_start_bounds(t, (row - 1) as nat);
        lemma_next_nl_bounds(t, line_start(t, (row - 1) as nat));
    }
}

/// Once a row starts at the end of the text, every later row does too.
proof fn lemma_line_start_past_end(t: Seq<char>, row: nat, later: nat)
    requires
        row <= later,
        row < later ==> line_start(t, row) == t.len(),
    ensures
        row < later ==> line_start(t, later) == t.len(),
    decreases later - row,
{
    if row < later {
        lemma_line_start_past_end(t, row, (later - 1) as nat);
        if row < later - 1 {
            assert(line_start(t, (later - 1) as nat) == t.len());
        }
    }
}

} // verus!

verus! {

proof fn lemma_offset_in_line(t: Seq<char>, x: nat, y: nat)
    ensures
        line_start(t, y) <= offset_of(t, x, y) <= next_nl(t, line_start(t, y)) <= t.len(),
{
    lemma_line_start_bounds(t, y);
    let s = line_start(t, y);
    lemma_next_nl_bounds(t, s);
    if x > 0 {
        lemma_column_index_bounds(t, s, s, next_nl(t, s), x);
    }
}

proof fn lemma_column_index_bounds(t: Seq<char>, s: int, i: int, e: int, x: nat)
    requires
        i <= e,
    ensures
        i <= column_index(t, s, i, e, x) <= e,
    decreases e - i,
{
    if i < e && width_between(t, s, i + 1) < x {
        lemma_column_index_bounds(t, s, i + 1, e, x);
    }
}

/// A match found by `first_match` lies within `t[i..e]`.
proof fn lemma_first_match_fits(t: Seq<char>, i: int, e: int, n: Seq<char>)
    ensures
        first_match(t, i, e, n) matches Some(j) ==> i <= j && j + n.len() <= e && t.subrange(j, j + n.len()) == n,
    decreases e - i + 1,
{
    if i + n.len() <= e && !(t.subrange(i, i + n.len()) =~= n) {
        lemma_first_match_fits(t, i + 1, e, n);
    }
}

} // verus!

verus! {

proof fn lemma_newlines_step(t: Seq<char>, j: int)
    requires
        0 < j <= t.len(),
    ensures
        newlines(t.subrange(0, j)) == newlines(t.subrange(0, j - 1)) + if t[j - 1] == '\n' {
            1nat
        } else {
            0nat
        },
{
    assert(t.subrange(0, j).drop_last() =~= t.subrange(0, j - 1));
}

proof fn lemma_newlines_unchanged(t: Seq<char>, i: int, j: int)
    requires
        0 <= i <= j <= t.len(),
        forall|k: int| i <= k < j ==> t[k] != '\n',
    ensures
        newlines(t.subrange(0, j)) == newlines(t.subrange(0, i)),
    decreases j - i,
{
    if i < j {
        lemma_newlines_step(t, j);
        lemma_newlines_unchanged(t, i, j - 1);
    }
}

proof fn lemma_newlines_before_row(t: Seq<char>, y: nat)
    requires
        y <= newlines(t),
    ensures
        newlines(t.subrange(0, line_start(t, y))) == y,
        line_start(t, y) <= t.len(),
    decreases y,
{
    if y == 0 {
        assert(t.subrange(0, 0) =~= Seq::<char>::empty());
    } else {
        let p = line_start(t, (y - 1) as nat);
        lemma_newlines_before_row(t, (y - 1) as nat);
        lemma_line_start_bounds(t, (y - 1) as nat);
        let e = next_nl(t, p);
        lemma_next_nl_bounds(t, p);
        lemma_newlines_unchanged(t, p, e);
        if e == t.len() {
            assert(t.subrange(0, t.len() as int) =~= t);
            assert(false);
        }
        lemma_newlines_step(t, e + 1);
    }
}

proof fn lemma_width_monotone(t: Seq<char>, s: int, a: int, b: int)
    requires
        a <= b,
    ensures
        width_between(t, s, a) <= width_between(t, s, b),
    decreases b - a,
{
    if a < b {
        lemma_width_monotone(t, s, a, b - 1);
    }
}

proof fn lemma_column_exact(t: Seq<char>, s: int, i: int, e: int, x: nat, k: int)
    requires
        s <= i <= k <= e,
        width_between(t, s, i) < x,
        width_between(t, s, k) == x,
    ensures
        width_between(t, s, column_index(t, s, i, e, x)) == x,
    decreases e - i,
{
    if width_between(t, s, i + 1) >= x {
        lemma_width_monotone(t, s, i + 1, k);
    } else {
        lemma_column_exact(t, s, i + 1, e, x, k);
    }
}

/// For a row of the document and a column at which one of its characters
/// begins, the index that the position addresses gives back the same row
/// and the same display column.
pub proof fn lemma_offset_round_trip(t: Seq<char>, x: nat, y: nat)
    requires
        y <= newlines(t),
        exists|k: int|
            line_start(t, y) <= k <= next_nl(t, line_start(t, y)) && #[trigger] width_between(
                t,
                line_start(t, y),
                k,
            ) == x,
    ensures
        position_of(t, offset_of(t, x, y)) == (x, y),
{
    let s = line_start(t, y);
    let e = next_nl(t, s);
    let off = offset_of(t, x, y);
    lemma_newlines_before_row(t, y);
    lemma_line_start_bounds(t, y);
    lemma_next_nl_bounds(t, s);
    lemma_offset_in_line(t, x, y);
    lemma_newlines_unchanged(t, s, off);
    if x > 0 {
        let k = choose|k: int| s <= k <= e && #[trigger] width_between(t, s, k) == x;
        lemma_column_exact(t, s, s, e, x, k);
    }
}

/// Inserting text with `k` newlines at row `at` moves every marker at or
/// below row `at` down by exactly `k` rows, and leaves the markers above it
/// where they were.
pub proof fn lemma_insert_shifts_markers(ms: Seq<(Seq<char>, usize)>, at: usize, k: usize, name: Seq<char>)
    requires
        forall|i: int| 0 <= i < ms.len() && ms[i].1 >= at ==> ms[i].1 + k <= usize::MAX,
    ensures
        row_of(shift_all(ms, at, k), name) == match row_of(ms, name) {
            None => None,
            Some(r) => Some(
                if r >= at {
                    (r + k) as usize
                } else {
                    r
                },
            ),
        },
    decreases ms.len(),
{
    if ms.len() > 0 {
        assert(shift_all(ms, at, k).drop_last() =~= shift_all(ms.drop_last(), at, k));
        assert(ms.last() == ms[ms.len() - 1]);
        lemma_insert_shifts_markers(ms.drop_last(), at, k, name);
    }
}

proof fn lemma_nth_match_fits(t: Seq<char>, i: int, e: int, n: Seq<char>, count: nat)
    ensures
        nth_match(t, i, e, n, count) matches Some(j) ==> i <= j && j + n.len() <= e,
    decreases count,
{
    lemma_first_match_fits(t, i, e, n);
    if let Some(j) = first_match(t, i, e, n) {
        if count > 1 {
            lemma_nth_match_fits(t, j + 1, e, n, (count - 1) as nat);
        }
    }
}

proof fn lemma_first_match_none(t: Seq<char>, i: int, e: int, n: Seq<char>, s: int)
    requires
        s <= i,
        forall|m: int| s <= m && m + n.len() <= e ==> #[trigger] t.subrange(m, m + n.len()) != n,
    ensures
        first_match(t, i, e, n) is None,
    decreases e - i + 1,
{
    if i + n.len() <= e {
        assert(t.subrange(i, i + n.len()) != n);
        lemma_first_match_none(t, i + 1, e, n, s);
    }
}

/// Where `column_index` stops short of the row's end, the width up to it
/// has reached `x`.
proof fn lemma_column_reaches(t: Seq<char>, s: int, i: int, e: int, x: nat)
    ensures
        column_index(t, s, i, e, x) == e || width_between(t, s, column_index(t, s, i, e, x)) >= x,
    decreases e - i,
{
    if i < e && width_between(t, s, i + 1) < x {
        lemma_column_reaches(t, s, i + 1, e, x);
    }
}

/// A search stays on the cursor's row: a match that `find` reports lies
/// between the start and the end of the row, so it holds no newline; on a
/// row that does not contain the needle it reports none; and a needle that
/// is not empty is reported at or after the cursor's column.
pub proof fn lemma_find_within_row(t: Seq<char>, x: nat, y: nat, n: Seq<char>, count: nat)
    ensures
        nth_match(t, offset_of(t, x, y), next_nl(t, line_start(t, y)), n, count) matches Some(j) ==> {
            &&& line_start(t, y) <= j
            &&& j + n.len() <= next_nl(t, line_start(t, y))
            &&& forall|k: int| j <= k < j + n.len() ==> t[k] != '\n'
        },
        (forall|m: int|
            line_start(t, y) <= m && m + n.len() <= next_nl(t, line_start(t, y)) ==> #[trigger] t.subrange(m, m + n.len())
                != n) ==> find_column(t, x, y, n, count) is None,
        n.len() > 0 && x <= usize::MAX ==> (find_column(t, x, y, n, count) matches Some(col) ==> col >= x),
{
    let s = line_start(t, y);
    let e = next_nl(t, s);
    let b = offset_of(t, x, y);
    lemma_line_start_bounds(t, y);
    lemma_offset_in_line(t, x, y);
    lemma_next_nl_bounds(t, s);
    lemma_nth_match_fits(t, b, e, n, count);
    if n.len() > 0 && x > 0 {
        if let Some(j) = nth_match(t, b, e, n, count) {
            lemma_column_reaches(t, s, s, e, x);
            assert(b < e);
            assert(width_between(t, s, b) >= x);
            lemma_width_monotone(t, s, b, j);
        }
    }
    if forall|m: int| s <= m && m + n.len() <= e ==> #[trigger] t.subrange(m, m + n.len()) != n {
        lemma_first_match_none(t, b, e, n, s);
    }
}

} // verus!

verus! {

/// The characters of row `r`, without its newline.
pub open spec fn line(t: Seq<char>, r: nat) -> Seq<char> {
    t.subrange(line_start(t, r), next_nl(t, line_start(t, r)))
}

/// The row `l` without the span of at most `w` columns that starts at
/// column `x`.
pub open spec fn cut_line(l: Seq<char>, x: nat, w: nat) -> Seq<char> {
    let b = offset_of(l, x, 0);
    l.subrange(0, b) + l.subrange(span_end(l, b, w), l.len() as int)
}

proof fn lemma_next_nl_skip(t: Seq<char>, i: int, j: int)
    requires
        0 <= i <= j <= t.len(),
        forall|k: int| i <= k < j ==> t[k] != '\n',
    ensures
        next_nl(t, i) == next_nl(t, j),
    decreases j - i,
{
    if i < j {
        lemma_next_nl_skip(t, i + 1, j);
    }
}

proof fn lemma_next_nl_prefix(t: Seq<char>, u: Seq<char>, p: int, b: int)
    requires
        0 <= p,
        next_nl(t, p) < b,
        b <= t.len(),
        b <= u.len(),
        forall|k: int| 0 <= k < b ==> u[k] == t[k],
    ensures
        next_nl(u, p) == next_nl(t, p),
    decreases t.len() - p,
{
    if p < t.len() {
        lemma_next_nl_bounds(t, p);
        assert(u[p] == t[p]);
        if t[p] != '\n' {
            lemma_next_nl_prefix(t, u, p + 1, b);
        }
    }
}

proof fn lemma_next_nl_shift(t: Seq<char>, u: Seq<char>, p: int, c: int, d: int)
    requires
        0 <= d <= c <= p,
        u.len() == t.len() - d,
        forall|k: int| c <= k < t.len() ==> u[k - d] == t[k],
    ensures
        next_nl(u, p - d) == next_nl(t, p) - d,
    decreases t.len() - p,
{
    if p < t.len() && t[p] != '\n' {
        lemma_next_nl_shift(t, u, p + 1, c, d);
    }
}

proof fn lemma_span_end_bounds(t: Seq<char>, i: int, w: nat)
    requires
        0 <= i <= t.len(),
    ensures
        i <= span_end(t, i, w) <= next_nl(t, i),
    decreases t.len() - i,
{
    lemma_next_nl_bounds(t, i);
    if !(i >= t.len() || t[i] == '\n' || cw(t[i]) > w) {
        lemma_span_end_bounds(t, i + 1, (w - cw(t[i])) as nat);
    }
}

proof fn lemma_width_rel(t: Seq<char>, s: int, e: int, k: int)
    requires
        0 <= s <= k <= e <= t.len(),
    ensures
        width_between(t, s, k) == width_between(t.subrange(s, e), 0, k - s),
    decreases k - s,
{
    if k > s {
        lemma_width_rel(t, s, e, k - 1);
    }
}

proof fn lemma_column_rel(t: Seq<char>, s: int, e: int, i: int, x: nat)
    requires
        0 <= s <= i <= e <= t.len(),
    ensures
        column_index(t, s, i, e, x) - s == column_index(t.subrange(s, e), 0, i - s, e - s, x),
    decreases e - i,
{
    if i < e {
        lemma_width_rel(t, s, e, i + 1);
        lemma_column_rel(t, s, e, i + 1, x);
    }
}

proof fn lemma_span_rel(t: Seq<char>, s: int, i: int, w: nat)
    requires
        0 <= s <= i <= next_nl(t, s),
        s <= t.len(),
    ensures
        span_end(t, i, w) - s == span_end(t.subrange(s, next_nl(t, s)), i - s, w),
    decreases next_nl(t, s) - i,
{
    let e = next_nl(t, s);
    lemma_next_nl_bounds(t, s);
    let l = t.subrange(s, e);
    if i < e {
        assert(l[i - s] == t[i]);
        if !(cw(t[i]) > w) {
            lemma_span_rel(t, s, i + 1, (w - cw(t[i])) as nat);
        }
    }
}

/// Within a single row, the offset of column `x` is found as in the whole
/// text, relative to the row's start.
proof fn lemma_offset_rel(t: Seq<char>, y: nat, x: nat)
    ensures
        offset_of(t, x, y) - line_start(t, y) == offset_of(line(t, y), x, 0),
{
    let s = line_start(t, y);
    lemma_line_start_bounds(t, y);
    lemma_next_nl_bounds(t, s);
    let e = next_nl(t, s);
    let l = line(t, y);
    assert forall|k: int| 0 <= k < l.len() implies l[k] != '\n' by {
        assert(l[k] == t[s + k]);
    }
    lemma_next_nl_skip(l, 0, l.len() as int);
    if x > 0 {
        lemma_column_rel(t, s, e, s, x);
    }
}

proof fn lemma_line_start_monotone(t: Seq<char>, a: nat, b: nat)
    requires
        a <= b,
    ensures
        line_start(t, a) <= line_start(t, b),
    decreases b - a,
{
    if a < b {
        lemma_line_start_monotone(t, a, (b - 1) as nat);
        lemma_line_start_bounds(t, (b - 1) as nat);
        lemma_next_nl_bounds(t, line_start(t, (b - 1) as nat));
    }
}

proof fn lemma_line_start_prefix(t: Seq<char>, u: Seq<char>, k: nat, b: int)
    requires
        b < t.len(),
        b <= u.len(),
        forall|j: int| 0 <= j < b ==> u[j] == t[j],
        line_start(t, k) <= b,
    ensures
        line_start(u, k) == line_start(t, k),
    decreases k,
{
    if k > 0 {
        let p = line_start(t, (k - 1) as nat);
        lemma_line_start_monotone(t, (k - 1) as nat, k);
        lemma_line_start_bounds(t, (k - 1) as nat);
        lemma_next_nl_bounds(t, p);
        lemma_line_start_prefix(t, u, (k - 1) as nat, b);
        lemma_next_nl_prefix(t, u, p, b);
    }
}

} // verus!

verus! {

proof fn lemma_rows_after(t: Seq<char>, u: Seq<char>, s: int, e: int, c: int, d: int, y: nat, k: nat)
    requires
        y < k,
        s == line_start(t, y),
        e == next_nl(t, s),
        line_start(u, y) == s,
        next_nl(u, s) == e - d,
        0 <= d <= c <= e <= t.len(),
        u.len() == t.len() - d,
        forall|j: int| c <= j < t.len() ==> u[j - d] == t[j],
    ensures
        line_start(u, k) == line_start(t, k) - d,
        line_start(t, k) >= c,
    decreases k,
{
    if k > y + 1 {
        let km = (k - 1) as nat;
        lemma_rows_after(t, u, s, e, c, d, y, km);
        let p = line_start(t, km);
        lemma_line_start_bounds(t, km);
        lemma_next_nl_bounds(t, p);
        lemma_next_nl_shift(t, u, p, c, d);
    }
}

proof fn lemma_cut_span_lines(t: Seq<char>, x: nat, y: nat, w: nat, k: nat)
    ensures
        line(cut_span(t, x, y, w), k) == if k == y {
            cut_line(line(t, y), x, w)
        } else {
            line(t, k)
        },
{
    let s = line_start(t, y);
    lemma_line_start_bounds(t, y);
    lemma_next_nl_bounds(t, s);
    let e = next_nl(t, s);
    let b = offset_of(t, x, y);
    lemma_offset_in_line(t, x, y);
    lemma_span_end_bounds(t, b, w);
    lemma_next_nl_skip(t, s, b);
    let c = span_end(t, b, w);
    let u = cut_span(t, x, y, w);
    let d = c - b;
    lemma_offset_rel(t, y, x);
    lemma_span_rel(t, s, b, w);
    let l = line(t, y);
    if b == c {
        assert(u =~= t);
        assert(cut_line(l, x, w) =~= l);
    } else {
        assert(forall|j: int| 0 <= j < b ==> u[j] == t[j]);
        assert(forall|j: int| c <= j < t.len() ==> u[j - d] == t[j]);
        lemma_line_start_prefix(t, u, y, b);
        assert forall|j: int| s <= j < b implies u[j] != '\n' by {
            assert(u[j] == t[j]);
        }
        lemma_next_nl_skip(u, s, b);
        lemma_next_nl_shift(t, u, c, c, d);
        lemma_next_nl_skip(t, s, c);
        if k < y {
            lemma_line_start_monotone(t, k, y);
            lemma_line_start_monotone(t, k + 1, y);
            lemma_line_start_prefix(t, u, k, b);
            let p = line_start(t, k);
            lemma_line_start_bounds(t, k);
            lemma_next_nl_bounds(t, p);
            lemma_next_nl_prefix(t, u, p, b);
            assert(line(u, k) =~= line(t, k));
        } else if k == y {
            assert(line(u, k) =~= cut_line(l, x, w));
        } else {
            lemma_rows_after(t, u, s, e, c, d, y, k);
            let p = line_start(t, k);
            lemma_line_start_bounds(t, k);
            lemma_next_nl_bounds(t, p);
            lemma_next_nl_shift(t, u, p, c, d);
            assert(line(u, k) =~= line(t, k));
        }
    }
}

/// Deleting a region row by row cuts, from each row of the region, exactly
/// the span of at most `w` columns that starts at column `x` of that row,
/// and leaves every other row as it was.
pub proof fn lemma_delete_rows(t: Seq<char>, x: nat, y: nat, n: nat, w: nat, k: nat)
    ensures
        line(cut_rows(t, x, y, n, w), k) == if y <= k < y + n {
            cut_line(line(t, k), x, w)
        } else {
            line(t, k)
        },
    decreases n,
{
    if n > 0 {
        let t1 = cut_span(t, x, y, w);
        lemma_delete_rows(t1, x, y + 1, (n - 1) as nat, w, k);
        lemma_cut_span_lines(t, x, y, w, k);
    }
}


proof fn lemma_cut_span_newlines(t: Seq<char>, x: nat, y: nat, w: nat)
    ensures
        newlines(cut_span(t, x, y, w)) == newlines(t),
{
    lemma_line_start_bounds(t, y);
    lemma_offset_in_line(t, x, y);
    let b = offset_of(t, x, y);
    lemma_span_end_bounds(t, b, w);
    lemma_next_nl_bounds(t, b);
    let c = span_end(t, b, w);
    let p = t.subrange(0, b);
    let m = t.subrange(b, c);
    let q = t.subrange(c, t.len() as int);
    assert(t =~= p + m + q);
    assert forall|k: int| 0 <= k < m.len() implies m[k] != '\n' by {
        assert(m[k] == t[b + k]);
    }
    lemma_newlines_none(m);
    lemma_newlines_concat(p, m);
    lemma_newlines_concat(p + m, q);
    lemma_newlines_concat(p, q);
    assert(cut_span(t, x, y, w) =~= p + q);
}

proof fn lemma_cut_rows_newlines(t: Seq<char>, x: nat, y: nat, n: nat, w: nat)
    ensures
        newlines(cut_rows(t, x, y, n, w)) == newlines(t),
    decreases n,
{
    if n > 0 {
        lemma_cut_span_newlines(t, x, y, w);
        lemma_cut_rows_newlines(cut_span(t, x, y, w), x, y + 1, (n - 1) as nat, w);
    }
}

} // verus!
