use vstd::prelude::*;

use crate::document::{next_newline, next_nl};
use crate::text::{copy_range, lemma_newlines_concat, newlines, string_of};

verus! {

/// A named anchor bound to a row of the document.
#[derive(Debug)]
pub struct Marker {
    pub name: String,
    pub row: usize,
}

/// The markers of a document, in the order they were registered. A later
/// registration of a name hides the earlier ones.
#[derive(Debug)]
pub struct Markers {
    entries: Vec<Marker>,
}

/// The row bound to `name`: that of its last registration.
pub open spec fn row_of(ms: Seq<(Seq<char>, usize)>, name: Seq<char>) -> Option<usize>
    decreases ms.len(),
{
    if ms.len() == 0 {
        None
    } else if ms.last().0 == name {
        Some(ms.last().1)
    } else {
        row_of(ms.drop_last(), name)
    }
}

/// A row after `k` lines were inserted at row `at`.
pub open spec fn shifted(row: usize, at: usize, k: usize) -> usize {
    if row >= at {
        if row + k <= usize::MAX {
            (row + k) as usize
        } else {
            usize::MAX
        }
    } else {
        row
    }
}

impl View for Markers {
    type V = Seq<(Seq<char>, usize)>;

    closed spec fn view(&self) -> Seq<(Seq<char>, usize)> {
        self.entries@.map_values(|m: Marker| (m.name@, m.row))
    }
}

impl Markers {
    pub fn new() -> (r: Markers)
        ensures
            r@ == Seq::<(Seq<char>, usize)>::empty(),
    {
        Markers { entries: Vec::new() }
    }

    pub fn len(&self) -> (r: usize)
        ensures
            r == self@.len(),
    {
        self.entries.len()
    }

    /// Registers `name` at `row`.
    pub fn push(&mut self, name: String, row: usize)
        ensures
            final(self)@ == old(self)@.push((name@, row)),
    {
        self.entries.push(Marker { name, row });
        assert(final(self)@ =~= old(self)@.push((name@, row)));
    }

    /// The marker registered last under `key`.
    pub fn get(&self, key: &str) -> (r: Option<&Marker>)
        ensures
            r matches Some(m) ==> m.name@ == key@ && row_of(self@, key@) == Some(m.row),
            r is None <==> row_of(self@, key@) is None,
    {
        let owned = key.to_owned();
        let mut i: usize = self.entries.len();
        assert(self@.subrange(0, i as int) =~= self@);
        while i > 0
            invariant
                i <= self.entries.len(),
                owned@ == key@,
                row_of(self@, key@) == row_of(self@.subrange(0, i as int), key@),
            decreases i,
        {
            let m = &self.entries[i - 1];
            proof {
                assert(self@.subrange(0, i as int).drop_last() =~= self@.subrange(0, i - 1));
            }
            assert(self@[i - 1] == (m.name@, m.row));
            assert(self@.subrange(0, i as int).last() == self@[i - 1]);
            if m.name == owned {
                return Some(m);
            }
            i = i - 1;
        }
        None
    }

    /// Registers each of `other`'s markers, moved down by `row` rows.
    pub fn merge(&mut self, row: usize, other: Markers)
        ensures
            final(self)@.len() == old(self)@.len() + other@.len(),
            final(self)@.subrange(0, old(self)@.len() as int) == old(self)@,
            forall|i: int|
                0 <= i < other@.len() ==> #[trigger] final(self)@[old(self)@.len() + i] == (
                other@[i].0,
                shifted(other@[i].1, 0, row),
            ),
    {
        let ghost start = self@;
        let mut i: usize = 0;
        while i < other.entries.len()
            invariant
                i <= other@.len(),
                self@.len() == start.len() + i,
                self@.subrange(0, start.len() as int) == start,
                forall|j: int|
                    0 <= j < i ==> #[trigger] self@[start.len() + j] == (
                    other@[j].0,
                    shifted(other@[j].1, 0, row),
                ),
            decreases other@.len() - i,
        {
            let m = &other.entries[i];
            let r = m.row.saturating_add(row);
            let ghost before = self@;
            self.push(m.name.clone(), r);
            assert(self@.subrange(0, start.len() as int) =~= before.subrange(0, start.len() as int));
            i = i + 1;
        }
    }

    /// Moves every marker at or below row `at` down by `k` rows.
    pub fn offset_after(&mut self, at: usize, k: usize)
        ensures
            final(self)@.len() == old(self)@.len(),
            forall|i: int|
                0 <= i < old(self)@.len() ==> #[trigger] final(self)@[i] == (
                old(self)@[i].0,
                shifted(old(self)@[i].1, at, k),
            ),
    {
        let ghost start = self@;
        let mut i: usize = 0;
        while i < self.entries.len()
            invariant
                i <= self@.len(),
                self@.len() == start.len(),
                forall|j: int|
                    0 <= j < i ==> #[trigger] self@[j] == (start[j].0, shifted(start[j].1, at, k)),
                forall|j: int| i <= j < start.len() ==> #[trigger] self@[j] == start[j],
            decreases start.len() - i,
        {
            let row = self.entries[i].row;
            assert(self@[i as int] == start[i as int]);
            let ghost before = self@;
            if row >= at {
                let name = self.entries[i].name.clone();
                self.entries.set(i, Marker { name, row: row.saturating_add(k) });
            }
            assert(self@[i as int] == (start[i as int].0, shifted(start[i as int].1, at, k)));
            assert forall|j: int| 0 <= j <= i implies #[trigger] self@[j] == (
                start[j].0,
                shifted(start[j].1, at, k),
            ) by {
                if j < i {
                    assert(before[j] == (start[j].0, shifted(start[j].1, at, k)));
                }
            }
            assert forall|j: int| i < j < start.len() implies #[trigger] self@[j] == start[j] by {
                assert(before[j] == start[j]);
            }
            i = i + 1;
        }
    }

    pub fn clear(&mut self)
        ensures
            final(self)@ == Seq::<(Seq<char>, usize)>::empty(),
    {
        self.entries.clear();
        assert(final(self)@ =~= Seq::<(Seq<char>, usize)>::empty());
    }
}

/// The name that a marker line carries: a line `// @name` names `name`.
pub open spec fn marker_name(line: Seq<char>) -> Option<Seq<char>> {
    if line.len() >= 4 && line.subrange(0, 4) == seq!['/', '/', ' ', '@'] {
        Some(line.subrange(4, line.len() as int))
    } else {
        None
    }
}

/// The text from index `i` on without its marker lines, and for each marker
/// line its name and the row (counted from `row`) of the line that follows it.
pub open spec fn strip_markers(t: Seq<char>, i: int, row: nat) -> (Seq<char>, Seq<(Seq<char>, usize)>)
    decreases t.len() - i,
{
    if i < 0 || i >= t.len() {
        (Seq::empty(), Seq::empty())
    } else {
        let e = next_nl(t, i);
        let next = if i <= e < t.len() {
            e + 1
        } else {
            t.len() as int
        };
        match marker_name(t.subrange(i, e)) {
            Some(name) => {
                let rest = strip_markers(t, next, row);
                (rest.0, seq![(name, row as usize)] + rest.1)
            },
            None => {
                let rest = strip_markers(t, next, row + 1);
                (t.subrange(i, next) + rest.0, rest.1)
            },
        }
    }
}

/// Splits `t` into its text without marker lines and the markers those
/// lines name.
pub fn generate(t: &Vec<char>) -> (r: (Vec<char>, Markers))
    ensures
        r.0@ == strip_markers(t@, 0, 0).0,
        r.1@ == strip_markers(t@, 0, 0).1,
{
    let len = t.len();
    let mut out: Vec<char> = Vec::new();
    let mut ms = Markers::new();
    let mut i: usize = 0;
    let mut row: usize = 0;
    while i < len
        invariant
            len == t@.len(),
            i <= len,
            row <= i,
            strip_markers(t@, 0, 0).0 == out@ + strip_markers(t@, i as int, row as nat).0,
            strip_markers(t@, 0, 0).1 == ms@ + strip_markers(t@, i as int, row as nat).1,
        decreases len - i,
    {
        let e = next_newline(t, i);
        let next = if e < len {
            e + 1
        } else {
            len
        };
        let ghost line = t@.subrange(i as int, e as int);
        let is_marker = e - i >= 4 && t[i] == '/' && t[i + 1] == '/' && t[i + 2] == ' ' && t[i + 3] == '@';
        proof {
            if e - i >= 4 {
                assert(is_marker == (line.subrange(0, 4) =~= seq!['/', '/', ' ', '@']));
            }
        }
        if is_marker {
            let name = string_of(&copy_range(t, i + 4, e));
            assert(name@ =~= line.subrange(4, line.len() as int));
            let ghost before = ms@;
            ms.push(name, row);
            assert(ms@ + strip_markers(t@, next as int, row as nat).1 =~= before + strip_markers(t@, i as int, row as nat).1);
        } else {
            let part = copy_range(t, i, next);
            let ghost before = out@;
            let mut k: usize = 0;
            while k < part.len()
                invariant
                    k <= part@.len(),
                    out@ == before + part@.subrange(0, k as int),
                decreases part@.len() - k,
            {
                out.push(part[k]);
                k = k + 1;
                assert(out@ =~= before + part@.subrange(0, k as int));
            }
            assert(part@.subrange(0, k as int) =~= part@);
            assert(out@ + strip_markers(t@, next as int, (row + 1) as nat).0 =~= before + strip_markers(t@, i as int, row as nat).0);
            row = row + 1;
        }
        i = next;
    }
    (out, ms)
}


/// The rows that marker lines name are rows of the text without them.
pub proof fn lemma_strip_rows(t: Seq<char>, i: int, row: nat)
    requires
        0 <= i <= t.len(),
        row + (t.len() - i) <= usize::MAX,
    ensures
        forall|k: int|
            0 <= k < strip_markers(t, i, row).1.len() ==> #[trigger] strip_markers(t, i, row).1[k].1 <= row
                + newlines(strip_markers(t, i, row).0),
    decreases t.len() - i,
{
    if i < t.len() {
        let e = next_nl(t, i);
        crate::document::lemma_next_nl_facts(t, i);
        let next = if i <= e < t.len() {
            e + 1
        } else {
            t.len() as int
        };
        match marker_name(t.subrange(i, e)) {
            Some(name) => {
                lemma_strip_rows(t, next, row);
                let rest = strip_markers(t, next, row);
                assert forall|k: int| 0 <= k < strip_markers(t, i, row).1.len() implies #[trigger] strip_markers(
                    t,
                    i,
                    row,
                ).1[k].1 <= row + newlines(strip_markers(t, i, row).0) by {
                    if k > 0 {
                        assert(strip_markers(t, i, row).1[k] == rest.1[k - 1]);
                    }
                }
            },
            None => {
                lemma_strip_rows(t, next, row + 1);
                let rest = strip_markers(t, next, row + 1);
                let seg = t.subrange(i, next);
                lemma_newlines_concat(seg, rest.0);
                if rest.1.len() > 0 {
                    assert(next < t.len());
                    assert(seg.drop_last().len() + 1 == seg.len());
                    assert(seg.last() == '\n');
                }
            },
        }
    }
}

} // verus!
