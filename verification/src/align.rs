//! Trailing alignment: series shown side by side are aligned by the distance
//! of each sample from the most recent one, never by its distance from the
//! oldest.

use crate::retention::retained;
use crate::values::Values;
use std::collections::VecDeque;
use vstd::prelude::*;

verus! {

/// The place, in a series of `len` samples, of the sample that stands in row
/// `row` of `height` rows whose last row holds the most recent sample of
/// every series. The leading rows of a series shorter than `height` hold
/// nothing.
pub open spec fn aligned_place(len: nat, height: nat, row: int) -> Option<int> {
    if 0 <= row < height && height - len <= row {
        Some(row - (height - len))
    } else {
        None
    }
}

/// The sample of `series` that stands in row `row` of `height` rows.
pub open spec fn aligned_cell<T>(series: Seq<T>, height: nat, row: int) -> Option<T> {
    match aligned_place(series.len(), height, row) {
        Some(place) => Some(series[place]),
        None => None,
    }
}

/// The last `count` samples of both series, pair by pair: as many pairs as
/// both series and `count` allow, the last pair made of the most recent
/// sample of each.
pub open spec fn paired_latest<T>(xs: Seq<T>, ys: Seq<T>, count: nat) -> Seq<(T, T)> {
    let both = if xs.len() <= ys.len() {
        xs.len()
    } else {
        ys.len()
    };
    let pairs = if both <= count {
        both
    } else {
        count
    };
    Seq::new(pairs, |i: int| (xs[xs.len() - pairs + i], ys[ys.len() - pairs + i]))
}

/// The keys among `keys` that the store holds, in the order of `keys`.
pub open spec fn selected<T>(store: Map<Seq<char>, Seq<T>>, keys: Seq<Seq<char>>) -> Seq<
    Seq<char>,
>
    decreases keys.len(),
{
    if keys.len() == 0 {
        Seq::empty()
    } else if store.contains_key(keys.last()) {
        selected(store, keys.drop_last()).push(keys.last())
    } else {
        selected(store, keys.drop_last())
    }
}

/// The length of the longest of the series under `columns`.
pub open spec fn tallest<T>(store: Map<Seq<char>, Seq<T>>, columns: Seq<Seq<char>>) -> nat
    decreases columns.len(),
{
    if columns.len() == 0 {
        0
    } else {
        let before = tallest(store, columns.drop_last());
        if before >= store[columns.last()].len() {
            before
        } else {
            store[columns.last()].len()
        }
    }
}

/// In a table of `height` rows, the row that lies `back` rows before the end
/// shows of every series the sample that lies `back` samples before its most
/// recent one, and nothing of a series that holds no such sample: the columns
/// are aligned at their latest sample, whatever their lengths.
pub proof fn law_rows_count_back_from_latest<T>(series: Seq<T>, height: nat, back: int)
    requires
        series.len() <= height,
        0 < back <= height,
    ensures
        aligned_cell(series, height, height - back) == if back <= series.len() {
            Some(series[series.len() - back])
        } else {
            None
        },
{
}

/// No series under `columns` is longer than the longest.
pub proof fn lemma_tallest<T>(store: Map<Seq<char>, Seq<T>>, columns: Seq<Seq<char>>, j: int)
    requires
        0 <= j < columns.len(),
    ensures
        store[columns[j]].len() <= tallest(store, columns),
    decreases columns.len(),
{
    if j < columns.len() - 1 {
        lemma_tallest(store, columns.drop_last(), j);
    }
}

/// The place of `aligned_place` for a series of `len` samples, computed.
pub fn place_in_row(len: usize, height: usize, row: usize) -> (place: Option<usize>)
    ensures
        match place {
            Some(index) => index < len && aligned_place(len as nat, height as nat, row as int)
                == Some(index as int),
            None => aligned_place(len as nat, height as nat, row as int) is None,
        },
{
    if row >= height {
        None
    } else if len >= height {
        Some(row + (len - height))
    } else if row >= height - len {
        Some(row - (height - len))
    } else {
        None
    }
}

/// Selected series laid out in rows, one column per series, aligned to the
/// most recent sample of each.
#[derive(Debug)]
pub struct Table<T> {
    /// The key of each column.
    pub header: Vec<String>,
    /// The rows, oldest first; a cell is empty where its series does not
    /// reach back that far.
    pub rows: Vec<Vec<Option<T>>>,
}

impl<T> Table<T> {
    /// The key of each column.
    pub open spec fn columns(&self) -> Seq<Seq<char>> {
        Seq::new(self.header@.len(), |j: int| self.header@[j]@)
    }

    /// Whether the table shows the series of `store` under `columns`: one
    /// row for each sample of the longest series, and in every row, for every
    /// column, the sample that trailing alignment puts there.
    pub open spec fn shows(&self, store: Map<Seq<char>, Seq<T>>, columns: Seq<Seq<char>>) -> bool {
        &&& self.columns() == columns
        &&& self.rows@.len() == tallest(store, columns)
        &&& forall|i: int|
            0 <= i < self.rows@.len() ==> (#[trigger] self.rows@[i])@.len() == columns.len()
        &&& forall|i: int, j: int|
            0 <= i < self.rows@.len() && 0 <= j < columns.len() ==> (#[trigger] self.rows@[i]@[j])
                == aligned_cell(store[columns[j]], self.rows@.len(), i)
    }
}

impl<T: Copy> Values<T> {
    /// The most recent `count` samples of `key`, oldest first; all of them
    /// where the series holds fewer.
    pub fn recent(&self, key: &str, count: usize) -> (latest: Option<Vec<T>>)
        ensures
            match latest {
                Some(samples) => self@.contains_key(key@) && samples@ == retained(
                    self@[key@],
                    count as nat,
                ),
                None => !self@.contains_key(key@),
            },
    {
        match self.values_for_key(key) {
            None => None,
            Some(series) => {
                let len = series.len();
                let start = if len > count {
                    len - count
                } else {
                    0
                };
                let mut samples: Vec<T> = Vec::new();
                let mut i: usize = start;
                while i < len
                    invariant
                        start <= i <= len,
                        len == series@.len(),
                        samples@ == series@.subrange(start as int, i as int),
                    decreases len - i,
                {
                    samples.push(series[i]);
                    i += 1;
                }
                assert(samples@ =~= retained(series@, count as nat));
                Some(samples)
            },
        }
    }

    /// The most recent samples of two series side by side, oldest pair
    /// first: at most `count` pairs, and no more than the shorter series has.
    pub fn paired(&self, x_key: &str, y_key: &str, count: usize) -> (pairs: Option<Vec<(T, T)>>)
        ensures
            match pairs {
                Some(points) => self@.contains_key(x_key@) && self@.contains_key(y_key@)
                    && points@ == paired_latest(self@[x_key@], self@[y_key@], count as nat),
                None => !self@.contains_key(x_key@) || !self@.contains_key(y_key@),
            },
    {
        let xs = match self.values_for_key(x_key) {
            Some(series) => series,
            None => {
                return None;
            },
        };
        let ys = match self.values_for_key(y_key) {
            Some(series) => series,
            None => {
                return None;
            },
        };
        let x_len = xs.len();
        let y_len = ys.len();
        let both = if x_len <= y_len {
            x_len
        } else {
            y_len
        };
        let total = if both <= count {
            both
        } else {
            count
        };
        let mut points: Vec<(T, T)> = Vec::new();
        let mut i: usize = 0;
        while i < total
            invariant
                i <= total,
                total <= x_len,
                total <= y_len,
                x_len == xs@.len(),
                y_len == ys@.len(),
                points@.len() == i,
                forall|j: int|
                    0 <= j < i ==> (#[trigger] points@[j]) == (
                        xs@[x_len - total + j],
                        ys@[y_len - total + j],
                    ),
            decreases total - i,
        {
            points.push((xs[x_len - total + i], ys[y_len - total + i]));
            i += 1;
        }
        assert(points@ =~= paired_latest(xs@, ys@, count as nat));
        Some(points)
    }

    /// The table of the series under `keys`, in that order; keys that the
    /// store does not hold get no column.
    pub fn table(&self, keys: &Vec<String>) -> (table: Table<T>)
        ensures
            table.shows(self@, selected(self@, Seq::new(keys@.len(), |i: int| keys@[i]@))),
    {
        let ghost wanted = Seq::new(keys@.len(), |i: int| keys@[i]@);
        let mut header: Vec<String> = Vec::new();
        let mut series: Vec<&VecDeque<T>> = Vec::new();
        let mut height: usize = 0;
        let ghost mut columns: Seq<Seq<char>> = Seq::empty();
        let mut k: usize = 0;
        proof {
            assert(wanted.subrange(0, 0) =~= Seq::<Seq<char>>::empty());
        }
        while k < keys.len()
            invariant
                k <= keys@.len(),
                wanted == Seq::new(keys@.len(), |i: int| keys@[i]@),
                columns == selected(self@, wanted.subrange(0, k as int)),
                header@.len() == columns.len(),
                series@.len() == columns.len(),
                forall|j: int| 0 <= j < columns.len() ==> (#[trigger] header@[j])@ == columns[j],
                forall|j: int|
                    0 <= j < columns.len() ==> self@.contains_key(#[trigger] columns[j])
                        && series@[j]@ == self@[columns[j]],
                height == tallest(self@, columns),
            decreases keys@.len() - k,
        {
            proof {
                assert(wanted.subrange(0, k as int + 1).drop_last() =~= wanted.subrange(
                    0,
                    k as int,
                ));
                assert(wanted.subrange(0, k as int + 1).last() == keys@[k as int]@);
            }
            match self.values_for_key(keys[k].as_str()) {
                Some(samples) => {
                    header.push(keys[k].clone());
                    series.push(samples);
                    if samples.len() > height {
                        height = samples.len();
                    }
                    proof {
                        let longer = columns.push(keys@[k as int]@);
                        assert(longer.drop_last() =~= columns);
                        columns = longer;
                    }
                },
                None => {},
            }
            k += 1;
        }
        proof {
            assert(wanted.subrange(0, k as int) =~= wanted);
        }
        let mut rows: Vec<Vec<Option<T>>> = Vec::new();
        let mut i: usize = 0;
        while i < height
            invariant
                i <= height,
                height == tallest(self@, columns),
                series@.len() == columns.len(),
                forall|j: int|
                    0 <= j < columns.len() ==> (#[trigger] series@[j])@ == self@[columns[j]],
                rows@.len() == i,
                forall|r: int| 0 <= r < i ==> (#[trigger] rows@[r])@.len() == columns.len(),
                forall|r: int, j: int|
                    0 <= r < i && 0 <= j < columns.len() ==> (#[trigger] rows@[r]@[j])
                        == aligned_cell(self@[columns[j]], height as nat, r),
            decreases height - i,
        {
            let mut row: Vec<Option<T>> = Vec::new();
            let mut j: usize = 0;
            while j < series.len()
                invariant
                    j <= series@.len(),
                    i < height,
                    height == tallest(self@, columns),
                    series@.len() == columns.len(),
                    forall|c: int|
                        0 <= c < columns.len() ==> (#[trigger] series@[c])@ == self@[columns[c]],
                    row@.len() == j,
                    forall|c: int|
                        0 <= c < j ==> (#[trigger] row@[c]) == aligned_cell(
                            self@[columns[c]],
                            height as nat,
                            i as int,
                        ),
                decreases series@.len() - j,
            {
                proof {
                    lemma_tallest(self@, columns, j as int);
                }
                let samples = series[j];
                let cell = match place_in_row(samples.len(), height, i) {
                    Some(place) => Some(samples[place]),
                    None => None,
                };
                row.push(cell);
                j += 1;
            }
            rows.push(row);
            i += 1;
        }
        let table = Table { header, rows };
        assert(table.columns() =~= columns);
        table
    }
}

} // verus!
