//! Candle records and the canonical, time-ordered dataset built from them.
use vstd::prelude::*;

verus! {

/// One exchange record as the library sees it: the open time, which orders and
/// identifies it, and a handle to the remaining fields, which travel along untouched.
#[derive(Clone, Copy, PartialEq, Eq, Structural, Debug)]
pub struct Candle {
    pub open_time: i64,
    pub row: usize,
}

/// Open times rise strictly along `s`, so no open time occurs twice.
pub open spec fn strictly_increasing(s: Seq<Candle>) -> bool {
    forall|i: int, j: int| 0 <= i < j < s.len() ==> s[i].open_time < s[j].open_time
}

/// `raw[i]` is the first record of `raw` that carries its open time.
pub open spec fn first_of_its_time(raw: Seq<Candle>, i: int) -> bool {
    &&& 0 <= i < raw.len()
    &&& forall|j: int| 0 <= j < i ==> raw[j].open_time != raw[i].open_time
}

/// `c` is the first record of its open time among the first `n` records of `raw`.
pub open spec fn kept_within(raw: Seq<Candle>, n: int, c: Candle) -> bool {
    exists|i: int| 0 <= i < n && first_of_its_time(raw, i) && raw[i] == c
}

/// `out` is the canonical form of `raw`: ascending by open time, holding exactly
/// the first record of each open time that occurs in `raw`.
pub open spec fn canonical_of(out: Seq<Candle>, raw: Seq<Candle>) -> bool {
    &&& strictly_increasing(out)
    &&& forall|c: Candle|
        #![trigger out.contains(c)]
        #![trigger kept_within(raw, raw.len() as int, c)]
        out.contains(c) <==> kept_within(raw, raw.len() as int, c)
}

/// The test "opened at or after `bound`".
pub open spec fn at_or_after(bound: int) -> spec_fn(Candle) -> bool {
    |c: Candle| c.open_time >= bound
}

/// The records of `raw` that opened at or after `bound`, in their order.
pub open spec fn newer_than(raw: Seq<Candle>, bound: int) -> Seq<Candle> {
    raw.filter(at_or_after(bound))
}

/// The records of `raw` that may extend `existing`: all of them when `existing` is
/// empty, else those that open one interval or more after its last record.
pub open spec fn fresh_part(existing: Seq<Candle>, raw: Seq<Candle>, interval_ms: int) -> Seq<Candle> {
    if existing.len() == 0 {
        raw
    } else {
        newer_than(raw, existing.last().open_time + interval_ms)
    }
}

/// `out` is `existing` followed by the canonical form of the records of `raw` that extend it.
pub open spec fn appended(
    out: Seq<Candle>,
    existing: Seq<Candle>,
    raw: Seq<Candle>,
    interval_ms: int,
) -> bool {
    &&& existing.len() <= out.len()
    &&& out.subrange(0, existing.len() as int) == existing
    &&& canonical_of(
        out.subrange(existing.len() as int, out.len() as int),
        fresh_part(existing, raw, interval_ms),
    )
}

/// The open-time column of a sequence of records.
pub open spec fn open_times_of(d: Seq<Candle>) -> Seq<i64> {
    d.map_values(|c: Candle| c.open_time)
}

/// The row-handle column of a sequence of records.
pub open spec fn rows_of(d: Seq<Candle>) -> Seq<usize> {
    d.map_values(|c: Candle| c.row)
}

/// The records whose open times and row handles stand side by side in two columns.
pub open spec fn zipped(open_times: Seq<i64>, rows: Seq<usize>) -> Seq<Candle> {
    Seq::new(open_times.len(), |i: int| (Candle { open_time: open_times[i], row: rows[i] }))
}

/// What two columns read back as: the records they hold, when the columns have one
/// length and the open times rise strictly; nothing otherwise.
pub open spec fn decoded(open_times: Seq<i64>, rows: Seq<usize>) -> Option<Seq<Candle>> {
    if open_times.len() == rows.len() && strictly_increasing(zipped(open_times, rows)) {
        Some(zipped(open_times, rows))
    } else {
        None
    }
}

/// Why two columns could not be read as a dataset.
#[derive(Clone, Copy, PartialEq, Eq, Structural, Debug)]
pub enum ColumnError {
    LengthMismatch,
    NotIncreasing,
}

/// A canonical form of no records is empty.
proof fn lemma_canonical_of_nothing(out: Seq<Candle>, raw: Seq<Candle>)
    requires
        canonical_of(out, raw),
        raw.len() == 0,
    ensures
        out.len() == 0,
{
    if out.len() > 0 {
        assert(out.contains(out[0]));
    }
}

/// Two sequences with strictly rising open times and the same records are equal.
proof fn lemma_same_records(a: Seq<Candle>, b: Seq<Candle>)
    requires
        strictly_increasing(a),
        strictly_increasing(b),
        forall|c: Candle| #![trigger a.contains(c)] #![trigger b.contains(c)] a.contains(c) <==> b.contains(c),
    ensures
        a == b,
    decreases a.len(),
{
    if a.len() == 0 {
        if b.len() > 0 {
            assert(b.contains(b[0]));
        }
        assert(a =~= b);
    } else {
        if b.len() == 0 {
            assert(a.contains(a[0]));
        }
        assert(a.contains(a[0]));
        let j = choose|j: int| 0 <= j < b.len() && b[j] == a[0];
        assert(b.contains(b[0]));
        let k = choose|k: int| 0 <= k < a.len() && a[k] == b[0];
        assert(a[0].open_time <= a[k].open_time);
        assert(j == 0);
        let a1 = a.subrange(1, a.len() as int);
        let b1 = b.subrange(1, b.len() as int);
        assert forall|c: Candle| #![trigger a1.contains(c)] #![trigger b1.contains(c)] a1.contains(c) <==> b1.contains(c) by {
            if a1.contains(c) {
                let q = choose|q: int| 0 <= q < a1.len() && a1[q] == c;
                assert(a[q + 1] == c);
                assert(a.contains(c));
                let p = choose|p: int| 0 <= p < b.len() && b[p] == c;
                assert(p != 0);
                assert(b1[p - 1] == c);
            }
            if b1.contains(c) {
                let q = choose|q: int| 0 <= q < b1.len() && b1[q] == c;
                assert(b[q + 1] == c);
                assert(b.contains(c));
                let p = choose|p: int| 0 <= p < a.len() && a[p] == c;
                assert(p != 0);
                assert(a1[p - 1] == c);
            }
        }
        lemma_same_records(a1, b1);
        assert forall|i: int| 0 <= i < a.len() implies a[i] == b[i] by {
            if i > 0 {
                assert(a[i] == a1[i - 1]);
                assert(b[i] == b1[i - 1]);
            }
        }
        assert(a =~= b);
    }
}

/// The canonical form of a sequence of records is unique: `build_fresh` has one
/// possible result for each input.
pub proof fn law_canonical_unique(a: Seq<Candle>, b: Seq<Candle>, raw: Seq<Candle>)
    requires
        canonical_of(a, raw),
        canonical_of(b, raw),
    ensures
        a == b,
{
    assert forall|c: Candle| #![trigger a.contains(c)] #![trigger b.contains(c)] a.contains(c) <==> b.contains(c) by {
        if a.contains(c) {
            assert(kept_within(raw, raw.len() as int, c));
        }
        if b.contains(c) {
            assert(kept_within(raw, raw.len() as int, c));
        }
    }
    lemma_same_records(a, b);
}

/// Appending no records to the canonical form of `x` gives that form back.
pub proof fn law_append_nothing_to_fresh(
    x: Seq<Candle>,
    fresh: Seq<Candle>,
    out: Seq<Candle>,
    interval_ms: int,
)
    requires
        canonical_of(fresh, x),
        appended(out, fresh, Seq::empty(), interval_ms),
    ensures
        out == fresh,
{
    let tail = out.subrange(fresh.len() as int, out.len() as int);
    let nothing = Seq::<Candle>::empty();
    if fresh.len() > 0 {
        assert(newer_than(nothing, fresh.last().open_time + interval_ms) =~= nothing) by {
            reveal(Seq::filter);
        }
    }
    lemma_canonical_of_nothing(tail, fresh_part(fresh, nothing, interval_ms));
    assert(out =~= fresh);
}

/// Appending records that all opened before a dataset's last record leaves it unchanged.
pub proof fn law_append_older(
    existing: Seq<Candle>,
    raw: Seq<Candle>,
    out: Seq<Candle>,
    interval_ms: int,
)
    requires
        existing.len() > 0,
        interval_ms > 0,
        forall|k: int| 0 <= k < raw.len() ==> #[trigger] raw[k].open_time < existing.last().open_time,
        appended(out, existing, raw, interval_ms),
    ensures
        out == existing,
{
    let bound = existing.last().open_time + interval_ms;
    let newer = newer_than(raw, bound);
    if newer.len() > 0 {
        raw.lemma_filter_pred(at_or_after(bound), 0);
        assert(newer.contains(newer[0]));
        raw.lemma_filter_contains_rev(at_or_after(bound), newer[0]);
    }
    let tail = out.subrange(existing.len() as int, out.len() as int);
    lemma_canonical_of_nothing(tail, newer);
    assert(out =~= existing);
}

/// Of two records with one open time, the canonical form keeps exactly one record
/// with that time.
pub proof fn law_dedup(raw: Seq<Candle>, out: Seq<Candle>, i: int, j: int)
    requires
        canonical_of(out, raw),
        0 <= i < raw.len(),
        0 <= j < raw.len(),
        i != j,
        raw[i].open_time == raw[j].open_time,
    ensures
        exists|k: int| 0 <= k < out.len() && out[k].open_time == raw[i].open_time,
        forall|k1: int, k2: int|
            0 <= k1 < out.len() && 0 <= k2 < out.len() && out[k1].open_time == raw[i].open_time
                && out[k2].open_time == raw[i].open_time ==> k1 == k2,
{
    lemma_first_occurrence(raw, i);
    let f = choose|f: int| 0 <= f <= i && first_of_its_time(raw, f) && raw[f].open_time == raw[i].open_time;
    assert(kept_within(raw, raw.len() as int, raw[f]));
    assert(out.contains(raw[f]));
    let k = choose|k: int| 0 <= k < out.len() && out[k] == raw[f];
    assert(out[k].open_time == raw[i].open_time);
}

/// Columns written from a dataset read back as the same records in the same order.
pub proof fn law_columns_round_trip(d: Seq<Candle>)
    requires
        strictly_increasing(d),
    ensures
        decoded(open_times_of(d), rows_of(d)) == Some(d),
{
    assert(zipped(open_times_of(d), rows_of(d)) =~= d);
}

/// Some record with the open time of `raw[j]` is the first of that time, at or before `j`.
proof fn lemma_first_occurrence(raw: Seq<Candle>, j: int)
    requires
        0 <= j < raw.len(),
    ensures
        exists|k: int| 0 <= k <= j && first_of_its_time(raw, k) && raw[k].open_time == raw[j].open_time,
    decreases j,
{
    if !first_of_its_time(raw, j) {
        let k = choose|k: int| 0 <= k < j && raw[k].open_time == raw[j].open_time;
        lemma_first_occurrence(raw, k);
    }
}

/// A sequence of records whose open times rise strictly, the shape every dataset keeps.
pub struct Dataset {
    candles: Vec<Candle>,
}

impl View for Dataset {
    type V = Seq<Candle>;

    closed spec fn view(&self) -> Seq<Candle> {
        self.candles@
    }
}

impl Dataset {
    #[verifier::type_invariant]
    spec fn ordered(self) -> bool {
        strictly_increasing(self.candles@)
    }

    /// The dataset with no records.
    pub fn new() -> (r: Dataset)
        ensures
            r@ == Seq::<Candle>::empty(),
    {
        Dataset { candles: Vec::new() }
    }

    /// Number of records.
    pub fn len(&self) -> (r: usize)
        ensures
            r == self@.len(),
    {
        self.candles.len()
    }

    /// Whether the dataset holds no record.
    pub fn is_empty(&self) -> (r: bool)
        ensures
            r == (self@.len() == 0),
    {
        self.candles.len() == 0
    }

    /// The records, in ascending order of open time.
    pub fn candles(&self) -> (r: &Vec<Candle>)
        ensures
            r@ == self@,
            strictly_increasing(r@),
    {
        proof {
            use_type_invariant(self);
        }
        &self.candles
    }

    /// Open time of the newest record, if there is one.
    pub fn last_open_time(&self) -> (r: Option<i64>)
        ensures
            self@.len() == 0 ==> r is None,
            self@.len() > 0 ==> r == Some(self@.last().open_time),
    {
        let n = self.candles.len();
        if n == 0 {
            None
        } else {
            Some(self.candles[n - 1].open_time)
        }
    }

    /// Extends the dataset with the records of `raw` that open at least one
    /// interval after its last record, sorted and without repeated open times.
    /// When none qualifies the dataset comes back unchanged; an empty dataset
    /// takes the canonical form of all of `raw`.
    pub fn append_to(self, raw: &Vec<Candle>, interval_ms: i64) -> (r: Dataset)
        requires
            interval_ms > 0,
        ensures
            appended(r@, self@, raw@, interval_ms as int),
            strictly_increasing(r@),
            fresh_part(self@, raw@, interval_ms as int).len() == 0 ==> r@ == self@,
    {
        proof {
            use_type_invariant(&self);
        }
        let n_old = self.candles.len();
        if n_old == 0 {
            let r = Dataset::build_fresh(raw);
            proof {
                use_type_invariant(&r);
                assert(r@.subrange(0, 0) =~= self@);
                assert(r@.subrange(0, r@.len() as int) =~= r@);
                if raw@.len() == 0 {
                    lemma_canonical_of_nothing(r@, raw@);
                    assert(r@ =~= self@);
                }
            }
            return r;
        }
        let last = self.candles[n_old - 1].open_time;
        let resume: i128 = last as i128 + interval_ms as i128;
        let ghost bound = resume as int;
        let mut newer: Vec<Candle> = Vec::new();
        let mut i: usize = 0;
        while i < raw.len()
            invariant
                i <= raw@.len(),
                resume == last + interval_ms,
                newer@ == newer_than(raw@.subrange(0, i as int), bound),
                bound == resume as int,
            decreases raw@.len() - i,
        {
            proof {
                assert(raw@.subrange(0, i + 1) =~= raw@.subrange(0, i as int).push(raw@[i as int]));
                raw@.subrange(0, i as int).lemma_filter_push(raw@[i as int], at_or_after(bound));
            }
            if raw[i].open_time as i128 >= resume {
                newer.push(raw[i]);
            }
            i = i + 1;
        }
        proof {
            assert(raw@.subrange(0, raw@.len() as int) =~= raw@);
        }
        let fresh = Dataset::build_fresh(&newer);
        proof {
            use_type_invariant(&fresh);
            assert(fresh_part(self@, raw@, interval_ms as int) == newer@);
        }
        if fresh.candles.len() == 0 {
            proof {
                assert(self@.subrange(0, n_old as int) =~= self@);
                assert(self@.subrange(n_old as int, n_old as int) =~= fresh@);
            }
            return self;
        }
        proof {
            if newer@.len() == 0 {
                lemma_canonical_of_nothing(fresh@, newer@);
            }
        }
        let ghost head = self@;
        let ghost tail = fresh@;
        proof {
            assert forall|q: int| 0 <= q < tail.len() implies #[trigger] tail[q].open_time > last by {
                assert(tail.contains(tail[q]));
                assert(kept_within(newer@, newer@.len() as int, tail[q]));
                let k = choose|k: int| 0 <= k < newer@.len() && first_of_its_time(newer@, k) && newer@[k] == tail[q];
                raw@.lemma_filter_pred(at_or_after(bound), k);
            }
        }
        let mut out = self.candles;
        let mut rest = fresh.candles;
        out.append(&mut rest);
        proof {
            assert(out@ == head + tail);
            assert forall|a: int, b: int| 0 <= a < b < out@.len() implies out@[a].open_time < out@[b].open_time by {
                if a < n_old && b >= n_old {
                    assert(head[a].open_time <= last);
                    assert(out@[b] == tail[b - n_old]);
                } else if a >= n_old {
                    assert(out@[a] == tail[a - n_old]);
                    assert(out@[b] == tail[b - n_old]);
                }
            }
            assert(out@.subrange(0, n_old as int) =~= head);
            assert(out@.subrange(n_old as int, out@.len() as int) =~= tail);
        }
        Dataset { candles: out }
    }

    /// The persisted column form: the open times and the row handles, in order.
    pub fn to_columns(&self) -> (r: (Vec<i64>, Vec<usize>))
        ensures
            r.0@ == open_times_of(self@),
            r.1@ == rows_of(self@),
    {
        let mut times: Vec<i64> = Vec::new();
        let mut rows: Vec<usize> = Vec::new();
        let n = self.candles.len();
        let mut i: usize = 0;
        while i < n
            invariant
                n == self@.len(),
                i <= n,
                times@ == open_times_of(self@.subrange(0, i as int)),
                rows@ == rows_of(self@.subrange(0, i as int)),
            decreases n - i,
        {
            let c = self.candles[i];
            times.push(c.open_time);
            rows.push(c.row);
            proof {
                assert(open_times_of(self@.subrange(0, i + 1)) =~= open_times_of(self@.subrange(0, i as int)).push(c.open_time));
                assert(rows_of(self@.subrange(0, i + 1)) =~= rows_of(self@.subrange(0, i as int)).push(c.row));
            }
            i = i + 1;
        }
        proof {
            assert(self@.subrange(0, n as int) =~= self@);
        }
        (times, rows)
    }

    /// Reads two columns back as a dataset. Fails with `LengthMismatch` when the
    /// columns differ in length, and with `NotIncreasing` when the open times do
    /// not rise strictly.
    pub fn from_columns(open_times: &Vec<i64>, rows: &Vec<usize>) -> (r: Result<Dataset, ColumnError>)
        ensures
            match r {
                Ok(d) => decoded(open_times@, rows@) == Some(d@),
                Err(e) => {
                    &&& decoded(open_times@, rows@) is None
                    &&& (e == ColumnError::LengthMismatch <==> open_times@.len() != rows@.len())
                },
            },
    {
        let n = open_times.len();
        if n != rows.len() {
            return Err(ColumnError::LengthMismatch);
        }
        let mut out: Vec<Candle> = Vec::new();
        let mut i: usize = 0;
        while i < n
            invariant
                n == open_times@.len(),
                n == rows@.len(),
                i <= n,
                out@ == zipped(open_times@, rows@).subrange(0, i as int),
                strictly_increasing(out@),
            decreases n - i,
        {
            if i > 0 && open_times[i - 1] >= open_times[i] {
                proof {
                    let z = zipped(open_times@, rows@);
                    assert(z[i - 1].open_time >= z[i as int].open_time);
                }
                return Err(ColumnError::NotIncreasing);
            }
            let c = Candle { open_time: open_times[i], row: rows[i] };
            proof {
                let z = zipped(open_times@, rows@);
                assert(z.subrange(0, i + 1) =~= out@.push(c));
                assert forall|a: int, b: int| 0 <= a < b < i + 1 implies #[trigger] z[a].open_time < #[trigger] z[b].open_time by {
                    if b < i {
                        assert(out@[a] == z[a]);
                        assert(out@[b] == z[b]);
                    } else if a < i - 1 {
                        assert(out@[a] == z[a]);
                        assert(out@[i - 1] == z[i - 1]);
                        assert(out@[a].open_time < out@[i - 1].open_time);
                    }
                }
            }
            out.push(c);
            i = i + 1;
        }
        proof {
            assert(zipped(open_times@, rows@).subrange(0, n as int) =~= zipped(open_times@, rows@));
        }
        Ok(Dataset { candles: out })
    }

    /// Sorts `raw` by open time and keeps the first record of each open time.
    pub fn build_fresh(raw: &Vec<Candle>) -> (r: Dataset)
        ensures
            canonical_of(r@, raw@),
    {
        let mut out: Vec<Candle> = Vec::new();
        let n = raw.len();
        let mut i: usize = 0;
        while i < n
            invariant
                n == raw@.len(),
                i <= n,
                strictly_increasing(out@),
                forall|c: Candle|
                    #![trigger out@.contains(c)]
                    #![trigger kept_within(raw@, i as int, c)]
                    out@.contains(c) <==> kept_within(raw@, i as int, c),
            decreases n - i,
        {
            let c = raw[i];
            let mut pos: usize = out.len();
            while pos > 0 && out[pos - 1].open_time > c.open_time
                invariant
                    pos <= out@.len(),
                    forall|q: int| pos <= q < out@.len() ==> out@[q].open_time > c.open_time,
                decreases pos,
            {
                pos = pos - 1;
            }
            if pos > 0 && out[pos - 1].open_time == c.open_time {
                proof {
                    let prev = out@[pos - 1];
                    assert(out@.contains(prev));
                    assert(kept_within(raw@, i as int, prev));
                    let j = choose|j: int| 0 <= j < i && first_of_its_time(raw@, j) && raw@[j] == prev;
                    assert(!first_of_its_time(raw@, i as int));
                    assert forall|d: Candle|
                        #![trigger out@.contains(d)]
                        #![trigger kept_within(raw@, i + 1, d)]
                        out@.contains(d) <==> kept_within(raw@, i + 1, d) by {
                        if kept_within(raw@, i + 1, d) {
                            let k = choose|k: int| 0 <= k < i + 1 && first_of_its_time(raw@, k) && raw@[k] == d;
                            assert(k != i);
                            assert(kept_within(raw@, i as int, d));
                        }
                        if kept_within(raw@, i as int, d) {
                            let k = choose|k: int| 0 <= k < i && first_of_its_time(raw@, k) && raw@[k] == d;
                            assert(kept_within(raw@, i + 1, d));
                        }
                    }
                }
            } else {
                proof {
                    assert forall|j: int| 0 <= j < i implies raw@[j].open_time != c.open_time by {
                        if raw@[j].open_time == c.open_time {
                            lemma_first_occurrence(raw@, j);
                            let k = choose|k: int| 0 <= k <= j && first_of_its_time(raw@, k) && raw@[k].open_time == raw@[j].open_time;
                            assert(kept_within(raw@, i as int, raw@[k]));
                            assert(out@.contains(raw@[k]));
                            let q = choose|q: int| 0 <= q < out@.len() && out@[q] == raw@[k];
                            if q < pos {
                                assert(out@[q].open_time <= out@[pos - 1].open_time);
                            }
                        }
                    }
                    assert(first_of_its_time(raw@, i as int));
                    out@.insert_ensures(pos as int, c);
                }
                let ghost before = out@;
                out.insert(pos, c);
                proof {
                    assert forall|a: int, b: int| 0 <= a < b < out@.len() implies out@[a].open_time < out@[b].open_time by {
                        if a < pos && b > pos {
                            assert(out@[b] == before[b - 1]);
                        } else if a > pos {
                            assert(out@[a] == before[a - 1]);
                            assert(out@[b] == before[b - 1]);
                        } else if b == pos && a > 0 {
                            assert(before[a].open_time <= before[pos - 1].open_time);
                        }
                    }
                    assert forall|d: Candle|
                        #![trigger out@.contains(d)]
                        #![trigger kept_within(raw@, i + 1, d)]
                        out@.contains(d) <==> kept_within(raw@, i + 1, d) by {
                        if out@.contains(d) {
                            let q = choose|q: int| 0 <= q < out@.len() && out@[q] == d;
                            if q < pos {
                                assert(before.contains(d));
                            } else if q > pos {
                                assert(before[q - 1] == d);
                                assert(before.contains(d));
                            } else {
                                assert(raw@[i as int] == d);
                            }
                            if before.contains(d) {
                                assert(kept_within(raw@, i as int, d));
                                let k = choose|k: int| 0 <= k < i && first_of_its_time(raw@, k) && raw@[k] == d;
                            }
                            assert(kept_within(raw@, i + 1, d));
                        }
                        if kept_within(raw@, i + 1, d) {
                            let k = choose|k: int| 0 <= k < i + 1 && first_of_its_time(raw@, k) && raw@[k] == d;
                            if k == i {
                                assert(out@[pos as int] == d);
                            } else {
                                assert(kept_within(raw@, i as int, d));
                                assert(before.contains(d));
                                let q = choose|q: int| 0 <= q < before.len() && before[q] == d;
                                if q < pos {
                                    assert(out@[q] == d);
                                } else {
                                    assert(out@[q + 1] == d);
                                }
                            }
                        }
                    }
                }
            }
            i = i + 1;
        }
        Dataset { candles: out }
    }
}

} // verus!
