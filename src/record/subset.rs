use vstd::prelude::*;
use crate::dictionary::copy_vec;
use super::{BodyModel, FormatField, Record, RecordError, RecordModel, samples_view, uniform_samples};

verus! {

/// Every entry of `map` indexes the per-sample values of every field of `fmt`.
pub open spec fn subset_fits(fmt: Seq<(usize, Seq<Seq<i32>>)>, map: Seq<usize>) -> bool {
    forall|f: int, i: int| #![trigger fmt[f], map[i]]
        0 <= f < fmt.len() && 0 <= i < map.len() ==> (map[i] as int) < fmt[f].1.len()
}

/// Position `i` of the result is `vals[map[i]]`.
pub open spec fn pick_samples(vals: Seq<Seq<i32>>, map: Seq<usize>) -> Seq<Seq<i32>> {
    map.map_values(|m: usize| vals[m as int])
}

/// Each field of `fmt` with its per-sample values picked by `map`.
pub open spec fn subset_fields(fmt: Seq<(usize, Seq<Seq<i32>>)>, map: Seq<usize>) -> Seq<(usize, Seq<Seq<i32>>)> {
    fmt.map_values(|f: (usize, Seq<Seq<i32>>)| (f.0, pick_samples(f.1, map)))
}

/// `r` with the samples of its FORMAT fields picked by `map`.
pub open spec fn subsetted(r: RecordModel, map: Seq<usize>) -> RecordModel {
    RecordModel { body: BodyModel { format: subset_fields(r.body.format, map), ..r.body }, ..r }
}

fn subset_fits_exec(fmt: &Vec<FormatField>, map: &[usize]) -> (r: bool)
    ensures
        r == subset_fits(fmt@.map_values(|f: FormatField| f@), map@),
{
    let ghost fv = fmt@.map_values(|f: FormatField| f@);
    let mut f: usize = 0;
    while f < fmt.len()
        invariant
            f <= fmt@.len(),
            fv == fmt@.map_values(|f: FormatField| f@),
            forall|g: int, i: int| #![trigger fv[g], map@[i]]
                0 <= g < f && 0 <= i < map@.len() ==> (map@[i] as int) < fv[g].1.len(),
        decreases fmt.len() - f,
    {
        let n = fmt[f].values.len();
        let mut i: usize = 0;
        while i < map.len()
            invariant
                f < fmt@.len(),
                i <= map@.len(),
                fv == fmt@.map_values(|f: FormatField| f@),
                n == fv[f as int].1.len(),
                forall|g: int, j: int| #![trigger fv[g], map@[j]]
                    0 <= g < f && 0 <= j < map@.len() ==> (map@[j] as int) < fv[g].1.len(),
                forall|j: int| 0 <= j < i ==> (map@[j] as int) < n,
            decreases map.len() - i,
        {
            if map[i] >= n {
                assert(!((map@[i as int] as int) < fv[f as int].1.len()));
                return false;
            }
            i += 1;
        }
        f += 1;
    }
    true
}

fn pick_exec(vals: &Vec<Vec<i32>>, map: &[usize]) -> (r: Vec<Vec<i32>>)
    requires
        forall|i: int| 0 <= i < map@.len() ==> (map@[i] as int) < vals@.len(),
    ensures
        samples_view(r@) == pick_samples(samples_view(vals@), map@),
{
    let mut r: Vec<Vec<i32>> = Vec::with_capacity(map.len());
    let mut i: usize = 0;
    while i < map.len()
        invariant
            i <= map@.len(),
            r@.len() == i,
            forall|k: int| 0 <= k < map@.len() ==> (map@[k] as int) < vals@.len(),
            forall|k: int| 0 <= k < i ==> (#[trigger] r@[k])@ == vals@[map@[k] as int]@,
        decreases map.len() - i,
    {
        let c = copy_vec(&vals[map[i]]);
        r.push(c);
        i += 1;
    }
    assert(samples_view(r@) =~= pick_samples(samples_view(vals@), map@));
    r
}

impl Record {
    /// Keeps, for every FORMAT field, only the samples named by `map`, in its
    /// order: position `i` becomes the old value at `map[i]`. Fails, leaving
    /// the record as it was, where an entry of `map` is out of range.
    pub fn subset(&mut self, map: &[usize]) -> (r: Result<(), RecordError>)
        requires
            old(self)@.wf(),
        ensures
            final(self)@.wf(),
            subset_fits(old(self)@.body.format, map@) ==> r is Ok && final(self)@ == subsetted(old(self)@, map@),
            !subset_fits(old(self)@.body.format, map@)
                ==> r == Err::<(), RecordError>(RecordError::IndexOutOfRange) && final(self)@ == old(self)@,
    {
        let ghost fv = self@.body.format;
        if !subset_fits_exec(&self.body.format, map) {
            return Err(RecordError::IndexOutOfRange);
        }
        let mut format: Vec<FormatField> = Vec::with_capacity(self.body.format.len());
        let mut f: usize = 0;
        while f < self.body.format.len()
            invariant
                fv == self@.body.format,
                subset_fits(fv, map@),
                f <= fv.len(),
                format@.len() == f,
                forall|k: int| 0 <= k < f ==> (#[trigger] format@[k])@ == subset_fields(fv, map@)[k],
            decreases self.body.format.len() - f,
        {
            let field = &self.body.format[f];
            assert(field@ == fv[f as int]);
            assert forall|i: int| 0 <= i < map@.len() implies (map@[i] as int) < field.values@.len() by {
                assert((map@[i] as int) < fv[f as int].1.len());
            }
            let values = pick_exec(&field.values, map);
            format.push(FormatField { key: field.key, values });
            f += 1;
        }
        self.body.format = format;
        assert(self@.body.format =~= subset_fields(fv, map@));
        assert(self@ == subsetted(old(self)@, map@));
        Ok(())
    }

}

/// Subsetting with the map `0, 1, ..., n - 1` leaves a record whose FORMAT
/// fields all hold `n` samples as it was.
pub proof fn lemma_identity_subset(r: RecordModel, map: Seq<usize>)
    requires
        forall|i: int| 0 <= i < map.len() ==> map[i] as int == i,
        forall|f: int| 0 <= f < r.body.format.len() ==> (#[trigger] r.body.format[f]).1.len() == map.len(),
    ensures
        subset_fits(r.body.format, map),
        subsetted(r, map) == r,
{
    assert forall|f: int| 0 <= f < r.body.format.len() implies
        pick_samples(#[trigger] r.body.format[f].1, map) == r.body.format[f].1 by {
        assert(pick_samples(r.body.format[f].1, map) =~= r.body.format[f].1);
    }
    assert(subset_fields(r.body.format, map) =~= r.body.format);
    assert(r.body == BodyModel { format: subset_fields(r.body.format, map), ..r.body });
}

/// In a valid record whose FORMAT field at `f` holds `[v0, v1, v2]`, the
/// map `[2, 0]` fits every field, and subsetting leaves `[v2, v0]` there.
pub proof fn lemma_subset_reorders(r: RecordModel, f: int, v0: Seq<i32>, v1: Seq<i32>, v2: Seq<i32>)
    requires
        uniform_samples(r.body.format),
        0 <= f < r.body.format.len(),
        r.body.format[f].1 == seq![v0, v1, v2],
    ensures
        subset_fits(r.body.format, seq![2usize, 0usize]),
        subsetted(r, seq![2usize, 0usize]).body.format[f].1 == seq![v2, v0],
{
    let map = seq![2usize, 0usize];
    assert forall|g: int, i: int| #![trigger r.body.format[g], map[i]] 0 <= g < r.body.format.len() && 0 <= i < map.len()
        implies (map[i] as int) < r.body.format[g].1.len() by {
        assert(r.body.format[g].1.len() == r.body.format[f].1.len());
    }
    assert(pick_samples(seq![v0, v1, v2], map) =~= seq![v2, v0]);
}

} // verus!
