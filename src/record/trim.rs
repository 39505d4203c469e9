use vstd::prelude::*;
use crate::dictionary::copy_vec;
use crate::header::FieldDomain;
use super::{BodyModel, FormatField, Record, RecordError, RecordModel, samples_view, key_index, lemma_key_index_range, find_key_exec};

verus! {

/// The name of the genotype field.
pub open spec fn genotype_tag() -> Seq<u8> {
    seq![71u8, 84u8]
}

/// Allele `a` is called in some sample of `gt`.
pub open spec fn observed(gt: Seq<Seq<i32>>, a: int) -> bool {
    exists|s: int, p: int| 0 <= s < gt.len() && 0 <= p < gt[s].len() && gt[s][p] as int == a
}

/// Allele `a` survives trimming: the reference allele, or one that is called.
pub open spec fn kept(gt: Seq<Seq<i32>>, a: int) -> bool {
    a == 0 || observed(gt, a)
}

/// The alleles among the first `n` of `alleles` that survive trimming.
pub open spec fn kept_alleles(alleles: Seq<Seq<u8>>, gt: Seq<Seq<i32>>, n: int) -> Seq<Seq<u8>>
    decreases n,
{
    if n <= 0 {
        Seq::empty()
    } else {
        let prev = kept_alleles(alleles, gt, n - 1);
        if kept(gt, n - 1) { prev.push(alleles[n - 1]) } else { prev }
    }
}

/// The number of surviving alleles before allele `a`: its index after trimming.
pub open spec fn rank(gt: Seq<Seq<i32>>, a: int) -> int
    decreases a,
{
    if a <= 0 {
        0
    } else {
        rank(gt, a - 1) + if kept(gt, a - 1) { 1int } else { 0int }
    }
}

/// A genotype value after trimming: missing values (negative) stay.
pub open spec fn renumbered(gt: Seq<Seq<i32>>, v: i32) -> i32 {
    if v < 0 { v } else { rank(gt, v as int) as i32 }
}

/// The genotype calls of `gt` renumbered to the trimmed allele list.
pub open spec fn renumber_calls(gt: Seq<Seq<i32>>) -> Seq<Seq<i32>> {
    gt.map_values(|row: Seq<i32>| row.map_values(|v: i32| renumbered(gt, v)))
}

/// Every call of `gt` names one of `n` alleles.
pub open spec fn calls_in_range(gt: Seq<Seq<i32>>, n: int) -> bool {
    forall|s: int, p: int| 0 <= s < gt.len() && 0 <= p < gt[s].len() ==> (gt[s][p] as int) < n
}

/// The index of the genotype field of `r`, if it has one.
pub open spec fn genotype_index(r: RecordModel) -> Option<int> {
    match r.header.field_id(FieldDomain::Format, genotype_tag()) {
        None => None,
        Some(k) => key_index(r.body.format, k as usize),
    }
}

/// `r` with unobserved alternate alleles removed and its genotype field at
/// `g` renumbered.
pub open spec fn trimmed(r: RecordModel, g: int) -> RecordModel {
    let gt = r.body.format[g].1;
    RecordModel {
        body: BodyModel {
            alleles: kept_alleles(r.body.alleles, gt, r.body.alleles.len() as int),
            format: r.body.format.update(g, (r.body.format[g].0, renumber_calls(gt))),
            ..r.body
        },
        ..r
    }
}

proof fn lemma_rank_bound(gt: Seq<Seq<i32>>, a: int)
    requires
        a >= 0,
    ensures
        0 <= rank(gt, a) <= a,
    decreases a,
{
    if a > 0 {
        lemma_rank_bound(gt, a - 1);
    }
}

/// Allele `a` is called at a position of `gt` before row `s`, column `p`.
pub open spec fn observed_before(gt: Seq<Seq<i32>>, a: int, s: int, p: int) -> bool {
    exists|s2: int, p2: int|
        0 <= s2 < gt.len() && 0 <= p2 < gt[s2].len() && (s2 < s || (s2 == s && p2 < p))
            && #[trigger] gt[s2][p2] as int == a
}

/// Which of `n` alleles are called in `gt`; `None` where a call names no
/// allele among them.
fn observe_exec(gt: &Vec<Vec<i32>>, n: usize) -> (r: Option<Vec<bool>>)
    ensures
        r is None <==> !calls_in_range(samples_view(gt@), n as int),
        r matches Some(seen) ==> seen@.len() == n
            && forall|a: int| 0 <= a < n ==> seen@[a] == observed(samples_view(gt@), a),
{
    let ghost g = samples_view(gt@);
    let mut seen: Vec<bool> = Vec::with_capacity(n);
    let mut a: usize = 0;
    while a < n
        invariant
            a <= n,
            seen@.len() == a,
            forall|b: int| 0 <= b < a ==> !seen@[b],
        decreases n - a,
    {
        seen.push(false);
        a += 1;
    }
    let mut s: usize = 0;
    while s < gt.len()
        invariant
            g == samples_view(gt@),
            s <= g.len(),
            seen@.len() == n,
            forall|b: int| 0 <= b < n ==> seen@[b] == observed_before(g, b, s as int, 0),
            forall|s2: int, p2: int|
                0 <= s2 < s && 0 <= p2 < g[s2].len() ==> (#[trigger] g[s2][p2] as int) < n,
        decreases gt.len() - s,
    {
        let row = &gt[s];
        assert(row@ == g[s as int]);
        let mut p: usize = 0;
        while p < row.len()
            invariant
                g == samples_view(gt@),
                s < g.len(),
                row@ == g[s as int],
                p <= row@.len(),
                seen@.len() == n,
                forall|b: int| 0 <= b < n ==> seen@[b] == observed_before(g, b, s as int, p as int),
                forall|s2: int, p2: int|
                    0 <= s2 < g.len() && 0 <= p2 < g[s2].len() && (s2 < s || (s2 == s && p2 < p))
                        ==> (#[trigger] g[s2][p2] as int) < n,
            decreases row.len() - p,
        {
            let v = row[p];
            assert(g[s as int][p as int] == v);
            if v >= 0 {
                if v as usize >= n {
                    assert(!calls_in_range(g, n as int));
                    return None;
                }
                seen.set(v as usize, true);
            }
            proof {
                assert forall|b: int| 0 <= b < n implies seen@[b] == observed_before(g, b, s as int, p + 1) by {
                    if observed_before(g, b, s as int, p + 1) && b != v {
                        let (s2, p2) = choose|s2: int, p2: int|
                            0 <= s2 < g.len() && 0 <= p2 < g[s2].len() && (s2 < s || (s2 == s && p2 < p + 1))
                                && #[trigger] g[s2][p2] as int == b;
                        assert(observed_before(g, b, s as int, p as int));
                    }
                    if observed_before(g, b, s as int, p as int) {
                        let (s2, p2) = choose|s2: int, p2: int|
                            0 <= s2 < g.len() && 0 <= p2 < g[s2].len() && (s2 < s || (s2 == s && p2 < p))
                                && #[trigger] g[s2][p2] as int == b;
                        assert(observed_before(g, b, s as int, p + 1));
                    }
                    if b == v {
                        assert(observed_before(g, b, s as int, p + 1));
                    }
                }
            }
            p += 1;
        }
        proof {
            assert forall|b: int| 0 <= b < n implies observed_before(g, b, s as int, p as int)
                == observed_before(g, b, s + 1, 0) by {
                if observed_before(g, b, s + 1, 0) {
                    let (s2, p2) = choose|s2: int, p2: int|
                        0 <= s2 < g.len() && 0 <= p2 < g[s2].len() && (s2 < s + 1 || (s2 == s + 1 && p2 < 0))
                            && #[trigger] g[s2][p2] as int == b;
                    assert(observed_before(g, b, s as int, p as int));
                }
                if observed_before(g, b, s as int, p as int) {
                    let (s2, p2) = choose|s2: int, p2: int|
                        0 <= s2 < g.len() && 0 <= p2 < g[s2].len() && (s2 < s || (s2 == s && p2 < p))
                            && #[trigger] g[s2][p2] as int == b;
                    assert(observed_before(g, b, s + 1, 0));
                }
            }
        }
        s += 1;
    }
    proof {
        assert forall|b: int| 0 <= b < n implies observed_before(g, b, s as int, 0) == observed(g, b) by {
            if observed(g, b) {
                let (s2, p2) = choose|s2: int, p2: int|
                    0 <= s2 < g.len() && 0 <= p2 < g[s2].len() && g[s2][p2] as int == b;
                assert(observed_before(g, b, s as int, 0));
            }
        }
    }
    Some(seen)
}

/// The genotype calls of `gt` with each allele index `v` replaced by `ranks[v]`.
fn renumber_exec(gt: &Vec<Vec<i32>>, ranks: &Vec<usize>) -> (r: Vec<Vec<i32>>)
    requires
        calls_in_range(samples_view(gt@), ranks@.len() as int),
        forall|a: int| 0 <= a < ranks@.len() ==> ranks@[a] as int == rank(samples_view(gt@), a),
    ensures
        samples_view(r@) == renumber_calls(samples_view(gt@)),
{
    let ghost g = samples_view(gt@);
    let mut r: Vec<Vec<i32>> = Vec::with_capacity(gt.len());
    let mut s: usize = 0;
    while s < gt.len()
        invariant
            g == samples_view(gt@),
            s <= g.len(),
            r@.len() == s,
            calls_in_range(g, ranks@.len() as int),
            forall|a: int| 0 <= a < ranks@.len() ==> ranks@[a] as int == rank(g, a),
            forall|k: int| 0 <= k < s ==> (#[trigger] r@[k])@ == renumber_calls(g)[k],
        decreases gt.len() - s,
    {
        let row = &gt[s];
        assert(row@ == g[s as int]);
        let mut out: Vec<i32> = Vec::with_capacity(row.len());
        let mut p: usize = 0;
        while p < row.len()
            invariant
                g == samples_view(gt@),
                s < g.len(),
                row@ == g[s as int],
                p <= row@.len(),
                out@.len() == p,
                calls_in_range(g, ranks@.len() as int),
                forall|a: int| 0 <= a < ranks@.len() ==> ranks@[a] as int == rank(g, a),
                forall|k: int| 0 <= k < p ==> out@[k] == renumbered(g, row@[k]),
            decreases row.len() - p,
        {
            let v = row[p];
            if v < 0 {
                out.push(v);
            } else {
                assert(g[s as int][p as int] == v);
                proof {
                    lemma_rank_bound(g, v as int);
                }
                out.push(ranks[v as usize] as i32);
            }
            p += 1;
        }
        assert(out@ =~= renumber_calls(g)[s as int]);
        r.push(out);
        s += 1;
    }
    assert(samples_view(r@) =~= renumber_calls(g));
    r
}

impl Record {
    /// Removes the alternate alleles that no genotype call names and
    /// renumbers the calls to the shortened allele list; other fields are
    /// left as they are. Fails, leaving the record as it was, where the
    /// record has no genotype field, or a call names no declared allele.
    pub fn trim_alleles(&mut self) -> (r: Result<(), RecordError>)
        requires
            old(self)@.wf(),
        ensures
            final(self)@.wf(),
            genotype_index(old(self)@) is None <==> r == Err::<(), RecordError>(RecordError::NoGenotypeData),
            genotype_index(old(self)@) matches Some(g) ==> {
                &&& !calls_in_range(old(self)@.body.format[g].1, old(self)@.body.alleles.len() as int)
                    <==> r == Err::<(), RecordError>(RecordError::IndexOutOfRange)
                &&& r is Ok ==> final(self)@ == trimmed(old(self)@, g)
            },
            genotype_index(old(self)@) matches Some(g)
                && calls_in_range(old(self)@.body.format[g].1, old(self)@.body.alleles.len() as int) ==> r is Ok,
            r is Err ==> final(self)@ == old(self)@,
    {
        let tag: Vec<u8> = vec![71u8, 84u8];
        assert(tag@ =~= genotype_tag());
        let key = match self.header.inner().field_id(FieldDomain::Format, tag.as_slice()) {
            None => return Err(RecordError::NoGenotypeData),
            Some(k) => k,
        };
        let keys = self.body.format_keys();
        let g = match find_key_exec::<Seq<Seq<i32>>>(&keys, key, Ghost(self@.body.format)) {
            None => return Err(RecordError::NoGenotypeData),
            Some(g) => g,
        };
        proof {
            lemma_key_index_range(self@.body.format, key);
        }
        let ghost gt = self@.body.format[g as int].1;
        let n = self.body.alleles.len();
        assert(samples_view(self.body.format[g as int].values@) == gt);
        let seen = match observe_exec(&self.body.format[g].values, n) {
            None => return Err(RecordError::IndexOutOfRange),
            Some(seen) => seen,
        };
        let ghost av = self@.body.alleles;
        let mut alleles: Vec<Vec<u8>> = Vec::with_capacity(n);
        let mut ranks: Vec<usize> = Vec::with_capacity(n);
        let mut count: usize = 0;
        let mut a: usize = 0;
        while a < n
            invariant
                n == av.len(),
                av == self@.body.alleles,
                seen@.len() == n,
                forall|b: int| 0 <= b < n ==> seen@[b] == observed(gt, b),
                a <= n,
                ranks@.len() == a,
                forall|b: int| 0 <= b < a ==> ranks@[b] as int == rank(gt, b),
                count as int == rank(gt, a as int),
                count <= a,
                alleles@.map_values(|x: Vec<u8>| x@) == kept_alleles(av, gt, a as int),
            decreases n - a,
        {
            ranks.push(count);
            if a == 0 || seen[a] {
                let c = copy_vec(&self.body.alleles[a]);
                let ghost before = alleles@;
                alleles.push(c);
                assert(alleles@.map_values(|x: Vec<u8>| x@)
                    =~= before.map_values(|x: Vec<u8>| x@).push(av[a as int]));
                count += 1;
            }
            a += 1;
        }
        let values = renumber_exec(&self.body.format[g].values, &ranks);
        let fkey = self.body.format[g].key;
        self.body.alleles = alleles;
        self.body.format.set(g, FormatField { key: fkey, values });
        assert(self@.body.format =~= old(self)@.body.format.update(g as int, (fkey, renumber_calls(gt))));
        assert(self@ == trimmed(old(self)@, g as int));
        Ok(())
    }
}

} // verus!
