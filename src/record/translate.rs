use vstd::prelude::*;
use crate::dictionary::{copy_vec, lookup, lemma_lookup_at, lemma_lookup_found};
use crate::header::{FieldDomain, HeaderModel, HeaderView};
use super::{BodyModel, FormatField, InfoField, Record, RecordError, RecordModel, copy_samples, keys_declared, keys_unique};

verus! {

/// The fields of `fs`, read against `src`, with their keys renumbered to the
/// ids of the same names in `dst`; a field not declared in `dst` is dropped.
pub open spec fn map_fields<V>(src: HeaderModel, dst: HeaderModel, domain: FieldDomain, fs: Seq<(usize, V)>) -> Seq<(usize, V)>
    decreases fs.len(),
{
    if fs.len() == 0 {
        Seq::empty()
    } else {
        let prev = map_fields(src, dst, domain, fs.drop_last());
        match dst.field_id(domain, src.fields[fs.last().0 as int]) {
            Some(j) => prev.push((j as usize, fs.last().1)),
            None => prev,
        }
    }
}

/// `r` rebound to `dst`: `None` where its contig is not declared there.
pub open spec fn translated(r: RecordModel, dst: HeaderModel) -> Option<RecordModel> {
    match lookup(dst.contigs, r.header.contigs[r.body.rid as int]) {
        None => None,
        Some(c) => Some(RecordModel {
            header: dst,
            body: BodyModel {
                rid: c as usize,
                info: map_fields(r.header, dst, FieldDomain::Info, r.body.info),
                format: map_fields(r.header, dst, FieldDomain::Format, r.body.format),
                ..r.body
            },
        }),
    }
}

/// Translated fields are declared in the destination.
pub proof fn lemma_map_fields_declared<V>(src: HeaderModel, dst: HeaderModel, domain: FieldDomain, fs: Seq<(usize, V)>)
    requires
        dst.wf(),
    ensures
        keys_declared(dst, domain, map_fields(src, dst, domain, fs)),
    decreases fs.len(),
{
    if fs.len() > 0 {
        lemma_map_fields_declared(src, dst, domain, fs.drop_last());
        let name = src.fields[fs.last().0 as int];
        if let Some(j) = lookup(dst.fields, name) {
            lemma_lookup_found(dst.fields, name);
        }
        let prev = map_fields(src, dst, domain, fs.drop_last());
        if let Some(j) = dst.field_id(domain, name) {
            assert(map_fields(src, dst, domain, fs) == prev.push((j as usize, fs.last().1)));
        }
    }
}

/// Fields already valid against `h` are left as they are by translation to `h`.
pub proof fn lemma_map_fields_identity<V>(h: HeaderModel, domain: FieldDomain, fs: Seq<(usize, V)>)
    requires
        h.wf(),
        keys_declared(h, domain, fs),
    ensures
        map_fields(h, h, domain, fs) == fs,
    decreases fs.len(),
{
    if fs.len() > 0 {
        lemma_map_fields_identity(h, domain, fs.drop_last());
        lemma_lookup_at(h.fields, fs.last().0 as int);
        assert(h.declared(domain, fs[fs.len() - 1].0 as int));
        assert(fs.drop_last().push(fs.last()) =~= fs);
    }
}

/// Translation depends on the destination's field dictionary and domain
/// flags alone.
pub proof fn lemma_map_fields_same_dictionaries<V>(src: HeaderModel, dst: HeaderModel, domain: FieldDomain, fs: Seq<(usize, V)>)
    requires
        dst.fields == src.fields,
        dst.info == src.info,
        dst.format == src.format,
    ensures
        map_fields(src, dst, domain, fs) == map_fields(src, src, domain, fs),
    decreases fs.len(),
{
    if fs.len() > 0 {
        lemma_map_fields_same_dictionaries(src, dst, domain, fs.drop_last());
    }
}

/// Each translated field holds the values of a field of `fs`.
pub proof fn lemma_map_fields_values<V>(src: HeaderModel, dst: HeaderModel, domain: FieldDomain, fs: Seq<(usize, V)>)
    ensures
        forall|p: int| #![trigger map_fields(src, dst, domain, fs)[p]]
            0 <= p < map_fields(src, dst, domain, fs).len() ==> exists|q: int|
            0 <= q < fs.len() && map_fields(src, dst, domain, fs)[p].1 == (#[trigger] fs[q]).1,
    decreases fs.len(),
{
    if fs.len() > 0 {
        let init = fs.drop_last();
        lemma_map_fields_values(src, dst, domain, init);
        let prev = map_fields(src, dst, domain, init);
        let out = map_fields(src, dst, domain, fs);
        assert forall|p: int| #![trigger out[p]] 0 <= p < out.len() implies exists|q: int|
            0 <= q < fs.len() && out[p].1 == (#[trigger] fs[q]).1 by {
            if p < prev.len() {
                assert(out[p] == prev[p]);
                let q = choose|q: int| 0 <= q < init.len() && prev[p].1 == (#[trigger] init[q]).1;
                assert(init[q] == fs[q]);
            } else {
                assert(out[p].1 == fs[fs.len() - 1].1);
            }
        }
    }
}

/// Each translated field comes from a field of `fs` with the same name.
pub proof fn lemma_map_fields_unique<V>(src: HeaderModel, dst: HeaderModel, domain: FieldDomain, fs: Seq<(usize, V)>)
    requires
        src.wf(),
        dst.wf(),
        keys_declared(src, domain, fs),
        keys_unique(fs),
    ensures
        keys_unique(map_fields(src, dst, domain, fs)),
        forall|p: int| #![trigger map_fields(src, dst, domain, fs)[p]]
            0 <= p < map_fields(src, dst, domain, fs).len() ==> exists|q: int|
            0 <= q < fs.len() && dst.fields[map_fields(src, dst, domain, fs)[p].0 as int]
                == src.fields[(#[trigger] fs[q]).0 as int],
    decreases fs.len(),
{
    if fs.len() > 0 {
        let init = fs.drop_last();
        assert(keys_declared(src, domain, init)) by {
            assert forall|i: int| 0 <= i < init.len() implies src.declared(domain, #[trigger] init[i].0 as int) by {
                assert(init[i] == fs[i]);
            }
        }
        assert(keys_unique(init)) by {
            assert forall|i: int, j: int| 0 <= i < j < init.len() implies (#[trigger] init[i]).0 != (#[trigger] init[j]).0 by {
                assert(init[i] == fs[i] && init[j] == fs[j]);
            }
        }
        lemma_map_fields_unique(src, dst, domain, init);
        lemma_map_fields_declared(src, dst, domain, init);
        let prev = map_fields(src, dst, domain, init);
        let out = map_fields(src, dst, domain, fs);
        let n = fs.len() - 1;
        let name = src.fields[fs[n].0 as int];
        assert(src.declared(domain, fs[n].0 as int));
        match dst.field_id(domain, name) {
            Some(jj) => {
                lemma_lookup_found(dst.fields, name);
                assert(out == prev.push((jj as usize, fs.last().1)));
                assert forall|p: int| 0 <= p < prev.len() implies (#[trigger] prev[p]).0 != jj as usize by {
                    let q = choose|q: int| 0 <= q < init.len() && dst.fields[prev[p].0 as int]
                        == src.fields[(#[trigger] init[q]).0 as int];
                    assert(init[q] == fs[q]);
                    assert(src.declared(domain, fs[q].0 as int));
                    assert(dst.declared(domain, prev[p].0 as int));
                    if prev[p].0 == jj as usize {
                        assert(src.fields[fs[q].0 as int] == src.fields[fs[n].0 as int]);
                        assert(fs[q].0 == fs[n].0);
                    }
                }
                assert forall|p: int| #![trigger out[p]] 0 <= p < out.len() implies exists|q: int|
                    0 <= q < fs.len() && dst.fields[out[p].0 as int] == src.fields[(#[trigger] fs[q]).0 as int] by {
                    if p < prev.len() {
                        let q = choose|q: int| 0 <= q < init.len() && dst.fields[prev[p].0 as int]
                            == src.fields[(#[trigger] init[q]).0 as int];
                        assert(init[q] == fs[q]);
                    } else {
                        assert(dst.fields[out[p].0 as int] == src.fields[fs[n].0 as int]);
                    }
                }
            },
            None => {
                assert(out == prev);
                assert forall|p: int| #![trigger out[p]] 0 <= p < out.len() implies exists|q: int|
                    0 <= q < fs.len() && dst.fields[out[p].0 as int] == src.fields[(#[trigger] fs[q]).0 as int] by {
                    let q = choose|q: int| 0 <= q < init.len() && dst.fields[prev[p].0 as int]
                        == src.fields[(#[trigger] init[q]).0 as int];
                    assert(init[q] == fs[q]);
                }
            },
        }
    }
}

/// A successful translation yields a record valid against the destination.
pub proof fn lemma_translated_wf(r: RecordModel, dst: HeaderModel)
    requires
        r.wf(),
        dst.wf(),
        translated(r, dst) is Some,
    ensures
        translated(r, dst).unwrap().wf(),
{
    lemma_lookup_found(dst.contigs, r.header.contigs[r.body.rid as int]);
    lemma_map_fields_declared(r.header, dst, FieldDomain::Info, r.body.info);
    lemma_map_fields_declared(r.header, dst, FieldDomain::Format, r.body.format);
    lemma_map_fields_unique(r.header, dst, FieldDomain::Info, r.body.info);
    lemma_map_fields_unique(r.header, dst, FieldDomain::Format, r.body.format);
    lemma_map_fields_values(r.header, dst, FieldDomain::Format, r.body.format);
    let out = map_fields(r.header, dst, FieldDomain::Format, r.body.format);
    let fs = r.body.format;
    assert forall|x: int, y: int| 0 <= x < out.len() && 0 <= y < out.len()
        implies (#[trigger] out[x]).1.len() == (#[trigger] out[y]).1.len() by {
        let qx = choose|q: int| 0 <= q < fs.len() && out[x].1 == (#[trigger] fs[q]).1;
        let qy = choose|q: int| 0 <= q < fs.len() && out[y].1 == (#[trigger] fs[q]).1;
        assert(fs[qx].1.len() == fs[qy].1.len());
    }
}

/// Translating a record to a header it was already translated to changes
/// nothing: the second translation succeeds and gives the same record.
pub proof fn lemma_translate_idempotent(r: RecordModel, dst: HeaderModel)
    requires
        r.wf(),
        dst.wf(),
        translated(r, dst) is Some,
    ensures
        translated(translated(r, dst).unwrap(), dst) == translated(r, dst),
{
    let t = translated(r, dst).unwrap();
    lemma_translated_wf(r, dst);
    lemma_lookup_at(dst.contigs, t.body.rid as int);
    lemma_map_fields_identity(dst, FieldDomain::Info, t.body.info);
    lemma_map_fields_identity(dst, FieldDomain::Format, t.body.format);
}

impl Record {
    /// Renumbers this record's ids from its header to `dst` and binds it to
    /// `dst`. Fails, leaving the record as it was, where the record's contig
    /// is not declared by `dst`.
    pub fn translate(&mut self, dst: &HeaderView) -> (r: Result<(), RecordError>)
        requires
            old(self)@.wf(),
            dst@.wf(),
        ensures
            translated(old(self)@, dst@) is None ==> r == Err::<(), RecordError>(RecordError::UnknownContig)
                && final(self)@ == old(self)@,
            translated(old(self)@, dst@) matches Some(t) ==> r is Ok && final(self)@ == t,
            final(self)@.wf(),
    {
        let src = self.header.inner();
        let rid = match dst.inner().contig_id(src.contig_name(self.body.rid).as_slice()) {
            None => return Err(RecordError::UnknownContig),
            Some(c) => c,
        };
        let mut info: Vec<InfoField> = Vec::with_capacity(self.body.info.len());
        let mut i: usize = 0;
        while i < self.body.info.len()
            invariant
                self@.wf(),
                dst@.wf(),
                src@ == self@.header,
                i <= self@.body.info.len(),
                info@.map_values(|f: InfoField| f@)
                    == map_fields(self@.header, dst@, FieldDomain::Info, self@.body.info.subrange(0, i as int)),
            decreases self.body.info.len() - i,
        {
            let ghost fs = self@.body.info.subrange(0, i + 1);
            assert(fs.drop_last() =~= self@.body.info.subrange(0, i as int));
            let f = &self.body.info[i];
            assert(self@.header.declared(FieldDomain::Info, self@.body.info[i as int].0 as int));
            match dst.inner().field_id(FieldDomain::Info, src.field_name(f.key).as_slice()) {
                Some(j) => {
                    let ghost before = info@;
                    let nf = InfoField { key: j, values: copy_vec(&f.values) };
                    info.push(nf);
                    assert(info@.map_values(|f: InfoField| f@)
                        =~= before.map_values(|f: InfoField| f@).push(nf@));
                },
                None => {},
            }
            i += 1;
        }
        assert(self@.body.info.subrange(0, i as int) =~= self@.body.info);
        let mut format: Vec<FormatField> = Vec::with_capacity(self.body.format.len());
        let mut i: usize = 0;
        while i < self.body.format.len()
            invariant
                self@.wf(),
                dst@.wf(),
                src@ == self@.header,
                i <= self@.body.format.len(),
                format@.map_values(|f: FormatField| f@)
                    == map_fields(self@.header, dst@, FieldDomain::Format, self@.body.format.subrange(0, i as int)),
            decreases self.body.format.len() - i,
        {
            let ghost fs = self@.body.format.subrange(0, i + 1);
            assert(fs.drop_last() =~= self@.body.format.subrange(0, i as int));
            let f = &self.body.format[i];
            assert(self@.header.declared(FieldDomain::Format, self@.body.format[i as int].0 as int));
            match dst.inner().field_id(FieldDomain::Format, src.field_name(f.key).as_slice()) {
                Some(j) => {
                    let ghost before = format@;
                    let nf = FormatField { key: j, values: copy_samples(&f.values) };
                    format.push(nf);
                    assert(format@.map_values(|f: FormatField| f@)
                        =~= before.map_values(|f: FormatField| f@).push(nf@));
                },
                None => {},
            }
            i += 1;
        }
        assert(self@.body.format.subrange(0, i as int) =~= self@.body.format);
        proof {
            lemma_translated_wf(self@, dst@);
        }
        self.header = dst.duplicate();
        self.body.rid = rid;
        self.body.info = info;
        self.body.format = format;
        Ok(())
    }
}

} // verus!
