use vstd::prelude::*;
use crate::dictionary::{bytes_of, copy_vec, lemma_lookup_found};
use crate::header::{FieldDomain, HeaderModel, HeaderView};

pub mod subset;
pub mod translate;
pub mod trim;

pub use subset::{subset_fits, subsetted};
pub use translate::translated;

verus! {

/// Why a record operation was refused.
#[derive(Debug, Clone, Copy, PartialEq, Eq, Structural)]
pub enum RecordError {
    /// The record's contig is not declared by the destination header.
    UnknownContig,
    /// The tag is not declared as a field of the requested domain.
    UnknownField,
    /// A subset map entry or a genotype allele index is out of range.
    IndexOutOfRange,
    /// Per-sample values whose number differs from that of the record's
    /// other FORMAT fields.
    SampleCountMismatch,
    /// The record carries no genotype field.
    NoGenotypeData,
}

/// A per-record field: its field-definition id and its 32-bit values
/// (integers, or the bit patterns of single-precision reals).
pub struct InfoField {
    pub key: usize,
    pub values: Vec<i32>,
}

/// A per-sample field: its field-definition id and one value vector per
/// sample, in the order of the samples of the bound header.
pub struct FormatField {
    pub key: usize,
    pub values: Vec<Vec<i32>>,
}

impl View for InfoField {
    type V = (usize, Seq<i32>);

    open spec fn view(&self) -> (usize, Seq<i32>) {
        (self.key, self.values@)
    }
}

/// The ghost view of per-sample values.
pub open spec fn samples_view(v: Seq<Vec<i32>>) -> Seq<Seq<i32>> {
    v.map_values(|s: Vec<i32>| s@)
}

impl View for FormatField {
    type V = (usize, Seq<Seq<i32>>);

    open spec fn view(&self) -> (usize, Seq<Seq<i32>>) {
        (self.key, samples_view(self.values@))
    }
}

/// What a record holds apart from its header binding.
pub struct BodyModel {
    pub rid: usize,
    pub pos: u32,
    pub qual: u32,
    pub alleles: Seq<Seq<u8>>,
    pub info: Seq<(usize, Seq<i32>)>,
    pub format: Seq<(usize, Seq<Seq<i32>>)>,
}

/// A record together with the header its ids are read against.
pub struct RecordModel {
    pub header: HeaderModel,
    pub body: BodyModel,
}

/// Every key of `fs` is a field declared in `domain` by `h`.
pub open spec fn keys_declared<V>(h: HeaderModel, domain: FieldDomain, fs: Seq<(usize, V)>) -> bool {
    forall|i: int| 0 <= i < fs.len() ==> h.declared(domain, #[trigger] fs[i].0 as int)
}

/// No key occurs twice in `fs`.
pub open spec fn keys_unique<V>(fs: Seq<(usize, V)>) -> bool {
    forall|i: int, j: int| 0 <= i < j < fs.len() ==> (#[trigger] fs[i]).0 != (#[trigger] fs[j]).0
}

/// Every field of `fs` holds the same number of per-sample values.
pub open spec fn uniform_samples(fs: Seq<(usize, Seq<Seq<i32>>)>) -> bool {
    forall|i: int, j: int| 0 <= i < fs.len() && 0 <= j < fs.len() ==> (#[trigger] fs[i]).1.len() == (#[trigger] fs[j]).1.len()
}

/// Every field of `fs` but the one at `skip` holds `n` per-sample values.
pub open spec fn others_hold(fs: Seq<(usize, Seq<Seq<i32>>)>, skip: Option<int>, n: int) -> bool {
    forall|i: int| 0 <= i < fs.len() && skip != Some(i) ==> (#[trigger] fs[i]).1.len() == n
}

/// The ids of `b` are all valid against `h`, no field occurs twice, and all
/// FORMAT fields hold the same number of samples.
pub open spec fn valid_body(h: HeaderModel, b: BodyModel) -> bool {
    &&& b.rid < h.contigs.len()
    &&& keys_declared(h, FieldDomain::Info, b.info)
    &&& keys_declared(h, FieldDomain::Format, b.format)
    &&& keys_unique(b.info)
    &&& keys_unique(b.format)
    &&& uniform_samples(b.format)
}

impl RecordModel {
    pub open spec fn wf(self) -> bool {
        self.header.wf() && valid_body(self.header, self.body)
    }
}

/// What a record holds apart from its header binding: its contig id, its
/// 0-based position, its quality (as a single-precision bit pattern), its
/// alleles, and its INFO and FORMAT fields.
pub struct RecordBody {
    pub rid: usize,
    pub pos: u32,
    pub qual: u32,
    pub alleles: Vec<Vec<u8>>,
    pub info: Vec<InfoField>,
    pub format: Vec<FormatField>,
}

impl View for RecordBody {
    type V = BodyModel;

    open spec fn view(&self) -> BodyModel {
        BodyModel {
            rid: self.rid,
            pos: self.pos,
            qual: self.qual,
            alleles: self.alleles@.map_values(|a: Vec<u8>| a@),
            info: self.info@.map_values(|f: InfoField| f@),
            format: self.format@.map_values(|f: FormatField| f@),
        }
    }
}

/// A variant record, bound to the header whose ids it uses.
pub struct Record {
    header: HeaderView,
    body: RecordBody,
}

impl View for Record {
    type V = RecordModel;

    closed spec fn view(&self) -> RecordModel {
        RecordModel { header: self.header@, body: self.body@ }
    }
}

/// Copies the per-sample values of a field.
fn copy_samples(v: &Vec<Vec<i32>>) -> (r: Vec<Vec<i32>>)
    ensures
        samples_view(r@) == samples_view(v@),
{
    let mut r: Vec<Vec<i32>> = Vec::with_capacity(v.len());
    let mut i: usize = 0;
    while i < v.len()
        invariant
            i <= v@.len(),
            r@.len() == i,
            samples_view(r@) == samples_view(v@).subrange(0, i as int),
        decreases v.len() - i,
    {
        let c = copy_vec(&v[i]);
        let ghost before = r@;
        r.push(c);
        proof {
            assert(r@ == before.push(c));
            assert(c@ == samples_view(v@)[i as int]);
            assert(samples_view(before) == samples_view(v@).subrange(0, i as int));
            assert forall|k: int| 0 <= k < i + 1 implies samples_view(r@)[k] == samples_view(v@)[k] by {
                if k < i {
                    assert(samples_view(before)[k] == samples_view(v@).subrange(0, i as int)[k]);
                    assert(r@[k] == before[k]);
                }
            }
            assert(samples_view(r@) =~= samples_view(v@).subrange(0, i + 1));
        }
        i += 1;
    }
    assert(samples_view(v@).subrange(0, i as int) =~= samples_view(v@));
    r
}

/// The index of the first field of `fs` with key `k`.
pub open spec fn key_index<V>(fs: Seq<(usize, V)>, k: usize) -> Option<int>
    decreases fs.len(),
{
    if fs.len() == 0 {
        None
    } else {
        match key_index(fs.drop_last(), k) {
            Some(i) => Some(i),
            None => if fs.last().0 == k { Some(fs.len() - 1) } else { None },
        }
    }
}

proof fn lemma_key_index_prefix<V>(fs: Seq<(usize, V)>, k: usize, n: int)
    requires
        0 <= n <= fs.len(),
        key_index(fs.subrange(0, n), k) is Some,
    ensures
        key_index(fs, k) == key_index(fs.subrange(0, n), k),
    decreases fs.len() - n,
{
    if n < fs.len() {
        let p = fs.subrange(0, n + 1);
        assert(p.drop_last() =~= fs.subrange(0, n));
        lemma_key_index_prefix(fs, k, n + 1);
    } else {
        assert(fs.subrange(0, n) =~= fs);
    }
}

proof fn lemma_key_index_range<V>(fs: Seq<(usize, V)>, k: usize)
    ensures
        key_index(fs, k) matches Some(i) ==> 0 <= i < fs.len() && fs[i].0 == k,
        key_index(fs, k) is None ==> forall|i: int| 0 <= i < fs.len() ==> fs[i].0 != k,
    decreases fs.len(),
{
    if fs.len() > 0 {
        lemma_key_index_range(fs.drop_last(), k);
        assert forall|i: int| 0 <= i < fs.len() - 1 implies fs.drop_last()[i] == fs[i] by {}
    }
}

/// Finds the first field with key `k`.
fn find_key_exec<V>(keys: &Vec<usize>, k: usize, fs: Ghost<Seq<(usize, V)>>) -> (r: Option<usize>)
    requires
        keys@.len() == fs@.len(),
        forall|i: int| 0 <= i < keys@.len() ==> keys@[i] == (#[trigger] fs@[i]).0,
    ensures
        r matches Some(i) ==> key_index(fs@, k) == Some(i as int),
        r is None ==> key_index(fs@, k) is None,
{
    let mut i: usize = 0;
    while i < keys.len()
        invariant
            i <= keys@.len(),
            keys@.len() == fs@.len(),
            forall|j: int| 0 <= j < keys@.len() ==> keys@[j] == (#[trigger] fs@[j]).0,
            key_index(fs@.subrange(0, i as int), k) is None,
        decreases keys.len() - i,
    {
        let ghost p = fs@.subrange(0, i + 1);
        assert(p.drop_last() =~= fs@.subrange(0, i as int));
        if keys[i] == k {
            proof {
                lemma_key_index_prefix(fs@, k, i + 1);
            }
            return Some(i);
        }
        i += 1;
    }
    assert(fs@.subrange(0, i as int) =~= fs@);
    None
}

/// No value occurs twice in `keys`.
fn distinct_exec(keys: &Vec<usize>) -> (r: bool)
    ensures
        r == (forall|i: int, j: int| 0 <= i < j < keys@.len() ==> keys@[i] != keys@[j]),
{
    let mut j: usize = 0;
    while j < keys.len()
        invariant
            j <= keys@.len(),
            forall|a: int, b: int| 0 <= a < b < j ==> keys@[a] != keys@[b],
        decreases keys.len() - j,
    {
        let mut i: usize = 0;
        while i < j
            invariant
                i <= j < keys@.len(),
                forall|a: int, b: int| 0 <= a < b < j ==> keys@[a] != keys@[b],
                forall|a: int| 0 <= a < i ==> keys@[a] != keys@[j as int],
            decreases j - i,
        {
            if keys[i] == keys[j] {
                return false;
            }
            i += 1;
        }
        j += 1;
    }
    true
}

/// The ids of `b` are checked against `h`.
pub fn valid_body_exec(h: &HeaderView, b: &RecordBody) -> (r: bool)
    requires
        h@.wf(),
    ensures
        r == valid_body(h@, b@),
{
    let hd = h.inner();
    if b.rid >= hd.contig_count() {
        return false;
    }
    let mut i: usize = 0;
    while i < b.info.len()
        invariant
            hd@ == h@,
            h@.wf(),
            i <= b.info@.len(),
            forall|j: int| 0 <= j < i ==> h@.declared(FieldDomain::Info, #[trigger] b@.info[j].0 as int),
        decreases b.info.len() - i,
    {
        if !hd.is_declared(FieldDomain::Info, b.info[i].key) {
            assert(!h@.declared(FieldDomain::Info, b@.info[i as int].0 as int));
            return false;
        }
        i += 1;
    }
    let mut i: usize = 0;
    while i < b.format.len()
        invariant
            hd@ == h@,
            h@.wf(),
            i <= b.format@.len(),
            forall|j: int| 0 <= j < i ==> h@.declared(FieldDomain::Format, #[trigger] b@.format[j].0 as int),
        decreases b.format.len() - i,
    {
        if !hd.is_declared(FieldDomain::Format, b.format[i].key) {
            assert(!h@.declared(FieldDomain::Format, b@.format[i as int].0 as int));
            return false;
        }
        i += 1;
    }
    let info_keys = b.info_keys();
    if !distinct_exec(&info_keys) {
        assert(!keys_unique(b@.info)) by {
            let (x, y) = choose|x: int, y: int| 0 <= x < y < info_keys@.len() && info_keys@[x] == info_keys@[y];
            assert(b@.info[x].0 == b@.info[y].0);
        }
        return false;
    }
    let format_keys = b.format_keys();
    if !distinct_exec(&format_keys) {
        assert(!keys_unique(b@.format)) by {
            let (x, y) = choose|x: int, y: int| 0 <= x < y < format_keys@.len() && format_keys@[x] == format_keys@[y];
            assert(b@.format[x].0 == b@.format[y].0);
        }
        return false;
    }
    if b.format.len() > 0 {
        let n = b.format[0].values.len();
        let mut i: usize = 0;
        while i < b.format.len()
            invariant
                b@.format.len() > 0,
                n == b@.format[0].1.len(),
                i <= b@.format.len(),
                forall|j: int| 0 <= j < i ==> (#[trigger] b@.format[j]).1.len() == n,
            decreases b.format.len() - i,
        {
            if b.format[i].values.len() != n {
                assert(b@.format[i as int].1.len() != b@.format[0].1.len());
                return false;
            }
            i += 1;
        }
    }
    assert(keys_unique(b@.info)) by {
        assert forall|x: int, y: int| 0 <= x < y < b@.info.len() implies (#[trigger] b@.info[x]).0 != (#[trigger] b@.info[y]).0 by {
            assert(info_keys@[x] != info_keys@[y]);
        }
    }
    assert(keys_unique(b@.format)) by {
        assert forall|x: int, y: int| 0 <= x < y < b@.format.len() implies (#[trigger] b@.format[x]).0 != (#[trigger] b@.format[y]).0 by {
            assert(format_keys@[x] != format_keys@[y]);
        }
    }
    true
}

/// Copies a list of byte strings.
fn copy_names(v: &Vec<Vec<u8>>) -> (r: Vec<Vec<u8>>)
    ensures
        r@.map_values(|a: Vec<u8>| a@) == v@.map_values(|a: Vec<u8>| a@),
{
    let mut r: Vec<Vec<u8>> = Vec::with_capacity(v.len());
    let mut i: usize = 0;
    while i < v.len()
        invariant
            i <= v@.len(),
            r@.len() == i,
            forall|k: int| 0 <= k < i ==> (#[trigger] r@[k])@ == v@[k]@,
        decreases v.len() - i,
    {
        r.push(copy_vec(&v[i]));
        i += 1;
    }
    assert(r@.map_values(|a: Vec<u8>| a@) =~= v@.map_values(|a: Vec<u8>| a@));
    r
}

impl RecordBody {
    /// An independent copy.
    pub fn duplicate(&self) -> (r: RecordBody)
        ensures
            r@ == self@,
    {
        let mut info: Vec<InfoField> = Vec::with_capacity(self.info.len());
        let mut i: usize = 0;
        while i < self.info.len()
            invariant
                i <= self.info@.len(),
                info@.len() == i,
                forall|k: int| 0 <= k < i ==> (#[trigger] info@[k])@ == self.info@[k]@,
            decreases self.info.len() - i,
        {
            info.push(InfoField { key: self.info[i].key, values: copy_vec(&self.info[i].values) });
            i += 1;
        }
        let mut format: Vec<FormatField> = Vec::with_capacity(self.format.len());
        let mut i: usize = 0;
        while i < self.format.len()
            invariant
                i <= self.format@.len(),
                format@.len() == i,
                forall|k: int| 0 <= k < i ==> (#[trigger] format@[k])@ == self.format@[k]@,
            decreases self.format.len() - i,
        {
            format.push(FormatField { key: self.format[i].key, values: copy_samples(&self.format[i].values) });
            i += 1;
        }
        let r = RecordBody {
            rid: self.rid,
            pos: self.pos,
            qual: self.qual,
            alleles: copy_names(&self.alleles),
            info,
            format,
        };
        assert(r@.info =~= self@.info);
        assert(r@.format =~= self@.format);
        r
    }
}

impl RecordBody {
    /// The keys of the INFO fields, in order.
    fn info_keys(&self) -> (r: Vec<usize>)
        ensures
            r@.len() == self@.info.len(),
            forall|j: int| 0 <= j < r@.len() ==> r@[j] == (#[trigger] self@.info[j]).0,
    {
        let mut keys: Vec<usize> = Vec::with_capacity(self.info.len());
        let mut i: usize = 0;
        while i < self.info.len()
            invariant
                i <= self@.info.len(),
                keys@.len() == i,
                forall|j: int| 0 <= j < i ==> keys@[j] == (#[trigger] self@.info[j]).0,
            decreases self.info.len() - i,
        {
            keys.push(self.info[i].key);
            i += 1;
        }
        keys
    }

    /// The keys of the FORMAT fields, in order.
    fn format_keys(&self) -> (r: Vec<usize>)
        ensures
            r@.len() == self@.format.len(),
            forall|j: int| 0 <= j < r@.len() ==> r@[j] == (#[trigger] self@.format[j]).0,
    {
        let mut keys: Vec<usize> = Vec::with_capacity(self.format.len());
        let mut i: usize = 0;
        while i < self.format.len()
            invariant
                i <= self@.format.len(),
                keys@.len() == i,
                forall|j: int| 0 <= j < i ==> keys@[j] == (#[trigger] self@.format[j]).0,
            decreases self.format.len() - i,
        {
            keys.push(self.format[i].key);
            i += 1;
        }
        keys
    }
}

/// `fs` with the value of field `k` set to `v`: the first field with key
/// `k` is replaced, or a new one appended.
pub open spec fn with_field<V>(fs: Seq<(usize, V)>, k: usize, v: V) -> Seq<(usize, V)> {
    match key_index(fs, k) {
        Some(i) => fs.update(i, (k, v)),
        None => fs.push((k, v)),
    }
}

impl Record {
    /// Binds `body` to `header`; `None` where its ids are not valid there.
    pub fn bind(header: &HeaderView, body: RecordBody) -> (r: Option<Record>)
        requires
            header@.wf(),
        ensures
            valid_body(header@, body@) <==> r is Some,
            r matches Some(rec) ==> rec@ == (RecordModel { header: header@, body: body@ }),
    {
        if valid_body_exec(header, &body) {
            Some(Record { header: header.duplicate(), body })
        } else {
            None
        }
    }

    /// A record on contig `rid` at `pos`, with no alleles and no fields.
    pub fn new(header: &HeaderView, rid: usize, pos: u32) -> (r: Result<Record, RecordError>)
        requires
            header@.wf(),
        ensures
            rid >= header@.contigs.len() <==> r == Err::<Record, RecordError>(RecordError::UnknownContig),
            rid < header@.contigs.len() ==> r is Ok,
            r matches Ok(rec) ==> rec@.wf() && rec@.header == header@ && rec@.body == (BodyModel {
                rid,
                pos,
                qual: 0,
                alleles: Seq::empty(),
                info: Seq::empty(),
                format: Seq::empty(),
            }),
    {
        if rid >= header.inner().contig_count() {
            return Err(RecordError::UnknownContig);
        }
        let body = RecordBody { rid, pos, qual: 0, alleles: Vec::new(), info: Vec::new(), format: Vec::new() };
        let r = Record { header: header.duplicate(), body };
        assert(r@.body.alleles =~= Seq::<Seq<u8>>::empty());
        assert(r@.body.info =~= Seq::<(usize, Seq<i32>)>::empty());
        assert(r@.body.format =~= Seq::<(usize, Seq<Seq<i32>>)>::empty());
        Ok(r)
    }

    pub fn header(&self) -> (r: &HeaderView)
        ensures
            r@ == self@.header,
    {
        &self.header
    }

    pub fn body(&self) -> (r: &RecordBody)
        ensures
            r@ == self@.body,
    {
        &self.body
    }

    pub fn rid(&self) -> (r: usize)
        ensures
            r == self@.body.rid,
    {
        self.body.rid
    }

    pub fn pos(&self) -> (r: u32)
        ensures
            r == self@.body.pos,
    {
        self.body.pos
    }

    /// The quality, as the bit pattern of a single-precision real.
    pub fn qual(&self) -> (r: u32)
        ensures
            r == self@.body.qual,
    {
        self.body.qual
    }

    pub fn set_pos(&mut self, pos: u32)
        ensures
            final(self)@ == (RecordModel { body: BodyModel { pos, ..old(self)@.body }, ..old(self)@ }),
    {
        self.body.pos = pos;
    }

    pub fn set_qual(&mut self, qual: u32)
        ensures
            final(self)@ == (RecordModel { body: BodyModel { qual, ..old(self)@.body }, ..old(self)@ }),
    {
        self.body.qual = qual;
    }

    pub fn alleles(&self) -> (r: Vec<Vec<u8>>)
        ensures
            r@.map_values(|a: Vec<u8>| a@) == self@.body.alleles,
    {
        copy_names(&self.body.alleles)
    }

    pub fn set_alleles(&mut self, alleles: &[&[u8]])
        ensures
            final(self)@ == (RecordModel {
                body: BodyModel { alleles: alleles@.map_values(|a: &[u8]| a@), ..old(self)@.body },
                ..old(self)@
            }),
    {
        let mut v: Vec<Vec<u8>> = Vec::with_capacity(alleles.len());
        let mut i: usize = 0;
        while i < alleles.len()
            invariant
                i <= alleles@.len(),
                v@.len() == i,
                forall|k: int| 0 <= k < i ==> (#[trigger] v@[k])@ == alleles@[k]@,
            decreases alleles.len() - i,
        {
            v.push(bytes_of(alleles[i]));
            i += 1;
        }
        self.body.alleles = v;
        assert(self@.body.alleles =~= alleles@.map_values(|a: &[u8]| a@));
    }

    /// Sets the values of INFO field `tag`, which the bound header must
    /// declare.
    pub fn push_info(&mut self, tag: &[u8], values: Vec<i32>) -> (r: Result<(), RecordError>)
        requires
            old(self)@.wf(),
        ensures
            final(self)@.wf(),
            old(self)@.header.field_id(FieldDomain::Info, tag@) is None
                <==> r == Err::<(), RecordError>(RecordError::UnknownField),
            old(self)@.header.field_id(FieldDomain::Info, tag@) is Some ==> r is Ok,
            r is Err ==> final(self)@ == old(self)@,
            old(self)@.header.field_id(FieldDomain::Info, tag@) matches Some(k) ==> final(self)@ == (RecordModel {
                body: BodyModel { info: with_field(old(self)@.body.info, k as usize, values@), ..old(self)@.body },
                ..old(self)@
            }),
    {
        let k = match self.header.inner().field_id(FieldDomain::Info, tag) {
            None => return Err(RecordError::UnknownField),
            Some(k) => k,
        };
        let keys = self.body.info_keys();
        proof {
            lemma_key_index_range(self@.body.info, k);
            lemma_lookup_found(self@.header.fields, tag@);
        }
        let ghost vv = values@;
        let field = InfoField { key: k, values };
        match find_key_exec::<Seq<i32>>(&keys, k, Ghost(self@.body.info)) {
            Some(i) => self.body.info.set(i, field),
            None => self.body.info.push(field),
        }
        assert(self@.body.info =~= with_field(old(self)@.body.info, k, vv));
        Ok(())
    }

    /// Sets the per-sample values of FORMAT field `tag`, which the bound
    /// header must declare.
    pub fn push_format(&mut self, tag: &[u8], values: Vec<Vec<i32>>) -> (r: Result<(), RecordError>)
        requires
            old(self)@.wf(),
        ensures
            final(self)@.wf(),
            old(self)@.header.field_id(FieldDomain::Format, tag@) is None
                <==> r == Err::<(), RecordError>(RecordError::UnknownField),
            old(self)@.header.field_id(FieldDomain::Format, tag@) matches Some(k) ==> {
                let others = others_hold(old(self)@.body.format, key_index(old(self)@.body.format, k as usize), values@.len() as int);
                &&& others <==> r is Ok
                &&& !others <==> r == Err::<(), RecordError>(RecordError::SampleCountMismatch)
            },
            r is Err ==> final(self)@ == old(self)@,
            r is Ok ==> (old(self)@.header.field_id(FieldDomain::Format, tag@) matches Some(k) && final(self)@ == (RecordModel {
                body: BodyModel {
                    format: with_field(old(self)@.body.format, k as usize, samples_view(values@)),
                    ..old(self)@.body
                },
                ..old(self)@
            })),
    {
        let k = match self.header.inner().field_id(FieldDomain::Format, tag) {
            None => return Err(RecordError::UnknownField),
            Some(k) => k,
        };
        let keys = self.body.format_keys();
        proof {
            lemma_key_index_range(self@.body.format, k);
            lemma_lookup_found(self@.header.fields, tag@);
        }
        let ghost vv = samples_view(values@);
        let found = find_key_exec::<Seq<Seq<i32>>>(&keys, k, Ghost(self@.body.format));
        let ghost skip: Option<int> = match found {
            Some(i) => Some(i as int),
            None => None,
        };
        assert(old(self)@.header.field_id(FieldDomain::Format, tag@) == Some(k as int));
        let mut j: usize = 0;
        while j < self.body.format.len()
            invariant
                self@ == old(self)@,
                old(self)@.header.field_id(FieldDomain::Format, tag@) == Some(k as int),
                self@.wf(),
                j <= self@.body.format.len(),
                skip == key_index(self@.body.format, k),
                found matches Some(i) ==> skip == Some(i as int),
                found is None ==> skip is None,
                forall|x: int| 0 <= x < j && skip != Some(x) ==> (#[trigger] self@.body.format[x]).1.len() == values@.len(),
            decreases self.body.format.len() - j,
        {
            let is_skip = match found {
                Some(i) => i == j,
                None => false,
            };
            if !is_skip && self.body.format[j].values.len() != values.len() {
                assert(self@.body.format[j as int].1.len() != values@.len());
                assert(skip != Some(j as int));
                assert(!others_hold(old(self)@.body.format, skip, values@.len() as int));
                return Err(RecordError::SampleCountMismatch);
            }
            j += 1;
        }
        proof {
            let nf = with_field(old(self)@.body.format, k, vv);
            assert forall|x: int, y: int| 0 <= x < nf.len() && 0 <= y < nf.len()
                implies (#[trigger] nf[x]).1.len() == (#[trigger] nf[y]).1.len() by {
                assert(vv.len() == values@.len());
            }
        }
        let field = FormatField { key: k, values };
        match found {
            Some(i) => self.body.format.set(i, field),
            None => self.body.format.push(field),
        }
        assert(self@.body.format =~= with_field(old(self)@.body.format, k, vv));
        Ok(())
    }

    /// The values of INFO field `tag`, where the record has it.
    pub fn info(&self, tag: &[u8]) -> (r: Option<Vec<i32>>)
        requires
            self@.wf(),
        ensures
            r is Some <==> (self@.header.field_id(FieldDomain::Info, tag@) matches Some(k)
                && key_index(self@.body.info, k as usize) is Some),
            r matches Some(v) ==> v@ == self@.body.info[
                key_index(self@.body.info, self@.header.field_id(FieldDomain::Info, tag@).unwrap() as usize).unwrap()].1,
    {
        let k = match self.header.inner().field_id(FieldDomain::Info, tag) {
            None => return None,
            Some(k) => k,
        };
        let keys = self.body.info_keys();
        proof {
            lemma_key_index_range(self@.body.info, k);
        }
        match find_key_exec::<Seq<i32>>(&keys, k, Ghost(self@.body.info)) {
            Some(i) => Some(copy_vec(&self.body.info[i].values)),
            None => None,
        }
    }

    /// The per-sample values of FORMAT field `tag`, where the record has it.
    pub fn format(&self, tag: &[u8]) -> (r: Option<Vec<Vec<i32>>>)
        requires
            self@.wf(),
        ensures
            r is Some <==> (self@.header.field_id(FieldDomain::Format, tag@) matches Some(k)
                && key_index(self@.body.format, k as usize) is Some),
            r matches Some(v) ==> samples_view(v@) == self@.body.format[
                key_index(self@.body.format, self@.header.field_id(FieldDomain::Format, tag@).unwrap() as usize).unwrap()].1,
    {
        let k = match self.header.inner().field_id(FieldDomain::Format, tag) {
            None => return None,
            Some(k) => k,
        };
        let keys = self.body.format_keys();
        proof {
            lemma_key_index_range(self@.body.format, k);
        }
        match find_key_exec::<Seq<Seq<i32>>>(&keys, k, Ghost(self@.body.format)) {
            Some(i) => Some(copy_samples(&self.body.format[i].values)),
            None => None,
        }
    }
}

} // verus!
