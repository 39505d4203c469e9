use vstd::prelude::*;
use crate::dictionary::lemma_lookup_at;
use crate::header::{FieldDomain, Header, HeaderModel, HeaderView};
use crate::record::translate::{lemma_map_fields_identity, lemma_map_fields_same_dictionaries};
use crate::record::subset::lemma_identity_subset;
use crate::record::{
    BodyModel, Record, RecordBody, RecordError, RecordModel, translated, subsetted, subset_fits, valid_body,
};

verus! {

/// Why reading a record gave none.
#[derive(Debug, Clone, Copy, PartialEq, Eq, Structural)]
pub enum ReadError {
    /// The stored record's ids are not valid against the reader's header.
    Invalid,
    /// The stream is exhausted.
    NoMoreRecord,
}

/// The ghost view of a record store.
pub open spec fn store_view(s: Seq<RecordBody>) -> Seq<BodyModel> {
    s.map_values(|b: RecordBody| b@)
}

/// Sequential access to stored records, each bound to the reader's header
/// as it is read.
pub struct Reader {
    store: Vec<RecordBody>,
    next: usize,
    header: HeaderView,
}

impl Reader {
    /// The reader's header.
    pub closed spec fn hdr(&self) -> HeaderModel {
        self.header@
    }

    pub fn header(&self) -> (r: &HeaderView)
        ensures
            r@ == self.hdr(),
    {
        &self.header
    }

    /// The stored records, in order.
    pub closed spec fn stored(&self) -> Seq<BodyModel> {
        store_view(self.store@)
    }

    /// How many records have been read.
    pub closed spec fn cursor(&self) -> int {
        self.next as int
    }

    /// A reader over `store`, positioned at its first record.
    pub fn new(header: HeaderView, store: Vec<RecordBody>) -> (r: Self)
        ensures
            r.hdr() == header@,
            r.stored() == store_view(store@),
            r.cursor() == 0,
    {
        Reader { store, next: 0, header }
    }

    /// Reads the next record, bound to this reader's header.
    pub fn read_record(&mut self) -> (r: Result<Record, ReadError>)
        requires
            old(self).hdr().wf(),
        ensures
            final(self).hdr() == old(self).hdr(),
            final(self).stored() == old(self).stored(),
            old(self).cursor() >= old(self).stored().len() ==> r == Err::<Record, ReadError>(ReadError::NoMoreRecord)
                && final(self).cursor() == old(self).cursor(),
            old(self).cursor() < old(self).stored().len() ==> final(self).cursor() == old(self).cursor() + 1 && {
                let b = old(self).stored()[old(self).cursor()];
                &&& valid_body(old(self).hdr(), b) ==> (r matches Ok(rec)
                    && rec@ == (RecordModel { header: old(self).hdr(), body: b }))
                &&& !valid_body(old(self).hdr(), b) ==> r == Err::<Record, ReadError>(ReadError::Invalid)
            },
    {
        if self.next >= self.store.len() {
            return Err(ReadError::NoMoreRecord);
        }
        let body = self.store[self.next].duplicate();
        self.next = self.next + 1;
        match Record::bind(&self.header, body) {
            Some(rec) => Ok(rec),
            None => Err(ReadError::Invalid),
        }
    }

    /// Reads the next record into `record`, which is left as it was where
    /// none is read.
    pub fn read(&mut self, record: &mut Record) -> (r: Result<(), ReadError>)
        requires
            old(self).hdr().wf(),
        ensures
            final(self).hdr() == old(self).hdr(),
            final(self).stored() == old(self).stored(),
            old(self).cursor() >= old(self).stored().len() ==> r == Err::<(), ReadError>(ReadError::NoMoreRecord)
                && final(self).cursor() == old(self).cursor(),
            old(self).cursor() < old(self).stored().len() ==> final(self).cursor() == old(self).cursor() + 1 && {
                let b = old(self).stored()[old(self).cursor()];
                &&& valid_body(old(self).hdr(), b) ==> r is Ok
                    && final(record)@ == (RecordModel { header: old(self).hdr(), body: b })
                &&& !valid_body(old(self).hdr(), b) ==> r == Err::<(), ReadError>(ReadError::Invalid)
            },
            r is Err ==> final(record)@ == old(record)@,
    {
        match self.read_record() {
            Ok(rec) => {
                *record = rec;
                Ok(())
            },
            Err(e) => Err(e),
        }
    }

    /// The remaining records of this reader, one at a time.
    pub fn records(self) -> (r: Records)
        ensures
            r.reader == self,
    {
        Records { reader: self }
    }
}

/// The records of a reader, read one at a time.
pub struct Records {
    pub reader: Reader,
}

impl Records {
    /// The next record, an error for a stored record that is not valid, or
    /// `None` at the end of the stream.
    pub fn next(&mut self) -> (r: Option<Result<Record, ReadError>>)
        requires
            old(self).reader.hdr().wf(),
        ensures
            final(self).reader.hdr() == old(self).reader.hdr(),
            final(self).reader.stored() == old(self).reader.stored(),
            old(self).reader.cursor() >= old(self).reader.stored().len() <==> r is None,
            old(self).reader.cursor() < old(self).reader.stored().len() ==> {
                let b = old(self).reader.stored()[old(self).reader.cursor()];
                &&& final(self).reader.cursor() == old(self).reader.cursor() + 1
                &&& valid_body(old(self).reader.hdr(), b) ==> (r matches Some(Ok(rec))
                    && rec@ == (RecordModel { header: old(self).reader.hdr(), body: b }))
                &&& !valid_body(old(self).reader.hdr(), b) ==> r == Some(Err::<Record, ReadError>(ReadError::Invalid))
            },
    {
        match self.reader.read_record() {
            Err(ReadError::NoMoreRecord) => None,
            Err(e) => Some(Err(e)),
            Ok(rec) => Some(Ok(rec)),
        }
    }
}

/// The storage layout a writer produces.
#[derive(Debug, Clone, Copy, PartialEq, Eq, Structural)]
pub enum WriteMode {
    /// Uncompressed text.
    Text,
    /// Compressed text.
    CompressedText,
    /// Uncompressed binary.
    Binary,
    /// Compressed binary.
    CompressedBinary,
}

/// The layout for the given choice of compression and of text output.
pub open spec fn mode_for(uncompressed: bool, vcf: bool) -> WriteMode {
    match (uncompressed, vcf) {
        (true, true) => WriteMode::Text,
        (false, true) => WriteMode::CompressedText,
        (true, false) => WriteMode::Binary,
        (false, false) => WriteMode::CompressedBinary,
    }
}

impl WriteMode {
    /// The layout for the given choice of compression and of text output.
    pub fn select(uncompressed: bool, vcf: bool) -> (r: WriteMode)
        ensures
            r == mode_for(uncompressed, vcf),
    {
        match (uncompressed, vcf) {
            (true, true) => WriteMode::Text,
            (false, true) => WriteMode::CompressedText,
            (true, false) => WriteMode::Binary,
            (false, false) => WriteMode::CompressedBinary,
        }
    }
}

/// Accepts records bound to its own copy of a header, optionally translating
/// and subsetting them first, and stores them in order.
pub struct Writer {
    store: Vec<RecordBody>,
    pub header: HeaderView,
    mode: WriteMode,
}

impl Writer {
    /// The writer's own header.
    pub closed spec fn hdr(&self) -> HeaderModel {
        self.header@
    }

    pub closed spec fn mode(&self) -> WriteMode {
        self.mode
    }

    pub fn header(&self) -> (r: &HeaderView)
        ensures
            r@ == self.hdr(),
    {
        &self.header
    }

    /// The storage layout chosen at construction.
    pub fn write_mode(&self) -> (r: WriteMode)
        ensures
            r == self.mode(),
    {
        self.mode
    }

    /// The records written so far, in order.
    pub closed spec fn stored(&self) -> Seq<BodyModel> {
        store_view(self.store@)
    }

    /// The subset map of the writer's header: for each of its samples, the
    /// source sample that fills it.
    pub open spec fn subset_map(&self) -> Option<Seq<usize>> {
        self.hdr().subset
    }

    /// A writer that owns a copy of `header`, subset map included.
    pub fn new(header: &Header, uncompressed: bool, vcf: bool) -> (r: Self)
        ensures
            r.hdr() == header@,
            r.subset_map() == header@.subset,
            r.stored() == Seq::<BodyModel>::empty(),
            r.mode() == mode_for(uncompressed, vcf),
    {
        let copy = header.duplicate();
        let w = Writer {
            store: Vec::new(),
            header: HeaderView::new(copy),
            mode: WriteMode::select(uncompressed, vcf),
        };
        assert(w.stored() =~= Seq::<BodyModel>::empty());
        w
    }

    /// Translates `record` to this writer's header (see `Record::translate`).
    pub fn translate(&mut self, record: &mut Record) -> (r: Result<(), RecordError>)
        requires
            old(record)@.wf(),
            old(self).hdr().wf(),
        ensures
            *final(self) == *old(self),
            final(record)@.wf(),
            translated(old(record)@, old(self).hdr()) is None
                ==> r == Err::<(), RecordError>(RecordError::UnknownContig) && final(record)@ == old(record)@,
            translated(old(record)@, old(self).hdr()) matches Some(t) ==> r is Ok && final(record)@ == t,
    {
        record.translate(&self.header)
    }

    /// Keeps in `record` only the samples of this writer's subset map, in its
    /// order; does nothing where the writer has no subset map.
    pub fn subset(&mut self, record: &mut Record) -> (r: Result<(), RecordError>)
        requires
            old(record)@.wf(),
        ensures
            *final(self) == *old(self),
            final(record)@.wf(),
            old(self).subset_map() is None ==> r is Ok && final(record)@ == old(record)@,
            old(self).subset_map() matches Some(m) ==> {
                &&& old(self).hdr().wf() ==> m.len() <= old(self).hdr().samples.len()
                &&& subset_fits(old(record)@.body.format, m) ==> r is Ok
                    && final(record)@ == subsetted(old(record)@, m)
                &&& !subset_fits(old(record)@.body.format, m)
                    ==> r == Err::<(), RecordError>(RecordError::IndexOutOfRange) && final(record)@ == old(record)@
            },
    {
        match self.header.inner().subset() {
            Some(m) => record.subset(m.as_slice()),
            None => Ok(()),
        }
    }

    /// Stores `record`, which must be bound to this writer's header (run
    /// `translate` and `subset` first); refused where its ids are not valid
    /// against that header.
    pub fn write(&mut self, record: &Record) -> (r: Result<(), ()>)
        requires
            old(self).hdr().wf(),
            record@.header == old(self).hdr(),
        ensures
            final(self).hdr() == old(self).hdr(),
            final(self).subset_map() == old(self).subset_map(),
            valid_body(old(self).hdr(), record@.body) <==> r is Ok,
            r is Ok ==> final(self).stored() == old(self).stored().push(record@.body),
            r is Err ==> final(self).stored() == old(self).stored(),
    {
        if !crate::record::valid_body_exec(&self.header, record.body()) {
            return Err(());
        }
        self.store.push(record.body().duplicate());
        assert(self.stored() =~= old(self).stored().push(record@.body));
        Ok(())
    }

    /// Ends writing and hands over the stored records.
    pub fn finish(self) -> (r: Vec<RecordBody>)
        ensures
            store_view(r@) == self.stored(),
    {
        self.store
    }
}

/// Round trip through a writer on a copy of a record's header: a record
/// valid against `r.header`, translated to the header of a writer built by
/// `Header::with_template` (the same dictionaries, no subset map), keeps its
/// body and becomes bound to that header, which `Writer::write` asks for;
/// the writer accepts it; and a reader with that header reads the stored
/// body back as the same record.
pub proof fn lemma_write_read_round_trip(r: RecordModel)
    requires
        r.wf(),
    ensures
        r.header.without_subset().wf(),
        translated(r, r.header.without_subset())
            == Some(RecordModel { header: r.header.without_subset(), body: r.body }),
        valid_body(r.header.without_subset(), r.body),
{
    let w = r.header.without_subset();
    lemma_lookup_at(r.header.contigs, r.body.rid as int);
    lemma_map_fields_same_dictionaries(r.header, w, FieldDomain::Info, r.body.info);
    lemma_map_fields_same_dictionaries(r.header, w, FieldDomain::Format, r.body.format);
    lemma_map_fields_identity(r.header, FieldDomain::Info, r.body.info);
    lemma_map_fields_identity(r.header, FieldDomain::Format, r.body.format);
}

/// Subsetting to every sample in order changes no record: for a header `s`
/// with the dictionaries of `r.header` and the map `0, 1, ..., n - 1`, where
/// every FORMAT field of `r` holds `n` samples, translating `r` to `s` only
/// rebinds it, and subsetting it with that map leaves it as it is.
pub proof fn lemma_full_subset_pipeline(r: RecordModel, s: HeaderModel, m: Seq<usize>)
    requires
        r.wf(),
        s.contigs == r.header.contigs,
        s.fields == r.header.fields,
        s.info == r.header.info,
        s.format == r.header.format,
        forall|i: int| 0 <= i < m.len() ==> m[i] as int == i,
        forall|f: int| 0 <= f < r.body.format.len() ==> (#[trigger] r.body.format[f]).1.len() == m.len(),
    ensures
        translated(r, s) == Some(RecordModel { header: s, body: r.body }),
        subset_fits(r.body.format, m),
        subsetted(RecordModel { header: s, body: r.body }, m) == (RecordModel { header: s, body: r.body }),
{
    lemma_lookup_at(r.header.contigs, r.body.rid as int);
    lemma_map_fields_same_dictionaries(r.header, s, FieldDomain::Info, r.body.info);
    lemma_map_fields_same_dictionaries(r.header, s, FieldDomain::Format, r.body.format);
    lemma_map_fields_identity(r.header, FieldDomain::Info, r.body.info);
    lemma_map_fields_identity(r.header, FieldDomain::Format, r.body.format);
    lemma_identity_subset(RecordModel { header: s, body: r.body }, m);
}

/// The same for a whole stream: each stored record read through `h`,
/// translated to `s` and subset with the map `0, 1, ..., n - 1`, is written
/// with the body it was read with, so the written stream equals the stored
/// one record for record.
pub proof fn lemma_full_subset_stream(h: HeaderModel, s: HeaderModel, m: Seq<usize>, stored: Seq<BodyModel>)
    requires
        h.wf(),
        s.contigs == h.contigs,
        s.fields == h.fields,
        s.info == h.info,
        s.format == h.format,
        forall|i: int| 0 <= i < m.len() ==> m[i] as int == i,
        forall|k: int| 0 <= k < stored.len() ==> valid_body(h, #[trigger] stored[k]),
        forall|k: int, f: int| 0 <= k < stored.len() && 0 <= f < stored[k].format.len()
            ==> (#[trigger] stored[k].format[f]).1.len() == m.len(),
    ensures
        forall|k: int| 0 <= k < stored.len() ==> {
            let r = RecordModel { header: h, body: #[trigger] stored[k] };
            let t = RecordModel { header: s, body: stored[k] };
            &&& translated(r, s) == Some(t)
            &&& subset_fits(stored[k].format, m)
            &&& subsetted(t, m) == t
        },
{
    assert forall|k: int| 0 <= k < stored.len() implies {
        let r = RecordModel { header: h, body: #[trigger] stored[k] };
        let t = RecordModel { header: s, body: stored[k] };
        &&& translated(r, s) == Some(t)
        &&& subset_fits(stored[k].format, m)
        &&& subsetted(t, m) == t
    } by {
        let r = RecordModel { header: h, body: stored[k] };
        assert forall|f: int| 0 <= f < r.body.format.len() implies (#[trigger] r.body.format[f]).1.len() == m.len() by {
            assert(stored[k].format[f].1.len() == m.len());
        }
        lemma_full_subset_pipeline(r, s, m);
    }
}

} // verus!
