use vstd::prelude::*;
use std::rc::Rc;
use crate::definition::{DefinitionKind, defines, is_other_meta_line, other_meta_line, parse_definition};
use crate::dictionary::{Dictionary, copy_vec, lookup, names_unique, lemma_lookup_at, lemma_lookup_found};

verus! {

/// For each sample of a subset header, the id it had in the header it was
/// derived from.
pub type SampleSubset = Vec<usize>;

/// Why a header operation was refused.
#[derive(Debug, Clone, Copy, PartialEq, Eq, Structural)]
pub enum HeaderError {
    /// A requested sample is not in the template header.
    UnknownSample,
    /// The name is already present in the dictionary.
    DuplicateName,
    /// A definition line that does not follow the declaration grammar.
    MalformedDefinition,
    /// The sample dictionary of a subset could not be built (a name repeats,
    /// or there are more names than 32-bit ids).
    SubsetConstruction,
    /// The sample dictionary is full: its size must fit in 32 bits.
    TooManySamples,
}

/// The field-definition domains of a header.
#[derive(Debug, Clone, Copy, PartialEq, Eq, Structural)]
pub enum FieldDomain {
    Info,
    Format,
}

/// What a header holds: contig, sample and field-definition dictionaries
/// (as name sequences indexed by id), which field ids are declared as INFO
/// and as FORMAT, and the sample subset map, if the header was derived by
/// subsetting.
pub struct HeaderModel {
    pub contigs: Seq<Seq<u8>>,
    pub samples: Seq<Seq<u8>>,
    pub fields: Seq<Seq<u8>>,
    pub info: Seq<bool>,
    pub format: Seq<bool>,
    pub subset: Option<Seq<usize>>,
}

impl HeaderModel {
    pub open spec fn wf(self) -> bool {
        &&& names_unique(self.contigs)
        &&& names_unique(self.samples)
        &&& names_unique(self.fields)
        &&& self.info.len() == self.fields.len()
        &&& self.format.len() == self.fields.len()
        &&& self.samples.len() <= u32::MAX
        &&& self.contigs.len() <= usize::MAX
        &&& self.fields.len() <= usize::MAX
        &&& self.subset matches Some(m) ==> m.len() <= self.samples.len() && ids_distinct(m)
    }

    /// The id of field `name` in `domain`, where it is declared there.
    pub open spec fn field_id(self, domain: FieldDomain, name: Seq<u8>) -> Option<int> {
        match lookup(self.fields, name) {
            Some(i) => if self.declared(domain, i) { Some(i) } else { None },
            None => None,
        }
    }

    /// Field id `i` is declared in `domain`.
    pub open spec fn declared(self, domain: FieldDomain, i: int) -> bool {
        &&& 0 <= i < self.fields.len()
        &&& match domain {
            FieldDomain::Info => self.info[i],
            FieldDomain::Format => self.format[i],
        }
    }

    /// The same dictionaries, without a subset map.
    pub open spec fn without_subset(self) -> HeaderModel {
        HeaderModel { subset: None, ..self }
    }

    /// The subset map for `names`: entry `i` is the id of `names[i]` here.
    pub open spec fn subset_map(self, names: Seq<Seq<u8>>) -> Seq<usize> {
        names.map_values(|n: Seq<u8>| lookup(self.samples, n).unwrap() as usize)
    }

    /// Every name of `names` is a sample here.
    pub open spec fn has_samples(self, names: Seq<Seq<u8>>) -> bool {
        forall|i: int| 0 <= i < names.len() ==> (#[trigger] lookup(self.samples, names[i])) is Some
    }
}

/// No id occurs twice in `m`.
pub open spec fn ids_distinct(m: Seq<usize>) -> bool {
    forall|i: int, j: int| 0 <= i < j < m.len() ==> m[i] != m[j]
}

/// A header: the dictionaries against which records' ids are read.
pub struct Header {
    contigs: Dictionary,
    samples: Dictionary,
    fields: Dictionary,
    info: Vec<bool>,
    format: Vec<bool>,
    subset: Option<SampleSubset>,
}

/// The ghost view of an optional subset map.
pub open spec fn subset_view(s: Option<SampleSubset>) -> Option<Seq<usize>> {
    match s {
        Some(v) => Some(v@),
        None => None,
    }
}

impl View for Header {
    type V = HeaderModel;

    closed spec fn view(&self) -> HeaderModel {
        HeaderModel {
            contigs: self.contigs@,
            samples: self.samples@,
            fields: self.fields@,
            info: self.info@,
            format: self.format@,
            subset: subset_view(self.subset),
        }
    }
}

impl Header {
    /// A header with three empty dictionaries.
    pub fn new() -> (r: Self)
        ensures
            r@.wf(),
            r@.contigs.len() == 0,
            r@.samples.len() == 0,
            r@.fields.len() == 0,
            r@.subset is None,
    {
        Header {
            contigs: Dictionary::new(),
            samples: Dictionary::new(),
            fields: Dictionary::new(),
            info: Vec::new(),
            format: Vec::new(),
            subset: None,
        }
    }

    /// An independent copy of this header, subset map included.
    pub fn duplicate(&self) -> (r: Self)
        ensures
            r@ == self@,
    {
        let subset = match &self.subset {
            Some(m) => Some(copy_vec(m)),
            None => None,
        };
        Header {
            contigs: self.contigs.duplicate(),
            samples: self.samples.duplicate(),
            fields: self.fields.duplicate(),
            info: copy_vec(&self.info),
            format: copy_vec(&self.format),
            subset,
        }
    }

    /// A copy of the template's dictionaries, ids preserved, with no subset map.
    pub fn with_template(header: &HeaderView) -> (r: Self)
        ensures
            r@ == header@.without_subset(),
    {
        let mut r = header.inner().duplicate();
        r.subset = None;
        r
    }

    /// A header with the template's contigs and field definitions whose
    /// samples are `samples`, in the requested order, and whose subset map
    /// gives for each of them its id in the template.
    pub fn subset_template(header: &HeaderView, samples: &[&[u8]]) -> (r: Result<Self, HeaderError>)
        requires
            header@.wf(),
        ensures
            !header@.has_samples(samples@.map_values(|n: &[u8]| n@))
                <==> r == Err::<Self, HeaderError>(HeaderError::UnknownSample),
            header@.has_samples(samples@.map_values(|n: &[u8]| n@))
                && (!names_unique(samples@.map_values(|n: &[u8]| n@)) || samples@.len() > u32::MAX)
                <==> r == Err::<Self, HeaderError>(HeaderError::SubsetConstruction),
            header@.has_samples(samples@.map_values(|n: &[u8]| n@))
                && names_unique(samples@.map_values(|n: &[u8]| n@)) && samples@.len() <= u32::MAX
                ==> r is Ok,
            r matches Ok(h) ==> {
                let names = samples@.map_values(|n: &[u8]| n@);
                &&& h@.wf()
                &&& h@.samples == names
                &&& h@.subset == Some(header@.subset_map(names))
                &&& header@.subset_map(names).len() == samples@.len()
                &&& h@.contigs == header@.contigs
                &&& h@.fields == header@.fields
                &&& h@.info == header@.info
                &&& h@.format == header@.format
            },
    {
        let ghost names = samples@.map_values(|n: &[u8]| n@);
        let template = header.inner();
        let mut imap: Vec<usize> = Vec::with_capacity(samples.len());
        let mut i: usize = 0;
        while i < samples.len()
            invariant
                i <= samples@.len(),
                names == samples@.map_values(|n: &[u8]| n@),
                template@ == header@,
                header@.wf(),
                imap@ == header@.subset_map(names.subrange(0, i as int)),
                forall|k: int| 0 <= k < i ==> (#[trigger] lookup(header@.samples, names[k])) is Some,
            decreases samples.len() - i,
        {
            match template.samples.id_of(samples[i]) {
                Some(id) => {
                    imap.push(id);
                },
                None => {
                    assert(!header@.has_samples(names) && lookup(header@.samples, names[i as int]) is None);
                    return Err(HeaderError::UnknownSample);
                },
            }
            i += 1;
            assert(imap@ =~= header@.subset_map(names.subrange(0, i as int)));
        }
        assert(names.subrange(0, i as int) =~= names);
        assert(header@.has_samples(names));
        if samples.len() > 0xffff_ffff {
            return Err(HeaderError::SubsetConstruction);
        }
        match Dictionary::from_names(samples) {
            None => Err(HeaderError::SubsetConstruction),
            Some(dict) => {
                proof {
                    let m = header@.subset_map(names);
                    assert forall|a: int, b: int| 0 <= a < b < m.len() implies m[a] != m[b] by {
                        assert(lookup(header@.samples, names[a]) is Some);
                        assert(lookup(header@.samples, names[b]) is Some);
                        lemma_lookup_found(header@.samples, names[a]);
                        lemma_lookup_found(header@.samples, names[b]);
                    }
                }
                Ok(Header {
                    contigs: template.contigs.duplicate(),
                    samples: dict,
                    fields: template.fields.duplicate(),
                    info: copy_vec(&template.info),
                    format: copy_vec(&template.format),
                    subset: Some(imap),
                })
            },
        }
    }

    /// Appends a sample under the next id. On a header derived by
    /// subsetting, the subset map keeps covering the samples it was derived
    /// for, which stay first.
    pub fn push_sample(&mut self, sample: &[u8]) -> (r: Result<(), HeaderError>)
        requires
            old(self)@.wf(),
        ensures
            final(self)@.wf(),
            lookup(old(self)@.samples, sample@) is Some
                <==> r == Err::<(), HeaderError>(HeaderError::DuplicateName),
            lookup(old(self)@.samples, sample@) is None && old(self)@.samples.len() == u32::MAX
                <==> r == Err::<(), HeaderError>(HeaderError::TooManySamples),
            lookup(old(self)@.samples, sample@) is None && old(self)@.samples.len() < u32::MAX ==> r is Ok,
            r.is_err() ==> final(self)@ == old(self)@,
            r.is_ok() ==> final(self)@ == old(self)@.with_sample(sample@),
    {
        if self.samples.id_of(sample).is_some() {
            return Err(HeaderError::DuplicateName);
        }
        if self.samples.len() == 0xffff_ffff {
            return Err(HeaderError::TooManySamples);
        }
        let _ = self.samples.push(sample);
        Ok(())
    }

    /// Adds the contig or field that the definition line `record` declares
    /// (`##contig=<ID=...>`, `##INFO=<ID=...>`, `##FORMAT=<ID=...>`).
    /// Meta-information lines of other kinds (`##FILTER=<...>`,
    /// `##fileformat=...`) are accepted and change nothing.
    pub fn push_record(&mut self, record: &[u8]) -> (r: Result<(), HeaderError>)
        requires
            old(self)@.wf(),
        ensures
            final(self)@.wf(),
            (forall|k: DefinitionKind, id: Seq<u8>| !defines(record@, k, id)) && !other_meta_line(record@)
                <==> r == Err::<(), HeaderError>(HeaderError::MalformedDefinition),
            (exists|k: DefinitionKind, id: Seq<u8>| defines(record@, k, id)) ==> r is Ok,
            other_meta_line(record@) ==> r is Ok && final(self)@ == old(self)@,
            r.is_err() ==> final(self)@ == old(self)@,
            forall|k: DefinitionKind, id: Seq<u8>|
                defines(record@, k, id) ==> final(self)@ == old(self)@.declared_with(k, id),
    {
        let (k, id) = match parse_definition(record) {
            None => {
                if is_other_meta_line(record) {
                    return Ok(());
                }
                return Err(HeaderError::MalformedDefinition);
            },
            Some(d) => d,
        };
        proof {
            crate::definition::lemma_defines_not_other(record@, k, id@);
        }
        proof {
            assert forall|k2: DefinitionKind, id2: Seq<u8>| defines(record@, k2, id2) implies k2 == k && id2 == id@ by {
                crate::definition::lemma_unique_definition(record@, k, id@, k2, id2);
            }
        }
        match k {
            DefinitionKind::Contig => {
                let _ = self.contigs.push(id.as_slice());
            },
            DefinitionKind::Info | DefinitionKind::Format => {
                match self.fields.id_of(id.as_slice()) {
                    Some(i) => {
                        if k == DefinitionKind::Info {
                            self.info.set(i, true);
                        } else {
                            self.format.set(i, true);
                        }
                    },
                    None => {
                        let _ = self.fields.push(id.as_slice());
                        self.info.push(k == DefinitionKind::Info);
                        self.format.push(k == DefinitionKind::Format);
                    },
                }
            },
        }
        Ok(())
    }

    /// Takes field `tag` out of the INFO domain; nothing changes where it is
    /// not declared there. Ids are not renumbered.
    pub fn remove_info(&mut self, tag: &[u8])
        requires
            old(self)@.wf(),
        ensures
            final(self)@.wf(),
            final(self)@ == old(self)@.removed(FieldDomain::Info, tag@),
    {
        self.remove_field(FieldDomain::Info, tag)
    }

    /// Takes field `tag` out of the FORMAT domain; nothing changes where it is
    /// not declared there. Ids are not renumbered.
    pub fn remove_format(&mut self, tag: &[u8])
        requires
            old(self)@.wf(),
        ensures
            final(self)@.wf(),
            final(self)@ == old(self)@.removed(FieldDomain::Format, tag@),
    {
        self.remove_field(FieldDomain::Format, tag)
    }

    fn remove_field(&mut self, domain: FieldDomain, tag: &[u8])
        requires
            old(self)@.wf(),
        ensures
            final(self)@.wf(),
            final(self)@ == old(self)@.removed(domain, tag@),
    {
        match self.fields.id_of(tag) {
            None => {},
            Some(id) => {
                match domain {
                    FieldDomain::Info => self.info.set(id, false),
                    FieldDomain::Format => self.format.set(id, false),
                }
            },
        }
    }

    /// A copy of the subset map, where the header was derived by subsetting.
    pub fn subset(&self) -> (r: Option<SampleSubset>)
        ensures
            subset_view(r) == self@.subset,
    {
        match &self.subset {
            Some(m) => Some(copy_vec(m)),
            None => None,
        }
    }

    /// The id of contig `name`.
    pub fn contig_id(&self, name: &[u8]) -> (r: Option<usize>)
        requires
            self@.wf(),
        ensures
            r matches Some(i) ==> lookup(self@.contigs, name@) == Some(i as int),
            r is None ==> lookup(self@.contigs, name@) is None,
    {
        self.contigs.id_of(name)
    }

    /// The id of field `name` in `domain`.
    pub fn field_id(&self, domain: FieldDomain, name: &[u8]) -> (r: Option<usize>)
        requires
            self@.wf(),
        ensures
            r matches Some(i) ==> self@.field_id(domain, name@) == Some(i as int),
            r is None ==> self@.field_id(domain, name@) is None,
    {
        match self.fields.id_of(name) {
            None => None,
            Some(id) => {
                let declared = match domain {
                    FieldDomain::Info => self.info[id],
                    FieldDomain::Format => self.format[id],
                };
                if declared { Some(id) } else { None }
            },
        }
    }

    /// Field id `id` is declared in `domain`.
    pub fn is_declared(&self, domain: FieldDomain, id: usize) -> (r: bool)
        requires
            self@.wf(),
        ensures
            r == self@.declared(domain, id as int),
    {
        if id >= self.fields.len() {
            return false;
        }
        match domain {
            FieldDomain::Info => self.info[id],
            FieldDomain::Format => self.format[id],
        }
    }

    pub fn contig_count(&self) -> (r: usize)
        ensures
            r == self@.contigs.len(),
    {
        self.contigs.len()
    }

    pub fn contig_name(&self, id: usize) -> (r: &Vec<u8>)
        requires
            id < self@.contigs.len(),
        ensures
            r@ == self@.contigs[id as int],
    {
        self.contigs.name(id)
    }

    pub fn field_name(&self, id: usize) -> (r: &Vec<u8>)
        requires
            id < self@.fields.len(),
        ensures
            r@ == self@.fields[id as int],
    {
        self.fields.name(id)
    }

    pub fn sample_names(&self) -> (r: Vec<Vec<u8>>)
        ensures
            r@.map_values(|n: Vec<u8>| n@) == self@.samples,
    {
        let mut r: Vec<Vec<u8>> = Vec::with_capacity(self.samples.len());
        let mut i: usize = 0;
        while i < self.samples.len()
            invariant
                i <= self@.samples.len(),
                r@.map_values(|n: Vec<u8>| n@) == self@.samples.subrange(0, i as int),
            decreases self@.samples.len() - i,
        {
            let c = copy_vec(self.samples.name(i));
            let ghost before = r@;
            r.push(c);
            assert(r@ == before.push(c));
            i += 1;
            assert(r@.map_values(|n: Vec<u8>| n@) =~= self@.samples.subrange(0, i as int)) by {
                assert(before.map_values(|n: Vec<u8>| n@) =~= self@.samples.subrange(0, i - 1));
            }
        }
        assert(self@.samples.subrange(0, i as int) =~= self@.samples);
        r
    }
}

impl HeaderModel {
    /// This header after a definition of kind `k` declaring `id`: a contig
    /// is added where absent; a field is added, or its existing entry
    /// marked, in the definition's domain.
    pub open spec fn declared_with(self, k: DefinitionKind, id: Seq<u8>) -> HeaderModel {
        match k {
            DefinitionKind::Contig => if lookup(self.contigs, id) is Some {
                self
            } else {
                HeaderModel { contigs: self.contigs.push(id), ..self }
            },
            DefinitionKind::Info => match lookup(self.fields, id) {
                Some(i) => HeaderModel { info: self.info.update(i, true), ..self },
                None => HeaderModel {
                    fields: self.fields.push(id),
                    info: self.info.push(true),
                    format: self.format.push(false),
                    ..self
                },
            },
            DefinitionKind::Format => match lookup(self.fields, id) {
                Some(i) => HeaderModel { format: self.format.update(i, true), ..self },
                None => HeaderModel {
                    fields: self.fields.push(id),
                    info: self.info.push(false),
                    format: self.format.push(true),
                    ..self
                },
            },
        }
    }

    /// This header with `name` appended to its samples.
    pub open spec fn with_sample(self, name: Seq<u8>) -> HeaderModel {
        HeaderModel { samples: self.samples.push(name), ..self }
    }

    /// This header with field `name` taken out of `domain`.
    pub open spec fn removed(self, domain: FieldDomain, name: Seq<u8>) -> HeaderModel {
        match lookup(self.fields, name) {
            None => self,
            Some(i) => match domain {
                FieldDomain::Info => HeaderModel { info: self.info.update(i, false), ..self },
                FieldDomain::Format => HeaderModel { format: self.format.update(i, false), ..self },
            },
        }
    }
}

/// A read-only view of a header, as held by readers, writers and records.
pub struct HeaderView {
    header: Rc<Header>,
}

impl View for HeaderView {
    type V = HeaderModel;

    closed spec fn view(&self) -> HeaderModel {
        (*self.header)@
    }
}

impl HeaderView {
    pub fn new(header: Header) -> (r: Self)
        ensures
            r@ == header@,
    {
        HeaderView { header: Rc::new(header) }
    }

    pub fn inner(&self) -> (r: &Header)
        ensures
            r@ == self@,
    {
        &*self.header
    }

    /// Another view of the same header: the header is shared, not copied.
    pub fn duplicate(&self) -> (r: Self)
        ensures
            r@ == self@,
    {
        HeaderView { header: Rc::clone(&self.header) }
    }

    pub fn sample_count(&self) -> (r: u32)
        requires
            self@.wf(),
        ensures
            r == self@.samples.len(),
    {
        self.header.samples.len() as u32
    }

    pub fn samples(&self) -> (r: Vec<Vec<u8>>)
        ensures
            r@.map_values(|n: Vec<u8>| n@) == self@.samples,
    {
        self.header.sample_names()
    }
}

/// Subsetting a header to all of its samples, in their order, gives the
/// map `0, 1, ..., n - 1`.
pub proof fn lemma_subset_of_all_samples(h: HeaderModel)
    requires
        h.wf(),
    ensures
        h.has_samples(h.samples),
        h.subset_map(h.samples).len() == h.samples.len(),
        forall|i: int| 0 <= i < h.samples.len() ==> h.subset_map(h.samples)[i] as int == i,
{
    assert forall|i: int| 0 <= i < h.samples.len() implies lookup(h.samples, h.samples[i]) == Some(i) by {
        lemma_lookup_at(h.samples, i);
    }
}

} // verus!
