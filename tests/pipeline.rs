use bcfkit::header::{FieldDomain, HeaderError};
use bcfkit::record::{RecordBody, RecordError};
use bcfkit::stream::WriteMode;
use bcfkit::{Header, HeaderView, ReadError, Reader, Record, Writer};

const SAMPLE: &[u8] = b"NA12878.subsample-0.25-0";

fn bits(x: f32) -> i32 {
    x.to_bits() as i32
}

fn base_header(samples: &[&[u8]]) -> Header {
    let mut h = Header::new();
    h.push_record(b"##contig=<ID=1,length=249250621>").unwrap();
    h.push_record(b"##INFO=<ID=MQ0F,Number=1,Type=Float>").unwrap();
    h.push_record(b"##INFO=<ID=SGB,Number=1,Type=Float>").unwrap();
    h.push_record(b"##FORMAT=<ID=PL,Number=G,Type=Integer>").unwrap();
    h.push_record(b"##FORMAT=<ID=GT,Number=1,Type=String>").unwrap();
    for s in samples {
        h.push_sample(s).unwrap();
    }
    h
}

/// Sixty records on contig 1 from position 10021, one sample, each with the
/// artificial "not observed" allele last.
fn sixty_records(view: &HeaderView) -> Vec<RecordBody> {
    let mut out = Vec::new();
    for i in 0..60u32 {
        let mut rec = Record::new(view, 0, 10021 + i).unwrap();
        rec.set_qual(0f32.to_bits());
        if i == 59 {
            rec.set_alleles(&[b"A", b"C", b"<X>"]);
        } else {
            rec.set_alleles(&[b"A", b"<X>"]);
        }
        rec.push_info(b"MQ0F", vec![bits(1.0)]).unwrap();
        if i == 59 {
            rec.push_info(b"SGB", vec![bits(-0.379885)]).unwrap();
        }
        let pl = if i == 59 { vec![0, 3, 30, 3, 30, 40] } else { vec![0, 9, 90] };
        rec.push_format(b"PL", vec![pl]).unwrap();
        let gt = if i == 59 { vec![1, 2] } else { vec![0, 1] };
        rec.push_format(b"GT", vec![gt]).unwrap();
        out.push(rec.body().duplicate());
    }
    out
}

fn check_read(mut reader: Reader) {
    assert_eq!(reader.header().samples(), vec![SAMPLE.to_vec()]);
    let mut i = 0u32;
    let mut records = reader.records();
    while let Some(rec) = records.next() {
        let record = rec.ok().expect("Error reading record.");
        assert_eq!(record.header().sample_count(), 1);
        assert_eq!(record.rid(), 0);
        assert_eq!(record.pos(), 10021 + i);
        assert_eq!(record.qual(), 0f32.to_bits());
        assert_eq!(record.info(b"MQ0F").expect("Error reading info."), vec![bits(1.0)]);
        if i == 59 {
            assert_eq!(record.info(b"SGB").expect("Error reading info."), vec![bits(-0.379885)]);
        }
        assert_eq!(record.alleles().last().unwrap(), &b"<X>".to_vec());
        let pl = record.format(b"PL").expect("Error reading format.");
        assert_eq!(pl.len(), 1);
        if i == 59 {
            assert_eq!(pl[0].len(), 6);
        } else {
            assert_eq!(pl[0].len(), 3);
        }
        i += 1;
    }
    assert_eq!(i, 60);
    reader = records.reader;
    let mut rec = Record::new(reader.header(), 0, 1).unwrap();
    assert_eq!(reader.read(&mut rec), Err(ReadError::NoMoreRecord));
}

#[test]
fn test_read() {
    let view = HeaderView::new(base_header(&[SAMPLE]));
    let store = sixty_records(&view);
    check_read(Reader::new(view, store));
}

#[test]
fn test_write() {
    let view = HeaderView::new(base_header(&[SAMPLE]));
    let store = sixty_records(&view);
    let reader = Reader::new(view, store);
    let header = Header::subset_template(reader.header(), &[SAMPLE]).ok().expect("Error subsetting samples.");
    let mut writer = Writer::new(&header, false, false);
    let mut records = reader.records();
    while let Some(rec) = records.next() {
        let mut record = rec.ok().expect("Error reading record.");
        writer.translate(&mut record).expect("Error translating record.");
        writer.subset(&mut record).expect("Error subsetting record.");
        record.trim_alleles().ok().expect("Error trimming alleles.");
        writer.write(&record).ok().expect("Error writing record");
    }
    let out_view = writer.header().duplicate();
    let stored = writer.finish();
    check_read(Reader::new(out_view, stored));
}

#[test]
fn duplicate_keeps_sample_names_in_order() {
    let view = HeaderView::new(base_header(&[b"s1", b"s2", b"s3"]));
    let dup = Header::with_template(&view);
    assert_eq!(HeaderView::new(dup).samples(), vec![b"s1".to_vec(), b"s2".to_vec(), b"s3".to_vec()]);
    assert!(Header::with_template(&view).subset().is_none());
}

#[test]
fn subset_template_keeps_requested_order() {
    let view = HeaderView::new(base_header(&[b"s1", b"s2", b"s3"]));
    let sub = Header::subset_template(&view, &[b"s3", b"s1"]).unwrap();
    assert_eq!(sub.subset(), Some(vec![2, 0]));
    let sub_view = HeaderView::new(sub);
    assert_eq!(sub_view.samples(), vec![b"s3".to_vec(), b"s1".to_vec()]);
    assert_eq!(sub_view.sample_count(), 2);
}

#[test]
fn subset_template_rejects_unknown_and_repeated_samples() {
    let view = HeaderView::new(base_header(&[b"s1", b"s2"]));
    assert_eq!(Header::subset_template(&view, &[b"s1", b"nope"]).err(), Some(HeaderError::UnknownSample));
    assert_eq!(Header::subset_template(&view, &[b"s1", b"s1"]).err(), Some(HeaderError::SubsetConstruction));
    assert_eq!(Header::subset_template(&view, &[]).unwrap().subset(), Some(vec![]));
}

#[test]
fn push_sample_refuses_duplicates() {
    let mut h = Header::new();
    assert_eq!(h.push_sample(b"a"), Ok(()));
    assert_eq!(h.push_sample(b"b"), Ok(()));
    assert_eq!(h.push_sample(b"a"), Err(HeaderError::DuplicateName));
    assert_eq!(HeaderView::new(h).samples(), vec![b"a".to_vec(), b"b".to_vec()]);
}

#[test]
fn push_record_parses_definitions() {
    let mut h = Header::new();
    assert_eq!(h.push_record(b"##INFO=<ID=DP>"), Ok(()));
    assert_eq!(h.push_record(b"##FORMAT=<ID=DP,Number=1>"), Ok(()));
    assert_eq!(h.push_record(b"##contig=<ID=chr2,length=5>"), Ok(()));
    assert_eq!(h.push_record(b"##FILTER=<ID=q10>"), Ok(()));
    assert_eq!(h.push_record(b"##fileformat=VCFv4.2"), Ok(()));
    assert_eq!(h.push_record(b"#CHROM\tPOS"), Err(HeaderError::MalformedDefinition));
    assert_eq!(h.push_record(b"INFO=<ID=DP>"), Err(HeaderError::MalformedDefinition));
    assert_eq!(h.push_record(b"##INFO=<ID=DP>"), Ok(()));
    assert_eq!(h.push_record(b"##INFO=<ID=,Number=1>"), Err(HeaderError::MalformedDefinition));
    assert_eq!(h.push_record(b"##INFO=<ID=AB"), Err(HeaderError::MalformedDefinition));
    assert_eq!(h.push_record(b"##INFO=<ID=AB,Number=1"), Err(HeaderError::MalformedDefinition));
    assert_eq!(h.field_id(FieldDomain::Info, b"DP"), Some(0));
    assert_eq!(h.field_id(FieldDomain::Format, b"DP"), Some(0));
    assert_eq!(h.contig_id(b"chr2"), Some(0));
    assert_eq!(h.contig_count(), 1);
}

#[test]
fn remove_field_keeps_ids_and_is_idempotent() {
    let mut h = base_header(&[]);
    h.remove_info(b"MQ0F");
    h.remove_info(b"MQ0F");
    h.remove_format(b"absent");
    assert_eq!(h.field_id(FieldDomain::Info, b"MQ0F"), None);
    assert_eq!(h.field_id(FieldDomain::Info, b"SGB"), Some(1));
    h.remove_format(b"PL");
    assert_eq!(h.field_id(FieldDomain::Format, b"PL"), None);
    assert_eq!(h.field_id(FieldDomain::Format, b"GT"), Some(3));
}

fn two_sample_record(view: &HeaderView) -> Record {
    let mut rec = Record::new(view, 0, 100).unwrap();
    rec.set_alleles(&[b"A", b"T"]);
    rec.push_info(b"MQ0F", vec![7]).unwrap();
    rec.push_format(b"PL", vec![vec![1, 2, 3], vec![4, 5, 6]]).unwrap();
    rec
}

#[test]
fn translate_renumbers_fields_and_drops_undeclared() {
    let src = HeaderView::new(base_header(&[b"a", b"b"]));
    let mut d = Header::new();
    d.push_record(b"##FORMAT=<ID=PL>").unwrap();
    d.push_record(b"##contig=<ID=0>").unwrap();
    d.push_record(b"##contig=<ID=1>").unwrap();
    d.push_sample(b"a").unwrap();
    d.push_sample(b"b").unwrap();
    let dst = HeaderView::new(d);
    let mut rec = two_sample_record(&src);
    assert_eq!(rec.body().format[0].key, 2);
    assert_eq!(rec.translate(&dst), Ok(()));
    assert_eq!(rec.rid(), 1);
    assert_eq!(rec.body().format[0].key, 0);
    assert_eq!(rec.format(b"PL"), Some(vec![vec![1, 2, 3], vec![4, 5, 6]]));
    assert!(rec.body().info.is_empty());
    assert_eq!(rec.alleles(), vec![b"A".to_vec(), b"T".to_vec()]);
}

#[test]
fn translate_twice_is_identity() {
    let src = HeaderView::new(base_header(&[b"a", b"b"]));
    let mut d = Header::new();
    d.push_record(b"##FORMAT=<ID=PL>").unwrap();
    d.push_record(b"##INFO=<ID=MQ0F>").unwrap();
    d.push_record(b"##contig=<ID=1>").unwrap();
    let dst = HeaderView::new(d);
    let mut rec = two_sample_record(&src);
    rec.translate(&dst).unwrap();
    let once = (rec.rid(), rec.pos(), rec.alleles(), rec.info(b"MQ0F"), rec.format(b"PL"), rec.body().format[0].key);
    rec.translate(&dst).unwrap();
    let twice = (rec.rid(), rec.pos(), rec.alleles(), rec.info(b"MQ0F"), rec.format(b"PL"), rec.body().format[0].key);
    assert_eq!(once, twice);
    assert_eq!(once.5, 0);
}

#[test]
fn translate_unknown_contig_fails_and_keeps_record() {
    let src = HeaderView::new(base_header(&[b"a", b"b"]));
    let mut d = Header::new();
    d.push_record(b"##contig=<ID=2>").unwrap();
    d.push_record(b"##FORMAT=<ID=PL>").unwrap();
    let dst = HeaderView::new(d);
    let mut rec = two_sample_record(&src);
    assert_eq!(rec.translate(&dst), Err(RecordError::UnknownContig));
    assert_eq!(rec.header().inner().contig_name(rec.rid()), &b"1".to_vec());
    assert_eq!(rec.body().format[0].key, 2);
    assert_eq!(rec.info(b"MQ0F"), Some(vec![7]));
}

#[test]
fn subset_picks_samples_in_map_order() {
    let view = HeaderView::new(base_header(&[b"s0", b"s1", b"s2"]));
    let mut rec = Record::new(&view, 0, 5).unwrap();
    rec.push_info(b"SGB", vec![42]).unwrap();
    rec.push_format(b"PL", vec![vec![10], vec![11, 12], vec![13]]).unwrap();
    assert_eq!(rec.subset(&[2, 0]), Ok(()));
    assert_eq!(rec.format(b"PL"), Some(vec![vec![13], vec![10]]));
    assert_eq!(rec.info(b"SGB"), Some(vec![42]));
}

#[test]
fn subset_out_of_range_fails() {
    let view = HeaderView::new(base_header(&[b"s0", b"s1", b"s2"]));
    let mut rec = Record::new(&view, 0, 5).unwrap();
    rec.push_format(b"PL", vec![vec![10], vec![11], vec![13]]).unwrap();
    assert_eq!(rec.subset(&[0, 3]), Err(RecordError::IndexOutOfRange));
    assert_eq!(rec.format(b"PL"), Some(vec![vec![10], vec![11], vec![13]]));
}

#[test]
fn writer_subset_uses_header_map() {
    let view = HeaderView::new(base_header(&[b"s0", b"s1", b"s2"]));
    let sub = Header::subset_template(&view, &[b"s1"]).unwrap();
    let mut writer = Writer::new(&sub, true, true);
    assert_eq!(writer.write_mode(), WriteMode::Text);
    let mut rec = Record::new(&view, 0, 5).unwrap();
    rec.push_format(b"PL", vec![vec![10], vec![11], vec![13]]).unwrap();
    writer.translate(&mut rec).unwrap();
    writer.subset(&mut rec).unwrap();
    assert_eq!(rec.format(b"PL"), Some(vec![vec![11]]));
    assert_eq!(writer.write(&rec), Ok(()));
    assert_eq!(writer.finish().len(), 1);
}

#[test]
fn trim_drops_unobserved_allele_and_renumbers() {
    let view = HeaderView::new(base_header(&[b"s0", b"s1"]));
    let mut rec = Record::new(&view, 0, 5).unwrap();
    rec.set_alleles(&[b"A", b"C", b"G", b"<X>"]);
    rec.push_format(b"GT", vec![vec![0, 1], vec![3, -1]]).unwrap();
    assert_eq!(rec.trim_alleles(), Ok(()));
    assert_eq!(rec.alleles(), vec![b"A".to_vec(), b"C".to_vec(), b"<X>".to_vec()]);
    assert_eq!(rec.format(b"GT"), Some(vec![vec![0, 1], vec![2, -1]]));
}

#[test]
fn trim_keeps_reference_and_drops_all_uncalled() {
    let view = HeaderView::new(base_header(&[b"s0"]));
    let mut rec = Record::new(&view, 0, 5).unwrap();
    rec.set_alleles(&[b"A", b"C", b"G"]);
    rec.push_format(b"GT", vec![vec![2, 2]]).unwrap();
    assert_eq!(rec.trim_alleles(), Ok(()));
    assert_eq!(rec.alleles(), vec![b"A".to_vec(), b"G".to_vec()]);
    assert_eq!(rec.format(b"GT"), Some(vec![vec![1, 1]]));
}

#[test]
fn trim_without_genotypes_fails() {
    let view = HeaderView::new(base_header(&[b"s0"]));
    let mut rec = Record::new(&view, 0, 5).unwrap();
    rec.set_alleles(&[b"A", b"C"]);
    rec.push_format(b"PL", vec![vec![0, 1, 2]]).unwrap();
    assert_eq!(rec.trim_alleles(), Err(RecordError::NoGenotypeData));
    assert_eq!(rec.alleles(), vec![b"A".to_vec(), b"C".to_vec()]);
}

#[test]
fn trim_with_call_out_of_range_fails() {
    let view = HeaderView::new(base_header(&[b"s0"]));
    let mut rec = Record::new(&view, 0, 5).unwrap();
    rec.set_alleles(&[b"A", b"C"]);
    rec.push_format(b"GT", vec![vec![0, 2]]).unwrap();
    assert_eq!(rec.trim_alleles(), Err(RecordError::IndexOutOfRange));
    assert_eq!(rec.format(b"GT"), Some(vec![vec![0, 2]]));
}

#[test]
fn record_rejects_undeclared_ids() {
    let view = HeaderView::new(base_header(&[b"s0"]));
    assert_eq!(Record::new(&view, 1, 5).err(), Some(RecordError::UnknownContig));
    let mut rec = Record::new(&view, 0, 5).unwrap();
    assert_eq!(rec.push_info(b"PL", vec![1]), Err(RecordError::UnknownField));
    assert_eq!(rec.push_format(b"MQ0F", vec![vec![1]]), Err(RecordError::UnknownField));
    rec.push_info(b"MQ0F", vec![1]).unwrap();
    rec.push_info(b"MQ0F", vec![2]).unwrap();
    assert_eq!(rec.body().info.len(), 1);
    assert_eq!(rec.info(b"MQ0F"), Some(vec![2]));
}

#[test]
fn round_trip_through_duplicate_header() {
    let view = HeaderView::new(base_header(&[b"s0", b"s1"]));
    let mut rec = Record::new(&view, 0, 77).unwrap();
    rec.set_qual(12.5f32.to_bits());
    rec.set_alleles(&[b"G", b"GA"]);
    rec.push_info(b"SGB", vec![bits(-0.5)]).unwrap();
    rec.push_format(b"GT", vec![vec![0, 1], vec![1, 1]]).unwrap();
    let mut writer = Writer::new(&Header::with_template(&view), false, false);
    assert_eq!(writer.write_mode(), WriteMode::CompressedBinary);
    assert_eq!(writer.write(&rec), Ok(()));
    let mut reader = Reader::new(view.duplicate(), writer.finish());
    let back = reader.read_record().unwrap();
    assert_eq!(back.rid(), rec.rid());
    assert_eq!(back.pos(), 77);
    assert_eq!(back.qual(), 12.5f32.to_bits());
    assert_eq!(back.alleles(), rec.alleles());
    assert_eq!(back.info(b"SGB"), Some(vec![bits(-0.5)]));
    assert_eq!(back.format(b"GT"), Some(vec![vec![0, 1], vec![1, 1]]));
    assert_eq!(reader.read_record().err(), Some(ReadError::NoMoreRecord));
}

#[test]
fn reader_flags_records_invalid_for_its_header() {
    let view = HeaderView::new(base_header(&[b"s0"]));
    let good = Record::new(&view, 0, 1).unwrap().body().duplicate();
    let mut bad = good.duplicate();
    bad.rid = 9;
    let mut reader = Reader::new(view, vec![bad, good]);
    assert_eq!(reader.read_record().err(), Some(ReadError::Invalid));
    assert_eq!(reader.read_record().unwrap().pos(), 1);
    assert_eq!(WriteMode::select(false, true), WriteMode::CompressedText);
    assert_eq!(WriteMode::select(true, false), WriteMode::Binary);
}

#[test]
fn push_sample_on_subset_header_keeps_map() {
    let view = HeaderView::new(base_header(&[b"s1", b"s2"]));
    let mut sub = Header::subset_template(&view, &[b"s2"]).unwrap();
    assert_eq!(sub.push_sample(b"s3"), Ok(()));
    assert_eq!(sub.push_sample(b"s2"), Err(HeaderError::DuplicateName));
    assert_eq!(sub.subset(), Some(vec![1]));
    assert_eq!(HeaderView::new(sub).samples(), vec![b"s2".to_vec(), b"s3".to_vec()]);
}

#[test]
fn push_format_refuses_other_sample_count() {
    let view = HeaderView::new(base_header(&[b"s0", b"s1"]));
    let mut rec = Record::new(&view, 0, 5).unwrap();
    rec.push_format(b"PL", vec![vec![1], vec![2]]).unwrap();
    assert_eq!(rec.push_format(b"GT", vec![vec![0, 0]]), Err(RecordError::SampleCountMismatch));
    assert_eq!(rec.format(b"GT"), None);
    assert_eq!(rec.push_format(b"PL", vec![vec![7], vec![8]]), Ok(()));
    assert_eq!(rec.format(b"PL"), Some(vec![vec![7], vec![8]]));
}
