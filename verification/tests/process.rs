use revtag::engine::process_record;
use rust_htslib::bam::record::Aux;
use rust_htslib::bam::Record;

fn tagged_record() -> Record {
    let mut record = Record::new();
    record.set_qname(b"read");
    record
        .push_aux(b"QT", Aux::ArrayU8((&[10u8, 20, 30][..]).into()))
        .unwrap();
    record.push_aux(b"MN", Aux::String("WORLD")).unwrap();
    record.push_aux(b"BC", Aux::String("GATT")).unwrap();
    record
}

#[test]
fn forward_record_is_passed_through() {
    let mut record = tagged_record();
    assert!(!record.is_reverse());
    let before = record.clone();

    process_record(&mut record, &[*b"QT", *b"MN"], &[*b"BC"]).unwrap();

    assert!(record == before);
    assert_eq!(record.aux(b"MN"), Ok(Aux::String("WORLD")));
}

#[test]
fn reverse_record_is_rewritten() {
    let mut record = tagged_record();
    record.set_reverse();

    process_record(&mut record, &[*b"QT", *b"MN"], &[*b"BC"]).unwrap();

    assert!(record.is_reverse());
    assert_eq!(record.aux(b"MN"), Ok(Aux::String("DLROW")));
    assert_eq!(record.aux(b"BC"), Ok(Aux::String("AATC")));
    if let Ok(Aux::ArrayU8(arr)) = record.aux(b"QT") {
        let result: Vec<u8> = arr.iter().collect();
        assert_eq!(result, vec![30, 20, 10]);
    } else {
        panic!("Expected ArrayU8");
    }
}

#[test]
fn reverse_record_keeps_its_core_fields() {
    let mut record = tagged_record();
    record.set_reverse();
    record.set_pos(1234);
    record.set_mapq(42);

    process_record(&mut record, &[*b"QT"], &[*b"BC"]).unwrap();

    assert_eq!(record.qname(), b"read");
    assert_eq!(record.pos(), 1234);
    assert_eq!(record.mapq(), 42);
    assert_eq!(record.flags(), 16);
}
