use revtag::engine::reverse_tags_for;
use rust_htslib::bam::record::Aux;
use rust_htslib::bam::Record;

/// Helper to create a minimal BAM record for testing
fn create_test_record() -> Record {
    let mut record = Record::new();
    record.set_qname(b"test_read");
    record.set_pos(100);
    record.set_mapq(60);
    record.set_tid(0);
    record
}

/// Helper to convert tag strings to byte arrays for testing
fn tags_to_bytes(tags: &[&str]) -> Vec<[u8; 2]> {
    tags.iter()
        .filter_map(|s| {
            if s.len() >= 2 {
                let b = s.as_bytes();
                Some([b[0], b[1]])
            } else {
                None
            }
        })
        .collect()
}

#[test]
fn test_reverse_u8_array() {
    let mut record = create_test_record();
    let values = vec![10u8, 20, 30, 40, 50];
    record
        .push_aux(b"QT", Aux::ArrayU8((&values[..]).into()))
        .unwrap();

    reverse_tags_for(&mut record, &tags_to_bytes(&["QT"]), &[]).unwrap();

    if let Ok(Aux::ArrayU8(arr)) = record.aux(b"QT") {
        let result: Vec<u8> = arr.iter().collect();
        assert_eq!(result, vec![50, 40, 30, 20, 10]);
    } else {
        panic!("Expected ArrayU8");
    }
}

#[test]
fn test_reverse_u16_array() {
    let mut record = create_test_record();
    let values = vec![100u16, 200, 300];
    record
        .push_aux(b"AB", Aux::ArrayU16((&values[..]).into()))
        .unwrap();

    reverse_tags_for(&mut record, &tags_to_bytes(&["AB"]), &[]).unwrap();

    if let Ok(Aux::ArrayU16(arr)) = record.aux(b"AB") {
        let result: Vec<u16> = arr.iter().collect();
        assert_eq!(result, vec![300, 200, 100]);
    } else {
        panic!("Expected ArrayU16");
    }
}

#[test]
fn test_reverse_u32_array() {
    let mut record = create_test_record();
    let values = vec![1000u32, 2000, 3000];
    record
        .push_aux(b"CD", Aux::ArrayU32((&values[..]).into()))
        .unwrap();

    reverse_tags_for(&mut record, &tags_to_bytes(&["CD"]), &[]).unwrap();

    if let Ok(Aux::ArrayU32(arr)) = record.aux(b"CD") {
        let result: Vec<u32> = arr.iter().collect();
        assert_eq!(result, vec![3000, 2000, 1000]);
    } else {
        panic!("Expected ArrayU32");
    }
}

#[test]
fn test_reverse_i8_array() {
    let mut record = create_test_record();
    let values = vec![-10i8, -5, 0, 5, 10];
    record
        .push_aux(b"EF", Aux::ArrayI8((&values[..]).into()))
        .unwrap();

    reverse_tags_for(&mut record, &tags_to_bytes(&["EF"]), &[]).unwrap();

    if let Ok(Aux::ArrayI8(arr)) = record.aux(b"EF") {
        let result: Vec<i8> = arr.iter().collect();
        assert_eq!(result, vec![10, 5, 0, -5, -10]);
    } else {
        panic!("Expected ArrayI8");
    }
}

#[test]
fn test_reverse_i16_array() {
    let mut record = create_test_record();
    let values = vec![-100i16, 0, 100];
    record
        .push_aux(b"GH", Aux::ArrayI16((&values[..]).into()))
        .unwrap();

    reverse_tags_for(&mut record, &tags_to_bytes(&["GH"]), &[]).unwrap();

    if let Ok(Aux::ArrayI16(arr)) = record.aux(b"GH") {
        let result: Vec<i16> = arr.iter().collect();
        assert_eq!(result, vec![100, 0, -100]);
    } else {
        panic!("Expected ArrayI16");
    }
}

#[test]
fn test_reverse_i32_array() {
    let mut record = create_test_record();
    let values = vec![-1000i32, 0, 1000];
    record
        .push_aux(b"IJ", Aux::ArrayI32((&values[..]).into()))
        .unwrap();

    reverse_tags_for(&mut record, &tags_to_bytes(&["IJ"]), &[]).unwrap();

    if let Ok(Aux::ArrayI32(arr)) = record.aux(b"IJ") {
        let result: Vec<i32> = arr.iter().collect();
        assert_eq!(result, vec![1000, 0, -1000]);
    } else {
        panic!("Expected ArrayI32");
    }
}

#[test]
fn test_reverse_float_array() {
    let mut record = create_test_record();
    let values = vec![1.5f32, 2.5, 3.5];
    record
        .push_aux(b"KL", Aux::ArrayFloat((&values[..]).into()))
        .unwrap();

    reverse_tags_for(&mut record, &tags_to_bytes(&["KL"]), &[]).unwrap();

    if let Ok(Aux::ArrayFloat(arr)) = record.aux(b"KL") {
        let result: Vec<f32> = arr.iter().collect();
        assert_eq!(result, vec![3.5, 2.5, 1.5]);
    } else {
        panic!("Expected ArrayFloat");
    }
}

#[test]
fn test_reverse_string() {
    let mut record = create_test_record();
    record.push_aux(b"MN", Aux::String("HELLO")).unwrap();

    reverse_tags_for(&mut record, &tags_to_bytes(&["MN"]), &[]).unwrap();

    if let Ok(Aux::String(s)) = record.aux(b"MN") {
        assert_eq!(s, "OLLEH");
    } else {
        panic!("Expected String");
    }
}

#[test]
fn test_revcomp_string_uppercase() {
    let mut record = create_test_record();
    record.push_aux(b"BC", Aux::String("ATCG")).unwrap();

    reverse_tags_for(&mut record, &[], &tags_to_bytes(&["BC"])).unwrap();

    if let Ok(Aux::String(s)) = record.aux(b"BC") {
        assert_eq!(s, "CGAT");
    } else {
        panic!("Expected String");
    }
}

#[test]
fn test_revcomp_string_lowercase() {
    let mut record = create_test_record();
    record.push_aux(b"BC", Aux::String("atcg")).unwrap();

    reverse_tags_for(&mut record, &[], &tags_to_bytes(&["BC"])).unwrap();

    if let Ok(Aux::String(s)) = record.aux(b"BC") {
        assert_eq!(s, "cgat");
    } else {
        panic!("Expected String");
    }
}

#[test]
fn test_revcomp_string_mixed_case() {
    let mut record = create_test_record();
    record.push_aux(b"BC", Aux::String("AtCg")).unwrap();

    reverse_tags_for(&mut record, &[], &tags_to_bytes(&["BC"])).unwrap();

    if let Ok(Aux::String(s)) = record.aux(b"BC") {
        assert_eq!(s, "cGaT");
    } else {
        panic!("Expected String");
    }
}

#[test]
fn test_revcomp_string_palindrome() {
    let mut record = create_test_record();
    record.push_aux(b"BC", Aux::String("TCGA")).unwrap();

    reverse_tags_for(&mut record, &[], &tags_to_bytes(&["BC"])).unwrap();

    if let Ok(Aux::String(s)) = record.aux(b"BC") {
        assert_eq!(s, "TCGA");
    } else {
        panic!("Expected String");
    }
}

#[test]
fn test_revcomp_array_u8() {
    let mut record = create_test_record();
    let seq = b"ATCG";
    let values: Vec<u8> = seq.to_vec();
    record
        .push_aux(b"BC", Aux::ArrayU8((&values[..]).into()))
        .unwrap();

    reverse_tags_for(&mut record, &[], &tags_to_bytes(&["BC"])).unwrap();

    if let Ok(Aux::ArrayU8(arr)) = record.aux(b"BC") {
        let result: Vec<u8> = arr.iter().collect();
        assert_eq!(result, b"CGAT".to_vec());
    } else {
        panic!("Expected ArrayU8");
    }
}

#[test]
fn test_revcomp_longer_sequence() {
    let mut record = create_test_record();
    record.push_aux(b"BC", Aux::String("ATCGATCGATCG")).unwrap();

    reverse_tags_for(&mut record, &[], &tags_to_bytes(&["BC"])).unwrap();

    if let Ok(Aux::String(s)) = record.aux(b"BC") {
        assert_eq!(s, "CGATCGATCGAT");
    } else {
        panic!("Expected String");
    }
}

#[test]
fn test_multiple_rev_tags() {
    let mut record = create_test_record();
    record
        .push_aux(b"QT", Aux::ArrayU8((&[10u8, 20, 30][..]).into()))
        .unwrap();
    record
        .push_aux(b"AB", Aux::ArrayU8((&[1u8, 2, 3][..]).into()))
        .unwrap();

    reverse_tags_for(&mut record, &tags_to_bytes(&["QT", "AB"]), &[]).unwrap();

    if let Ok(Aux::ArrayU8(arr)) = record.aux(b"QT") {
        let result: Vec<u8> = arr.iter().collect();
        assert_eq!(result, vec![30, 20, 10]);
    } else {
        panic!("Expected ArrayU8 for QT");
    }

    if let Ok(Aux::ArrayU8(arr)) = record.aux(b"AB") {
        let result: Vec<u8> = arr.iter().collect();
        assert_eq!(result, vec![3, 2, 1]);
    } else {
        panic!("Expected ArrayU8 for AB");
    }
}

#[test]
fn test_multiple_revcomp_tags() {
    let mut record = create_test_record();
    record.push_aux(b"BC", Aux::String("ATCG")).unwrap();
    record.push_aux(b"XY", Aux::String("GGCC")).unwrap();

    reverse_tags_for(&mut record, &[], &tags_to_bytes(&["BC", "XY"])).unwrap();

    if let Ok(Aux::String(s)) = record.aux(b"BC") {
        assert_eq!(s, "CGAT");
    } else {
        panic!("Expected String for BC");
    }

    if let Ok(Aux::String(s)) = record.aux(b"XY") {
        assert_eq!(s, "GGCC");
    } else {
        panic!("Expected String for XY");
    }
}

#[test]
fn test_both_rev_and_revcomp() {
    let mut record = create_test_record();
    record
        .push_aux(b"QT", Aux::ArrayU8((&[10u8, 20, 30][..]).into()))
        .unwrap();
    record.push_aux(b"BC", Aux::String("ATCG")).unwrap();

    reverse_tags_for(
        &mut record,
        &tags_to_bytes(&["QT"]),
        &tags_to_bytes(&["BC"]),
    )
    .unwrap();

    if let Ok(Aux::ArrayU8(arr)) = record.aux(b"QT") {
        let result: Vec<u8> = arr.iter().collect();
        assert_eq!(result, vec![30, 20, 10]);
    } else {
        panic!("Expected ArrayU8 for QT");
    }

    if let Ok(Aux::String(s)) = record.aux(b"BC") {
        assert_eq!(s, "CGAT");
    } else {
        panic!("Expected String for BC");
    }
}

#[test]
fn test_nonexistent_tag() {
    let mut record = create_test_record();
    let result = reverse_tags_for(&mut record, &tags_to_bytes(&["ZZ"]), &[]);
    assert!(result.is_ok());
}

#[test]
fn test_empty_arrays() {
    let mut record = create_test_record();
    record
        .push_aux(b"QT", Aux::ArrayU8((&[][..]).into()))
        .unwrap();

    reverse_tags_for(&mut record, &tags_to_bytes(&["QT"]), &[]).unwrap();

    if let Ok(Aux::ArrayU8(arr)) = record.aux(b"QT") {
        let result: Vec<u8> = arr.iter().collect();
        assert_eq!(result, Vec::<u8>::new());
    } else {
        panic!("Expected ArrayU8");
    }
}

#[test]
fn test_single_element_array() {
    let mut record = create_test_record();
    record
        .push_aux(b"QT", Aux::ArrayU8((&[42u8][..]).into()))
        .unwrap();

    reverse_tags_for(&mut record, &tags_to_bytes(&["QT"]), &[]).unwrap();

    if let Ok(Aux::ArrayU8(arr)) = record.aux(b"QT") {
        let result: Vec<u8> = arr.iter().collect();
        assert_eq!(result, vec![42]);
    } else {
        panic!("Expected ArrayU8");
    }
}

#[test]
fn test_empty_string() {
    let mut record = create_test_record();
    record.push_aux(b"BC", Aux::String("")).unwrap();

    reverse_tags_for(&mut record, &[], &tags_to_bytes(&["BC"])).unwrap();

    if let Ok(Aux::String(s)) = record.aux(b"BC") {
        assert_eq!(s, "");
    } else {
        panic!("Expected String");
    }
}

#[test]
fn test_single_nucleotide() {
    let mut record = create_test_record();
    record.push_aux(b"BC", Aux::String("A")).unwrap();

    reverse_tags_for(&mut record, &[], &tags_to_bytes(&["BC"])).unwrap();

    if let Ok(Aux::String(s)) = record.aux(b"BC") {
        assert_eq!(s, "T");
    } else {
        panic!("Expected String");
    }
}

fn record_from_sam(line: &str) -> Record {
    let header = rust_htslib::bam::Header::new();
    let mut view = rust_htslib::bam::HeaderView::from_header(&header);
    Record::from_sam(&mut view, line.as_bytes()).unwrap()
}

#[test]
fn reverse_keeps_float_bits() {
    let mut record = create_test_record();
    let values = vec![f32::from_bits(0x7fc0_0001), -0.0f32, f32::INFINITY];
    record
        .push_aux(b"KL", Aux::ArrayFloat((&values[..]).into()))
        .unwrap();

    reverse_tags_for(&mut record, &tags_to_bytes(&["KL"]), &[]).unwrap();

    if let Ok(Aux::ArrayFloat(arr)) = record.aux(b"KL") {
        let bits: Vec<u32> = arr.iter().map(|x| x.to_bits()).collect();
        assert_eq!(bits, vec![f32::INFINITY.to_bits(), (-0.0f32).to_bits(), 0x7fc0_0001]);
    } else {
        panic!("Expected ArrayFloat");
    }
}

#[test]
fn scalar_tag_is_left_alone() {
    let mut record = create_test_record();
    record.push_aux(b"NM", Aux::I32(7)).unwrap();
    record.push_aux(b"XC", Aux::Char(b'A')).unwrap();
    let before = record.clone();

    reverse_tags_for(
        &mut record,
        &tags_to_bytes(&["NM", "XC"]),
        &tags_to_bytes(&["NM", "XC"]),
    )
    .unwrap();

    assert!(record == before);
    assert_eq!(record.aux(b"NM"), Ok(Aux::I32(7)));
}

#[test]
fn revcomp_passes_over_other_arrays() {
    let mut record = create_test_record();
    record
        .push_aux(b"AB", Aux::ArrayU16((&[65u16, 67, 71][..]).into()))
        .unwrap();
    let before = record.clone();

    reverse_tags_for(&mut record, &[], &tags_to_bytes(&["AB"])).unwrap();

    assert!(record == before);
}

#[test]
fn empty_selection_leaves_record_unchanged() {
    let mut record = create_test_record();
    record
        .push_aux(b"QT", Aux::ArrayU8((&[10u8, 20, 30][..]).into()))
        .unwrap();
    record.push_aux(b"BC", Aux::String("ATCG")).unwrap();
    let before = record.clone();

    reverse_tags_for(&mut record, &[], &[]).unwrap();

    assert!(record == before);
}

#[test]
fn record_without_tags_is_unchanged() {
    let mut record = create_test_record();
    let before = record.clone();

    reverse_tags_for(
        &mut record,
        &tags_to_bytes(&["QT", "ZZ"]),
        &tags_to_bytes(&["BC"]),
    )
    .unwrap();

    assert!(record == before);
}

#[test]
fn tag_in_both_sets_is_reversed_then_complemented() {
    let mut record = create_test_record();
    record.push_aux(b"BC", Aux::String("AACG")).unwrap();

    reverse_tags_for(
        &mut record,
        &tags_to_bytes(&["BC"]),
        &tags_to_bytes(&["BC"]),
    )
    .unwrap();

    // reversed: GCAA; its reverse complement: TTGC
    assert_eq!(record.aux(b"BC"), Ok(Aux::String("TTGC")));
}

#[test]
fn tag_listed_twice_is_reversed_twice() {
    let mut record = create_test_record();
    record
        .push_aux(b"QT", Aux::ArrayU8((&[1u8, 2, 3][..]).into()))
        .unwrap();

    reverse_tags_for(&mut record, &tags_to_bytes(&["QT", "QT"]), &[]).unwrap();

    if let Ok(Aux::ArrayU8(arr)) = record.aux(b"QT") {
        let result: Vec<u8> = arr.iter().collect();
        assert_eq!(result, vec![1, 2, 3]);
    } else {
        panic!("Expected ArrayU8");
    }
}

#[test]
fn rewritten_tag_moves_to_the_end() {
    let mut record = create_test_record();
    record.push_aux(b"MN", Aux::String("HELLO")).unwrap();
    record.push_aux(b"NM", Aux::I32(3)).unwrap();

    reverse_tags_for(&mut record, &tags_to_bytes(&["MN"]), &[]).unwrap();

    let mut tags: Vec<Vec<u8>> = Vec::new();
    for field in record.aux_iter() {
        let (tag, _) = field.unwrap();
        tags.push(tag.to_vec());
    }
    assert_eq!(tags, vec![b"NM".to_vec(), b"MN".to_vec()]);
    assert_eq!(record.aux(b"MN"), Ok(Aux::String("OLLEH")));
    assert_eq!(record.aux(b"NM"), Ok(Aux::I32(3)));
}

#[test]
fn revcomp_of_iupac_codes() {
    let mut record = create_test_record();
    record
        .push_aux(b"BC", Aux::String("AGCTYRWSKMDVHBNagctn-"))
        .unwrap();

    reverse_tags_for(&mut record, &[], &tags_to_bytes(&["BC"])).unwrap();

    assert_eq!(record.aux(b"BC"), Ok(Aux::String("-nagctNVDBHKMSWYRAGCT")));
}

#[test]
fn duplicate_tag_stops_the_replacement() {
    let mut record = record_from_sam("r\t20\t*\t0\t0\t*\t*\t0\t0\tACGT\tFFFF\tXX:Z:AB\tXX:Z:CD");

    let result = reverse_tags_for(&mut record, &tags_to_bytes(&["XX"]), &[]);

    match result {
        Err(revtag::error::TagError::TagMutationFailure { tag, cause }) => {
            assert_eq!(tag, *b"XX");
            assert!(matches!(cause, revtag::error::MutationFailure::StillPresent));
        }
        other => panic!("expected a refused insert, got {:?}", other),
    }
    // the first field is gone, the second is what the tag now names
    assert_eq!(record.aux(b"XX"), Ok(Aux::String("CD")));
}

#[test]
fn mutation_failure_has_the_record_librarys_text() {
    let mut record = record_from_sam("r\t20\t*\t0\t0\t*\t*\t0\t0\tACGT\tFFFF\tXX:Z:AB\tXX:Z:CD");
    let err = reverse_tags_for(&mut record, &[], &tags_to_bytes(&["XX"])).unwrap_err();
    assert_eq!(err.message(), "failed to add aux field, tag is already present");
}

#[test]
fn tag_with_a_zero_byte_is_passed_over() {
    let mut record = create_test_record();
    record.push_aux(b"BC", Aux::String("ATCG")).unwrap();
    let before = record.clone();

    reverse_tags_for(&mut record, &[[0, 0], [b'B', 0]], &[[0, b'C']]).unwrap();

    assert!(record == before);
}

#[test]
fn hex_string_is_rewritten_as_text() {
    let mut record = record_from_sam("r\t16\t*\t0\t0\t*\t*\t0\t0\tACGT\tFFFF\tXH:H:1AE301");

    reverse_tags_for(&mut record, &tags_to_bytes(&["XH"]), &[]).unwrap();

    assert_eq!(record.aux(b"XH"), Ok(Aux::String("103EA1")));
}

#[test]
fn other_tags_keep_type_and_value() {
    let mut record = create_test_record();
    record.push_aux(b"XA", Aux::Char(b'q')).unwrap();
    record.push_aux(b"XB", Aux::I8(-3)).unwrap();
    record.push_aux(b"XC", Aux::U16(40000)).unwrap();
    record.push_aux(b"QT", Aux::ArrayU8((&[1u8, 2, 3][..]).into())).unwrap();
    record.push_aux(b"XD", Aux::I32(-70000)).unwrap();
    record.push_aux(b"XE", Aux::Float(2.5)).unwrap();
    record.push_aux(b"BC", Aux::String("AACG")).unwrap();
    record.push_aux(b"XF", Aux::ArrayI16((&[-1i16, 2][..]).into())).unwrap();

    reverse_tags_for(&mut record, &tags_to_bytes(&["QT"]), &tags_to_bytes(&["BC"])).unwrap();

    assert_eq!(record.aux(b"XA"), Ok(Aux::Char(b'q')));
    assert_eq!(record.aux(b"XB"), Ok(Aux::I8(-3)));
    assert_eq!(record.aux(b"XC"), Ok(Aux::U16(40000)));
    assert_eq!(record.aux(b"XD"), Ok(Aux::I32(-70000)));
    assert_eq!(record.aux(b"XE"), Ok(Aux::Float(2.5)));
    assert_eq!(record.aux(b"XF"), Ok(Aux::ArrayI16((&[-1i16, 2][..]).into())));
    assert_eq!(record.aux(b"QT"), Ok(Aux::ArrayU8((&[3u8, 2, 1][..]).into())));
    assert_eq!(record.aux(b"BC"), Ok(Aux::String("CGTT")));
    assert_eq!(record.aux_iter().count(), 8);
    assert_eq!(record.qname(), b"test_read");
    assert_eq!(record.pos(), 100);
    assert_eq!(record.mapq(), 60);
    assert_eq!(record.tid(), 0);
}

#[test]
fn reversing_twice_restores_the_tags() {
    let mut record = create_test_record();
    record.push_aux(b"QT", Aux::ArrayU8((&[10u8, 20, 30][..]).into())).unwrap();
    record.push_aux(b"AB", Aux::ArrayI32((&[-1000i32, 0, 1000][..]).into())).unwrap();
    record.push_aux(b"KL", Aux::ArrayFloat((&[1.5f32, 2.5][..]).into())).unwrap();
    record.push_aux(b"MN", Aux::String("HELLO")).unwrap();
    let tags = tags_to_bytes(&["QT", "AB", "KL", "MN"]);

    reverse_tags_for(&mut record, &tags, &[]).unwrap();
    assert_eq!(record.aux(b"MN"), Ok(Aux::String("OLLEH")));
    reverse_tags_for(&mut record, &tags, &[]).unwrap();

    assert_eq!(record.aux(b"QT"), Ok(Aux::ArrayU8((&[10u8, 20, 30][..]).into())));
    assert_eq!(record.aux(b"AB"), Ok(Aux::ArrayI32((&[-1000i32, 0, 1000][..]).into())));
    assert_eq!(record.aux(b"KL"), Ok(Aux::ArrayFloat((&[1.5f32, 2.5][..]).into())));
    assert_eq!(record.aux(b"MN"), Ok(Aux::String("HELLO")));
}

#[test]
fn reverse_complement_twice_restores_the_tags() {
    let mut record = create_test_record();
    record.push_aux(b"BC", Aux::String("ACGTNacgtn")).unwrap();
    record.push_aux(b"SQ", Aux::ArrayU8((&b"GATTACA"[..]).into())).unwrap();
    let tags = tags_to_bytes(&["BC", "SQ"]);

    reverse_tags_for(&mut record, &[], &tags).unwrap();
    assert_eq!(record.aux(b"BC"), Ok(Aux::String("nacgtNACGT")));
    assert_eq!(record.aux(b"SQ"), Ok(Aux::ArrayU8((&b"TGTAATC"[..]).into())));
    reverse_tags_for(&mut record, &[], &tags).unwrap();

    assert_eq!(record.aux(b"BC"), Ok(Aux::String("ACGTNacgtn")));
    assert_eq!(record.aux(b"SQ"), Ok(Aux::ArrayU8((&b"GATTACA"[..]).into())));
}

fn record_of_fields(block: &[u8]) -> Record {
    let mut record = Record::new();
    record.set_data(block);
    record
}

#[test]
fn unreadable_second_field_is_not_overwritten() {
    // XX:B:C,1,2,3 and then a second XX whose array has the element letter A
    let mut block: Vec<u8> = Vec::new();
    block.extend_from_slice(b"XXBC");
    block.extend_from_slice(&[3, 0, 0, 0, 1, 2, 3]);
    block.extend_from_slice(b"XXBA");
    block.extend_from_slice(&[2, 0, 0, 0, b'p', b'q']);
    let mut record = record_of_fields(&block);
    assert_eq!(record.aux(b"XX"), Ok(Aux::ArrayU8((&[1u8, 2, 3][..]).into())));

    let result = reverse_tags_for(&mut record, &tags_to_bytes(&["XX"]), &[]);

    match result {
        Err(revtag::error::TagError::TagMutationFailure { tag, cause }) => {
            assert_eq!(tag, *b"XX");
            assert!(matches!(cause, revtag::error::MutationFailure::StillPresent));
        }
        other => panic!("expected a refused insert, got {:?}", other),
    }
    assert_eq!(
        record.aux(b"XX"),
        Err(rust_htslib::errors::Error::BamAuxUnknownType)
    );
    assert_eq!(record.inner().l_data, 10);
}

#[test]
fn scalar_second_field_stops_the_replacement() {
    let mut record = record_from_sam("r\t16\t*\t0\t0\t*\t*\t0\t0\tACGT\tFFFF\tXX:Z:AB\tXX:i:7");

    let result = reverse_tags_for(&mut record, &[], &tags_to_bytes(&["XX"]));

    match result {
        Err(revtag::error::TagError::TagMutationFailure { tag, cause }) => {
            assert_eq!(tag, *b"XX");
            assert!(matches!(cause, revtag::error::MutationFailure::StillPresent));
        }
        other => panic!("expected a refused insert, got {:?}", other),
    }
}

#[test]
fn record_built_from_a_block_is_rewritten() {
    let mut block: Vec<u8> = Vec::new();
    block.extend_from_slice(b"BCZGATT\0");
    block.extend_from_slice(b"NMC\x05");
    let mut record = record_of_fields(&block);

    reverse_tags_for(&mut record, &[], &tags_to_bytes(&["BC"])).unwrap();

    assert_eq!(record.aux(b"BC"), Ok(Aux::String("AATC")));
    assert_eq!(record.aux(b"NM"), Ok(Aux::U8(5)));
}
