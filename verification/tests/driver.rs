use revtag::driver::{ends_with, extra_threads, is_standard_stream, output_format, OutputFormat};

#[test]
fn format_goes_by_the_end_of_the_name() {
    assert_eq!(output_format("out.bam"), OutputFormat::Bam);
    assert_eq!(output_format("out.cram"), OutputFormat::Cram);
    assert_eq!(output_format("out.sam"), OutputFormat::Sam);
    assert_eq!(output_format("out"), OutputFormat::Sam);
    assert_eq!(output_format(""), OutputFormat::Sam);
    assert_eq!(output_format(".bam"), OutputFormat::Bam);
    assert_eq!(output_format("bam"), OutputFormat::Sam);
    assert_eq!(output_format("out.BAM"), OutputFormat::Sam);
    assert_eq!(output_format("out.bam.cram"), OutputFormat::Cram);
    assert_eq!(output_format("out.cram.bam"), OutputFormat::Bam);
    assert_eq!(output_format("dir.bam/out.txt"), OutputFormat::Sam);
}

#[test]
fn suffix_test() {
    assert!(ends_with(b"abc", b"bc"));
    assert!(ends_with(b"abc", b"abc"));
    assert!(ends_with(b"abc", b""));
    assert!(!ends_with(b"abc", b"ab"));
    assert!(!ends_with(b"bc", b"abc"));
}

#[test]
fn dash_names_the_standard_stream() {
    assert!(is_standard_stream("-"));
    assert!(!is_standard_stream(""));
    assert!(!is_standard_stream("--"));
    assert!(!is_standard_stream("a"));
    assert!(!is_standard_stream("./-"));
}

#[test]
fn streams_get_one_thread_fewer() {
    assert_eq!(extra_threads(0), None);
    assert_eq!(extra_threads(1), None);
    assert_eq!(extra_threads(2), Some(1));
    assert_eq!(extra_threads(8), Some(7));
    assert_eq!(extra_threads(usize::MAX), Some(usize::MAX - 1));
}
