use gzipped::GzipComponent::{Single, Span};
use gzipped::{decode_component, DecodeError, GzipComponent, Gzipped};

#[test]
fn test_empty() {
    let compressed = Gzipped::new(&[]);
    let expected: Vec<GzipComponent> = Vec::new();
    assert_eq!(expected, compressed.components());
}

#[test]
fn test_no_compression() {
    let compressed = Gzipped::new(&[0, 1, 2]);
    assert_eq!(vec![Single(0), Single(1), Single(2)], compressed.components());
}

#[test]
fn test_simple_repettition() {
    let compressed = Gzipped::new(&[0, 1, 2, 3, 3, 3, 1, 1]);
    assert_eq!(
        vec![
            Single(0),
            Single(1),
            Single(2),
            Single(3),
            Single(3),
            Single(3),
            Single(1),
            Single(1),
        ],
        compressed.components()
    );
}

#[test]
fn test_simple_repettition2() {
    let compressed = Gzipped::new(&[0, 1, 2, 3, 4, 3, 1, 1]);
    assert_eq!(
        vec![
            Single(0),
            Single(1),
            Single(2),
            Single(3),
            Single(4),
            Single(3),
            Single(1),
            Single(1),
        ],
        compressed.components()
    );
}

#[test]
fn test_some_compression() {
    let compressed = Gzipped::new(&[0, 1, 2, 3, 0, 1, 2, 3]);
    assert_eq!(
        vec![Single(0), Single(1), Single(2), Single(3), Span(0, 3)],
        compressed.components()
    );
}

#[test]
fn test_bigger_compression() {
    let compressed = Gzipped::new(&[0, 1, 2, 3, 4, 0, 1, 2, 3, 4]);
    assert_eq!(
        vec![Single(0), Single(1), Single(2), Single(3), Single(4), Span(0, 4)],
        compressed.components()
    );
}

#[test]
fn test_bigger_compression_with_repeat() {
    let compressed = Gzipped::new(&[0, 1, 2, 3, 4, 0, 1, 2, 3, 4, 0, 1, 2, 3, 4]);
    assert_eq!(
        vec![Single(0), Single(1), Single(2), Single(3), Single(4), Span(0, 4), Span(0, 4)],
        compressed.components()
    );
}

#[test]
fn test_bigger_compression_with_repeat_and_a_break() {
    let compressed = Gzipped::new(&[0, 1, 2, 3, 4, 0, 1, 2, 3, 4, 5, 0, 1, 2, 3, 4]);
    assert_eq!(
        vec![
            Single(0),
            Single(1),
            Single(2),
            Single(3),
            Single(4),
            Span(0, 4),
            Single(5),
            Span(0, 4)
        ],
        compressed.components()
    );
}

fn samples() -> Vec<Vec<u8>> {
    vec![
        vec![],
        vec![7],
        vec![0, 1, 2],
        vec![0, 1, 2, 3, 3, 3, 1, 1],
        vec![0, 1, 0, 1, 5],
        vec![9, 9, 9, 9, 9, 9],
        b"abracadabra abracadabra".to_vec(),
        (0..=255u8).chain(0..=255u8).collect(),
    ]
}

#[test]
fn round_trip_restores_input() {
    for input in samples() {
        let compressed = Gzipped::new(&input);
        assert_eq!(input, compressed.decode_all());
    }
}

#[test]
fn match_ending_one_byte_before_input_end_keeps_last_byte() {
    let compressed = Gzipped::new(&[0, 1, 0, 1, 5]);
    assert_eq!(
        vec![Single(0), Single(1), Span(0, 1), Single(2)],
        compressed.components()
    );
    assert_eq!(vec![0, 1, 0, 1, 5], compressed.decode_all());
}

#[test]
fn empty_input_gives_empty_buffer_and_components() {
    let compressed = Gzipped::new(&[]);
    assert!(compressed.raw().is_empty());
    assert_eq!(0, compressed.len());
    assert_eq!(None, compressed.get(0));
}

#[test]
fn no_repetition_keeps_each_byte_in_buffer() {
    let compressed = Gzipped::new(&[0, 1, 2]);
    assert_eq!(&[0u8, 1, 2][..], compressed.raw());
}

#[test]
fn spans_never_cover_a_single_byte() {
    for input in samples() {
        let compressed = Gzipped::new(&input);
        for c in compressed.components() {
            if let Span(s, e) = c {
                assert!(s < e);
            }
        }
    }
}

#[test]
fn get_is_none_past_the_last_component() {
    let compressed = Gzipped::new(&[0, 1, 2, 3, 0, 1, 2, 3]);
    assert_eq!(5, compressed.len());
    assert_eq!(Some(vec![0]), compressed.get(0));
    assert_eq!(Some(vec![3]), compressed.get(3));
    assert_eq!(Some(vec![0, 1, 2, 3]), compressed.get(4));
    assert_eq!(None, compressed.get(5));
    assert_eq!(None, compressed.get(usize::MAX));
}

#[test]
fn reencoding_decoded_output_round_trips() {
    for input in samples() {
        let once = Gzipped::new(&input);
        let again = Gzipped::new(&once.decode_all());
        assert_eq!(input, again.decode_all());
    }
}

#[test]
fn repeated_byte_matches_first_occurrence() {
    let compressed = Gzipped::new(&[9, 9, 9, 9]);
    assert_eq!(
        vec![Single(0), Single(0), Single(0), Single(0)],
        compressed.components()
    );
    assert_eq!(&[9u8][..], compressed.raw());
}

#[test]
fn decode_component_reads_single_and_span() {
    let raw = [5u8, 6, 7, 8];
    assert_eq!(Ok(vec![7]), decode_component(&raw, &Single(2)));
    assert_eq!(Ok(vec![6, 7, 8]), decode_component(&raw, &Span(1, 3)));
    assert_eq!(Ok(vec![6]), decode_component(&raw, &Span(1, 1)));
}

#[test]
fn decode_component_rejects_bad_indices() {
    let raw = [5u8, 6, 7, 8];
    assert_eq!(Err(DecodeError::IndexOutOfRange), decode_component(&raw, &Single(4)));
    assert_eq!(Err(DecodeError::IndexOutOfRange), decode_component(&raw, &Span(2, 4)));
    assert_eq!(Err(DecodeError::IndexOutOfRange), decode_component(&raw, &Span(3, 1)));
    assert_eq!(Err(DecodeError::IndexOutOfRange), decode_component(&[], &Single(0)));
}

#[test]
fn framed_marks_only_multi_byte_runs() {
    let compressed = Gzipped::new(b"abab");
    let on = b"<";
    let off = b">";
    let mut out: Vec<u8> = Vec::new();
    for i in 0..compressed.len() {
        out.extend(compressed.framed(i, on, off).unwrap());
    }
    assert_eq!(b"ab<ab>".to_vec(), out);
    assert_eq!(None, compressed.framed(3, on, off));
}
