use gba_assets::lz77::compress::{compress, maybe_compress};
use gba_assets::lz77::decompress::{decompress, DecompressError};
use gba_assets::lz77::matcher::CompressionStrategy;

const RECENT: CompressionStrategy = CompressionStrategy::CheckMostRecentOnly;
const ALL: CompressionStrategy = CompressionStrategy::CheckAllCandidates;

fn sample(len: usize, seed: u32, alphabet: u32) -> Vec<u8> {
    let mut state = seed;
    let mut out = Vec::with_capacity(len);
    for _ in 0..len {
        state = state.wrapping_mul(1664525).wrapping_add(1013904223);
        out.push(((state >> 16) % alphabet) as u8);
    }
    out
}

#[test]
fn empty_input_is_a_bare_header() {
    for strategy in [RECENT, ALL] {
        let frame = compress(&[], strategy);
        assert_eq!(frame, vec![0x10, 0x00, 0x00, 0x00]);
        let (bytes, errors) = decompress(&frame);
        assert_eq!(bytes, Vec::<u8>::new());
        assert_eq!(errors, Vec::<DecompressError>::new());
    }
}

#[test]
fn three_distinct_bytes_are_three_literals() {
    let frame = compress(&[0x41, 0x42, 0x43], RECENT);
    assert_eq!(frame, vec![0x10, 0x03, 0x00, 0x00, 0x00, 0x41, 0x42, 0x43]);
    assert_eq!(frame.len(), 8);
}

#[test]
fn a_run_is_one_literal_and_an_overlapping_reference() {
    let input = [0u8; 18];
    for strategy in [RECENT, ALL] {
        let frame = compress(&input, strategy);
        assert_eq!(frame.len(), 8);
        assert_eq!(&frame[..4], &[0x10, 0x12, 0x00, 0x00]);
        // The literal takes the first slot, the reference the second.
        assert_eq!(frame[4], 0x40);
        assert_eq!(frame[5], 0x00);
        assert_eq!(&frame[6..], &[0xE0, 0x00]);
        let (bytes, errors) = decompress(&frame);
        assert_eq!(bytes, input.to_vec());
        assert!(errors.is_empty());
    }
}

#[test]
fn a_wrong_first_byte_is_a_bad_header() {
    let (bytes, errors) = decompress(&[0x11, 0x00, 0x00, 0x00]);
    assert_eq!(bytes, Vec::<u8>::new());
    assert_eq!(errors, vec![DecompressError::BadHeader]);
}

#[test]
fn fewer_than_four_bytes_are_too_short() {
    for input in [&[][..], &[0x10][..], &[0x10, 0x01, 0x00][..], &[0x11, 0x00][..]] {
        let (bytes, errors) = decompress(input);
        assert_eq!(bytes, Vec::<u8>::new());
        assert_eq!(errors, vec![DecompressError::DataTooShort]);
    }
}

#[test]
fn a_missing_flag_byte_is_reported() {
    let (bytes, errors) = decompress(&[0x10, 0x02, 0x00, 0x00]);
    assert_eq!(bytes, Vec::<u8>::new());
    assert_eq!(errors, vec![DecompressError::UnexpectedEof { expected: "flag byte" }]);
}

#[test]
fn a_missing_literal_is_reported_and_the_output_so_far_returned() {
    let (bytes, errors) = decompress(&[0x10, 0x03, 0x00, 0x00, 0x00, 0x41]);
    assert_eq!(bytes, vec![0x41]);
    assert_eq!(errors, vec![DecompressError::UnexpectedEof { expected: "literal" }]);
}

#[test]
fn a_cut_reference_is_reported() {
    let (bytes, errors) = decompress(&[0x10, 0x05, 0x00, 0x00, 0x40, 0x41, 0x10]);
    assert_eq!(bytes, vec![0x41]);
    assert_eq!(errors, vec![DecompressError::UnexpectedEof { expected: "backref" }]);
}

#[test]
fn a_second_group_needs_its_own_flag_byte() {
    let mut frame = vec![0x10, 0x09, 0x00, 0x00, 0x00];
    frame.extend_from_slice(b"ABCDEFGH");
    let (bytes, errors) = decompress(&frame);
    assert_eq!(bytes, b"ABCDEFGH".to_vec());
    assert_eq!(errors, vec![DecompressError::UnexpectedEof { expected: "flag byte" }]);
}

#[test]
fn a_reference_before_the_start_becomes_zeros_and_decoding_goes_on() {
    // Token 0 is a literal, token 1 reaches 3 bytes back with 1 byte out,
    // token 2 is a literal again.
    let frame = [0x10, 0x06, 0x00, 0x00, 0x40, 0x41, 0x10, 0x02, 0x42];
    let (bytes, errors) = decompress(&frame);
    assert_eq!(bytes, vec![0x41, 0x00, 0x00, 0x00, 0x00, 0x42]);
    assert_eq!(errors, vec![DecompressError::BadReference { i: 1, offs: 3 }]);
}

#[test]
fn several_bad_references_are_all_collected() {
    let frame = [0x10, 0x06, 0x00, 0x00, 0xC0, 0x00, 0x00, 0x0F, 0xFF];
    let (bytes, errors) = decompress(&frame);
    assert_eq!(bytes, vec![0u8; 6]);
    assert_eq!(
        errors,
        vec![
            DecompressError::BadReference { i: 0, offs: 1 },
            DecompressError::BadReference { i: 1, offs: 4096 },
        ]
    );
}

#[test]
fn a_run_is_appended_whole_even_past_the_length_in_the_header() {
    let frame = [0x10, 0x03, 0x00, 0x00, 0x40, 0x07, 0x20, 0x00];
    let (bytes, errors) = decompress(&frame);
    assert_eq!(bytes, vec![7u8; 6]);
    assert!(errors.is_empty());
}

#[test]
fn input_after_the_last_token_is_ignored() {
    let frame = [0x10, 0x02, 0x00, 0x00, 0x00, 0x41, 0x42, 0xFF, 0xFF, 0xFF];
    let (bytes, errors) = decompress(&frame);
    assert_eq!(bytes, vec![0x41, 0x42]);
    assert!(errors.is_empty());
}

#[test]
fn the_remaining_slots_of_a_flag_byte_are_not_read_once_the_length_is_reached() {
    // With nothing to produce, not even the flag byte is read.
    let (bytes, errors) = decompress(&[0x10, 0x00, 0x00, 0x00, 0xFF]);
    assert_eq!(bytes, Vec::<u8>::new());
    assert!(errors.is_empty());
    // After the one literal needed, the slots marked as references are left
    // alone.
    let (bytes, errors) = decompress(&[0x10, 0x01, 0x00, 0x00, 0x7F, 0x41, 0xF0, 0x00]);
    assert_eq!(bytes, vec![0x41]);
    assert!(errors.is_empty());
}

#[test]
fn nine_literals_take_two_groups() {
    let frame = compress(b"ABCDEFGHI", RECENT);
    assert_eq!(
        frame,
        vec![
            0x10, 0x09, 0x00, 0x00, 0x00, 0x41, 0x42, 0x43, 0x44, 0x45, 0x46, 0x47, 0x48, 0x00,
            0x49
        ]
    );
}

#[test]
fn a_long_run_is_split_into_references_of_at_most_eighteen() {
    let frame = compress(&[7u8; 40], RECENT);
    assert_eq!(
        frame,
        vec![0x10, 0x28, 0x00, 0x00, 0x70, 0x07, 0xF0, 0x00, 0xF0, 0x00, 0x00, 0x00]
    );
    let (bytes, errors) = decompress(&frame);
    assert_eq!(bytes, vec![7u8; 40]);
    assert!(errors.is_empty());
}

#[test]
fn of_equally_long_runs_the_nearest_is_taken() {
    let frame = compress(b"abcXabcYabc", ALL);
    assert_eq!(
        frame,
        vec![0x10, 0x0B, 0x00, 0x00, 0x0A, 0x61, 0x62, 0x63, 0x58, 0x00, 0x03, 0x59, 0x00, 0x03]
    );
}

#[test]
fn the_quick_strategy_looks_at_the_nearest_equal_byte_only() {
    let input = b"abcdXaYabcd";
    let thorough = compress(input, ALL);
    let quick = compress(input, RECENT);
    assert_eq!(
        thorough,
        vec![0x10, 0x0B, 0x00, 0x00, 0x01, 0x61, 0x62, 0x63, 0x64, 0x58, 0x61, 0x59, 0x10, 0x06]
    );
    assert_eq!(
        quick,
        vec![
            0x10, 0x0B, 0x00, 0x00, 0x00, 0x61, 0x62, 0x63, 0x64, 0x58, 0x61, 0x59, 0x61, 0x80,
            0x00, 0x06
        ]
    );
    assert!(thorough.len() <= quick.len());
}

#[test]
fn taking_the_longest_run_at_each_place_can_cost_a_byte() {
    let input = [0u8, 0, 0, 1, 0, 0, 0, 0, 0];
    let thorough = compress(&input, ALL);
    let quick = compress(&input, RECENT);
    assert_eq!(
        thorough,
        vec![0x10, 0x09, 0x00, 0x00, 0x08, 0x00, 0x00, 0x00, 0x01, 0x00, 0x03, 0x00, 0x00]
    );
    assert_eq!(
        quick,
        vec![0x10, 0x09, 0x00, 0x00, 0x04, 0x00, 0x00, 0x00, 0x01, 0x00, 0x10, 0x00]
    );
    assert_eq!(decompress(&thorough).0, input.to_vec());
    assert_eq!(decompress(&quick).0, input.to_vec());
}

#[test]
fn a_reference_reaches_back_4096_bytes_and_no_further() {
    let mut input = b"ABC".to_vec();
    input.extend_from_slice(&[0u8; 4093]);
    input.extend_from_slice(b"ABC");
    let frame = compress(&input, ALL);
    assert_eq!(&frame[frame.len() - 2..], &[0x0F, 0xFF]);
    assert_eq!(decompress(&frame), (input, vec![]));

    let mut input = b"ABC".to_vec();
    input.extend_from_slice(&[0u8; 4094]);
    input.extend_from_slice(b"ABC");
    let frame = compress(&input, ALL);
    assert_eq!(&frame[frame.len() - 3..], b"ABC");
    assert_eq!(decompress(&frame), (input, vec![]));
}

#[test]
fn the_header_holds_the_length_in_three_bytes() {
    let input = sample(0x012345, 7, 4);
    let frame = compress(&input, RECENT);
    assert_eq!(&frame[..4], &[0x10, 0x45, 0x23, 0x01]);
    let input = sample(0x0203, 8, 4);
    let frame = compress(&input, ALL);
    assert_eq!(&frame[..4], &[0x10, 0x03, 0x02, 0x00]);
}

#[test]
fn what_is_compressed_decompresses_to_itself() {
    let mut inputs: Vec<Vec<u8>> = vec![
        vec![],
        vec![0],
        vec![1, 2],
        b"to be or not to be, that is the question".to_vec(),
        vec![0xFF; 5000],
    ];
    for (len, seed, alphabet) in [(1usize, 1u32, 2u32), (64, 2, 2), (1000, 3, 3), (9000, 4, 5), (3000, 5, 256)] {
        inputs.push(sample(len, seed, alphabet));
    }
    for input in inputs {
        for strategy in [RECENT, ALL] {
            let frame = compress(&input, strategy);
            let (bytes, errors) = decompress(&frame);
            assert_eq!(bytes, input);
            assert_eq!(errors, Vec::<DecompressError>::new());
        }
    }
}

#[test]
fn both_strategies_give_frames_that_decode_alike() {
    let input = sample(5000, 11, 3);
    let quick = compress(&input, RECENT);
    let thorough = compress(&input, ALL);
    assert_eq!(decompress(&quick).0, decompress(&thorough).0);
    assert_eq!(decompress(&quick).0, input);
}

#[test]
fn compression_is_optional() {
    let data = vec![5u8; 20];
    assert_eq!(maybe_compress(false, data.clone()), data);
    assert_eq!(maybe_compress(true, data.clone()), compress(&data, ALL));
}

#[test]
fn the_diagnostics_are_built_by_their_constructors() {
    assert_eq!(
        DecompressError::bad_reference(3, 9),
        DecompressError::BadReference { i: 3, offs: 9 }
    );
    assert_eq!(DecompressError::data_too_short(), DecompressError::DataTooShort);
    assert_eq!(DecompressError::bad_header(), DecompressError::BadHeader);
    assert_eq!(
        DecompressError::unexpected_eof("literal"),
        DecompressError::UnexpectedEof { expected: "literal" }
    );
}

#[test]
fn two_letter_noise_compresses_to_known_frames() {
    let input = sample(96, 21, 2);
    assert_eq!(
        compress(&input, RECENT),
        vec![
            16, 96, 0, 0, 0, 0, 1, 0, 1, 1, 0, 1, 0, 139, 0, 0, 1, 1, 1, 16, 3, 1, 0, 4, 48, 2,
            3, 1, 0, 0, 1, 1, 0, 16, 0, 32, 5, 80, 1, 64, 1, 0, 0, 2, 0, 1, 1, 0, 9, 0, 1, 1, 0,
            0, 0, 1, 1, 48, 2, 4, 1, 0, 1, 0, 0, 48, 2, 0, 1, 192, 32, 0, 0, 6, 0
        ]
    );
    assert_eq!(
        compress(&input, ALL),
        vec![
            16, 96, 0, 0, 10, 0, 1, 0, 1, 0, 2, 0, 0, 0, 1, 255, 16, 8, 48, 4, 48, 2, 0, 21, 16,
            3, 16, 26, 48, 4, 48, 1, 252, 32, 13, 112, 28, 112, 45, 48, 26, 48, 29, 80, 72
        ]
    );
}

#[test]
fn three_letter_noise_compresses_to_known_frames() {
    let input = sample(96, 22, 3);
    assert_eq!(
        compress(&input, RECENT),
        vec![
            16, 96, 0, 0, 2, 0, 2, 2, 1, 0, 2, 16, 1, 2, 8, 0, 2, 1, 2, 16, 0, 0, 0, 2, 0, 0, 1,
            1, 2, 1, 0, 0, 1, 64, 1, 16, 2, 2, 1, 1, 1, 0, 0, 0, 1, 2, 1, 0, 2, 0, 1, 2, 97, 0,
            16, 1, 0, 6, 0, 2, 2, 0, 0, 0, 0, 2, 0, 1, 0, 0, 0, 1, 1, 4, 1, 0, 2, 1, 2, 0, 0, 0,
            1, 0, 1, 0, 1, 0, 2, 1, 2, 0, 128, 0, 2, 2, 1, 2
        ]
    );
    assert_eq!(
        compress(&input, ALL),
        vec![
            16, 96, 0, 0, 3, 0, 2, 2, 1, 0, 2, 16, 1, 0, 2, 41, 1, 2, 16, 0, 0, 0, 13, 1, 1, 0,
            22, 203, 0, 5, 16, 2, 2, 1, 0, 4, 0, 16, 16, 0, 23, 255, 32, 42, 16, 6, 16, 48, 0, 0,
            0, 11, 0, 5, 16, 33, 48, 61, 224, 32, 51, 16, 11, 32, 42, 1, 2
        ]
    );
}
