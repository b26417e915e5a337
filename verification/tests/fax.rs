use sipcord_bridge::fax::bits::{reverse_bits, BitReader};
use sipcord_bridge::fax::codes::CodeTables;
use sipcord_bridge::fax::error::FaxError;
use sipcord_bridge::fax::group::{decode_group3, decode_group4};
use sipcord_bridge::fax::lines::{find_b1, find_b2, Color};
use sipcord_bridge::fax::page::{
    assemble_image, check_tiff_size, collect_strips, decode_fax_tiff_data,
};
use sipcord_bridge::fax::spandsp::{
    check_completion, downsample_16k_to_8k, get_fax_stats, tx_repeat, upsample_8k_to_16k,
    CodeMeaning, FaxCallbackState, FaxReceiver, FaxRxStatus, FaxT38Receiver,
};
use sipcord_bridge::fax::tiff::{ifd_chain_ends, parse_tiff_ifds};

#[test]
fn bit_reverse_lut_spot_checks() {
    assert_eq!(reverse_bits(0x00), 0x00);
    assert_eq!(reverse_bits(0xFF), 0xFF);
    assert_eq!(reverse_bits(0x80), 0x01);
    assert_eq!(reverse_bits(0x01), 0x80);
    assert_eq!(reverse_bits(0xAA), 0x55);
    assert_eq!(reverse_bits(0x55), 0xAA);
}

#[test]
fn bit_reverse_lut_double_reverse_is_identity() {
    for i in 0..=255u8 {
        assert_eq!(reverse_bits(reverse_bits(i)), i);
    }
}

#[test]
fn bit_reader_peek_and_consume() {
    let data = [0xA5];
    let mut reader = BitReader::new(&data);
    assert_eq!(reader.peek(4), Some(0b1010));
    reader.consume(4);
    assert_eq!(reader.peek(4), Some(0b0101));
}

#[test]
fn bit_reader_peek_more_than_available() {
    let data = [0xFF];
    let reader = BitReader::new(&data);
    assert!(reader.peek(9).is_none());
}

#[test]
fn bit_reader_scan_for_eol_found() {
    let data = [0x00, 0x01];
    let mut reader = BitReader::new(&data);
    assert!(reader.scan_for_eol());
}

#[test]
fn bit_reader_scan_for_eol_not_found() {
    let data = [0xFF, 0xFF];
    let mut reader = BitReader::new(&data);
    assert!(!reader.scan_for_eol());
}

#[test]
fn bit_reader_scan_for_eol_empty() {
    let data: [u8; 0] = [];
    let mut reader = BitReader::new(&data);
    assert!(!reader.scan_for_eol());
}

#[test]
fn bit_reader_crosses_its_buffer() {
    let data: Vec<u8> = (0..40u8).collect();
    let mut reader = BitReader::new(&data);
    for b in 0..40u8 {
        assert_eq!(reader.peek(8), Some(b as u16));
        reader.consume(8);
    }
    assert_eq!(reader.peek(1), None);
}

#[test]
fn assemble_image_white_is_zero_transitions() {
    let lines = vec![vec![100u16, 200u16]];
    let img = assemble_image(&lines, 300, 1, 0);
    assert_eq!(img.width(), 300);
    assert_eq!(img.height(), 1);
    assert_eq!(img.pixel(0, 0), 255);
    assert_eq!(img.pixel(99, 0), 255);
    assert_eq!(img.pixel(100, 0), 0);
    assert_eq!(img.pixel(199, 0), 0);
    assert_eq!(img.pixel(200, 0), 255);
    assert_eq!(img.pixel(299, 0), 255);
}

#[test]
fn assemble_image_black_is_zero_inverted() {
    let lines = vec![vec![100u16, 200u16]];
    let img = assemble_image(&lines, 300, 1, 1);
    assert_eq!(img.pixel(0, 0), 0);
    assert_eq!(img.pixel(99, 0), 0);
    assert_eq!(img.pixel(100, 0), 255);
    assert_eq!(img.pixel(199, 0), 255);
    assert_eq!(img.pixel(200, 0), 0);
    assert_eq!(img.pixel(299, 0), 0);
}

#[test]
fn assemble_image_empty_transitions_all_white() {
    let lines: Vec<Vec<u16>> = vec![vec![]];
    let img = assemble_image(&lines, 100, 1, 0);
    for x in 0..100 {
        assert_eq!(img.pixel(x, 0), 255, "Pixel {} should be white", x);
    }
}

#[test]
fn test_assemble_image_uses_actual_height_not_declared() {
    let width = 10u32;
    let declared_height = 100u32;
    let lines: Vec<Vec<u16>> = (0..30).map(|_| vec![5, 10]).collect();
    let img = assemble_image(&lines, width, declared_height, 0);
    assert_eq!(img.height(), 30);
    assert_eq!(img.width(), width);
}

#[test]
fn test_assemble_image_full_page_unchanged() {
    let width = 10u32;
    let height = 50u32;
    let lines: Vec<Vec<u16>> = (0..50).map(|_| vec![5, 10]).collect();
    let img = assemble_image(&lines, width, height, 0);
    assert_eq!(img.height(), 50);
    assert_eq!(img.width(), width);
}

#[test]
fn transitions_that_go_back_draw_nothing() {
    let lines = vec![vec![6u16, 3u16, 8u16, 400u16], vec![0u16]];
    let img = assemble_image(&lines, 10, 2, 0);
    let px = img.into_pixels();
    assert_eq!(px[..10], [255, 255, 255, 255, 255, 255, 255, 255, 0, 0]);
    assert_eq!(px[10..], [0; 10]);
}

/// Packs bits given as text.
fn pack(bits: &str) -> Vec<u8> {
    let digits: Vec<u8> = bits.bytes().filter(|b| *b == b'0' || *b == b'1').collect();
    digits
        .chunks(8)
        .map(|c| {
            let mut b = 0u8;
            for k in 0..8 {
                b = b << 1 | if k < c.len() && c[k] == b'1' { 1 } else { 0 };
            }
            b
        })
        .collect()
}

#[test]
fn group4_lines_are_decoded() {
    let tables = CodeTables::new();
    // First line: horizontal mode, white 3, black 2, then vertical to the end of the line.
    // Second line: three vertical modes copy it. Then an end-of-line code.
    let data = pack("001 1000 11 1  1 1 1  000000000001 000000000001");
    let lines = decode_group4(&data, &tables, 8, 10).unwrap();
    assert_eq!(lines, vec![vec![3, 5], vec![3, 5]]);
}

#[test]
fn group4_without_lines_is_an_error() {
    let tables = CodeTables::new();
    let data = pack("000000000001 000000000001");
    match decode_group4(&data, &tables, 8, 10) {
        Err(FaxError::Tiff(m)) => assert_eq!(m, "Group 4 decoder produced no lines"),
        other => panic!("unexpected {:?}", other),
    }
}

#[test]
fn group3_lines_are_decoded() {
    let tables = CodeTables::new();
    // EOL, then white 3, black 2, white 3; EOL, white 8; six EOLs end the page.
    let eol = "000000000001";
    let data = pack(&format!(
        "{eol} 1000 11 1000 {eol} 10011 {eol}{eol}{eol}{eol}{eol}{eol} 0000000000000000"
    ));
    let lines = decode_group3(&data, &tables, 8, 100, 0).unwrap();
    assert_eq!(lines, vec![vec![3, 5], vec![]]);
}

#[test]
fn group3_two_dimensional_with_fill_bits() {
    let tables = CodeTables::new();
    let eol = "000000000001";
    // Tag 1: one-dimensional line; fill bits; tag 0: two-dimensional line.
    let data = pack(&format!(
        "{eol} 1 1000 11 1000 00000 {eol} 0 1 011 1 00 {eol} 1"
    ));
    let lines = decode_group3(&data, &tables, 8, 2, 5).unwrap();
    assert_eq!(lines, vec![vec![3, 5], vec![3, 6]]);
}

#[test]
fn group3_errors() {
    let tables = CodeTables::new();
    match decode_group3(&[0xFF, 0xFF], &tables, 8, 1, 0) {
        Err(FaxError::Tiff(m)) => assert_eq!(m, "No EOL found at start of Group 3 data"),
        other => panic!("unexpected {:?}", other),
    }
    match decode_group3(&pack("000000000001"), &tables, 8, 1, 0) {
        Err(FaxError::Tiff(m)) => assert_eq!(m, "Group 3 decoder produced no lines"),
        other => panic!("unexpected {:?}", other),
    }
}

#[test]
fn makeup_codes_add_up() {
    let tables = CodeTables::new();
    // White 64 + 0, black 64 + 1, white to the end: 2560 + 2560 + 63.
    let data = pack(
        "001 11011 00110101 0000001111 010 \
         001 000000011111 000000011111 00110100 11 \
         000000000001 000000000001 0000000000",
    );
    let lines = decode_group4(&data, &tables, 5312, 1).unwrap();
    assert_eq!(lines, vec![vec![64, 129, 5312]]);
}

fn push16(v: &mut Vec<u8>, le: bool, x: u16) {
    if le {
        v.extend_from_slice(&x.to_le_bytes());
    } else {
        v.extend_from_slice(&x.to_be_bytes());
    }
}

fn push32(v: &mut Vec<u8>, le: bool, x: u32) {
    if le {
        v.extend_from_slice(&x.to_le_bytes());
    } else {
        v.extend_from_slice(&x.to_be_bytes());
    }
}

/// A TIFF file with one page whose strip is `strip`.
fn tiff(le: bool, compression: u16, fill_order: u16, strip: &[u8], next: u32) -> Vec<u8> {
    let mut v: Vec<u8> = Vec::new();
    v.extend_from_slice(if le { b"II" } else { b"MM" });
    push16(&mut v, le, 42);
    push32(&mut v, le, 8);
    let entries: Vec<(u16, u16, u32, u32, bool)> = vec![
        (256, 3, 1, 8, true),
        (257, 4, 1, 2, false),
        (259, 3, 1, compression as u32, true),
        (262, 3, 1, 0, true),
        (266, 3, 1, fill_order as u32, true),
        (273, 4, 1, 200, false),
        (279, 4, 1, strip.len() as u32, false),
        (282, 5, 1, 180, false),
        (283, 5, 1, 188, false),
    ];
    push16(&mut v, le, entries.len() as u16);
    for (tag, typ, count, value, short) in entries {
        push16(&mut v, le, tag);
        push16(&mut v, le, typ);
        push32(&mut v, le, count);
        if short {
            push16(&mut v, le, value as u16);
            push16(&mut v, le, 0);
        } else {
            push32(&mut v, le, value);
        }
    }
    push32(&mut v, le, next);
    v.resize(180, 0);
    push32(&mut v, le, 204);
    push32(&mut v, le, 1);
    push32(&mut v, le, 98);
    push32(&mut v, le, 1);
    v.resize(200, 0);
    v.extend_from_slice(strip);
    v
}

#[test]
fn whole_files_are_decoded() {
    let strip = pack("001 1000 11 1  1 1 1  000000000001 000000000001");
    for le in [true, false] {
        let data = tiff(le, 4, 1, &strip, 0);
        assert!(ifd_chain_ends(&data));
        let pages = parse_tiff_ifds(&data).unwrap();
        assert_eq!(pages.len(), 1);
        assert_eq!(pages[0].width, 8);
        assert_eq!(pages[0].height, 2);
        assert_eq!(pages[0].x_resolution, Some((204, 1)));
        assert_eq!(pages[0].y_resolution, Some((98, 1)));
        assert_eq!(collect_strips(&data, &pages[0]).unwrap(), strip);
        let images = decode_fax_tiff_data(&data).unwrap();
        assert_eq!(images.len(), 1);
        assert_eq!(images[0].x_resolution, Some((204, 1)));
        let img = &images[0].image;
        assert_eq!((img.width(), img.height()), (8, 2));
        for y in 0..2 {
            let row: Vec<u8> = (0..8).map(|x| img.pixel(x, y)).collect();
            assert_eq!(row, vec![255, 255, 255, 0, 0, 255, 255, 255]);
        }
    }
}

#[test]
fn reversed_bit_order_is_undone() {
    let strip: Vec<u8> = pack("001 1000 11 1  1 1 1  000000000001 000000000001")
        .into_iter()
        .map(|b| b.reverse_bits())
        .collect();
    let data = tiff(true, 4, 2, &strip, 0);
    let images = decode_fax_tiff_data(&data).unwrap();
    assert_eq!(images[0].image.pixel(3, 0), 0);
    assert_eq!(images[0].image.pixel(5, 1), 255);
    let plain: Vec<u8> = strip.iter().map(|b| b.reverse_bits()).collect();
    let same = decode_fax_tiff_data(&tiff(true, 4, 1, &plain, 0)).unwrap();
    for (a, b) in images.into_iter().zip(same) {
        assert_eq!(a.image.into_pixels(), b.image.into_pixels());
    }
}

fn tiff_message(data: &[u8]) -> String {
    match decode_fax_tiff_data(data) {
        Err(FaxError::Tiff(m)) => m,
        other => panic!("unexpected {:?}", other.map(|p| p.len())),
    }
}

#[test]
fn broken_files_are_refused() {
    assert_eq!(tiff_message(&[0x49, 0x49, 42]), "TIFF file too short");
    assert_eq!(tiff_message(b"XX\x2a\x00\x08\x00\x00\x00"), "Not a TIFF file");
    assert_eq!(tiff_message(b"II\x2b\x00\x08\x00\x00\x00"), "Bad TIFF magic: 43");
    assert_eq!(tiff_message(b"II\x2a\x00\x00\x00\x00\x00"), "No IFDs found in TIFF");
    assert_eq!(
        tiff_message(&tiff(true, 5, 1, &[1, 2, 3], 0)),
        "Unsupported TIFF compression: 5"
    );
    let mut short = tiff(true, 4, 1, &[1, 2, 3], 0);
    short.truncate(201);
    assert_eq!(
        tiff_message(&short),
        "TIFF strip extends past file: offset=200, count=3, file_len=201"
    );
}

#[test]
fn circular_directories_are_noticed() {
    let data = tiff(true, 4, 1, &[0xFF], 8);
    assert!(!ifd_chain_ends(&data));
    assert!(ifd_chain_ends(&tiff(true, 4, 1, &[0xFF], 0)));
    assert!(ifd_chain_ends(b"no"));
}

#[test]
fn large_files_are_refused() {
    assert!(check_tiff_size(52_428_800).is_ok());
    match check_tiff_size(52_428_801) {
        Err(FaxError::Tiff(m)) => assert_eq!(
            m,
            "TIFF file too large: 52428801 bytes (max 52428800 bytes)"
        ),
        other => panic!("unexpected {:?}", other),
    }
}

#[test]
fn check_completion_not_completed_returns_in_progress() {
    let state = FaxCallbackState {
        negotiation_started: false,
        pages_received: 0,
        completion_code: -1,
        completed: false,
    };
    assert_eq!(check_completion(&state, &CodeMeaning::Unknown), FaxRxStatus::InProgress);
}

#[test]
fn check_completion_completed_code_0_returns_complete() {
    let state = FaxCallbackState {
        negotiation_started: true,
        pages_received: 1,
        completion_code: 0,
        completed: true,
    };
    assert_eq!(check_completion(&state, &CodeMeaning::Success), FaxRxStatus::Complete);
}

#[test]
fn check_completion_completed_bad_code_returns_error() {
    let state = FaxCallbackState {
        negotiation_started: true,
        pages_received: 0,
        completion_code: 42,
        completed: true,
    };
    match check_completion(&state, &CodeMeaning::Failure("no such page".to_string())) {
        FaxRxStatus::Error(msg) => {
            assert!(msg.contains("42") || msg.contains("failed") || msg.contains("Fax"));
            assert_eq!(msg, "Fax failed: no such page");
        }
        other => panic!("Expected Error, got {:?}", other),
    }
    match check_completion(&state, &CodeMeaning::Unknown) {
        FaxRxStatus::Error(msg) => {
            assert_eq!(msg, "Fax failed with unknown T.30 error code 42");
        }
        other => panic!("Expected Error, got {:?}", other),
    }
}

#[test]
fn downsample_even_count() {
    let mut buf = Vec::new();
    let samples: Vec<i16> = vec![100, 200, 300, 400, 500, 600, 700, 800, 900, 1000];
    let out = downsample_16k_to_8k(&mut buf, &samples);
    assert_eq!(out.len(), 5);
    assert_eq!(out[0], 150);
    assert_eq!(out[1], 350);
    assert_eq!(out[2], 550);
    assert_eq!(out[3], 750);
    assert_eq!(out[4], 950);
    assert!(buf.is_empty());
}

#[test]
fn downsample_odd_count_preserves_leftover() {
    let mut buf = Vec::new();
    let samples: Vec<i16> = vec![100, 200, 300];
    let out = downsample_16k_to_8k(&mut buf, &samples);
    assert_eq!(out.len(), 1);
    assert_eq!(out[0], 150);
    assert_eq!(buf.len(), 1);
    assert_eq!(buf[0], 300);
}

#[test]
fn downsample_sequential_calls_bridge_accumulator() {
    let mut buf = Vec::new();
    let out1 = downsample_16k_to_8k(&mut buf, &[10, 20, 30]);
    assert_eq!(out1, vec![15]);
    assert_eq!(buf, vec![30]);
    let out2 = downsample_16k_to_8k(&mut buf, &[40, 50]);
    assert_eq!(out2, vec![35]);
    assert_eq!(buf, vec![50]);
}

#[test]
fn downsample_single_sample_returns_empty() {
    let mut buf = Vec::new();
    let out = downsample_16k_to_8k(&mut buf, &[42]);
    assert!(out.is_empty());
    assert_eq!(buf, vec![42]);
}

#[test]
fn downsample_rounds_towards_zero() {
    let mut buf = Vec::new();
    let out = downsample_16k_to_8k(&mut buf, &[-1, -2, -32768, -32768, 32767, 32766]);
    assert_eq!(out, vec![-1, -32768, 32766]);
}

#[test]
fn upsample_basic() {
    let input: Vec<i16> = vec![100, 200, 300, 400];
    let mut out = vec![0i16; 8];
    let written = upsample_8k_to_16k(&input, &mut out);
    assert_eq!(written, 8);
    assert_eq!(out, vec![100, 100, 200, 200, 300, 300, 400, 400]);
}

#[test]
fn upsample_empty_input() {
    let mut out = vec![0i16; 8];
    let written = upsample_8k_to_16k(&[], &mut out);
    assert_eq!(written, 0);
}

#[test]
fn resampling_there_and_back() {
    let input: Vec<i16> = vec![7, -7, 32767, -32768, 0];
    let mut up = vec![1i16; 12];
    assert_eq!(upsample_8k_to_16k(&input, &mut up), 10);
    assert_eq!(up[10..], [1, 1]);
    let mut buf = Vec::new();
    assert_eq!(downsample_16k_to_8k(&mut buf, &up[..10]), input);
}

#[test]
fn a_receiver_follows_its_modem() {
    let mut r = FaxReceiver::new_audio_receiver("/tmp/fax.tiff");
    assert_eq!(r.tiff_output_path(), "/tmp/fax.tiff");
    assert_eq!(r.completion_code(), -1);
    assert_eq!(r.feed_samples_16k(&[10, 20, 30]), vec![15]);
    assert_eq!(r.feed_samples_16k(&[50]), vec![40]);
    assert_eq!(r.samples_fed(), 2);
    r.negotiation_begins();
    r.page_received();
    assert_eq!(r.pages_received(), 1);
    assert_eq!(r.current_status(&CodeMeaning::Unknown), FaxRxStatus::InProgress);
    r.reception_ends(0);
    assert_eq!(r.current_status(&CodeMeaning::Success), FaxRxStatus::Complete);
    let mut out = [0i16; 4];
    assert_eq!(r.generate_tx_16k(&[5, 6], &mut out), 4);
    assert_eq!(out, [5, 5, 6, 6]);
    assert!(r.get_stats(None).is_none());
    let stats = r.get_stats(Some((14400, 1, 1728, 2199, 3, 7))).unwrap();
    assert_eq!(stats, get_fax_stats(14400, 1, 1728, 2199, 3, 1));
    assert!(stats.ecm);
    assert_eq!(tx_repeat(0, 3), None);
    assert_eq!(tx_repeat(5, 0), Some(1));
    assert_eq!(tx_repeat(5, 3), Some(3));
}

#[test]
fn t38_receptions_end_once() {
    let mut r = FaxT38Receiver::new("/tmp/received.tiff");
    assert_eq!(r.tiff_output_path(), "/tmp/received.tiff");
    assert_eq!(r.completion_code(), -1);
    r.negotiation_begins();
    r.page_received();
    assert!(matches!(r.feed_ifp_packet(None, &CodeMeaning::Unknown), FaxRxStatus::InProgress));
    match r.feed_ifp_packet(Some("gone"), &CodeMeaning::Success) {
        FaxRxStatus::Error(e) => assert_eq!(e, "T38Core error: gone"),
        other => panic!("unexpected {:?}", other),
    }
    r.reception_ends(0);
    assert!(matches!(r.current_status(&CodeMeaning::Success), FaxRxStatus::Complete));
    assert_eq!((r.pages_received(), r.completion_code()), (1, 0));
    r.reception_ends(77);
    match r.current_status(&CodeMeaning::Unknown) {
        FaxRxStatus::Error(e) => {
            assert_eq!(e, "Fax failed with unknown T.30 error code 77");
        }
        other => panic!("unexpected {:?}", other),
    }
}

#[test]
fn reference_transitions_are_found() {
    assert_eq!(find_b1(&[0, 5], 0, Color::White, 8), 0);
    assert_eq!(find_b1(&[0, 5], 0, Color::Black, 8), 5);
    assert_eq!(find_b1(&[3, 5, 7], 3, Color::White, 8), 7);
    assert_eq!(find_b1(&[3, 5], 3, Color::Black, 8), 5);
    assert_eq!(find_b1(&[3, 5], 5, Color::White, 8), 8);
    assert_eq!(find_b1(&[], 0, Color::White, 8), 8);
    assert_eq!(find_b2(&[0, 5], 0, 8), 5);
    assert_eq!(find_b2(&[0, 5], 5, 8), 8);
}

#[test]
fn lines_that_begin_black_are_copied() {
    // The first line: horizontal, white 0, black 3, then vertical to the end. The second line is
    // the same as the first: three times vertical without an offset.
    // 001 00110101 10 1 | 1 1 1
    let data = [0b0010_0110, 0b1011_0111, 0b1000_0000, 0, 0];
    let tables = CodeTables::new();
    let lines = decode_group4(&data, &tables, 8, 2).unwrap();
    assert_eq!(lines, vec![vec![0, 3], vec![0, 3]]);
}

#[test]
fn half_of_the_samples_are_fed() {
    let samples: Vec<i16> = (0..101).collect();
    for size in [1, 2, 3, 7, 101] {
        let mut r = FaxReceiver::new_audio_receiver("/tmp/fax.tiff");
        let mut fed = Vec::new();
        for chunk in samples.chunks(size) {
            fed.extend(r.feed_samples_16k(chunk));
        }
        assert_eq!(r.samples_fed(), 50);
        assert_eq!(fed, (0..50).map(|i| 2 * i).collect::<Vec<i16>>());
    }
}

#[test]
fn a_page_declared_higher_keeps_its_rows() {
    let strip = pack("001 1000 11 1  1 1 1  000000000001 000000000001");
    let declared = |height: u8| {
        let mut data = tiff(true, 4, 1, &strip, 0);
        assert_eq!(data[30], 2);
        data[30] = height;
        decode_fax_tiff_data(&data).unwrap().remove(0).image
    };
    let (one, two, five) = (declared(1), declared(2), declared(5));
    assert_eq!(one.height(), 1);
    assert!(one.height() <= two.height() && two.height() <= five.height());
    for x in 0..8 {
        assert_eq!(one.pixel(x, 0), two.pixel(x, 0));
        for y in 0..2 {
            assert_eq!(two.pixel(x, y), five.pixel(x, y));
        }
    }
}
