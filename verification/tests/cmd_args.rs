use polaris_vbios::cmd::check::{check_exit_code, EXIT_FINDINGS, EXIT_PARSE_ERROR};
use polaris_vbios::cmd::decode::parse_indices;
use polaris_vbios::cmd::{
    final_exit_code, parse_hex_bytes, parse_num, parse_u32_hex, EXIT_ERROR, EXIT_OK, EXIT_WARNINGS,
};

#[test]
fn exit_code_prefers_error_over_warnings() {
    assert_eq!(final_exit_code(true, true), EXIT_ERROR);
    assert_eq!(final_exit_code(true, false), EXIT_ERROR);
    assert_eq!(final_exit_code(false, true), EXIT_WARNINGS);
    assert_eq!(final_exit_code(false, false), EXIT_OK);
    assert_eq!((EXIT_OK, EXIT_ERROR, EXIT_WARNINGS), (0, 1, 2));
}

#[test]
fn check_exit_code_prefers_parse_errors() {
    assert_eq!(check_exit_code(true, true), EXIT_PARSE_ERROR);
    assert_eq!(check_exit_code(true, false), 2);
    assert_eq!(check_exit_code(false, true), EXIT_FINDINGS);
    assert_eq!(check_exit_code(false, false), 0);
}

#[test]
fn parse_num_reads_trimmed_decimal() {
    assert_eq!(parse_num::<u32>(" 300 ", "clock"), Ok(300));
    assert_eq!(parse_num::<u16>("+7", "n"), Ok(7));
    assert_eq!(parse_num::<u64>("18446744073709551615", "n"), Ok(u64::MAX));
    assert_eq!(parse_num::<usize>("0", "n"), Ok(0));
    // The hex prefix is dropped, the digits stay decimal.
    assert_eq!(parse_num::<u32>("0x10", "clock"), Ok(10));
    assert_eq!(parse_num::<u32>("0X10", "clock"), Ok(10));
}

#[test]
fn parse_num_reports_what_it_could_not_read() {
    assert_eq!(
        parse_num::<u8>(" 256 ", "a byte"),
        Err("cannot parse '256' as a byte".to_string())
    );
    assert_eq!(
        parse_num::<u32>("ff", "clock"),
        Err("cannot parse 'ff' as clock".to_string())
    );
    assert_eq!(parse_num::<u32>("", "x"), Err("cannot parse '' as x".to_string()));
    assert_eq!(parse_num::<u32>("-1", "x"), Err("cannot parse '-1' as x".to_string()));
    assert_eq!(parse_num::<u32>("0x", "x"), Err("cannot parse '0x' as x".to_string()));
}

#[test]
fn parse_hex_bytes_splits_on_commas_and_spaces() {
    assert_eq!(parse_hex_bytes("0x1f, 20 ff", "timing"), Ok(vec![0x1f, 0x20, 0xff]));
    assert_eq!(parse_hex_bytes("", "timing"), Ok(vec![]));
    assert_eq!(parse_hex_bytes(" ,, ", "timing"), Ok(vec![]));
    assert_eq!(parse_hex_bytes("A\t0Xb\n+c", "timing"), Ok(vec![0xa, 0xb, 0xc]));
}

#[test]
fn parse_hex_bytes_stops_at_the_first_bad_byte() {
    assert_eq!(
        parse_hex_bytes("01,1g,zz", "timing"),
        Err("cannot parse '1g' as a hex byte in timing".to_string())
    );
    assert_eq!(
        parse_hex_bytes("100", "hex"),
        Err("cannot parse '100' as a hex byte in hex".to_string())
    );
    assert_eq!(
        parse_hex_bytes("0x", "hex"),
        Err("cannot parse '0x' as a hex byte in hex".to_string())
    );
}

#[test]
fn parse_u32_hex_reads_trimmed_hex() {
    assert_eq!(parse_u32_hex(" 0xDEADbeef ", "reg"), Ok(0xdead_beef));
    assert_eq!(parse_u32_hex("ffffffff", "reg"), Ok(u32::MAX));
    assert_eq!(parse_u32_hex("0", "reg"), Ok(0));
    assert_eq!(
        parse_u32_hex("100000000", "reg"),
        Err("cannot parse '100000000' as a hex value for reg".to_string())
    );
    assert_eq!(
        parse_u32_hex("  ", "decode-strap"),
        Err("cannot parse '' as a hex value for decode-strap".to_string())
    );
    assert_eq!(
        parse_u32_hex("12 34", "reg"),
        Err("cannot parse '12 34' as a hex value for reg".to_string())
    );
}

#[test]
fn parse_indices_reads_a_hex_index_list() {
    assert_eq!(parse_indices("5550, 0x5551 5552"), Ok(vec![0x5550, 0x5551, 0x5552]));
    assert_eq!(parse_indices(""), Ok(vec![]));
    assert_eq!(
        parse_indices("5550,10000"),
        Err("cannot parse '10000' as a hex register index".to_string())
    );
    assert_eq!(
        parse_indices("x1"),
        Err("cannot parse 'x1' as a hex register index".to_string())
    );
}

#[test]
fn rendered_numbers_parse_back() {
    for n in [0u32, 1, 9, 10, 15, 16, 255, 0x5550, 0xdead_beef, u32::MAX] {
        assert_eq!(parse_u32_hex(&format!("{n:X}"), "x"), Ok(n));
        assert_eq!(parse_u32_hex(&format!("0x{n:08X}"), "x"), Ok(n));
        assert_eq!(parse_num::<u32>(&n.to_string(), "x"), Ok(n));
        assert_eq!(parse_num::<u64>(&(n as u64 * 7).to_string(), "x"), Ok(n as u64 * 7));
    }
}

#[test]
fn hex_lists_read_back() {
    let bytes: Vec<u8> = (0..=255u8).step_by(7).collect();
    for sep in [" ", ","] {
        let text = bytes.iter().map(|b| format!("{b:X}")).collect::<Vec<_>>().join(sep);
        assert_eq!(parse_hex_bytes(&text, "--hex"), Ok(bytes.clone()));
    }
    let idx: Vec<u16> = vec![0x5550, 0x5551, 0, 0xA2F, 0xFFFF];
    for sep in [" ", ","] {
        let text = idx.iter().map(|x| format!("{x:X}")).collect::<Vec<_>>().join(sep);
        assert_eq!(parse_indices(&text), Ok(idx.clone()));
    }
}

#[test]
fn hex_values_read_back_in_any_case_and_padding() {
    for n in [0u32, 0xa, 0x5550, 0xdead_beef, u32::MAX] {
        assert_eq!(parse_u32_hex(&format!(" {n:08x} "), "x"), Ok(n));
        assert_eq!(parse_u32_hex(&format!("0X{n:x}"), "x"), Ok(n));
        assert_eq!(parse_u32_hex(&format!("  0x{n:012X}"), "x"), Ok(n));
    }
    assert_eq!(
        parse_u32_hex("0x100000000", "reg"),
        Err("cannot parse '0x100000000' as a hex value for reg".to_string())
    );
}
