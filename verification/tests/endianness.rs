use qc::error::Error;
use qc::eval::evaluate;
use qc::lexer::lex;

fn run_text(text: &str) -> Result<Vec<i128>, Error> {
    let tokens = lex(text);
    let mut out: Vec<i128> = Vec::new();
    evaluate(&tokens, &mut out)
}

fn expect_stack(text: &str, want: &[i128]) {
    let have = run_text(text).expect("Expected success");
    assert_eq!(have, want.to_vec());
}

fn expect_error(text: &str, want: Error) {
    let have = run_text(text).expect_err("Expected error");
    assert_eq!(have, want);
}

#[test]
fn endian_single_byte_no_op() {
    expect_stack("0x12 1 endian", &[0x12]);
}

#[test]
fn endian_0() {
    expect_error("0x123456 10 endian", Error::EndianWidth { width: 10 });
}

#[test]
fn endian_swap_suffix() {
    expect_stack("0x123456 2 endian", &[0x125634]);
}

#[test]
fn endian_single_byte() {
    expect_stack("0x1200 2 endian", &[0x12]);
}

#[test]
fn endian_one_args_0() {
    expect_stack("0x1234 2 endian", &[0x3412]);
}

#[test]
fn endian_one_args_1() {
    expect_stack("0xbabe 2 endian", &[0xbeba]);
}

#[test]
fn endian_one_arg_8_bytes_0() {
    expect_stack("0xe803000000000000 8 endian", &[0x00000000000003e8]);
}

#[test]
fn endian_one_arg_8_bytes_1() {
    expect_stack("0x00000000000007d0 8 endian", &[0xd007000000000000]);
}

#[test]
fn endian_one_arg_8_bytes_2() {
    expect_stack("0xd007000000000000 8 endian", &[0x00000000000007d0]);
}

#[test]
fn endian_all_two_args_4_bytes() {
    expect_stack("0xdeadbeef 0xbabebeef 4 :endian", &[0xefbeadde, 0xefbebeba]);
}

#[test]
fn endian_all_two_args_8_bytes_0() {
    expect_stack(
        "0x1234000000000000 0x5678000000000000 8 :endian",
        &[0x0000000000003412, 0x0000000000007856],
    );
}

#[test]
fn endian_all_two_args_8_bytes_1() {
    expect_stack(
        "0xe803000000000000 0xd007000000000000  8 :endian",
        &[0x00000000000003e8, 0x00000000000007d0],
    );
}

/* width validation */

#[test]
fn endian_width_zero_rejected() {
    expect_error("5 0 endian", Error::EndianWidth { width: 0 });
}

#[test]
fn endian_width_negative_rejected() {
    expect_error("5 -1 endian", Error::EndianWidth { width: -1 });
}

#[test]
fn endian_all_width_rejected() {
    expect_error("1 2 9 :endian", Error::EndianWidth { width: 9 });
}

#[test]
fn endian_underflow_after_width() {
    expect_error("8 endian", Error::StackUnderflow);
}

#[test]
fn endian_all_with_nothing_left_is_fine() {
    expect_stack("8 :endian", &[]);
}

#[test]
fn endian_bad_width_is_atomic() {
    let mut stack: Vec<i128> = vec![0x123456, 10];
    let r = qc::endian::endian(&mut stack);
    assert_eq!(r, Err(Error::EndianWidth { width: 10 }));
    assert_eq!(stack, vec![0x123456, 10]);
}

/* round trips */

#[test]
fn endian_twice_restores_value() {
    expect_stack("0x123456789a 5 endian 5 endian", &[0x123456789a]);
}

#[test]
fn endian_op_round_trip_all_widths() {
    let values: [i128; 4] = [0, 0x123456789abcdef0, -1, i128::MIN + 7];
    for &v in values.iter() {
        for w in 1..=8usize {
            let once = qc::endian::endian_op(v, w);
            assert_eq!(qc::endian::endian_op(once, w), v);
        }
    }
}

#[test]
fn endian_op_width_one_is_identity() {
    for &v in [0i128, 1, -1, 0x1234, i128::MAX, i128::MIN].iter() {
        assert_eq!(qc::endian::endian_op(v, 1), v);
    }
}

#[test]
fn endian_negative_value_uses_twos_complement() {
    // -2 is ...fffe little-endian: fe ff; swapping the low two bytes
    // gives ff fe, so the low 16 bits become 0xfeff.
    let swapped = qc::endian::endian_op(-2, 2);
    assert_eq!(swapped & 0xffff, 0xfeff);
    assert_eq!(swapped >> 16, -1 >> 16);
}
