use bf_tools::cranium::bf::Bf;
use bf_tools::cranium::num::BitKind;
use bf_tools::lobe::{create_runtime, CellSize};

fn run(src: &str) -> Vec<u8> {
    let mut runtime = create_runtime(src, CellSize::Bits8).expect("valid brainfuck");
    let mut output = Vec::new();
    runtime
        .run_with_io(&[], &mut output)
        .expect("program runs");
    output
}

fn printed(build: impl FnOnce(&mut Bf)) -> String {
    let mut bf = Bf::new();
    build(&mut bf);
    String::from_utf8(run(&bf.finish())).expect("utf-8 output")
}

#[test]
fn prints_byte_decimals() {
    for value in [0_u8, 7, 10, 99, 100, 255] {
        let text = printed(|bf| {
            let cell = bf.alloc_zeroed(1);
            bf.num_set(cell, 1, u64::from(value));
            bf.num_print_decimal(cell, 1);
        });
        assert_eq!(text, value.to_string());
    }
}

#[test]
fn prints_wide_decimals() {
    for value in [0_u64, 9, 300, 1000, 12_345, 65_535] {
        let text = printed(|bf| {
            let cell = bf.alloc_zeroed(2);
            bf.num_set(cell, 2, value);
            bf.num_print_decimal(cell, 2);
        });
        assert_eq!(text, value.to_string());
    }
}

#[test]
fn adds_and_subtracts_wide_values() {
    for (lhs, rhs) in [
        (1_u64, 2_u64),
        (255, 1),
        (300, 400),
        (65_000, 600),
        (1000, 999),
    ] {
        let sum = printed(|bf| {
            let a = bf.alloc_zeroed(2);
            let b = bf.alloc_zeroed(2);
            bf.num_set(a, 2, lhs);
            bf.num_set(b, 2, rhs);
            bf.num_add_assign(a, b, 2);
            bf.num_print_decimal(a, 2);
        });
        assert_eq!(sum, ((lhs + rhs) % 65_536).to_string(), "{lhs} + {rhs}");

        let difference = printed(|bf| {
            let a = bf.alloc_zeroed(2);
            let b = bf.alloc_zeroed(2);
            bf.num_set(a, 2, lhs);
            bf.num_set(b, 2, rhs);
            bf.num_sub_assign(a, b, 2);
            bf.num_print_decimal(a, 2);
        });
        let expected = (lhs + 65_536 - rhs) % 65_536;
        assert_eq!(difference, expected.to_string(), "{lhs} - {rhs}");
    }
}

#[test]
fn multiplies_and_divides() {
    for (lhs, rhs) in [
        (12_u64, 12_u64),
        (255, 257),
        (1000, 63),
        (65_535, 1),
        (7, 0),
    ] {
        let product = printed(|bf| {
            let a = bf.alloc_zeroed(2);
            let b = bf.alloc_zeroed(2);
            let out = bf.alloc_zeroed(2);
            bf.num_set(a, 2, lhs);
            bf.num_set(b, 2, rhs);
            bf.num_mul(out, a, b, 2);
            bf.num_print_decimal(out, 2);
        });
        assert_eq!(product, (lhs.wrapping_mul(rhs) % 65_536).to_string());

        if let Some(expected) = lhs.checked_div(rhs) {
            let quotient = printed(|bf| {
                let a = bf.alloc_zeroed(2);
                let b = bf.alloc_zeroed(2);
                let q = bf.alloc_zeroed(2);
                let r = bf.alloc_zeroed(2);
                bf.num_set(a, 2, lhs);
                bf.num_set(b, 2, rhs);
                bf.num_divmod(q, r, a, b, 2);
                let gap = bf.alloc_zeroed(1);
                bf.num_print_decimal(q, 2);
                bf.write_literal(gap, b' ');
                bf.num_print_decimal(r, 2);
            });
            assert_eq!(quotient, format!("{expected} {}", lhs % rhs));
        }
    }
}

#[test]
fn multiplies_by_constants() {
    for (value, factor) in [
        (0_u64, 10_u64),
        (7, 10),
        (1234, 10),
        (99, 1),
        (300, 200),
        (5, 0),
    ] {
        let text = printed(|bf| {
            let a = bf.alloc_zeroed(2);
            let out = bf.alloc_zeroed(2);
            bf.num_set(a, 2, value);
            bf.num_mul_const(out, a, 2, factor);
            bf.num_print_decimal(out, 2);
        });
        assert_eq!(
            text,
            (value.wrapping_mul(factor) % 65_536).to_string(),
            "{value} * {factor}"
        );
    }
}

#[test]
fn shifts_and_combines_bits() {
    let text = printed(|bf| {
        let a = bf.alloc_zeroed(2);
        let b = bf.alloc_zeroed(2);
        let out = bf.alloc_zeroed(2);
        bf.num_set(a, 2, 0b1100_1010);
        bf.num_set(b, 2, 0b1010_0110);
        bf.num_bitwise(out, a, b, 2, BitKind::Xor);
        bf.num_print_decimal(out, 2);
    });
    assert_eq!(text, (0b1100_1010_u64 ^ 0b1010_0110).to_string());

    let shifted = printed(|bf| {
        let a = bf.alloc_zeroed(2);
        bf.num_set(a, 2, 1234);
        bf.num_shl_const(a, 2, 3);
        bf.num_print_decimal(a, 2);
    });
    assert_eq!(shifted, (1234_u64 << 3).to_string());
}

#[test]
fn orders_wide_values() {
    for (lhs, rhs) in [
        (0_u64, 0_u64),
        (1, 256),
        (256, 1),
        (65_535, 65_534),
        (300, 300),
    ] {
        let text = printed(|bf| {
            let a = bf.alloc_zeroed(2);
            let b = bf.alloc_zeroed(2);
            let out = bf.alloc_zeroed(1);
            bf.num_set(a, 2, lhs);
            bf.num_set(b, 2, rhs);
            bf.num_lt(out, a, b, 2);
            bf.add(out, b'0' as i32);
            bf.write(out);
            bf.num_eq(out, a, b, 2);
            bf.add(out, b'0' as i32);
            bf.write(out);
        });
        let expected = format!("{}{}", u8::from(lhs < rhs), u8::from(lhs == rhs));
        assert_eq!(text, expected, "comparing {lhs} and {rhs}");
    }
}
