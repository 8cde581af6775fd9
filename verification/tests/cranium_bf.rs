use bf_tools::cranium::bf::Bf;
use bf_tools::lobe::{create_runtime, CellSize};

fn run(src: &str) -> Vec<u8> {
    let mut runtime = create_runtime(src, CellSize::Bits8).expect("valid brainfuck");
    let mut output = Vec::new();
    runtime
        .run_with_io(&[], &mut output)
        .expect("program runs");
    output
}

#[test]
fn tracks_the_pointer_across_loops() {
    let mut bf = Bf::new();
    let counter = bf.alloc_zeroed(1);
    let sink = bf.alloc_zeroed(1);
    bf.set(counter, 3);
    bf.loop_at(counter, |bf| {
        bf.add(counter, -1);
        bf.add(sink, 2);
    });
    bf.add(sink, 'A' as i32);
    bf.write(sink);
    assert_eq!(run(&bf.finish()), vec![b'A' + 6]);
}

#[test]
fn copies_without_destroying_the_source() {
    let mut bf = Bf::new();
    let src = bf.alloc_zeroed(1);
    let dst = bf.alloc_zeroed(1);
    bf.set(src, b'x');
    bf.copy(src, dst);
    bf.write(src);
    bf.write(dst);
    assert_eq!(run(&bf.finish()), vec![b'x', b'x']);
}

#[test]
fn compares_bytes() {
    for (lhs, rhs) in [(0_u8, 0_u8), (3, 9), (9, 3), (255, 254), (1, 255)] {
        let mut bf = Bf::new();
        let a = bf.alloc_zeroed(1);
        let b = bf.alloc_zeroed(1);
        let lt = bf.alloc_zeroed(1);
        let eq = bf.alloc_zeroed(1);
        bf.set(a, lhs);
        bf.set(b, rhs);
        bf.byte_lt(lt, a, b);
        bf.byte_eq(eq, a, b);
        bf.add(lt, b'0' as i32);
        bf.add(eq, b'0' as i32);
        bf.write(lt);
        bf.write(eq);
        let expected = vec![b'0' + u8::from(lhs < rhs), b'0' + u8::from(lhs == rhs)];
        assert_eq!(run(&bf.finish()), expected, "comparing {lhs} and {rhs}");
    }
}

#[test]
fn halves_bytes() {
    for value in [0_u8, 1, 2, 7, 200, 255] {
        let mut bf = Bf::new();
        let cell = bf.alloc_zeroed(1);
        let quotient = bf.alloc_zeroed(1);
        let remainder = bf.alloc_zeroed(1);
        bf.set(cell, value);
        bf.byte_divmod2(cell, quotient, remainder);
        bf.write(quotient);
        bf.write(remainder);
        assert_eq!(run(&bf.finish()), vec![value / 2, value % 2]);
    }
}

#[test]
fn scopes_reuse_tape_space() {
    let mut bf = Bf::new();
    bf.alloc_cells(4);
    let before = bf.cells_used();
    bf.scope(|bf| {
        bf.alloc_cells(16);
    });
    bf.alloc_cells(4);
    assert_eq!(before, 4);
    assert_eq!(bf.cells_used(), 20);
    assert_eq!(bf.watermark(), bf.watermark());
    assert_eq!(bf.scalar_cells(), 20);
}

#[test]
fn arrays_live_above_the_scalar_region() {
    let mut bf = Bf::with_array_base(64);
    let scalar = bf.alloc_cells(2);
    let array = bf.alloc_array(100);
    assert_eq!(scalar, 0);
    assert_eq!(array, 64);
    assert_eq!(bf.scalar_cells(), 2);
    assert_eq!(bf.cells_used(), 164);
}

#[test]
fn writes_literal_bytes() {
    let mut bf = Bf::new();
    let scratch = bf.alloc_zeroed(1);
    bf.write_bytes(scratch, b"Hi!");
    assert_eq!(run(&bf.finish()), b"Hi!".to_vec());
}

#[test]
fn if_else_takes_one_branch() {
    for value in [0_u8, 5] {
        let mut bf = Bf::new();
        let cond = bf.alloc_zeroed(1);
        let out = bf.alloc_zeroed(1);
        bf.set(cond, value);
        bf.if_else(cond, |bf| bf.set(out, b'T'), |bf| bf.set(out, b'F'));
        bf.write(out);
        let expected = if value != 0 { b'T' } else { b'F' };
        assert_eq!(run(&bf.finish()), vec![expected]);
    }
}
