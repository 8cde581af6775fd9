use bf_tools::cranium::array::{Access, ArrayLayout};
use bf_tools::cranium::bf::Bf;
use bf_tools::lobe::{create_runtime, CellSize};

fn run(src: &str) -> Vec<u8> {
    let mut runtime = create_runtime(src, CellSize::Bits8).expect("valid brainfuck");
    let mut output = Vec::new();
    runtime
        .run_with_io(&[], &mut output)
        .expect("program runs");
    output
}

/// Store `values` into a fresh array, then read one element back by an
/// index the generated program only learns at run time.
fn read_back(values: &[u8], index: u8, length: usize) -> u8 {
    let layout = ArrayLayout::new(length, 1);
    let mut bf = Bf::new();
    let index_cell = bf.alloc_zeroed(1);
    let result = bf.alloc_zeroed(1);
    let region = bf.alloc_zeroed(layout.region_cells());
    let base = region + layout.base_offset();

    for (slot, &value) in values.iter().enumerate() {
        bf.set(layout.element(base, slot), value);
    }

    bf.set(index_cell, index);
    bf.copy(index_cell, layout.counter(base));
    bf.array_access(base, &layout, Access::Read);
    bf.move_add(layout.transit(base), &[result]);
    bf.write(result);

    run(&bf.finish())[0]
}

#[test]
fn reads_elements_by_runtime_index() {
    let values: Vec<u8> = (0..16).map(|index| index * 3 + 1).collect();
    for index in [0_u8, 1, 7, 15] {
        assert_eq!(
            read_back(&values, index, values.len()),
            values[index as usize],
            "index {index}"
        );
    }
}

#[test]
fn writes_elements_by_runtime_index() {
    let layout = ArrayLayout::new(8, 1);
    let mut bf = Bf::new();
    let value = bf.alloc_zeroed(1);
    let region = bf.alloc_zeroed(layout.region_cells());
    let base = region + layout.base_offset();

    for slot in 0..8 {
        bf.set(layout.element(base, slot), b'.');
    }
    for (slot, byte) in [(5_u8, b'X'), (0, b'A'), (7, b'Z')] {
        bf.set(value, byte);
        bf.set(layout.counter(base), slot);
        bf.copy(value, layout.transit(base));
        bf.array_access(base, &layout, Access::Write);
    }
    for slot in 0..8 {
        bf.write(layout.element(base, slot));
    }

    assert_eq!(run(&bf.finish()), b"A....X.Z".to_vec());
}

#[test]
fn walks_wide_arrays_with_a_two_cell_counter() {
    let layout = ArrayLayout::new(400, 1);
    assert_eq!(layout.index_width, 2);

    let mut bf = Bf::new();
    let index = bf.alloc_zeroed(2);
    let region = bf.alloc_zeroed(layout.region_cells());
    let base = region + layout.base_offset();

    bf.set(layout.element(base, 300), b'!');
    bf.set(layout.element(base, 0), b'?');

    for target in [300_u64, 0, 257] {
        bf.num_set(index, 2, target);
        bf.num_copy(index, layout.counter(base), 2);
        bf.num_is_nonzero(base + layout.go(), layout.counter(base), 2);
        bf.array_access(base, &layout, Access::Read);
        bf.write(layout.transit(base));
        bf.zero(layout.transit(base));
    }

    assert_eq!(run(&bf.finish()), vec![b'!', b'?', 0]);
}

#[test]
fn handles_two_cell_elements() {
    let layout = ArrayLayout::new(6, 2);
    let mut bf = Bf::new();
    let region = bf.alloc_zeroed(layout.region_cells());
    let base = region + layout.base_offset();

    bf.num_set(layout.element(base, 4), 2, 1000);
    bf.set(layout.counter(base), 4);
    bf.array_access(base, &layout, Access::Read);
    bf.num_print_decimal(layout.transit(base), 2);
    bf.num_zero(layout.transit(base), 2);

    assert_eq!(run(&bf.finish()), b"1000".to_vec());
}
