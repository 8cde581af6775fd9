//! The built-in 5x7 font text is drawn in: the printable ASCII characters,
//! and a hollow box for every other byte, so that nothing written is
//! invisible.

use vstd::prelude::*;

verus! {

/// Glyph width in pixels.
pub const WIDTH: usize = 5;

/// Glyph height in pixels.
pub const HEIGHT: usize = 7;

/// The rows of the glyph for `byte`, top first; bit 4 is the leftmost pixel.
pub open spec fn glyph_rows(byte: u8) -> Seq<u8> {
    match byte {
        32 => seq![0u8, 0u8, 0u8, 0u8, 0u8, 0u8, 0u8],
        33 => seq![4u8, 4u8, 4u8, 4u8, 4u8, 0u8, 4u8],
        34 => seq![10u8, 10u8, 10u8, 0u8, 0u8, 0u8, 0u8],
        35 => seq![10u8, 10u8, 31u8, 10u8, 31u8, 10u8, 10u8],
        36 => seq![4u8, 15u8, 20u8, 14u8, 5u8, 30u8, 4u8],
        37 => seq![24u8, 25u8, 2u8, 4u8, 8u8, 19u8, 3u8],
        38 => seq![12u8, 18u8, 20u8, 8u8, 21u8, 18u8, 13u8],
        39 => seq![12u8, 4u8, 8u8, 0u8, 0u8, 0u8, 0u8],
        40 => seq![2u8, 4u8, 8u8, 8u8, 8u8, 4u8, 2u8],
        41 => seq![8u8, 4u8, 2u8, 2u8, 2u8, 4u8, 8u8],
        42 => seq![0u8, 4u8, 21u8, 14u8, 21u8, 4u8, 0u8],
        43 => seq![0u8, 4u8, 4u8, 31u8, 4u8, 4u8, 0u8],
        44 => seq![0u8, 0u8, 0u8, 0u8, 12u8, 4u8, 8u8],
        45 => seq![0u8, 0u8, 0u8, 31u8, 0u8, 0u8, 0u8],
        46 => seq![0u8, 0u8, 0u8, 0u8, 0u8, 12u8, 12u8],
        47 => seq![0u8, 1u8, 2u8, 4u8, 8u8, 16u8, 0u8],
        48 => seq![14u8, 17u8, 19u8, 21u8, 25u8, 17u8, 14u8],
        49 => seq![4u8, 12u8, 4u8, 4u8, 4u8, 4u8, 14u8],
        50 => seq![14u8, 17u8, 1u8, 2u8, 4u8, 8u8, 31u8],
        51 => seq![31u8, 2u8, 4u8, 2u8, 1u8, 17u8, 14u8],
        52 => seq![2u8, 6u8, 10u8, 18u8, 31u8, 2u8, 2u8],
        53 => seq![31u8, 16u8, 30u8, 1u8, 1u8, 17u8, 14u8],
        54 => seq![6u8, 8u8, 16u8, 30u8, 17u8, 17u8, 14u8],
        55 => seq![31u8, 1u8, 2u8, 4u8, 8u8, 8u8, 8u8],
        56 => seq![14u8, 17u8, 17u8, 14u8, 17u8, 17u8, 14u8],
        57 => seq![14u8, 17u8, 17u8, 15u8, 1u8, 2u8, 12u8],
        58 => seq![0u8, 12u8, 12u8, 0u8, 12u8, 12u8, 0u8],
        59 => seq![0u8, 12u8, 12u8, 0u8, 12u8, 4u8, 8u8],
        60 => seq![2u8, 4u8, 8u8, 16u8, 8u8, 4u8, 2u8],
        61 => seq![0u8, 0u8, 31u8, 0u8, 31u8, 0u8, 0u8],
        62 => seq![8u8, 4u8, 2u8, 1u8, 2u8, 4u8, 8u8],
        63 => seq![14u8, 17u8, 1u8, 2u8, 4u8, 0u8, 4u8],
        64 => seq![14u8, 17u8, 1u8, 13u8, 21u8, 21u8, 14u8],
        65 => seq![14u8, 17u8, 17u8, 17u8, 31u8, 17u8, 17u8],
        66 => seq![30u8, 17u8, 17u8, 30u8, 17u8, 17u8, 30u8],
        67 => seq![14u8, 17u8, 16u8, 16u8, 16u8, 17u8, 14u8],
        68 => seq![28u8, 18u8, 17u8, 17u8, 17u8, 18u8, 28u8],
        69 => seq![31u8, 16u8, 16u8, 30u8, 16u8, 16u8, 31u8],
        70 => seq![31u8, 16u8, 16u8, 30u8, 16u8, 16u8, 16u8],
        71 => seq![14u8, 17u8, 16u8, 23u8, 17u8, 17u8, 15u8],
        72 => seq![17u8, 17u8, 17u8, 31u8, 17u8, 17u8, 17u8],
        73 => seq![14u8, 4u8, 4u8, 4u8, 4u8, 4u8, 14u8],
        74 => seq![7u8, 2u8, 2u8, 2u8, 2u8, 18u8, 12u8],
        75 => seq![17u8, 18u8, 20u8, 24u8, 20u8, 18u8, 17u8],
        76 => seq![16u8, 16u8, 16u8, 16u8, 16u8, 16u8, 31u8],
        77 => seq![17u8, 27u8, 21u8, 21u8, 17u8, 17u8, 17u8],
        78 => seq![17u8, 17u8, 25u8, 21u8, 19u8, 17u8, 17u8],
        79 => seq![14u8, 17u8, 17u8, 17u8, 17u8, 17u8, 14u8],
        80 => seq![30u8, 17u8, 17u8, 30u8, 16u8, 16u8, 16u8],
        81 => seq![14u8, 17u8, 17u8, 17u8, 21u8, 18u8, 13u8],
        82 => seq![30u8, 17u8, 17u8, 30u8, 20u8, 18u8, 17u8],
        83 => seq![15u8, 16u8, 16u8, 14u8, 1u8, 1u8, 30u8],
        84 => seq![31u8, 4u8, 4u8, 4u8, 4u8, 4u8, 4u8],
        85 => seq![17u8, 17u8, 17u8, 17u8, 17u8, 17u8, 14u8],
        86 => seq![17u8, 17u8, 17u8, 17u8, 17u8, 10u8, 4u8],
        87 => seq![17u8, 17u8, 17u8, 21u8, 21u8, 21u8, 10u8],
        88 => seq![17u8, 17u8, 10u8, 4u8, 10u8, 17u8, 17u8],
        89 => seq![17u8, 17u8, 17u8, 10u8, 4u8, 4u8, 4u8],
        90 => seq![31u8, 1u8, 2u8, 4u8, 8u8, 16u8, 31u8],
        91 => seq![14u8, 8u8, 8u8, 8u8, 8u8, 8u8, 14u8],
        92 => seq![0u8, 16u8, 8u8, 4u8, 2u8, 1u8, 0u8],
        93 => seq![14u8, 2u8, 2u8, 2u8, 2u8, 2u8, 14u8],
        94 => seq![4u8, 10u8, 17u8, 0u8, 0u8, 0u8, 0u8],
        95 => seq![0u8, 0u8, 0u8, 0u8, 0u8, 0u8, 31u8],
        96 => seq![8u8, 4u8, 2u8, 0u8, 0u8, 0u8, 0u8],
        97 => seq![0u8, 0u8, 14u8, 1u8, 15u8, 17u8, 15u8],
        98 => seq![16u8, 16u8, 22u8, 25u8, 17u8, 17u8, 30u8],
        99 => seq![0u8, 0u8, 14u8, 16u8, 16u8, 17u8, 14u8],
        100 => seq![1u8, 1u8, 13u8, 19u8, 17u8, 17u8, 15u8],
        101 => seq![0u8, 0u8, 14u8, 17u8, 31u8, 16u8, 14u8],
        102 => seq![6u8, 9u8, 8u8, 28u8, 8u8, 8u8, 8u8],
        103 => seq![0u8, 15u8, 17u8, 17u8, 15u8, 1u8, 14u8],
        104 => seq![16u8, 16u8, 22u8, 25u8, 17u8, 17u8, 17u8],
        105 => seq![4u8, 0u8, 12u8, 4u8, 4u8, 4u8, 14u8],
        106 => seq![2u8, 0u8, 6u8, 2u8, 2u8, 18u8, 12u8],
        107 => seq![16u8, 16u8, 18u8, 20u8, 24u8, 20u8, 18u8],
        108 => seq![12u8, 4u8, 4u8, 4u8, 4u8, 4u8, 14u8],
        109 => seq![0u8, 0u8, 26u8, 21u8, 21u8, 17u8, 17u8],
        110 => seq![0u8, 0u8, 22u8, 25u8, 17u8, 17u8, 17u8],
        111 => seq![0u8, 0u8, 14u8, 17u8, 17u8, 17u8, 14u8],
        112 => seq![0u8, 0u8, 30u8, 17u8, 30u8, 16u8, 16u8],
        113 => seq![0u8, 0u8, 13u8, 19u8, 15u8, 1u8, 1u8],
        114 => seq![0u8, 0u8, 22u8, 25u8, 16u8, 16u8, 16u8],
        115 => seq![0u8, 0u8, 14u8, 16u8, 14u8, 1u8, 30u8],
        116 => seq![8u8, 8u8, 28u8, 8u8, 8u8, 9u8, 6u8],
        117 => seq![0u8, 0u8, 17u8, 17u8, 17u8, 19u8, 13u8],
        118 => seq![0u8, 0u8, 17u8, 17u8, 17u8, 10u8, 4u8],
        119 => seq![0u8, 0u8, 17u8, 17u8, 21u8, 21u8, 10u8],
        120 => seq![0u8, 0u8, 17u8, 10u8, 4u8, 10u8, 17u8],
        121 => seq![0u8, 0u8, 17u8, 17u8, 15u8, 1u8, 14u8],
        122 => seq![0u8, 0u8, 31u8, 2u8, 4u8, 8u8, 31u8],
        123 => seq![2u8, 4u8, 4u8, 8u8, 4u8, 4u8, 2u8],
        124 => seq![4u8, 4u8, 4u8, 4u8, 4u8, 4u8, 4u8],
        125 => seq![8u8, 4u8, 4u8, 2u8, 4u8, 4u8, 8u8],
        126 => seq![0u8, 0u8, 8u8, 21u8, 2u8, 0u8, 0u8],
        _ => seq![31u8, 17u8, 17u8, 17u8, 17u8, 17u8, 31u8],
    }
}

/// The rows of the glyph for `byte`.
pub fn glyph(byte: u8) -> (r: [u8; 7])
    ensures
        r@ == glyph_rows(byte),
{
    let r: [u8; 7] = match byte {
        32 => [0, 0, 0, 0, 0, 0, 0],
        33 => [4, 4, 4, 4, 4, 0, 4],
        34 => [10, 10, 10, 0, 0, 0, 0],
        35 => [10, 10, 31, 10, 31, 10, 10],
        36 => [4, 15, 20, 14, 5, 30, 4],
        37 => [24, 25, 2, 4, 8, 19, 3],
        38 => [12, 18, 20, 8, 21, 18, 13],
        39 => [12, 4, 8, 0, 0, 0, 0],
        40 => [2, 4, 8, 8, 8, 4, 2],
        41 => [8, 4, 2, 2, 2, 4, 8],
        42 => [0, 4, 21, 14, 21, 4, 0],
        43 => [0, 4, 4, 31, 4, 4, 0],
        44 => [0, 0, 0, 0, 12, 4, 8],
        45 => [0, 0, 0, 31, 0, 0, 0],
        46 => [0, 0, 0, 0, 0, 12, 12],
        47 => [0, 1, 2, 4, 8, 16, 0],
        48 => [14, 17, 19, 21, 25, 17, 14],
        49 => [4, 12, 4, 4, 4, 4, 14],
        50 => [14, 17, 1, 2, 4, 8, 31],
        51 => [31, 2, 4, 2, 1, 17, 14],
        52 => [2, 6, 10, 18, 31, 2, 2],
        53 => [31, 16, 30, 1, 1, 17, 14],
        54 => [6, 8, 16, 30, 17, 17, 14],
        55 => [31, 1, 2, 4, 8, 8, 8],
        56 => [14, 17, 17, 14, 17, 17, 14],
        57 => [14, 17, 17, 15, 1, 2, 12],
        58 => [0, 12, 12, 0, 12, 12, 0],
        59 => [0, 12, 12, 0, 12, 4, 8],
        60 => [2, 4, 8, 16, 8, 4, 2],
        61 => [0, 0, 31, 0, 31, 0, 0],
        62 => [8, 4, 2, 1, 2, 4, 8],
        63 => [14, 17, 1, 2, 4, 0, 4],
        64 => [14, 17, 1, 13, 21, 21, 14],
        65 => [14, 17, 17, 17, 31, 17, 17],
        66 => [30, 17, 17, 30, 17, 17, 30],
        67 => [14, 17, 16, 16, 16, 17, 14],
        68 => [28, 18, 17, 17, 17, 18, 28],
        69 => [31, 16, 16, 30, 16, 16, 31],
        70 => [31, 16, 16, 30, 16, 16, 16],
        71 => [14, 17, 16, 23, 17, 17, 15],
        72 => [17, 17, 17, 31, 17, 17, 17],
        73 => [14, 4, 4, 4, 4, 4, 14],
        74 => [7, 2, 2, 2, 2, 18, 12],
        75 => [17, 18, 20, 24, 20, 18, 17],
        76 => [16, 16, 16, 16, 16, 16, 31],
        77 => [17, 27, 21, 21, 17, 17, 17],
        78 => [17, 17, 25, 21, 19, 17, 17],
        79 => [14, 17, 17, 17, 17, 17, 14],
        80 => [30, 17, 17, 30, 16, 16, 16],
        81 => [14, 17, 17, 17, 21, 18, 13],
        82 => [30, 17, 17, 30, 20, 18, 17],
        83 => [15, 16, 16, 14, 1, 1, 30],
        84 => [31, 4, 4, 4, 4, 4, 4],
        85 => [17, 17, 17, 17, 17, 17, 14],
        86 => [17, 17, 17, 17, 17, 10, 4],
        87 => [17, 17, 17, 21, 21, 21, 10],
        88 => [17, 17, 10, 4, 10, 17, 17],
        89 => [17, 17, 17, 10, 4, 4, 4],
        90 => [31, 1, 2, 4, 8, 16, 31],
        91 => [14, 8, 8, 8, 8, 8, 14],
        92 => [0, 16, 8, 4, 2, 1, 0],
        93 => [14, 2, 2, 2, 2, 2, 14],
        94 => [4, 10, 17, 0, 0, 0, 0],
        95 => [0, 0, 0, 0, 0, 0, 31],
        96 => [8, 4, 2, 0, 0, 0, 0],
        97 => [0, 0, 14, 1, 15, 17, 15],
        98 => [16, 16, 22, 25, 17, 17, 30],
        99 => [0, 0, 14, 16, 16, 17, 14],
        100 => [1, 1, 13, 19, 17, 17, 15],
        101 => [0, 0, 14, 17, 31, 16, 14],
        102 => [6, 9, 8, 28, 8, 8, 8],
        103 => [0, 15, 17, 17, 15, 1, 14],
        104 => [16, 16, 22, 25, 17, 17, 17],
        105 => [4, 0, 12, 4, 4, 4, 14],
        106 => [2, 0, 6, 2, 2, 18, 12],
        107 => [16, 16, 18, 20, 24, 20, 18],
        108 => [12, 4, 4, 4, 4, 4, 14],
        109 => [0, 0, 26, 21, 21, 17, 17],
        110 => [0, 0, 22, 25, 17, 17, 17],
        111 => [0, 0, 14, 17, 17, 17, 14],
        112 => [0, 0, 30, 17, 30, 16, 16],
        113 => [0, 0, 13, 19, 15, 1, 1],
        114 => [0, 0, 22, 25, 16, 16, 16],
        115 => [0, 0, 14, 16, 14, 1, 30],
        116 => [8, 8, 28, 8, 8, 9, 6],
        117 => [0, 0, 17, 17, 17, 19, 13],
        118 => [0, 0, 17, 17, 17, 10, 4],
        119 => [0, 0, 17, 17, 21, 21, 10],
        120 => [0, 0, 17, 10, 4, 10, 17],
        121 => [0, 0, 17, 17, 15, 1, 14],
        122 => [0, 0, 31, 2, 4, 8, 31],
        123 => [2, 4, 4, 8, 4, 4, 2],
        124 => [4, 4, 4, 4, 4, 4, 4],
        125 => [8, 4, 4, 2, 4, 4, 8],
        126 => [0, 0, 8, 21, 2, 0, 0],
        _ => [31, 17, 17, 17, 17, 17, 31],
    };
    assert(r@ =~= glyph_rows(byte));
    r
}

} // verus!
