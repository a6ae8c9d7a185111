use vstd::prelude::*;

verus! {

/// The standard Code128 symbol-value-to-module-pattern table.
///
/// Each symbol value in the unified table 0..=105 (data values 0..=102,
/// start codes 103..=105) maps to an 11-module bar/space pattern, packed
/// here as the low 11 bits of a `u16`, leftmost module in the highest bit.
pub open spec fn pattern_bits(v: int) -> u16 {
    if v == 0 {
        0b11011001100u16
    } else if v == 1 {
        0b11001101100u16
    } else if v == 2 {
        0b11001100110u16
    } else if v == 3 {
        0b10010011000u16
    } else if v == 4 {
        0b10010001100u16
    } else if v == 5 {
        0b10001001100u16
    } else if v == 6 {
        0b10011001000u16
    } else if v == 7 {
        0b10011000100u16
    } else if v == 8 {
        0b10001100100u16
    } else if v == 9 {
        0b11001001000u16
    } else if v == 10 {
        0b11001000100u16
    } else if v == 11 {
        0b11000100100u16
    } else if v == 12 {
        0b10110011100u16
    } else if v == 13 {
        0b10011011100u16
    } else if v == 14 {
        0b10011001110u16
    } else if v == 15 {
        0b10111001100u16
    } else if v == 16 {
        0b10011101100u16
    } else if v == 17 {
        0b10011100110u16
    } else if v == 18 {
        0b11001110010u16
    } else if v == 19 {
        0b11001011100u16
    } else if v == 20 {
        0b11001001110u16
    } else if v == 21 {
        0b11011100100u16
    } else if v == 22 {
        0b11001110100u16
    } else if v == 23 {
        0b11101101110u16
    } else if v == 24 {
        0b11101001100u16
    } else if v == 25 {
        0b11100101100u16
    } else if v == 26 {
        0b11100100110u16
    } else if v == 27 {
        0b11101100100u16
    } else if v == 28 {
        0b11100110100u16
    } else if v == 29 {
        0b11100110010u16
    } else if v == 30 {
        0b11011011000u16
    } else if v == 31 {
        0b11011000110u16
    } else if v == 32 {
        0b11000110110u16
    } else if v == 33 {
        0b10100011000u16
    } else if v == 34 {
        0b10001011000u16
    } else if v == 35 {
        0b10001000110u16
    } else if v == 36 {
        0b10110001000u16
    } else if v == 37 {
        0b10001101000u16
    } else if v == 38 {
        0b10001100010u16
    } else if v == 39 {
        0b11010001000u16
    } else if v == 40 {
        0b11000101000u16
    } else if v == 41 {
        0b11000100010u16
    } else if v == 42 {
        0b10110111000u16
    } else if v == 43 {
        0b10110001110u16
    } else if v == 44 {
        0b10001101110u16
    } else if v == 45 {
        0b10111011000u16
    } else if v == 46 {
        0b10111000110u16
    } else if v == 47 {
        0b10001110110u16
    } else if v == 48 {
        0b11101110110u16
    } else if v == 49 {
        0b11010001110u16
    } else if v == 50 {
        0b11000101110u16
    } else if v == 51 {
        0b11011101000u16
    } else if v == 52 {
        0b11011100010u16
    } else if v == 53 {
        0b11011101110u16
    } else if v == 54 {
        0b11101011000u16
    } else if v == 55 {
        0b11101000110u16
    } else if v == 56 {
        0b11100010110u16
    } else if v == 57 {
        0b11101101000u16
    } else if v == 58 {
        0b11101100010u16
    } else if v == 59 {
        0b11100011010u16
    } else if v == 60 {
        0b11101111010u16
    } else if v == 61 {
        0b11001000010u16
    } else if v == 62 {
        0b11110001010u16
    } else if v == 63 {
        0b10100110000u16
    } else if v == 64 {
        0b10100001100u16
    } else if v == 65 {
        0b10010110000u16
    } else if v == 66 {
        0b10010000110u16
    } else if v == 67 {
        0b10000101100u16
    } else if v == 68 {
        0b10000100110u16
    } else if v == 69 {
        0b10110010000u16
    } else if v == 70 {
        0b10110000100u16
    } else if v == 71 {
        0b10011010000u16
    } else if v == 72 {
        0b10011000010u16
    } else if v == 73 {
        0b10000110100u16
    } else if v == 74 {
        0b10000110010u16
    } else if v == 75 {
        0b11000010010u16
    } else if v == 76 {
        0b11001010000u16
    } else if v == 77 {
        0b11110111010u16
    } else if v == 78 {
        0b11000010100u16
    } else if v == 79 {
        0b10001111010u16
    } else if v == 80 {
        0b10100111100u16
    } else if v == 81 {
        0b10010111100u16
    } else if v == 82 {
        0b10010011110u16
    } else if v == 83 {
        0b10111100100u16
    } else if v == 84 {
        0b10011110100u16
    } else if v == 85 {
        0b10011110010u16
    } else if v == 86 {
        0b11110100100u16
    } else if v == 87 {
        0b11110010100u16
    } else if v == 88 {
        0b11110010010u16
    } else if v == 89 {
        0b11011011110u16
    } else if v == 90 {
        0b11011110110u16
    } else if v == 91 {
        0b11110110110u16
    } else if v == 92 {
        0b10101111000u16
    } else if v == 93 {
        0b10100011110u16
    } else if v == 94 {
        0b10001011110u16
    } else if v == 95 {
        0b10111101000u16
    } else if v == 96 {
        0b10111100010u16
    } else if v == 97 {
        0b11110101000u16
    } else if v == 98 {
        0b11110100010u16
    } else if v == 99 {
        0b10111011110u16
    } else if v == 100 {
        0b10111101110u16
    } else if v == 101 {
        0b11101011110u16
    } else if v == 102 {
        0b11110101110u16
    } else if v == 103 {
        0b11010000100u16
    } else if v == 104 {
        0b11010010000u16
    } else if v == 105 {
        0b11010011100u16
    } else {
        0u16
    }
}

/// The 13-module stop pattern, termination bar included, packed as the low
/// 13 bits of a `u16`, leftmost module in the highest bit.
pub open spec fn stop_bits() -> u16 {
    0b1100011101011u16
}

/// Module `i` (0-based, leftmost first) of the `width`-module pattern
/// packed in the low `width` bits of `w`.
pub open spec fn bit_at(w: u16, width: int, i: int) -> u8 {
    ((w >> (((width - 1) - i) as u16)) & 1) as u8
}

/// The pattern packed in `w` unpacked into its `width` modules, each 0 or 1.
pub open spec fn bits_of(w: u16, width: int) -> Seq<u8> {
    Seq::new(width as nat, |i: int| bit_at(w, width, i))
}

/// Every module of an unpacked pattern is a 0 or a 1.
pub proof fn lemma_bits_binary(w: u16, width: int)
    ensures
        forall|i: int|
            0 <= i < width ==> #[trigger] bits_of(w, width)[i] == 0 || bits_of(w, width)[i] == 1,
{
    assert forall|i: int| 0 <= i < width implies #[trigger] bits_of(w, width)[i] == 0 || bits_of(
        w,
        width,
    )[i] == 1 by {
        let sh = (((width - 1) - i) as u16);
        assert(((w >> sh) & 1) == 0 || ((w >> sh) & 1) == 1) by (bit_vector);
    }
}

/// Looks up the packed 11-module pattern of unified symbol value `v`.
pub fn lookup_pattern(v: u8) -> (w: u16)
    requires
        v <= 105,
    ensures
        w == pattern_bits(v as int),
{
    match v {
        0 => 0b11011001100u16,
        1 => 0b11001101100u16,
        2 => 0b11001100110u16,
        3 => 0b10010011000u16,
        4 => 0b10010001100u16,
        5 => 0b10001001100u16,
        6 => 0b10011001000u16,
        7 => 0b10011000100u16,
        8 => 0b10001100100u16,
        9 => 0b11001001000u16,
        10 => 0b11001000100u16,
        11 => 0b11000100100u16,
        12 => 0b10110011100u16,
        13 => 0b10011011100u16,
        14 => 0b10011001110u16,
        15 => 0b10111001100u16,
        16 => 0b10011101100u16,
        17 => 0b10011100110u16,
        18 => 0b11001110010u16,
        19 => 0b11001011100u16,
        20 => 0b11001001110u16,
        21 => 0b11011100100u16,
        22 => 0b11001110100u16,
        23 => 0b11101101110u16,
        24 => 0b11101001100u16,
        25 => 0b11100101100u16,
        26 => 0b11100100110u16,
        27 => 0b11101100100u16,
        28 => 0b11100110100u16,
        29 => 0b11100110010u16,
        30 => 0b11011011000u16,
        31 => 0b11011000110u16,
        32 => 0b11000110110u16,
        33 => 0b10100011000u16,
        34 => 0b10001011000u16,
        35 => 0b10001000110u16,
        36 => 0b10110001000u16,
        37 => 0b10001101000u16,
        38 => 0b10001100010u16,
        39 => 0b11010001000u16,
        40 => 0b11000101000u16,
        41 => 0b11000100010u16,
        42 => 0b10110111000u16,
        43 => 0b10110001110u16,
        44 => 0b10001101110u16,
        45 => 0b10111011000u16,
        46 => 0b10111000110u16,
        47 => 0b10001110110u16,
        48 => 0b11101110110u16,
        49 => 0b11010001110u16,
        50 => 0b11000101110u16,
        51 => 0b11011101000u16,
        52 => 0b11011100010u16,
        53 => 0b11011101110u16,
        54 => 0b11101011000u16,
        55 => 0b11101000110u16,
        56 => 0b11100010110u16,
        57 => 0b11101101000u16,
        58 => 0b11101100010u16,
        59 => 0b11100011010u16,
        60 => 0b11101111010u16,
        61 => 0b11001000010u16,
        62 => 0b11110001010u16,
        63 => 0b10100110000u16,
        64 => 0b10100001100u16,
        65 => 0b10010110000u16,
        66 => 0b10010000110u16,
        67 => 0b10000101100u16,
        68 => 0b10000100110u16,
        69 => 0b10110010000u16,
        70 => 0b10110000100u16,
        71 => 0b10011010000u16,
        72 => 0b10011000010u16,
        73 => 0b10000110100u16,
        74 => 0b10000110010u16,
        75 => 0b11000010010u16,
        76 => 0b11001010000u16,
        77 => 0b11110111010u16,
        78 => 0b11000010100u16,
        79 => 0b10001111010u16,
        80 => 0b10100111100u16,
        81 => 0b10010111100u16,
        82 => 0b10010011110u16,
        83 => 0b10111100100u16,
        84 => 0b10011110100u16,
        85 => 0b10011110010u16,
        86 => 0b11110100100u16,
        87 => 0b11110010100u16,
        88 => 0b11110010010u16,
        89 => 0b11011011110u16,
        90 => 0b11011110110u16,
        91 => 0b11110110110u16,
        92 => 0b10101111000u16,
        93 => 0b10100011110u16,
        94 => 0b10001011110u16,
        95 => 0b10111101000u16,
        96 => 0b10111100010u16,
        97 => 0b11110101000u16,
        98 => 0b11110100010u16,
        99 => 0b10111011110u16,
        100 => 0b10111101110u16,
        101 => 0b11101011110u16,
        102 => 0b11110101110u16,
        103 => 0b11010000100u16,
        104 => 0b11010010000u16,
        105 => 0b11010011100u16,
        _ => 0u16,
    }
}

/// The packed stop pattern.
pub fn stop_code() -> (w: u16)
    ensures
        w == stop_bits(),
{
    0b1100011101011u16
}

/// Appends the `width`-module pattern packed in `w` to `out`, leftmost
/// module first.
pub fn push_bits(out: &mut Vec<u8>, w: u16, width: u16)
    requires
        1 <= width <= 16,
    ensures
        final(out)@ == old(out)@ + bits_of(w, width as int),
{
    let ghost complete = bits_of(w, width as int);
    let mut i: u16 = 0;
    while i < width
        invariant
            i <= width <= 16,
            complete == bits_of(w, width as int),
            out@ == old(out)@ + complete.take(i as int),
        decreases width - i,
    {
        let sh: u16 = (width - 1) - i;
        let b: u8 = ((w >> sh) & 1) as u8;
        proof {
            assert(b == bit_at(w, width as int, i as int));
            assert(complete.take(i as int).push(bit_at(w, width as int, i as int)) =~= complete
                .take(i as int + 1));
        }
        out.push(b);
        i = i + 1;
    }
    proof {
        assert(complete.take(width as int) =~= complete);
    }
}

} // verus!
