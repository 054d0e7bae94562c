//! The fixed Huffman code of RFC 7541 Appendix B and a decoder for
//! Huffman-coded string literals.
//!
//! Each of the 257 symbols (the octets plus the end-of-string symbol) has a
//! code point and a bit length. Decoding walks the input bit by bit,
//! accumulating a candidate code; whenever the candidate equals a table row
//! the symbol is emitted and the candidate starts over. What remains at the
//! end must be a strict prefix of the EOS symbol: at most seven 1-bits.

use vstd::prelude::*;

use crate::types::spec_pow2;
use crate::types::lemma_pow2_values;
use crate::types::HpackError;

verus! {

/// Rows 0 to 63 of the code table.
#[verifier::opaque]
pub open spec fn spec_code_row_a(sym: int) -> (u32, u8) {
    if sym == 0 {
        (0x1ff8, 13)
    } else if sym == 1 {
        (0x7fffd8, 23)
    } else if sym == 2 {
        (0xfffffe2, 28)
    } else if sym == 3 {
        (0xfffffe3, 28)
    } else if sym == 4 {
        (0xfffffe4, 28)
    } else if sym == 5 {
        (0xfffffe5, 28)
    } else if sym == 6 {
        (0xfffffe6, 28)
    } else if sym == 7 {
        (0xfffffe7, 28)
    } else if sym == 8 {
        (0xfffffe8, 28)
    } else if sym == 9 {
        (0xffffea, 24)
    } else if sym == 10 {
        (0x3ffffffc, 30)
    } else if sym == 11 {
        (0xfffffe9, 28)
    } else if sym == 12 {
        (0xfffffea, 28)
    } else if sym == 13 {
        (0x3ffffffd, 30)
    } else if sym == 14 {
        (0xfffffeb, 28)
    } else if sym == 15 {
        (0xfffffec, 28)
    } else if sym == 16 {
        (0xfffffed, 28)
    } else if sym == 17 {
        (0xfffffee, 28)
    } else if sym == 18 {
        (0xfffffef, 28)
    } else if sym == 19 {
        (0xffffff0, 28)
    } else if sym == 20 {
        (0xffffff1, 28)
    } else if sym == 21 {
        (0xffffff2, 28)
    } else if sym == 22 {
        (0x3ffffffe, 30)
    } else if sym == 23 {
        (0xffffff3, 28)
    } else if sym == 24 {
        (0xffffff4, 28)
    } else if sym == 25 {
        (0xffffff5, 28)
    } else if sym == 26 {
        (0xffffff6, 28)
    } else if sym == 27 {
        (0xffffff7, 28)
    } else if sym == 28 {
        (0xffffff8, 28)
    } else if sym == 29 {
        (0xffffff9, 28)
    } else if sym == 30 {
        (0xffffffa, 28)
    } else if sym == 31 {
        (0xffffffb, 28)
    } else if sym == 32 {
        (0x14, 6)
    } else if sym == 33 {
        (0x3f8, 10)
    } else if sym == 34 {
        (0x3f9, 10)
    } else if sym == 35 {
        (0xffa, 12)
    } else if sym == 36 {
        (0x1ff9, 13)
    } else if sym == 37 {
        (0x15, 6)
    } else if sym == 38 {
        (0xf8, 8)
    } else if sym == 39 {
        (0x7fa, 11)
    } else if sym == 40 {
        (0x3fa, 10)
    } else if sym == 41 {
        (0x3fb, 10)
    } else if sym == 42 {
        (0xf9, 8)
    } else if sym == 43 {
        (0x7fb, 11)
    } else if sym == 44 {
        (0xfa, 8)
    } else if sym == 45 {
        (0x16, 6)
    } else if sym == 46 {
        (0x17, 6)
    } else if sym == 47 {
        (0x18, 6)
    } else if sym == 48 {
        (0x0, 5)
    } else if sym == 49 {
        (0x1, 5)
    } else if sym == 50 {
        (0x2, 5)
    } else if sym == 51 {
        (0x19, 6)
    } else if sym == 52 {
        (0x1a, 6)
    } else if sym == 53 {
        (0x1b, 6)
    } else if sym == 54 {
        (0x1c, 6)
    } else if sym == 55 {
        (0x1d, 6)
    } else if sym == 56 {
        (0x1e, 6)
    } else if sym == 57 {
        (0x1f, 6)
    } else if sym == 58 {
        (0x5c, 7)
    } else if sym == 59 {
        (0xfb, 8)
    } else if sym == 60 {
        (0x7ffc, 15)
    } else if sym == 61 {
        (0x20, 6)
    } else if sym == 62 {
        (0xffb, 12)
    } else if sym == 63 {
        (0x3fc, 10)
    } else {
        (0, 0)
    }
}

/// Rows 64 to 127 of the code table.
#[verifier::opaque]
pub open spec fn spec_code_row_b(sym: int) -> (u32, u8) {
    if sym == 64 {
        (0x1ffa, 13)
    } else if sym == 65 {
        (0x21, 6)
    } else if sym == 66 {
        (0x5d, 7)
    } else if sym == 67 {
        (0x5e, 7)
    } else if sym == 68 {
        (0x5f, 7)
    } else if sym == 69 {
        (0x60, 7)
    } else if sym == 70 {
        (0x61, 7)
    } else if sym == 71 {
        (0x62, 7)
    } else if sym == 72 {
        (0x63, 7)
    } else if sym == 73 {
        (0x64, 7)
    } else if sym == 74 {
        (0x65, 7)
    } else if sym == 75 {
        (0x66, 7)
    } else if sym == 76 {
        (0x67, 7)
    } else if sym == 77 {
        (0x68, 7)
    } else if sym == 78 {
        (0x69, 7)
    } else if sym == 79 {
        (0x6a, 7)
    } else if sym == 80 {
        (0x6b, 7)
    } else if sym == 81 {
        (0x6c, 7)
    } else if sym == 82 {
        (0x6d, 7)
    } else if sym == 83 {
        (0x6e, 7)
    } else if sym == 84 {
        (0x6f, 7)
    } else if sym == 85 {
        (0x70, 7)
    } else if sym == 86 {
        (0x71, 7)
    } else if sym == 87 {
        (0x72, 7)
    } else if sym == 88 {
        (0xfc, 8)
    } else if sym == 89 {
        (0x73, 7)
    } else if sym == 90 {
        (0xfd, 8)
    } else if sym == 91 {
        (0x1ffb, 13)
    } else if sym == 92 {
        (0x7fff0, 19)
    } else if sym == 93 {
        (0x1ffc, 13)
    } else if sym == 94 {
        (0x3ffc, 14)
    } else if sym == 95 {
        (0x22, 6)
    } else if sym == 96 {
        (0x7ffd, 15)
    } else if sym == 97 {
        (0x3, 5)
    } else if sym == 98 {
        (0x23, 6)
    } else if sym == 99 {
        (0x4, 5)
    } else if sym == 100 {
        (0x24, 6)
    } else if sym == 101 {
        (0x5, 5)
    } else if sym == 102 {
        (0x25, 6)
    } else if sym == 103 {
        (0x26, 6)
    } else if sym == 104 {
        (0x27, 6)
    } else if sym == 105 {
        (0x6, 5)
    } else if sym == 106 {
        (0x74, 7)
    } else if sym == 107 {
        (0x75, 7)
    } else if sym == 108 {
        (0x28, 6)
    } else if sym == 109 {
        (0x29, 6)
    } else if sym == 110 {
        (0x2a, 6)
    } else if sym == 111 {
        (0x7, 5)
    } else if sym == 112 {
        (0x2b, 6)
    } else if sym == 113 {
        (0x76, 7)
    } else if sym == 114 {
        (0x2c, 6)
    } else if sym == 115 {
        (0x8, 5)
    } else if sym == 116 {
        (0x9, 5)
    } else if sym == 117 {
        (0x2d, 6)
    } else if sym == 118 {
        (0x77, 7)
    } else if sym == 119 {
        (0x78, 7)
    } else if sym == 120 {
        (0x79, 7)
    } else if sym == 121 {
        (0x7a, 7)
    } else if sym == 122 {
        (0x7b, 7)
    } else if sym == 123 {
        (0x7ffe, 15)
    } else if sym == 124 {
        (0x7fc, 11)
    } else if sym == 125 {
        (0x3ffd, 14)
    } else if sym == 126 {
        (0x1ffd, 13)
    } else if sym == 127 {
        (0xffffffc, 28)
    } else {
        (0, 0)
    }
}

/// Rows 128 to 191 of the code table.
#[verifier::opaque]
pub open spec fn spec_code_row_c(sym: int) -> (u32, u8) {
    if sym == 128 {
        (0xfffe6, 20)
    } else if sym == 129 {
        (0x3fffd2, 22)
    } else if sym == 130 {
        (0xfffe7, 20)
    } else if sym == 131 {
        (0xfffe8, 20)
    } else if sym == 132 {
        (0x3fffd3, 22)
    } else if sym == 133 {
        (0x3fffd4, 22)
    } else if sym == 134 {
        (0x3fffd5, 22)
    } else if sym == 135 {
        (0x7fffd9, 23)
    } else if sym == 136 {
        (0x3fffd6, 22)
    } else if sym == 137 {
        (0x7fffda, 23)
    } else if sym == 138 {
        (0x7fffdb, 23)
    } else if sym == 139 {
        (0x7fffdc, 23)
    } else if sym == 140 {
        (0x7fffdd, 23)
    } else if sym == 141 {
        (0x7fffde, 23)
    } else if sym == 142 {
        (0xffffeb, 24)
    } else if sym == 143 {
        (0x7fffdf, 23)
    } else if sym == 144 {
        (0xffffec, 24)
    } else if sym == 145 {
        (0xffffed, 24)
    } else if sym == 146 {
        (0x3fffd7, 22)
    } else if sym == 147 {
        (0x7fffe0, 23)
    } else if sym == 148 {
        (0xffffee, 24)
    } else if sym == 149 {
        (0x7fffe1, 23)
    } else if sym == 150 {
        (0x7fffe2, 23)
    } else if sym == 151 {
        (0x7fffe3, 23)
    } else if sym == 152 {
        (0x7fffe4, 23)
    } else if sym == 153 {
        (0x1fffdc, 21)
    } else if sym == 154 {
        (0x3fffd8, 22)
    } else if sym == 155 {
        (0x7fffe5, 23)
    } else if sym == 156 {
        (0x3fffd9, 22)
    } else if sym == 157 {
        (0x7fffe6, 23)
    } else if sym == 158 {
        (0x7fffe7, 23)
    } else if sym == 159 {
        (0xffffef, 24)
    } else if sym == 160 {
        (0x3fffda, 22)
    } else if sym == 161 {
        (0x1fffdd, 21)
    } else if sym == 162 {
        (0xfffe9, 20)
    } else if sym == 163 {
        (0x3fffdb, 22)
    } else if sym == 164 {
        (0x3fffdc, 22)
    } else if sym == 165 {
        (0x7fffe8, 23)
    } else if sym == 166 {
        (0x7fffe9, 23)
    } else if sym == 167 {
        (0x1fffde, 21)
    } else if sym == 168 {
        (0x7fffea, 23)
    } else if sym == 169 {
        (0x3fffdd, 22)
    } else if sym == 170 {
        (0x3fffde, 22)
    } else if sym == 171 {
        (0xfffff0, 24)
    } else if sym == 172 {
        (0x1fffdf, 21)
    } else if sym == 173 {
        (0x3fffdf, 22)
    } else if sym == 174 {
        (0x7fffeb, 23)
    } else if sym == 175 {
        (0x7fffec, 23)
    } else if sym == 176 {
        (0x1fffe0, 21)
    } else if sym == 177 {
        (0x1fffe1, 21)
    } else if sym == 178 {
        (0x3fffe0, 22)
    } else if sym == 179 {
        (0x1fffe2, 21)
    } else if sym == 180 {
        (0x7fffed, 23)
    } else if sym == 181 {
        (0x3fffe1, 22)
    } else if sym == 182 {
        (0x7fffee, 23)
    } else if sym == 183 {
        (0x7fffef, 23)
    } else if sym == 184 {
        (0xfffea, 20)
    } else if sym == 185 {
        (0x3fffe2, 22)
    } else if sym == 186 {
        (0x3fffe3, 22)
    } else if sym == 187 {
        (0x3fffe4, 22)
    } else if sym == 188 {
        (0x7ffff0, 23)
    } else if sym == 189 {
        (0x3fffe5, 22)
    } else if sym == 190 {
        (0x3fffe6, 22)
    } else if sym == 191 {
        (0x7ffff1, 23)
    } else {
        (0, 0)
    }
}

/// Rows 192 to 256 of the code table.
#[verifier::opaque]
pub open spec fn spec_code_row_d(sym: int) -> (u32, u8) {
    if sym == 192 {
        (0x3ffffe0, 26)
    } else if sym == 193 {
        (0x3ffffe1, 26)
    } else if sym == 194 {
        (0xfffeb, 20)
    } else if sym == 195 {
        (0x7fff1, 19)
    } else if sym == 196 {
        (0x3fffe7, 22)
    } else if sym == 197 {
        (0x7ffff2, 23)
    } else if sym == 198 {
        (0x3fffe8, 22)
    } else if sym == 199 {
        (0x1ffffec, 25)
    } else if sym == 200 {
        (0x3ffffe2, 26)
    } else if sym == 201 {
        (0x3ffffe3, 26)
    } else if sym == 202 {
        (0x3ffffe4, 26)
    } else if sym == 203 {
        (0x7ffffde, 27)
    } else if sym == 204 {
        (0x7ffffdf, 27)
    } else if sym == 205 {
        (0x3ffffe5, 26)
    } else if sym == 206 {
        (0xfffff1, 24)
    } else if sym == 207 {
        (0x1ffffed, 25)
    } else if sym == 208 {
        (0x7fff2, 19)
    } else if sym == 209 {
        (0x1fffe3, 21)
    } else if sym == 210 {
        (0x3ffffe6, 26)
    } else if sym == 211 {
        (0x7ffffe0, 27)
    } else if sym == 212 {
        (0x7ffffe1, 27)
    } else if sym == 213 {
        (0x3ffffe7, 26)
    } else if sym == 214 {
        (0x7ffffe2, 27)
    } else if sym == 215 {
        (0xfffff2, 24)
    } else if sym == 216 {
        (0x1fffe4, 21)
    } else if sym == 217 {
        (0x1fffe5, 21)
    } else if sym == 218 {
        (0x3ffffe8, 26)
    } else if sym == 219 {
        (0x3ffffe9, 26)
    } else if sym == 220 {
        (0xffffffd, 28)
    } else if sym == 221 {
        (0x7ffffe3, 27)
    } else if sym == 222 {
        (0x7ffffe4, 27)
    } else if sym == 223 {
        (0x7ffffe5, 27)
    } else if sym == 224 {
        (0xfffec, 20)
    } else if sym == 225 {
        (0xfffff3, 24)
    } else if sym == 226 {
        (0xfffed, 20)
    } else if sym == 227 {
        (0x1fffe6, 21)
    } else if sym == 228 {
        (0x3fffe9, 22)
    } else if sym == 229 {
        (0x1fffe7, 21)
    } else if sym == 230 {
        (0x1fffe8, 21)
    } else if sym == 231 {
        (0x7ffff3, 23)
    } else if sym == 232 {
        (0x3fffea, 22)
    } else if sym == 233 {
        (0x3fffeb, 22)
    } else if sym == 234 {
        (0x1ffffee, 25)
    } else if sym == 235 {
        (0x1ffffef, 25)
    } else if sym == 236 {
        (0xfffff4, 24)
    } else if sym == 237 {
        (0xfffff5, 24)
    } else if sym == 238 {
        (0x3ffffea, 26)
    } else if sym == 239 {
        (0x7ffff4, 23)
    } else if sym == 240 {
        (0x3ffffeb, 26)
    } else if sym == 241 {
        (0x7ffffe6, 27)
    } else if sym == 242 {
        (0x3ffffec, 26)
    } else if sym == 243 {
        (0x3ffffed, 26)
    } else if sym == 244 {
        (0x7ffffe7, 27)
    } else if sym == 245 {
        (0x7ffffe8, 27)
    } else if sym == 246 {
        (0x7ffffe9, 27)
    } else if sym == 247 {
        (0x7ffffea, 27)
    } else if sym == 248 {
        (0x7ffffeb, 27)
    } else if sym == 249 {
        (0xffffffe, 28)
    } else if sym == 250 {
        (0x7ffffec, 27)
    } else if sym == 251 {
        (0x7ffffed, 27)
    } else if sym == 252 {
        (0x7ffffee, 27)
    } else if sym == 253 {
        (0x7ffffef, 27)
    } else if sym == 254 {
        (0x7fffff0, 27)
    } else if sym == 255 {
        (0x3ffffee, 26)
    } else if sym == 256 {
        (0x3fffffff, 30)
    } else {
        (0, 0)
    }
}

fn code_row_a(sym: u16) -> (r: (u32, u8))
    requires
        0 <= sym < 64,
    ensures
        r == spec_code_row_a(sym as int),
{
    proof {
        reveal(spec_code_row_a);
    }
    match sym {
        0 => (0x1ff8, 13),
        1 => (0x7fffd8, 23),
        2 => (0xfffffe2, 28),
        3 => (0xfffffe3, 28),
        4 => (0xfffffe4, 28),
        5 => (0xfffffe5, 28),
        6 => (0xfffffe6, 28),
        7 => (0xfffffe7, 28),
        8 => (0xfffffe8, 28),
        9 => (0xffffea, 24),
        10 => (0x3ffffffc, 30),
        11 => (0xfffffe9, 28),
        12 => (0xfffffea, 28),
        13 => (0x3ffffffd, 30),
        14 => (0xfffffeb, 28),
        15 => (0xfffffec, 28),
        16 => (0xfffffed, 28),
        17 => (0xfffffee, 28),
        18 => (0xfffffef, 28),
        19 => (0xffffff0, 28),
        20 => (0xffffff1, 28),
        21 => (0xffffff2, 28),
        22 => (0x3ffffffe, 30),
        23 => (0xffffff3, 28),
        24 => (0xffffff4, 28),
        25 => (0xffffff5, 28),
        26 => (0xffffff6, 28),
        27 => (0xffffff7, 28),
        28 => (0xffffff8, 28),
        29 => (0xffffff9, 28),
        30 => (0xffffffa, 28),
        31 => (0xffffffb, 28),
        32 => (0x14, 6),
        33 => (0x3f8, 10),
        34 => (0x3f9, 10),
        35 => (0xffa, 12),
        36 => (0x1ff9, 13),
        37 => (0x15, 6),
        38 => (0xf8, 8),
        39 => (0x7fa, 11),
        40 => (0x3fa, 10),
        41 => (0x3fb, 10),
        42 => (0xf9, 8),
        43 => (0x7fb, 11),
        44 => (0xfa, 8),
        45 => (0x16, 6),
        46 => (0x17, 6),
        47 => (0x18, 6),
        48 => (0x0, 5),
        49 => (0x1, 5),
        50 => (0x2, 5),
        51 => (0x19, 6),
        52 => (0x1a, 6),
        53 => (0x1b, 6),
        54 => (0x1c, 6),
        55 => (0x1d, 6),
        56 => (0x1e, 6),
        57 => (0x1f, 6),
        58 => (0x5c, 7),
        59 => (0xfb, 8),
        60 => (0x7ffc, 15),
        61 => (0x20, 6),
        62 => (0xffb, 12),
        _ => (0x3fc, 10),
    }
}

fn code_row_b(sym: u16) -> (r: (u32, u8))
    requires
        64 <= sym < 128,
    ensures
        r == spec_code_row_b(sym as int),
{
    proof {
        reveal(spec_code_row_b);
    }
    match sym {
        64 => (0x1ffa, 13),
        65 => (0x21, 6),
        66 => (0x5d, 7),
        67 => (0x5e, 7),
        68 => (0x5f, 7),
        69 => (0x60, 7),
        70 => (0x61, 7),
        71 => (0x62, 7),
        72 => (0x63, 7),
        73 => (0x64, 7),
        74 => (0x65, 7),
        75 => (0x66, 7),
        76 => (0x67, 7),
        77 => (0x68, 7),
        78 => (0x69, 7),
        79 => (0x6a, 7),
        80 => (0x6b, 7),
        81 => (0x6c, 7),
        82 => (0x6d, 7),
        83 => (0x6e, 7),
        84 => (0x6f, 7),
        85 => (0x70, 7),
        86 => (0x71, 7),
        87 => (0x72, 7),
        88 => (0xfc, 8),
        89 => (0x73, 7),
        90 => (0xfd, 8),
        91 => (0x1ffb, 13),
        92 => (0x7fff0, 19),
        93 => (0x1ffc, 13),
        94 => (0x3ffc, 14),
        95 => (0x22, 6),
        96 => (0x7ffd, 15),
        97 => (0x3, 5),
        98 => (0x23, 6),
        99 => (0x4, 5),
        100 => (0x24, 6),
        101 => (0x5, 5),
        102 => (0x25, 6),
        103 => (0x26, 6),
        104 => (0x27, 6),
        105 => (0x6, 5),
        106 => (0x74, 7),
        107 => (0x75, 7),
        108 => (0x28, 6),
        109 => (0x29, 6),
        110 => (0x2a, 6),
        111 => (0x7, 5),
        112 => (0x2b, 6),
        113 => (0x76, 7),
        114 => (0x2c, 6),
        115 => (0x8, 5),
        116 => (0x9, 5),
        117 => (0x2d, 6),
        118 => (0x77, 7),
        119 => (0x78, 7),
        120 => (0x79, 7),
        121 => (0x7a, 7),
        122 => (0x7b, 7),
        123 => (0x7ffe, 15),
        124 => (0x7fc, 11),
        125 => (0x3ffd, 14),
        126 => (0x1ffd, 13),
        _ => (0xffffffc, 28),
    }
}

fn code_row_c(sym: u16) -> (r: (u32, u8))
    requires
        128 <= sym < 192,
    ensures
        r == spec_code_row_c(sym as int),
{
    proof {
        reveal(spec_code_row_c);
    }
    match sym {
        128 => (0xfffe6, 20),
        129 => (0x3fffd2, 22),
        130 => (0xfffe7, 20),
        131 => (0xfffe8, 20),
        132 => (0x3fffd3, 22),
        133 => (0x3fffd4, 22),
        134 => (0x3fffd5, 22),
        135 => (0x7fffd9, 23),
        136 => (0x3fffd6, 22),
        137 => (0x7fffda, 23),
        138 => (0x7fffdb, 23),
        139 => (0x7fffdc, 23),
        140 => (0x7fffdd, 23),
        141 => (0x7fffde, 23),
        142 => (0xffffeb, 24),
        143 => (0x7fffdf, 23),
        144 => (0xffffec, 24),
        145 => (0xffffed, 24),
        146 => (0x3fffd7, 22),
        147 => (0x7fffe0, 23),
        148 => (0xffffee, 24),
        149 => (0x7fffe1, 23),
        150 => (0x7fffe2, 23),
        151 => (0x7fffe3, 23),
        152 => (0x7fffe4, 23),
        153 => (0x1fffdc, 21),
        154 => (0x3fffd8, 22),
        155 => (0x7fffe5, 23),
        156 => (0x3fffd9, 22),
        157 => (0x7fffe6, 23),
        158 => (0x7fffe7, 23),
        159 => (0xffffef, 24),
        160 => (0x3fffda, 22),
        161 => (0x1fffdd, 21),
        162 => (0xfffe9, 20),
        163 => (0x3fffdb, 22),
        164 => (0x3fffdc, 22),
        165 => (0x7fffe8, 23),
        166 => (0x7fffe9, 23),
        167 => (0x1fffde, 21),
        168 => (0x7fffea, 23),
        169 => (0x3fffdd, 22),
        170 => (0x3fffde, 22),
        171 => (0xfffff0, 24),
        172 => (0x1fffdf, 21),
        173 => (0x3fffdf, 22),
        174 => (0x7fffeb, 23),
        175 => (0x7fffec, 23),
        176 => (0x1fffe0, 21),
        177 => (0x1fffe1, 21),
        178 => (0x3fffe0, 22),
        179 => (0x1fffe2, 21),
        180 => (0x7fffed, 23),
        181 => (0x3fffe1, 22),
        182 => (0x7fffee, 23),
        183 => (0x7fffef, 23),
        184 => (0xfffea, 20),
        185 => (0x3fffe2, 22),
        186 => (0x3fffe3, 22),
        187 => (0x3fffe4, 22),
        188 => (0x7ffff0, 23),
        189 => (0x3fffe5, 22),
        190 => (0x3fffe6, 22),
        _ => (0x7ffff1, 23),
    }
}

fn code_row_d(sym: u16) -> (r: (u32, u8))
    requires
        192 <= sym < 257,
    ensures
        r == spec_code_row_d(sym as int),
{
    proof {
        reveal(spec_code_row_d);
    }
    match sym {
        192 => (0x3ffffe0, 26),
        193 => (0x3ffffe1, 26),
        194 => (0xfffeb, 20),
        195 => (0x7fff1, 19),
        196 => (0x3fffe7, 22),
        197 => (0x7ffff2, 23),
        198 => (0x3fffe8, 22),
        199 => (0x1ffffec, 25),
        200 => (0x3ffffe2, 26),
        201 => (0x3ffffe3, 26),
        202 => (0x3ffffe4, 26),
        203 => (0x7ffffde, 27),
        204 => (0x7ffffdf, 27),
        205 => (0x3ffffe5, 26),
        206 => (0xfffff1, 24),
        207 => (0x1ffffed, 25),
        208 => (0x7fff2, 19),
        209 => (0x1fffe3, 21),
        210 => (0x3ffffe6, 26),
        211 => (0x7ffffe0, 27),
        212 => (0x7ffffe1, 27),
        213 => (0x3ffffe7, 26),
        214 => (0x7ffffe2, 27),
        215 => (0xfffff2, 24),
        216 => (0x1fffe4, 21),
        217 => (0x1fffe5, 21),
        218 => (0x3ffffe8, 26),
        219 => (0x3ffffe9, 26),
        220 => (0xffffffd, 28),
        221 => (0x7ffffe3, 27),
        222 => (0x7ffffe4, 27),
        223 => (0x7ffffe5, 27),
        224 => (0xfffec, 20),
        225 => (0xfffff3, 24),
        226 => (0xfffed, 20),
        227 => (0x1fffe6, 21),
        228 => (0x3fffe9, 22),
        229 => (0x1fffe7, 21),
        230 => (0x1fffe8, 21),
        231 => (0x7ffff3, 23),
        232 => (0x3fffea, 22),
        233 => (0x3fffeb, 22),
        234 => (0x1ffffee, 25),
        235 => (0x1ffffef, 25),
        236 => (0xfffff4, 24),
        237 => (0xfffff5, 24),
        238 => (0x3ffffea, 26),
        239 => (0x7ffff4, 23),
        240 => (0x3ffffeb, 26),
        241 => (0x7ffffe6, 27),
        242 => (0x3ffffec, 26),
        243 => (0x3ffffed, 26),
        244 => (0x7ffffe7, 27),
        245 => (0x7ffffe8, 27),
        246 => (0x7ffffe9, 27),
        247 => (0x7ffffea, 27),
        248 => (0x7ffffeb, 27),
        249 => (0xffffffe, 28),
        250 => (0x7ffffec, 27),
        251 => (0x7ffffed, 27),
        252 => (0x7ffffee, 27),
        253 => (0x7ffffef, 27),
        254 => (0x7fffff0, 27),
        255 => (0x3ffffee, 26),
        _ => (0x3fffffff, 30),
    }
}

/// The code point and bit length of symbol `sym`, 0 to 256.
pub open spec fn spec_code_row(sym: int) -> (u32, u8) {
    if sym < 64 {
        spec_code_row_a(sym)
    } else if sym < 128 {
        spec_code_row_b(sym)
    } else if sym < 192 {
        spec_code_row_c(sym)
    } else {
        spec_code_row_d(sym)
    }
}

/// The code point and bit length of symbol `sym`, 0 to 256.
pub fn code_row(sym: u16) -> (r: (u32, u8))
    requires
        sym <= 256,
    ensures
        r == spec_code_row(sym as int),
{
    if sym < 64 {
        code_row_a(sym)
    } else if sym < 128 {
        code_row_b(sym)
    } else if sym < 192 {
        code_row_c(sym)
    } else {
        code_row_d(sym)
    }
}

/// The first symbol at or past `k` whose table row is exactly
/// `(code, len)`, if any.
pub open spec fn spec_lookup_from(code: int, len: int, k: int) -> Option<u16>
    decreases 257 - k,
{
    if k < 0 || k >= 257 {
        None
    } else if spec_code_row(k).0 == code && spec_code_row(k).1 == len {
        Some(k as u16)
    } else {
        spec_lookup_from(code, len, k + 1)
    }
}

/// Finds the symbol whose code is exactly the `nbits`-bit value `acc`.
fn lookup(acc: u32, nbits: u8) -> (r: Option<u16>)
    ensures
        r == spec_lookup_from(acc as int, nbits as int, 0),
        r matches Some(sym) ==> sym <= 256,
{
    let mut k: u16 = 0;
    while k < 257
        invariant
            k <= 257,
            spec_lookup_from(acc as int, nbits as int, 0) == spec_lookup_from(
                acc as int,
                nbits as int,
                k as int,
            ),
        decreases 257 - k,
    {
        let row = code_row(k);
        if row.0 == acc && row.1 == nbits {
            return Some(k);
        }
        k = k + 1;
    }
    None
}

/// Bit `i` of the byte string `b`, most significant bit of each byte first.
pub open spec fn spec_bit(b: Seq<u8>, i: int) -> int {
    (((b[i / 8] as nat) / spec_pow2((7 - i % 8) as nat)) % 2) as int
}

/// The state of the greedy decoder after bit `i`: `acc` holds the `nbits`
/// candidate bits read so far, `out` the symbols already emitted. The
/// result is what decoding the rest of `b` yields.
pub open spec fn spec_run(b: Seq<u8>, i: int, acc: int, nbits: int, out: Seq<u8>) -> Result<
    Seq<u8>,
    HpackError,
>
    decreases 8 * b.len() - i,
{
    if i < 0 || i >= 8 * b.len() {
        if nbits > 7 {
            Err(HpackError::InvalidHuffmanPadding)
        } else if nbits != 0 && acc != spec_pow2(nbits as nat) - 1 {
            Err(HpackError::InvalidHuffmanPadding)
        } else {
            Ok(out)
        }
    } else {
        let acc2 = 2 * acc + spec_bit(b, i);
        let nb2 = nbits + 1;
        match spec_lookup_from(acc2, nb2, 0) {
            Some(sym) => {
                if sym == 256 {
                    Err(HpackError::InvalidHuffmanCode)
                } else {
                    spec_run(b, i + 1, 0, 0, out.push(sym as u8))
                }
            },
            None => {
                if nb2 >= 30 {
                    Err(HpackError::InvalidHuffmanCode)
                } else {
                    spec_run(b, i + 1, acc2, nb2, out)
                }
            },
        }
    }
}

/// The octets a Huffman-coded string decodes to, by the greedy walk over
/// the code table, or the decoding error.
#[verifier::opaque]
pub open spec fn spec_huffman_decode(b: Seq<u8>) -> Result<Seq<u8>, HpackError> {
    spec_run(b, 0, 0, 0, Seq::empty())
}

/// Decodes a Huffman-coded string literal.
pub fn huffman_decode(buf: &Vec<u8>) -> (r: Result<Vec<u8>, HpackError>)
    ensures
        ({
            let spec = spec_huffman_decode(buf@);
            match r {
                Ok(s) => spec == Ok::<Seq<u8>, HpackError>(s@),
                Err(e) => spec == Err::<Seq<u8>, HpackError>(e),
            }
        }),
{
    proof {
        reveal(spec_huffman_decode);
    }
    let ghost whole = spec_huffman_decode(buf@);
    let mut out: Vec<u8> = Vec::new();
    let mut acc: u32 = 0;
    let mut nbits: u8 = 0;
    let mut j: usize = 0;
    proof {
        lemma_pow2_values();
    }
    while j < buf.len()
        invariant
            j <= buf.len(),
            nbits <= 29,
            acc < spec_pow2(nbits as nat),
            spec_run(buf@, 8 * j as int, acc as int, nbits as int, out@) == whole,
            whole == spec_huffman_decode(buf@),
        decreases buf.len() - j,
    {
        let byte = buf[j];
        let mut k: u8 = 0;
        while k < 8
            invariant
                k <= 8,
                j < buf.len(),
                nbits <= 29,
                acc < spec_pow2(nbits as nat),
                spec_run(buf@, 8 * j as int + k as int, acc as int, nbits as int, out@) == whole,
                whole == spec_huffman_decode(buf@),
                byte == buf@[j as int],
            decreases 8 - k,
        {
            proof {
                lemma_pow2_values();
                assert(spec_pow2(nbits as nat) <= spec_pow2(29)) by {
                    lemma_pow2_increases(nbits as nat, 29);
                };
            }
            let divisor: u8 = match k {
                0 => 128,
                1 => 64,
                2 => 32,
                3 => 16,
                4 => 8,
                5 => 4,
                6 => 2,
                _ => 1,
            };
            let bit = (byte / divisor) % 2;
            let ghost i = 8 * j as int + k as int;
            assert(i / 8 == j as int && i % 8 == k as int) by (nonlinear_arith)
                requires
                    i == 8 * j as int + k as int,
                    0 <= k < 8,
                    j >= 0,
            ;
            assert(divisor as nat == spec_pow2((7 - i % 8) as nat));
            assert(bit as int == spec_bit(buf@, i));
            assert(acc < 0x20000000);
            let acc2 = 2 * acc + bit as u32;
            let nb2 = nbits + 1;
            assert(acc2 as int == 2 * (acc as int) + spec_bit(buf@, i));
            match lookup(acc2, nb2) {
                Some(sym) => {
                    if sym == 256 {
                        return Err(HpackError::InvalidHuffmanCode);
                    }
                    out.push(sym as u8);
                    acc = 0;
                    nbits = 0;
                },
                None => {
                    if nb2 >= 30 {
                        return Err(HpackError::InvalidHuffmanCode);
                    }
                    acc = acc2;
                    nbits = nb2;
                },
            }
            k = k + 1;
        }
        assert(8 * j as int + 8 == 8 * (j + 1) as int);
        j = j + 1;
    }
    assert(8 * j as int == 8 * buf@.len());
    if nbits > 7 {
        return Err(HpackError::InvalidHuffmanPadding);
    }
    let pad_max: u32 = match nbits {
        0 => 0,
        1 => 1,
        2 => 3,
        3 => 7,
        4 => 15,
        5 => 31,
        6 => 63,
        _ => 127,
    };
    if nbits != 0 && acc != pad_max {
        return Err(HpackError::InvalidHuffmanPadding);
    }
    Ok(out)
}

/// `2^n` grows with `n`.
proof fn lemma_pow2_increases(a: nat, b: nat)
    requires
        a <= b,
    ensures
        spec_pow2(a) <= spec_pow2(b),
    decreases b,
{
    if a < b && b > 0 {
        lemma_pow2_increases(a, (b - 1) as nat);
    }
}

} // verus!
