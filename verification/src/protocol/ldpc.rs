//! The (174, 91) low-density parity-check code.
//!
//! A codeword is 91 message bits followed by 83 parity bits. Each of the 83
//! checks names the codeword bits whose sum must be even; each codeword bit
//! stands in three checks. The generator table gives, for each message bit,
//! the parity bits it contributes to.
use super::{FullMessageBits, MessageBitsWithCRC};
use crate::bits::word_bit;
use vstd::prelude::*;

verus! {

/// Bits in a codeword.
pub const V_SIZE: usize = 174;

/// Checks.
pub const C_SIZE: usize = 83;

/// Message bits in a codeword.
pub const MSG_BITS: usize = 91;

/// The greatest number of rounds of message passing.
pub const MAX_ITER: usize = 100;

/// The number of rounds without a new best after which decoding stops.
pub const MAX_ITER_NO_PROGRESS: usize = 10;

/// The filler at the end of a check with fewer than seven bits.
pub const EOL: u8 = 0xff;

/// The greatest number of codeword bits in a check.
pub const TABLE_CV_LEN: usize = 7;

/// The number of checks that a codeword bit stands in.
pub const TABLE_VC_LEN: usize = 3;

/// For each check, the codeword bits in it.
pub const TABLE_CV: [[u8; 7]; 83] = [
    [3, 30, 58, 90, 91, 95, 152],
    [4, 31, 59, 92, 114, 145, 0xff],
    [5, 23, 60, 93, 121, 150, 0xff],
    [6, 32, 61, 94, 95, 142, 0xff],
    [7, 24, 62, 82, 92, 95, 147],
    [5, 31, 63, 96, 125, 137, 0xff],
    [4, 33, 64, 77, 97, 106, 153],
    [8, 34, 65, 98, 138, 145, 0xff],
    [9, 35, 66, 99, 106, 125, 0xff],
    [10, 36, 66, 86, 100, 138, 157],
    [11, 37, 67, 101, 104, 154, 0xff],
    [12, 38, 68, 102, 148, 161, 0xff],
    [7, 39, 69, 81, 103, 113, 144],
    [13, 40, 70, 87, 101, 122, 155],
    [14, 41, 58, 105, 122, 158, 0xff],
    [0, 32, 71, 105, 106, 156, 0xff],
    [15, 42, 72, 107, 140, 159, 0xff],
    [16, 36, 73, 80, 108, 130, 153],
    [10, 43, 74, 109, 120, 165, 0xff],
    [44, 54, 63, 110, 129, 160, 172],
    [7, 45, 70, 111, 118, 165, 0xff],
    [17, 35, 75, 88, 112, 113, 142],
    [18, 37, 76, 103, 115, 162, 0xff],
    [19, 46, 69, 91, 137, 164, 0xff],
    [1, 47, 73, 112, 127, 159, 0xff],
    [20, 44, 77, 82, 116, 120, 150],
    [21, 46, 57, 117, 126, 163, 0xff],
    [15, 38, 61, 111, 133, 157, 0xff],
    [22, 42, 78, 119, 130, 144, 0xff],
    [18, 34, 58, 72, 109, 124, 160],
    [19, 35, 62, 93, 135, 160, 0xff],
    [13, 30, 78, 97, 131, 163, 0xff],
    [2, 43, 79, 123, 126, 168, 0xff],
    [18, 45, 80, 116, 134, 166, 0xff],
    [6, 48, 57, 89, 99, 104, 167],
    [11, 49, 60, 117, 118, 143, 0xff],
    [12, 50, 63, 113, 117, 156, 0xff],
    [23, 51, 75, 128, 147, 148, 0xff],
    [24, 52, 68, 89, 100, 129, 155],
    [19, 45, 64, 79, 119, 139, 169],
    [20, 53, 76, 99, 139, 170, 0xff],
    [34, 81, 132, 141, 170, 173, 0xff],
    [13, 29, 82, 112, 124, 169, 0xff],
    [3, 28, 67, 119, 133, 172, 0xff],
    [0, 3, 51, 56, 85, 135, 151],
    [25, 50, 55, 90, 121, 136, 167],
    [51, 83, 109, 114, 144, 167, 0xff],
    [6, 49, 80, 98, 131, 172, 0xff],
    [22, 54, 66, 94, 171, 173, 0xff],
    [25, 40, 76, 108, 140, 147, 0xff],
    [1, 26, 40, 60, 61, 114, 132],
    [26, 39, 55, 123, 124, 125, 0xff],
    [17, 48, 54, 123, 140, 166, 0xff],
    [5, 32, 84, 107, 115, 155, 0xff],
    [27, 47, 69, 84, 104, 128, 157],
    [8, 53, 62, 130, 146, 154, 0xff],
    [21, 52, 67, 108, 120, 173, 0xff],
    [2, 12, 47, 77, 94, 122, 0xff],
    [30, 68, 132, 149, 154, 168, 0xff],
    [11, 42, 65, 88, 96, 134, 158],
    [4, 38, 74, 101, 135, 166, 0xff],
    [1, 53, 85, 100, 134, 163, 0xff],
    [14, 55, 86, 107, 118, 170, 0xff],
    [9, 43, 81, 90, 110, 143, 148],
    [22, 33, 70, 93, 126, 152, 0xff],
    [10, 48, 87, 91, 141, 156, 0xff],
    [28, 33, 86, 96, 146, 161, 0xff],
    [29, 49, 59, 85, 136, 141, 161],
    [9, 52, 65, 83, 111, 127, 164],
    [21, 56, 84, 92, 139, 158, 0xff],
    [27, 31, 71, 102, 131, 165, 0xff],
    [27, 28, 83, 87, 116, 142, 149],
    [0, 25, 44, 79, 127, 146, 0xff],
    [16, 26, 88, 102, 115, 152, 0xff],
    [50, 56, 97, 162, 164, 171, 0xff],
    [20, 36, 72, 137, 151, 168, 0xff],
    [15, 46, 75, 129, 136, 153, 0xff],
    [2, 23, 29, 71, 103, 138, 0xff],
    [8, 39, 89, 105, 133, 150, 0xff],
    [14, 57, 59, 73, 110, 149, 162],
    [17, 41, 78, 143, 145, 151, 0xff],
    [24, 37, 64, 98, 121, 159, 0xff],
    [16, 41, 74, 128, 169, 171, 0xff],
];

/// For each codeword bit, the three checks it stands in.
pub const TABLE_VC: [[u8; 3]; 174] = [
    [15, 44, 72],
    [24, 50, 61],
    [32, 57, 77],
    [0, 43, 44],
    [1, 6, 60],
    [2, 5, 53],
    [3, 34, 47],
    [4, 12, 20],
    [7, 55, 78],
    [8, 63, 68],
    [9, 18, 65],
    [10, 35, 59],
    [11, 36, 57],
    [13, 31, 42],
    [14, 62, 79],
    [16, 27, 76],
    [17, 73, 82],
    [21, 52, 80],
    [22, 29, 33],
    [23, 30, 39],
    [25, 40, 75],
    [26, 56, 69],
    [28, 48, 64],
    [2, 37, 77],
    [4, 38, 81],
    [45, 49, 72],
    [50, 51, 73],
    [54, 70, 71],
    [43, 66, 71],
    [42, 67, 77],
    [0, 31, 58],
    [1, 5, 70],
    [3, 15, 53],
    [6, 64, 66],
    [7, 29, 41],
    [8, 21, 30],
    [9, 17, 75],
    [10, 22, 81],
    [11, 27, 60],
    [12, 51, 78],
    [13, 49, 50],
    [14, 80, 82],
    [16, 28, 59],
    [18, 32, 63],
    [19, 25, 72],
    [20, 33, 39],
    [23, 26, 76],
    [24, 54, 57],
    [34, 52, 65],
    [35, 47, 67],
    [36, 45, 74],
    [37, 44, 46],
    [38, 56, 68],
    [40, 55, 61],
    [19, 48, 52],
    [45, 51, 62],
    [44, 69, 74],
    [26, 34, 79],
    [0, 14, 29],
    [1, 67, 79],
    [2, 35, 50],
    [3, 27, 50],
    [4, 30, 55],
    [5, 19, 36],
    [6, 39, 81],
    [7, 59, 68],
    [8, 9, 48],
    [10, 43, 56],
    [11, 38, 58],
    [12, 23, 54],
    [13, 20, 64],
    [15, 70, 77],
    [16, 29, 75],
    [17, 24, 79],
    [18, 60, 82],
    [21, 37, 76],
    [22, 40, 49],
    [6, 25, 57],
    [28, 31, 80],
    [32, 39, 72],
    [17, 33, 47],
    [12, 41, 63],
    [4, 25, 42],
    [46, 68, 71],
    [53, 54, 69],
    [44, 61, 67],
    [9, 62, 66],
    [13, 65, 71],
    [21, 59, 73],
    [34, 38, 78],
    [0, 45, 63],
    [0, 23, 65],
    [1, 4, 69],
    [2, 30, 64],
    [3, 48, 57],
    [0, 3, 4],
    [5, 59, 66],
    [6, 31, 74],
    [7, 47, 81],
    [8, 34, 40],
    [9, 38, 61],
    [10, 13, 60],
    [11, 70, 73],
    [12, 22, 77],
    [10, 34, 54],
    [14, 15, 78],
    [6, 8, 15],
    [16, 53, 62],
    [17, 49, 56],
    [18, 29, 46],
    [19, 63, 79],
    [20, 27, 68],
    [21, 24, 42],
    [12, 21, 36],
    [1, 46, 50],
    [22, 53, 73],
    [25, 33, 71],
    [26, 35, 36],
    [20, 35, 62],
    [28, 39, 43],
    [18, 25, 56],
    [2, 45, 81],
    [13, 14, 57],
    [32, 51, 52],
    [29, 42, 51],
    [5, 8, 51],
    [26, 32, 64],
    [24, 68, 72],
    [37, 54, 82],
    [19, 38, 76],
    [17, 28, 55],
    [31, 47, 70],
    [41, 50, 58],
    [27, 43, 78],
    [33, 59, 61],
    [30, 44, 60],
    [45, 67, 76],
    [5, 23, 75],
    [7, 9, 77],
    [39, 40, 69],
    [16, 49, 52],
    [41, 65, 67],
    [3, 21, 71],
    [35, 63, 80],
    [12, 28, 46],
    [1, 7, 80],
    [55, 66, 72],
    [4, 37, 49],
    [11, 37, 63],
    [58, 71, 79],
    [2, 25, 78],
    [44, 75, 80],
    [0, 64, 73],
    [6, 17, 76],
    [10, 55, 58],
    [13, 38, 53],
    [15, 36, 65],
    [9, 27, 54],
    [14, 59, 69],
    [16, 24, 81],
    [19, 29, 30],
    [11, 66, 67],
    [22, 74, 79],
    [26, 31, 61],
    [23, 68, 74],
    [18, 20, 70],
    [33, 52, 60],
    [34, 45, 46],
    [32, 58, 75],
    [39, 42, 82],
    [40, 41, 62],
    [48, 74, 82],
    [19, 43, 47],
    [41, 48, 56],
];

/// For each message bit, the parity bits it contributes to, packed first
/// bit first into three words.
pub const TABLE_GEN: [[u32; 3]; 91] = [
    [0xa0a508d8, 0xc720297e, 0x87570000],
    [0x61cf1114, 0x17994c9b, 0x19b5a000],
    [0x43ee2065, 0x6b22efe2, 0x6bd6e000],
    [0x707c4c05, 0xcf3517bc, 0x173c8000],
    [0x3a14bf69, 0xce7ccdbd, 0x92ad8000],
    [0x644fd01e, 0x7e830f93, 0x1dee4000],
    [0xd4ce10eb, 0xbc11cfb5, 0xc848c000],
    [0x9e44fe65, 0x080ee92b, 0xb49b8000],
    [0x0a36eb4a, 0x1e78b79e, 0xdeada000],
    [0x0d488af2, 0xb23550d4, 0x02004000],
    [0xbe37e0df, 0x793809e8, 0x29ee8000],
    [0x5f64d6bf, 0x1ab24f17, 0x317e8000],
    [0xdc64a70e, 0xc072a410, 0xaa1d2000],
    [0x7fcfc993, 0x077fcc4d, 0x02526000],
    [0x328a930b, 0xbf7bb36a, 0xfbd88000],
    [0x988a8743, 0x664b42b8, 0xed198000],
    [0x8dd46552, 0x6a743bd1, 0x2061e000],
    [0xb5149905, 0xce66b375, 0x9c2f6000],
    [0x4b039c90, 0x70321a24, 0x18c44000],
    [0x21e9ae48, 0xd1a52033, 0xc9f90000],
    [0xa7de7038, 0xae01c557, 0x5de5e000],
    [0xcc493464, 0x6b111f02, 0x41400000],
    [0xc30f9ffa, 0xa85361f5, 0x328ec000],
    [0x303495c3, 0x10f99258, 0x398fc000],
    [0x0f8d82c2, 0x1a373115, 0x68c54000],
    [0x5f8006f5, 0x7388472e, 0x9d3d2000],
    [0x1b905987, 0xf23a82de, 0x95fac000],
    [0x9b02df19, 0x06e00ea2, 0xc8422000],
    [0x5a4129a1, 0xb4da286c, 0xf770c000],
    [0x4b82b3c4, 0x7d773546, 0x7bcde000],
    [0x6a3812bc, 0x1729927b, 0xa025a000],
    [0x851b3f3e, 0x7d47a156, 0x3105e000],
    [0xa9671978, 0xb95ec3fa, 0xfa094000],
    [0x394559bb, 0xb15aa2cd, 0xf3596000],
    [0xebc17304, 0xdf64d570, 0x6eca4000],
    [0xb791bf1d, 0x62e49e34, 0xda482000],
    [0xb677340d, 0xaf943174, 0x045e6000],
    [0xc233a152, 0xb25e68fc, 0x95a00000],
    [0xa51f501c, 0xa80ded1f, 0x396d4000],
    [0xe592661a, 0x29000bc4, 0x546be000],
    [0x561faae3, 0x68519bd1, 0x28ab8000],
    [0x5910fe63, 0x1b2ccf3c, 0x86376000],
    [0xa22867ac, 0x0e716b57, 0xa6d20000],
    [0x81029f88, 0xd0f8860c, 0x5df50000],
    [0x15e06b61, 0x6fc4de41, 0x3aba2000],
    [0x31d145a5, 0xd474fa72, 0xfd28c000],
    [0x60f607de, 0xb07e6ce8, 0xf923a000],
    [0xb927994e, 0xbbfae3ea, 0x92a92000],
    [0x89a1d308, 0xca4837eb, 0xce47e000],
    [0xe4ac1ee6, 0xa29de2ec, 0xaae6a000],
    [0xb6eb8bc7, 0x0aff330d, 0x08296000],
    [0x6f292dfe, 0x6e5db505, 0xe081e000],
    [0xf0b07b35, 0xa3f634f5, 0x149d6000],
    [0x3bc22fc1, 0x65ce66be, 0xe9788000],
    [0x87585620, 0xd29b680e, 0x0f102000],
    [0x5ca7f981, 0x54f6c046, 0x03f66000],
    [0x9f77d189, 0xabf4a3c8, 0x295d2000],
    [0xbf5531f1, 0x7868c3f9, 0xf9f7c000],
    [0xee86bdfe, 0x65749047, 0x4fc0a000],
    [0xdb7cc8db, 0xc6b96c7a, 0x144e2000],
    [0x0c5c4b2c, 0xd73f12bd, 0x077a0000],
    [0xaef939fe, 0xd89b47e9, 0xc80be000],
    [0x51beb391, 0x686bb928, 0x6a62c000],
    [0xddf1c6eb, 0x0ea04f73, 0x71db2000],
    [0x03c64f06, 0x63dee619, 0x7c700000],
    [0x4614a0cc, 0x058ec2ab, 0x0759e000],
    [0x1366056b, 0xaf423b52, 0x42de4000],
    [0x771734d1, 0xb614da90, 0x8fab6000],
    [0x96d6d421, 0x7ab8592f, 0xe4556000],
    [0x56522b9f, 0x09def9fa, 0xed116000],
    [0x1a4796b9, 0xaa2645c5, 0x23ce8000],
    [0x882fd46a, 0x669a9c9a, 0xdd89e000],
    [0xf1083ba3, 0x06dd78ac, 0xb0f08000],
    [0x99d75ff3, 0xc1cc26fb, 0xa5d52000],
    [0xa42b0994, 0x6741ae57, 0xb643a000],
    [0xc6789228, 0x1193ea87, 0x83154000],
    [0x0790e7b8, 0xa05c060a, 0x0ebee000],
    [0x1c769640, 0x19a6e5e6, 0xf0dfc000],
    [0xdad717a1, 0x08e0ad01, 0xa3c2c000],
    [0x7c0f66b3, 0x62b9c30f, 0xa8bd6000],
    [0x3bb53969, 0x0d70ebb4, 0x5eb08000],
    [0x958043a9, 0xbb44fb24, 0x99486000],
    [0xb0ddf353, 0x0c559b87, 0xdf622000],
    [0xf2467db5, 0x084491d7, 0xe7cb8000],
    [0xa68817e8, 0x6975ab36, 0x24c80000],
    [0xb2228cbb, 0x012c1027, 0x49c28000],
    [0xd93ec79f, 0xcd49c958, 0x446dc000],
    [0xebfb93e0, 0x1add1939, 0x1a4d0000],
    [0xaf6d66ce, 0xbd011180, 0xc4da4000],
    [0xa124718c, 0xcd48635c, 0x8b464000],
    [0x5f1460c5, 0x0e8a436b, 0x9d588000],
];

/// The sum of the bits of `bits` that the first `n` entries of `row` name.
pub open spec fn row_parity(row: Seq<u8>, bits: Seq<bool>, n: int) -> bool
    decreases n,
{
    if n <= 0 {
        false
    } else if row[n - 1] < 174 {
        row_parity(row, bits, n - 1) != bits[row[n - 1] as int]
    } else {
        row_parity(row, bits, n - 1)
    }
}

/// The number of the first `n` checks that `bits` fails.
pub open spec fn failed_checks(bits: Seq<bool>, n: int) -> nat
    decreases n,
{
    if n <= 0 {
        0
    } else {
        failed_checks(bits, n - 1) + (if row_parity(TABLE_CV[n - 1]@, bits, 7) {
            1nat
        } else {
            0nat
        })
    }
}

/// The syndrome weight of a word: the number of checks that it fails.
pub open spec fn spec_check(bits: Seq<bool>) -> nat {
    failed_checks(bits, 83)
}

/// Whether message bit `i` contributes to parity bit `j`.
pub open spec fn gen_bit(i: int, j: int) -> bool {
    word_bit(TABLE_GEN[i][j / 32], j % 32)
}

/// The sum of the contributions of the first `n` message bits to parity
/// bit `j`.
pub open spec fn spec_parity(msg: Seq<bool>, j: int, n: int) -> bool
    decreases n,
{
    if n <= 0 {
        false
    } else {
        spec_parity(msg, j, n - 1) != (msg[n - 1] && gen_bit(n - 1, j))
    }
}

/// The codeword of a message: the message followed by its 83 parity bits.
pub open spec fn spec_encode(msg: Seq<bool>) -> Seq<bool> {
    msg + Seq::new(83, |j: int| spec_parity(msg, j, 91))
}

proof fn lemma_failed_bound(bits: Seq<bool>, n: int)
    requires
        0 <= n,
    ensures
        failed_checks(bits, n) <= n,
    decreases n,
{
    if n > 0 {
        lemma_failed_bound(bits, n - 1);
    }
}

proof fn lemma_gen_bit(w: u32, b: u32)
    by (bit_vector)
    requires
        b < 32,
    ensures
        ((w & (1u32 << b)) != 0) == ((w >> b) & 1 == 1),
{
}

/// Counts the checks that a word fails.
pub fn check(message: &[bool; 174]) -> (count: u8)
    ensures
        count == spec_check(message@),
        count <= 83,
{
    let mut count: u8 = 0;
    let mut c: usize = 0;
    while c < C_SIZE
        invariant
            c <= 83,
            count == failed_checks(message@, c as int),
            count <= c,
        decreases 83 - c,
    {
        let mut sum = false;
        let mut k: usize = 0;
        while k < TABLE_CV_LEN
            invariant
                c < 83,
                k <= 7,
                sum == row_parity(TABLE_CV[c as int]@, message@, k as int),
            decreases 7 - k,
        {
            let j = TABLE_CV[c][k];
            if (j as usize) < V_SIZE {
                sum = sum ^ message[j as usize];
            }
            k += 1;
        }
        if sum {
            count += 1;
        }
        c += 1;
    }
    count
}

/// Appends the 83 parity bits to a message.
pub fn encode(data: &MessageBitsWithCRC) -> (ret: FullMessageBits)
    ensures
        ret@ == spec_encode(data@),
{
    data.witness();
    let mut ret = data.with_size::<174, 6>();
    let ghost msg = data@;
    proof {
        assert(ret@ =~= msg + Seq::new(83, |j: int| false));
    }
    let mut j: usize = 0;
    while j < C_SIZE
        invariant
            j <= 83,
            msg == data@,
            msg.len() == 91,
            ret@.len() == 174,
            ret@.subrange(0, 91) == msg,
            forall|k: int| 0 <= k < j ==> ret@[91 + k] == spec_parity(msg, k, 91),
        decreases 83 - j,
    {
        let mut p = false;
        let mut i: usize = 0;
        while i < MSG_BITS
            invariant
                i <= 91,
                j < 83,
                msg == data@,
                msg.len() == 91,
                p == spec_parity(msg, j as int, i as int),
            decreases 91 - i,
        {
            let w = TABLE_GEN[i][j / 32];
            let b = 31 - (j % 32);
            proof {
                lemma_gen_bit(w, b as u32);
            }
            if data.get(i) && (w & (1u32 << b) != 0) {
                p = !p;
            }
            i += 1;
        }
        let ghost before = ret@;
        ret.set(91 + j, p);
        proof {
            assert(ret@.subrange(0, 91) =~= before.subrange(0, 91));
        }
        j += 1;
    }
    proof {
        assert(ret@ =~= spec_encode(msg));
    }
    ret
}

/// The bits of a codeword one by one.
pub fn unpack_bits(bits: &FullMessageBits) -> (out: [bool; 174])
    ensures
        out@ == bits@,
{
    bits.witness();
    let mut out = [false; 174];
    let mut i: usize = 0;
    while i < V_SIZE
        invariant
            i <= 174,
            bits@.len() == 174,
            forall|k: int| 0 <= k < i ==> out@[k] == bits@[k],
        decreases 174 - i,
    {
        out[i] = bits.get(i);
        i += 1;
    }
    proof {
        assert(out@ =~= bits@);
    }
    out
}

/// The message bits of a word: its first 91 bits.
pub fn pack_message(plain: &[bool; 174]) -> (out: MessageBitsWithCRC)
    ensures
        out@ == plain@.subrange(0, 91),
{
    let mut out = MessageBitsWithCRC::new();
    let mut i: usize = 0;
    while i < MSG_BITS
        invariant
            i <= 91,
            out@.len() == 91,
            forall|k: int| 0 <= k < i ==> out@[k] == plain@[k],
        decreases 91 - i,
    {
        out.set(i, plain[i]);
        i += 1;
    }
    proof {
        assert(out@ =~= plain@.subrange(0, 91));
    }
    out
}

/// The bookkeeping of iterative decoding: the best syndrome weight so far,
/// the rounds since it was reached, and the rounds done.
#[derive(Debug, Clone, Copy)]
pub struct SolveControl {
    pub min_err: u8,
    pub last_err: u8,
    pub count_no_progress: usize,
    pub rounds: usize,
}

impl SolveControl {
    /// The state before the first round.
    pub fn new() -> (r: Self)
        ensures
            r == (SolveControl { min_err: 83, last_err: 83, count_no_progress: 0, rounds: 0 }),
    {
        SolveControl { min_err: 83, last_err: 83, count_no_progress: 0, rounds: 0 }
    }

    /// Whether another round may begin.
    pub fn more(&self) -> (r: bool)
        ensures
            r == (self.rounds < 100),
    {
        self.rounds < MAX_ITER
    }

    /// Whether a round with syndrome weight `err` is followed by message
    /// passing: not if the word passes every check, and not if this is the
    /// tenth round in a row that did not improve on the best weight.
    pub open spec fn spec_go_on(self, err: u8) -> bool {
        err != 0 && (err < self.min_err || self.count_no_progress + 1 < 10)
    }

    /// Records the syndrome weight of a round; see [`SolveControl::spec_go_on`].
    pub fn observe(&mut self, err: u8) -> (go_on: bool)
        requires
            old(self).rounds < 100,
            old(self).count_no_progress < 10,
        ensures
            go_on == old(self).spec_go_on(err),
            final(self).last_err == err,
            final(self).rounds == old(self).rounds + 1,
            final(self).min_err == (if err != 0 && err < old(self).min_err {
                err
            } else {
                old(self).min_err
            }),
            final(self).count_no_progress == (if err == 0 {
                old(self).count_no_progress
            } else if err < old(self).min_err {
                0
            } else {
                (old(self).count_no_progress + 1) as usize
            }),
            go_on ==> final(self).count_no_progress < 10,
    {
        self.last_err = err;
        self.rounds += 1;
        if err == 0 {
            return false;
        }
        if err < self.min_err {
            self.min_err = err;
            self.count_no_progress = 0;
            true
        } else {
            self.count_no_progress += 1;
            self.count_no_progress < MAX_ITER_NO_PROGRESS
        }
    }
}


/// Whether check `c` names codeword bit `v`.
pub open spec fn check_names(c: int, v: int) -> bool {
    let row = TABLE_CV[c];
    row[0] == v || row[1] == v || row[2] == v || row[3] == v || row[4] == v || row[5] == v
        || row[6] == v
}

/// Whether each of the three checks listed for codeword bit `v` names it.
pub open spec fn bit_in_its_checks(v: int) -> bool {
    let row = TABLE_VC[v];
    check_names(row[0] as int, v) && check_names(row[1] as int, v) && check_names(row[2] as int, v)
}

spec fn bits_in_their_checks(n: int) -> bool
    decreases n,
{
    n <= 0 || (bit_in_its_checks(n - 1) && bits_in_their_checks(n - 1))
}

proof fn lemma_bits_in_their_checks(n: int, v: int)
    requires
        bits_in_their_checks(n),
        0 <= v < n,
    ensures
        bit_in_its_checks(v),
    decreases n,
{
    if v < n - 1 {
        lemma_bits_in_their_checks(n - 1, v);
    }
}

/// Every codeword bit is named by each of the checks listed for it.
pub proof fn lemma_bit_in_its_checks(v: int)
    requires
        0 <= v < 174,
    ensures
        bit_in_its_checks(v),
{
    assert(bits_in_their_checks(6)) by {
        reveal_with_fuel(bits_in_their_checks, 8);
    }
    assert(bits_in_their_checks(12)) by {
        reveal_with_fuel(bits_in_their_checks, 8);
    }
    assert(bits_in_their_checks(18)) by {
        reveal_with_fuel(bits_in_their_checks, 8);
    }
    assert(bits_in_their_checks(24)) by {
        reveal_with_fuel(bits_in_their_checks, 8);
    }
    assert(bits_in_their_checks(30)) by {
        reveal_with_fuel(bits_in_their_checks, 8);
    }
    assert(bits_in_their_checks(36)) by {
        reveal_with_fuel(bits_in_their_checks, 8);
    }
    assert(bits_in_their_checks(42)) by {
        reveal_with_fuel(bits_in_their_checks, 8);
    }
    assert(bits_in_their_checks(48)) by {
        reveal_with_fuel(bits_in_their_checks, 8);
    }
    assert(bits_in_their_checks(54)) by {
        reveal_with_fuel(bits_in_their_checks, 8);
    }
    assert(bits_in_their_checks(60)) by {
        reveal_with_fuel(bits_in_their_checks, 8);
    }
    assert(bits_in_their_checks(66)) by {
        reveal_with_fuel(bits_in_their_checks, 8);
    }
    assert(bits_in_their_checks(72)) by {
        reveal_with_fuel(bits_in_their_checks, 8);
    }
    assert(bits_in_their_checks(78)) by {
        reveal_with_fuel(bits_in_their_checks, 8);
    }
    assert(bits_in_their_checks(84)) by {
        reveal_with_fuel(bits_in_their_checks, 8);
    }
    assert(bits_in_their_checks(90)) by {
        reveal_with_fuel(bits_in_their_checks, 8);
    }
    assert(bits_in_their_checks(96)) by {
        reveal_with_fuel(bits_in_their_checks, 8);
    }
    assert(bits_in_their_checks(102)) by {
        reveal_with_fuel(bits_in_their_checks, 8);
    }
    assert(bits_in_their_checks(108)) by {
        reveal_with_fuel(bits_in_their_checks, 8);
    }
    assert(bits_in_their_checks(114)) by {
        reveal_with_fuel(bits_in_their_checks, 8);
    }
    assert(bits_in_their_checks(120)) by {
        reveal_with_fuel(bits_in_their_checks, 8);
    }
    assert(bits_in_their_checks(126)) by {
        reveal_with_fuel(bits_in_their_checks, 8);
    }
    assert(bits_in_their_checks(132)) by {
        reveal_with_fuel(bits_in_their_checks, 8);
    }
    assert(bits_in_their_checks(138)) by {
        reveal_with_fuel(bits_in_their_checks, 8);
    }
    assert(bits_in_their_checks(144)) by {
        reveal_with_fuel(bits_in_their_checks, 8);
    }
    assert(bits_in_their_checks(150)) by {
        reveal_with_fuel(bits_in_their_checks, 8);
    }
    assert(bits_in_their_checks(156)) by {
        reveal_with_fuel(bits_in_their_checks, 8);
    }
    assert(bits_in_their_checks(162)) by {
        reveal_with_fuel(bits_in_their_checks, 8);
    }
    assert(bits_in_their_checks(168)) by {
        reveal_with_fuel(bits_in_their_checks, 8);
    }
    assert(bits_in_their_checks(174)) by {
        reveal_with_fuel(bits_in_their_checks, 8);
    }
    lemma_bits_in_their_checks(174, v);
}

/// Whether codeword bit `v` lists check `c`.
pub open spec fn bit_lists(v: int, c: int) -> bool {
    let row = TABLE_VC[v];
    row[0] == c || row[1] == c || row[2] == c
}

/// Whether entry `k` of check `c` is the filler or a codeword bit that
/// lists the check.
pub open spec fn entry_listed(c: int, k: int) -> bool {
    TABLE_CV[c][k] == 0xff || (TABLE_CV[c][k] < 174 && bit_lists(TABLE_CV[c][k] as int, c))
}

/// Whether each codeword bit that check `c` names lists the check.
pub open spec fn check_in_its_bits(c: int) -> bool {
    entry_listed(c, 0) && entry_listed(c, 1) && entry_listed(c, 2) && entry_listed(c, 3)
        && entry_listed(c, 4) && entry_listed(c, 5) && entry_listed(c, 6)
}

spec fn checks_in_their_bits(n: int) -> bool
    decreases n,
{
    n <= 0 || (check_in_its_bits(n - 1) && checks_in_their_bits(n - 1))
}

proof fn lemma_checks_in_their_bits(n: int, c: int)
    requires
        checks_in_their_bits(n),
        0 <= c < n,
    ensures
        check_in_its_bits(c),
    decreases n,
{
    if c < n - 1 {
        lemma_checks_in_their_bits(n - 1, c);
    }
}

/// Every codeword bit that a check names lists the check: with
/// [`lemma_bit_in_its_checks`], the two tables describe one relation.
pub proof fn lemma_check_in_its_bits(c: int)
    requires
        0 <= c < 83,
    ensures
        check_in_its_bits(c),
{
    assert(checks_in_their_bits(4)) by {
        reveal_with_fuel(checks_in_their_bits, 6);
    }
    assert(checks_in_their_bits(8)) by {
        reveal_with_fuel(checks_in_their_bits, 6);
    }
    assert(checks_in_their_bits(12)) by {
        reveal_with_fuel(checks_in_their_bits, 6);
    }
    assert(checks_in_their_bits(16)) by {
        reveal_with_fuel(checks_in_their_bits, 6);
    }
    assert(checks_in_their_bits(20)) by {
        reveal_with_fuel(checks_in_their_bits, 6);
    }
    assert(checks_in_their_bits(24)) by {
        reveal_with_fuel(checks_in_their_bits, 6);
    }
    assert(checks_in_their_bits(28)) by {
        reveal_with_fuel(checks_in_their_bits, 6);
    }
    assert(checks_in_their_bits(32)) by {
        reveal_with_fuel(checks_in_their_bits, 6);
    }
    assert(checks_in_their_bits(36)) by {
        reveal_with_fuel(checks_in_their_bits, 6);
    }
    assert(checks_in_their_bits(40)) by {
        reveal_with_fuel(checks_in_their_bits, 6);
    }
    assert(checks_in_their_bits(44)) by {
        reveal_with_fuel(checks_in_their_bits, 6);
    }
    assert(checks_in_their_bits(48)) by {
        reveal_with_fuel(checks_in_their_bits, 6);
    }
    assert(checks_in_their_bits(52)) by {
        reveal_with_fuel(checks_in_their_bits, 6);
    }
    assert(checks_in_their_bits(56)) by {
        reveal_with_fuel(checks_in_their_bits, 6);
    }
    assert(checks_in_their_bits(60)) by {
        reveal_with_fuel(checks_in_their_bits, 6);
    }
    assert(checks_in_their_bits(64)) by {
        reveal_with_fuel(checks_in_their_bits, 6);
    }
    assert(checks_in_their_bits(68)) by {
        reveal_with_fuel(checks_in_their_bits, 6);
    }
    assert(checks_in_their_bits(72)) by {
        reveal_with_fuel(checks_in_their_bits, 6);
    }
    assert(checks_in_their_bits(76)) by {
        reveal_with_fuel(checks_in_their_bits, 6);
    }
    assert(checks_in_their_bits(80)) by {
        reveal_with_fuel(checks_in_their_bits, 6);
    }
    assert(checks_in_their_bits(83)) by {
        reveal_with_fuel(checks_in_their_bits, 6);
    }
    lemma_checks_in_their_bits(83, c);
}

} // verus!
