//! The decimal digits of Unicode.

use vstd::prelude::*;

verus! {

/// The characters of Unicode's general category `Decimal_Number` (version 16).
#[verifier::opaque]
pub open spec fn is_decimal_number(c: char) -> bool {
    ||| '0' <= c <= '9'
    ||| '\u{660}' <= c <= '\u{669}'
    ||| '\u{6f0}' <= c <= '\u{6f9}'
    ||| '\u{7c0}' <= c <= '\u{7c9}'
    ||| '\u{966}' <= c <= '\u{96f}'
    ||| '\u{9e6}' <= c <= '\u{9ef}'
    ||| '\u{a66}' <= c <= '\u{a6f}'
    ||| '\u{ae6}' <= c <= '\u{aef}'
    ||| '\u{b66}' <= c <= '\u{b6f}'
    ||| '\u{be6}' <= c <= '\u{bef}'
    ||| '\u{c66}' <= c <= '\u{c6f}'
    ||| '\u{ce6}' <= c <= '\u{cef}'
    ||| '\u{d66}' <= c <= '\u{d6f}'
    ||| '\u{de6}' <= c <= '\u{def}'
    ||| '\u{e50}' <= c <= '\u{e59}'
    ||| '\u{ed0}' <= c <= '\u{ed9}'
    ||| '\u{f20}' <= c <= '\u{f29}'
    ||| '\u{1040}' <= c <= '\u{1049}'
    ||| '\u{1090}' <= c <= '\u{1099}'
    ||| '\u{17e0}' <= c <= '\u{17e9}'
    ||| '\u{1810}' <= c <= '\u{1819}'
    ||| '\u{1946}' <= c <= '\u{194f}'
    ||| '\u{19d0}' <= c <= '\u{19d9}'
    ||| '\u{1a80}' <= c <= '\u{1a89}'
    ||| '\u{1a90}' <= c <= '\u{1a99}'
    ||| '\u{1b50}' <= c <= '\u{1b59}'
    ||| '\u{1bb0}' <= c <= '\u{1bb9}'
    ||| '\u{1c40}' <= c <= '\u{1c49}'
    ||| '\u{1c50}' <= c <= '\u{1c59}'
    ||| '\u{a620}' <= c <= '\u{a629}'
    ||| '\u{a8d0}' <= c <= '\u{a8d9}'
    ||| '\u{a900}' <= c <= '\u{a909}'
    ||| '\u{a9d0}' <= c <= '\u{a9d9}'
    ||| '\u{a9f0}' <= c <= '\u{a9f9}'
    ||| '\u{aa50}' <= c <= '\u{aa59}'
    ||| '\u{abf0}' <= c <= '\u{abf9}'
    ||| '\u{ff10}' <= c <= '\u{ff19}'
    ||| '\u{104a0}' <= c <= '\u{104a9}'
    ||| '\u{10d30}' <= c <= '\u{10d39}'
    ||| '\u{10d40}' <= c <= '\u{10d49}'
    ||| '\u{11066}' <= c <= '\u{1106f}'
    ||| '\u{110f0}' <= c <= '\u{110f9}'
    ||| '\u{11136}' <= c <= '\u{1113f}'
    ||| '\u{111d0}' <= c <= '\u{111d9}'
    ||| '\u{112f0}' <= c <= '\u{112f9}'
    ||| '\u{11450}' <= c <= '\u{11459}'
    ||| '\u{114d0}' <= c <= '\u{114d9}'
    ||| '\u{11650}' <= c <= '\u{11659}'
    ||| '\u{116c0}' <= c <= '\u{116c9}'
    ||| '\u{116d0}' <= c <= '\u{116e3}'
    ||| '\u{11730}' <= c <= '\u{11739}'
    ||| '\u{118e0}' <= c <= '\u{118e9}'
    ||| '\u{11950}' <= c <= '\u{11959}'
    ||| '\u{11bf0}' <= c <= '\u{11bf9}'
    ||| '\u{11c50}' <= c <= '\u{11c59}'
    ||| '\u{11d50}' <= c <= '\u{11d59}'
    ||| '\u{11da0}' <= c <= '\u{11da9}'
    ||| '\u{11f50}' <= c <= '\u{11f59}'
    ||| '\u{16130}' <= c <= '\u{16139}'
    ||| '\u{16a60}' <= c <= '\u{16a69}'
    ||| '\u{16ac0}' <= c <= '\u{16ac9}'
    ||| '\u{16b50}' <= c <= '\u{16b59}'
    ||| '\u{16d70}' <= c <= '\u{16d79}'
    ||| '\u{1ccf0}' <= c <= '\u{1ccf9}'
    ||| '\u{1d7ce}' <= c <= '\u{1d7ff}'
    ||| '\u{1e140}' <= c <= '\u{1e149}'
    ||| '\u{1e2f0}' <= c <= '\u{1e2f9}'
    ||| '\u{1e4f0}' <= c <= '\u{1e4f9}'
    ||| '\u{1e5f1}' <= c <= '\u{1e5fa}'
    ||| '\u{1e950}' <= c <= '\u{1e959}'
    ||| '\u{1fbf0}' <= c <= '\u{1fbf9}'
}

/// Whether `c` is a decimal digit of some script.
pub fn decimal_number(c: char) -> (r: bool)
    ensures
        r == is_decimal_number(c),
{
    reveal(is_decimal_number);
    ('0' <= c && c <= '9') ||
    ('\u{660}' <= c && c <= '\u{669}') ||
    ('\u{6f0}' <= c && c <= '\u{6f9}') ||
    ('\u{7c0}' <= c && c <= '\u{7c9}') ||
    ('\u{966}' <= c && c <= '\u{96f}') ||
    ('\u{9e6}' <= c && c <= '\u{9ef}') ||
    ('\u{a66}' <= c && c <= '\u{a6f}') ||
    ('\u{ae6}' <= c && c <= '\u{aef}') ||
    ('\u{b66}' <= c && c <= '\u{b6f}') ||
    ('\u{be6}' <= c && c <= '\u{bef}') ||
    ('\u{c66}' <= c && c <= '\u{c6f}') ||
    ('\u{ce6}' <= c && c <= '\u{cef}') ||
    ('\u{d66}' <= c && c <= '\u{d6f}') ||
    ('\u{de6}' <= c && c <= '\u{def}') ||
    ('\u{e50}' <= c && c <= '\u{e59}') ||
    ('\u{ed0}' <= c && c <= '\u{ed9}') ||
    ('\u{f20}' <= c && c <= '\u{f29}') ||
    ('\u{1040}' <= c && c <= '\u{1049}') ||
    ('\u{1090}' <= c && c <= '\u{1099}') ||
    ('\u{17e0}' <= c && c <= '\u{17e9}') ||
    ('\u{1810}' <= c && c <= '\u{1819}') ||
    ('\u{1946}' <= c && c <= '\u{194f}') ||
    ('\u{19d0}' <= c && c <= '\u{19d9}') ||
    ('\u{1a80}' <= c && c <= '\u{1a89}') ||
    ('\u{1a90}' <= c && c <= '\u{1a99}') ||
    ('\u{1b50}' <= c && c <= '\u{1b59}') ||
    ('\u{1bb0}' <= c && c <= '\u{1bb9}') ||
    ('\u{1c40}' <= c && c <= '\u{1c49}') ||
    ('\u{1c50}' <= c && c <= '\u{1c59}') ||
    ('\u{a620}' <= c && c <= '\u{a629}') ||
    ('\u{a8d0}' <= c && c <= '\u{a8d9}') ||
    ('\u{a900}' <= c && c <= '\u{a909}') ||
    ('\u{a9d0}' <= c && c <= '\u{a9d9}') ||
    ('\u{a9f0}' <= c && c <= '\u{a9f9}') ||
    ('\u{aa50}' <= c && c <= '\u{aa59}') ||
    ('\u{abf0}' <= c && c <= '\u{abf9}') ||
    ('\u{ff10}' <= c && c <= '\u{ff19}') ||
    ('\u{104a0}' <= c && c <= '\u{104a9}') ||
    ('\u{10d30}' <= c && c <= '\u{10d39}') ||
    ('\u{10d40}' <= c && c <= '\u{10d49}') ||
    ('\u{11066}' <= c && c <= '\u{1106f}') ||
    ('\u{110f0}' <= c && c <= '\u{110f9}') ||
    ('\u{11136}' <= c && c <= '\u{1113f}') ||
    ('\u{111d0}' <= c && c <= '\u{111d9}') ||
    ('\u{112f0}' <= c && c <= '\u{112f9}') ||
    ('\u{11450}' <= c && c <= '\u{11459}') ||
    ('\u{114d0}' <= c && c <= '\u{114d9}') ||
    ('\u{11650}' <= c && c <= '\u{11659}') ||
    ('\u{116c0}' <= c && c <= '\u{116c9}') ||
    ('\u{116d0}' <= c && c <= '\u{116e3}') ||
    ('\u{11730}' <= c && c <= '\u{11739}') ||
    ('\u{118e0}' <= c && c <= '\u{118e9}') ||
    ('\u{11950}' <= c && c <= '\u{11959}') ||
    ('\u{11bf0}' <= c && c <= '\u{11bf9}') ||
    ('\u{11c50}' <= c && c <= '\u{11c59}') ||
    ('\u{11d50}' <= c && c <= '\u{11d59}') ||
    ('\u{11da0}' <= c && c <= '\u{11da9}') ||
    ('\u{11f50}' <= c && c <= '\u{11f59}') ||
    ('\u{16130}' <= c && c <= '\u{16139}') ||
    ('\u{16a60}' <= c && c <= '\u{16a69}') ||
    ('\u{16ac0}' <= c && c <= '\u{16ac9}') ||
    ('\u{16b50}' <= c && c <= '\u{16b59}') ||
    ('\u{16d70}' <= c && c <= '\u{16d79}') ||
    ('\u{1ccf0}' <= c && c <= '\u{1ccf9}') ||
    ('\u{1d7ce}' <= c && c <= '\u{1d7ff}') ||
    ('\u{1e140}' <= c && c <= '\u{1e149}') ||
    ('\u{1e2f0}' <= c && c <= '\u{1e2f9}') ||
    ('\u{1e4f0}' <= c && c <= '\u{1e4f9}') ||
    ('\u{1e5f1}' <= c && c <= '\u{1e5fa}') ||
    ('\u{1e950}' <= c && c <= '\u{1e959}') ||
    ('\u{1fbf0}' <= c && c <= '\u{1fbf9}')
}

/// The ASCII digits are among them.
pub proof fn ascii_digits_are_decimal(c: char)
    requires
        '0' <= c <= '9',
    ensures
        is_decimal_number(c),
{
    reveal(is_decimal_number);
}

/// None of the separators of a progress line is a decimal digit.
pub proof fn separators_are_not_decimal()
    ensures
        !is_decimal_number('%'),
        !is_decimal_number('('),
        !is_decimal_number(')'),
        !is_decimal_number('/'),
        !is_decimal_number(','),
        !is_decimal_number('.'),
        !is_decimal_number(' '),
        !is_decimal_number('K'),
        !is_decimal_number('M'),
        !is_decimal_number('G'),
{
    reveal(is_decimal_number);
}

/// No decimal digit is white space.
pub proof fn digits_are_no_space(c: char)
    requires
        is_decimal_number(c),
    ensures
        !crate::text::is_space(c),
{
    reveal(is_decimal_number);
}

/// The zeros of Unicode's decimal digits, in order.
pub open spec fn zeros() -> Seq<int> {
    seq![
        0x30,
        0x660,
        0x6f0,
        0x7c0,
        0x966,
        0x9e6,
        0xa66,
        0xae6,
        0xb66,
        0xbe6,
        0xc66,
        0xce6,
        0xd66,
        0xde6,
        0xe50,
        0xed0,
        0xf20,
        0x1040,
        0x1090,
        0x17e0,
        0x1810,
        0x1946,
        0x19d0,
        0x1a80,
        0x1a90,
        0x1b50,
        0x1bb0,
        0x1c40,
        0x1c50,
        0xa620,
        0xa8d0,
        0xa900,
        0xa9d0,
        0xa9f0,
        0xaa50,
        0xabf0,
        0xff10,
        0x104a0,
        0x10d30,
        0x10d40,
        0x11066,
        0x110f0,
        0x11136,
        0x111d0,
        0x112f0,
        0x11450,
        0x114d0,
        0x11650,
        0x116c0,
        0x116d0,
        0x116da,
        0x11730,
        0x118e0,
        0x11950,
        0x11bf0,
        0x11c50,
        0x11d50,
        0x11da0,
        0x11f50,
        0x16130,
        0x16a60,
        0x16ac0,
        0x16b50,
        0x16d70,
        0x1ccf0,
        0x1d7ce,
        0x1d7d8,
        0x1d7e2,
        0x1d7ec,
        0x1d7f6,
        0x1e140,
        0x1e2f0,
        0x1e4f0,
        0x1e5f1,
        0x1e950,
        0x1fbf0,
    ]
}

/// The decimal digits of Unicode come in tens: each is one of the ten characters from a zero on.
pub proof fn digits_come_in_tens(c: char)
    ensures
        is_decimal_number(c) <==> exists|k: int|
            0 <= k < zeros().len() && #[trigger] zeros()[k] <= c as int && (c as int) < zeros()[k]
                + 10,
{
    reveal(is_decimal_number);
    let n = c as int;
    let zeros = zeros();
    if 0x30 <= n < 0x3a {
        assert(zeros[0] == 0x30);
    }
    if 0x660 <= n < 0x66a {
        assert(zeros[1] == 0x660);
    }
    if 0x6f0 <= n < 0x6fa {
        assert(zeros[2] == 0x6f0);
    }
    if 0x7c0 <= n < 0x7ca {
        assert(zeros[3] == 0x7c0);
    }
    if 0x966 <= n < 0x970 {
        assert(zeros[4] == 0x966);
    }
    if 0x9e6 <= n < 0x9f0 {
        assert(zeros[5] == 0x9e6);
    }
    if 0xa66 <= n < 0xa70 {
        assert(zeros[6] == 0xa66);
    }
    if 0xae6 <= n < 0xaf0 {
        assert(zeros[7] == 0xae6);
    }
    if 0xb66 <= n < 0xb70 {
        assert(zeros[8] == 0xb66);
    }
    if 0xbe6 <= n < 0xbf0 {
        assert(zeros[9] == 0xbe6);
    }
    if 0xc66 <= n < 0xc70 {
        assert(zeros[10] == 0xc66);
    }
    if 0xce6 <= n < 0xcf0 {
        assert(zeros[11] == 0xce6);
    }
    if 0xd66 <= n < 0xd70 {
        assert(zeros[12] == 0xd66);
    }
    if 0xde6 <= n < 0xdf0 {
        assert(zeros[13] == 0xde6);
    }
    if 0xe50 <= n < 0xe5a {
        assert(zeros[14] == 0xe50);
    }
    if 0xed0 <= n < 0xeda {
        assert(zeros[15] == 0xed0);
    }
    if 0xf20 <= n < 0xf2a {
        assert(zeros[16] == 0xf20);
    }
    if 0x1040 <= n < 0x104a {
        assert(zeros[17] == 0x1040);
    }
    if 0x1090 <= n < 0x109a {
        assert(zeros[18] == 0x1090);
    }
    if 0x17e0 <= n < 0x17ea {
        assert(zeros[19] == 0x17e0);
    }
    if 0x1810 <= n < 0x181a {
        assert(zeros[20] == 0x1810);
    }
    if 0x1946 <= n < 0x1950 {
        assert(zeros[21] == 0x1946);
    }
    if 0x19d0 <= n < 0x19da {
        assert(zeros[22] == 0x19d0);
    }
    if 0x1a80 <= n < 0x1a8a {
        assert(zeros[23] == 0x1a80);
    }
    if 0x1a90 <= n < 0x1a9a {
        assert(zeros[24] == 0x1a90);
    }
    if 0x1b50 <= n < 0x1b5a {
        assert(zeros[25] == 0x1b50);
    }
    if 0x1bb0 <= n < 0x1bba {
        assert(zeros[26] == 0x1bb0);
    }
    if 0x1c40 <= n < 0x1c4a {
        assert(zeros[27] == 0x1c40);
    }
    if 0x1c50 <= n < 0x1c5a {
        assert(zeros[28] == 0x1c50);
    }
    if 0xa620 <= n < 0xa62a {
        assert(zeros[29] == 0xa620);
    }
    if 0xa8d0 <= n < 0xa8da {
        assert(zeros[30] == 0xa8d0);
    }
    if 0xa900 <= n < 0xa90a {
        assert(zeros[31] == 0xa900);
    }
    if 0xa9d0 <= n < 0xa9da {
        assert(zeros[32] == 0xa9d0);
    }
    if 0xa9f0 <= n < 0xa9fa {
        assert(zeros[33] == 0xa9f0);
    }
    if 0xaa50 <= n < 0xaa5a {
        assert(zeros[34] == 0xaa50);
    }
    if 0xabf0 <= n < 0xabfa {
        assert(zeros[35] == 0xabf0);
    }
    if 0xff10 <= n < 0xff1a {
        assert(zeros[36] == 0xff10);
    }
    if 0x104a0 <= n < 0x104aa {
        assert(zeros[37] == 0x104a0);
    }
    if 0x10d30 <= n < 0x10d3a {
        assert(zeros[38] == 0x10d30);
    }
    if 0x10d40 <= n < 0x10d4a {
        assert(zeros[39] == 0x10d40);
    }
    if 0x11066 <= n < 0x11070 {
        assert(zeros[40] == 0x11066);
    }
    if 0x110f0 <= n < 0x110fa {
        assert(zeros[41] == 0x110f0);
    }
    if 0x11136 <= n < 0x11140 {
        assert(zeros[42] == 0x11136);
    }
    if 0x111d0 <= n < 0x111da {
        assert(zeros[43] == 0x111d0);
    }
    if 0x112f0 <= n < 0x112fa {
        assert(zeros[44] == 0x112f0);
    }
    if 0x11450 <= n < 0x1145a {
        assert(zeros[45] == 0x11450);
    }
    if 0x114d0 <= n < 0x114da {
        assert(zeros[46] == 0x114d0);
    }
    if 0x11650 <= n < 0x1165a {
        assert(zeros[47] == 0x11650);
    }
    if 0x116c0 <= n < 0x116ca {
        assert(zeros[48] == 0x116c0);
    }
    if 0x116d0 <= n < 0x116da {
        assert(zeros[49] == 0x116d0);
    }
    if 0x116da <= n < 0x116e4 {
        assert(zeros[50] == 0x116da);
    }
    if 0x11730 <= n < 0x1173a {
        assert(zeros[51] == 0x11730);
    }
    if 0x118e0 <= n < 0x118ea {
        assert(zeros[52] == 0x118e0);
    }
    if 0x11950 <= n < 0x1195a {
        assert(zeros[53] == 0x11950);
    }
    if 0x11bf0 <= n < 0x11bfa {
        assert(zeros[54] == 0x11bf0);
    }
    if 0x11c50 <= n < 0x11c5a {
        assert(zeros[55] == 0x11c50);
    }
    if 0x11d50 <= n < 0x11d5a {
        assert(zeros[56] == 0x11d50);
    }
    if 0x11da0 <= n < 0x11daa {
        assert(zeros[57] == 0x11da0);
    }
    if 0x11f50 <= n < 0x11f5a {
        assert(zeros[58] == 0x11f50);
    }
    if 0x16130 <= n < 0x1613a {
        assert(zeros[59] == 0x16130);
    }
    if 0x16a60 <= n < 0x16a6a {
        assert(zeros[60] == 0x16a60);
    }
    if 0x16ac0 <= n < 0x16aca {
        assert(zeros[61] == 0x16ac0);
    }
    if 0x16b50 <= n < 0x16b5a {
        assert(zeros[62] == 0x16b50);
    }
    if 0x16d70 <= n < 0x16d7a {
        assert(zeros[63] == 0x16d70);
    }
    if 0x1ccf0 <= n < 0x1ccfa {
        assert(zeros[64] == 0x1ccf0);
    }
    if 0x1d7ce <= n < 0x1d7d8 {
        assert(zeros[65] == 0x1d7ce);
    }
    if 0x1d7d8 <= n < 0x1d7e2 {
        assert(zeros[66] == 0x1d7d8);
    }
    if 0x1d7e2 <= n < 0x1d7ec {
        assert(zeros[67] == 0x1d7e2);
    }
    if 0x1d7ec <= n < 0x1d7f6 {
        assert(zeros[68] == 0x1d7ec);
    }
    if 0x1d7f6 <= n < 0x1d800 {
        assert(zeros[69] == 0x1d7f6);
    }
    if 0x1e140 <= n < 0x1e14a {
        assert(zeros[70] == 0x1e140);
    }
    if 0x1e2f0 <= n < 0x1e2fa {
        assert(zeros[71] == 0x1e2f0);
    }
    if 0x1e4f0 <= n < 0x1e4fa {
        assert(zeros[72] == 0x1e4f0);
    }
    if 0x1e5f1 <= n < 0x1e5fb {
        assert(zeros[73] == 0x1e5f1);
    }
    if 0x1e950 <= n < 0x1e95a {
        assert(zeros[74] == 0x1e950);
    }
    if 0x1fbf0 <= n < 0x1fbfa {
        assert(zeros[75] == 0x1fbf0);
    }
}

} // verus!
