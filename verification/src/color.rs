//! sRGB to linear color.
use vstd::prelude::*;

verus! {

/// Linear value of each sRGB channel value.
const LINEAR: [u8; 256] = [
    0, 0, 0, 0, 0, 0, 0, 0, 0, 0, 0, 0, 0, 1, 1, 1,
    1, 1, 1, 1, 1, 1, 2, 2, 2, 2, 2, 2, 2, 3, 3, 3,
    3, 3, 4, 4, 4, 4, 4, 5, 5, 5, 5, 6, 6, 6, 6, 7,
    7, 7, 8, 8, 8, 9, 9, 9, 10, 10, 10, 11, 11, 11, 12, 12,
    13, 13, 13, 14, 14, 15, 15, 16, 16, 16, 17, 17, 18, 18, 19, 19,
    20, 20, 21, 22, 22, 23, 23, 24, 24, 25, 26, 26, 27, 27, 28, 29,
    29, 30, 31, 31, 32, 33, 33, 34, 35, 36, 36, 37, 38, 38, 39, 40,
    41, 42, 42, 43, 44, 45, 46, 47, 47, 48, 49, 50, 51, 52, 53, 54,
    55, 55, 56, 57, 58, 59, 60, 61, 62, 63, 64, 65, 66, 67, 68, 70,
    71, 72, 73, 74, 75, 76, 77, 78, 80, 81, 82, 83, 84, 85, 87, 88,
    89, 90, 92, 93, 94, 95, 97, 98, 99, 101, 102, 103, 105, 106, 107, 109,
    110, 112, 113, 114, 116, 117, 119, 120, 122, 123, 125, 126, 128, 129, 131, 132,
    134, 135, 137, 139, 140, 142, 144, 145, 147, 148, 150, 152, 153, 155, 157, 159,
    160, 162, 164, 166, 167, 169, 171, 173, 175, 176, 178, 180, 182, 184, 186, 188,
    190, 192, 193, 195, 197, 199, 201, 203, 205, 207, 209, 211, 213, 215, 218, 220,
    222, 224, 226, 228, 230, 232, 235, 237, 239, 241, 243, 245, 248, 250, 252, 254,
];

/// Denominator of [`curve_base`].
pub open spec fn curve_unit() -> int {
    107_610_000_000
}

/// The base of the sRGB power curve at channel value `c`, `c / 255 / 1.055 + 0.0521327`, as a
/// multiple of `1 / curve_unit()`.
pub open spec fn curve_base(c: int) -> int {
    400_000_000 * c + 5_609_999_847
}

pub open spec fn square(x: int) -> int {
    x * x
}

pub open spec fn fifth(x: int) -> int {
    square(square(x)) * x
}

pub open spec fn twelfth(x: int) -> int {
    square(square(x)) * square(square(square(x)))
}

/// `y <= 255 * (curve_base(c) / curve_unit())^2.4`, with both sides raised to the fifth power and
/// the fraction cleared.
pub open spec fn reaches(c: int, y: int) -> bool {
    fifth(y) * twelfth(curve_unit()) <= fifth(255) * twelfth(curve_base(c))
}

/// `y` is the linear value of the channel value `c`, rounded down: `c / 12.192` on the linear part
/// of the curve (`c / 255 <= 0.04045`), and `255 * (c / 255 / 1.055 + 0.0521327)^2.4` above it.
pub open spec fn is_linear(c: u8, y: int) -> bool {
    if 100_000 * c <= 4_045 * 255 {
        y == 1_000 * c / 12_192
    } else {
        reaches(c as int, y) && !reaches(c as int, y + 1)
    }
}

proof fn lemma_values_0()
    by (nonlinear_arith)
    ensures
        is_linear(0, 0),
        is_linear(1, 0),
        is_linear(2, 0),
        is_linear(3, 0),
        is_linear(4, 0),
        is_linear(5, 0),
        is_linear(6, 0),
        is_linear(7, 0),
        is_linear(8, 0),
        is_linear(9, 0),
        is_linear(10, 0),
        is_linear(11, 0),
        is_linear(12, 0),
        is_linear(13, 1),
        is_linear(14, 1),
        is_linear(15, 1),
{
}

proof fn lemma_table_0(c: u8)
    requires
        0 <= c < 16,
    ensures
        is_linear(c, LINEAR[c as int] as int),
        LINEAR[c as int] <= c,
{
    lemma_values_0();
    assert(c == 0 || c == 1 || c == 2 || c == 3 || c == 4 || c == 5 || c == 6 || c == 7 || c == 8 || c == 9 || c == 10 || c == 11 || c == 12 || c == 13 || c == 14 || c == 15);
}

proof fn lemma_values_16()
    by (nonlinear_arith)
    ensures
        is_linear(16, 1),
        is_linear(17, 1),
        is_linear(18, 1),
        is_linear(19, 1),
        is_linear(20, 1),
        is_linear(21, 1),
        is_linear(22, 2),
        is_linear(23, 2),
        is_linear(24, 2),
        is_linear(25, 2),
        is_linear(26, 2),
        is_linear(27, 2),
        is_linear(28, 2),
        is_linear(29, 3),
        is_linear(30, 3),
        is_linear(31, 3),
{
}

proof fn lemma_table_16(c: u8)
    requires
        16 <= c < 32,
    ensures
        is_linear(c, LINEAR[c as int] as int),
        LINEAR[c as int] <= c,
{
    lemma_values_16();
    assert(c == 16 || c == 17 || c == 18 || c == 19 || c == 20 || c == 21 || c == 22 || c == 23 || c == 24 || c == 25 || c == 26 || c == 27 || c == 28 || c == 29 || c == 30 || c == 31);
}

proof fn lemma_values_32()
    by (nonlinear_arith)
    ensures
        is_linear(32, 3),
        is_linear(33, 3),
        is_linear(34, 4),
        is_linear(35, 4),
        is_linear(36, 4),
        is_linear(37, 4),
        is_linear(38, 4),
        is_linear(39, 5),
        is_linear(40, 5),
        is_linear(41, 5),
        is_linear(42, 5),
        is_linear(43, 6),
        is_linear(44, 6),
        is_linear(45, 6),
        is_linear(46, 6),
        is_linear(47, 7),
{
}

proof fn lemma_table_32(c: u8)
    requires
        32 <= c < 48,
    ensures
        is_linear(c, LINEAR[c as int] as int),
        LINEAR[c as int] <= c,
{
    lemma_values_32();
    assert(c == 32 || c == 33 || c == 34 || c == 35 || c == 36 || c == 37 || c == 38 || c == 39 || c == 40 || c == 41 || c == 42 || c == 43 || c == 44 || c == 45 || c == 46 || c == 47);
}

proof fn lemma_values_48()
    by (nonlinear_arith)
    ensures
        is_linear(48, 7),
        is_linear(49, 7),
        is_linear(50, 8),
        is_linear(51, 8),
        is_linear(52, 8),
        is_linear(53, 9),
        is_linear(54, 9),
        is_linear(55, 9),
        is_linear(56, 10),
        is_linear(57, 10),
        is_linear(58, 10),
        is_linear(59, 11),
        is_linear(60, 11),
        is_linear(61, 11),
        is_linear(62, 12),
        is_linear(63, 12),
{
}

proof fn lemma_table_48(c: u8)
    requires
        48 <= c < 64,
    ensures
        is_linear(c, LINEAR[c as int] as int),
        LINEAR[c as int] <= c,
{
    lemma_values_48();
    assert(c == 48 || c == 49 || c == 50 || c == 51 || c == 52 || c == 53 || c == 54 || c == 55 || c == 56 || c == 57 || c == 58 || c == 59 || c == 60 || c == 61 || c == 62 || c == 63);
}

proof fn lemma_values_64()
    by (nonlinear_arith)
    ensures
        is_linear(64, 13),
        is_linear(65, 13),
        is_linear(66, 13),
        is_linear(67, 14),
        is_linear(68, 14),
        is_linear(69, 15),
        is_linear(70, 15),
        is_linear(71, 16),
        is_linear(72, 16),
        is_linear(73, 16),
        is_linear(74, 17),
        is_linear(75, 17),
        is_linear(76, 18),
        is_linear(77, 18),
        is_linear(78, 19),
        is_linear(79, 19),
{
}

proof fn lemma_table_64(c: u8)
    requires
        64 <= c < 80,
    ensures
        is_linear(c, LINEAR[c as int] as int),
        LINEAR[c as int] <= c,
{
    lemma_values_64();
    assert(c == 64 || c == 65 || c == 66 || c == 67 || c == 68 || c == 69 || c == 70 || c == 71 || c == 72 || c == 73 || c == 74 || c == 75 || c == 76 || c == 77 || c == 78 || c == 79);
}

proof fn lemma_values_80()
    by (nonlinear_arith)
    ensures
        is_linear(80, 20),
        is_linear(81, 20),
        is_linear(82, 21),
        is_linear(83, 22),
        is_linear(84, 22),
        is_linear(85, 23),
        is_linear(86, 23),
        is_linear(87, 24),
        is_linear(88, 24),
        is_linear(89, 25),
        is_linear(90, 26),
        is_linear(91, 26),
        is_linear(92, 27),
        is_linear(93, 27),
        is_linear(94, 28),
        is_linear(95, 29),
{
}

proof fn lemma_table_80(c: u8)
    requires
        80 <= c < 96,
    ensures
        is_linear(c, LINEAR[c as int] as int),
        LINEAR[c as int] <= c,
{
    lemma_values_80();
    assert(c == 80 || c == 81 || c == 82 || c == 83 || c == 84 || c == 85 || c == 86 || c == 87 || c == 88 || c == 89 || c == 90 || c == 91 || c == 92 || c == 93 || c == 94 || c == 95);
}

proof fn lemma_values_96()
    by (nonlinear_arith)
    ensures
        is_linear(96, 29),
        is_linear(97, 30),
        is_linear(98, 31),
        is_linear(99, 31),
        is_linear(100, 32),
        is_linear(101, 33),
        is_linear(102, 33),
        is_linear(103, 34),
        is_linear(104, 35),
        is_linear(105, 36),
        is_linear(106, 36),
        is_linear(107, 37),
        is_linear(108, 38),
        is_linear(109, 38),
        is_linear(110, 39),
        is_linear(111, 40),
{
}

proof fn lemma_table_96(c: u8)
    requires
        96 <= c < 112,
    ensures
        is_linear(c, LINEAR[c as int] as int),
        LINEAR[c as int] <= c,
{
    lemma_values_96();
    assert(c == 96 || c == 97 || c == 98 || c == 99 || c == 100 || c == 101 || c == 102 || c == 103 || c == 104 || c == 105 || c == 106 || c == 107 || c == 108 || c == 109 || c == 110 || c == 111);
}

proof fn lemma_values_112()
    by (nonlinear_arith)
    ensures
        is_linear(112, 41),
        is_linear(113, 42),
        is_linear(114, 42),
        is_linear(115, 43),
        is_linear(116, 44),
        is_linear(117, 45),
        is_linear(118, 46),
        is_linear(119, 47),
        is_linear(120, 47),
        is_linear(121, 48),
        is_linear(122, 49),
        is_linear(123, 50),
        is_linear(124, 51),
        is_linear(125, 52),
        is_linear(126, 53),
        is_linear(127, 54),
{
}

proof fn lemma_table_112(c: u8)
    requires
        112 <= c < 128,
    ensures
        is_linear(c, LINEAR[c as int] as int),
        LINEAR[c as int] <= c,
{
    lemma_values_112();
    assert(c == 112 || c == 113 || c == 114 || c == 115 || c == 116 || c == 117 || c == 118 || c == 119 || c == 120 || c == 121 || c == 122 || c == 123 || c == 124 || c == 125 || c == 126 || c == 127);
}

proof fn lemma_values_128()
    by (nonlinear_arith)
    ensures
        is_linear(128, 55),
        is_linear(129, 55),
        is_linear(130, 56),
        is_linear(131, 57),
        is_linear(132, 58),
        is_linear(133, 59),
        is_linear(134, 60),
        is_linear(135, 61),
        is_linear(136, 62),
        is_linear(137, 63),
        is_linear(138, 64),
        is_linear(139, 65),
        is_linear(140, 66),
        is_linear(141, 67),
        is_linear(142, 68),
        is_linear(143, 70),
{
}

proof fn lemma_table_128(c: u8)
    requires
        128 <= c < 144,
    ensures
        is_linear(c, LINEAR[c as int] as int),
        LINEAR[c as int] <= c,
{
    lemma_values_128();
    assert(c == 128 || c == 129 || c == 130 || c == 131 || c == 132 || c == 133 || c == 134 || c == 135 || c == 136 || c == 137 || c == 138 || c == 139 || c == 140 || c == 141 || c == 142 || c == 143);
}

proof fn lemma_values_144()
    by (nonlinear_arith)
    ensures
        is_linear(144, 71),
        is_linear(145, 72),
        is_linear(146, 73),
        is_linear(147, 74),
        is_linear(148, 75),
        is_linear(149, 76),
        is_linear(150, 77),
        is_linear(151, 78),
        is_linear(152, 80),
        is_linear(153, 81),
        is_linear(154, 82),
        is_linear(155, 83),
        is_linear(156, 84),
        is_linear(157, 85),
        is_linear(158, 87),
        is_linear(159, 88),
{
}

proof fn lemma_table_144(c: u8)
    requires
        144 <= c < 160,
    ensures
        is_linear(c, LINEAR[c as int] as int),
        LINEAR[c as int] <= c,
{
    lemma_values_144();
    assert(c == 144 || c == 145 || c == 146 || c == 147 || c == 148 || c == 149 || c == 150 || c == 151 || c == 152 || c == 153 || c == 154 || c == 155 || c == 156 || c == 157 || c == 158 || c == 159);
}

proof fn lemma_values_160()
    by (nonlinear_arith)
    ensures
        is_linear(160, 89),
        is_linear(161, 90),
        is_linear(162, 92),
        is_linear(163, 93),
        is_linear(164, 94),
        is_linear(165, 95),
        is_linear(166, 97),
        is_linear(167, 98),
        is_linear(168, 99),
        is_linear(169, 101),
        is_linear(170, 102),
        is_linear(171, 103),
        is_linear(172, 105),
        is_linear(173, 106),
        is_linear(174, 107),
        is_linear(175, 109),
{
}

proof fn lemma_table_160(c: u8)
    requires
        160 <= c < 176,
    ensures
        is_linear(c, LINEAR[c as int] as int),
        LINEAR[c as int] <= c,
{
    lemma_values_160();
    assert(c == 160 || c == 161 || c == 162 || c == 163 || c == 164 || c == 165 || c == 166 || c == 167 || c == 168 || c == 169 || c == 170 || c == 171 || c == 172 || c == 173 || c == 174 || c == 175);
}

proof fn lemma_values_176()
    by (nonlinear_arith)
    ensures
        is_linear(176, 110),
        is_linear(177, 112),
        is_linear(178, 113),
        is_linear(179, 114),
        is_linear(180, 116),
        is_linear(181, 117),
        is_linear(182, 119),
        is_linear(183, 120),
        is_linear(184, 122),
        is_linear(185, 123),
        is_linear(186, 125),
        is_linear(187, 126),
        is_linear(188, 128),
        is_linear(189, 129),
        is_linear(190, 131),
        is_linear(191, 132),
{
}

proof fn lemma_table_176(c: u8)
    requires
        176 <= c < 192,
    ensures
        is_linear(c, LINEAR[c as int] as int),
        LINEAR[c as int] <= c,
{
    lemma_values_176();
    assert(c == 176 || c == 177 || c == 178 || c == 179 || c == 180 || c == 181 || c == 182 || c == 183 || c == 184 || c == 185 || c == 186 || c == 187 || c == 188 || c == 189 || c == 190 || c == 191);
}

proof fn lemma_values_192()
    by (nonlinear_arith)
    ensures
        is_linear(192, 134),
        is_linear(193, 135),
        is_linear(194, 137),
        is_linear(195, 139),
        is_linear(196, 140),
        is_linear(197, 142),
        is_linear(198, 144),
        is_linear(199, 145),
        is_linear(200, 147),
        is_linear(201, 148),
        is_linear(202, 150),
        is_linear(203, 152),
        is_linear(204, 153),
        is_linear(205, 155),
        is_linear(206, 157),
        is_linear(207, 159),
{
}

proof fn lemma_table_192(c: u8)
    requires
        192 <= c < 208,
    ensures
        is_linear(c, LINEAR[c as int] as int),
        LINEAR[c as int] <= c,
{
    lemma_values_192();
    assert(c == 192 || c == 193 || c == 194 || c == 195 || c == 196 || c == 197 || c == 198 || c == 199 || c == 200 || c == 201 || c == 202 || c == 203 || c == 204 || c == 205 || c == 206 || c == 207);
}

proof fn lemma_values_208()
    by (nonlinear_arith)
    ensures
        is_linear(208, 160),
        is_linear(209, 162),
        is_linear(210, 164),
        is_linear(211, 166),
        is_linear(212, 167),
        is_linear(213, 169),
        is_linear(214, 171),
        is_linear(215, 173),
        is_linear(216, 175),
        is_linear(217, 176),
        is_linear(218, 178),
        is_linear(219, 180),
        is_linear(220, 182),
        is_linear(221, 184),
        is_linear(222, 186),
        is_linear(223, 188),
{
}

proof fn lemma_table_208(c: u8)
    requires
        208 <= c < 224,
    ensures
        is_linear(c, LINEAR[c as int] as int),
        LINEAR[c as int] <= c,
{
    lemma_values_208();
    assert(c == 208 || c == 209 || c == 210 || c == 211 || c == 212 || c == 213 || c == 214 || c == 215 || c == 216 || c == 217 || c == 218 || c == 219 || c == 220 || c == 221 || c == 222 || c == 223);
}

proof fn lemma_values_224()
    by (nonlinear_arith)
    ensures
        is_linear(224, 190),
        is_linear(225, 192),
        is_linear(226, 193),
        is_linear(227, 195),
        is_linear(228, 197),
        is_linear(229, 199),
        is_linear(230, 201),
        is_linear(231, 203),
        is_linear(232, 205),
        is_linear(233, 207),
        is_linear(234, 209),
        is_linear(235, 211),
        is_linear(236, 213),
        is_linear(237, 215),
        is_linear(238, 218),
        is_linear(239, 220),
{
}

proof fn lemma_table_224(c: u8)
    requires
        224 <= c < 240,
    ensures
        is_linear(c, LINEAR[c as int] as int),
        LINEAR[c as int] <= c,
{
    lemma_values_224();
    assert(c == 224 || c == 225 || c == 226 || c == 227 || c == 228 || c == 229 || c == 230 || c == 231 || c == 232 || c == 233 || c == 234 || c == 235 || c == 236 || c == 237 || c == 238 || c == 239);
}

proof fn lemma_values_240()
    by (nonlinear_arith)
    ensures
        is_linear(240, 222),
        is_linear(241, 224),
        is_linear(242, 226),
        is_linear(243, 228),
        is_linear(244, 230),
        is_linear(245, 232),
        is_linear(246, 235),
        is_linear(247, 237),
        is_linear(248, 239),
        is_linear(249, 241),
        is_linear(250, 243),
        is_linear(251, 245),
        is_linear(252, 248),
        is_linear(253, 250),
        is_linear(254, 252),
        is_linear(255, 254),
{
}

proof fn lemma_table_240(c: u8)
    requires
        240 <= c < 256,
    ensures
        is_linear(c, LINEAR[c as int] as int),
        LINEAR[c as int] <= c,
{
    lemma_values_240();
    assert(c == 240 || c == 241 || c == 242 || c == 243 || c == 244 || c == 245 || c == 246 || c == 247 || c == 248 || c == 249 || c == 250 || c == 251 || c == 252 || c == 253 || c == 254 || c == 255);
}

proof fn lemma_table(c: u8)
    ensures
        is_linear(c, LINEAR[c as int] as int),
        LINEAR[c as int] <= c,
{
    if c < 16 {
        lemma_table_0(c);
    } else if c < 32 {
        lemma_table_16(c);
    } else if c < 48 {
        lemma_table_32(c);
    } else if c < 64 {
        lemma_table_48(c);
    } else if c < 80 {
        lemma_table_64(c);
    } else if c < 96 {
        lemma_table_80(c);
    } else if c < 112 {
        lemma_table_96(c);
    } else if c < 128 {
        lemma_table_112(c);
    } else if c < 144 {
        lemma_table_128(c);
    } else if c < 160 {
        lemma_table_144(c);
    } else if c < 176 {
        lemma_table_160(c);
    } else if c < 192 {
        lemma_table_176(c);
    } else if c < 208 {
        lemma_table_192(c);
    } else if c < 224 {
        lemma_table_208(c);
    } else if c < 240 {
        lemma_table_224(c);
    } else {
        lemma_table_240(c);
    }
}

/// At most one value is the linear value of a channel value.
pub proof fn linear_value_is_unique(c: u8, y: int, z: int)
    requires
        is_linear(c, y),
        is_linear(c, z),
        0 <= y,
        0 <= z,
    ensures
        y == z,
{
    if 100_000 * c > 4_045 * 255 {
        if y < z {
            lemma_reaches_ordered(c as int, y + 1, z);
        } else if z < y {
            lemma_reaches_ordered(c as int, z + 1, y);
        }
    }
}

proof fn lemma_reaches_ordered(c: int, y: int, z: int)
    requires
        0 <= y <= z,
        reaches(c, z),
    ensures
        reaches(c, y),
{
    assert(square(y) <= square(z)) by (nonlinear_arith)
        requires
            0 <= y <= z,
    ;
    assert(0 <= square(y)) by (nonlinear_arith);
    assert(square(square(y)) <= square(square(z))) by (nonlinear_arith)
        requires
            0 <= square(y) <= square(z),
    ;
    assert(0 <= square(square(y))) by (nonlinear_arith);
    assert(fifth(y) <= fifth(z)) by (nonlinear_arith)
        requires
            0 <= square(square(y)) <= square(square(z)),
            0 <= y <= z,
    ;
    assert(0 <= twelfth(curve_unit())) by (nonlinear_arith);
    assert(fifth(y) * twelfth(curve_unit()) <= fifth(z) * twelfth(curve_unit()))
        by (nonlinear_arith)
        requires
            fifth(y) <= fifth(z),
            0 <= twelfth(curve_unit()),
    ;
}

proof fn lemma_curve_rises(a: int, b: int, y: int)
    requires
        0 <= a <= b,
        reaches(a, y),
    ensures
        reaches(b, y),
{
    let (p, q) = (curve_base(a), curve_base(b));
    assert(square(p) <= square(q) && 0 <= square(p)) by (nonlinear_arith)
        requires
            0 <= p <= q,
    ;
    assert(square(square(p)) <= square(square(q)) && 0 <= square(square(p))) by (nonlinear_arith)
        requires
            0 <= square(p) <= square(q),
    ;
    assert(square(square(square(p))) <= square(square(square(q))) && 0 <= square(
        square(square(p)),
    )) by (nonlinear_arith)
        requires
            0 <= square(square(p)) <= square(square(q)),
    ;
    assert(twelfth(p) <= twelfth(q)) by (nonlinear_arith)
        requires
            0 <= square(square(p)) <= square(square(q)),
            0 <= square(square(square(p))) <= square(square(square(q))),
    ;
    assert(fifth(255) >= 0) by (nonlinear_arith);
    assert(fifth(255) * twelfth(p) <= fifth(255) * twelfth(q)) by (nonlinear_arith)
        requires
            twelfth(p) <= twelfth(q),
            fifth(255) >= 0,
    ;
}

/// The curve rises from 0 and never exceeds its input: of two channel values the larger one has no
/// smaller linear value, the linear value of 0 is 0, and none is larger than the channel value.
pub proof fn linear_values_rise(a: u8, b: u8, linear_a: u8, linear_b: u8)
    requires
        is_linear(a, linear_a as int),
        is_linear(b, linear_b as int),
        a <= b,
    ensures
        linear_a <= linear_b,
        a == 0 ==> linear_a == 0,
        linear_a <= a,
        linear_b <= b,
{
    lemma_table(a);
    lemma_table(b);
    linear_value_is_unique(a, linear_a as int, LINEAR[a as int] as int);
    linear_value_is_unique(b, linear_b as int, LINEAR[b as int] as int);
    if 100_000 * a > 4_045 * 255 && linear_b < linear_a {
        lemma_reaches_ordered(a as int, linear_b + 1, linear_a as int);
        lemma_curve_rises(a as int, b as int, linear_b + 1);
    }
}

/// Convert an sRGB channel value to a linear one.
pub fn to_linear_gamma(c: u8) -> (linear: u8)
    ensures
        is_linear(c, linear as int),
{
    proof {
        lemma_table(c);
    }
    LINEAR[c as usize]
}

/// The linear color of an sRGB color; the alpha channel stays.
pub open spec fn is_linear_rgb(rgb: [u8; 4], linear: [u8; 4]) -> bool {
    &&& is_linear(rgb[0], linear[0] as int)
    &&& is_linear(rgb[1], linear[1] as int)
    &&& is_linear(rgb[2], linear[2] as int)
    &&& linear[3] == rgb[3]
}

/// The linear color of an sRGB color, as a function.
pub open spec fn linear_rgb(rgb: [u8; 4]) -> [u8; 4] {
    choose|linear: [u8; 4]| is_linear_rgb(rgb, linear)
}

pub(crate) proof fn lemma_linear_rgb(rgb: [u8; 4])
    ensures
        is_linear_rgb(rgb, linear_rgb(rgb)),
{
    lemma_table(rgb[0]);
    lemma_table(rgb[1]);
    lemma_table(rgb[2]);
    let linear: [u8; 4] = [
        LINEAR[rgb[0] as int],
        LINEAR[rgb[1] as int],
        LINEAR[rgb[2] as int],
        rgb[3],
    ];
    assert(is_linear_rgb(rgb, linear));
}

/// Convert an sRGB color to linear RGB.
pub fn to_linear_rgb(rgb: [u8; 4]) -> (linear: [u8; 4])
    ensures
        is_linear_rgb(rgb, linear),
        linear == linear_rgb(rgb),
{
    let linear: [u8; 4] = [
        to_linear_gamma(rgb[0]),
        to_linear_gamma(rgb[1]),
        to_linear_gamma(rgb[2]),
        rgb[3],
    ];
    proof {
        assert(is_linear_rgb(rgb, linear));
        let chosen = linear_rgb(rgb);
        linear_value_is_unique(rgb[0], chosen[0] as int, linear[0] as int);
        linear_value_is_unique(rgb[1], chosen[1] as int, linear[1] as int);
        linear_value_is_unique(rgb[2], chosen[2] as int, linear[2] as int);
        assert(chosen@ =~= linear@);
        assert(chosen =~= linear);
    }
    linear
}

} // verus!
