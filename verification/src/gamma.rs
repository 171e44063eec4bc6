use vstd::prelude::*;

verus! {

/// The gamma-correction lookup table applied to every LED channel.
pub const GAMMA8: [u8; 256] = [
    0, 0, 0, 0, 0, 0, 0, 0, 0, 0, 0, 0, 0, 0, 0, 0,
    0, 0, 0, 0, 0, 0, 0, 0, 0, 0, 0, 0, 1, 1, 1, 1,
    1, 1, 1, 1, 1, 1, 1, 1, 1, 2, 2, 2, 2, 2, 2, 2,
    2, 3, 3, 3, 3, 3, 3, 3, 4, 4, 4, 4, 4, 5, 5, 5,
    5, 6, 6, 6, 6, 7, 7, 7, 7, 8, 8, 8, 9, 9, 9, 10,
    10, 10, 11, 11, 11, 12, 12, 13, 13, 13, 14, 14, 15, 15, 16, 16,
    17, 17, 18, 18, 19, 19, 20, 20, 21, 21, 22, 22, 23, 24, 24, 25,
    25, 26, 27, 27, 28, 29, 29, 30, 31, 32, 32, 33, 34, 35, 35, 36,
    37, 38, 39, 39, 40, 41, 42, 43, 44, 45, 46, 47, 48, 49, 50, 50,
    51, 52, 54, 55, 56, 57, 58, 59, 60, 61, 62, 63, 64, 66, 67, 68,
    69, 70, 72, 73, 74, 75, 77, 78, 79, 81, 82, 83, 85, 86, 87, 89,
    90, 92, 93, 95, 96, 98, 99, 101, 102, 104, 105, 107, 109, 110, 112, 114,
    115, 117, 119, 120, 122, 124, 126, 127, 129, 131, 133, 135, 137, 138, 140, 142,
    144, 146, 148, 150, 152, 154, 156, 158, 160, 162, 164, 167, 169, 171, 173, 175,
    177, 180, 182, 184, 186, 189, 191, 193, 196, 198, 200, 203, 205, 208, 210, 213,
    215, 218, 220, 223, 225, 228, 231, 233, 236, 239, 241, 244, 247, 249, 252, 255,
];

/// The gamma-corrected value of one channel value.
pub open spec fn gamma(v: u8) -> u8 {
    GAMMA8@[v as int]
}

/// Looks up the gamma-corrected value of one channel value.
pub fn apply_gamma(val: u8) -> (out: u8)
    ensures
        out == gamma(val),
{
    GAMMA8[val as usize]
}

/// Each of the first `n` entries of the table is at most its index and at most the entry
/// that follows it.
spec fn table_sound_below(n: nat) -> bool
    decreases n,
{
    n == 0 || (table_sound_below((n - 1) as nat) && GAMMA8@[n - 1] <= n - 1 && (n < 256
        ==> GAMMA8@[n - 1] <= GAMMA8@[n as int]))
}

proof fn lemma_table_sound_below(n: nat, i: int)
    requires
        table_sound_below(n),
        0 <= i < n,
    ensures
        GAMMA8@[i] <= i,
        n < 256 || i < 255 ==> GAMMA8@[i] <= GAMMA8@[i + 1],
    decreases n,
{
    if i + 1 < n {
        lemma_table_sound_below((n - 1) as nat, i);
    }
}

/// Checks the table entry by entry.
proof fn lemma_table_sound()
    ensures
        table_sound_below(256),
{
    assert(table_sound_below(0)); assert(table_sound_below(1)); assert(table_sound_below(2)); assert(table_sound_below(3)); assert(table_sound_below(4)); assert(table_sound_below(5)); assert(table_sound_below(6)); assert(table_sound_below(7));
    assert(table_sound_below(8)); assert(table_sound_below(9)); assert(table_sound_below(10)); assert(table_sound_below(11)); assert(table_sound_below(12)); assert(table_sound_below(13)); assert(table_sound_below(14)); assert(table_sound_below(15));
    assert(table_sound_below(16)); assert(table_sound_below(17)); assert(table_sound_below(18)); assert(table_sound_below(19)); assert(table_sound_below(20)); assert(table_sound_below(21)); assert(table_sound_below(22)); assert(table_sound_below(23));
    assert(table_sound_below(24)); assert(table_sound_below(25)); assert(table_sound_below(26)); assert(table_sound_below(27)); assert(table_sound_below(28)); assert(table_sound_below(29)); assert(table_sound_below(30)); assert(table_sound_below(31));
    assert(table_sound_below(32)); assert(table_sound_below(33)); assert(table_sound_below(34)); assert(table_sound_below(35)); assert(table_sound_below(36)); assert(table_sound_below(37)); assert(table_sound_below(38)); assert(table_sound_below(39));
    assert(table_sound_below(40)); assert(table_sound_below(41)); assert(table_sound_below(42)); assert(table_sound_below(43)); assert(table_sound_below(44)); assert(table_sound_below(45)); assert(table_sound_below(46)); assert(table_sound_below(47));
    assert(table_sound_below(48)); assert(table_sound_below(49)); assert(table_sound_below(50)); assert(table_sound_below(51)); assert(table_sound_below(52)); assert(table_sound_below(53)); assert(table_sound_below(54)); assert(table_sound_below(55));
    assert(table_sound_below(56)); assert(table_sound_below(57)); assert(table_sound_below(58)); assert(table_sound_below(59)); assert(table_sound_below(60)); assert(table_sound_below(61)); assert(table_sound_below(62)); assert(table_sound_below(63));
    assert(table_sound_below(64)); assert(table_sound_below(65)); assert(table_sound_below(66)); assert(table_sound_below(67)); assert(table_sound_below(68)); assert(table_sound_below(69)); assert(table_sound_below(70)); assert(table_sound_below(71));
    assert(table_sound_below(72)); assert(table_sound_below(73)); assert(table_sound_below(74)); assert(table_sound_below(75)); assert(table_sound_below(76)); assert(table_sound_below(77)); assert(table_sound_below(78)); assert(table_sound_below(79));
    assert(table_sound_below(80)); assert(table_sound_below(81)); assert(table_sound_below(82)); assert(table_sound_below(83)); assert(table_sound_below(84)); assert(table_sound_below(85)); assert(table_sound_below(86)); assert(table_sound_below(87));
    assert(table_sound_below(88)); assert(table_sound_below(89)); assert(table_sound_below(90)); assert(table_sound_below(91)); assert(table_sound_below(92)); assert(table_sound_below(93)); assert(table_sound_below(94)); assert(table_sound_below(95));
    assert(table_sound_below(96)); assert(table_sound_below(97)); assert(table_sound_below(98)); assert(table_sound_below(99)); assert(table_sound_below(100)); assert(table_sound_below(101)); assert(table_sound_below(102)); assert(table_sound_below(103));
    assert(table_sound_below(104)); assert(table_sound_below(105)); assert(table_sound_below(106)); assert(table_sound_below(107)); assert(table_sound_below(108)); assert(table_sound_below(109)); assert(table_sound_below(110)); assert(table_sound_below(111));
    assert(table_sound_below(112)); assert(table_sound_below(113)); assert(table_sound_below(114)); assert(table_sound_below(115)); assert(table_sound_below(116)); assert(table_sound_below(117)); assert(table_sound_below(118)); assert(table_sound_below(119));
    assert(table_sound_below(120)); assert(table_sound_below(121)); assert(table_sound_below(122)); assert(table_sound_below(123)); assert(table_sound_below(124)); assert(table_sound_below(125)); assert(table_sound_below(126)); assert(table_sound_below(127));
    assert(table_sound_below(128)); assert(table_sound_below(129)); assert(table_sound_below(130)); assert(table_sound_below(131)); assert(table_sound_below(132)); assert(table_sound_below(133)); assert(table_sound_below(134)); assert(table_sound_below(135));
    assert(table_sound_below(136)); assert(table_sound_below(137)); assert(table_sound_below(138)); assert(table_sound_below(139)); assert(table_sound_below(140)); assert(table_sound_below(141)); assert(table_sound_below(142)); assert(table_sound_below(143));
    assert(table_sound_below(144)); assert(table_sound_below(145)); assert(table_sound_below(146)); assert(table_sound_below(147)); assert(table_sound_below(148)); assert(table_sound_below(149)); assert(table_sound_below(150)); assert(table_sound_below(151));
    assert(table_sound_below(152)); assert(table_sound_below(153)); assert(table_sound_below(154)); assert(table_sound_below(155)); assert(table_sound_below(156)); assert(table_sound_below(157)); assert(table_sound_below(158)); assert(table_sound_below(159));
    assert(table_sound_below(160)); assert(table_sound_below(161)); assert(table_sound_below(162)); assert(table_sound_below(163)); assert(table_sound_below(164)); assert(table_sound_below(165)); assert(table_sound_below(166)); assert(table_sound_below(167));
    assert(table_sound_below(168)); assert(table_sound_below(169)); assert(table_sound_below(170)); assert(table_sound_below(171)); assert(table_sound_below(172)); assert(table_sound_below(173)); assert(table_sound_below(174)); assert(table_sound_below(175));
    assert(table_sound_below(176)); assert(table_sound_below(177)); assert(table_sound_below(178)); assert(table_sound_below(179)); assert(table_sound_below(180)); assert(table_sound_below(181)); assert(table_sound_below(182)); assert(table_sound_below(183));
    assert(table_sound_below(184)); assert(table_sound_below(185)); assert(table_sound_below(186)); assert(table_sound_below(187)); assert(table_sound_below(188)); assert(table_sound_below(189)); assert(table_sound_below(190)); assert(table_sound_below(191));
    assert(table_sound_below(192)); assert(table_sound_below(193)); assert(table_sound_below(194)); assert(table_sound_below(195)); assert(table_sound_below(196)); assert(table_sound_below(197)); assert(table_sound_below(198)); assert(table_sound_below(199));
    assert(table_sound_below(200)); assert(table_sound_below(201)); assert(table_sound_below(202)); assert(table_sound_below(203)); assert(table_sound_below(204)); assert(table_sound_below(205)); assert(table_sound_below(206)); assert(table_sound_below(207));
    assert(table_sound_below(208)); assert(table_sound_below(209)); assert(table_sound_below(210)); assert(table_sound_below(211)); assert(table_sound_below(212)); assert(table_sound_below(213)); assert(table_sound_below(214)); assert(table_sound_below(215));
    assert(table_sound_below(216)); assert(table_sound_below(217)); assert(table_sound_below(218)); assert(table_sound_below(219)); assert(table_sound_below(220)); assert(table_sound_below(221)); assert(table_sound_below(222)); assert(table_sound_below(223));
    assert(table_sound_below(224)); assert(table_sound_below(225)); assert(table_sound_below(226)); assert(table_sound_below(227)); assert(table_sound_below(228)); assert(table_sound_below(229)); assert(table_sound_below(230)); assert(table_sound_below(231));
    assert(table_sound_below(232)); assert(table_sound_below(233)); assert(table_sound_below(234)); assert(table_sound_below(235)); assert(table_sound_below(236)); assert(table_sound_below(237)); assert(table_sound_below(238)); assert(table_sound_below(239));
    assert(table_sound_below(240)); assert(table_sound_below(241)); assert(table_sound_below(242)); assert(table_sound_below(243)); assert(table_sound_below(244)); assert(table_sound_below(245)); assert(table_sound_below(246)); assert(table_sound_below(247));
    assert(table_sound_below(248)); assert(table_sound_below(249)); assert(table_sound_below(250)); assert(table_sound_below(251)); assert(table_sound_below(252)); assert(table_sound_below(253)); assert(table_sound_below(254)); assert(table_sound_below(255));
    assert(table_sound_below(256));
}

/// Gamma correction never brightens a channel, and keeps black black and full full.
pub proof fn lemma_gamma_darkens(v: u8)
    ensures
        gamma(v) <= v,
        gamma(0) == 0,
        gamma(255) == 255,
{
    lemma_table_sound();
    lemma_table_sound_below(256, v as int);
}

/// Gamma correction preserves the order of channel values.
pub proof fn lemma_gamma_monotone(a: u8, b: u8)
    requires
        a <= b,
    ensures
        gamma(a) <= gamma(b),
    decreases b - a,
{
    if a < b {
        lemma_table_sound();
        lemma_table_sound_below(256, a as int);
        lemma_gamma_monotone((a + 1) as u8, b);
    }
}

} // verus!
