//! The sounds of the desktop notifier, as uncompressed audio.
use vstd::prelude::*;

verus! {

/// Samples per second.
pub const RATE: u32 = 24_000;

/// The first quarter of a sine in 300 steps, in units of one trillionth.
pub const SINE: [i64; 301] = [
    0, 5_235_963_831, 10_471_784_116, 15_707_317_312, 20_942_419_883, 26_176_948_308,
    31_410_759_078, 36_643_708_707, 41_875_653_729, 47_106_450_710, 52_335_956_243, 57_564_026_960,
    62_790_519_529, 68_015_290_665, 73_238_197_128, 78_459_095_728, 83_677_843_332, 88_894_296_866,
    94_108_313_319, 99_319_749_744, 104_528_463_268, 109_734_311_091, 114_937_150_493,
    120_136_838_835, 125_333_233_564, 130_526_192_220, 135_715_572_434, 140_901_231_938,
    146_083_028_562, 151_260_820_247, 156_434_465_040, 161_603_821_103, 166_768_746_716,
    171_929_100_279, 177_084_740_320, 182_235_525_492, 187_381_314_586, 192_521_966_526,
    197_657_340_379, 202_787_295_357, 207_911_690_818, 213_030_386_275, 218_143_241_397,
    223_250_116_011, 228_350_870_111, 233_445_363_856, 238_533_457_579, 243_615_011_786,
    248_689_887_165, 253_757_944_585, 258_819_045_103, 263_873_049_965, 268_919_820_615,
    273_959_218_692, 278_991_106_039, 284_015_344_704, 289_031_796_944, 294_040_325_232,
    299_040_792_256, 304_033_060_925, 309_016_994_375, 313_992_455_967, 318_959_309_298,
    323_917_418_198, 328_866_646_739, 333_806_859_234, 338_737_920_245, 343_659_694_586,
    348_572_047_322, 353_474_843_779, 358_367_949_545, 363_251_230_473, 368_124_552_685,
    372_987_782_576, 377_840_786_818, 382_683_432_365, 387_515_586_452, 392_337_116_604,
    397_147_890_635, 401_947_776_656, 406_736_643_076, 411_514_358_605, 416_280_792_260,
    421_035_813_367, 425_779_291_565, 430_511_096_808, 435_231_099_372, 439_939_169_856,
    444_635_179_185, 449_318_998_616, 453_990_499_740, 458_649_554_484, 463_296_035_120,
    467_929_814_261, 472_550_764_869, 477_158_760_260, 481_753_674_102, 486_335_380_423,
    490_903_753_615, 495_458_668_432, 500_000_000_000, 504_527_623_815, 509_041_415_750,
    513_541_252_058, 518_027_009_373, 522_498_564_716, 526_955_795_497, 531_398_579_518,
    535_826_794_979, 540_240_320_478, 544_639_035_015, 549_022_817_998, 553_391_549_243,
    557_745_108_980, 562_083_377_852, 566_406_236_925, 570_713_567_684, 575_005_252_043,
    579_281_172_343, 583_541_211_356, 587_785_252_292, 592_013_178_799, 596_224_874_966,
    600_420_225_326, 604_599_114_862, 608_761_429_009, 612_907_053_653, 617_035_875_141,
    621_147_780_278, 625_242_656_336, 629_320_391_050, 633_380_872_628, 637_423_989_749,
    641_449_631_569, 645_457_687_724, 649_448_048_330, 653_420_603_990, 657_375_245_794,
    661_311_865_324, 665_230_354_654, 669_130_606_359, 673_012_513_510, 676_875_969_683,
    680_720_868_959, 684_547_105_929, 688_354_575_694, 692_143_173_870, 695_912_796_592,
    699_663_340_513, 703_394_702_811, 707_106_781_187, 710_799_473_873, 714_472_679_633,
    718_126_297_763, 721_760_228_098, 725_374_371_012, 728_968_627_421, 732_542_898_787,
    736_097_087_120, 739_631_094_979, 743_144_825_477, 746_638_182_285, 750_111_069_630,
    753_563_392_302, 756_995_055_652, 760_405_965_600, 763_796_028_635, 767_165_151_815,
    770_513_242_776, 773_840_209_727, 777_145_961_457, 780_430_407_338, 783_693_457_326,
    786_935_021_961, 790_155_012_376, 793_353_340_291, 796_529_918_024, 799_684_658_487,
    802_817_475_191, 805_928_282_249, 809_016_994_375, 812_083_526_892, 815_127_795_729,
    818_149_717_425, 821_149_209_134, 824_126_188_622, 827_080_574_275, 830_012_285_095,
    832_921_240_710, 835_807_361_368, 838_670_567_945, 841_510_781_945, 844_327_925_502,
    847_121_921_382, 849_892_692_987, 852_640_164_354, 855_364_260_161, 858_064_905_724,
    860_742_027_004, 863_395_550_607, 866_025_403_784, 868_631_514_438, 871_213_811_120,
    873_772_223_035, 876_306_680_044, 878_817_112_662, 881_303_452_065, 883_765_630_089,
    886_203_579_231, 888_617_232_655, 891_006_524_188, 893_371_388_328, 895_711_760_239,
    898_027_575_761, 900_318_771_402, 902_585_284_350, 904_827_052_466, 907_044_014_291,
    909_236_109_047, 911_403_276_635, 913_545_457_643, 915_662_593_340, 917_754_625_684,
    919_821_497_322, 921_863_151_589, 923_879_532_511, 925_870_584_810, 927_836_253_899,
    929_776_485_888, 931_691_227_586, 933_580_426_497, 935_444_030_830, 937_281_989_492,
    939_094_252_095, 940_880_768_954, 942_641_491_092, 944_376_370_237, 946_085_358_828,
    947_768_410_010, 949_425_477_642, 951_056_516_295, 952_661_481_254, 954_240_328_516,
    955_793_014_798, 957_319_497_532, 958_819_734_868, 960_293_685_677, 961_741_309_549,
    963_162_566_798, 964_557_418_458, 965_925_826_289, 967_267_752_776, 968_583_161_129,
    969_872_015_285, 971_134_279_910, 972_369_920_398, 973_578_902_873, 974_761_194_191,
    975_916_761_939, 977_045_574_435, 978_147_600_734, 979_222_810_622, 980_271_174_622,
    981_292_663_992, 982_287_250_729, 983_254_907_564, 984_195_607_969, 985_109_326_155,
    985_996_037_071, 986_855_716_407, 987_688_340_595, 988_493_886_809, 989_272_332_963,
    990_023_657_717, 990_747_840_471, 991_444_861_374, 992_114_701_314, 992_757_341_929,
    993_372_765_600, 993_960_955_455, 994_521_895_368, 995_055_569_961, 995_561_964_603,
    996_041_065_411, 996_492_859_250, 996_917_333_733, 997_314_477_224, 997_684_278_836,
    998_026_728_428, 998_341_816_614, 998_629_534_755, 998_889_874_962, 999_122_830_099,
    999_328_393_779, 999_506_560_366, 999_657_324_976, 999_780_683_475, 999_876_632_482,
    999_945_169_366, 999_986_292_247, 1_000_000_000_000,
];

/// One full turn of the sine has 1200 steps.
pub open spec fn sine(step: int) -> int {
    let k = step % 1200;
    if k <= 300 {
        SINE@[k] as int
    } else if k <= 600 {
        SINE@[600 - k] as int
    } else if k <= 900 {
        -(SINE@[k - 600] as int)
    } else {
        -(SINE@[1200 - k] as int)
    }
}

/// How many steps the sine advances per sample: 880 turns a second, or 660.
pub open spec fn pitch(critical: bool) -> int {
    if critical {
        44
    } else {
        33
    }
}

/// The lesser of a number and the length of a ramp, in samples.
pub open spec fn ramp(n: int) -> int {
    if n < 480 {
        n
    } else {
        480
    }
}

/// The loudness of the `n`-th sample, of at most `480 * 480`: a beep of 6000 samples every 9600,
/// with a ramp at both ends.
pub open spec fn loudness(n: int) -> int {
    let phase = n % 9600;
    if phase < 6000 {
        ramp(phase) * ramp(6000 - phase)
    } else {
        0
    }
}

/// A number limited to what 16 bits hold.
pub open spec fn saturated(n: int) -> int {
    if n > 32_767 {
        32_767
    } else if n < -32_768 {
        -32_768
    } else {
        n
    }
}

/// The `n`-th sample: 16 hundredths of the full range at most, the fraction dropped.
pub open spec fn sample(critical: bool, n: int) -> int {
    let scaled = loudness(n) * 524_272 * sine(n * pitch(critical));
    let unit = 480 * 480 * 100 * 1_000_000_000_000int;
    saturated(
        if scaled >= 0 {
            scaled / unit
        } else {
            -((-scaled) / unit)
        },
    )
}

/// Four bytes of a number, the low one first.
pub open spec fn le32(n: int) -> Seq<u8> {
    seq![
        (n % 256) as u8,
        (n / 256 % 256) as u8,
        (n / 65_536 % 256) as u8,
        (n / 16_777_216 % 256) as u8,
    ]
}

/// Two bytes of a number in two's complement, the low one first.
pub open spec fn le16(n: int) -> Seq<u8> {
    let bits = if n < 0 {
        n + 65_536
    } else {
        n
    };
    seq![(bits % 256) as u8, (bits / 256) as u8]
}

/// The head of a file of uncompressed audio: one channel of 16 bits, for one second.
pub open spec fn head() -> Seq<u8> {
    seq![82u8, 73, 70, 70] + le32(48_036) + seq![
        87u8,
        65,
        86,
        69,
        102,
        109,
        116,
        32,
    ] + le32(16) + le16(1) + le16(1) + le32(24_000) + le32(48_000) + le16(2) + le16(16) + seq![
        100u8,
        97,
        116,
        97,
    ] + le32(48_000)
}

/// The first `n` samples.
pub open spec fn samples(critical: bool, n: nat) -> Seq<u8>
    decreases n,
{
    if n == 0 {
        Seq::empty()
    } else {
        samples(critical, (n - 1) as nat) + le16(sample(critical, n - 1))
    }
}

/// Appends four bytes of a number.
fn push_le32(out: &mut Vec<u8>, n: u32)
    ensures
        final(out)@ == old(out)@ + le32(n as int),
{
    let ghost before = out@;
    out.push((n % 256) as u8);
    out.push((n / 256 % 256) as u8);
    out.push((n / 65_536 % 256) as u8);
    out.push((n / 16_777_216 % 256) as u8);
    assert(out@ =~= before + le32(n as int));
}

/// Appends two bytes of a number.
fn push_le16(out: &mut Vec<u8>, n: i64)
    requires
        -32_768 <= n <= 32_767,
    ensures
        final(out)@ == old(out)@ + le16(n as int),
{
    let ghost before = out@;
    let bits: i64 = if n < 0 {
        n + 65_536
    } else {
        n
    };
    out.push((bits % 256) as u8);
    out.push((bits / 256) as u8);
    assert(out@ =~= before + le16(n as int));
}

/// Appends some bytes.
fn push_all(out: &mut Vec<u8>, bytes: &[u8])
    ensures
        final(out)@ == old(out)@ + bytes@,
{
    let ghost before = out@;
    let mut i: usize = 0;
    assert(out@ =~= before + bytes@.take(0));
    while i < bytes.len()
        invariant
            i <= bytes@.len(),
            out@ == before + bytes@.take(i as int),
        decreases bytes@.len() - i,
    {
        out.push(bytes[i]);
        i = i + 1;
        assert(out@ =~= before + bytes@.take(i as int));
    }
    assert(bytes@.take(i as int) =~= bytes@);
}

/// The sine at a step.
fn sine_at(step: u32) -> (s: i128)
    ensures
        s == sine(step as int),
        -0x8000_0000_0000_0000 <= s <= 0x8000_0000_0000_0000,
{
    let k: usize = (step % 1200) as usize;
    if k <= 300 {
        SINE[k] as i128
    } else if k <= 600 {
        SINE[600 - k] as i128
    } else if k <= 900 {
        -(SINE[k - 600] as i128)
    } else {
        -(SINE[1200 - k] as i128)
    }
}

/// The loudness of the `n`-th sample.
fn loudness_at(n: u32) -> (l: i128)
    ensures
        l == loudness(n as int),
        0 <= l <= 230_400,
{
    let phase: i128 = (n % 9600) as i128;
    if phase >= 6000 {
        return 0;
    }
    let rise: i128 = if phase < 480 {
        phase
    } else {
        480
    };
    let fall: i128 = if 6000 - phase < 480 {
        6000 - phase
    } else {
        480
    };
    assert(0 <= rise * fall <= 230_400) by (nonlinear_arith)
        requires
            0 <= rise <= 480,
            0 <= fall <= 480,
    ;
    rise * fall
}

/// The `n`-th sample.
fn sample_at(critical: bool, n: u32) -> (s: i64)
    requires
        n < RATE,
    ensures
        s == sample(critical, n as int),
        -32_768 <= s <= 32_767,
{
    let pitch: u32 = if critical {
        44
    } else {
        33
    };
    let sine: i128 = sine_at(n * pitch);
    let loudness: i128 = loudness_at(n);
    let full: i128 = loudness * 524_272;
    assert(-0x8000_0000_0000_0000 * 120_792_268_800 <= full * sine <= 0x8000_0000_0000_0000
        * 120_792_268_800) by (nonlinear_arith)
        requires
            0 <= full <= 120_792_268_800,
            -0x8000_0000_0000_0000 <= sine <= 0x8000_0000_0000_0000,
    ;
    let scaled: i128 = full * sine;
    let unit: i128 = 23_040_000_000_000_000_000;
    let value: i128 = if scaled >= 0 {
        scaled / unit
    } else {
        -((-scaled) / unit)
    };
    if value > 32_767 {
        32_767
    } else if value < -32_768 {
        -32_768
    } else {
        value as i64
    }
}

/// One second of beeps: three, at the higher pitch where they are critical.
pub fn tone(critical: bool) -> (out: Vec<u8>)
    ensures
        out@ == head() + samples(critical, 24_000),
{
    let mut out: Vec<u8> = Vec::new();
    push_all(&mut out, &[82, 73, 70, 70]);
    push_le32(&mut out, 48_036);
    push_all(&mut out, &[87, 65, 86, 69, 102, 109, 116, 32]);
    push_le32(&mut out, 16);
    push_le16(&mut out, 1);
    push_le16(&mut out, 1);
    push_le32(&mut out, 24_000);
    push_le32(&mut out, 48_000);
    push_le16(&mut out, 2);
    push_le16(&mut out, 16);
    push_all(&mut out, &[100, 97, 116, 97]);
    push_le32(&mut out, 48_000);
    assert(out@ =~= head());
    let mut n: u32 = 0;
    assert(out@ =~= head() + samples(critical, 0));
    while n < RATE
        invariant
            n <= RATE,
            out@ == head() + samples(critical, n as nat),
        decreases RATE - n,
    {
        let s: i64 = sample_at(critical, n);
        push_le16(&mut out, s);
        n = n + 1;
        assert(out@ =~= head() + samples(critical, n as nat));
    }
    out
}

/// A tone is one second of samples behind its head, whatever it tells of.
pub proof fn tones_have_one_length(critical: bool)
    ensures
        (head() + samples(critical, 24_000)).len() == 48_044,
{
    samples_have_two_bytes(critical, 24_000);
}

/// Each sample has two bytes.
proof fn samples_have_two_bytes(critical: bool, n: nat)
    ensures
        samples(critical, n).len() == 2 * n,
    decreases n,
{
    if n > 0 {
        samples_have_two_bytes(critical, (n - 1) as nat);
    }
}

/// Between the beeps there is silence.
pub proof fn pauses_are_silent(critical: bool, n: int)
    requires
        0 <= n,
        n % 9600 >= 6000,
    ensures
        sample(critical, n) == 0,
{
    assert(0 * sine(n * pitch(critical)) == 0) by (nonlinear_arith);
}

/// The steps that stand for one another in a turn.
proof fn turns_of_steps(step: int)
    ensures
        (step + 1200) % 1200 == step % 1200,
        (600 - step) % 1200 == if step % 1200 <= 600 {
            600 - step % 1200
        } else {
            1800 - step % 1200
        },
        (-step) % 1200 == if step % 1200 == 0 {
            0
        } else {
            1200 - step % 1200
        },
{
}

/// A sine begins with nothing.
proof fn first_step_is_still()
    ensures
        SINE@[0] == 0,
{
}

/// A sine repeats after each turn, and is the same on both sides of its summit and its opposite on both
/// sides of its start.
pub proof fn sines_are_symmetric(step: int)
    ensures
        sine(step + 1200) == sine(step),
        sine(600 - step) == sine(step),
        sine(-step) == -sine(step),
        0 <= step <= 300 ==> sine(step) == SINE@[step],
{
    turns_of_steps(step);
    first_step_is_still();
}

/// A tone has 880 turns a second where it is critical, and 660 otherwise.
pub proof fn tones_have_their_pitch()
    ensures
        24_000 * pitch(true) == 1200 * 880,
        24_000 * pitch(false) == 1200 * 660,
        RATE == 24_000,
{
}

/// A beep begins every 9600 samples. It rises evenly for 480 samples, is of full loudness, and falls in
/// the same way, so that it ends with its 6000th sample; then there is a pause.
pub proof fn beeps_rise_and_fall(beep: int, phase: int)
    requires
        0 <= phase < 9600,
    ensures
        loudness(9600 * beep + phase) == loudness(phase),
        phase <= 480 ==> loudness(phase) == 480 * phase,
        480 <= phase <= 5520 ==> loudness(phase) == 480 * 480,
        5520 <= phase <= 6000 ==> loudness(phase) == 480 * (6000 - phase),
        6000 <= phase ==> loudness(phase) == 0,
{
    assert((9600 * beep + phase) % 9600 == phase) by (nonlinear_arith)
        requires
            0 <= phase < 9600,
    ;
    assert(phase % 9600 == phase);
    assert(phase * 480 == 480 * phase);
    if 5520 <= phase < 6000 {
        assert(480 * (6000 - phase) == ramp(phase) * ramp(6000 - phase));
    }
}

/// A sample is the loudness times the sine, of which 16 hundredths of the full range are the most, and
/// the fraction is dropped toward zero. What 16 bits do not hold is limited to what they do.
pub proof fn samples_are_loudness_times_sine(critical: bool, n: int)
    ensures
        ({
            let exact = loudness(n) * 16 * 32_767 * sine(n * pitch(critical));
            let unit = 480 * 480 * 100 * 1_000_000_000_000int;
            let s = sample(critical, n);
            &&& 0 <= exact < 32_768 * unit ==> s >= 0 && s * unit <= exact < (s + 1) * unit
            &&& -32_769 * unit < exact <= 0 ==> s <= 0 && (s - 1) * unit < exact <= s * unit
            &&& exact >= 32_768 * unit ==> s == 32_767
            &&& exact <= -32_769 * unit ==> s == -32_768
        }),
{
    let wave = sine(n * pitch(critical));
    let l = loudness(n);
    let scaled = l * 524_272 * wave;
    let unit = 23_040_000_000_000_000_000int;
    assert(l * 16 * 32_767 * wave == scaled) by (nonlinear_arith)
        requires
            scaled == l * 524_272 * wave,
    ;
    assert(480 * 480 * 100 * 1_000_000_000_000int == unit);
    let size = if scaled >= 0 {
        scaled
    } else {
        -scaled
    };
    let q = size / unit;
    assert(q * unit <= size < (q + 1) * unit && 0 <= q) by (nonlinear_arith)
        requires
            0 <= size,
            unit == 23_040_000_000_000_000_000int,
            q == size / unit,
    ;
    assert(sample(critical, n) == saturated(
        if scaled >= 0 {
            q
        } else {
            -q
        },
    ));
    assert((-q - 1) * unit == -((q + 1) * unit)) by (nonlinear_arith);
    assert((-q) * unit == -(q * unit)) by (nonlinear_arith);
}

/// The bytes of a number give it back: the low one counts one, the next 256, and so on; with two bytes
/// a negative number counts 65,536 more.
pub proof fn bytes_give_numbers_back(n: int)
    ensures
        0 <= n < 0x1_0000_0000 ==> {
            &&& le32(n).len() == 4
            &&& le32(n)[0] + 256 * le32(n)[1] + 65_536 * le32(n)[2] + 16_777_216 * le32(n)[3] == n
        },
        -32_768 <= n <= 32_767 ==> {
            &&& le16(n).len() == 2
            &&& le16(n)[0] + 256 * le16(n)[1] == if n < 0 {
                n + 65_536
            } else {
                n
            }
        },
{
}

/// The `i`-th sample of a tone stands in the bytes `2 * i` and `2 * i + 1` behind the head.
pub proof fn samples_stand_in_a_row(critical: bool, n: nat, i: int)
    requires
        0 <= i < n,
    ensures
        samples(critical, n).len() == 2 * n,
        seq![samples(critical, n)[2 * i], samples(critical, n)[2 * i + 1]] == le16(
            sample(critical, i),
        ),
    decreases n,
{
    samples_have_two_bytes(critical, n);
    samples_have_two_bytes(critical, (n - 1) as nat);
    if i < n - 1 {
        samples_stand_in_a_row(critical, (n - 1) as nat, i);
    }
    assert(seq![samples(critical, n)[2 * i], samples(critical, n)[2 * i + 1]] =~= le16(
        sample(critical, i),
    ));
}

/// The bytes of the head.
proof fn head_in_bytes()
    ensures
        head() == seq![
            82u8, 73, 70, 70, 164, 187, 0, 0, 87, 65, 86, 69, 102, 109, 116, 32, 16, 0, 0, 0, 1, 0, 1,
            0, 192, 93, 0, 0, 128, 187, 0, 0, 2, 0, 16, 0, 100, 97, 116, 97, 128, 187, 0, 0,
        ],
{
    assert(le32(48_036) =~= seq![164u8, 187, 0, 0]);
    assert(le32(16) =~= seq![16u8, 0, 0, 0]);
    assert(le16(1) =~= seq![1u8, 0]);
    assert(le32(24_000) =~= seq![192u8, 93, 0, 0]);
    assert(le32(48_000) =~= seq![128u8, 187, 0, 0]);
    assert(le16(2) =~= seq![2u8, 0]);
    assert(le16(16) =~= seq![16u8, 0]);
    assert(head() =~= seq![
        82u8, 73, 70, 70, 164, 187, 0, 0, 87, 65, 86, 69, 102, 109, 116, 32, 16, 0, 0, 0, 1, 0, 1, 0,
        192, 93, 0, 0, 128, 187, 0, 0, 2, 0, 16, 0, 100, 97, 116, 97, 128, 187, 0, 0,
    ]);
}

/// The head of a tone says how many bytes follow it, and what they are: one channel of 16 bits, 24,000
/// times a second.
pub proof fn heads_describe_what_follows(critical: bool)
    ensures
        ({
            let file = head() + samples(critical, 24_000);
            let word = |at: int|
                file[at] + 256 * file[at + 1] + 65_536 * file[at + 2] + 16_777_216 * file[at + 3];
            let half = |at: int| file[at] + 256 * file[at + 1];
            &&& file.take(4) == seq![82u8, 73, 70, 70]
            &&& word(4) == file.len() - 8
            &&& file.subrange(8, 16) == seq![87u8, 65, 86, 69, 102, 109, 116, 32]
            &&& word(16) == 16
            &&& half(20) == 1
            &&& half(22) == 1
            &&& word(24) == 24_000
            &&& word(28) == 24_000 * 2
            &&& half(32) == 2
            &&& half(34) == 16
            &&& file.subrange(36, 40) == seq![100u8, 97, 116, 97]
            &&& word(40) == file.len() - 44
            &&& file.skip(44) == samples(critical, 24_000)
        }),
{
    samples_have_two_bytes(critical, 24_000);
    head_in_bytes();
    let file = head() + samples(critical, 24_000);
    assert(head().len() == 44);
    assert forall|i: int| 0 <= i < 44 implies #[trigger] file[i] == head()[i] by {}
    assert(file.take(4) =~= seq![82u8, 73, 70, 70]);
    assert(file.subrange(8, 16) =~= seq![87u8, 65, 86, 69, 102, 109, 116, 32]);
    assert(file.subrange(36, 40) =~= seq![100u8, 97, 116, 97]);
    assert(file.skip(44) =~= samples(critical, 24_000));
}

} // verus!
