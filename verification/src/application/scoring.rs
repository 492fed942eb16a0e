//! The first-version performance policy: the actual match outcome minus the
//! pre-match Elo expectation, in millionths.
use vstd::prelude::*;

use crate::pairing::EloRating;
use crate::pairing::algorithms::blossom_v1::PerformanceScore;
use crate::results::MatchSide;

verus! {

/// One match outcome in millionths.
pub const PERFORMANCE_SCALE: i64 = 1_000_000;

/// `10^(r / 400)` for `r` in `0..400`, in units of `10^-12`, rounded to the
/// nearest unit.
pub const ELO_POWERS: [u64; 400] = [
    1000000000000, 1005773063002, 1011579454260, 1017419366181, 1023292992281, 1029200527194,
    1035142166679, 1041118107623, 1047128548051, 1053173687130, 1059253725177, 1065368863668,
    1071519305238, 1077705253694, 1083926914021, 1090184492385, 1096478196143, 1102808233850,
    1109174815262, 1115578151351, 1122018454302, 1128495937528, 1135010815672, 1141563304619,
    1148153621497, 1154781984689, 1161448613840, 1168153729861, 1174897554940, 1181680312545,
    1188502227437, 1195363525674, 1202264434617, 1209205182943, 1216186000646, 1223207119050,
    1230268770812, 1237371189935, 1244514611771, 1251699273032, 1258925411794, 1266193267511,
    1273503081017, 1280855094536, 1288249551693, 1295686697517, 1303166778452, 1310690042366,
    1318256738556, 1325867117761, 1333521432163, 1341219935405, 1348962882592, 1356750530300,
    1364583136589, 1372460961008, 1380384264603, 1388353309929, 1396368361056, 1404429683578,
    1412537544623, 1420692212860, 1428893958511, 1437143053356, 1445439770746, 1453784385608,
    1462177174457, 1470618415405, 1479108388168, 1487647374080, 1496235656094, 1504873518803,
    1513561248436, 1522299132880, 1531087461682, 1539926526059, 1548816618912, 1557758034832,
    1566751070108, 1575796022744, 1584893192461, 1594042880712, 1603245390690, 1612501027338,
    1621810097359, 1631172909228, 1640589773200, 1650061001320, 1659586907438, 1669167807211,
    1678804018123, 1688495859487, 1698243652462, 1708047720060, 1717908387158, 1727825980508,
    1737800828749, 1747833262418, 1757923613959, 1768072217734, 1778279410039, 1788545529108,
    1798870915129, 1809255910254, 1819700858610, 1830206106311, 1840772001469, 1851398894205,
    1862087136663, 1872837083018, 1883649089490, 1894523514357, 1905460717963, 1916461062735,
    1927524913191, 1938652635952, 1949844599758, 1961101175476, 1972422736115, 1983809656837,
    1995262314969, 2006781090018, 2018366363682, 2030018519860, 2041737944670, 2053525026457,
    2065380155811, 2077303725573, 2089296130854, 2101357769047, 2113489039837, 2125690345217,
    2137962089502, 2150304679340, 2162718523727, 2175204034020, 2187761623950, 2200391709637,
    2213094709606, 2225871044793, 2238721138568, 2251645416745, 2264644307593, 2277718241857,
    2290867652768, 2304092976056, 2317394649968, 2330773115283, 2344228815320, 2357762195961,
    2371373705662, 2385063795465, 2398832919019, 2412681532592, 2426610095082, 2440619068042,
    2454708915685, 2468880104906, 2483133105296, 2497468389154, 2511886431510, 2526387710132,
    2540972705549, 2555641901064, 2570395782769, 2585234839562, 2600159563165, 2615170448138,
    2630267991895, 2645452694724, 2660725059799, 2676085593199, 2691534803927, 2707073203921,
    2722701308078, 2738419634264, 2754228703338, 2770129039164, 2786121168630, 2802205621667,
    2818382931264, 2834653633490, 2851018267504, 2867477375581, 2884031503127, 2900681198693,
    2917427014001, 2934269503956, 2951209226666, 2968246743463, 2985382618918, 3002617420861,
    3019951720402, 3037386091946, 3054921113216, 3072557365267, 3090295432514, 3108135902739,
    3126079367124, 3144126420259, 3162277660168, 3180533688330, 3198895109691, 3217362532696,
    3235936569296, 3254617834980, 3273406948788, 3292304533334, 3311311214826, 3330427623087,
    3349654391578, 3368992157415, 3388441561392, 3408003248004, 3427677865465, 3447466065731,
    3467368504525, 3487385841352, 3507518739526, 3527767866189, 3548133892336, 3568617492835,
    3589219346450, 3609940135864, 3630780547701, 3651741272548, 3672823004981, 3694026443583,
    3715352290972, 3736801253821, 3758374042884, 3780071373018, 3801893963206, 3823842536581,
    3845917820454, 3868120546331, 3890451449943, 3912911271269, 3935500754558, 3958220648357,
    3981071705535, 4004054683305, 4027170343255, 4050419451365, 4073802778041, 4097321098135,
    4120975190973, 4144765840379, 4168693834703, 4192759966846, 4216965034286, 4241309839105,
    4265795188016, 4290421892389, 4315190768278, 4340102636447, 4365158322402, 4390358656409,
    4415704473533, 4441196613656, 4466835921510, 4492623246703, 4518559443749, 4544645372095,
    4570881896149, 4597269885309, 4623810213993, 4650503761666, 4677351412872, 4704354057260,
    4731512589615, 4758827909888, 4786300923226, 4813932540001, 4841723675841, 4869675251659,
    4897788193684, 4926063433496, 4954501908048, 4983104559705, 5011872336273, 5040806191027,
    5069907082747, 5099175975749, 5128613839914, 5158221650723, 5188000389290, 5217951042390,
    5248074602498, 5278372067816, 5308844442310, 5339492735742, 5370317963703, 5401321147646,
    5432503314924, 5463865498819, 5495408738576, 5527134079444, 5559042572704, 5591135275706,
    5623413251903, 5655877570892, 5688529308438, 5721369546523, 5754399373372, 5787619883491,
    5821032177709, 5854637363206, 5888436553556, 5922430868761, 5956621435290, 5991009386114,
    6025595860744, 6060382005271, 6095368972402, 6130557921498, 6165950018615, 6201546436538,
    6237348354824, 6273356959840, 6309573444802, 6345999009813, 6382634861905, 6419482215080,
    6456542290347, 6493816315762, 6531305526475, 6569011164763, 6606934480076, 6645076729078,
    6683439175686, 6722023091116, 6760829753920, 6799860450033, 6839116472814, 6878599123088,
    6918309709189, 6958249547006, 6998419960023, 7038822279365, 7079457843841, 7120327999992,
    7161434102129, 7202777512383, 7244359600750, 7286181745132, 7328245331389, 7370551753379,
    7413102413009, 7455898720278, 7498942093325, 7542233958476, 7585775750292, 7629568911615,
    7673614893618, 7717915155850, 7762471166287, 7807284401379, 7852356346101, 7897688493999,
    7943282347243, 7989139416674, 8035261221856, 8081649291125, 8128305161641, 8175230379437,
    8222426499471, 8269895085679, 8317637711027, 8365655957558, 8413951416452, 8462525688073,
    8511380382024, 8560517117201, 8609937521846, 8659643233601, 8709635899561, 8759917176331,
    8810488730080, 8861352236595, 8912509381337, 8963961859499, 9015711376060, 9067759645839,
    9120108393559, 9172759353898, 9225714271548, 9278974901273, 9332543007970, 9386420366721,
    9440608762859, 9495109992022, 9549925860214, 9605058183867, 9660508789898, 9716279515771,
    9772372209558, 9828788730000, 9885530946569, 9942600739530,
];

/// `10^(q)` for the whole hundreds of the Elo difference scale.
pub open spec fn power_of_ten(q: int) -> int
    decreases q,
{
    if q <= 0 {
        1
    } else {
        10 * power_of_ten(q - 1)
    }
}

/// The home side's expected score in millionths when it trails by `d` Elo
/// points (`0 <= d < 2800`): `1 / (1 + 10^(d / 400))`, rounded half up.
/// `10^(d / 400)` is `10^(d / 400 rounded down)` times the table entry of
/// the remainder.
pub open spec fn trailing_share(d: int) -> int {
    let denominator = 1_000_000_000_000int + power_of_ten(d / 400) * ELO_POWERS[d % 400] as int;
    (2 * 1_000_000_000_000int * 1_000_000 + denominator) / (2 * denominator)
}

/// The expected home score in millionths: by the difference of away minus
/// home rating; 0 from a deficit of 2800 on and a full point from a lead of
/// 2800 on, where the rounded value no longer changes.
pub open spec fn expected_home_score(home: u32, away: u32) -> int {
    let d = away as int - home as int;
    if d >= 2800 {
        0
    } else if d <= -2800 {
        1_000_000
    } else if d >= 0 {
        trailing_share(d)
    } else {
        1_000_000 - trailing_share(-d)
    }
}

/// The actual home score in millionths.
pub open spec fn actual_home_score(winner: MatchSide) -> int {
    match winner {
        MatchSide::Home => 1_000_000,
        MatchSide::Away => 0,
    }
}

#[derive(Clone, Copy, Debug, PartialEq, Eq, Structural)]
pub struct MatchPerformanceDelta {
    pub home: PerformanceScore,
    pub away: PerformanceScore,
}

/// V1 performance policy: actual match outcome minus pre-match Elo
/// expectation, scaled to one million integer units.
pub struct EloExpectationDeltaV1;

/// The rounded trailing share for a difference below 2800.
fn trailing_share_of(d: u32) -> (share: u64)
    requires
        d < 2800,
    ensures
        share == trailing_share(d as int),
        share <= 500_000,
{
    let q = d / 400;
    let r = d % 400;
    let scale: u128 = if q == 0 {
        1
    } else if q == 1 {
        10
    } else if q == 2 {
        100
    } else if q == 3 {
        1_000
    } else if q == 4 {
        10_000
    } else if q == 5 {
        100_000
    } else {
        1_000_000
    };
    proof {
        reveal_with_fuel(power_of_ten, 7);
        assert(scale == power_of_ten(q as int));
    }
    let entry = ELO_POWERS[r as usize] as u128;
    proof {
        assert(scale * entry <= 1_000_000 * 0xFFFF_FFFF_FFFF_FFFF) by (nonlinear_arith)
            requires
                scale <= 1_000_000,
                entry <= 0xFFFF_FFFF_FFFF_FFFF,
        ;
    }
    let denominator: u128 = 1_000_000_000_000 + scale * entry;
    let numerator: u128 = 2 * 1_000_000_000_000 * 1_000_000 + denominator;
    let share = numerator / (2 * denominator);
    proof {
        assert(ELO_POWERS[r as int] >= 1_000_000_000_000) by {
            lemma_table_at_least_unit(r as int);
        }
        assert(scale * entry >= 1_000_000_000_000) by (nonlinear_arith)
            requires
                scale >= 1,
                entry >= 1_000_000_000_000,
        ;
        let n = numerator as int;
        let m = denominator as int;
        assert(n / (2 * m) <= 500_000) by (nonlinear_arith)
            requires
                n == 2 * 1_000_000_000_000 * 1_000_000 + m,
                m >= 2_000_000_000_000,
        ;
    }
    share as u64
}

proof fn lemma_power_positive(q: int)
    ensures
        power_of_ten(q) >= 1,
    decreases q,
{
    if q > 0 {
        lemma_power_positive(q - 1);
    }
}

proof fn lemma_table_at_least_unit(r: int)
    requires
        0 <= r < 400,
    ensures
        ELO_POWERS[r] >= 1_000_000_000_000,
{
    assert(forall|i: int| 0 <= i < 400 ==> ELO_POWERS[i] >= 1_000_000_000_000) by {
        assert(ELO_POWERS@.len() == 400);
    }
}

/// The expected home score in millionths.
fn expected_home(home: u32, away: u32) -> (expected: i64)
    ensures
        expected == expected_home_score(home, away),
        0 <= expected <= 1_000_000,
{
    if away >= home {
        let d = away - home;
        if d >= 2800 {
            0
        } else {
            trailing_share_of(d) as i64
        }
    } else {
        let d = home - away;
        if d >= 2800 {
            1_000_000
        } else {
            1_000_000 - trailing_share_of(d) as i64
        }
    }
}

impl EloExpectationDeltaV1 {
    /// The home delta is the actual home score (a full point for a win, none
    /// for a loss) minus the expected home score; the away delta is its
    /// negation. Only the winner and the two ratings matter.
    pub fn calculate(home_elo: EloRating, away_elo: EloRating, winner: MatchSide) -> (delta: MatchPerformanceDelta)
        ensures
            delta.home.spec_scaled() == actual_home_score(winner) - expected_home_score(home_elo.0, away_elo.0),
            delta.away.spec_scaled() == -delta.home.spec_scaled(),
    {
        let expected = expected_home(home_elo.value(), away_elo.value());
        let actual: i64 = match winner {
            MatchSide::Home => PERFORMANCE_SCALE,
            MatchSide::Away => 0,
        };
        let home = actual - expected;
        MatchPerformanceDelta { home: PerformanceScore::from_scaled(home), away: PerformanceScore::from_scaled(-home) }
    }
}

/// The two deltas of a match always cancel out.
pub proof fn law_performance_delta_conserved(home: u32, away: u32, winner: MatchSide)
    ensures
        (actual_home_score(winner) - expected_home_score(home, away)) + -(actual_home_score(winner)
            - expected_home_score(home, away)) == 0,
        0 <= expected_home_score(home, away) <= 1_000_000,
{
    lemma_expected_range(home, away);
}

/// Equal ratings expect half a point.
pub proof fn law_equal_ratings_expect_half(rating: u32)
    ensures
        expected_home_score(rating, rating) == 500_000,
{
    assert(ELO_POWERS[0] == 1_000_000_000_000u64);
    assert(power_of_ten(0) == 1);
    let denominator = 1_000_000_000_000int + power_of_ten(0) * ELO_POWERS[0] as int;
    assert(denominator == 2_000_000_000_000);
    assert((2 * 1_000_000_000_000int * 1_000_000 + 2_000_000_000_000int) / (2 * 2_000_000_000_000int) == 500_000);
    assert(trailing_share(0) == 500_000);
}

/// Swapping home and away swaps the expectations: the two sides' expected
/// scores always add up to one full point.
pub proof fn law_expectations_complement(first: u32, second: u32)
    ensures
        expected_home_score(first, second) + expected_home_score(second, first) == 1_000_000,
{
    if first == second {
        law_equal_ratings_expect_half(first);
    }
}

proof fn lemma_expected_range(home: u32, away: u32)
    ensures
        0 <= expected_home_score(home, away) <= 1_000_000,
{
    let d = away as int - home as int;
    if -2800 < d < 2800 {
        let e = if d >= 0 { d } else { -d };
        lemma_table_at_least_unit(e % 400);
        lemma_power_positive(e / 400);
        let denominator = 1_000_000_000_000int + power_of_ten(e / 400) * ELO_POWERS[e % 400] as int;
        assert(power_of_ten(e / 400) * ELO_POWERS[e % 400] as int >= 1_000_000_000_000) by (nonlinear_arith)
            requires
                power_of_ten(e / 400) >= 1,
                ELO_POWERS[e % 400] as int >= 1_000_000_000_000,
        ;
        assert(0 <= trailing_share(e) <= 500_000) by (nonlinear_arith)
            requires
                denominator >= 2_000_000_000_000,
                trailing_share(e) == (2 * 1_000_000_000_000int * 1_000_000 + denominator) / (2 * denominator),
        ;
    }
}

} // verus!
