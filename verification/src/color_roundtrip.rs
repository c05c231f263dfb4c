//! Exhaustive round-trip proof for the color conversions: every sRGB
//! byte survives the trip to fixed-point linear light and back
//! unchanged, each byte value checked against its exact integer roots.

use vstd::prelude::*;
use vstd::arithmetic::power::pow;

use crate::color::{linear_to_srgb_spec, srgb_to_linear_spec};

verus! {

/// Round trip at byte value 0.
#[verifier::spinoff_prover]
proof fn case_0()
    ensures
        linear_to_srgb_spec(srgb_to_linear_spec(0)) == 0,
{
    assert(srgb_to_linear_spec(0) == 0);
    assert(linear_to_srgb_spec(0) == 0);
}
/// Round trip at byte value 1.
#[verifier::spinoff_prover]
proof fn case_1()
    ensures
        linear_to_srgb_spec(srgb_to_linear_spec(1)) == 1,
{
    assert(srgb_to_linear_spec(1) == 318);
    assert(linear_to_srgb_spec(318) == 1);
}
/// Round trip at byte value 2.
#[verifier::spinoff_prover]
proof fn case_2()
    ensures
        linear_to_srgb_spec(srgb_to_linear_spec(2)) == 2,
{
    assert(srgb_to_linear_spec(2) == 636);
    assert(linear_to_srgb_spec(636) == 2);
}
/// Round trip at byte value 3.
#[verifier::spinoff_prover]
proof fn case_3()
    ensures
        linear_to_srgb_spec(srgb_to_linear_spec(3)) == 3,
{
    assert(srgb_to_linear_spec(3) == 954);
    assert(linear_to_srgb_spec(954) == 3);
}
/// Round trip at byte value 4.
#[verifier::spinoff_prover]
proof fn case_4()
    ensures
        linear_to_srgb_spec(srgb_to_linear_spec(4)) == 4,
{
    assert(srgb_to_linear_spec(4) == 1273);
    assert(linear_to_srgb_spec(1273) == 4);
}
/// Round trip at byte value 5.
#[verifier::spinoff_prover]
proof fn case_5()
    ensures
        linear_to_srgb_spec(srgb_to_linear_spec(5)) == 5,
{
    assert(srgb_to_linear_spec(5) == 1591);
    assert(linear_to_srgb_spec(1591) == 5);
}
/// Round trip at byte value 6.
#[verifier::spinoff_prover]
proof fn case_6()
    ensures
        linear_to_srgb_spec(srgb_to_linear_spec(6)) == 6,
{
    assert(srgb_to_linear_spec(6) == 1909);
    assert(linear_to_srgb_spec(1909) == 6);
}
/// Round trip at byte value 7.
#[verifier::spinoff_prover]
proof fn case_7()
    ensures
        linear_to_srgb_spec(srgb_to_linear_spec(7)) == 7,
{
    assert(srgb_to_linear_spec(7) == 2227);
    assert(linear_to_srgb_spec(2227) == 7);
}
/// Round trip at byte value 8.
#[verifier::spinoff_prover]
proof fn case_8()
    ensures
        linear_to_srgb_spec(srgb_to_linear_spec(8)) == 8,
{
    assert(srgb_to_linear_spec(8) == 2546);
    assert(linear_to_srgb_spec(2546) == 8);
}
/// Round trip at byte value 9.
#[verifier::spinoff_prover]
proof fn case_9()
    ensures
        linear_to_srgb_spec(srgb_to_linear_spec(9)) == 9,
{
    assert(srgb_to_linear_spec(9) == 2864);
    assert(linear_to_srgb_spec(2864) == 9);
}
/// Round trip at byte value 10.
#[verifier::spinoff_prover]
proof fn case_10()
    ensures
        linear_to_srgb_spec(srgb_to_linear_spec(10)) == 10,
{
    assert(srgb_to_linear_spec(10) == 3182);
    assert(linear_to_srgb_spec(3182) == 10);
}
/// Round trip at byte value 11.
#[verifier::spinoff_prover]
proof fn case_11()
    ensures
        linear_to_srgb_spec(srgb_to_linear_spec(11)) == 11,
{
    let a = 40 * 11 + 561int;
    assert(a * a == 1002001int) by (nonlinear_arith)
        requires
            a == 1001,
    ;
    assert(1002001int * 0x10000000000000000000000000int == 1270187169079286088529098108489957376int) by (nonlinear_arith);
    assert(a * a * 0x10000000000000000000000000int == 1270187169079286088529098108489957376int);
    assert(1270187169079286088529098108489957376int / 115799121int == 10968884375895099311929130347int);
    assert(pow(405538int, 5) <= 10968884375895099311929130347int < pow(405538int + 1, 5)) by {
        reveal_with_fuel(pow, 6);
    }
    crate::roots::lemma_iroot_unique(10968884375895099311929130347int, 5, 405538int);
    assert(1002001int * 405538int == 406349481538int) by (nonlinear_arith);
    assert(a * a * 405538int == 406349481538int);
    assert(406349481538int / 115799121int == 3509int);
    assert(srgb_to_linear_spec(11) == 3509);
    assert(3509int * 3509int == 12313081int) by (nonlinear_arith);
    assert(12313081int * 3509int == 43206601229int) by (nonlinear_arith);
    assert(43206601229int * 3509int == 151611963712561int) by (nonlinear_arith);
    assert(151611963712561int * 3509int == 532006380667376549int) by (nonlinear_arith);
    assert(532006380667376549int * 1048576int == 557849122614675032244224int) by (nonlinear_arith);
    assert(pow(95int, 12) <= 557849122614675032244224int < pow(95int + 1, 12)) by {
        reveal_with_fuel(pow, 13);
    }
    crate::roots::lemma_iroot_unique(557849122614675032244224int, 12, 95int);
    assert(538050int * 95int == 51114750int) by (nonlinear_arith);
    assert((51114750int - 27699200int) / 2048000int == 11int);
    assert(linear_to_srgb_spec(3509) == 11);
}
/// Round trip at byte value 12.
#[verifier::spinoff_prover]
proof fn case_12()
    ensures
        linear_to_srgb_spec(srgb_to_linear_spec(12)) == 12,
{
    let a = 40 * 12 + 561int;
    assert(a * a == 1083681int) by (nonlinear_arith)
        requires
            a == 1041,
    ;
    assert(1083681int * 0x10000000000000000000000000int == 1373728870105927866043348826305069056int) by (nonlinear_arith);
    assert(a * a * 0x10000000000000000000000000int == 1373728870105927866043348826305069056int);
    assert(1373728870105927866043348826305069056int / 115799121int == 11863033659002712689359264016int);
    assert(pow(411944int, 5) <= 11863033659002712689359264016int < pow(411944int + 1, 5)) by {
        reveal_with_fuel(pow, 6);
    }
    crate::roots::lemma_iroot_unique(11863033659002712689359264016int, 5, 411944int);
    assert(1083681int * 411944int == 446415885864int) by (nonlinear_arith);
    assert(a * a * 411944int == 446415885864int);
    assert(446415885864int / 115799121int == 3855int);
    assert(srgb_to_linear_spec(12) == 3855);
    assert(3855int * 3855int == 14861025int) by (nonlinear_arith);
    assert(14861025int * 3855int == 57289251375int) by (nonlinear_arith);
    assert(57289251375int * 3855int == 220850064050625int) by (nonlinear_arith);
    assert(220850064050625int * 3855int == 851376996915159375int) by (nonlinear_arith);
    assert(851376996915159375int * 1048576int == 892733485917310156800000int) by (nonlinear_arith);
    assert(pow(99int, 12) <= 892733485917310156800000int < pow(99int + 1, 12)) by {
        reveal_with_fuel(pow, 13);
    }
    crate::roots::lemma_iroot_unique(892733485917310156800000int, 12, 99int);
    assert(538050int * 99int == 53266950int) by (nonlinear_arith);
    assert((53266950int - 27699200int) / 2048000int == 12int);
    assert(linear_to_srgb_spec(3855) == 12);
}
/// Round trip at byte value 13.
#[verifier::spinoff_prover]
proof fn case_13()
    ensures
        linear_to_srgb_spec(srgb_to_linear_spec(13)) == 13,
{
    let a = 40 * 13 + 561int;
    assert(a * a == 1168561int) by (nonlinear_arith)
        requires
            a == 1081,
    ;
    assert(1168561int * 0x10000000000000000000000000int == 1481327053053299977642388994377383936int) by (nonlinear_arith);
    assert(a * a * 0x10000000000000000000000000int == 1481327053053299977642388994377383936int);
    assert(1481327053053299977642388994377383936int / 115799121int == 12792213276414248236326327506int);
    assert(pow(418204int, 5) <= 12792213276414248236326327506int < pow(418204int + 1, 5)) by {
        reveal_with_fuel(pow, 6);
    }
    crate::roots::lemma_iroot_unique(12792213276414248236326327506int, 5, 418204int);
    assert(1168561int * 418204int == 488696884444int) by (nonlinear_arith);
    assert(a * a * 418204int == 488696884444int);
    assert(488696884444int / 115799121int == 4220int);
    assert(srgb_to_linear_spec(13) == 4220);
    assert(4220int * 4220int == 17808400int) by (nonlinear_arith);
    assert(17808400int * 4220int == 75151448000int) by (nonlinear_arith);
    assert(75151448000int * 4220int == 317139110560000int) by (nonlinear_arith);
    assert(317139110560000int * 4220int == 1338327046563200000int) by (nonlinear_arith);
    assert(1338327046563200000int * 1048576int == 1403337621177054003200000int) by (nonlinear_arith);
    assert(pow(102int, 12) <= 1403337621177054003200000int < pow(102int + 1, 12)) by {
        reveal_with_fuel(pow, 13);
    }
    crate::roots::lemma_iroot_unique(1403337621177054003200000int, 12, 102int);
    assert(538050int * 102int == 54881100int) by (nonlinear_arith);
    assert((54881100int - 27699200int) / 2048000int == 13int);
    assert(linear_to_srgb_spec(4220) == 13);
}
/// Round trip at byte value 14.
#[verifier::spinoff_prover]
proof fn case_14()
    ensures
        linear_to_srgb_spec(srgb_to_linear_spec(14)) == 14,
{
    let a = 40 * 14 + 561int;
    assert(a * a == 1256641int) by (nonlinear_arith)
        requires
            a == 1121,
    ;
    assert(1256641int * 0x10000000000000000000000000int == 1592981717921402423326218612706902016int) by (nonlinear_arith);
    assert(a * a * 0x10000000000000000000000000int == 1592981717921402423326218612706902016int);
    assert(1592981717921402423326218612706902016int / 115799121int == 13756423228129705952830320816int);
    assert(pow(424327int, 5) <= 13756423228129705952830320816int < pow(424327int + 1, 5)) by {
        reveal_with_fuel(pow, 6);
    }
    crate::roots::lemma_iroot_unique(13756423228129705952830320816int, 5, 424327int);
    assert(1256641int * 424327int == 533226705607int) by (nonlinear_arith);
    assert(a * a * 424327int == 533226705607int);
    assert(533226705607int / 115799121int == 4604int);
    assert(srgb_to_linear_spec(14) == 4604);
    assert(4604int * 4604int == 21196816int) by (nonlinear_arith);
    assert(21196816int * 4604int == 97590140864int) by (nonlinear_arith);
    assert(97590140864int * 4604int == 449305008537856int) by (nonlinear_arith);
    assert(449305008537856int * 4604int == 2068600259308289024int) by (nonlinear_arith);
    assert(2068600259308289024int * 1048576int == 2169084585504448471629824int) by (nonlinear_arith);
    assert(pow(106int, 12) <= 2169084585504448471629824int < pow(106int + 1, 12)) by {
        reveal_with_fuel(pow, 13);
    }
    crate::roots::lemma_iroot_unique(2169084585504448471629824int, 12, 106int);
    assert(538050int * 106int == 57033300int) by (nonlinear_arith);
    assert((57033300int - 27699200int) / 2048000int == 14int);
    assert(linear_to_srgb_spec(4604) == 14);
}
/// Round trip at byte value 15.
#[verifier::spinoff_prover]
proof fn case_15()
    ensures
        linear_to_srgb_spec(srgb_to_linear_spec(15)) == 15,
{
    let a = 40 * 15 + 561int;
    assert(a * a == 1347921int) by (nonlinear_arith)
        requires
            a == 1161,
    ;
    assert(1347921int * 0x10000000000000000000000000int == 1708692864710235203094837681293623296int) by (nonlinear_arith);
    assert(a * a * 0x10000000000000000000000000int == 1708692864710235203094837681293623296int);
    assert(1708692864710235203094837681293623296int / 115799121int == 14755663514149085838871243947int);
    assert(pow(430320int, 5) <= 14755663514149085838871243947int < pow(430320int + 1, 5)) by {
        reveal_with_fuel(pow, 6);
    }
    crate::roots::lemma_iroot_unique(14755663514149085838871243947int, 5, 430320int);
    assert(1347921int * 430320int == 580037364720int) by (nonlinear_arith);
    assert(a * a * 430320int == 580037364720int);
    assert(580037364720int / 115799121int == 5008int);
    assert(srgb_to_linear_spec(15) == 5008);
    assert(5008int * 5008int == 25080064int) by (nonlinear_arith);
    assert(25080064int * 5008int == 125600960512int) by (nonlinear_arith);
    assert(125600960512int * 5008int == 629009610244096int) by (nonlinear_arith);
    assert(629009610244096int * 5008int == 3150080128102432768int) by (nonlinear_arith);
    assert(3150080128102432768int * 1048576int == 3303098420405136542138368int) by (nonlinear_arith);
    assert(pow(110int, 12) <= 3303098420405136542138368int < pow(110int + 1, 12)) by {
        reveal_with_fuel(pow, 13);
    }
    crate::roots::lemma_iroot_unique(3303098420405136542138368int, 12, 110int);
    assert(538050int * 110int == 59185500int) by (nonlinear_arith);
    assert((59185500int - 27699200int) / 2048000int == 15int);
    assert(linear_to_srgb_spec(5008) == 15);
}
/// Round trip at byte value 16.
#[verifier::spinoff_prover]
proof fn case_16()
    ensures
        linear_to_srgb_spec(srgb_to_linear_spec(16)) == 16,
{
    let a = 40 * 16 + 561int;
    assert(a * a == 1442401int) by (nonlinear_arith)
        requires
            a == 1201,
    ;
    assert(1442401int * 0x10000000000000000000000000int == 1828460493419798316948246200137547776int) by (nonlinear_arith);
    assert(a * a * 0x10000000000000000000000000int == 1828460493419798316948246200137547776int);
    assert(1828460493419798316948246200137547776int / 115799121int == 15789934134472387894449096898int);
    assert(pow(436190int, 5) <= 15789934134472387894449096898int < pow(436190int + 1, 5)) by {
        reveal_with_fuel(pow, 6);
    }
    crate::roots::lemma_iroot_unique(15789934134472387894449096898int, 5, 436190int);
    assert(1442401int * 436190int == 629160892190int) by (nonlinear_arith);
    assert(a * a * 436190int == 629160892190int);
    assert(629160892190int / 115799121int == 5433int);
    assert(srgb_to_linear_spec(16) == 5433);
    assert(5433int * 5433int == 29517489int) by (nonlinear_arith);
    assert(29517489int * 5433int == 160368517737int) by (nonlinear_arith);
    assert(160368517737int * 5433int == 871282156865121int) by (nonlinear_arith);
    assert(871282156865121int * 5433int == 4733675958248202393int) by (nonlinear_arith);
    assert(4733675958248202393int * 1048576int == 4963619001596067072442368int) by (nonlinear_arith);
    assert(pow(114int, 12) <= 4963619001596067072442368int < pow(114int + 1, 12)) by {
        reveal_with_fuel(pow, 13);
    }
    crate::roots::lemma_iroot_unique(4963619001596067072442368int, 12, 114int);
    assert(538050int * 114int == 61337700int) by (nonlinear_arith);
    assert((61337700int - 27699200int) / 2048000int == 16int);
    assert(linear_to_srgb_spec(5433) == 16);
}
/// Round trip at byte value 17.
#[verifier::spinoff_prover]
proof fn case_17()
    ensures
        linear_to_srgb_spec(srgb_to_linear_spec(17)) == 17,
{
    let a = 40 * 17 + 561int;
    assert(a * a == 1540081int) by (nonlinear_arith)
        requires
            a == 1241,
    ;
    assert(1540081int * 0x10000000000000000000000000int == 1952284604050091764886444169238675456int) by (nonlinear_arith);
    assert(a * a * 0x10000000000000000000000000int == 1952284604050091764886444169238675456int);
    assert(1952284604050091764886444169238675456int / 115799121int == 16859235089099612119563879670int);
    assert(pow(441944int, 5) <= 16859235089099612119563879670int < pow(441944int + 1, 5)) by {
        reveal_with_fuel(pow, 6);
    }
    crate::roots::lemma_iroot_unique(16859235089099612119563879670int, 5, 441944int);
    assert(1540081int * 441944int == 680629557464int) by (nonlinear_arith);
    assert(a * a * 441944int == 680629557464int);
    assert(680629557464int / 115799121int == 5877int);
    assert(srgb_to_linear_spec(17) == 5877);
    assert(5877int * 5877int == 34539129int) by (nonlinear_arith);
    assert(34539129int * 5877int == 202986461133int) by (nonlinear_arith);
    assert(202986461133int * 5877int == 1192951432078641int) by (nonlinear_arith);
    assert(1192951432078641int * 5877int == 7010975566326173157int) by (nonlinear_arith);
    assert(7010975566326173157int * 1048576int == 7351540715436033344274432int) by (nonlinear_arith);
    assert(pow(118int, 12) <= 7351540715436033344274432int < pow(118int + 1, 12)) by {
        reveal_with_fuel(pow, 13);
    }
    crate::roots::lemma_iroot_unique(7351540715436033344274432int, 12, 118int);
    assert(538050int * 118int == 63489900int) by (nonlinear_arith);
    assert((63489900int - 27699200int) / 2048000int == 17int);
    assert(linear_to_srgb_spec(5877) == 17);
}
/// Round trip at byte value 18.
#[verifier::spinoff_prover]
proof fn case_18()
    ensures
        linear_to_srgb_spec(srgb_to_linear_spec(18)) == 18,
{
    let a = 40 * 18 + 561int;
    assert(a * a == 1640961int) by (nonlinear_arith)
        requires
            a == 1281,
    ;
    assert(1640961int * 0x10000000000000000000000000int == 2080165196601115546909431588597006336int) by (nonlinear_arith);
    assert(a * a * 0x10000000000000000000000000int == 2080165196601115546909431588597006336int);
    assert(2080165196601115546909431588597006336int / 115799121int == 17963566378030758514215592263int);
    assert(pow(447588int, 5) <= 17963566378030758514215592263int < pow(447588int + 1, 5)) by {
        reveal_with_fuel(pow, 6);
    }
    crate::roots::lemma_iroot_unique(17963566378030758514215592263int, 5, 447588int);
    assert(1640961int * 447588int == 734474452068int) by (nonlinear_arith);
    assert(a * a * 447588int == 734474452068int);
    assert(734474452068int / 115799121int == 6342int);
    assert(srgb_to_linear_spec(18) == 6342);
    assert(6342int * 6342int == 40220964int) by (nonlinear_arith);
    assert(40220964int * 6342int == 255081353688int) by (nonlinear_arith);
    assert(255081353688int * 6342int == 1617725945089296int) by (nonlinear_arith);
    assert(1617725945089296int * 6342int == 10259617943756315232int) by (nonlinear_arith);
    assert(10259617943756315232int * 1048576int == 10757989144992222000709632int) by (nonlinear_arith);
    assert(pow(121int, 12) <= 10757989144992222000709632int < pow(121int + 1, 12)) by {
        reveal_with_fuel(pow, 13);
    }
    crate::roots::lemma_iroot_unique(10757989144992222000709632int, 12, 121int);
    assert(538050int * 121int == 65104050int) by (nonlinear_arith);
    assert((65104050int - 27699200int) / 2048000int == 18int);
    assert(linear_to_srgb_spec(6342) == 18);
}
/// Round trip at byte value 19.
#[verifier::spinoff_prover]
proof fn case_19()
    ensures
        linear_to_srgb_spec(srgb_to_linear_spec(19)) == 19,
{
    let a = 40 * 19 + 561int;
    assert(a * a == 1745041int) by (nonlinear_arith)
        requires
            a == 1321,
    ;
    assert(1745041int * 0x10000000000000000000000000int == 2212102271072869663017208458212540416int) by (nonlinear_arith);
    assert(a * a * 0x10000000000000000000000000int == 2212102271072869663017208458212540416int);
    assert(2212102271072869663017208458212540416int / 115799121int == 19102928001265827078404234676int);
    assert(pow(453127int, 5) <= 19102928001265827078404234676int < pow(453127int + 1, 5)) by {
        reveal_with_fuel(pow, 6);
    }
    crate::roots::lemma_iroot_unique(19102928001265827078404234676int, 5, 453127int);
    assert(1745041int * 453127int == 790725193207int) by (nonlinear_arith);
    assert(a * a * 453127int == 790725193207int);
    assert(790725193207int / 115799121int == 6828int);
    assert(srgb_to_linear_spec(19) == 6828);
    assert(6828int * 6828int == 46621584int) by (nonlinear_arith);
    assert(46621584int * 6828int == 318332175552int) by (nonlinear_arith);
    assert(318332175552int * 6828int == 2173572094669056int) by (nonlinear_arith);
    assert(2173572094669056int * 6828int == 14841150262400314368int) by (nonlinear_arith);
    assert(14841150262400314368int * 1048576int == 15562073977546672038739968int) by (nonlinear_arith);
    assert(pow(125int, 12) <= 15562073977546672038739968int < pow(125int + 1, 12)) by {
        reveal_with_fuel(pow, 13);
    }
    crate::roots::lemma_iroot_unique(15562073977546672038739968int, 12, 125int);
    assert(538050int * 125int == 67256250int) by (nonlinear_arith);
    assert((67256250int - 27699200int) / 2048000int == 19int);
    assert(linear_to_srgb_spec(6828) == 19);
}
/// Round trip at byte value 20.
#[verifier::spinoff_prover]
proof fn case_20()
    ensures
        linear_to_srgb_spec(srgb_to_linear_spec(20)) == 20,
{
    let a = 40 * 20 + 561int;
    assert(a * a == 1852321int) by (nonlinear_arith)
        requires
            a == 1361,
    ;
    assert(1852321int * 0x10000000000000000000000000int == 2348095827465354113209774778085277696int) by (nonlinear_arith);
    assert(a * a * 0x10000000000000000000000000int == 2348095827465354113209774778085277696int);
    assert(2348095827465354113209774778085277696int / 115799121int == 20277319958804817812129806910int);
    assert(pow(458566int, 5) <= 20277319958804817812129806910int < pow(458566int + 1, 5)) by {
        reveal_with_fuel(pow, 6);
    }
    crate::roots::lemma_iroot_unique(20277319958804817812129806910int, 5, 458566int);
    assert(1852321int * 458566int == 849411431686int) by (nonlinear_arith);
    assert(a * a * 458566int == 849411431686int);
    assert(849411431686int / 115799121int == 7335int);
    assert(srgb_to_linear_spec(20) == 7335);
    assert(7335int * 7335int == 53802225int) by (nonlinear_arith);
    assert(53802225int * 7335int == 394639320375int) by (nonlinear_arith);
    assert(394639320375int * 7335int == 2894679414950625int) by (nonlinear_arith);
    assert(2894679414950625int * 7335int == 21232473508662834375int) by (nonlinear_arith);
    assert(21232473508662834375int * 1048576int == 22263862141819640217600000int) by (nonlinear_arith);
    assert(pow(129int, 12) <= 22263862141819640217600000int < pow(129int + 1, 12)) by {
        reveal_with_fuel(pow, 13);
    }
    crate::roots::lemma_iroot_unique(22263862141819640217600000int, 12, 129int);
    assert(538050int * 129int == 69408450int) by (nonlinear_arith);
    assert((69408450int - 27699200int) / 2048000int == 20int);
    assert(linear_to_srgb_spec(7335) == 20);
}
/// Round trip at byte value 21.
#[verifier::spinoff_prover]
proof fn case_21()
    ensures
        linear_to_srgb_spec(srgb_to_linear_spec(21)) == 21,
{
    let a = 40 * 21 + 561int;
    assert(a * a == 1962801int) by (nonlinear_arith)
        requires
            a == 1401,
    ;
    assert(1962801int * 0x10000000000000000000000000int == 2488145865778568897487130548215218176int) by (nonlinear_arith);
    assert(a * a * 0x10000000000000000000000000int == 2488145865778568897487130548215218176int);
    assert(2488145865778568897487130548215218176int / 115799121int == 21486742250647730715392308964int);
    assert(pow(463910int, 5) <= 21486742250647730715392308964int < pow(463910int + 1, 5)) by {
        reveal_with_fuel(pow, 6);
    }
    crate::roots::lemma_iroot_unique(21486742250647730715392308964int, 5, 463910int);
    assert(1962801int * 463910int == 910563011910int) by (nonlinear_arith);
    assert(a * a * 463910int == 910563011910int);
    assert(910563011910int / 115799121int == 7863int);
    assert(srgb_to_linear_spec(21) == 7863);
    assert(7863int * 7863int == 61826769int) by (nonlinear_arith);
    assert(61826769int * 7863int == 486143884647int) by (nonlinear_arith);
    assert(486143884647int * 7863int == 3822549364979361int) by (nonlinear_arith);
    assert(3822549364979361int * 7863int == 30056705656832715543int) by (nonlinear_arith);
    assert(30056705656832715543int * 1048576int == 31516740190819021533216768int) by (nonlinear_arith);
    assert(pow(133int, 12) <= 31516740190819021533216768int < pow(133int + 1, 12)) by {
        reveal_with_fuel(pow, 13);
    }
    crate::roots::lemma_iroot_unique(31516740190819021533216768int, 12, 133int);
    assert(538050int * 133int == 71560650int) by (nonlinear_arith);
    assert((71560650int - 27699200int) / 2048000int == 21int);
    assert(linear_to_srgb_spec(7863) == 21);
}
/// Round trip at byte value 22.
#[verifier::spinoff_prover]
proof fn case_22()
    ensures
        linear_to_srgb_spec(srgb_to_linear_spec(22)) == 22,
{
    let a = 40 * 22 + 561int;
    assert(a * a == 2076481int) by (nonlinear_arith)
        requires
            a == 1441,
    ;
    assert(2076481int * 0x10000000000000000000000000int == 2632252386012514015849275768602361856int) by (nonlinear_arith);
    assert(a * a * 0x10000000000000000000000000int == 2632252386012514015849275768602361856int);
    assert(2632252386012514015849275768602361856int / 115799121int == 22731194876794565788191740838int);
    assert(pow(469163int, 5) <= 22731194876794565788191740838int < pow(469163int + 1, 5)) by {
        reveal_with_fuel(pow, 6);
    }
    crate::roots::lemma_iroot_unique(22731194876794565788191740838int, 5, 469163int);
    assert(2076481int * 469163int == 974208055403int) by (nonlinear_arith);
    assert(a * a * 469163int == 974208055403int);
    assert(974208055403int / 115799121int == 8412int);
    assert(srgb_to_linear_spec(22) == 8412);
    assert(8412int * 8412int == 70761744int) by (nonlinear_arith);
    assert(70761744int * 8412int == 595247790528int) by (nonlinear_arith);
    assert(595247790528int * 8412int == 5007224413921536int) by (nonlinear_arith);
    assert(5007224413921536int * 8412int == 42120771769907960832int) by (nonlinear_arith);
    assert(42120771769907960832int * 1048576int == 44166830379403009937375232int) by (nonlinear_arith);
    assert(pow(137int, 12) <= 44166830379403009937375232int < pow(137int + 1, 12)) by {
        reveal_with_fuel(pow, 13);
    }
    crate::roots::lemma_iroot_unique(44166830379403009937375232int, 12, 137int);
    assert(538050int * 137int == 73712850int) by (nonlinear_arith);
    assert((73712850int - 27699200int) / 2048000int == 22int);
    assert(linear_to_srgb_spec(8412) == 22);
}
/// Round trip at byte value 23.
#[verifier::spinoff_prover]
proof fn case_23()
    ensures
        linear_to_srgb_spec(srgb_to_linear_spec(23)) == 23,
{
    let a = 40 * 23 + 561int;
    assert(a * a == 2193361int) by (nonlinear_arith)
        requires
            a == 1481,
    ;
    assert(2193361int * 0x10000000000000000000000000int == 2780415388167189468296210439246708736int) by (nonlinear_arith);
    assert(a * a * 0x10000000000000000000000000int == 2780415388167189468296210439246708736int);
    assert(2780415388167189468296210439246708736int / 115799121int == 24010677837245323030528102534int);
    assert(pow(474330int, 5) <= 24010677837245323030528102534int < pow(474330int + 1, 5)) by {
        reveal_with_fuel(pow, 6);
    }
    crate::roots::lemma_iroot_unique(24010677837245323030528102534int, 5, 474330int);
    assert(2193361int * 474330int == 1040376923130int) by (nonlinear_arith);
    assert(a * a * 474330int == 1040376923130int);
    assert(1040376923130int / 115799121int == 8984int);
    assert(srgb_to_linear_spec(23) == 8984);
    assert(8984int * 8984int == 80712256int) by (nonlinear_arith);
    assert(80712256int * 8984int == 725118907904int) by (nonlinear_arith);
    assert(725118907904int * 8984int == 6514468268609536int) by (nonlinear_arith);
    assert(6514468268609536int * 8984int == 58525982925188071424int) by (nonlinear_arith);
    assert(58525982925188071424int * 1048576int == 61368941071762007181492224int) by (nonlinear_arith);
    assert(pow(140int, 12) <= 61368941071762007181492224int < pow(140int + 1, 12)) by {
        reveal_with_fuel(pow, 13);
    }
    crate::roots::lemma_iroot_unique(61368941071762007181492224int, 12, 140int);
    assert(538050int * 140int == 75327000int) by (nonlinear_arith);
    assert((75327000int - 27699200int) / 2048000int == 23int);
    assert(linear_to_srgb_spec(8984) == 23);
}
/// Round trip at byte value 24.
#[verifier::spinoff_prover]
proof fn case_24()
    ensures
        linear_to_srgb_spec(srgb_to_linear_spec(24)) == 24,
{
    let a = 40 * 24 + 561int;
    assert(a * a == 2313441int) by (nonlinear_arith)
        requires
            a == 1521,
    ;
    assert(2313441int * 0x10000000000000000000000000int == 2932634872242595254827934560148258816int) by (nonlinear_arith);
    assert(a * a * 0x10000000000000000000000000int == 2932634872242595254827934560148258816int);
    assert(2932634872242595254827934560148258816int / 115799121int == 25325191132000002442401394049int);
    assert(pow(479413int, 5) <= 25325191132000002442401394049int < pow(479413int + 1, 5)) by {
        reveal_with_fuel(pow, 6);
    }
    crate::roots::lemma_iroot_unique(25325191132000002442401394049int, 5, 479413int);
    assert(2313441int * 479413int == 1109093690133int) by (nonlinear_arith);
    assert(a * a * 479413int == 1109093690133int);
    assert(1109093690133int / 115799121int == 9577int);
    assert(srgb_to_linear_spec(24) == 9577);
    assert(9577int * 9577int == 91718929int) by (nonlinear_arith);
    assert(91718929int * 9577int == 878392183033int) by (nonlinear_arith);
    assert(878392183033int * 9577int == 8412361936907041int) by (nonlinear_arith);
    assert(8412361936907041int * 9577int == 80565190269758731657int) by (nonlinear_arith);
    assert(80565190269758731657int * 1048576int == 84478724952302531805970432int) by (nonlinear_arith);
    assert(pow(144int, 12) <= 84478724952302531805970432int < pow(144int + 1, 12)) by {
        reveal_with_fuel(pow, 13);
    }
    crate::roots::lemma_iroot_unique(84478724952302531805970432int, 12, 144int);
    assert(538050int * 144int == 77479200int) by (nonlinear_arith);
    assert((77479200int - 27699200int) / 2048000int == 24int);
    assert(linear_to_srgb_spec(9577) == 24);
}
/// Round trip at byte value 25.
#[verifier::spinoff_prover]
proof fn case_25()
    ensures
        linear_to_srgb_spec(srgb_to_linear_spec(25)) == 25,
{
    let a = 40 * 25 + 561int;
    assert(a * a == 2436721int) by (nonlinear_arith)
        requires
            a == 1561,
    ;
    assert(2436721int * 0x10000000000000000000000000int == 3088910838238731375444448131307012096int) by (nonlinear_arith);
    assert(a * a * 0x10000000000000000000000000int == 3088910838238731375444448131307012096int);
    assert(3088910838238731375444448131307012096int / 115799121int == 26674734761058604023811615386int);
    assert(pow(484417int, 5) <= 26674734761058604023811615386int < pow(484417int + 1, 5)) by {
        reveal_with_fuel(pow, 6);
    }
    crate::roots::lemma_iroot_unique(26674734761058604023811615386int, 5, 484417int);
    assert(2436721int * 484417int == 1180389076657int) by (nonlinear_arith);
    assert(a * a * 484417int == 1180389076657int);
    assert(1180389076657int / 115799121int == 10193int);
    assert(srgb_to_linear_spec(25) == 10193);
    assert(10193int * 10193int == 103897249int) by (nonlinear_arith);
    assert(103897249int * 10193int == 1059024659057int) by (nonlinear_arith);
    assert(1059024659057int * 10193int == 10794638349768001int) by (nonlinear_arith);
    assert(10794638349768001int * 10193int == 110029748699185234193int) by (nonlinear_arith);
    assert(110029748699185234193int * 1048576int == 115374553771996856129159168int) by (nonlinear_arith);
    assert(pow(148int, 12) <= 115374553771996856129159168int < pow(148int + 1, 12)) by {
        reveal_with_fuel(pow, 13);
    }
    crate::roots::lemma_iroot_unique(115374553771996856129159168int, 12, 148int);
    assert(538050int * 148int == 79631400int) by (nonlinear_arith);
    assert((79631400int - 27699200int) / 2048000int == 25int);
    assert(linear_to_srgb_spec(10193) == 25);
}
/// Round trip at byte value 26.
#[verifier::spinoff_prover]
proof fn case_26()
    ensures
        linear_to_srgb_spec(srgb_to_linear_spec(26)) == 26,
{
    let a = 40 * 26 + 561int;
    assert(a * a == 2563201int) by (nonlinear_arith)
        requires
            a == 1601,
    ;
    assert(2563201int * 0x10000000000000000000000000int == 3249243286155597830145751152722968576int) by (nonlinear_arith);
    assert(a * a * 0x10000000000000000000000000int == 3249243286155597830145751152722968576int);
    assert(3249243286155597830145751152722968576int / 115799121int == 28059308724421127774758766542int);
    assert(pow(489345int, 5) <= 28059308724421127774758766542int < pow(489345int + 1, 5)) by {
        reveal_with_fuel(pow, 6);
    }
    crate::roots::lemma_iroot_unique(28059308724421127774758766542int, 5, 489345int);
    assert(2563201int * 489345int == 1254289593345int) by (nonlinear_arith);
    assert(a * a * 489345int == 1254289593345int);
    assert(1254289593345int / 115799121int == 10831int);
    assert(srgb_to_linear_spec(26) == 10831);
    assert(10831int * 10831int == 117310561int) by (nonlinear_arith);
    assert(117310561int * 10831int == 1270590686191int) by (nonlinear_arith);
    assert(1270590686191int * 10831int == 13761767722134721int) by (nonlinear_arith);
    assert(13761767722134721int * 10831int == 149053706198441163151int) by (nonlinear_arith);
    assert(149053706198441163151int * 1048576int == 156294139030736641092222976int) by (nonlinear_arith);
    assert(pow(152int, 12) <= 156294139030736641092222976int < pow(152int + 1, 12)) by {
        reveal_with_fuel(pow, 13);
    }
    crate::roots::lemma_iroot_unique(156294139030736641092222976int, 12, 152int);
    assert(538050int * 152int == 81783600int) by (nonlinear_arith);
    assert((81783600int - 27699200int) / 2048000int == 26int);
    assert(linear_to_srgb_spec(10831) == 26);
}
/// Round trip at byte value 27.
#[verifier::spinoff_prover]
proof fn case_27()
    ensures
        linear_to_srgb_spec(srgb_to_linear_spec(27)) == 27,
{
    let a = 40 * 27 + 561int;
    assert(a * a == 2692881int) by (nonlinear_arith)
        requires
            a == 1641,
    ;
    assert(2692881int * 0x10000000000000000000000000int == 3413632215993194618931843624396128256int) by (nonlinear_arith);
    assert(a * a * 0x10000000000000000000000000int == 3413632215993194618931843624396128256int);
    assert(3413632215993194618931843624396128256int / 115799121int == 29478913022087573695242847520int);
    assert(pow(494199int, 5) <= 29478913022087573695242847520int < pow(494199int + 1, 5)) by {
        reveal_with_fuel(pow, 6);
    }
    crate::roots::lemma_iroot_unique(29478913022087573695242847520int, 5, 494199int);
    assert(2692881int * 494199int == 1330819097319int) by (nonlinear_arith);
    assert(a * a * 494199int == 1330819097319int);
    assert(1330819097319int / 115799121int == 11492int);
    assert(srgb_to_linear_spec(27) == 11492);
    assert(11492int * 11492int == 132066064int) by (nonlinear_arith);
    assert(132066064int * 11492int == 1517703207488int) by (nonlinear_arith);
    assert(1517703207488int * 11492int == 17441445260452096int) by (nonlinear_arith);
    assert(17441445260452096int * 11492int == 200437088933115487232int) by (nonlinear_arith);
    assert(200437088933115487232int * 1048576int == 210173520965130505139781632int) by (nonlinear_arith);
    assert(pow(156int, 12) <= 210173520965130505139781632int < pow(156int + 1, 12)) by {
        reveal_with_fuel(pow, 13);
    }
    crate::roots::lemma_iroot_unique(210173520965130505139781632int, 12, 156int);
    assert(538050int * 156int == 83935800int) by (nonlinear_arith);
    assert((83935800int - 27699200int) / 2048000int == 27int);
    assert(linear_to_srgb_spec(11492) == 27);
}
/// Round trip at byte value 28.
#[verifier::spinoff_prover]
proof fn case_28()
    ensures
        linear_to_srgb_spec(srgb_to_linear_spec(28)) == 28,
{
    let a = 40 * 28 + 561int;
    assert(a * a == 2825761int) by (nonlinear_arith)
        requires
            a == 1681,
    ;
    assert(2825761int * 0x10000000000000000000000000int == 3582077627751521741802725546326491136int) by (nonlinear_arith);
    assert(a * a * 0x10000000000000000000000000int == 3582077627751521741802725546326491136int);
    assert(3582077627751521741802725546326491136int / 115799121int == 30933547654057941785263858318int);
    assert(pow(498983int, 5) <= 30933547654057941785263858318int < pow(498983int + 1, 5)) by {
        reveal_with_fuel(pow, 6);
    }
    crate::roots::lemma_iroot_unique(30933547654057941785263858318int, 5, 498983int);
    assert(2825761int * 498983int == 1410006701063int) by (nonlinear_arith);
    assert(a * a * 498983int == 1410006701063int);
    assert(1410006701063int / 115799121int == 12176int);
    assert(srgb_to_linear_spec(28) == 12176);
    assert(12176int * 12176int == 148254976int) by (nonlinear_arith);
    assert(148254976int * 12176int == 1805152587776int) by (nonlinear_arith);
    assert(1805152587776int * 12176int == 21979537908760576int) by (nonlinear_arith);
    assert(21979537908760576int * 12176int == 267622853577068773376int) by (nonlinear_arith);
    assert(267622853577068773376int * 1048576int == 280622901312428466111512576int) by (nonlinear_arith);
    assert(pow(159int, 12) <= 280622901312428466111512576int < pow(159int + 1, 12)) by {
        reveal_with_fuel(pow, 13);
    }
    crate::roots::lemma_iroot_unique(280622901312428466111512576int, 12, 159int);
    assert(538050int * 159int == 85549950int) by (nonlinear_arith);
    assert((85549950int - 27699200int) / 2048000int == 28int);
    assert(linear_to_srgb_spec(12176) == 28);
}
/// Round trip at byte value 29.
#[verifier::spinoff_prover]
proof fn case_29()
    ensures
        linear_to_srgb_spec(srgb_to_linear_spec(29)) == 29,
{
    let a = 40 * 29 + 561int;
    assert(a * a == 2961841int) by (nonlinear_arith)
        requires
            a == 1721,
    ;
    assert(2961841int * 0x10000000000000000000000000int == 3754579521430579198758396918514057216int) by (nonlinear_arith);
    assert(a * a * 0x10000000000000000000000000int == 3754579521430579198758396918514057216int);
    assert(3754579521430579198758396918514057216int / 115799121int == 32423212620332232044821798936int);
    assert(pow(503699int, 5) <= 32423212620332232044821798936int < pow(503699int + 1, 5)) by {
        reveal_with_fuel(pow, 6);
    }
    crate::roots::lemma_iroot_unique(32423212620332232044821798936int, 5, 503699int);
    assert(2961841int * 503699int == 1491876349859int) by (nonlinear_arith);
    assert(a * a * 503699int == 1491876349859int);
    assert(1491876349859int / 115799121int == 12883int);
    assert(srgb_to_linear_spec(29) == 12883);
    assert(12883int * 12883int == 165971689int) by (nonlinear_arith);
    assert(165971689int * 12883int == 2138213269387int) by (nonlinear_arith);
    assert(2138213269387int * 12883int == 27546601549512721int) by (nonlinear_arith);
    assert(27546601549512721int * 12883int == 354882867762372384643int) by (nonlinear_arith);
    assert(354882867762372384643int * 1048576int == 372121657946797385599418368int) by (nonlinear_arith);
    assert(pow(163int, 12) <= 372121657946797385599418368int < pow(163int + 1, 12)) by {
        reveal_with_fuel(pow, 13);
    }
    crate::roots::lemma_iroot_unique(372121657946797385599418368int, 12, 163int);
    assert(538050int * 163int == 87702150int) by (nonlinear_arith);
    assert((87702150int - 27699200int) / 2048000int == 29int);
    assert(linear_to_srgb_spec(12883) == 29);
}
/// Round trip at byte value 30.
#[verifier::spinoff_prover]
proof fn case_30()
    ensures
        linear_to_srgb_spec(srgb_to_linear_spec(30)) == 30,
{
    let a = 40 * 30 + 561int;
    assert(a * a == 3101121int) by (nonlinear_arith)
        requires
            a == 1761,
    ;
    assert(3101121int * 0x10000000000000000000000000int == 3931137897030366989798857740958826496int) by (nonlinear_arith);
    assert(a * a * 0x10000000000000000000000000int == 3931137897030366989798857740958826496int);
    assert(3931137897030366989798857740958826496int / 115799121int == 33947907920910444473916669375int);
    assert(pow(508349int, 5) <= 33947907920910444473916669375int < pow(508349int + 1, 5)) by {
        reveal_with_fuel(pow, 6);
    }
    crate::roots::lemma_iroot_unique(33947907920910444473916669375int, 5, 508349int);
    assert(3101121int * 508349int == 1576451759229int) by (nonlinear_arith);
    assert(a * a * 508349int == 1576451759229int);
    assert(1576451759229int / 115799121int == 13613int);
    assert(srgb_to_linear_spec(30) == 13613);
    assert(13613int * 13613int == 185313769int) by (nonlinear_arith);
    assert(185313769int * 13613int == 2522676337397int) by (nonlinear_arith);
    assert(2522676337397int * 13613int == 34341192980985361int) by (nonlinear_arith);
    assert(34341192980985361int * 13613int == 467486660050153719293int) by (nonlinear_arith);
    assert(467486660050153719293int * 1048576int == 490195292048749986361376768int) by (nonlinear_arith);
    assert(pow(167int, 12) <= 490195292048749986361376768int < pow(167int + 1, 12)) by {
        reveal_with_fuel(pow, 13);
    }
    crate::roots::lemma_iroot_unique(490195292048749986361376768int, 12, 167int);
    assert(538050int * 167int == 89854350int) by (nonlinear_arith);
    assert((89854350int - 27699200int) / 2048000int == 30int);
    assert(linear_to_srgb_spec(13613) == 30);
}
/// Round trip at byte value 31.
#[verifier::spinoff_prover]
proof fn case_31()
    ensures
        linear_to_srgb_spec(srgb_to_linear_spec(31)) == 31,
{
    let a = 40 * 31 + 561int;
    assert(a * a == 3243601int) by (nonlinear_arith)
        requires
            a == 1801,
    ;
    assert(3243601int * 0x10000000000000000000000000int == 4111752754550885114924108013660798976int) by (nonlinear_arith);
    assert(a * a * 0x10000000000000000000000000int == 4111752754550885114924108013660798976int);
    assert(4111752754550885114924108013660798976int / 115799121int == 35507633555792579072548469635int);
    assert(pow(512937int, 5) <= 35507633555792579072548469635int < pow(512937int + 1, 5)) by {
        reveal_with_fuel(pow, 6);
    }
    crate::roots::lemma_iroot_unique(35507633555792579072548469635int, 5, 512937int);
    assert(3243601int * 512937int == 1663762966137int) by (nonlinear_arith);
    assert(a * a * 512937int == 1663762966137int);
    assert(1663762966137int / 115799121int == 14367int);
    assert(srgb_to_linear_spec(31) == 14367);
    assert(14367int * 14367int == 206410689int) by (nonlinear_arith);
    assert(206410689int * 14367int == 2965502368863int) by (nonlinear_arith);
    assert(2965502368863int * 14367int == 42605372533454721int) by (nonlinear_arith);
    assert(42605372533454721int * 14367int == 612111387188143976607int) by (nonlinear_arith);
    assert(612111387188143976607int * 1048576int == 641845309932195258414661632int) by (nonlinear_arith);
    assert(pow(171int, 12) <= 641845309932195258414661632int < pow(171int + 1, 12)) by {
        reveal_with_fuel(pow, 13);
    }
    crate::roots::lemma_iroot_unique(641845309932195258414661632int, 12, 171int);
    assert(538050int * 171int == 92006550int) by (nonlinear_arith);
    assert((92006550int - 27699200int) / 2048000int == 31int);
    assert(linear_to_srgb_spec(14367) == 31);
}
/// Round trip at byte value 32.
#[verifier::spinoff_prover]
proof fn case_32()
    ensures
        linear_to_srgb_spec(srgb_to_linear_spec(32)) == 32,
{
    let a = 40 * 32 + 561int;
    assert(a * a == 3389281int) by (nonlinear_arith)
        requires
            a == 1841,
    ;
    assert(3389281int * 0x10000000000000000000000000int == 4296424093992133574134147736619974656int) by (nonlinear_arith);
    assert(a * a * 0x10000000000000000000000000int == 4296424093992133574134147736619974656int);
    assert(4296424093992133574134147736619974656int / 115799121int == 37102389524978635840717199715int);
    assert(pow(517464int, 5) <= 37102389524978635840717199715int < pow(517464int + 1, 5)) by {
        reveal_with_fuel(pow, 6);
    }
    crate::roots::lemma_iroot_unique(37102389524978635840717199715int, 5, 517464int);
    assert(3389281int * 517464int == 1753830903384int) by (nonlinear_arith);
    assert(a * a * 517464int == 1753830903384int);
    assert(1753830903384int / 115799121int == 15145int);
    assert(srgb_to_linear_spec(32) == 15145);
    assert(15145int * 15145int == 229371025int) by (nonlinear_arith);
    assert(229371025int * 15145int == 3473824173625int) by (nonlinear_arith);
    assert(3473824173625int * 15145int == 52611067109550625int) by (nonlinear_arith);
    assert(52611067109550625int * 15145int == 796794611374144215625int) by (nonlinear_arith);
    assert(796794611374144215625int * 1048576int == 835499706416254645043200000int) by (nonlinear_arith);
    assert(pow(175int, 12) <= 835499706416254645043200000int < pow(175int + 1, 12)) by {
        reveal_with_fuel(pow, 13);
    }
    crate::roots::lemma_iroot_unique(835499706416254645043200000int, 12, 175int);
    assert(538050int * 175int == 94158750int) by (nonlinear_arith);
    assert((94158750int - 27699200int) / 2048000int == 32int);
    assert(linear_to_srgb_spec(15145) == 32);
}
/// Round trip at byte value 33.
#[verifier::spinoff_prover]
proof fn case_33()
    ensures
        linear_to_srgb_spec(srgb_to_linear_spec(33)) == 33,
{
    let a = 40 * 33 + 561int;
    assert(a * a == 3538161int) by (nonlinear_arith)
        requires
            a == 1881,
    ;
    assert(3538161int * 0x10000000000000000000000000int == 4485151915354112367428976909836353536int) by (nonlinear_arith);
    assert(a * a * 0x10000000000000000000000000int == 4485151915354112367428976909836353536int);
    assert(4485151915354112367428976909836353536int / 115799121int == 38732175828468614778422859615int);
    assert(pow(521932int, 5) <= 38732175828468614778422859615int < pow(521932int + 1, 5)) by {
        reveal_with_fuel(pow, 6);
    }
    crate::roots::lemma_iroot_unique(38732175828468614778422859615int, 5, 521932int);
    assert(3538161int * 521932int == 1846679447052int) by (nonlinear_arith);
    assert(a * a * 521932int == 1846679447052int);
    assert(1846679447052int / 115799121int == 15947int);
    assert(srgb_to_linear_spec(33) == 15947);
    assert(15947int * 15947int == 254306809int) by (nonlinear_arith);
    assert(254306809int * 15947int == 4055430683123int) by (nonlinear_arith);
    assert(4055430683123int * 15947int == 64671953103762481int) by (nonlinear_arith);
    assert(64671953103762481int * 15947int == 1031323636145700284507int) by (nonlinear_arith);
    assert(1031323636145700284507int * 1048576int == 1081421213095113821527212032int) by (nonlinear_arith);
    assert(pow(178int, 12) <= 1081421213095113821527212032int < pow(178int + 1, 12)) by {
        reveal_with_fuel(pow, 13);
    }
    crate::roots::lemma_iroot_unique(1081421213095113821527212032int, 12, 178int);
    assert(538050int * 178int == 95772900int) by (nonlinear_arith);
    assert((95772900int - 27699200int) / 2048000int == 33int);
    assert(linear_to_srgb_spec(15947) == 33);
}
/// Round trip at byte value 34.
#[verifier::spinoff_prover]
proof fn case_34()
    ensures
        linear_to_srgb_spec(srgb_to_linear_spec(34)) == 34,
{
    let a = 40 * 34 + 561int;
    assert(a * a == 3690241int) by (nonlinear_arith)
        requires
            a == 1921,
    ;
    assert(3690241int * 0x10000000000000000000000000int == 4677936218636821494808595533309935616int) by (nonlinear_arith);
    assert(a * a * 0x10000000000000000000000000int == 4677936218636821494808595533309935616int);
    assert(4677936218636821494808595533309935616int / 115799121int == 40396992466262515885665449337int);
    assert(pow(526344int, 5) <= 40396992466262515885665449337int < pow(526344int + 1, 5)) by {
        reveal_with_fuel(pow, 6);
    }
    crate::roots::lemma_iroot_unique(40396992466262515885665449337int, 5, 526344int);
    assert(3690241int * 526344int == 1942336208904int) by (nonlinear_arith);
    assert(a * a * 526344int == 1942336208904int);
    assert(1942336208904int / 115799121int == 16773int);
    assert(srgb_to_linear_spec(34) == 16773);
    assert(16773int * 16773int == 281333529int) by (nonlinear_arith);
    assert(281333529int * 16773int == 4718807281917int) by (nonlinear_arith);
    assert(4718807281917int * 16773int == 79148554539593841int) by (nonlinear_arith);
    assert(79148554539593841int * 16773int == 1327558705292607495093int) by (nonlinear_arith);
    assert(1327558705292607495093int * 1048576int == 1392046196960901196774637568int) by (nonlinear_arith);
    assert(pow(182int, 12) <= 1392046196960901196774637568int < pow(182int + 1, 12)) by {
        reveal_with_fuel(pow, 13);
    }
    crate::roots::lemma_iroot_unique(1392046196960901196774637568int, 12, 182int);
    assert(538050int * 182int == 97925100int) by (nonlinear_arith);
    assert((97925100int - 27699200int) / 2048000int == 34int);
    assert(linear_to_srgb_spec(16773) == 34);
}
/// Round trip at byte value 35.
#[verifier::spinoff_prover]
proof fn case_35()
    ensures
        linear_to_srgb_spec(srgb_to_linear_spec(35)) == 35,
{
    let a = 40 * 35 + 561int;
    assert(a * a == 3845521int) by (nonlinear_arith)
        requires
            a == 1961,
    ;
    assert(3845521int * 0x10000000000000000000000000int == 4874777003840260956273003607040720896int) by (nonlinear_arith);
    assert(a * a * 0x10000000000000000000000000int == 4874777003840260956273003607040720896int);
    assert(4874777003840260956273003607040720896int / 115799121int == 42096839438360339162444968878int);
    assert(pow(530700int, 5) <= 42096839438360339162444968878int < pow(530700int + 1, 5)) by {
        reveal_with_fuel(pow, 6);
    }
    crate::roots::lemma_iroot_unique(42096839438360339162444968878int, 5, 530700int);
    assert(3845521int * 530700int == 2040817994700int) by (nonlinear_arith);
    assert(a * a * 530700int == 2040817994700int);
    assert(2040817994700int / 115799121int == 17623int);
    assert(srgb_to_linear_spec(35) == 17623);
    assert(17623int * 17623int == 310570129int) by (nonlinear_arith);
    assert(310570129int * 17623int == 5473177383367int) by (nonlinear_arith);
    assert(5473177383367int * 17623int == 96453805027076641int) by (nonlinear_arith);
    assert(96453805027076641int * 17623int == 1699805405992171644343int) by (nonlinear_arith);
    assert(1699805405992171644343int * 1048576int == 1782375153393647374138605568int) by (nonlinear_arith);
    assert(pow(186int, 12) <= 1782375153393647374138605568int < pow(186int + 1, 12)) by {
        reveal_with_fuel(pow, 13);
    }
    crate::roots::lemma_iroot_unique(1782375153393647374138605568int, 12, 186int);
    assert(538050int * 186int == 100077300int) by (nonlinear_arith);
    assert((100077300int - 27699200int) / 2048000int == 35int);
    assert(linear_to_srgb_spec(17623) == 35);
}
/// Round trip at byte value 36.
#[verifier::spinoff_prover]
proof fn case_36()
    ensures
        linear_to_srgb_spec(srgb_to_linear_spec(36)) == 36,
{
    let a = 40 * 36 + 561int;
    assert(a * a == 4004001int) by (nonlinear_arith)
        requires
            a == 2001,
    ;
    assert(4004001int * 0x10000000000000000000000000int == 5075674270964430751822201131028709376int) by (nonlinear_arith);
    assert(a * a * 0x10000000000000000000000000int == 5075674270964430751822201131028709376int);
    assert(5075674270964430751822201131028709376int / 115799121int == 43831716744762084608761418241int);
    assert(pow(535004int, 5) <= 43831716744762084608761418241int < pow(535004int + 1, 5)) by {
        reveal_with_fuel(pow, 6);
    }
    crate::roots::lemma_iroot_unique(43831716744762084608761418241int, 5, 535004int);
    assert(4004001int * 535004int == 2142156551004int) by (nonlinear_arith);
    assert(a * a * 535004int == 2142156551004int);
    assert(2142156551004int / 115799121int == 18498int);
    assert(srgb_to_linear_spec(36) == 18498);
    assert(18498int * 18498int == 342176004int) by (nonlinear_arith);
    assert(342176004int * 18498int == 6329571721992int) by (nonlinear_arith);
    assert(6329571721992int * 18498int == 117084417713408016int) by (nonlinear_arith);
    assert(117084417713408016int * 18498int == 2165827558862621479968int) by (nonlinear_arith);
    assert(2165827558862621479968int * 1048576int == 2271034798361932180978925568int) by (nonlinear_arith);
    assert(pow(190int, 12) <= 2271034798361932180978925568int < pow(190int + 1, 12)) by {
        reveal_with_fuel(pow, 13);
    }
    crate::roots::lemma_iroot_unique(2271034798361932180978925568int, 12, 190int);
    assert(538050int * 190int == 102229500int) by (nonlinear_arith);
    assert((102229500int - 27699200int) / 2048000int == 36int);
    assert(linear_to_srgb_spec(18498) == 36);
}
/// Round trip at byte value 37.
#[verifier::spinoff_prover]
proof fn case_37()
    ensures
        linear_to_srgb_spec(srgb_to_linear_spec(37)) == 37,
{
    let a = 40 * 37 + 561int;
    assert(a * a == 4165681int) by (nonlinear_arith)
        requires
            a == 2041,
    ;
    assert(4165681int * 0x10000000000000000000000000int == 5280628020009330881456188105273901056int) by (nonlinear_arith);
    assert(a * a * 0x10000000000000000000000000int == 5280628020009330881456188105273901056int);
    assert(5280628020009330881456188105273901056int / 115799121int == 45601624385467752224614797423int);
    assert(pow(539257int, 5) <= 45601624385467752224614797423int < pow(539257int + 1, 5)) by {
        reveal_with_fuel(pow, 6);
    }
    crate::roots::lemma_iroot_unique(45601624385467752224614797423int, 5, 539257int);
    assert(4165681int * 539257int == 2246372639017int) by (nonlinear_arith);
    assert(a * a * 539257int == 2246372639017int);
    assert(2246372639017int / 115799121int == 19398int);
    assert(srgb_to_linear_spec(37) == 19398);
    assert(19398int * 19398int == 376282404int) by (nonlinear_arith);
    assert(376282404int * 19398int == 7299126072792int) by (nonlinear_arith);
    assert(7299126072792int * 19398int == 141588447560019216int) by (nonlinear_arith);
    assert(141588447560019216int * 19398int == 2746532705769252751968int) by (nonlinear_arith);
    assert(2746532705769252751968int * 1048576int == 2879948278484699973647597568int) by (nonlinear_arith);
    assert(pow(194int, 12) <= 2879948278484699973647597568int < pow(194int + 1, 12)) by {
        reveal_with_fuel(pow, 13);
    }
    crate::roots::lemma_iroot_unique(2879948278484699973647597568int, 12, 194int);
    assert(538050int * 194int == 104381700int) by (nonlinear_arith);
    assert((104381700int - 27699200int) / 2048000int == 37int);
    assert(linear_to_srgb_spec(19398) == 37);
}
/// Round trip at byte value 38.
#[verifier::spinoff_prover]
proof fn case_38()
    ensures
        linear_to_srgb_spec(srgb_to_linear_spec(38)) == 38,
{
    let a = 40 * 38 + 561int;
    assert(a * a == 4330561int) by (nonlinear_arith)
        requires
            a == 2081,
    ;
    assert(4330561int * 0x10000000000000000000000000int == 5489638250974961345174964529776295936int) by (nonlinear_arith);
    assert(a * a * 0x10000000000000000000000000int == 5489638250974961345174964529776295936int);
    assert(5489638250974961345174964529776295936int / 115799121int == 47406562360477342010005106427int);
    assert(pow(543460int, 5) <= 47406562360477342010005106427int < pow(543460int + 1, 5)) by {
        reveal_with_fuel(pow, 6);
    }
    crate::roots::lemma_iroot_unique(47406562360477342010005106427int, 5, 543460int);
    assert(4330561int * 543460int == 2353486681060int) by (nonlinear_arith);
    assert(a * a * 543460int == 2353486681060int);
    assert(2353486681060int / 115799121int == 20323int);
    assert(srgb_to_linear_spec(38) == 20323);
    assert(20323int * 20323int == 413024329int) by (nonlinear_arith);
    assert(413024329int * 20323int == 8393893438267int) by (nonlinear_arith);
    assert(8393893438267int * 20323int == 170589096345900241int) by (nonlinear_arith);
    assert(170589096345900241int * 20323int == 3466882205037730597843int) by (nonlinear_arith);
    assert(3466882205037730597843int * 1048576int == 3635289475029643399363821568int) by (nonlinear_arith);
    assert(pow(198int, 12) <= 3635289475029643399363821568int < pow(198int + 1, 12)) by {
        reveal_with_fuel(pow, 13);
    }
    crate::roots::lemma_iroot_unique(3635289475029643399363821568int, 12, 198int);
    assert(538050int * 198int == 106533900int) by (nonlinear_arith);
    assert((106533900int - 27699200int) / 2048000int == 38int);
    assert(linear_to_srgb_spec(20323) == 38);
}
/// Round trip at byte value 39.
#[verifier::spinoff_prover]
proof fn case_39()
    ensures
        linear_to_srgb_spec(srgb_to_linear_spec(39)) == 39,
{
    let a = 40 * 39 + 561int;
    assert(a * a == 4498641int) by (nonlinear_arith)
        requires
            a == 2121,
    ;
    assert(4498641int * 0x10000000000000000000000000int == 5702704963861322142978530404535894016int) by (nonlinear_arith);
    assert(a * a * 0x10000000000000000000000000int == 5702704963861322142978530404535894016int);
    assert(5702704963861322142978530404535894016int / 115799121int == 49246530669790853964932345251int);
    assert(pow(547614int, 5) <= 49246530669790853964932345251int < pow(547614int + 1, 5)) by {
        reveal_with_fuel(pow, 6);
    }
    crate::roots::lemma_iroot_unique(49246530669790853964932345251int, 5, 547614int);
    assert(4498641int * 547614int == 2463518792574int) by (nonlinear_arith);
    assert(a * a * 547614int == 2463518792574int);
    assert(2463518792574int / 115799121int == 21274int);
    assert(srgb_to_linear_spec(39) == 21274);
    assert(21274int * 21274int == 452583076int) by (nonlinear_arith);
    assert(452583076int * 21274int == 9628252358824int) by (nonlinear_arith);
    assert(9628252358824int * 21274int == 204831440681621776int) by (nonlinear_arith);
    assert(204831440681621776int * 21274int == 4357584069060821662624int) by (nonlinear_arith);
    assert(4357584069060821662624int * 1048576int == 4569258072799520135707623424int) by (nonlinear_arith);
    assert(pow(201int, 12) <= 4569258072799520135707623424int < pow(201int + 1, 12)) by {
        reveal_with_fuel(pow, 13);
    }
    crate::roots::lemma_iroot_unique(4569258072799520135707623424int, 12, 201int);
    assert(538050int * 201int == 108148050int) by (nonlinear_arith);
    assert((108148050int - 27699200int) / 2048000int == 39int);
    assert(linear_to_srgb_spec(21274) == 39);
}
/// Round trip at byte value 40.
#[verifier::spinoff_prover]
proof fn case_40()
    ensures
        linear_to_srgb_spec(srgb_to_linear_spec(40)) == 40,
{
    let a = 40 * 40 + 561int;
    assert(a * a == 4669921int) by (nonlinear_arith)
        requires
            a == 2161,
    ;
    assert(4669921int * 0x10000000000000000000000000int == 5919828158668413274866885729552695296int) by (nonlinear_arith);
    assert(a * a * 0x10000000000000000000000000int == 5919828158668413274866885729552695296int);
    assert(5919828158668413274866885729552695296int / 115799121int == 51121529313408288089396513895int);
    assert(pow(551722int, 5) <= 51121529313408288089396513895int < pow(551722int + 1, 5)) by {
        reveal_with_fuel(pow, 6);
    }
    crate::roots::lemma_iroot_unique(51121529313408288089396513895int, 5, 551722int);
    assert(4669921int * 551722int == 2576498153962int) by (nonlinear_arith);
    assert(a * a * 551722int == 2576498153962int);
    assert(2576498153962int / 115799121int == 22249int);
    assert(srgb_to_linear_spec(40) == 22249);
    assert(22249int * 22249int == 495018001int) by (nonlinear_arith);
    assert(495018001int * 22249int == 11013655504249int) by (nonlinear_arith);
    assert(11013655504249int * 22249int == 245042821314036001int) by (nonlinear_arith);
    assert(245042821314036001int * 22249int == 5451957731415986986249int) by (nonlinear_arith);
    assert(5451957731415986986249int * 1048576int == 5716792030177249970093031424int) by (nonlinear_arith);
    assert(pow(205int, 12) <= 5716792030177249970093031424int < pow(205int + 1, 12)) by {
        reveal_with_fuel(pow, 13);
    }
    crate::roots::lemma_iroot_unique(5716792030177249970093031424int, 12, 205int);
    assert(538050int * 205int == 110300250int) by (nonlinear_arith);
    assert((110300250int - 27699200int) / 2048000int == 40int);
    assert(linear_to_srgb_spec(22249) == 40);
}
/// Round trip at byte value 41.
#[verifier::spinoff_prover]
proof fn case_41()
    ensures
        linear_to_srgb_spec(srgb_to_linear_spec(41)) == 41,
{
    let a = 40 * 41 + 561int;
    assert(a * a == 4844401int) by (nonlinear_arith)
        requires
            a == 2201,
    ;
    assert(4844401int * 0x10000000000000000000000000int == 6141007835396234740840030504826699776int) by (nonlinear_arith);
    assert(a * a * 0x10000000000000000000000000int == 6141007835396234740840030504826699776int);
    assert(6141007835396234740840030504826699776int / 115799121int == 53031558291329644383397612360int);
    assert(pow(555785int, 5) <= 53031558291329644383397612360int < pow(555785int + 1, 5)) by {
        reveal_with_fuel(pow, 6);
    }
    crate::roots::lemma_iroot_unique(53031558291329644383397612360int, 5, 555785int);
    assert(4844401int * 555785int == 2692445409785int) by (nonlinear_arith);
    assert(a * a * 555785int == 2692445409785int);
    assert(2692445409785int / 115799121int == 23251int);
    assert(srgb_to_linear_spec(41) == 23251);
    assert(23251int * 23251int == 540609001int) by (nonlinear_arith);
    assert(540609001int * 23251int == 12569699882251int) by (nonlinear_arith);
    assert(12569699882251int * 23251int == 292258091962218001int) by (nonlinear_arith);
    assert(292258091962218001int * 23251int == 6795292896213530741251int) by (nonlinear_arith);
    assert(6795292896213530741251int * 1048576int == 7125381043939999210538008576int) by (nonlinear_arith);
    assert(pow(209int, 12) <= 7125381043939999210538008576int < pow(209int + 1, 12)) by {
        reveal_with_fuel(pow, 13);
    }
    crate::roots::lemma_iroot_unique(7125381043939999210538008576int, 12, 209int);
    assert(538050int * 209int == 112452450int) by (nonlinear_arith);
    assert((112452450int - 27699200int) / 2048000int == 41int);
    assert(linear_to_srgb_spec(23251) == 41);
}
/// Round trip at byte value 42.
#[verifier::spinoff_prover]
proof fn case_42()
    ensures
        linear_to_srgb_spec(srgb_to_linear_spec(42)) == 42,
{
    let a = 40 * 42 + 561int;
    assert(a * a == 5022081int) by (nonlinear_arith)
        requires
            a == 2241,
    ;
    assert(5022081int * 0x10000000000000000000000000int == 6366243994044786540897964730357907456int) by (nonlinear_arith);
    assert(a * a * 0x10000000000000000000000000int == 6366243994044786540897964730357907456int);
    assert(6366243994044786540897964730357907456int / 115799121int == 54976617603554922846935640645int);
    assert(pow(559803int, 5) <= 54976617603554922846935640645int < pow(559803int + 1, 5)) by {
        reveal_with_fuel(pow, 6);
    }
    crate::roots::lemma_iroot_unique(54976617603554922846935640645int, 5, 559803int);
    assert(5022081int * 559803int == 2811376010043int) by (nonlinear_arith);
    assert(a * a * 559803int == 2811376010043int);
    assert(2811376010043int / 115799121int == 24278int);
    assert(srgb_to_linear_spec(42) == 24278);
    assert(24278int * 24278int == 589421284int) by (nonlinear_arith);
    assert(589421284int * 24278int == 14309969932952int) by (nonlinear_arith);
    assert(14309969932952int * 24278int == 347417450032208656int) by (nonlinear_arith);
    assert(347417450032208656int * 24278int == 8434600851881961750368int) by (nonlinear_arith);
    assert(8434600851881961750368int * 1048576int == 8844320022862979924353875968int) by (nonlinear_arith);
    assert(pow(213int, 12) <= 8844320022862979924353875968int < pow(213int + 1, 12)) by {
        reveal_with_fuel(pow, 13);
    }
    crate::roots::lemma_iroot_unique(8844320022862979924353875968int, 12, 213int);
    assert(538050int * 213int == 114604650int) by (nonlinear_arith);
    assert((114604650int - 27699200int) / 2048000int == 42int);
    assert(linear_to_srgb_spec(24278) == 42);
}
/// Round trip at byte value 43.
#[verifier::spinoff_prover]
proof fn case_43()
    ensures
        linear_to_srgb_spec(srgb_to_linear_spec(43)) == 43,
{
    let a = 40 * 43 + 561int;
    assert(a * a == 5202961int) by (nonlinear_arith)
        requires
            a == 2281,
    ;
    assert(5202961int * 0x10000000000000000000000000int == 6595536634614068675040688406146318336int) by (nonlinear_arith);
    assert(a * a * 0x10000000000000000000000000int == 6595536634614068675040688406146318336int);
    assert(6595536634614068675040688406146318336int / 115799121int == 56956707250084123480010598751int);
    assert(pow(563779int, 5) <= 56956707250084123480010598751int < pow(563779int + 1, 5)) by {
        reveal_with_fuel(pow, 6);
    }
    crate::roots::lemma_iroot_unique(56956707250084123480010598751int, 5, 563779int);
    assert(5202961int * 563779int == 2933320149619int) by (nonlinear_arith);
    assert(a * a * 563779int == 2933320149619int);
    assert(2933320149619int / 115799121int == 25331int);
    assert(srgb_to_linear_spec(43) == 25331);
    assert(25331int * 25331int == 641659561int) by (nonlinear_arith);
    assert(641659561int * 25331int == 16253878339691int) by (nonlinear_arith);
    assert(16253878339691int * 25331int == 411726992222712721int) by (nonlinear_arith);
    assert(411726992222712721int * 25331int == 10429456439993535935651int) by (nonlinear_arith);
    assert(10429456439993535935651int * 1048576int == 10936077716022661937261182976int) by (nonlinear_arith);
    assert(pow(217int, 12) <= 10936077716022661937261182976int < pow(217int + 1, 12)) by {
        reveal_with_fuel(pow, 13);
    }
    crate::roots::lemma_iroot_unique(10936077716022661937261182976int, 12, 217int);
    assert(538050int * 217int == 116756850int) by (nonlinear_arith);
    assert((116756850int - 27699200int) / 2048000int == 43int);
    assert(linear_to_srgb_spec(25331) == 43);
}
/// Round trip at byte value 44.
#[verifier::spinoff_prover]
proof fn case_44()
    ensures
        linear_to_srgb_spec(srgb_to_linear_spec(44)) == 44,
{
    let a = 40 * 44 + 561int;
    assert(a * a == 5387041int) by (nonlinear_arith)
        requires
            a == 2321,
    ;
    assert(5387041int * 0x10000000000000000000000000int == 6828885757104081143268201532191932416int) by (nonlinear_arith);
    assert(a * a * 0x10000000000000000000000000int == 6828885757104081143268201532191932416int);
    assert(6828885757104081143268201532191932416int / 115799121int == 58971827230917246282622486678int);
    assert(pow(567713int, 5) <= 58971827230917246282622486678int < pow(567713int + 1, 5)) by {
        reveal_with_fuel(pow, 6);
    }
    crate::roots::lemma_iroot_unique(58971827230917246282622486678int, 5, 567713int);
    assert(5387041int * 567713int == 3058293207233int) by (nonlinear_arith);
    assert(a * a * 567713int == 3058293207233int);
    assert(3058293207233int / 115799121int == 26410int);
    assert(srgb_to_linear_spec(44) == 26410);
    assert(26410int * 26410int == 697488100int) by (nonlinear_arith);
    assert(697488100int * 26410int == 18420660721000int) by (nonlinear_arith);
    assert(18420660721000int * 26410int == 486489649641610000int) by (nonlinear_arith);
    assert(486489649641610000int * 26410int == 12848191647034920100000int) by (nonlinear_arith);
    assert(12848191647034920100000int * 1048576int == 13472305404481288378777600000int) by (nonlinear_arith);
    assert(pow(220int, 12) <= 13472305404481288378777600000int < pow(220int + 1, 12)) by {
        reveal_with_fuel(pow, 13);
    }
    crate::roots::lemma_iroot_unique(13472305404481288378777600000int, 12, 220int);
    assert(538050int * 220int == 118371000int) by (nonlinear_arith);
    assert((118371000int - 27699200int) / 2048000int == 44int);
    assert(linear_to_srgb_spec(26410) == 44);
}
/// Round trip at byte value 45.
#[verifier::spinoff_prover]
proof fn case_45()
    ensures
        linear_to_srgb_spec(srgb_to_linear_spec(45)) == 45,
{
    let a = 40 * 45 + 561int;
    assert(a * a == 5574321int) by (nonlinear_arith)
        requires
            a == 2361,
    ;
    assert(5574321int * 0x10000000000000000000000000int == 7066291361514823945580504108494749696int) by (nonlinear_arith);
    assert(a * a * 0x10000000000000000000000000int == 7066291361514823945580504108494749696int);
    assert(7066291361514823945580504108494749696int / 115799121int == 61021977546054291254771304425int);
    assert(pow(571606int, 5) <= 61021977546054291254771304425int < pow(571606int + 1, 5)) by {
        reveal_with_fuel(pow, 6);
    }
    crate::roots::lemma_iroot_unique(61021977546054291254771304425int, 5, 571606int);
    assert(5574321int * 571606int == 3186315329526int) by (nonlinear_arith);
    assert(a * a * 571606int == 3186315329526int);
    assert(3186315329526int / 115799121int == 27515int);
    assert(srgb_to_linear_spec(45) == 27515);
    assert(27515int * 27515int == 757075225int) by (nonlinear_arith);
    assert(757075225int * 27515int == 20830924815875int) by (nonlinear_arith);
    assert(20830924815875int * 27515int == 573162896308800625int) by (nonlinear_arith);
    assert(573162896308800625int * 27515int == 15770577091936649196875int) by (nonlinear_arith);
    assert(15770577091936649196875int * 1048576int == 16536648644754563868262400000int) by (nonlinear_arith);
    assert(pow(224int, 12) <= 16536648644754563868262400000int < pow(224int + 1, 12)) by {
        reveal_with_fuel(pow, 13);
    }
    crate::roots::lemma_iroot_unique(16536648644754563868262400000int, 12, 224int);
    assert(538050int * 224int == 120523200int) by (nonlinear_arith);
    assert((120523200int - 27699200int) / 2048000int == 45int);
    assert(linear_to_srgb_spec(27515) == 45);
}
/// Round trip at byte value 46.
#[verifier::spinoff_prover]
proof fn case_46()
    ensures
        linear_to_srgb_spec(srgb_to_linear_spec(46)) == 46,
{
    let a = 40 * 46 + 561int;
    assert(a * a == 5764801int) by (nonlinear_arith)
        requires
            a == 2401,
    ;
    assert(5764801int * 0x10000000000000000000000000int == 7307753447846297081977596135054770176int) by (nonlinear_arith);
    assert(a * a * 0x10000000000000000000000000int == 7307753447846297081977596135054770176int);
    assert(7307753447846297081977596135054770176int / 115799121int == 63107158195495258396457051993int);
    assert(pow(575460int, 5) <= 63107158195495258396457051993int < pow(575460int + 1, 5)) by {
        reveal_with_fuel(pow, 6);
    }
    crate::roots::lemma_iroot_unique(63107158195495258396457051993int, 5, 575460int);
    assert(5764801int * 575460int == 3317412383460int) by (nonlinear_arith);
    assert(a * a * 575460int == 3317412383460int);
    assert(3317412383460int / 115799121int == 28647int);
    assert(srgb_to_linear_spec(46) == 28647);
    assert(28647int * 28647int == 820650609int) by (nonlinear_arith);
    assert(820650609int * 28647int == 23509177996023int) by (nonlinear_arith);
    assert(23509177996023int * 28647int == 673467422052070881int) by (nonlinear_arith);
    assert(673467422052070881int * 28647int == 19292821239525674528007int) by (nonlinear_arith);
    assert(19292821239525674528007int * 1048576int == 20229989324056873693879468032int) by (nonlinear_arith);
    assert(pow(228int, 12) <= 20229989324056873693879468032int < pow(228int + 1, 12)) by {
        reveal_with_fuel(pow, 13);
    }
    crate::roots::lemma_iroot_unique(20229989324056873693879468032int, 12, 228int);
    assert(538050int * 228int == 122675400int) by (nonlinear_arith);
    assert((122675400int - 27699200int) / 2048000int == 46int);
    assert(linear_to_srgb_spec(28647) == 46);
}
/// Round trip at byte value 47.
#[verifier::spinoff_prover]
proof fn case_47()
    ensures
        linear_to_srgb_spec(srgb_to_linear_spec(47)) == 47,
{
    let a = 40 * 47 + 561int;
    assert(a * a == 5958481int) by (nonlinear_arith)
        requires
            a == 2441,
    ;
    assert(5958481int * 0x10000000000000000000000000int == 7553272016098500552459477611871993856int) by (nonlinear_arith);
    assert(a * a * 0x10000000000000000000000000int == 7553272016098500552459477611871993856int);
    assert(7553272016098500552459477611871993856int / 115799121int == 65227369179240147707679729381int);
    assert(pow(579276int, 5) <= 65227369179240147707679729381int < pow(579276int + 1, 5)) by {
        reveal_with_fuel(pow, 6);
    }
    crate::roots::lemma_iroot_unique(65227369179240147707679729381int, 5, 579276int);
    assert(5958481int * 579276int == 3451605039756int) by (nonlinear_arith);
    assert(a * a * 579276int == 3451605039756int);
    assert(3451605039756int / 115799121int == 29806int);
    assert(srgb_to_linear_spec(47) == 29806);
    assert(29806int * 29806int == 888397636int) by (nonlinear_arith);
    assert(888397636int * 29806int == 26479579938616int) by (nonlinear_arith);
    assert(26479579938616int * 29806int == 789250359650388496int) by (nonlinear_arith);
    assert(789250359650388496int * 29806int == 23524396219739479511776int) by (nonlinear_arith);
    assert(23524396219739479511776int * 1048576int == 24667117290509544468540030976int) by (nonlinear_arith);
    assert(pow(232int, 12) <= 24667117290509544468540030976int < pow(232int + 1, 12)) by {
        reveal_with_fuel(pow, 13);
    }
    crate::roots::lemma_iroot_unique(24667117290509544468540030976int, 12, 232int);
    assert(538050int * 232int == 124827600int) by (nonlinear_arith);
    assert((124827600int - 27699200int) / 2048000int == 47int);
    assert(linear_to_srgb_spec(29806) == 47);
}
/// Round trip at byte value 48.
#[verifier::spinoff_prover]
proof fn case_48()
    ensures
        linear_to_srgb_spec(srgb_to_linear_spec(48)) == 48,
{
    let a = 40 * 48 + 561int;
    assert(a * a == 6155361int) by (nonlinear_arith)
        requires
            a == 2481,
    ;
    assert(6155361int * 0x10000000000000000000000000int == 7802847066271434357026148538946420736int) by (nonlinear_arith);
    assert(a * a * 0x10000000000000000000000000int == 7802847066271434357026148538946420736int);
    assert(7802847066271434357026148538946420736int / 115799121int == 67382610497288959188439336590int);
    assert(pow(583055int, 5) <= 67382610497288959188439336590int < pow(583055int + 1, 5)) by {
        reveal_with_fuel(pow, 6);
    }
    crate::roots::lemma_iroot_unique(67382610497288959188439336590int, 5, 583055int);
    assert(6155361int * 583055int == 3588914007855int) by (nonlinear_arith);
    assert(a * a * 583055int == 3588914007855int);
    assert(3588914007855int / 115799121int == 30992int);
    assert(srgb_to_linear_spec(48) == 30992);
    assert(30992int * 30992int == 960504064int) by (nonlinear_arith);
    assert(960504064int * 30992int == 29767941951488int) by (nonlinear_arith);
    assert(29767941951488int * 30992int == 922568056960516096int) by (nonlinear_arith);
    assert(922568056960516096int * 30992int == 28592229221320314847232int) by (nonlinear_arith);
    assert(28592229221320314847232int * 1048576int == 29981125347975170461251141632int) by (nonlinear_arith);
    assert(pow(236int, 12) <= 29981125347975170461251141632int < pow(236int + 1, 12)) by {
        reveal_with_fuel(pow, 13);
    }
    crate::roots::lemma_iroot_unique(29981125347975170461251141632int, 12, 236int);
    assert(538050int * 236int == 126979800int) by (nonlinear_arith);
    assert((126979800int - 27699200int) / 2048000int == 48int);
    assert(linear_to_srgb_spec(30992) == 48);
}
/// Round trip at byte value 49.
#[verifier::spinoff_prover]
proof fn case_49()
    ensures
        linear_to_srgb_spec(srgb_to_linear_spec(49)) == 49,
{
    let a = 40 * 49 + 561int;
    assert(a * a == 6355441int) by (nonlinear_arith)
        requires
            a == 2521,
    ;
    assert(6355441int * 0x10000000000000000000000000int == 8056478598365098495677608916278050816int) by (nonlinear_arith);
    assert(a * a * 0x10000000000000000000000000int == 8056478598365098495677608916278050816int);
    assert(8056478598365098495677608916278050816int / 115799121int == 69572882149641692838735873619int);
    assert(pow(586797int, 5) <= 69572882149641692838735873619int < pow(586797int + 1, 5)) by {
        reveal_with_fuel(pow, 6);
    }
    crate::roots::lemma_iroot_unique(69572882149641692838735873619int, 5, 586797int);
    assert(6355441int * 586797int == 3729353712477int) by (nonlinear_arith);
    assert(a * a * 586797int == 3729353712477int);
    assert(3729353712477int / 115799121int == 32205int);
    assert(srgb_to_linear_spec(49) == 32205);
    assert(32205int * 32205int == 1037162025int) by (nonlinear_arith);
    assert(1037162025int * 32205int == 33401803015125int) by (nonlinear_arith);
    assert(33401803015125int * 32205int == 1075705066102100625int) by (nonlinear_arith);
    assert(1075705066102100625int * 32205int == 34643081653818150628125int) by (nonlinear_arith);
    assert(34643081653818150628125int * 1048576int == 36325903988234021113036800000int) by (nonlinear_arith);
    assert(pow(239int, 12) <= 36325903988234021113036800000int < pow(239int + 1, 12)) by {
        reveal_with_fuel(pow, 13);
    }
    crate::roots::lemma_iroot_unique(36325903988234021113036800000int, 12, 239int);
    assert(538050int * 239int == 128593950int) by (nonlinear_arith);
    assert((128593950int - 27699200int) / 2048000int == 49int);
    assert(linear_to_srgb_spec(32205) == 49);
}
/// Round trip at byte value 50.
#[verifier::spinoff_prover]
proof fn case_50()
    ensures
        linear_to_srgb_spec(srgb_to_linear_spec(50)) == 50,
{
    let a = 40 * 50 + 561int;
    assert(a * a == 6558721int) by (nonlinear_arith)
        requires
            a == 2561,
    ;
    assert(6558721int * 0x10000000000000000000000000int == 8314166612379492968413858743866884096int) by (nonlinear_arith);
    assert(a * a * 0x10000000000000000000000000int == 8314166612379492968413858743866884096int);
    assert(8314166612379492968413858743866884096int / 115799121int == 71798184136298348658569340469int);
    assert(pow(590503int, 5) <= 71798184136298348658569340469int < pow(590503int + 1, 5)) by {
        reveal_with_fuel(pow, 6);
    }
    crate::roots::lemma_iroot_unique(71798184136298348658569340469int, 5, 590503int);
    assert(6558721int * 590503int == 3872944426663int) by (nonlinear_arith);
    assert(a * a * 590503int == 3872944426663int);
    assert(3872944426663int / 115799121int == 33445int);
    assert(srgb_to_linear_spec(50) == 33445);
    assert(33445int * 33445int == 1118568025int) by (nonlinear_arith);
    assert(1118568025int * 33445int == 37410507596125int) by (nonlinear_arith);
    assert(37410507596125int * 33445int == 1251194426552400625int) by (nonlinear_arith);
    assert(1251194426552400625int * 33445int == 41846197596045038903125int) by (nonlinear_arith);
    assert(41846197596045038903125int * 1048576int == 43878918490470522712883200000int) by (nonlinear_arith);
    assert(pow(243int, 12) <= 43878918490470522712883200000int < pow(243int + 1, 12)) by {
        reveal_with_fuel(pow, 13);
    }
    crate::roots::lemma_iroot_unique(43878918490470522712883200000int, 12, 243int);
    assert(538050int * 243int == 130746150int) by (nonlinear_arith);
    assert((130746150int - 27699200int) / 2048000int == 50int);
    assert(linear_to_srgb_spec(33445) == 50);
}
/// Round trip at byte value 51.
#[verifier::spinoff_prover]
proof fn case_51()
    ensures
        linear_to_srgb_spec(srgb_to_linear_spec(51)) == 51,
{
    let a = 40 * 51 + 561int;
    assert(a * a == 6765201int) by (nonlinear_arith)
        requires
            a == 2601,
    ;
    assert(6765201int * 0x10000000000000000000000000int == 8575911108314617775234898021712920576int) by (nonlinear_arith);
    assert(a * a * 0x10000000000000000000000000int == 8575911108314617775234898021712920576int);
    assert(8575911108314617775234898021712920576int / 115799121int == 74058516457258926647939737139int);
    assert(pow(594175int, 5) <= 74058516457258926647939737139int < pow(594175int + 1, 5)) by {
        reveal_with_fuel(pow, 6);
    }
    crate::roots::lemma_iroot_unique(74058516457258926647939737139int, 5, 594175int);
    assert(6765201int * 594175int == 4019713304175int) by (nonlinear_arith);
    assert(a * a * 594175int == 4019713304175int);
    assert(4019713304175int / 115799121int == 34712int);
    assert(srgb_to_linear_spec(51) == 34712);
    assert(34712int * 34712int == 1204922944int) by (nonlinear_arith);
    assert(1204922944int * 34712int == 41825285232128int) by (nonlinear_arith);
    assert(41825285232128int * 34712int == 1451839300977627136int) by (nonlinear_arith);
    assert(1451839300977627136int * 34712int == 50396245815535393144832int) by (nonlinear_arith);
    assert(50396245815535393144832int * 1048576int == 52844293852270840402235359232int) by (nonlinear_arith);
    assert(pow(247int, 12) <= 52844293852270840402235359232int < pow(247int + 1, 12)) by {
        reveal_with_fuel(pow, 13);
    }
    crate::roots::lemma_iroot_unique(52844293852270840402235359232int, 12, 247int);
    assert(538050int * 247int == 132898350int) by (nonlinear_arith);
    assert((132898350int - 27699200int) / 2048000int == 51int);
    assert(linear_to_srgb_spec(34712) == 51);
}
/// Round trip at byte value 52.
#[verifier::spinoff_prover]
proof fn case_52()
    ensures
        linear_to_srgb_spec(srgb_to_linear_spec(52)) == 52,
{
    let a = 40 * 52 + 561int;
    assert(a * a == 6974881int) by (nonlinear_arith)
        requires
            a == 2641,
    ;
    assert(6974881int * 0x10000000000000000000000000int == 8841712086170472916140726749816160256int) by (nonlinear_arith);
    assert(a * a * 0x10000000000000000000000000int == 8841712086170472916140726749816160256int);
    assert(8841712086170472916140726749816160256int / 115799121int == 76353879112523426806847063630int);
    assert(pow(597814int, 5) <= 76353879112523426806847063630int < pow(597814int + 1, 5)) by {
        reveal_with_fuel(pow, 6);
    }
    crate::roots::lemma_iroot_unique(76353879112523426806847063630int, 5, 597814int);
    assert(6974881int * 597814int == 4169681510134int) by (nonlinear_arith);
    assert(a * a * 597814int == 4169681510134int);
    assert(4169681510134int / 115799121int == 36007int);
    assert(srgb_to_linear_spec(52) == 36007);
    assert(36007int * 36007int == 1296504049int) by (nonlinear_arith);
    assert(1296504049int * 36007int == 46683221292343int) by (nonlinear_arith);
    assert(46683221292343int * 36007int == 1680922749073394401int) by (nonlinear_arith);
    assert(1680922749073394401int * 36007int == 60524985425885712196807int) by (nonlinear_arith);
    assert(60524985425885712196807int * 1048576int == 63465047117933536552479096832int) by (nonlinear_arith);
    assert(pow(251int, 12) <= 63465047117933536552479096832int < pow(251int + 1, 12)) by {
        reveal_with_fuel(pow, 13);
    }
    crate::roots::lemma_iroot_unique(63465047117933536552479096832int, 12, 251int);
    assert(538050int * 251int == 135050550int) by (nonlinear_arith);
    assert((135050550int - 27699200int) / 2048000int == 52int);
    assert(linear_to_srgb_spec(36007) == 52);
}
/// Round trip at byte value 53.
#[verifier::spinoff_prover]
proof fn case_53()
    ensures
        linear_to_srgb_spec(srgb_to_linear_spec(53)) == 53,
{
    let a = 40 * 53 + 561int;
    assert(a * a == 7187761int) by (nonlinear_arith)
        requires
            a == 2681,
    ;
    assert(7187761int * 0x10000000000000000000000000int == 9111569545947058391131344928176603136int) by (nonlinear_arith);
    assert(a * a * 0x10000000000000000000000000int == 9111569545947058391131344928176603136int);
    assert(9111569545947058391131344928176603136int / 115799121int == 78684272102091849135291319941int);
    assert(pow(601419int, 5) <= 78684272102091849135291319941int < pow(601419int + 1, 5)) by {
        reveal_with_fuel(pow, 6);
    }
    crate::roots::lemma_iroot_unique(78684272102091849135291319941int, 5, 601419int);
    assert(7187761int * 601419int == 4322856032859int) by (nonlinear_arith);
    assert(a * a * 601419int == 4322856032859int);
    assert(4322856032859int / 115799121int == 37330int);
    assert(srgb_to_linear_spec(53) == 37330);
    assert(37330int * 37330int == 1393528900int) by (nonlinear_arith);
    assert(1393528900int * 37330int == 52020433837000int) by (nonlinear_arith);
    assert(52020433837000int * 37330int == 1941922795135210000int) by (nonlinear_arith);
    assert(1941922795135210000int * 37330int == 72491977942397389300000int) by (nonlinear_arith);
    assert(72491977942397389300000int * 1048576int == 76013348262927284882636800000int) by (nonlinear_arith);
    assert(pow(255int, 12) <= 76013348262927284882636800000int < pow(255int + 1, 12)) by {
        reveal_with_fuel(pow, 13);
    }
    crate::roots::lemma_iroot_unique(76013348262927284882636800000int, 12, 255int);
    assert(538050int * 255int == 137202750int) by (nonlinear_arith);
    assert((137202750int - 27699200int) / 2048000int == 53int);
    assert(linear_to_srgb_spec(37330) == 53);
}
/// Round trip at byte value 54.
#[verifier::spinoff_prover]
proof fn case_54()
    ensures
        linear_to_srgb_spec(srgb_to_linear_spec(54)) == 54,
{
    let a = 40 * 54 + 561int;
    assert(a * a == 7403841int) by (nonlinear_arith)
        requires
            a == 2721,
    ;
    assert(7403841int * 0x10000000000000000000000000int == 9385483487644374200206752556794249216int) by (nonlinear_arith);
    assert(a * a * 0x10000000000000000000000000int == 9385483487644374200206752556794249216int);
    assert(9385483487644374200206752556794249216int / 115799121int == 81049695425964193633272506073int);
    assert(pow(604992int, 5) <= 81049695425964193633272506073int < pow(604992int + 1, 5)) by {
        reveal_with_fuel(pow, 6);
    }
    crate::roots::lemma_iroot_unique(81049695425964193633272506073int, 5, 604992int);
    assert(7403841int * 604992int == 4479264574272int) by (nonlinear_arith);
    assert(a * a * 604992int == 4479264574272int);
    assert(4479264574272int / 115799121int == 38681int);
    assert(srgb_to_linear_spec(54) == 38681);
    assert(38681int * 38681int == 1496219761int) by (nonlinear_arith);
    assert(1496219761int * 38681int == 57875276575241int) by (nonlinear_arith);
    assert(57875276575241int * 38681int == 2238673573206897121int) by (nonlinear_arith);
    assert(2238673573206897121int * 38681int == 86594132485215987537401int) by (nonlinear_arith);
    assert(86594132485215987537401int * 1048576int == 90800529064817839348017790976int) by (nonlinear_arith);
    assert(pow(258int, 12) <= 90800529064817839348017790976int < pow(258int + 1, 12)) by {
        reveal_with_fuel(pow, 13);
    }
    crate::roots::lemma_iroot_unique(90800529064817839348017790976int, 12, 258int);
    assert(538050int * 258int == 138816900int) by (nonlinear_arith);
    assert((138816900int - 27699200int) / 2048000int == 54int);
    assert(linear_to_srgb_spec(38681) == 54);
}
/// Round trip at byte value 55.
#[verifier::spinoff_prover]
proof fn case_55()
    ensures
        linear_to_srgb_spec(srgb_to_linear_spec(55)) == 55,
{
    let a = 40 * 55 + 561int;
    assert(a * a == 7623121int) by (nonlinear_arith)
        requires
            a == 2761,
    ;
    assert(7623121int * 0x10000000000000000000000000int == 9663453911262420343366949635669098496int) by (nonlinear_arith);
    assert(a * a * 0x10000000000000000000000000int == 9663453911262420343366949635669098496int);
    assert(9663453911262420343366949635669098496int / 115799121int == 83450149084140460300790622026int);
    assert(pow(608534int, 5) <= 83450149084140460300790622026int < pow(608534int + 1, 5)) by {
        reveal_with_fuel(pow, 6);
    }
    crate::roots::lemma_iroot_unique(83450149084140460300790622026int, 5, 608534int);
    assert(7623121int * 608534int == 4638928314614int) by (nonlinear_arith);
    assert(a * a * 608534int == 4638928314614int);
    assert(4638928314614int / 115799121int == 40060int);
    assert(srgb_to_linear_spec(55) == 40060);
    assert(40060int * 40060int == 1604803600int) by (nonlinear_arith);
    assert(1604803600int * 40060int == 64288432216000int) by (nonlinear_arith);
    assert(64288432216000int * 40060int == 2575394594572960000int) by (nonlinear_arith);
    assert(2575394594572960000int * 40060int == 103170307458592777600000int) by (nonlinear_arith);
    assert(103170307458592777600000int * 1048576int == 108181908313701380364697600000int) by (nonlinear_arith);
    assert(pow(262int, 12) <= 108181908313701380364697600000int < pow(262int + 1, 12)) by {
        reveal_with_fuel(pow, 13);
    }
    crate::roots::lemma_iroot_unique(108181908313701380364697600000int, 12, 262int);
    assert(538050int * 262int == 140969100int) by (nonlinear_arith);
    assert((140969100int - 27699200int) / 2048000int == 55int);
    assert(linear_to_srgb_spec(40060) == 55);
}
/// Round trip at byte value 56.
#[verifier::spinoff_prover]
proof fn case_56()
    ensures
        linear_to_srgb_spec(srgb_to_linear_spec(56)) == 56,
{
    let a = 40 * 56 + 561int;
    assert(a * a == 7845601int) by (nonlinear_arith)
        requires
            a == 2801,
    ;
    assert(7845601int * 0x10000000000000000000000000int == 9945480816801196820611936164801150976int) by (nonlinear_arith);
    assert(a * a * 0x10000000000000000000000000int == 9945480816801196820611936164801150976int);
    assert(9945480816801196820611936164801150976int / 115799121int == 85885633076620649137845667799int);
    assert(pow(612046int, 5) <= 85885633076620649137845667799int < pow(612046int + 1, 5)) by {
        reveal_with_fuel(pow, 6);
    }
    crate::roots::lemma_iroot_unique(85885633076620649137845667799int, 5, 612046int);
    assert(7845601int * 612046int == 4801868709646int) by (nonlinear_arith);
    assert(a * a * 612046int == 4801868709646int);
    assert(4801868709646int / 115799121int == 41467int);
    assert(srgb_to_linear_spec(56) == 41467);
    assert(41467int * 41467int == 1719512089int) by (nonlinear_arith);
    assert(1719512089int * 41467int == 71303007794563int) by (nonlinear_arith);
    assert(71303007794563int * 41467int == 2956721824217143921int) by (nonlinear_arith);
    assert(2956721824217143921int * 41467int == 122606383884812306972107int) by (nonlinear_arith);
    assert(122606383884812306972107int * 1048576int == 128562111588400949595584069632int) by (nonlinear_arith);
    assert(pow(266int, 12) <= 128562111588400949595584069632int < pow(266int + 1, 12)) by {
        reveal_with_fuel(pow, 13);
    }
    crate::roots::lemma_iroot_unique(128562111588400949595584069632int, 12, 266int);
    assert(538050int * 266int == 143121300int) by (nonlinear_arith);
    assert((143121300int - 27699200int) / 2048000int == 56int);
    assert(linear_to_srgb_spec(41467) == 56);
}
/// Round trip at byte value 57.
#[verifier::spinoff_prover]
proof fn case_57()
    ensures
        linear_to_srgb_spec(srgb_to_linear_spec(57)) == 57,
{
    let a = 40 * 57 + 561int;
    assert(a * a == 8071281int) by (nonlinear_arith)
        requires
            a == 2841,
    ;
    assert(8071281int * 0x10000000000000000000000000int == 10231564204260703631941712144190406656int) by (nonlinear_arith);
    assert(a * a * 0x10000000000000000000000000int == 10231564204260703631941712144190406656int);
    assert(10231564204260703631941712144190406656int / 115799121int == 88356147403404760144437643392int);
    assert(pow(615527int, 5) <= 88356147403404760144437643392int < pow(615527int + 1, 5)) by {
        reveal_with_fuel(pow, 6);
    }
    crate::roots::lemma_iroot_unique(88356147403404760144437643392int, 5, 615527int);
    assert(8071281int * 615527int == 4968091380087int) by (nonlinear_arith);
    assert(a * a * 615527int == 4968091380087int);
    assert(4968091380087int / 115799121int == 42902int);
    assert(srgb_to_linear_spec(57) == 42902);
    assert(42902int * 42902int == 1840581604int) by (nonlinear_arith);
    assert(1840581604int * 42902int == 78964631974808int) by (nonlinear_arith);
    assert(78964631974808int * 42902int == 3387740640983212816int) by (nonlinear_arith);
    assert(3387740640983212816int * 42902int == 145340848979461796232032int) by (nonlinear_arith);
    assert(145340848979461796232032int * 1048576int == 152400926059488132445799186432int) by (nonlinear_arith);
    assert(pow(270int, 12) <= 152400926059488132445799186432int < pow(270int + 1, 12)) by {
        reveal_with_fuel(pow, 13);
    }
    crate::roots::lemma_iroot_unique(152400926059488132445799186432int, 12, 270int);
    assert(538050int * 270int == 145273500int) by (nonlinear_arith);
    assert((145273500int - 27699200int) / 2048000int == 57int);
    assert(linear_to_srgb_spec(42902) == 57);
}
/// Round trip at byte value 58.
#[verifier::spinoff_prover]
proof fn case_58()
    ensures
        linear_to_srgb_spec(srgb_to_linear_spec(58)) == 58,
{
    let a = 40 * 58 + 561int;
    assert(a * a == 8300161int) by (nonlinear_arith)
        requires
            a == 2881,
    ;
    assert(8300161int * 0x10000000000000000000000000int == 10521704073640940777356277573836865536int) by (nonlinear_arith);
    assert(a * a * 0x10000000000000000000000000int == 10521704073640940777356277573836865536int);
    assert(10521704073640940777356277573836865536int / 115799121int == 90861692064492793320566548806int);
    assert(pow(618979int, 5) <= 90861692064492793320566548806int < pow(618979int + 1, 5)) by {
        reveal_with_fuel(pow, 6);
    }
    crate::roots::lemma_iroot_unique(90861692064492793320566548806int, 5, 618979int);
    assert(8300161int * 618979int == 5137625355619int) by (nonlinear_arith);
    assert(a * a * 618979int == 5137625355619int);
    assert(5137625355619int / 115799121int == 44366int);
    assert(srgb_to_linear_spec(58) == 44366);
    assert(44366int * 44366int == 1968341956int) by (nonlinear_arith);
    assert(1968341956int * 44366int == 87327459219896int) by (nonlinear_arith);
    assert(87327459219896int * 44366int == 3874370055749905936int) by (nonlinear_arith);
    assert(3874370055749905936int * 44366int == 171890301893400326756576int) by (nonlinear_arith);
    assert(171890301893400326756576int * 1048576int == 180240045198174141029103435776int) by (nonlinear_arith);
    assert(pow(274int, 12) <= 180240045198174141029103435776int < pow(274int + 1, 12)) by {
        reveal_with_fuel(pow, 13);
    }
    crate::roots::lemma_iroot_unique(180240045198174141029103435776int, 12, 274int);
    assert(538050int * 274int == 147425700int) by (nonlinear_arith);
    assert((147425700int - 27699200int) / 2048000int == 58int);
    assert(linear_to_srgb_spec(44366) == 58);
}
/// Round trip at byte value 59.
#[verifier::spinoff_prover]
proof fn case_59()
    ensures
        linear_to_srgb_spec(srgb_to_linear_spec(59)) == 59,
{
    let a = 40 * 59 + 561int;
    assert(a * a == 8532241int) by (nonlinear_arith)
        requires
            a == 2921,
    ;
    assert(8532241int * 0x10000000000000000000000000int == 10815900424941908256855632453740527616int) by (nonlinear_arith);
    assert(a * a * 0x10000000000000000000000000int == 10815900424941908256855632453740527616int);
    assert(10815900424941908256855632453740527616int / 115799121int == 93402267059884748666232384041int);
    assert(pow(622402int, 5) <= 93402267059884748666232384041int < pow(622402int + 1, 5)) by {
        reveal_with_fuel(pow, 6);
    }
    crate::roots::lemma_iroot_unique(93402267059884748666232384041int, 5, 622402int);
    assert(8532241int * 622402int == 5310483862882int) by (nonlinear_arith);
    assert(a * a * 622402int == 5310483862882int);
    assert(5310483862882int / 115799121int == 45859int);
    assert(srgb_to_linear_spec(59) == 45859);
    assert(45859int * 45859int == 2103047881int) by (nonlinear_arith);
    assert(2103047881int * 45859int == 96443672774779int) by (nonlinear_arith);
    assert(96443672774779int * 45859int == 4422810389778590161int) by (nonlinear_arith);
    assert(4422810389778590161int * 45859int == 202825661664856366193299int) by (nonlinear_arith);
    assert(202825661664856366193299int * 1048576int == 212678121005888429037504692224int) by (nonlinear_arith);
    assert(pow(277int, 12) <= 212678121005888429037504692224int < pow(277int + 1, 12)) by {
        reveal_with_fuel(pow, 13);
    }
    crate::roots::lemma_iroot_unique(212678121005888429037504692224int, 12, 277int);
    assert(538050int * 277int == 149039850int) by (nonlinear_arith);
    assert((149039850int - 27699200int) / 2048000int == 59int);
    assert(linear_to_srgb_spec(45859) == 59);
}
/// Round trip at byte value 60.
#[verifier::spinoff_prover]
proof fn case_60()
    ensures
        linear_to_srgb_spec(srgb_to_linear_spec(60)) == 60,
{
    let a = 40 * 60 + 561int;
    assert(a * a == 8767521int) by (nonlinear_arith)
        requires
            a == 2961,
    ;
    assert(8767521int * 0x10000000000000000000000000int == 11114153258163606070439776783901392896int) by (nonlinear_arith);
    assert(a * a * 0x10000000000000000000000000int == 11114153258163606070439776783901392896int);
    assert(11114153258163606070439776783901392896int / 115799121int == 95977872389580626181435149096int);
    assert(pow(625798int, 5) <= 95977872389580626181435149096int < pow(625798int + 1, 5)) by {
        reveal_with_fuel(pow, 6);
    }
    crate::roots::lemma_iroot_unique(95977872389580626181435149096int, 5, 625798int);
    assert(8767521int * 625798int == 5486697106758int) by (nonlinear_arith);
    assert(a * a * 625798int == 5486697106758int);
    assert(5486697106758int / 115799121int == 47381int);
    assert(srgb_to_linear_spec(60) == 47381);
    assert(47381int * 47381int == 2244959161int) by (nonlinear_arith);
    assert(2244959161int * 47381int == 106368410007341int) by (nonlinear_arith);
    assert(106368410007341int * 47381int == 5039841634557823921int) by (nonlinear_arith);
    assert(5039841634557823921int * 47381int == 238792736486984255200901int) by (nonlinear_arith);
    assert(238792736486984255200901int * 1048576int == 250392332454576002381539966976int) by (nonlinear_arith);
    assert(pow(281int, 12) <= 250392332454576002381539966976int < pow(281int + 1, 12)) by {
        reveal_with_fuel(pow, 13);
    }
    crate::roots::lemma_iroot_unique(250392332454576002381539966976int, 12, 281int);
    assert(538050int * 281int == 151192050int) by (nonlinear_arith);
    assert((151192050int - 27699200int) / 2048000int == 60int);
    assert(linear_to_srgb_spec(47381) == 60);
}
/// Round trip at byte value 61.
#[verifier::spinoff_prover]
proof fn case_61()
    ensures
        linear_to_srgb_spec(srgb_to_linear_spec(61)) == 61,
{
    let a = 40 * 61 + 561int;
    assert(a * a == 9006001int) by (nonlinear_arith)
        requires
            a == 3001,
    ;
    assert(9006001int * 0x10000000000000000000000000int == 11416462573306034218108710564319461376int) by (nonlinear_arith);
    assert(a * a * 0x10000000000000000000000000int == 11416462573306034218108710564319461376int);
    assert(11416462573306034218108710564319461376int / 115799121int == 98588508053580425866174843972int);
    assert(pow(629166int, 5) <= 98588508053580425866174843972int < pow(629166int + 1, 5)) by {
        reveal_with_fuel(pow, 6);
    }
    crate::roots::lemma_iroot_unique(98588508053580425866174843972int, 5, 629166int);
    assert(9006001int * 629166int == 5666269625166int) by (nonlinear_arith);
    assert(a * a * 629166int == 5666269625166int);
    assert(5666269625166int / 115799121int == 48931int);
    assert(srgb_to_linear_spec(61) == 48931);
    assert(48931int * 48931int == 2394242761int) by (nonlinear_arith);
    assert(2394242761int * 48931int == 117152692538491int) by (nonlinear_arith);
    assert(117152692538491int * 48931int == 5732398398600903121int) by (nonlinear_arith);
    assert(5732398398600903121int * 48931int == 280491986041940790613651int) by (nonlinear_arith);
    assert(280491986041940790613651int * 1048576int == 294117164755914106458499710976int) by (nonlinear_arith);
    assert(pow(285int, 12) <= 294117164755914106458499710976int < pow(285int + 1, 12)) by {
        reveal_with_fuel(pow, 13);
    }
    crate::roots::lemma_iroot_unique(294117164755914106458499710976int, 12, 285int);
    assert(538050int * 285int == 153344250int) by (nonlinear_arith);
    assert((153344250int - 27699200int) / 2048000int == 61int);
    assert(linear_to_srgb_spec(48931) == 61);
}
/// Round trip at byte value 62.
#[verifier::spinoff_prover]
proof fn case_62()
    ensures
        linear_to_srgb_spec(srgb_to_linear_spec(62)) == 62,
{
    let a = 40 * 62 + 561int;
    assert(a * a == 9247681int) by (nonlinear_arith)
        requires
            a == 3041,
    ;
    assert(9247681int * 0x10000000000000000000000000int == 11722828370369192699862433794994733056int) by (nonlinear_arith);
    assert(a * a * 0x10000000000000000000000000int == 11722828370369192699862433794994733056int);
    assert(11722828370369192699862433794994733056int / 115799121int == 101234174051884147720451468668int);
    assert(pow(632507int, 5) <= 101234174051884147720451468668int < pow(632507int + 1, 5)) by {
        reveal_with_fuel(pow, 6);
    }
    crate::roots::lemma_iroot_unique(101234174051884147720451468668int, 5, 632507int);
    assert(9247681int * 632507int == 5849222966267int) by (nonlinear_arith);
    assert(a * a * 632507int == 5849222966267int);
    assert(5849222966267int / 115799121int == 50511int);
    assert(srgb_to_linear_spec(62) == 50511);
    assert(50511int * 50511int == 2551361121int) by (nonlinear_arith);
    assert(2551361121int * 50511int == 128871801582831int) by (nonlinear_arith);
    assert(128871801582831int * 50511int == 6509443569750376641int) by (nonlinear_arith);
    assert(6509443569750376641int * 50511int == 328798504151661274513551int) by (nonlinear_arith);
    assert(328798504151661274513551int * 1048576int == 344770220289332372584321253376int) by (nonlinear_arith);
    assert(pow(289int, 12) <= 344770220289332372584321253376int < pow(289int + 1, 12)) by {
        reveal_with_fuel(pow, 13);
    }
    crate::roots::lemma_iroot_unique(344770220289332372584321253376int, 12, 289int);
    assert(538050int * 289int == 155496450int) by (nonlinear_arith);
    assert((155496450int - 27699200int) / 2048000int == 62int);
    assert(linear_to_srgb_spec(50511) == 62);
}
/// Round trip at byte value 63.
#[verifier::spinoff_prover]
proof fn case_63()
    ensures
        linear_to_srgb_spec(srgb_to_linear_spec(63)) == 63,
{
    let a = 40 * 63 + 561int;
    assert(a * a == 9492561int) by (nonlinear_arith)
        requires
            a == 3081,
    ;
    assert(9492561int * 0x10000000000000000000000000int == 12033250649353081515700946475927207936int) by (nonlinear_arith);
    assert(a * a * 0x10000000000000000000000000int == 12033250649353081515700946475927207936int);
    assert(12033250649353081515700946475927207936int / 115799121int == 103914870384491791744265023185int);
    assert(pow(635821int, 5) <= 103914870384491791744265023185int < pow(635821int + 1, 5)) by {
        reveal_with_fuel(pow, 6);
    }
    crate::roots::lemma_iroot_unique(103914870384491791744265023185int, 5, 635821int);
    assert(9492561int * 635821int == 6035569627581int) by (nonlinear_arith);
    assert(a * a * 635821int == 6035569627581int);
    assert(6035569627581int / 115799121int == 52121int);
    assert(srgb_to_linear_spec(63) == 52121);
    assert(52121int * 52121int == 2716598641int) by (nonlinear_arith);
    assert(2716598641int * 52121int == 141591837767561int) by (nonlinear_arith);
    assert(141591837767561int * 52121int == 7379908176283046881int) by (nonlinear_arith);
    assert(7379908176283046881int * 52121int == 384648194056048686484601int) by (nonlinear_arith);
    assert(384648194056048686484601int * 1048576int == 403332864730515307479276978176int) by (nonlinear_arith);
    assert(pow(293int, 12) <= 403332864730515307479276978176int < pow(293int + 1, 12)) by {
        reveal_with_fuel(pow, 13);
    }
    crate::roots::lemma_iroot_unique(403332864730515307479276978176int, 12, 293int);
    assert(538050int * 293int == 157648650int) by (nonlinear_arith);
    assert((157648650int - 27699200int) / 2048000int == 63int);
    assert(linear_to_srgb_spec(52121) == 63);
}
/// Round trip at byte value 64.
#[verifier::spinoff_prover]
proof fn case_64()
    ensures
        linear_to_srgb_spec(srgb_to_linear_spec(64)) == 64,
{
    let a = 40 * 64 + 561int;
    assert(a * a == 9740641int) by (nonlinear_arith)
        requires
            a == 3121,
    ;
    assert(9740641int * 0x10000000000000000000000000int == 12347729410257700665624248607116886016int) by (nonlinear_arith);
    assert(a * a * 0x10000000000000000000000000int == 12347729410257700665624248607116886016int);
    assert(12347729410257700665624248607116886016int / 115799121int == 106630597051403357937615507522int);
    assert(pow(639111int, 5) <= 106630597051403357937615507522int < pow(639111int + 1, 5)) by {
        reveal_with_fuel(pow, 6);
    }
    crate::roots::lemma_iroot_unique(106630597051403357937615507522int, 5, 639111int);
    assert(9740641int * 639111int == 6225350810151int) by (nonlinear_arith);
    assert(a * a * 639111int == 6225350810151int);
    assert(6225350810151int / 115799121int == 53759int);
    assert(srgb_to_linear_spec(64) == 53759);
    assert(53759int * 53759int == 2890030081int) by (nonlinear_arith);
    assert(2890030081int * 53759int == 155365127124479int) by (nonlinear_arith);
    assert(155365127124479int * 53759int == 8352273869084866561int) by (nonlinear_arith);
    assert(8352273869084866561int * 53759int == 449009890928133341452799int) by (nonlinear_arith);
    assert(449009890928133341452799int * 1048576int == 470820995389858346647210164224int) by (nonlinear_arith);
    assert(pow(296int, 12) <= 470820995389858346647210164224int < pow(296int + 1, 12)) by {
        reveal_with_fuel(pow, 13);
    }
    crate::roots::lemma_iroot_unique(470820995389858346647210164224int, 12, 296int);
    assert(538050int * 296int == 159262800int) by (nonlinear_arith);
    assert((159262800int - 27699200int) / 2048000int == 64int);
    assert(linear_to_srgb_spec(53759) == 64);
}
/// Round trip at byte value 65.
#[verifier::spinoff_prover]
proof fn case_65()
    ensures
        linear_to_srgb_spec(srgb_to_linear_spec(65)) == 65,
{
    let a = 40 * 65 + 561int;
    assert(a * a == 9991921int) by (nonlinear_arith)
        requires
            a == 3161,
    ;
    assert(9991921int * 0x10000000000000000000000000int == 12666264653083050149632340188563767296int) by (nonlinear_arith);
    assert(a * a * 0x10000000000000000000000000int == 12666264653083050149632340188563767296int);
    assert(12666264653083050149632340188563767296int / 115799121int == 109381354052618846300502921680int);
    assert(pow(642375int, 5) <= 109381354052618846300502921680int < pow(642375int + 1, 5)) by {
        reveal_with_fuel(pow, 6);
    }
    crate::roots::lemma_iroot_unique(109381354052618846300502921680int, 5, 642375int);
    assert(9991921int * 642375int == 6418560252375int) by (nonlinear_arith);
    assert(a * a * 642375int == 6418560252375int);
    assert(6418560252375int / 115799121int == 55428int);
    assert(srgb_to_linear_spec(65) == 55428);
    assert(55428int * 55428int == 3072263184int) by (nonlinear_arith);
    assert(3072263184int * 55428int == 170289403762752int) by (nonlinear_arith);
    assert(170289403762752int * 55428int == 9438801071761817856int) by (nonlinear_arith);
    assert(9438801071761817856int * 55428int == 523173865805614040122368int) by (nonlinear_arith);
    assert(523173865805614040122368int * 1048576int == 548587559510987547735352147968int) by (nonlinear_arith);
    assert(pow(300int, 12) <= 548587559510987547735352147968int < pow(300int + 1, 12)) by {
        reveal_with_fuel(pow, 13);
    }
    crate::roots::lemma_iroot_unique(548587559510987547735352147968int, 12, 300int);
    assert(538050int * 300int == 161415000int) by (nonlinear_arith);
    assert((161415000int - 27699200int) / 2048000int == 65int);
    assert(linear_to_srgb_spec(55428) == 65);
}
/// Round trip at byte value 66.
#[verifier::spinoff_prover]
proof fn case_66()
    ensures
        linear_to_srgb_spec(srgb_to_linear_spec(66)) == 66,
{
    let a = 40 * 66 + 561int;
    assert(a * a == 10246401int) by (nonlinear_arith)
        requires
            a == 3201,
    ;
    assert(10246401int * 0x10000000000000000000000000int == 12988856377829129967725221220267851776int) by (nonlinear_arith);
    assert(a * a * 0x10000000000000000000000000int == 12988856377829129967725221220267851776int);
    assert(12988856377829129967725221220267851776int / 115799121int == 112167141388138256832927265659int);
    assert(pow(645614int, 5) <= 112167141388138256832927265659int < pow(645614int + 1, 5)) by {
        reveal_with_fuel(pow, 6);
    }
    crate::roots::lemma_iroot_unique(112167141388138256832927265659int, 5, 645614int);
    assert(10246401int * 645614int == 6615219935214int) by (nonlinear_arith);
    assert(a * a * 645614int == 6615219935214int);
    assert(6615219935214int / 115799121int == 57126int);
    assert(srgb_to_linear_spec(66) == 57126);
    assert(57126int * 57126int == 3263379876int) by (nonlinear_arith);
    assert(3263379876int * 57126int == 186423838796376int) by (nonlinear_arith);
    assert(186423838796376int * 57126int == 10649648215081775376int) by (nonlinear_arith);
    assert(10649648215081775376int * 57126int == 608371803934761500129376int) by (nonlinear_arith);
    assert(608371803934761500129376int * 1048576int == 637924072682696474759660568576int) by (nonlinear_arith);
    assert(pow(304int, 12) <= 637924072682696474759660568576int < pow(304int + 1, 12)) by {
        reveal_with_fuel(pow, 13);
    }
    crate::roots::lemma_iroot_unique(637924072682696474759660568576int, 12, 304int);
    assert(538050int * 304int == 163567200int) by (nonlinear_arith);
    assert((163567200int - 27699200int) / 2048000int == 66int);
    assert(linear_to_srgb_spec(57126) == 66);
}
/// Round trip at byte value 67.
#[verifier::spinoff_prover]
proof fn case_67()
    ensures
        linear_to_srgb_spec(srgb_to_linear_spec(67)) == 67,
{
    let a = 40 * 67 + 561int;
    assert(a * a == 10504081int) by (nonlinear_arith)
        requires
            a == 3241,
    ;
    assert(10504081int * 0x10000000000000000000000000int == 13315504584495940119902891702229139456int) by (nonlinear_arith);
    assert(a * a * 0x10000000000000000000000000int == 13315504584495940119902891702229139456int);
    assert(13315504584495940119902891702229139456int / 115799121int == 114987959057961589534888539458int);
    assert(pow(648829int, 5) <= 114987959057961589534888539458int < pow(648829int + 1, 5)) by {
        reveal_with_fuel(pow, 6);
    }
    crate::roots::lemma_iroot_unique(114987959057961589534888539458int, 5, 648829int);
    assert(10504081int * 648829int == 6815352371149int) by (nonlinear_arith);
    assert(a * a * 648829int == 6815352371149int);
    assert(6815352371149int / 115799121int == 58854int);
    assert(srgb_to_linear_spec(67) == 58854);
    assert(58854int * 58854int == 3463793316int) by (nonlinear_arith);
    assert(3463793316int * 58854int == 203858091819864int) by (nonlinear_arith);
    assert(203858091819864int * 58854int == 11997864135966275856int) by (nonlinear_arith);
    assert(11997864135966275856int * 58854int == 706122295858159199229024int) by (nonlinear_arith);
    assert(706122295858159199229024int * 1048576int == 740422892501765140490773069824int) by (nonlinear_arith);
    assert(pow(308int, 12) <= 740422892501765140490773069824int < pow(308int + 1, 12)) by {
        reveal_with_fuel(pow, 13);
    }
    crate::roots::lemma_iroot_unique(740422892501765140490773069824int, 12, 308int);
    assert(538050int * 308int == 165719400int) by (nonlinear_arith);
    assert((165719400int - 27699200int) / 2048000int == 67int);
    assert(linear_to_srgb_spec(58854) == 67);
}
/// Round trip at byte value 68.
#[verifier::spinoff_prover]
proof fn case_68()
    ensures
        linear_to_srgb_spec(srgb_to_linear_spec(68)) == 68,
{
    let a = 40 * 68 + 561int;
    assert(a * a == 10764961int) by (nonlinear_arith)
        requires
            a == 3281,
    ;
    assert(10764961int * 0x10000000000000000000000000int == 13646209273083480606165351634447630336int) by (nonlinear_arith);
    assert(a * a * 0x10000000000000000000000000int == 13646209273083480606165351634447630336int);
    assert(13646209273083480606165351634447630336int / 115799121int == 117843807062088844406386743077int);
    assert(pow(652020int, 5) <= 117843807062088844406386743077int < pow(652020int + 1, 5)) by {
        reveal_with_fuel(pow, 6);
    }
    crate::roots::lemma_iroot_unique(117843807062088844406386743077int, 5, 652020int);
    assert(10764961int * 652020int == 7018969871220int) by (nonlinear_arith);
    assert(a * a * 652020int == 7018969871220int);
    assert(7018969871220int / 115799121int == 60613int);
    assert(srgb_to_linear_spec(68) == 60613);
    assert(60613int * 60613int == 3673935769int) by (nonlinear_arith);
    assert(3673935769int * 60613int == 222688268766397int) by (nonlinear_arith);
    assert(222688268766397int * 60613int == 13497804034737621361int) by (nonlinear_arith);
    assert(13497804034737621361int * 60613int == 818142395957551443554293int) by (nonlinear_arith);
    assert(818142395957551443554293int * 1048576int == 857884480983585462476386336768int) by (nonlinear_arith);
    assert(pow(312int, 12) <= 857884480983585462476386336768int < pow(312int + 1, 12)) by {
        reveal_with_fuel(pow, 13);
    }
    crate::roots::lemma_iroot_unique(857884480983585462476386336768int, 12, 312int);
    assert(538050int * 312int == 167871600int) by (nonlinear_arith);
    assert((167871600int - 27699200int) / 2048000int == 68int);
    assert(linear_to_srgb_spec(60613) == 68);
}
/// Round trip at byte value 69.
#[verifier::spinoff_prover]
proof fn case_69()
    ensures
        linear_to_srgb_spec(srgb_to_linear_spec(69)) == 69,
{
    let a = 40 * 69 + 561int;
    assert(a * a == 11029041int) by (nonlinear_arith)
        requires
            a == 3321,
    ;
    assert(11029041int * 0x10000000000000000000000000int == 13980970443591751426512601016923324416int) by (nonlinear_arith);
    assert(a * a * 0x10000000000000000000000000int == 13980970443591751426512601016923324416int);
    assert(13980970443591751426512601016923324416int / 115799121int == 120734685400520021447421876517int);
    assert(pow(655188int, 5) <= 120734685400520021447421876517int < pow(655188int + 1, 5)) by {
        reveal_with_fuel(pow, 6);
    }
    crate::roots::lemma_iroot_unique(120734685400520021447421876517int, 5, 655188int);
    assert(11029041int * 655188int == 7226095314708int) by (nonlinear_arith);
    assert(a * a * 655188int == 7226095314708int);
    assert(7226095314708int / 115799121int == 62401int);
    assert(srgb_to_linear_spec(69) == 62401);
    assert(62401int * 62401int == 3893884801int) by (nonlinear_arith);
    assert(3893884801int * 62401int == 242982305467201int) by (nonlinear_arith);
    assert(242982305467201int * 62401int == 15162338843458809601int) by (nonlinear_arith);
    assert(15162338843458809601int * 62401int == 946145106170673177912001int) by (nonlinear_arith);
    assert(946145106170673177912001int * 1048576int == 992105050848019798202254360576int) by (nonlinear_arith);
    assert(pow(316int, 12) <= 992105050848019798202254360576int < pow(316int + 1, 12)) by {
        reveal_with_fuel(pow, 13);
    }
    crate::roots::lemma_iroot_unique(992105050848019798202254360576int, 12, 316int);
    assert(538050int * 316int == 170023800int) by (nonlinear_arith);
    assert((170023800int - 27699200int) / 2048000int == 69int);
    assert(linear_to_srgb_spec(62401) == 69);
}
/// Round trip at byte value 70.
#[verifier::spinoff_prover]
proof fn case_70()
    ensures
        linear_to_srgb_spec(srgb_to_linear_spec(70)) == 70,
{
    let a = 40 * 70 + 561int;
    assert(a * a == 11296321int) by (nonlinear_arith)
        requires
            a == 3361,
    ;
    assert(11296321int * 0x10000000000000000000000000int == 14319788096020752580944639849656221696int) by (nonlinear_arith);
    assert(a * a * 0x10000000000000000000000000int == 14319788096020752580944639849656221696int);
    assert(14319788096020752580944639849656221696int / 115799121int == 123660594073255120657993939778int);
    assert(pow(658333int, 5) <= 123660594073255120657993939778int < pow(658333int + 1, 5)) by {
        reveal_with_fuel(pow, 6);
    }
    crate::roots::lemma_iroot_unique(123660594073255120657993939778int, 5, 658333int);
    assert(11296321int * 658333int == 7436740892893int) by (nonlinear_arith);
    assert(a * a * 658333int == 7436740892893int);
    assert(7436740892893int / 115799121int == 64221int);
    assert(srgb_to_linear_spec(70) == 64221);
    assert(64221int * 64221int == 4124336841int) by (nonlinear_arith);
    assert(4124336841int * 64221int == 264869036265861int) by (nonlinear_arith);
    assert(264869036265861int * 64221int == 17010154378029859281int) by (nonlinear_arith);
    assert(17010154378029859281int * 64221int == 1092409124311455592885101int) by (nonlinear_arith);
    assert(1092409124311455592885101int * 1048576int == 1145473989934008859765087666176int) by (nonlinear_arith);
    assert(pow(319int, 12) <= 1145473989934008859765087666176int < pow(319int + 1, 12)) by {
        reveal_with_fuel(pow, 13);
    }
    crate::roots::lemma_iroot_unique(1145473989934008859765087666176int, 12, 319int);
    assert(538050int * 319int == 171637950int) by (nonlinear_arith);
    assert((171637950int - 27699200int) / 2048000int == 70int);
    assert(linear_to_srgb_spec(64221) == 70);
}
/// Round trip at byte value 71.
#[verifier::spinoff_prover]
proof fn case_71()
    ensures
        linear_to_srgb_spec(srgb_to_linear_spec(71)) == 71,
{
    let a = 40 * 71 + 561int;
    assert(a * a == 11566801int) by (nonlinear_arith)
        requires
            a == 3401,
    ;
    assert(11566801int * 0x10000000000000000000000000int == 14662662230370484069461468132646322176int) by (nonlinear_arith);
    assert(a * a * 0x10000000000000000000000000int == 14662662230370484069461468132646322176int);
    assert(14662662230370484069461468132646322176int / 115799121int == 126621533080294142038102932859int);
    assert(pow(661456int, 5) <= 126621533080294142038102932859int < pow(661456int + 1, 5)) by {
        reveal_with_fuel(pow, 6);
    }
    crate::roots::lemma_iroot_unique(126621533080294142038102932859int, 5, 661456int);
    assert(11566801int * 661456int == 7650929922256int) by (nonlinear_arith);
    assert(a * a * 661456int == 7650929922256int);
    assert(7650929922256int / 115799121int == 66070int);
    assert(srgb_to_linear_spec(71) == 66070);
    assert(66070int * 66070int == 4365244900int) by (nonlinear_arith);
    assert(4365244900int * 66070int == 288411730543000int) by (nonlinear_arith);
    assert(288411730543000int * 66070int == 19055363036976010000int) by (nonlinear_arith);
    assert(19055363036976010000int * 66070int == 1258987835853004980700000int) by (nonlinear_arith);
    assert(1258987835853004980700000int * 1048576int == 1320144428967400550642483200000int) by (nonlinear_arith);
    assert(pow(323int, 12) <= 1320144428967400550642483200000int < pow(323int + 1, 12)) by {
        reveal_with_fuel(pow, 13);
    }
    crate::roots::lemma_iroot_unique(1320144428967400550642483200000int, 12, 323int);
    assert(538050int * 323int == 173790150int) by (nonlinear_arith);
    assert((173790150int - 27699200int) / 2048000int == 71int);
    assert(linear_to_srgb_spec(66070) == 71);
}
/// Round trip at byte value 72.
#[verifier::spinoff_prover]
proof fn case_72()
    ensures
        linear_to_srgb_spec(srgb_to_linear_spec(72)) == 72,
{
    let a = 40 * 72 + 561int;
    assert(a * a == 11840481int) by (nonlinear_arith)
        requires
            a == 3441,
    ;
    assert(11840481int * 0x10000000000000000000000000int == 15009592846640945892063085865893625856int) by (nonlinear_arith);
    assert(a * a * 0x10000000000000000000000000int == 15009592846640945892063085865893625856int);
    assert(15009592846640945892063085865893625856int / 115799121int == 129617502421637085587748855761int);
    assert(pow(664557int, 5) <= 129617502421637085587748855761int < pow(664557int + 1, 5)) by {
        reveal_with_fuel(pow, 6);
    }
    crate::roots::lemma_iroot_unique(129617502421637085587748855761int, 5, 664557int);
    assert(11840481int * 664557int == 7868674531917int) by (nonlinear_arith);
    assert(a * a * 664557int == 7868674531917int);
    assert(7868674531917int / 115799121int == 67951int);
    assert(srgb_to_linear_spec(72) == 67951);
    assert(67951int * 67951int == 4617338401int) by (nonlinear_arith);
    assert(4617338401int * 67951int == 313752761686351int) by (nonlinear_arith);
    assert(313752761686351int * 67951int == 21319813909349236801int) by (nonlinear_arith);
    assert(21319813909349236801int * 67951int == 1448702674954189989864751int) by (nonlinear_arith);
    assert(1448702674954189989864751int * 1048576int == 1519074856092764722812421144576int) by (nonlinear_arith);
    assert(pow(327int, 12) <= 1519074856092764722812421144576int < pow(327int + 1, 12)) by {
        reveal_with_fuel(pow, 13);
    }
    crate::roots::lemma_iroot_unique(1519074856092764722812421144576int, 12, 327int);
    assert(538050int * 327int == 175942350int) by (nonlinear_arith);
    assert((175942350int - 27699200int) / 2048000int == 72int);
    assert(linear_to_srgb_spec(67951) == 72);
}
/// Round trip at byte value 73.
#[verifier::spinoff_prover]
proof fn case_73()
    ensures
        linear_to_srgb_spec(srgb_to_linear_spec(73)) == 73,
{
    let a = 40 * 73 + 561int;
    assert(a * a == 12117361int) by (nonlinear_arith)
        requires
            a == 3481,
    ;
    assert(12117361int * 0x10000000000000000000000000int == 15360579944832138048749493049398132736int) by (nonlinear_arith);
    assert(a * a * 0x10000000000000000000000000int == 15360579944832138048749493049398132736int);
    assert(15360579944832138048749493049398132736int / 115799121int == 132648502097283951306931708483int);
    assert(pow(667637int, 5) <= 132648502097283951306931708483int < pow(667637int + 1, 5)) by {
        reveal_with_fuel(pow, 6);
    }
    crate::roots::lemma_iroot_unique(132648502097283951306931708483int, 5, 667637int);
    assert(12117361int * 667637int == 8089998545957int) by (nonlinear_arith);
    assert(a * a * 667637int == 8089998545957int);
    assert(8089998545957int / 115799121int == 69862int);
    assert(srgb_to_linear_spec(73) == 69862);
    assert(69862int * 69862int == 4880699044int) by (nonlinear_arith);
    assert(4880699044int * 69862int == 340975396611928int) by (nonlinear_arith);
    assert(340975396611928int * 69862int == 23821223158102513936int) by (nonlinear_arith);
    assert(23821223158102513936int * 69862int == 1664198292271357828596832int) by (nonlinear_arith);
    assert(1664198292271357828596832int * 1048576int == 1745038388516731306478751711232int) by (nonlinear_arith);
    assert(pow(331int, 12) <= 1745038388516731306478751711232int < pow(331int + 1, 12)) by {
        reveal_with_fuel(pow, 13);
    }
    crate::roots::lemma_iroot_unique(1745038388516731306478751711232int, 12, 331int);
    assert(538050int * 331int == 178094550int) by (nonlinear_arith);
    assert((178094550int - 27699200int) / 2048000int == 73int);
    assert(linear_to_srgb_spec(69862) == 73);
}
/// Round trip at byte value 74.
#[verifier::spinoff_prover]
proof fn case_74()
    ensures
        linear_to_srgb_spec(srgb_to_linear_spec(74)) == 74,
{
    let a = 40 * 74 + 561int;
    assert(a * a == 12397441int) by (nonlinear_arith)
        requires
            a == 3521,
    ;
    assert(12397441int * 0x10000000000000000000000000int == 15715623524944060539520689683159842816int) by (nonlinear_arith);
    assert(a * a * 0x10000000000000000000000000int == 15715623524944060539520689683159842816int);
    assert(15715623524944060539520689683159842816int / 115799121int == 135714532107234739195651491026int);
    assert(pow(670695int, 5) <= 135714532107234739195651491026int < pow(670695int + 1, 5)) by {
        reveal_with_fuel(pow, 6);
    }
    crate::roots::lemma_iroot_unique(135714532107234739195651491026int, 5, 670695int);
    assert(12397441int * 670695int == 8314901691495int) by (nonlinear_arith);
    assert(a * a * 670695int == 8314901691495int);
    assert(8314901691495int / 115799121int == 71804int);
    assert(srgb_to_linear_spec(74) == 71804);
    assert(71804int * 71804int == 5155814416int) by (nonlinear_arith);
    assert(5155814416int * 71804int == 370208098326464int) by (nonlinear_arith);
    assert(370208098326464int * 71804int == 26582422292233421056int) by (nonlinear_arith);
    assert(26582422292233421056int * 71804int == 1908724250271528565505024int) by (nonlinear_arith);
    assert(1908724250271528565505024int * 1048576int == 2001442439452718337102996045824int) by (nonlinear_arith);
    assert(pow(335int, 12) <= 2001442439452718337102996045824int < pow(335int + 1, 12)) by {
        reveal_with_fuel(pow, 13);
    }
    crate::roots::lemma_iroot_unique(2001442439452718337102996045824int, 12, 335int);
    assert(538050int * 335int == 180246750int) by (nonlinear_arith);
    assert((180246750int - 27699200int) / 2048000int == 74int);
    assert(linear_to_srgb_spec(71804) == 74);
}
/// Round trip at byte value 75.
#[verifier::spinoff_prover]
proof fn case_75()
    ensures
        linear_to_srgb_spec(srgb_to_linear_spec(75)) == 75,
{
    let a = 40 * 75 + 561int;
    assert(a * a == 12680721int) by (nonlinear_arith)
        requires
            a == 3561,
    ;
    assert(12680721int * 0x10000000000000000000000000int == 16074723586976713364376675767178756096int) by (nonlinear_arith);
    assert(a * a * 0x10000000000000000000000000int == 16074723586976713364376675767178756096int);
    assert(16074723586976713364376675767178756096int / 115799121int == 138815592451489449253908203389int);
    assert(pow(673732int, 5) <= 138815592451489449253908203389int < pow(673732int + 1, 5)) by {
        reveal_with_fuel(pow, 6);
    }
    crate::roots::lemma_iroot_unique(138815592451489449253908203389int, 5, 673732int);
    assert(12680721int * 673732int == 8543407520772int) by (nonlinear_arith);
    assert(a * a * 673732int == 8543407520772int);
    assert(8543407520772int / 115799121int == 73777int);
    assert(srgb_to_linear_spec(75) == 73777);
    assert(73777int * 73777int == 5443045729int) by (nonlinear_arith);
    assert(5443045729int * 73777int == 401571584748433int) by (nonlinear_arith);
    assert(401571584748433int * 73777int == 29626746807985141441int) by (nonlinear_arith);
    assert(29626746807985141441int * 73777int == 2185772499252719780092657int) by (nonlinear_arith);
    assert(2185772499252719780092657int * 1048576int == 2291948584176419896130437906432int) by (nonlinear_arith);
    assert(pow(338int, 12) <= 2291948584176419896130437906432int < pow(338int + 1, 12)) by {
        reveal_with_fuel(pow, 13);
    }
    crate::roots::lemma_iroot_unique(2291948584176419896130437906432int, 12, 338int);
    assert(538050int * 338int == 181860900int) by (nonlinear_arith);
    assert((181860900int - 27699200int) / 2048000int == 75int);
    assert(linear_to_srgb_spec(73777) == 75);
}
/// Round trip at byte value 76.
#[verifier::spinoff_prover]
proof fn case_76()
    ensures
        linear_to_srgb_spec(srgb_to_linear_spec(76)) == 76,
{
    let a = 40 * 76 + 561int;
    assert(a * a == 12967201int) by (nonlinear_arith)
        requires
            a == 3601,
    ;
    assert(12967201int * 0x10000000000000000000000000int == 16437880130930096523317451301454872576int) by (nonlinear_arith);
    assert(a * a * 0x10000000000000000000000000int == 16437880130930096523317451301454872576int);
    assert(16437880130930096523317451301454872576int / 115799121int == 141951683130048081481701845573int);
    assert(pow(676749int, 5) <= 141951683130048081481701845573int < pow(676749int + 1, 5)) by {
        reveal_with_fuel(pow, 6);
    }
    crate::roots::lemma_iroot_unique(141951683130048081481701845573int, 5, 676749int);
    assert(12967201int * 676749int == 8775540309549int) by (nonlinear_arith);
    assert(a * a * 676749int == 8775540309549int);
    assert(8775540309549int / 115799121int == 75782int);
    assert(srgb_to_linear_spec(76) == 75782);
    assert(75782int * 75782int == 5742911524int) by (nonlinear_arith);
    assert(5742911524int * 75782int == 435209321111768int) by (nonlinear_arith);
    assert(435209321111768int * 75782int == 32981032772492002576int) by (nonlinear_arith);
    assert(32981032772492002576int * 75782int == 2499368625564988939214432int) by (nonlinear_arith);
    assert(2499368625564988939214432int * 1048576int == 2620777955920433841925712248832int) by (nonlinear_arith);
    assert(pow(342int, 12) <= 2620777955920433841925712248832int < pow(342int + 1, 12)) by {
        reveal_with_fuel(pow, 13);
    }
    crate::roots::lemma_iroot_unique(2620777955920433841925712248832int, 12, 342int);
    assert(538050int * 342int == 184013100int) by (nonlinear_arith);
    assert((184013100int - 27699200int) / 2048000int == 76int);
    assert(linear_to_srgb_spec(75782) == 76);
}
/// Round trip at byte value 77.
#[verifier::spinoff_prover]
proof fn case_77()
    ensures
        linear_to_srgb_spec(srgb_to_linear_spec(77)) == 77,
{
    let a = 40 * 77 + 561int;
    assert(a * a == 13256881int) by (nonlinear_arith)
        requires
            a == 3641,
    ;
    assert(13256881int * 0x10000000000000000000000000int == 16805093156804210016343016285988192256int) by (nonlinear_arith);
    assert(a * a * 0x10000000000000000000000000int == 16805093156804210016343016285988192256int);
    assert(16805093156804210016343016285988192256int / 115799121int == 145122804142910635879032417577int);
    assert(pow(679746int, 5) <= 145122804142910635879032417577int < pow(679746int + 1, 5)) by {
        reveal_with_fuel(pow, 6);
    }
    crate::roots::lemma_iroot_unique(145122804142910635879032417577int, 5, 679746int);
    assert(13256881int * 679746int == 9011311832226int) by (nonlinear_arith);
    assert(a * a * 679746int == 9011311832226int);
    assert(9011311832226int / 115799121int == 77818int);
    assert(srgb_to_linear_spec(77) == 77818);
    assert(77818int * 77818int == 6055641124int) by (nonlinear_arith);
    assert(6055641124int * 77818int == 471237880987432int) by (nonlinear_arith);
    assert(471237880987432int * 77818int == 36670789422679983376int) by (nonlinear_arith);
    assert(36670789422679983376int * 77818int == 2853647491294110946353568int) by (nonlinear_arith);
    assert(2853647491294110946353568int * 1048576int == 2992266271831213679683638919168int) by (nonlinear_arith);
    assert(pow(346int, 12) <= 2992266271831213679683638919168int < pow(346int + 1, 12)) by {
        reveal_with_fuel(pow, 13);
    }
    crate::roots::lemma_iroot_unique(2992266271831213679683638919168int, 12, 346int);
    assert(538050int * 346int == 186165300int) by (nonlinear_arith);
    assert((186165300int - 27699200int) / 2048000int == 77int);
    assert(linear_to_srgb_spec(77818) == 77);
}
/// Round trip at byte value 78.
#[verifier::spinoff_prover]
proof fn case_78()
    ensures
        linear_to_srgb_spec(srgb_to_linear_spec(78)) == 78,
{
    let a = 40 * 78 + 561int;
    assert(a * a == 13549761int) by (nonlinear_arith)
        requires
            a == 3681,
    ;
    assert(13549761int * 0x10000000000000000000000000int == 17176362664599053843453370720778715136int) by (nonlinear_arith);
    assert(a * a * 0x10000000000000000000000000int == 17176362664599053843453370720778715136int);
    assert(17176362664599053843453370720778715136int / 115799121int == 148328955490077112445899919402int);
    assert(pow(682724int, 5) <= 148328955490077112445899919402int < pow(682724int + 1, 5)) by {
        reveal_with_fuel(pow, 6);
    }
    crate::roots::lemma_iroot_unique(148328955490077112445899919402int, 5, 682724int);
    assert(13549761int * 682724int == 9250747028964int) by (nonlinear_arith);
    assert(a * a * 682724int == 9250747028964int);
    assert(9250747028964int / 115799121int == 79886int);
    assert(srgb_to_linear_spec(78) == 79886);
    assert(79886int * 79886int == 6381772996int) by (nonlinear_arith);
    assert(6381772996int * 79886int == 509814317558456int) by (nonlinear_arith);
    assert(509814317558456int * 79886int == 40727026572474816016int) by (nonlinear_arith);
    assert(40727026572474816016int * 79886int == 3253519244768723152254176int) by (nonlinear_arith);
    assert(3253519244768723152254176int * 1048576int == 3411562195602608648098074853376int) by (nonlinear_arith);
    assert(pow(350int, 12) <= 3411562195602608648098074853376int < pow(350int + 1, 12)) by {
        reveal_with_fuel(pow, 13);
    }
    crate::roots::lemma_iroot_unique(3411562195602608648098074853376int, 12, 350int);
    assert(538050int * 350int == 188317500int) by (nonlinear_arith);
    assert((188317500int - 27699200int) / 2048000int == 78int);
    assert(linear_to_srgb_spec(79886) == 78);
}
/// Round trip at byte value 79.
#[verifier::spinoff_prover]
proof fn case_79()
    ensures
        linear_to_srgb_spec(srgb_to_linear_spec(79)) == 79,
{
    let a = 40 * 79 + 561int;
    assert(a * a == 13845841int) by (nonlinear_arith)
        requires
            a == 3721,
    ;
    assert(13845841int * 0x10000000000000000000000000int == 17551688654314628004648514605826441216int) by (nonlinear_arith);
    assert(a * a * 0x10000000000000000000000000int == 17551688654314628004648514605826441216int);
    assert(17551688654314628004648514605826441216int / 115799121int == 151570137171547511182304351047int);
    assert(pow(685681int, 5) <= 151570137171547511182304351047int < pow(685681int + 1, 5)) by {
        reveal_with_fuel(pow, 6);
    }
    crate::roots::lemma_iroot_unique(151570137171547511182304351047int, 5, 685681int);
    assert(13845841int * 685681int == 9493830102721int) by (nonlinear_arith);
    assert(a * a * 685681int == 9493830102721int);
    assert(9493830102721int / 115799121int == 81985int);
    assert(srgb_to_linear_spec(79) == 81985);
    assert(81985int * 81985int == 6721540225int) by (nonlinear_arith);
    assert(6721540225int * 81985int == 551065475346625int) by (nonlinear_arith);
    assert(551065475346625int * 81985int == 45179102996293050625int) by (nonlinear_arith);
    assert(45179102996293050625int * 81985int == 3704008759151085755490625int) by (nonlinear_arith);
    assert(3704008759151085755490625int * 1048576int == 3883934688635608897149337600000int) by (nonlinear_arith);
    assert(pow(354int, 12) <= 3883934688635608897149337600000int < pow(354int + 1, 12)) by {
        reveal_with_fuel(pow, 13);
    }
    crate::roots::lemma_iroot_unique(3883934688635608897149337600000int, 12, 354int);
    assert(538050int * 354int == 190469700int) by (nonlinear_arith);
    assert((190469700int - 27699200int) / 2048000int == 79int);
    assert(linear_to_srgb_spec(81985) == 79);
}
/// Round trip at byte value 80.
#[verifier::spinoff_prover]
proof fn case_80()
    ensures
        linear_to_srgb_spec(srgb_to_linear_spec(80)) == 80,
{
    let a = 40 * 80 + 561int;
    assert(a * a == 14145121int) by (nonlinear_arith)
        requires
            a == 3761,
    ;
    assert(14145121int * 0x10000000000000000000000000int == 17931071125950932499928447941131370496int) by (nonlinear_arith);
    assert(a * a * 0x10000000000000000000000000int == 17931071125950932499928447941131370496int);
    assert(17931071125950932499928447941131370496int / 115799121int == 154846349187321832088245712513int);
    assert(pow(688620int, 5) <= 154846349187321832088245712513int < pow(688620int + 1, 5)) by {
        reveal_with_fuel(pow, 6);
    }
    crate::roots::lemma_iroot_unique(154846349187321832088245712513int, 5, 688620int);
    assert(14145121int * 688620int == 9740613223020int) by (nonlinear_arith);
    assert(a * a * 688620int == 9740613223020int);
    assert(9740613223020int / 115799121int == 84116int);
    assert(srgb_to_linear_spec(80) == 84116);
    assert(84116int * 84116int == 7075501456int) by (nonlinear_arith);
    assert(7075501456int * 84116int == 595162880472896int) by (nonlinear_arith);
    assert(595162880472896int * 84116int == 50062720853858119936int) by (nonlinear_arith);
    assert(50062720853858119936int * 84116int == 4211075827343129616536576int) by (nonlinear_arith);
    assert(4211075827343129616536576int * 1048576int == 4415633046732149480789456715776int) by (nonlinear_arith);
    assert(pow(357int, 12) <= 4415633046732149480789456715776int < pow(357int + 1, 12)) by {
        reveal_with_fuel(pow, 13);
    }
    crate::roots::lemma_iroot_unique(4415633046732149480789456715776int, 12, 357int);
    assert(538050int * 357int == 192083850int) by (nonlinear_arith);
    assert((192083850int - 27699200int) / 2048000int == 80int);
    assert(linear_to_srgb_spec(84116) == 80);
}
/// Round trip at byte value 81.
#[verifier::spinoff_prover]
proof fn case_81()
    ensures
        linear_to_srgb_spec(srgb_to_linear_spec(81)) == 81,
{
    let a = 40 * 81 + 561int;
    assert(a * a == 14447601int) by (nonlinear_arith)
        requires
            a == 3801,
    ;
    assert(14447601int * 0x10000000000000000000000000int == 18314510079507967329293170726693502976int) by (nonlinear_arith);
    assert(a * a * 0x10000000000000000000000000int == 18314510079507967329293170726693502976int);
    assert(18314510079507967329293170726693502976int / 115799121int == 158157591537400075163724003800int);
    assert(pow(691541int, 5) <= 158157591537400075163724003800int < pow(691541int + 1, 5)) by {
        reveal_with_fuel(pow, 6);
    }
    crate::roots::lemma_iroot_unique(158157591537400075163724003800int, 5, 691541int);
    assert(14447601int * 691541int == 9991108443141int) by (nonlinear_arith);
    assert(a * a * 691541int == 9991108443141int);
    assert(9991108443141int / 115799121int == 86279int);
    assert(srgb_to_linear_spec(81) == 86279);
    assert(86279int * 86279int == 7444065841int) by (nonlinear_arith);
    assert(7444065841int * 86279int == 642266556695639int) by (nonlinear_arith);
    assert(642266556695639int * 86279int == 55414116245143037281int) by (nonlinear_arith);
    assert(55414116245143037281int * 86279int == 4781074535514696113567399int) by (nonlinear_arith);
    assert(4781074535514696113567399int * 1048576int == 5013320012151857991980048973824int) by (nonlinear_arith);
    assert(pow(361int, 12) <= 5013320012151857991980048973824int < pow(361int + 1, 12)) by {
        reveal_with_fuel(pow, 13);
    }
    crate::roots::lemma_iroot_unique(5013320012151857991980048973824int, 12, 361int);
    assert(538050int * 361int == 194236050int) by (nonlinear_arith);
    assert((194236050int - 27699200int) / 2048000int == 81int);
    assert(linear_to_srgb_spec(86279) == 81);
}
/// Round trip at byte value 82.
#[verifier::spinoff_prover]
proof fn case_82()
    ensures
        linear_to_srgb_spec(srgb_to_linear_spec(82)) == 82,
{
    let a = 40 * 82 + 561int;
    assert(a * a == 14753281int) by (nonlinear_arith)
        requires
            a == 3841,
    ;
    assert(14753281int * 0x10000000000000000000000000int == 18702005514985732492742682962512838656int) by (nonlinear_arith);
    assert(a * a * 0x10000000000000000000000000int == 18702005514985732492742682962512838656int);
    assert(18702005514985732492742682962512838656int / 115799121int == 161503864221782240408739224907int);
    assert(pow(694442int, 5) <= 161503864221782240408739224907int < pow(694442int + 1, 5)) by {
        reveal_with_fuel(pow, 6);
    }
    crate::roots::lemma_iroot_unique(161503864221782240408739224907int, 5, 694442int);
    assert(14753281int * 694442int == 10245297964202int) by (nonlinear_arith);
    assert(a * a * 694442int == 10245297964202int);
    assert(10245297964202int / 115799121int == 88474int);
    assert(srgb_to_linear_spec(82) == 88474);
    assert(88474int * 88474int == 7827648676int) by (nonlinear_arith);
    assert(7827648676int * 88474int == 692543388960424int) by (nonlinear_arith);
    assert(692543388960424int * 88474int == 61272083794884552976int) by (nonlinear_arith);
    assert(61272083794884552976int * 88474int == 5420986341668615939998624int) by (nonlinear_arith);
    assert(5420986341668615939998624int * 1048576int == 5684316174201510627899997159424int) by (nonlinear_arith);
    assert(pow(365int, 12) <= 5684316174201510627899997159424int < pow(365int + 1, 12)) by {
        reveal_with_fuel(pow, 13);
    }
    crate::roots::lemma_iroot_unique(5684316174201510627899997159424int, 12, 365int);
    assert(538050int * 365int == 196388250int) by (nonlinear_arith);
    assert((196388250int - 27699200int) / 2048000int == 82int);
    assert(linear_to_srgb_spec(88474) == 82);
}
/// Round trip at byte value 83.
#[verifier::spinoff_prover]
proof fn case_83()
    ensures
        linear_to_srgb_spec(srgb_to_linear_spec(83)) == 83,
{
    let a = 40 * 83 + 561int;
    assert(a * a == 15062161int) by (nonlinear_arith)
        requires
            a == 3881,
    ;
    assert(15062161int * 0x10000000000000000000000000int == 19093557432384227990276984648589377536int) by (nonlinear_arith);
    assert(a * a * 0x10000000000000000000000000int == 19093557432384227990276984648589377536int);
    assert(19093557432384227990276984648589377536int / 115799121int == 164885167240468327823291375835int);
    assert(pow(697326int, 5) <= 164885167240468327823291375835int < pow(697326int + 1, 5)) by {
        reveal_with_fuel(pow, 6);
    }
    crate::roots::lemma_iroot_unique(164885167240468327823291375835int, 5, 697326int);
    assert(15062161int * 697326int == 10503236481486int) by (nonlinear_arith);
    assert(a * a * 697326int == 10503236481486int);
    assert(10503236481486int / 115799121int == 90702int);
    assert(srgb_to_linear_spec(83) == 90702);
    assert(90702int * 90702int == 8226852804int) by (nonlinear_arith);
    assert(8226852804int * 90702int == 746192003028408int) by (nonlinear_arith);
    assert(746192003028408int * 90702int == 67681107058682662416int) by (nonlinear_arith);
    assert(67681107058682662416int * 90702int == 6138811772436634846456032int) by (nonlinear_arith);
    assert(6138811772436634846456032int * 1048576int == 6437010693094516820757480210432int) by (nonlinear_arith);
    assert(pow(369int, 12) <= 6437010693094516820757480210432int < pow(369int + 1, 12)) by {
        reveal_with_fuel(pow, 13);
    }
    crate::roots::lemma_iroot_unique(6437010693094516820757480210432int, 12, 369int);
    assert(538050int * 369int == 198540450int) by (nonlinear_arith);
    assert((198540450int - 27699200int) / 2048000int == 83int);
    assert(linear_to_srgb_spec(90702) == 83);
}
/// Round trip at byte value 84.
#[verifier::spinoff_prover]
proof fn case_84()
    ensures
        linear_to_srgb_spec(srgb_to_linear_spec(84)) == 84,
{
    let a = 40 * 84 + 561int;
    assert(a * a == 15374241int) by (nonlinear_arith)
        requires
            a == 3921,
    ;
    assert(15374241int * 0x10000000000000000000000000int == 19489165831703453821896075784923119616int) by (nonlinear_arith);
    assert(a * a * 0x10000000000000000000000000int == 19489165831703453821896075784923119616int);
    assert(19489165831703453821896075784923119616int / 115799121int == 168301500593458337407380456583int);
    assert(pow(700192int, 5) <= 168301500593458337407380456583int < pow(700192int + 1, 5)) by {
        reveal_with_fuel(pow, 6);
    }
    crate::roots::lemma_iroot_unique(168301500593458337407380456583int, 5, 700192int);
    assert(15374241int * 700192int == 10764920554272int) by (nonlinear_arith);
    assert(a * a * 700192int == 10764920554272int);
    assert(10764920554272int / 115799121int == 92962int);
    assert(srgb_to_linear_spec(84) == 92962);
    assert(92962int * 92962int == 8641933444int) by (nonlinear_arith);
    assert(8641933444int * 92962int == 803371416821128int) by (nonlinear_arith);
    assert(803371416821128int * 92962int == 74683013650525701136int) by (nonlinear_arith);
    assert(74683013650525701136int * 92962int == 6942682314980170229004832int) by (nonlinear_arith);
    assert(6942682314980170229004832int * 1048576int == 7279930051112646978048970719232int) by (nonlinear_arith);
    assert(pow(373int, 12) <= 7279930051112646978048970719232int < pow(373int + 1, 12)) by {
        reveal_with_fuel(pow, 13);
    }
    crate::roots::lemma_iroot_unique(7279930051112646978048970719232int, 12, 373int);
    assert(538050int * 373int == 200692650int) by (nonlinear_arith);
    assert((200692650int - 27699200int) / 2048000int == 84int);
    assert(linear_to_srgb_spec(92962) == 84);
}
/// Round trip at byte value 85.
#[verifier::spinoff_prover]
proof fn case_85()
    ensures
        linear_to_srgb_spec(srgb_to_linear_spec(85)) == 85,
{
    let a = 40 * 85 + 561int;
    assert(a * a == 15689521int) by (nonlinear_arith)
        requires
            a == 3961,
    ;
    assert(15689521int * 0x10000000000000000000000000int == 19888830712943409987599956371514064896int) by (nonlinear_arith);
    assert(a * a * 0x10000000000000000000000000int == 19888830712943409987599956371514064896int);
    assert(19888830712943409987599956371514064896int / 115799121int == 171752864280752269161006467151int);
    assert(pow(703041int, 5) <= 171752864280752269161006467151int < pow(703041int + 1, 5)) by {
        reveal_with_fuel(pow, 6);
    }
    crate::roots::lemma_iroot_unique(171752864280752269161006467151int, 5, 703041int);
    assert(15689521int * 703041int == 11030376533361int) by (nonlinear_arith);
    assert(a * a * 703041int == 11030376533361int);
    assert(11030376533361int / 115799121int == 95254int);
    assert(srgb_to_linear_spec(85) == 95254);
    assert(95254int * 95254int == 9073324516int) by (nonlinear_arith);
    assert(9073324516int * 95254int == 864270453447064int) by (nonlinear_arith);
    assert(864270453447064int * 95254int == 82325217772646634256int) by (nonlinear_arith);
    assert(82325217772646634256int * 95254int == 7841806293715682499421024int) by (nonlinear_arith);
    assert(7841806293715682499421024int * 1048576int == 8222729876239215492512899661824int) by (nonlinear_arith);
    assert(pow(376int, 12) <= 8222729876239215492512899661824int < pow(376int + 1, 12)) by {
        reveal_with_fuel(pow, 13);
    }
    crate::roots::lemma_iroot_unique(8222729876239215492512899661824int, 12, 376int);
    assert(538050int * 376int == 202306800int) by (nonlinear_arith);
    assert((202306800int - 27699200int) / 2048000int == 85int);
    assert(linear_to_srgb_spec(95254) == 85);
}
/// Round trip at byte value 86.
#[verifier::spinoff_prover]
proof fn case_86()
    ensures
        linear_to_srgb_spec(srgb_to_linear_spec(86)) == 86,
{
    let a = 40 * 86 + 561int;
    assert(a * a == 16008001int) by (nonlinear_arith)
        requires
            a == 4001,
    ;
    assert(16008001int * 0x10000000000000000000000000int == 20292552076104096487388626408362213376int) by (nonlinear_arith);
    assert(a * a * 0x10000000000000000000000000int == 20292552076104096487388626408362213376int);
    assert(20292552076104096487388626408362213376int / 115799121int == 175239258302350123084169407541int);
    assert(pow(705872int, 5) <= 175239258302350123084169407541int < pow(705872int + 1, 5)) by {
        reveal_with_fuel(pow, 6);
    }
    crate::roots::lemma_iroot_unique(175239258302350123084169407541int, 5, 705872int);
    assert(16008001int * 705872int == 11299599681872int) by (nonlinear_arith);
    assert(a * a * 705872int == 11299599681872int);
    assert(11299599681872int / 115799121int == 97579int);
    assert(srgb_to_linear_spec(86) == 97579);
    assert(97579int * 97579int == 9521661241int) by (nonlinear_arith);
    assert(9521661241int * 97579int == 929114182235539int) by (nonlinear_arith);
    assert(929114182235539int * 97579int == 90662032788361660081int) by (nonlinear_arith);
    assert(90662032788361660081int * 97579int == 8846710497455542429043899int) by (nonlinear_arith);
    assert(8846710497455542429043899int * 1048576int == 9276448306579942858077135437824int) by (nonlinear_arith);
    assert(pow(380int, 12) <= 9276448306579942858077135437824int < pow(380int + 1, 12)) by {
        reveal_with_fuel(pow, 13);
    }
    crate::roots::lemma_iroot_unique(9276448306579942858077135437824int, 12, 380int);
    assert(538050int * 380int == 204459000int) by (nonlinear_arith);
    assert((204459000int - 27699200int) / 2048000int == 86int);
    assert(linear_to_srgb_spec(97579) == 86);
}
/// Round trip at byte value 87.
#[verifier::spinoff_prover]
proof fn case_87()
    ensures
        linear_to_srgb_spec(srgb_to_linear_spec(87)) == 87,
{
    let a = 40 * 87 + 561int;
    assert(a * a == 16329681int) by (nonlinear_arith)
        requires
            a == 4041,
    ;
    assert(16329681int * 0x10000000000000000000000000int == 20700329921185513321262085895467565056int) by (nonlinear_arith);
    assert(a * a * 0x10000000000000000000000000int == 20700329921185513321262085895467565056int);
    assert(20700329921185513321262085895467565056int / 115799121int == 178760682658251899176869277750int);
    assert(pow(708686int, 5) <= 178760682658251899176869277750int < pow(708686int + 1, 5)) by {
        reveal_with_fuel(pow, 6);
    }
    crate::roots::lemma_iroot_unique(178760682658251899176869277750int, 5, 708686int);
    assert(16329681int * 708686int == 11572616309166int) by (nonlinear_arith);
    assert(a * a * 708686int == 11572616309166int);
    assert(11572616309166int / 115799121int == 99936int);
    assert(srgb_to_linear_spec(87) == 99936);
    assert(99936int * 99936int == 9987204096int) by (nonlinear_arith);
    assert(9987204096int * 99936int == 998081228537856int) by (nonlinear_arith);
    assert(998081228537856int * 99936int == 99744245655159177216int) by (nonlinear_arith);
    assert(99744245655159177216int * 99936int == 9968040933793987534258176int) by (nonlinear_arith);
    assert(9968040933793987534258176int * 1048576int == 10452248490193964272722301157376int) by (nonlinear_arith);
    assert(pow(384int, 12) <= 10452248490193964272722301157376int < pow(384int + 1, 12)) by {
        reveal_with_fuel(pow, 13);
    }
    crate::roots::lemma_iroot_unique(10452248490193964272722301157376int, 12, 384int);
    assert(538050int * 384int == 206611200int) by (nonlinear_arith);
    assert((206611200int - 27699200int) / 2048000int == 87int);
    assert(linear_to_srgb_spec(99936) == 87);
}
/// Round trip at byte value 88.
#[verifier::spinoff_prover]
proof fn case_88()
    ensures
        linear_to_srgb_spec(srgb_to_linear_spec(88)) == 88,
{
    let a = 40 * 88 + 561int;
    assert(a * a == 16654561int) by (nonlinear_arith)
        requires
            a == 4081,
    ;
    assert(16654561int * 0x10000000000000000000000000int == 21112164248187660489220334832830119936int) by (nonlinear_arith);
    assert(a * a * 0x10000000000000000000000000int == 21112164248187660489220334832830119936int);
    assert(21112164248187660489220334832830119936int / 115799121int == 182317137348457597439106077781int);
    assert(pow(711484int, 5) <= 182317137348457597439106077781int < pow(711484int + 1, 5)) by {
        reveal_with_fuel(pow, 6);
    }
    crate::roots::lemma_iroot_unique(182317137348457597439106077781int, 5, 711484int);
    assert(16654561int * 711484int == 11849453678524int) by (nonlinear_arith);
    assert(a * a * 711484int == 11849453678524int);
    assert(11849453678524int / 115799121int == 102327int);
    assert(srgb_to_linear_spec(88) == 102327);
    assert(102327int * 102327int == 10470814929int) by (nonlinear_arith);
    assert(10470814929int * 102327int == 1071447079239783int) by (nonlinear_arith);
    assert(1071447079239783int * 102327int == 109637965277369275041int) by (nonlinear_arith);
    assert(109637965277369275041int * 102327int == 11218924072937365807120407int) by (nonlinear_arith);
    assert(11218924072937365807120407int * 1048576int == 11763894528704371288567087890432int) by (nonlinear_arith);
    assert(pow(388int, 12) <= 11763894528704371288567087890432int < pow(388int + 1, 12)) by {
        reveal_with_fuel(pow, 13);
    }
    crate::roots::lemma_iroot_unique(11763894528704371288567087890432int, 12, 388int);
    assert(538050int * 388int == 208763400int) by (nonlinear_arith);
    assert((208763400int - 27699200int) / 2048000int == 88int);
    assert(linear_to_srgb_spec(102327) == 88);
}
/// Round trip at byte value 89.
#[verifier::spinoff_prover]
proof fn case_89()
    ensures
        linear_to_srgb_spec(srgb_to_linear_spec(89)) == 89,
{
    let a = 40 * 89 + 561int;
    assert(a * a == 16982641int) by (nonlinear_arith)
        requires
            a == 4121,
    ;
    assert(16982641int * 0x10000000000000000000000000int == 21528055057110537991263373220449878016int) by (nonlinear_arith);
    assert(a * a * 0x10000000000000000000000000int == 21528055057110537991263373220449878016int);
    assert(21528055057110537991263373220449878016int / 115799121int == 185908622372967217870879807632int);
    assert(pow(714265int, 5) <= 185908622372967217870879807632int < pow(714265int + 1, 5)) by {
        reveal_with_fuel(pow, 6);
    }
    crate::roots::lemma_iroot_unique(185908622372967217870879807632int, 5, 714265int);
    assert(16982641int * 714265int == 12130106073865int) by (nonlinear_arith);
    assert(a * a * 714265int == 12130106073865int);
    assert(12130106073865int / 115799121int == 104751int);
    assert(srgb_to_linear_spec(89) == 104751);
    assert(104751int * 104751int == 10972772001int) by (nonlinear_arith);
    assert(10972772001int * 104751int == 1149408839876751int) by (nonlinear_arith);
    assert(1149408839876751int * 104751int == 120401725385929544001int) by (nonlinear_arith);
    assert(120401725385929544001int * 104751int == 12612201135901505663648751int) by (nonlinear_arith);
    assert(12612201135901505663648751int * 1048576int == 13224851418279057202766152728576int) by (nonlinear_arith);
    assert(pow(392int, 12) <= 13224851418279057202766152728576int < pow(392int + 1, 12)) by {
        reveal_with_fuel(pow, 13);
    }
    crate::roots::lemma_iroot_unique(13224851418279057202766152728576int, 12, 392int);
    assert(538050int * 392int == 210915600int) by (nonlinear_arith);
    assert((210915600int - 27699200int) / 2048000int == 89int);
    assert(linear_to_srgb_spec(104751) == 89);
}
/// Round trip at byte value 90.
#[verifier::spinoff_prover]
proof fn case_90()
    ensures
        linear_to_srgb_spec(srgb_to_linear_spec(90)) == 90,
{
    let a = 40 * 90 + 561int;
    assert(a * a == 17313921int) by (nonlinear_arith)
        requires
            a == 4161,
    ;
    assert(17313921int * 0x10000000000000000000000000int == 21948002347954145827391201058326839296int) by (nonlinear_arith);
    assert(a * a * 0x10000000000000000000000000int == 21948002347954145827391201058326839296int);
    assert(21948002347954145827391201058326839296int / 115799121int == 189535137731780760472190467303int);
    assert(pow(717031int, 5) <= 189535137731780760472190467303int < pow(717031int + 1, 5)) by {
        reveal_with_fuel(pow, 6);
    }
    crate::roots::lemma_iroot_unique(189535137731780760472190467303int, 5, 717031int);
    assert(17313921int * 717031int == 12414618088551int) by (nonlinear_arith);
    assert(a * a * 717031int == 12414618088551int);
    assert(12414618088551int / 115799121int == 107208int);
    assert(srgb_to_linear_spec(90) == 107208);
    assert(107208int * 107208int == 11493555264int) by (nonlinear_arith);
    assert(11493555264int * 107208int == 1232201072742912int) by (nonlinear_arith);
    assert(1232201072742912int * 107208int == 132101812606622109696int) by (nonlinear_arith);
    assert(132101812606622109696int * 107208int == 14162371125930743136288768int) by (nonlinear_arith);
    assert(14162371125930743136288768int * 1048576int == 14850322465743954914877131194368int) by (nonlinear_arith);
    assert(pow(395int, 12) <= 14850322465743954914877131194368int < pow(395int + 1, 12)) by {
        reveal_with_fuel(pow, 13);
    }
    crate::roots::lemma_iroot_unique(14850322465743954914877131194368int, 12, 395int);
    assert(538050int * 395int == 212529750int) by (nonlinear_arith);
    assert((212529750int - 27699200int) / 2048000int == 90int);
    assert(linear_to_srgb_spec(107208) == 90);
}
/// Round trip at byte value 91.
#[verifier::spinoff_prover]
proof fn case_91()
    ensures
        linear_to_srgb_spec(srgb_to_linear_spec(91)) == 91,
{
    let a = 40 * 91 + 561int;
    assert(a * a == 17648401int) by (nonlinear_arith)
        requires
            a == 4201,
    ;
    assert(17648401int * 0x10000000000000000000000000int == 22372006120718483997603818346461003776int) by (nonlinear_arith);
    assert(a * a * 0x10000000000000000000000000int == 22372006120718483997603818346461003776int);
    assert(22372006120718483997603818346461003776int / 115799121int == 193196683424898225243038056795int);
    assert(pow(719780int, 5) <= 193196683424898225243038056795int < pow(719780int + 1, 5)) by {
        reveal_with_fuel(pow, 6);
    }
    crate::roots::lemma_iroot_unique(193196683424898225243038056795int, 5, 719780int);
    assert(17648401int * 719780int == 12702966071780int) by (nonlinear_arith);
    assert(a * a * 719780int == 12702966071780int);
    assert(12702966071780int / 115799121int == 109698int);
    assert(srgb_to_linear_spec(91) == 109698);
    assert(109698int * 109698int == 12033651204int) by (nonlinear_arith);
    assert(12033651204int * 109698int == 1320067469776392int) by (nonlinear_arith);
    assert(1320067469776392int * 109698int == 144808761299530649616int) by (nonlinear_arith);
    assert(144808761299530649616int * 109698int == 15885231497035913201575968int) by (nonlinear_arith);
    assert(15885231497035913201575968int * 1048576int == 16656872502235929721255722221568int) by (nonlinear_arith);
    assert(pow(399int, 12) <= 16656872502235929721255722221568int < pow(399int + 1, 12)) by {
        reveal_with_fuel(pow, 13);
    }
    crate::roots::lemma_iroot_unique(16656872502235929721255722221568int, 12, 399int);
    assert(538050int * 399int == 214681950int) by (nonlinear_arith);
    assert((214681950int - 27699200int) / 2048000int == 91int);
    assert(linear_to_srgb_spec(109698) == 91);
}
/// Round trip at byte value 92.
#[verifier::spinoff_prover]
proof fn case_92()
    ensures
        linear_to_srgb_spec(srgb_to_linear_spec(92)) == 92,
{
    let a = 40 * 92 + 561int;
    assert(a * a == 17986081int) by (nonlinear_arith)
        requires
            a == 4241,
    ;
    assert(17986081int * 0x10000000000000000000000000int == 22800066375403552501901225084852371456int) by (nonlinear_arith);
    assert(a * a * 0x10000000000000000000000000int == 22800066375403552501901225084852371456int);
    assert(22800066375403552501901225084852371456int / 115799121int == 196893259452319612183422576107int);
    assert(pow(722513int, 5) <= 196893259452319612183422576107int < pow(722513int + 1, 5)) by {
        reveal_with_fuel(pow, 6);
    }
    crate::roots::lemma_iroot_unique(196893259452319612183422576107int, 5, 722513int);
    assert(17986081int * 722513int == 12995177341553int) by (nonlinear_arith);
    assert(a * a * 722513int == 12995177341553int);
    assert(12995177341553int / 115799121int == 112221int);
    assert(srgb_to_linear_spec(92) == 112221);
    assert(112221int * 112221int == 12593552841int) by (nonlinear_arith);
    assert(12593552841int * 112221int == 1413261093369861int) by (nonlinear_arith);
    assert(1413261093369861int * 112221int == 158597573159059171281int) by (nonlinear_arith);
    assert(158597573159059171281int * 112221int == 17797978257482779260325101int) by (nonlinear_arith);
    assert(17797978257482779260325101int * 1048576int == 18662532849318262745674653106176int) by (nonlinear_arith);
    assert(pow(403int, 12) <= 18662532849318262745674653106176int < pow(403int + 1, 12)) by {
        reveal_with_fuel(pow, 13);
    }
    crate::roots::lemma_iroot_unique(18662532849318262745674653106176int, 12, 403int);
    assert(538050int * 403int == 216834150int) by (nonlinear_arith);
    assert((216834150int - 27699200int) / 2048000int == 92int);
    assert(linear_to_srgb_spec(112221) == 92);
}
/// Round trip at byte value 93.
#[verifier::spinoff_prover]
proof fn case_93()
    ensures
        linear_to_srgb_spec(srgb_to_linear_spec(93)) == 93,
{
    let a = 40 * 93 + 561int;
    assert(a * a == 18326961int) by (nonlinear_arith)
        requires
            a == 4281,
    ;
    assert(18326961int * 0x10000000000000000000000000int == 23232183112009351340283421273500942336int) by (nonlinear_arith);
    assert(a * a * 0x10000000000000000000000000int == 23232183112009351340283421273500942336int);
    assert(23232183112009351340283421273500942336int / 115799121int == 200624865814044921293344025240int);
    assert(pow(725231int, 5) <= 200624865814044921293344025240int < pow(725231int + 1, 5)) by {
        reveal_with_fuel(pow, 6);
    }
    crate::roots::lemma_iroot_unique(200624865814044921293344025240int, 5, 725231int);
    assert(18326961int * 725231int == 13291280252991int) by (nonlinear_arith);
    assert(a * a * 725231int == 13291280252991int);
    assert(13291280252991int / 115799121int == 114778int);
    assert(srgb_to_linear_spec(93) == 114778);
    assert(114778int * 114778int == 13173989284int) by (nonlinear_arith);
    assert(13173989284int * 114778int == 1512084142038952int) by (nonlinear_arith);
    assert(1512084142038952int * 114778int == 173553993654946832656int) by (nonlinear_arith);
    assert(173553993654946832656int * 114778int == 19920180283727487558590368int) by (nonlinear_arith);
    assert(19920180283727487558590368int * 1048576int == 20887822961189833994236453715968int) by (nonlinear_arith);
    assert(pow(407int, 12) <= 20887822961189833994236453715968int < pow(407int + 1, 12)) by {
        reveal_with_fuel(pow, 13);
    }
    crate::roots::lemma_iroot_unique(20887822961189833994236453715968int, 12, 407int);
    assert(538050int * 407int == 218986350int) by (nonlinear_arith);
    assert((218986350int - 27699200int) / 2048000int == 93int);
    assert(linear_to_srgb_spec(114778) == 93);
}
/// Round trip at byte value 94.
#[verifier::spinoff_prover]
proof fn case_94()
    ensures
        linear_to_srgb_spec(srgb_to_linear_spec(94)) == 94,
{
    let a = 40 * 94 + 561int;
    assert(a * a == 18671041int) by (nonlinear_arith)
        requires
            a == 4321,
    ;
    assert(18671041int * 0x10000000000000000000000000int == 23668356330535880512750406912406716416int) by (nonlinear_arith);
    assert(a * a * 0x10000000000000000000000000int == 23668356330535880512750406912406716416int);
    assert(23668356330535880512750406912406716416int / 115799121int == 204391502510074152572802404194int);
    assert(pow(727934int, 5) <= 204391502510074152572802404194int < pow(727934int + 1, 5)) by {
        reveal_with_fuel(pow, 6);
    }
    crate::roots::lemma_iroot_unique(204391502510074152572802404194int, 5, 727934int);
    assert(18671041int * 727934int == 13591285559294int) by (nonlinear_arith);
    assert(a * a * 727934int == 13591285559294int);
    assert(13591285559294int / 115799121int == 117369int);
    assert(srgb_to_linear_spec(94) == 117369);
    assert(117369int * 117369int == 13775482161int) by (nonlinear_arith);
    assert(13775482161int * 117369int == 1616814565754409int) by (nonlinear_arith);
    assert(1616814565754409int * 117369int == 189763908768029229921int) by (nonlinear_arith);
    assert(189763908768029229921int * 117369int == 22272400208194822686597849int) by (nonlinear_arith);
    assert(22272400208194822686597849int * 1048576int == 23354304320708094393422026113024int) by (nonlinear_arith);
    assert(pow(411int, 12) <= 23354304320708094393422026113024int < pow(411int + 1, 12)) by {
        reveal_with_fuel(pow, 13);
    }
    crate::roots::lemma_iroot_unique(23354304320708094393422026113024int, 12, 411int);
    assert(538050int * 411int == 221138550int) by (nonlinear_arith);
    assert((221138550int - 27699200int) / 2048000int == 94int);
    assert(linear_to_srgb_spec(117369) == 94);
}
/// Round trip at byte value 95.
#[verifier::spinoff_prover]
proof fn case_95()
    ensures
        linear_to_srgb_spec(srgb_to_linear_spec(95)) == 95,
{
    let a = 40 * 95 + 561int;
    assert(a * a == 19018321int) by (nonlinear_arith)
        requires
            a == 4361,
    ;
    assert(19018321int * 0x10000000000000000000000000int == 24108586030983140019302182001569693696int) by (nonlinear_arith);
    assert(a * a * 0x10000000000000000000000000int == 24108586030983140019302182001569693696int);
    assert(24108586030983140019302182001569693696int / 115799121int == 208193169540407306021797712968int);
    assert(pow(730622int, 5) <= 208193169540407306021797712968int < pow(730622int + 1, 5)) by {
        reveal_with_fuel(pow, 6);
    }
    crate::roots::lemma_iroot_unique(208193169540407306021797712968int, 5, 730622int);
    assert(19018321int * 730622int == 13895203725662int) by (nonlinear_arith);
    assert(a * a * 730622int == 13895203725662int);
    assert(13895203725662int / 115799121int == 119994int);
    assert(srgb_to_linear_spec(95) == 119994);
    assert(119994int * 119994int == 14398560036int) by (nonlinear_arith);
    assert(14398560036int * 119994int == 1727740812959784int) by (nonlinear_arith);
    assert(1727740812959784int * 119994int == 207318531110296321296int) by (nonlinear_arith);
    assert(207318531110296321296int * 119994int == 24876979822048896777592224int) by (nonlinear_arith);
    assert(24876979822048896777592224int * 1048576int == 26085403993884743987460543873024int) by (nonlinear_arith);
    assert(pow(414int, 12) <= 26085403993884743987460543873024int < pow(414int + 1, 12)) by {
        reveal_with_fuel(pow, 13);
    }
    crate::roots::lemma_iroot_unique(26085403993884743987460543873024int, 12, 414int);
    assert(538050int * 414int == 222752700int) by (nonlinear_arith);
    assert((222752700int - 27699200int) / 2048000int == 95int);
    assert(linear_to_srgb_spec(119994) == 95);
}
/// Round trip at byte value 96.
#[verifier::spinoff_prover]
proof fn case_96()
    ensures
        linear_to_srgb_spec(srgb_to_linear_spec(96)) == 96,
{
    let a = 40 * 96 + 561int;
    assert(a * a == 19368801int) by (nonlinear_arith)
        requires
            a == 4401,
    ;
    assert(19368801int * 0x10000000000000000000000000int == 24552872213351129859938746540989874176int) by (nonlinear_arith);
    assert(a * a * 0x10000000000000000000000000int == 24552872213351129859938746540989874176int);
    assert(24552872213351129859938746540989874176int / 115799121int == 212029866905044381640329951563int);
    assert(pow(733296int, 5) <= 212029866905044381640329951563int < pow(733296int + 1, 5)) by {
        reveal_with_fuel(pow, 6);
    }
    crate::roots::lemma_iroot_unique(212029866905044381640329951563int, 5, 733296int);
    assert(19368801int * 733296int == 14203064298096int) by (nonlinear_arith);
    assert(a * a * 733296int == 14203064298096int);
    assert(14203064298096int / 115799121int == 122652int);
    assert(srgb_to_linear_spec(96) == 122652);
    assert(122652int * 122652int == 15043513104int) by (nonlinear_arith);
    assert(15043513104int * 122652int == 1845116969231808int) by (nonlinear_arith);
    assert(1845116969231808int * 122652int == 226307286510219714816int) by (nonlinear_arith);
    assert(226307286510219714816int * 122652int == 27757041305051468461612032int) by (nonlinear_arith);
    assert(27757041305051468461612032int * 1048576int == 29105367343485648593603298066432int) by (nonlinear_arith);
    assert(pow(418int, 12) <= 29105367343485648593603298066432int < pow(418int + 1, 12)) by {
        reveal_with_fuel(pow, 13);
    }
    crate::roots::lemma_iroot_unique(29105367343485648593603298066432int, 12, 418int);
    assert(538050int * 418int == 224904900int) by (nonlinear_arith);
    assert((224904900int - 27699200int) / 2048000int == 96int);
    assert(linear_to_srgb_spec(122652) == 96);
}
/// Round trip at byte value 97.
#[verifier::spinoff_prover]
proof fn case_97()
    ensures
        linear_to_srgb_spec(srgb_to_linear_spec(97)) == 97,
{
    let a = 40 * 97 + 561int;
    assert(a * a == 19722481int) by (nonlinear_arith)
        requires
            a == 4441,
    ;
    assert(19722481int * 0x10000000000000000000000000int == 25001214877639850034660100530667257856int) by (nonlinear_arith);
    assert(a * a * 0x10000000000000000000000000int == 25001214877639850034660100530667257856int);
    assert(25001214877639850034660100530667257856int / 115799121int == 215901594603985379428399119978int);
    assert(pow(735954int, 5) <= 215901594603985379428399119978int < pow(735954int + 1, 5)) by {
        reveal_with_fuel(pow, 6);
    }
    crate::roots::lemma_iroot_unique(215901594603985379428399119978int, 5, 735954int);
    assert(19722481int * 735954int == 14514838781874int) by (nonlinear_arith);
    assert(a * a * 735954int == 14514838781874int);
    assert(14514838781874int / 115799121int == 125344int);
    assert(srgb_to_linear_spec(97) == 125344);
    assert(125344int * 125344int == 15711118336int) by (nonlinear_arith);
    assert(15711118336int * 125344int == 1969294416707584int) by (nonlinear_arith);
    assert(1969294416707584int * 125344int == 246839239367795408896int) by (nonlinear_arith);
    assert(246839239367795408896int * 125344int == 30939817619316947732660224int) by (nonlinear_arith);
    assert(30939817619316947732660224int * 1048576int == 32442750199992887785721927041024int) by (nonlinear_arith);
    assert(pow(422int, 12) <= 32442750199992887785721927041024int < pow(422int + 1, 12)) by {
        reveal_with_fuel(pow, 13);
    }
    crate::roots::lemma_iroot_unique(32442750199992887785721927041024int, 12, 422int);
    assert(538050int * 422int == 227057100int) by (nonlinear_arith);
    assert((227057100int - 27699200int) / 2048000int == 97int);
    assert(linear_to_srgb_spec(125344) == 97);
}
/// Round trip at byte value 98.
#[verifier::spinoff_prover]
proof fn case_98()
    ensures
        linear_to_srgb_spec(srgb_to_linear_spec(98)) == 98,
{
    let a = 40 * 98 + 561int;
    assert(a * a == 20079361int) by (nonlinear_arith)
        requires
            a == 4481,
    ;
    assert(20079361int * 0x10000000000000000000000000int == 25453614023849300543466243970601844736int) by (nonlinear_arith);
    assert(a * a * 0x10000000000000000000000000int == 25453614023849300543466243970601844736int);
    assert(25453614023849300543466243970601844736int / 115799121int == 219808352637230299386005218214int);
    assert(pow(738599int, 5) <= 219808352637230299386005218214int < pow(738599int + 1, 5)) by {
        reveal_with_fuel(pow, 6);
    }
    crate::roots::lemma_iroot_unique(219808352637230299386005218214int, 5, 738599int);
    assert(20079361int * 738599int == 14830595955239int) by (nonlinear_arith);
    assert(a * a * 738599int == 14830595955239int);
    assert(14830595955239int / 115799121int == 128071int);
    assert(srgb_to_linear_spec(98) == 128071);
    assert(128071int * 128071int == 16402181041int) by (nonlinear_arith);
    assert(16402181041int * 128071int == 2100643728101911int) by (nonlinear_arith);
    assert(2100643728101911int * 128071int == 269031542901739843681int) by (nonlinear_arith);
    assert(269031542901739843681int * 128071int == 34455138730968723520069351int) by (nonlinear_arith);
    assert(34455138730968723520069351int * 1048576int == 36128831549964260233780239794176int) by (nonlinear_arith);
    assert(pow(426int, 12) <= 36128831549964260233780239794176int < pow(426int + 1, 12)) by {
        reveal_with_fuel(pow, 13);
    }
    crate::roots::lemma_iroot_unique(36128831549964260233780239794176int, 12, 426int);
    assert(538050int * 426int == 229209300int) by (nonlinear_arith);
    assert((229209300int - 27699200int) / 2048000int == 98int);
    assert(linear_to_srgb_spec(128071) == 98);
}
/// Round trip at byte value 99.
#[verifier::spinoff_prover]
proof fn case_99()
    ensures
        linear_to_srgb_spec(srgb_to_linear_spec(99)) == 99,
{
    let a = 40 * 99 + 561int;
    assert(a * a == 20439441int) by (nonlinear_arith)
        requires
            a == 4521,
    ;
    assert(20439441int * 0x10000000000000000000000000int == 25910069651979481386357176860793634816int) by (nonlinear_arith);
    assert(a * a * 0x10000000000000000000000000int == 25910069651979481386357176860793634816int);
    assert(25910069651979481386357176860793634816int / 115799121int == 223750141004779141513148246270int);
    assert(pow(741229int, 5) <= 223750141004779141513148246270int < pow(741229int + 1, 5)) by {
        reveal_with_fuel(pow, 6);
    }
    crate::roots::lemma_iroot_unique(223750141004779141513148246270int, 5, 741229int);
    assert(20439441int * 741229int == 15150306412989int) by (nonlinear_arith);
    assert(a * a * 741229int == 15150306412989int);
    assert(15150306412989int / 115799121int == 130832int);
    assert(srgb_to_linear_spec(99) == 130832);
    assert(130832int * 130832int == 17117012224int) by (nonlinear_arith);
    assert(17117012224int * 130832int == 2239452943290368int) by (nonlinear_arith);
    assert(2239452943290368int * 130832int == 292992107476565426176int) by (nonlinear_arith);
    assert(292992107476565426176int * 130832int == 38332743405374007837458432int) by (nonlinear_arith);
    assert(38332743405374007837458432int * 1048576int == 40194794749033455642170812792832int) by (nonlinear_arith);
    assert(pow(430int, 12) <= 40194794749033455642170812792832int < pow(430int + 1, 12)) by {
        reveal_with_fuel(pow, 13);
    }
    crate::roots::lemma_iroot_unique(40194794749033455642170812792832int, 12, 430int);
    assert(538050int * 430int == 231361500int) by (nonlinear_arith);
    assert((231361500int - 27699200int) / 2048000int == 99int);
    assert(linear_to_srgb_spec(130832) == 99);
}
/// Round trip at byte value 100.
#[verifier::spinoff_prover]
proof fn case_100()
    ensures
        linear_to_srgb_spec(srgb_to_linear_spec(100)) == 100,
{
    let a = 40 * 100 + 561int;
    assert(a * a == 20802721int) by (nonlinear_arith)
        requires
            a == 4561,
    ;
    assert(20802721int * 0x10000000000000000000000000int == 26370581762030392563332899201242628096int) by (nonlinear_arith);
    assert(a * a * 0x10000000000000000000000000int == 26370581762030392563332899201242628096int);
    assert(26370581762030392563332899201242628096int / 115799121int == 227726959706631905809828204147int);
    assert(pow(743845int, 5) <= 227726959706631905809828204147int < pow(743845int + 1, 5)) by {
        reveal_with_fuel(pow, 6);
    }
    crate::roots::lemma_iroot_unique(227726959706631905809828204147int, 5, 743845int);
    assert(20802721int * 743845int == 15474000002245int) by (nonlinear_arith);
    assert(a * a * 743845int == 15474000002245int);
    assert(15474000002245int / 115799121int == 133627int);
    assert(srgb_to_linear_spec(100) == 133627);
    assert(133627int * 133627int == 17856175129int) by (nonlinear_arith);
    assert(17856175129int * 133627int == 2386067113962883int) by (nonlinear_arith);
    assert(2386067113962883int * 133627int == 318842990237518166641int) by (nonlinear_arith);
    assert(318842990237518166641int * 133627int == 42606032256468840053736907int) by (nonlinear_arith);
    assert(42606032256468840053736907int * 1048576int == 44675662879359070428187230994432int) by (nonlinear_arith);
    assert(pow(434int, 12) <= 44675662879359070428187230994432int < pow(434int + 1, 12)) by {
        reveal_with_fuel(pow, 13);
    }
    crate::roots::lemma_iroot_unique(44675662879359070428187230994432int, 12, 434int);
    assert(538050int * 434int == 233513700int) by (nonlinear_arith);
    assert((233513700int - 27699200int) / 2048000int == 100int);
    assert(linear_to_srgb_spec(133627) == 100);
}
/// Round trip at byte value 101.
#[verifier::spinoff_prover]
proof fn case_101()
    ensures
        linear_to_srgb_spec(srgb_to_linear_spec(101)) == 101,
{
    let a = 40 * 101 + 561int;
    assert(a * a == 21169201int) by (nonlinear_arith)
        requires
            a == 4601,
    ;
    assert(21169201int * 0x10000000000000000000000000int == 26835150354002034074393410991948824576int) by (nonlinear_arith);
    assert(a * a * 0x10000000000000000000000000int == 26835150354002034074393410991948824576int);
    assert(26835150354002034074393410991948824576int / 115799121int == 231738808742788592276045091844int);
    assert(pow(746448int, 5) <= 231738808742788592276045091844int < pow(746448int + 1, 5)) by {
        reveal_with_fuel(pow, 6);
    }
    crate::roots::lemma_iroot_unique(231738808742788592276045091844int, 5, 746448int);
    assert(21169201int * 746448int == 15801707748048int) by (nonlinear_arith);
    assert(a * a * 746448int == 15801707748048int);
    assert(15801707748048int / 115799121int == 136457int);
    assert(srgb_to_linear_spec(101) == 136457);
    assert(136457int * 136457int == 18620512849int) by (nonlinear_arith);
    assert(18620512849int * 136457int == 2540899321835993int) by (nonlinear_arith);
    assert(2540899321835993int * 136457int == 346723498759774096801int) by (nonlinear_arith);
    assert(346723498759774096801int * 136457int == 47312848470262493927174057int) by (nonlinear_arith);
    assert(47312848470262493927174057int * 1048576int == 49611117397553964832180463992832int) by (nonlinear_arith);
    assert(pow(437int, 12) <= 49611117397553964832180463992832int < pow(437int + 1, 12)) by {
        reveal_with_fuel(pow, 13);
    }
    crate::roots::lemma_iroot_unique(49611117397553964832180463992832int, 12, 437int);
    assert(538050int * 437int == 235127850int) by (nonlinear_arith);
    assert((235127850int - 27699200int) / 2048000int == 101int);
    assert(linear_to_srgb_spec(136457) == 101);
}
/// Round trip at byte value 102.
#[verifier::spinoff_prover]
proof fn case_102()
    ensures
        linear_to_srgb_spec(srgb_to_linear_spec(102)) == 102,
{
    let a = 40 * 102 + 561int;
    assert(a * a == 21538881int) by (nonlinear_arith)
        requires
            a == 4641,
    ;
    assert(21538881int * 0x10000000000000000000000000int == 27303775427894405919538712232912224256int) by (nonlinear_arith);
    assert(a * a * 0x10000000000000000000000000int == 27303775427894405919538712232912224256int);
    assert(27303775427894405919538712232912224256int / 115799121int == 235785688113249200911798909362int);
    assert(pow(749037int, 5) <= 235785688113249200911798909362int < pow(749037int + 1, 5)) by {
        reveal_with_fuel(pow, 6);
    }
    crate::roots::lemma_iroot_unique(235785688113249200911798909362int, 5, 749037int);
    assert(21538881int * 749037int == 16133418807597int) by (nonlinear_arith);
    assert(a * a * 749037int == 16133418807597int);
    assert(16133418807597int / 115799121int == 139322int);
    assert(srgb_to_linear_spec(102) == 139322);
    assert(139322int * 139322int == 19410619684int) by (nonlinear_arith);
    assert(19410619684int * 139322int == 2704326355614248int) by (nonlinear_arith);
    assert(2704326355614248int * 139322int == 376772156516888259856int) by (nonlinear_arith);
    assert(376772156516888259856int * 139322int == 52492650390245906139657632int) by (nonlinear_arith);
    assert(52492650390245906139657632int * 1048576int == 55042533375602491276297641132032int) by (nonlinear_arith);
    assert(pow(441int, 12) <= 55042533375602491276297641132032int < pow(441int + 1, 12)) by {
        reveal_with_fuel(pow, 13);
    }
    crate::roots::lemma_iroot_unique(55042533375602491276297641132032int, 12, 441int);
    assert(538050int * 441int == 237280050int) by (nonlinear_arith);
    assert((237280050int - 27699200int) / 2048000int == 102int);
    assert(linear_to_srgb_spec(139322) == 102);
}
/// Round trip at byte value 103.
#[verifier::spinoff_prover]
proof fn case_103()
    ensures
        linear_to_srgb_spec(srgb_to_linear_spec(103)) == 103,
{
    let a = 40 * 103 + 561int;
    assert(a * a == 21911761int) by (nonlinear_arith)
        requires
            a == 4681,
    ;
    assert(21911761int * 0x10000000000000000000000000int == 27776456983707508098768802924132827136int) by (nonlinear_arith);
    assert(a * a * 0x10000000000000000000000000int == 27776456983707508098768802924132827136int);
    assert(27776456983707508098768802924132827136int / 115799121int == 239867597818013731717089656700int);
    assert(pow(751613int, 5) <= 239867597818013731717089656700int < pow(751613int + 1, 5)) by {
        reveal_with_fuel(pow, 6);
    }
    crate::roots::lemma_iroot_unique(239867597818013731717089656700int, 5, 751613int);
    assert(21911761int * 751613int == 16469164420493int) by (nonlinear_arith);
    assert(a * a * 751613int == 16469164420493int);
    assert(16469164420493int / 115799121int == 142221int);
    assert(srgb_to_linear_spec(103) == 142221);
    assert(142221int * 142221int == 20226812841int) by (nonlinear_arith);
    assert(20226812841int * 142221int == 2876677549059861int) by (nonlinear_arith);
    assert(2876677549059861int * 142221int == 409123957704842491281int) by (nonlinear_arith);
    assert(409123957704842491281int * 142221int == 58186018388740403952475101int) by (nonlinear_arith);
    assert(58186018388740403952475101int * 1048576int == 61012462417991857814870531506176int) by (nonlinear_arith);
    assert(pow(445int, 12) <= 61012462417991857814870531506176int < pow(445int + 1, 12)) by {
        reveal_with_fuel(pow, 13);
    }
    crate::roots::lemma_iroot_unique(61012462417991857814870531506176int, 12, 445int);
    assert(538050int * 445int == 239432250int) by (nonlinear_arith);
    assert((239432250int - 27699200int) / 2048000int == 103int);
    assert(linear_to_srgb_spec(142221) == 103);
}
/// Round trip at byte value 104.
#[verifier::spinoff_prover]
proof fn case_104()
    ensures
        linear_to_srgb_spec(srgb_to_linear_spec(104)) == 104,
{
    let a = 40 * 104 + 561int;
    assert(a * a == 22287841int) by (nonlinear_arith)
        requires
            a == 4721,
    ;
    assert(22287841int * 0x10000000000000000000000000int == 28253195021441340612083683065610633216int) by (nonlinear_arith);
    assert(a * a * 0x10000000000000000000000000int == 28253195021441340612083683065610633216int);
    assert(28253195021441340612083683065610633216int / 115799121int == 243984537857082184691917333859int);
    assert(pow(754175int, 5) <= 243984537857082184691917333859int < pow(754175int + 1, 5)) by {
        reveal_with_fuel(pow, 6);
    }
    crate::roots::lemma_iroot_unique(243984537857082184691917333859int, 5, 754175int);
    assert(22287841int * 754175int == 16808932486175int) by (nonlinear_arith);
    assert(a * a * 754175int == 16808932486175int);
    assert(16808932486175int / 115799121int == 145155int);
    assert(srgb_to_linear_spec(104) == 145155);
    assert(145155int * 145155int == 21069974025int) by (nonlinear_arith);
    assert(21069974025int * 145155int == 3058412079598875int) by (nonlinear_arith);
    assert(3058412079598875int * 145155int == 443943805414174700625int) by (nonlinear_arith);
    assert(443943805414174700625int * 145155int == 64440663074894528669221875int) by (nonlinear_arith);
    assert(64440663074894528669221875int * 1048576int == 67570932724420605293857996800000int) by (nonlinear_arith);
    assert(pow(449int, 12) <= 67570932724420605293857996800000int < pow(449int + 1, 12)) by {
        reveal_with_fuel(pow, 13);
    }
    crate::roots::lemma_iroot_unique(67570932724420605293857996800000int, 12, 449int);
    assert(538050int * 449int == 241584450int) by (nonlinear_arith);
    assert((241584450int - 27699200int) / 2048000int == 104int);
    assert(linear_to_srgb_spec(145155) == 104);
}
/// Round trip at byte value 105.
#[verifier::spinoff_prover]
proof fn case_105()
    ensures
        linear_to_srgb_spec(srgb_to_linear_spec(105)) == 105,
{
    let a = 40 * 105 + 561int;
    assert(a * a == 22667121int) by (nonlinear_arith)
        requires
            a == 4761,
    ;
    assert(22667121int * 0x10000000000000000000000000int == 28733989541095903459483352657345642496int) by (nonlinear_arith);
    assert(a * a * 0x10000000000000000000000000int == 28733989541095903459483352657345642496int);
    assert(28733989541095903459483352657345642496int / 115799121int == 248136508230454559836281940839int);
    assert(pow(756725int, 5) <= 248136508230454559836281940839int < pow(756725int + 1, 5)) by {
        reveal_with_fuel(pow, 6);
    }
    crate::roots::lemma_iroot_unique(248136508230454559836281940839int, 5, 756725int);
    assert(22667121int * 756725int == 17152777138725int) by (nonlinear_arith);
    assert(a * a * 756725int == 17152777138725int);
    assert(17152777138725int / 115799121int == 148125int);
    assert(srgb_to_linear_spec(105) == 148125);
    assert(148125int * 148125int == 21941015625int) by (nonlinear_arith);
    assert(21941015625int * 148125int == 3250012939453125int) by (nonlinear_arith);
    assert(3250012939453125int * 148125int == 481408166656494140625int) by (nonlinear_arith);
    assert(481408166656494140625int * 148125int == 71308584685993194580078125int) by (nonlinear_arith);
    assert(71308584685993194580078125int * 1048576int == 74772470495700000000000000000000int) by (nonlinear_arith);
    assert(pow(453int, 12) <= 74772470495700000000000000000000int < pow(453int + 1, 12)) by {
        reveal_with_fuel(pow, 13);
    }
    crate::roots::lemma_iroot_unique(74772470495700000000000000000000int, 12, 453int);
    assert(538050int * 453int == 243736650int) by (nonlinear_arith);
    assert((243736650int - 27699200int) / 2048000int == 105int);
    assert(linear_to_srgb_spec(148125) == 105);
}
/// Round trip at byte value 106.
#[verifier::spinoff_prover]
proof fn case_106()
    ensures
        linear_to_srgb_spec(srgb_to_linear_spec(106)) == 106,
{
    let a = 40 * 106 + 561int;
    assert(a * a == 23049601int) by (nonlinear_arith)
        requires
            a == 4801,
    ;
    assert(23049601int * 0x10000000000000000000000000int == 29218840542671196640967811699337854976int) by (nonlinear_arith);
    assert(a * a * 0x10000000000000000000000000int == 29218840542671196640967811699337854976int);
    assert(29218840542671196640967811699337854976int / 115799121int == 252323508938130857150183477639int);
    assert(pow(759261int, 5) <= 252323508938130857150183477639int < pow(759261int + 1, 5)) by {
        reveal_with_fuel(pow, 6);
    }
    crate::roots::lemma_iroot_unique(252323508938130857150183477639int, 5, 759261int);
    assert(23049601int * 759261int == 17500663104861int) by (nonlinear_arith);
    assert(a * a * 759261int == 17500663104861int);
    assert(17500663104861int / 115799121int == 151129int);
    assert(srgb_to_linear_spec(106) == 151129);
    assert(151129int * 151129int == 22839974641int) by (nonlinear_arith);
    assert(22839974641int * 151129int == 3451782527519689int) by (nonlinear_arith);
    assert(3451782527519689int * 151129int == 521664441601523078881int) by (nonlinear_arith);
    assert(521664441601523078881int * 151129int == 78838625394796581388206649int) by (nonlinear_arith);
    assert(78838625394796581388206649int * 1048576int == 82668290461974220125720175181824int) by (nonlinear_arith);
    assert(pow(456int, 12) <= 82668290461974220125720175181824int < pow(456int + 1, 12)) by {
        reveal_with_fuel(pow, 13);
    }
    crate::roots::lemma_iroot_unique(82668290461974220125720175181824int, 12, 456int);
    assert(538050int * 456int == 245350800int) by (nonlinear_arith);
    assert((245350800int - 27699200int) / 2048000int == 106int);
    assert(linear_to_srgb_spec(151129) == 106);
}
/// Round trip at byte value 107.
#[verifier::spinoff_prover]
proof fn case_107()
    ensures
        linear_to_srgb_spec(srgb_to_linear_spec(107)) == 107,
{
    let a = 40 * 107 + 561int;
    assert(a * a == 23435281int) by (nonlinear_arith)
        requires
            a == 4841,
    ;
    assert(23435281int * 0x10000000000000000000000000int == 29707748026167220156537060191587270656int) by (nonlinear_arith);
    assert(a * a * 0x10000000000000000000000000int == 29707748026167220156537060191587270656int);
    assert(29707748026167220156537060191587270656int / 115799121int == 256545539980111076633621944259int);
    assert(pow(761785int, 5) <= 256545539980111076633621944259int < pow(761785int + 1, 5)) by {
        reveal_with_fuel(pow, 6);
    }
    crate::roots::lemma_iroot_unique(256545539980111076633621944259int, 5, 761785int);
    assert(23435281int * 761785int == 17852645536585int) by (nonlinear_arith);
    assert(a * a * 761785int == 17852645536585int);
    assert(17852645536585int / 115799121int == 154169int);
    assert(srgb_to_linear_spec(107) == 154169);
    assert(154169int * 154169int == 23768080561int) by (nonlinear_arith);
    assert(23768080561int * 154169int == 3664301212008809int) by (nonlinear_arith);
    assert(3664301212008809int * 154169int == 564921653554186074721int) by (nonlinear_arith);
    assert(564921653554186074721int * 154169int == 87093406406795312953661849int) by (nonlinear_arith);
    assert(87093406406795312953661849int * 1048576int == 91324055716411802075698926977024int) by (nonlinear_arith);
    assert(pow(460int, 12) <= 91324055716411802075698926977024int < pow(460int + 1, 12)) by {
        reveal_with_fuel(pow, 13);
    }
    crate::roots::lemma_iroot_unique(91324055716411802075698926977024int, 12, 460int);
    assert(538050int * 460int == 247503000int) by (nonlinear_arith);
    assert((247503000int - 27699200int) / 2048000int == 107int);
    assert(linear_to_srgb_spec(154169) == 107);
}
/// Round trip at byte value 108.
#[verifier::spinoff_prover]
proof fn case_108()
    ensures
        linear_to_srgb_spec(srgb_to_linear_spec(108)) == 108,
{
    let a = 40 * 108 + 561int;
    assert(a * a == 23824161int) by (nonlinear_arith)
        requires
            a == 4881,
    ;
    assert(23824161int * 0x10000000000000000000000000int == 30200711991583974006191098134093889536int) by (nonlinear_arith);
    assert(a * a * 0x10000000000000000000000000int == 30200711991583974006191098134093889536int);
    assert(30200711991583974006191098134093889536int / 115799121int == 260802601356395218286597340700int);
    assert(pow(764297int, 5) <= 260802601356395218286597340700int < pow(764297int + 1, 5)) by {
        reveal_with_fuel(pow, 6);
    }
    crate::roots::lemma_iroot_unique(260802601356395218286597340700int, 5, 764297int);
    assert(23824161int * 764297int == 18208734779817int) by (nonlinear_arith);
    assert(a * a * 764297int == 18208734779817int);
    assert(18208734779817int / 115799121int == 157244int);
    assert(srgb_to_linear_spec(108) == 157244);
    assert(157244int * 157244int == 24725675536int) by (nonlinear_arith);
    assert(24725675536int * 157244int == 3887964123982784int) by (nonlinear_arith);
    assert(3887964123982784int * 157244int == 611359030711548887296int) by (nonlinear_arith);
    assert(611359030711548887296int * 157244int == 96132539425206793233972224int) by (nonlinear_arith);
    assert(96132539425206793233972224int * 1048576int == 100802273660325638422105658753024int) by (nonlinear_arith);
    assert(pow(464int, 12) <= 100802273660325638422105658753024int < pow(464int + 1, 12)) by {
        reveal_with_fuel(pow, 13);
    }
    crate::roots::lemma_iroot_unique(100802273660325638422105658753024int, 12, 464int);
    assert(538050int * 464int == 249655200int) by (nonlinear_arith);
    assert((249655200int - 27699200int) / 2048000int == 108int);
    assert(linear_to_srgb_spec(157244) == 108);
}
/// Round trip at byte value 109.
#[verifier::spinoff_prover]
proof fn case_109()
    ensures
        linear_to_srgb_spec(srgb_to_linear_spec(109)) == 109,
{
    let a = 40 * 109 + 561int;
    assert(a * a == 24216241int) by (nonlinear_arith)
        requires
            a == 4921,
    ;
    assert(24216241int * 0x10000000000000000000000000int == 30697732438921458189929925526857711616int) by (nonlinear_arith);
    assert(a * a * 0x10000000000000000000000000int == 30697732438921458189929925526857711616int);
    assert(30697732438921458189929925526857711616int / 115799121int == 265094693066983282109109666962int);
    assert(pow(766796int, 5) <= 265094693066983282109109666962int < pow(766796int + 1, 5)) by {
        reveal_with_fuel(pow, 6);
    }
    crate::roots::lemma_iroot_unique(265094693066983282109109666962int, 5, 766796int);
    assert(24216241int * 766796int == 18568916733836int) by (nonlinear_arith);
    assert(a * a * 766796int == 18568916733836int);
    assert(18568916733836int / 115799121int == 160354int);
    assert(srgb_to_linear_spec(109) == 160354);
    assert(160354int * 160354int == 25713405316int) by (nonlinear_arith);
    assert(25713405316int * 160354int == 4123247396041864int) by (nonlinear_arith);
    assert(4123247396041864int * 160354int == 661179212944897059856int) by (nonlinear_arith);
    assert(661179212944897059856int * 160354int == 106022731512566023136149024int) by (nonlinear_arith);
    assert(106022731512566023136149024int * 1048576int == 111172891718520430276010598989824int) by (nonlinear_arith);
    assert(pow(468int, 12) <= 111172891718520430276010598989824int < pow(468int + 1, 12)) by {
        reveal_with_fuel(pow, 13);
    }
    crate::roots::lemma_iroot_unique(111172891718520430276010598989824int, 12, 468int);
    assert(538050int * 468int == 251807400int) by (nonlinear_arith);
    assert((251807400int - 27699200int) / 2048000int == 109int);
    assert(linear_to_srgb_spec(160354) == 109);
}
/// Round trip at byte value 110.
#[verifier::spinoff_prover]
proof fn case_110()
    ensures
        linear_to_srgb_spec(srgb_to_linear_spec(110)) == 110,
{
    let a = 40 * 110 + 561int;
    assert(a * a == 24611521int) by (nonlinear_arith)
        requires
            a == 4961,
    ;
    assert(24611521int * 0x10000000000000000000000000int == 31198809368179672707753542369878736896int) by (nonlinear_arith);
    assert(a * a * 0x10000000000000000000000000int == 31198809368179672707753542369878736896int);
    assert(31198809368179672707753542369878736896int / 115799121int == 269421815111875268101158923044int);
    assert(pow(769283int, 5) <= 269421815111875268101158923044int < pow(769283int + 1, 5)) by {
        reveal_with_fuel(pow, 6);
    }
    crate::roots::lemma_iroot_unique(269421815111875268101158923044int, 5, 769283int);
    assert(24611521int * 769283int == 18933224709443int) by (nonlinear_arith);
    assert(a * a * 769283int == 18933224709443int);
    assert(18933224709443int / 115799121int == 163500int);
    assert(srgb_to_linear_spec(110) == 163500);
    assert(163500int * 163500int == 26732250000int) by (nonlinear_arith);
    assert(26732250000int * 163500int == 4370722875000000int) by (nonlinear_arith);
    assert(4370722875000000int * 163500int == 714613190062500000000int) by (nonlinear_arith);
    assert(714613190062500000000int * 163500int == 116839256575218750000000000int) by (nonlinear_arith);
    assert(116839256575218750000000000int * 1048576int == 122514840302616576000000000000000int) by (nonlinear_arith);
    assert(pow(472int, 12) <= 122514840302616576000000000000000int < pow(472int + 1, 12)) by {
        reveal_with_fuel(pow, 13);
    }
    crate::roots::lemma_iroot_unique(122514840302616576000000000000000int, 12, 472int);
    assert(538050int * 472int == 253959600int) by (nonlinear_arith);
    assert((253959600int - 27699200int) / 2048000int == 110int);
    assert(linear_to_srgb_spec(163500) == 110);
}
/// Round trip at byte value 111.
#[verifier::spinoff_prover]
proof fn case_111()
    ensures
        linear_to_srgb_spec(srgb_to_linear_spec(111)) == 111,
{
    let a = 40 * 111 + 561int;
    assert(a * a == 25010001int) by (nonlinear_arith)
        requires
            a == 5001,
    ;
    assert(25010001int * 0x10000000000000000000000000int == 31703942779358617559661948663156965376int) by (nonlinear_arith);
    assert(a * a * 0x10000000000000000000000000int == 31703942779358617559661948663156965376int);
    assert(31703942779358617559661948663156965376int / 115799121int == 273783967491071176262745108947int);
    assert(pow(771758int, 5) <= 273783967491071176262745108947int < pow(771758int + 1, 5)) by {
        reveal_with_fuel(pow, 6);
    }
    crate::roots::lemma_iroot_unique(273783967491071176262745108947int, 5, 771758int);
    assert(25010001int * 771758int == 19301668351758int) by (nonlinear_arith);
    assert(a * a * 771758int == 19301668351758int);
    assert(19301668351758int / 115799121int == 166682int);
    assert(srgb_to_linear_spec(111) == 166682);
    assert(166682int * 166682int == 27782889124int) by (nonlinear_arith);
    assert(27782889124int * 166682int == 4630907524966568int) by (nonlinear_arith);
    assert(4630907524966568int * 166682int == 771888928076477487376int) by (nonlinear_arith);
    assert(771888928076477487376int * 166682int == 128659990309643420550806432int) by (nonlinear_arith);
    assert(128659990309643420550806432int * 1048576int == 134909777998924659347482405240832int) by (nonlinear_arith);
    assert(pow(475int, 12) <= 134909777998924659347482405240832int < pow(475int + 1, 12)) by {
        reveal_with_fuel(pow, 13);
    }
    crate::roots::lemma_iroot_unique(134909777998924659347482405240832int, 12, 475int);
    assert(538050int * 475int == 255573750int) by (nonlinear_arith);
    assert((255573750int - 27699200int) / 2048000int == 111int);
    assert(linear_to_srgb_spec(166682) == 111);
}
/// Round trip at byte value 112.
#[verifier::spinoff_prover]
proof fn case_112()
    ensures
        linear_to_srgb_spec(srgb_to_linear_spec(112)) == 112,
{
    let a = 40 * 112 + 561int;
    assert(a * a == 25411681int) by (nonlinear_arith)
        requires
            a == 5041,
    ;
    assert(25411681int * 0x10000000000000000000000000int == 32213132672458292745655144406692397056int) by (nonlinear_arith);
    assert(a * a * 0x10000000000000000000000000int == 32213132672458292745655144406692397056int);
    assert(32213132672458292745655144406692397056int / 115799121int == 278181150204571006593868224670int);
    assert(pow(774222int, 5) <= 278181150204571006593868224670int < pow(774222int + 1, 5)) by {
        reveal_with_fuel(pow, 6);
    }
    crate::roots::lemma_iroot_unique(278181150204571006593868224670int, 5, 774222int);
    assert(25411681int * 774222int == 19674282487182int) by (nonlinear_arith);
    assert(a * a * 774222int == 19674282487182int);
    assert(19674282487182int / 115799121int == 169900int);
    assert(srgb_to_linear_spec(112) == 169900);
    assert(169900int * 169900int == 28866010000int) by (nonlinear_arith);
    assert(28866010000int * 169900int == 4904335099000000int) by (nonlinear_arith);
    assert(4904335099000000int * 169900int == 833246533320100000000int) by (nonlinear_arith);
    assert(833246533320100000000int * 169900int == 141568586011084990000000000int) by (nonlinear_arith);
    assert(141568586011084990000000000int * 1048576int == 148445421645159454474240000000000int) by (nonlinear_arith);
    assert(pow(479int, 12) <= 148445421645159454474240000000000int < pow(479int + 1, 12)) by {
        reveal_with_fuel(pow, 13);
    }
    crate::roots::lemma_iroot_unique(148445421645159454474240000000000int, 12, 479int);
    assert(538050int * 479int == 257725950int) by (nonlinear_arith);
    assert((257725950int - 27699200int) / 2048000int == 112int);
    assert(linear_to_srgb_spec(169900) == 112);
}
/// Round trip at byte value 113.
#[verifier::spinoff_prover]
proof fn case_113()
    ensures
        linear_to_srgb_spec(srgb_to_linear_spec(113)) == 113,
{
    let a = 40 * 113 + 561int;
    assert(a * a == 25816561int) by (nonlinear_arith)
        requires
            a == 5081,
    ;
    assert(25816561int * 0x10000000000000000000000000int == 32726379047478698265733129600485031936int) by (nonlinear_arith);
    assert(a * a * 0x10000000000000000000000000int == 32726379047478698265733129600485031936int);
    assert(32726379047478698265733129600485031936int / 115799121int == 282613363252374759094528270214int);
    assert(pow(776673int, 5) <= 282613363252374759094528270214int < pow(776673int + 1, 5)) by {
        reveal_with_fuel(pow, 6);
    }
    crate::roots::lemma_iroot_unique(282613363252374759094528270214int, 5, 776673int);
    assert(25816561int * 776673int == 20051025881553int) by (nonlinear_arith);
    assert(a * a * 776673int == 20051025881553int);
    assert(20051025881553int / 115799121int == 173153int);
    assert(srgb_to_linear_spec(113) == 173153);
    assert(173153int * 173153int == 29981961409int) by (nonlinear_arith);
    assert(29981961409int * 173153int == 5191466563852577int) by (nonlinear_arith);
    assert(5191466563852577int * 173153int == 898918009930765265281int) by (nonlinear_arith);
    assert(898918009930765265281int * 173153int == 155650350173541797979200993int) by (nonlinear_arith);
    assert(155650350173541797979200993int * 1048576int == 163211221583571764357838660435968int) by (nonlinear_arith);
    assert(pow(483int, 12) <= 163211221583571764357838660435968int < pow(483int + 1, 12)) by {
        reveal_with_fuel(pow, 13);
    }
    crate::roots::lemma_iroot_unique(163211221583571764357838660435968int, 12, 483int);
    assert(538050int * 483int == 259878150int) by (nonlinear_arith);
    assert((259878150int - 27699200int) / 2048000int == 113int);
    assert(linear_to_srgb_spec(173153) == 113);
}
/// Round trip at byte value 114.
#[verifier::spinoff_prover]
proof fn case_114()
    ensures
        linear_to_srgb_spec(srgb_to_linear_spec(114)) == 114,
{
    let a = 40 * 114 + 561int;
    assert(a * a == 26224641int) by (nonlinear_arith)
        requires
            a == 5121,
    ;
    assert(26224641int * 0x10000000000000000000000000int == 33243681904419834119895904244534870016int) by (nonlinear_arith);
    assert(a * a * 0x10000000000000000000000000int == 33243681904419834119895904244534870016int);
    assert(33243681904419834119895904244534870016int / 115799121int == 287080606634482433764725245578int);
    assert(pow(779113int, 5) <= 287080606634482433764725245578int < pow(779113int + 1, 5)) by {
        reveal_with_fuel(pow, 6);
    }
    crate::roots::lemma_iroot_unique(287080606634482433764725245578int, 5, 779113int);
    assert(26224641int * 779113int == 20431958723433int) by (nonlinear_arith);
    assert(a * a * 779113int == 20431958723433int);
    assert(20431958723433int / 115799121int == 176443int);
    assert(srgb_to_linear_spec(114) == 176443);
    assert(176443int * 176443int == 31132132249int) by (nonlinear_arith);
    assert(31132132249int * 176443int == 5493046810410307int) by (nonlinear_arith);
    assert(5493046810410307int * 176443int == 969209658369225798001int) by (nonlinear_arith);
    assert(969209658369225798001int * 176443int == 171010259751641307476690443int) by (nonlinear_arith);
    assert(171010259751641307476690443int * 1048576int == 179317254129337035628678157959168int) by (nonlinear_arith);
    assert(pow(487int, 12) <= 179317254129337035628678157959168int < pow(487int + 1, 12)) by {
        reveal_with_fuel(pow, 13);
    }
    crate::roots::lemma_iroot_unique(179317254129337035628678157959168int, 12, 487int);
    assert(538050int * 487int == 262030350int) by (nonlinear_arith);
    assert((262030350int - 27699200int) / 2048000int == 114int);
    assert(linear_to_srgb_spec(176443) == 114);
}
/// Round trip at byte value 115.
#[verifier::spinoff_prover]
proof fn case_115()
    ensures
        linear_to_srgb_spec(srgb_to_linear_spec(115)) == 115,
{
    let a = 40 * 115 + 561int;
    assert(a * a == 26635921int) by (nonlinear_arith)
        requires
            a == 5161,
    ;
    assert(26635921int * 0x10000000000000000000000000int == 33765041243281700308143468338841911296int) by (nonlinear_arith);
    assert(a * a * 0x10000000000000000000000000int == 33765041243281700308143468338841911296int);
    assert(33765041243281700308143468338841911296int / 115799121int == 291582880350894030604459150763int);
    assert(pow(781542int, 5) <= 291582880350894030604459150763int < pow(781542int + 1, 5)) by {
        reveal_with_fuel(pow, 6);
    }
    crate::roots::lemma_iroot_unique(291582880350894030604459150763int, 5, 781542int);
    assert(26635921int * 781542int == 20817090970182int) by (nonlinear_arith);
    assert(a * a * 781542int == 20817090970182int);
    assert(20817090970182int / 115799121int == 179768int);
    assert(srgb_to_linear_spec(115) == 179768);
    assert(179768int * 179768int == 32316533824int) by (nonlinear_arith);
    assert(32316533824int * 179768int == 5809478652472832int) by (nonlinear_arith);
    assert(5809478652472832int * 179768int == 1044358358397736062976int) by (nonlinear_arith);
    assert(1044358358397736062976int * 179768int == 187742213372444216569069568int) by (nonlinear_arith);
    assert(187742213372444216569069568int * 1048576int == 196861979129224066833128691335168int) by (nonlinear_arith);
    assert(pow(491int, 12) <= 196861979129224066833128691335168int < pow(491int + 1, 12)) by {
        reveal_with_fuel(pow, 13);
    }
    crate::roots::lemma_iroot_unique(196861979129224066833128691335168int, 12, 491int);
    assert(538050int * 491int == 264182550int) by (nonlinear_arith);
    assert((264182550int - 27699200int) / 2048000int == 115int);
    assert(linear_to_srgb_spec(179768) == 115);
}
/// Round trip at byte value 116.
#[verifier::spinoff_prover]
proof fn case_116()
    ensures
        linear_to_srgb_spec(srgb_to_linear_spec(116)) == 116,
{
    let a = 40 * 116 + 561int;
    assert(a * a == 27050401int) by (nonlinear_arith)
        requires
            a == 5201,
    ;
    assert(27050401int * 0x10000000000000000000000000int == 34290457064064296830475821883406155776int) by (nonlinear_arith);
    assert(a * a * 0x10000000000000000000000000int == 34290457064064296830475821883406155776int);
    assert(34290457064064296830475821883406155776int / 115799121int == 296120184401609549613729985769int);
    assert(pow(783959int, 5) <= 296120184401609549613729985769int < pow(783959int + 1, 5)) by {
        reveal_with_fuel(pow, 6);
    }
    crate::roots::lemma_iroot_unique(296120184401609549613729985769int, 5, 783959int);
    assert(27050401int * 783959int == 21206405317559int) by (nonlinear_arith);
    assert(a * a * 783959int == 21206405317559int);
    assert(21206405317559int / 115799121int == 183130int);
    assert(srgb_to_linear_spec(116) == 183130);
    assert(183130int * 183130int == 33536596900int) by (nonlinear_arith);
    assert(33536596900int * 183130int == 6141556990297000int) by (nonlinear_arith);
    assert(6141556990297000int * 183130int == 1124703331633089610000int) by (nonlinear_arith);
    assert(1124703331633089610000int * 183130int == 205966921121967700279300000int) by (nonlinear_arith);
    assert(205966921121967700279300000int * 1048576int == 215971970282388403288067276800000int) by (nonlinear_arith);
    assert(pow(494int, 12) <= 215971970282388403288067276800000int < pow(494int + 1, 12)) by {
        reveal_with_fuel(pow, 13);
    }
    crate::roots::lemma_iroot_unique(215971970282388403288067276800000int, 12, 494int);
    assert(538050int * 494int == 265796700int) by (nonlinear_arith);
    assert((265796700int - 27699200int) / 2048000int == 116int);
    assert(linear_to_srgb_spec(183130) == 116);
}
/// Round trip at byte value 117.
#[verifier::spinoff_prover]
proof fn case_117()
    ensures
        linear_to_srgb_spec(srgb_to_linear_spec(117)) == 117,
{
    let a = 40 * 117 + 561int;
    assert(a * a == 27468081int) by (nonlinear_arith)
        requires
            a == 5241,
    ;
    assert(27468081int * 0x10000000000000000000000000int == 34819929366767623686892964878227603456int) by (nonlinear_arith);
    assert(a * a * 0x10000000000000000000000000int == 34819929366767623686892964878227603456int);
    assert(34819929366767623686892964878227603456int / 115799121int == 300692518786628990792537750595int);
    assert(pow(786365int, 5) <= 300692518786628990792537750595int < pow(786365int + 1, 5)) by {
        reveal_with_fuel(pow, 6);
    }
    crate::roots::lemma_iroot_unique(300692518786628990792537750595int, 5, 786365int);
    assert(27468081int * 786365int == 21599937515565int) by (nonlinear_arith);
    assert(a * a * 786365int == 21599937515565int);
    assert(21599937515565int / 115799121int == 186529int);
    assert(srgb_to_linear_spec(117) == 186529);
    assert(186529int * 186529int == 34793067841int) by (nonlinear_arith);
    assert(34793067841int * 186529int == 6489916151313889int) by (nonlinear_arith);
    assert(6489916151313889int * 186529int == 1210557569788428401281int) by (nonlinear_arith);
    assert(1210557569788428401281int * 186529int == 225804092935065761262543649int) by (nonlinear_arith);
    assert(225804092935065761262543649int * 1048576int == 236772752553479515681632969293824int) by (nonlinear_arith);
    assert(pow(498int, 12) <= 236772752553479515681632969293824int < pow(498int + 1, 12)) by {
        reveal_with_fuel(pow, 13);
    }
    crate::roots::lemma_iroot_unique(236772752553479515681632969293824int, 12, 498int);
    assert(538050int * 498int == 267948900int) by (nonlinear_arith);
    assert((267948900int - 27699200int) / 2048000int == 117int);
    assert(linear_to_srgb_spec(186529) == 117);
}
/// Round trip at byte value 118.
#[verifier::spinoff_prover]
proof fn case_118()
    ensures
        linear_to_srgb_spec(srgb_to_linear_spec(118)) == 118,
{
    let a = 40 * 118 + 561int;
    assert(a * a == 27888961int) by (nonlinear_arith)
        requires
            a == 5281,
    ;
    assert(27888961int * 0x10000000000000000000000000int == 35353458151391680877394897323306254336int) by (nonlinear_arith);
    assert(a * a * 0x10000000000000000000000000int == 35353458151391680877394897323306254336int);
    assert(35353458151391680877394897323306254336int / 115799121int == 305299883505952354140882445241int);
    assert(pow(788760int, 5) <= 305299883505952354140882445241int < pow(788760int + 1, 5)) by {
        reveal_with_fuel(pow, 6);
    }
    crate::roots::lemma_iroot_unique(305299883505952354140882445241int, 5, 788760int);
    assert(27888961int * 788760int == 21997696878360int) by (nonlinear_arith);
    assert(a * a * 788760int == 21997696878360int);
    assert(21997696878360int / 115799121int == 189964int);
    assert(srgb_to_linear_spec(118) == 189964);
    assert(189964int * 189964int == 36086321296int) by (nonlinear_arith);
    assert(36086321296int * 189964int == 6855101938673344int) by (nonlinear_arith);
    assert(6855101938673344int * 189964int == 1302222584678143119616int) by (nonlinear_arith);
    assert(1302222584678143119616int * 189964int == 247375411075798779574733824int) by (nonlinear_arith);
    assert(247375411075798779574733824int * 1048576int == 259391919044216781091356094234624int) by (nonlinear_arith);
    assert(pow(502int, 12) <= 259391919044216781091356094234624int < pow(502int + 1, 12)) by {
        reveal_with_fuel(pow, 13);
    }
    crate::roots::lemma_iroot_unique(259391919044216781091356094234624int, 12, 502int);
    assert(538050int * 502int == 270101100int) by (nonlinear_arith);
    assert((270101100int - 27699200int) / 2048000int == 118int);
    assert(linear_to_srgb_spec(189964) == 118);
}
/// Round trip at byte value 119.
#[verifier::spinoff_prover]
proof fn case_119()
    ensures
        linear_to_srgb_spec(srgb_to_linear_spec(119)) == 119,
{
    let a = 40 * 119 + 561int;
    assert(a * a == 28313041int) by (nonlinear_arith)
        requires
            a == 5321,
    ;
    assert(28313041int * 0x10000000000000000000000000int == 35891043417936468401981619218642108416int) by (nonlinear_arith);
    assert(a * a * 0x10000000000000000000000000int == 35891043417936468401981619218642108416int);
    assert(35891043417936468401981619218642108416int / 115799121int == 309942278559579639658764069708int);
    assert(pow(791145int, 5) <= 309942278559579639658764069708int < pow(791145int + 1, 5)) by {
        reveal_with_fuel(pow, 6);
    }
    crate::roots::lemma_iroot_unique(309942278559579639658764069708int, 5, 791145int);
    assert(28313041int * 791145int == 22399720821945int) by (nonlinear_arith);
    assert(a * a * 791145int == 22399720821945int);
    assert(22399720821945int / 115799121int == 193436int);
    assert(srgb_to_linear_spec(119) == 193436);
    assert(193436int * 193436int == 37417486096int) by (nonlinear_arith);
    assert(37417486096int * 193436int == 7237888840465856int) by (nonlinear_arith);
    assert(7237888840465856int * 193436int == 1400068265744353321216int) by (nonlinear_arith);
    assert(1400068265744353321216int * 193436int == 270823605052524729042738176int) by (nonlinear_arith);
    assert(270823605052524729042738176int * 1048576int == 283979132491556170280718225637376int) by (nonlinear_arith);
    assert(pow(506int, 12) <= 283979132491556170280718225637376int < pow(506int + 1, 12)) by {
        reveal_with_fuel(pow, 13);
    }
    crate::roots::lemma_iroot_unique(283979132491556170280718225637376int, 12, 506int);
    assert(538050int * 506int == 272253300int) by (nonlinear_arith);
    assert((272253300int - 27699200int) / 2048000int == 119int);
    assert(linear_to_srgb_spec(193436) == 119);
}
/// Round trip at byte value 120.
#[verifier::spinoff_prover]
proof fn case_120()
    ensures
        linear_to_srgb_spec(srgb_to_linear_spec(120)) == 120,
{
    let a = 40 * 120 + 561int;
    assert(a * a == 28740321int) by (nonlinear_arith)
        requires
            a == 5361,
    ;
    assert(28740321int * 0x10000000000000000000000000int == 36432685166401986260653130564235165696int) by (nonlinear_arith);
    assert(a * a * 0x10000000000000000000000000int == 36432685166401986260653130564235165696int);
    assert(36432685166401986260653130564235165696int / 115799121int == 314619703947510847346182623996int);
    assert(pow(793518int, 5) <= 314619703947510847346182623996int < pow(793518int + 1, 5)) by {
        reveal_with_fuel(pow, 6);
    }
    crate::roots::lemma_iroot_unique(314619703947510847346182623996int, 5, 793518int);
    assert(28740321int * 793518int == 22805962039278int) by (nonlinear_arith);
    assert(a * a * 793518int == 22805962039278int);
    assert(22805962039278int / 115799121int == 196944int);
    assert(srgb_to_linear_spec(120) == 196944);
    assert(196944int * 196944int == 38786939136int) by (nonlinear_arith);
    assert(38786939136int * 196944int == 7638854941200384int) by (nonlinear_arith);
    assert(7638854941200384int * 196944int == 1504426647539768426496int) by (nonlinear_arith);
    assert(1504426647539768426496int * 196944int == 296287801673072152987828224int) by (nonlinear_arith);
    assert(296287801673072152987828224int * 1048576int == 310680277927143305891364967809024int) by (nonlinear_arith);
    assert(pow(510int, 12) <= 310680277927143305891364967809024int < pow(510int + 1, 12)) by {
        reveal_with_fuel(pow, 13);
    }
    crate::roots::lemma_iroot_unique(310680277927143305891364967809024int, 12, 510int);
    assert(538050int * 510int == 274405500int) by (nonlinear_arith);
    assert((274405500int - 27699200int) / 2048000int == 120int);
    assert(linear_to_srgb_spec(196944) == 120);
}
/// Round trip at byte value 121.
#[verifier::spinoff_prover]
proof fn case_121()
    ensures
        linear_to_srgb_spec(srgb_to_linear_spec(121)) == 121,
{
    let a = 40 * 121 + 561int;
    assert(a * a == 29170801int) by (nonlinear_arith)
        requires
            a == 5401,
    ;
    assert(29170801int * 0x10000000000000000000000000int == 36978383396788234453409431360085426176int) by (nonlinear_arith);
    assert(a * a * 0x10000000000000000000000000int == 36978383396788234453409431360085426176int);
    assert(36978383396788234453409431360085426176int / 115799121int == 319332159669745977203138108104int);
    assert(pow(795881int, 5) <= 319332159669745977203138108104int < pow(795881int + 1, 5)) by {
        reveal_with_fuel(pow, 6);
    }
    crate::roots::lemma_iroot_unique(319332159669745977203138108104int, 5, 795881int);
    assert(29170801int * 795881int == 23216486270681int) by (nonlinear_arith);
    assert(a * a * 795881int == 23216486270681int);
    assert(23216486270681int / 115799121int == 200489int);
    assert(srgb_to_linear_spec(121) == 200489);
    assert(200489int * 200489int == 40195839121int) by (nonlinear_arith);
    assert(40195839121int * 200489int == 8058823589530169int) by (nonlinear_arith);
    assert(8058823589530169int * 200489int == 1615705482641314052641int) by (nonlinear_arith);
    assert(1615705482641314052641int * 200489int == 323931176509274413099941449int) by (nonlinear_arith);
    assert(323931176509274413099941449int * 1048576int == 339666457339388926990684204826624int) by (nonlinear_arith);
    assert(pow(513int, 12) <= 339666457339388926990684204826624int < pow(513int + 1, 12)) by {
        reveal_with_fuel(pow, 13);
    }
    crate::roots::lemma_iroot_unique(339666457339388926990684204826624int, 12, 513int);
    assert(538050int * 513int == 276019650int) by (nonlinear_arith);
    assert((276019650int - 27699200int) / 2048000int == 121int);
    assert(linear_to_srgb_spec(200489) == 121);
}
/// Round trip at byte value 122.
#[verifier::spinoff_prover]
proof fn case_122()
    ensures
        linear_to_srgb_spec(srgb_to_linear_spec(122)) == 122,
{
    let a = 40 * 122 + 561int;
    assert(a * a == 29604481int) by (nonlinear_arith)
        requires
            a == 5441,
    ;
    assert(29604481int * 0x10000000000000000000000000int == 37528138109095212980250521606192889856int) by (nonlinear_arith);
    assert(a * a * 0x10000000000000000000000000int == 37528138109095212980250521606192889856int);
    assert(37528138109095212980250521606192889856int / 115799121int == 324079645726285029229630522033int);
    assert(pow(798234int, 5) <= 324079645726285029229630522033int < pow(798234int + 1, 5)) by {
        reveal_with_fuel(pow, 6);
    }
    crate::roots::lemma_iroot_unique(324079645726285029229630522033int, 5, 798234int);
    assert(29604481int * 798234int == 23631303286554int) by (nonlinear_arith);
    assert(a * a * 798234int == 23631303286554int);
    assert(23631303286554int / 115799121int == 204071int);
    assert(srgb_to_linear_spec(122) == 204071);
    assert(204071int * 204071int == 41644973041int) by (nonlinear_arith);
    assert(41644973041int * 204071int == 8498531293449911int) by (nonlinear_arith);
    assert(8498531293449911int * 204071int == 1734303779585616787681int) by (nonlinear_arith);
    assert(1734303779585616787681int * 204071int == 353921106603816403478849351int) by (nonlinear_arith);
    assert(353921106603816403478849351int * 1048576int == 371113178278203389094237937074176int) by (nonlinear_arith);
    assert(pow(517int, 12) <= 371113178278203389094237937074176int < pow(517int + 1, 12)) by {
        reveal_with_fuel(pow, 13);
    }
    crate::roots::lemma_iroot_unique(371113178278203389094237937074176int, 12, 517int);
    assert(538050int * 517int == 278171850int) by (nonlinear_arith);
    assert((278171850int - 27699200int) / 2048000int == 122int);
    assert(linear_to_srgb_spec(204071) == 122);
}
/// Round trip at byte value 123.
#[verifier::spinoff_prover]
proof fn case_123()
    ensures
        linear_to_srgb_spec(srgb_to_linear_spec(123)) == 123,
{
    let a = 40 * 123 + 561int;
    assert(a * a == 30041361int) by (nonlinear_arith)
        requires
            a == 5481,
    ;
    assert(30041361int * 0x10000000000000000000000000int == 38081949303322921841176401302557556736int) by (nonlinear_arith);
    assert(a * a * 0x10000000000000000000000000int == 38081949303322921841176401302557556736int);
    assert(38081949303322921841176401302557556736int / 115799121int == 328862162117128003425659865782int);
    assert(pow(800576int, 5) <= 328862162117128003425659865782int < pow(800576int + 1, 5)) by {
        reveal_with_fuel(pow, 6);
    }
    crate::roots::lemma_iroot_unique(328862162117128003425659865782int, 5, 800576int);
    assert(30041361int * 800576int == 24050392623936int) by (nonlinear_arith);
    assert(a * a * 800576int == 24050392623936int);
    assert(24050392623936int / 115799121int == 207690int);
    assert(srgb_to_linear_spec(123) == 207690);
    assert(207690int * 207690int == 43135136100int) by (nonlinear_arith);
    assert(43135136100int * 207690int == 8958736416609000int) by (nonlinear_arith);
    assert(8958736416609000int * 207690int == 1860639966365523210000int) by (nonlinear_arith);
    assert(1860639966365523210000int * 207690int == 386436314614455515484900000int) by (nonlinear_arith);
    assert(386436314614455515484900000int * 1048576int == 405207845033167306605094502400000int) by (nonlinear_arith);
    assert(pow(521int, 12) <= 405207845033167306605094502400000int < pow(521int + 1, 12)) by {
        reveal_with_fuel(pow, 13);
    }
    crate::roots::lemma_iroot_unique(405207845033167306605094502400000int, 12, 521int);
    assert(538050int * 521int == 280324050int) by (nonlinear_arith);
    assert((280324050int - 27699200int) / 2048000int == 123int);
    assert(linear_to_srgb_spec(207690) == 123);
}
/// Round trip at byte value 124.
#[verifier::spinoff_prover]
proof fn case_124()
    ensures
        linear_to_srgb_spec(srgb_to_linear_spec(124)) == 124,
{
    let a = 40 * 124 + 561int;
    assert(a * a == 30481441int) by (nonlinear_arith)
        requires
            a == 5521,
    ;
    assert(30481441int * 0x10000000000000000000000000int == 38639816979471361036187070449179426816int) by (nonlinear_arith);
    assert(a * a * 0x10000000000000000000000000int == 38639816979471361036187070449179426816int);
    assert(38639816979471361036187070449179426816int / 115799121int == 333679708842274899791226139351int);
    assert(pow(802908int, 5) <= 333679708842274899791226139351int < pow(802908int + 1, 5)) by {
        reveal_with_fuel(pow, 6);
    }
    crate::roots::lemma_iroot_unique(333679708842274899791226139351int, 5, 802908int);
    assert(30481441int * 802908int == 24473792830428int) by (nonlinear_arith);
    assert(a * a * 802908int == 24473792830428int);
    assert(24473792830428int / 115799121int == 211346int);
    assert(srgb_to_linear_spec(124) == 211346);
    assert(211346int * 211346int == 44667131716int) by (nonlinear_arith);
    assert(44667131716int * 211346int == 9440219619649736int) by (nonlinear_arith);
    assert(9440219619649736int * 211346int == 1995152655734493104656int) by (nonlinear_arith);
    assert(1995152655734493104656int * 211346int == 421667533178862179696626976int) by (nonlinear_arith);
    assert(421667533178862179696626976int * 1048576int == 442150455270558588937570327986176int) by (nonlinear_arith);
    assert(pow(525int, 12) <= 442150455270558588937570327986176int < pow(525int + 1, 12)) by {
        reveal_with_fuel(pow, 13);
    }
    crate::roots::lemma_iroot_unique(442150455270558588937570327986176int, 12, 525int);
    assert(538050int * 525int == 282476250int) by (nonlinear_arith);
    assert((282476250int - 27699200int) / 2048000int == 124int);
    assert(linear_to_srgb_spec(211346) == 124);
}
/// Round trip at byte value 125.
#[verifier::spinoff_prover]
proof fn case_125()
    ensures
        linear_to_srgb_spec(srgb_to_linear_spec(125)) == 125,
{
    let a = 40 * 125 + 561int;
    assert(a * a == 30924721int) by (nonlinear_arith)
        requires
            a == 5561,
    ;
    assert(30924721int * 0x10000000000000000000000000int == 39201741137540530565282529046058500096int) by (nonlinear_arith);
    assert(a * a * 0x10000000000000000000000000int == 39201741137540530565282529046058500096int);
    assert(39201741137540530565282529046058500096int / 115799121int == 338532285901725718326329342742int);
    assert(pow(805230int, 5) <= 338532285901725718326329342742int < pow(805230int + 1, 5)) by {
        reveal_with_fuel(pow, 6);
    }
    crate::roots::lemma_iroot_unique(338532285901725718326329342742int, 5, 805230int);
    assert(30924721int * 805230int == 24901513090830int) by (nonlinear_arith);
    assert(a * a * 805230int == 24901513090830int);
    assert(24901513090830int / 115799121int == 215040int);
    assert(srgb_to_linear_spec(125) == 215040);
    assert(215040int * 215040int == 46242201600int) by (nonlinear_arith);
    assert(46242201600int * 215040int == 9943923032064000int) by (nonlinear_arith);
    assert(9943923032064000int * 215040int == 2138341208815042560000int) by (nonlinear_arith);
    assert(2138341208815042560000int * 215040int == 459828893543586752102400000int) by (nonlinear_arith);
    assert(459828893543586752102400000int * 1048576int == 482165541876360022172526182400000int) by (nonlinear_arith);
    assert(pow(529int, 12) <= 482165541876360022172526182400000int < pow(529int + 1, 12)) by {
        reveal_with_fuel(pow, 13);
    }
    crate::roots::lemma_iroot_unique(482165541876360022172526182400000int, 12, 529int);
    assert(538050int * 529int == 284628450int) by (nonlinear_arith);
    assert((284628450int - 27699200int) / 2048000int == 125int);
    assert(linear_to_srgb_spec(215040) == 125);
}
/// Round trip at byte value 126.
#[verifier::spinoff_prover]
proof fn case_126()
    ensures
        linear_to_srgb_spec(srgb_to_linear_spec(126)) == 126,
{
    let a = 40 * 126 + 561int;
    assert(a * a == 31371201int) by (nonlinear_arith)
        requires
            a == 5601,
    ;
    assert(31371201int * 0x10000000000000000000000000int == 39767721777530430428462777093194776576int) by (nonlinear_arith);
    assert(a * a * 0x10000000000000000000000000int == 39767721777530430428462777093194776576int);
    assert(39767721777530430428462777093194776576int / 115799121int == 343419893295480459030969475953int);
    assert(pow(807541int, 5) <= 343419893295480459030969475953int < pow(807541int + 1, 5)) by {
        reveal_with_fuel(pow, 6);
    }
    crate::roots::lemma_iroot_unique(343419893295480459030969475953int, 5, 807541int);
    assert(31371201int * 807541int == 25333531026741int) by (nonlinear_arith);
    assert(a * a * 807541int == 25333531026741int);
    assert(25333531026741int / 115799121int == 218771int);
    assert(srgb_to_linear_spec(126) == 218771);
    assert(218771int * 218771int == 47860750441int) by (nonlinear_arith);
    assert(47860750441int * 218771int == 10470544234728011int) by (nonlinear_arith);
    assert(10470544234728011int * 218771int == 2290651432775681694481int) by (nonlinear_arith);
    assert(2290651432775681694481int * 218771int == 501128104599768659983302851int) by (nonlinear_arith);
    assert(501128104599768659983302851int * 1048576int == 525470903408807022410651770290176int) by (nonlinear_arith);
    assert(pow(532int, 12) <= 525470903408807022410651770290176int < pow(532int + 1, 12)) by {
        reveal_with_fuel(pow, 13);
    }
    crate::roots::lemma_iroot_unique(525470903408807022410651770290176int, 12, 532int);
    assert(538050int * 532int == 286242600int) by (nonlinear_arith);
    assert((286242600int - 27699200int) / 2048000int == 126int);
    assert(linear_to_srgb_spec(218771) == 126);
}
/// Round trip at byte value 127.
#[verifier::spinoff_prover]
proof fn case_127()
    ensures
        linear_to_srgb_spec(srgb_to_linear_spec(127)) == 127,
{
    let a = 40 * 127 + 561int;
    assert(a * a == 31820881int) by (nonlinear_arith)
        requires
            a == 5641,
    ;
    assert(31820881int * 0x10000000000000000000000000int == 40337758899441060625727814590588256256int) by (nonlinear_arith);
    assert(a * a * 0x10000000000000000000000000int == 40337758899441060625727814590588256256int);
    assert(40337758899441060625727814590588256256int / 115799121int == 348342531023539121905146538984int);
    assert(pow(809843int, 5) <= 348342531023539121905146538984int < pow(809843int + 1, 5)) by {
        reveal_with_fuel(pow, 6);
    }
    crate::roots::lemma_iroot_unique(348342531023539121905146538984int, 5, 809843int);
    assert(31820881int * 809843int == 25769917731683int) by (nonlinear_arith);
    assert(a * a * 809843int == 25769917731683int);
    assert(25769917731683int / 115799121int == 222539int);
    assert(srgb_to_linear_spec(127) == 222539);
    assert(222539int * 222539int == 49523606521int) by (nonlinear_arith);
    assert(49523606521int * 222539int == 11020933871576819int) by (nonlinear_arith);
    assert(11020933871576819int * 222539int == 2452587602846833723441int) by (nonlinear_arith);
    assert(2452587602846833723441int * 222539int == 545796392549931529980836699int) by (nonlinear_arith);
    assert(545796392549931529980836699int * 1048576int == 572308998114437003981185822490624int) by (nonlinear_arith);
    assert(pow(536int, 12) <= 572308998114437003981185822490624int < pow(536int + 1, 12)) by {
        reveal_with_fuel(pow, 13);
    }
    crate::roots::lemma_iroot_unique(572308998114437003981185822490624int, 12, 536int);
    assert(538050int * 536int == 288394800int) by (nonlinear_arith);
    assert((288394800int - 27699200int) / 2048000int == 127int);
    assert(linear_to_srgb_spec(222539) == 127);
}
/// Round trip at byte value 128.
#[verifier::spinoff_prover]
proof fn case_128()
    ensures
        linear_to_srgb_spec(srgb_to_linear_spec(128)) == 128,
{
    let a = 40 * 128 + 561int;
    assert(a * a == 32273761int) by (nonlinear_arith)
        requires
            a == 5681,
    ;
    assert(32273761int * 0x10000000000000000000000000int == 40911852503272421157077641538238939136int) by (nonlinear_arith);
    assert(a * a * 0x10000000000000000000000000int == 40911852503272421157077641538238939136int);
    assert(40911852503272421157077641538238939136int / 115799121int == 353300199085901706948860531836int);
    assert(pow(812136int, 5) <= 353300199085901706948860531836int < pow(812136int + 1, 5)) by {
        reveal_with_fuel(pow, 6);
    }
    crate::roots::lemma_iroot_unique(353300199085901706948860531836int, 5, 812136int);
    assert(32273761int * 812136int == 26210683163496int) by (nonlinear_arith);
    assert(a * a * 812136int == 26210683163496int);
    assert(26210683163496int / 115799121int == 226346int);
    assert(srgb_to_linear_spec(128) == 226346);
    assert(226346int * 226346int == 51232511716int) by (nonlinear_arith);
    assert(51232511716int * 226346int == 11596274096869736int) by (nonlinear_arith);
    assert(11596274096869736int * 226346int == 2624770256730077264656int) by (nonlinear_arith);
    assert(2624770256730077264656int * 226346int == 594106248529826068545826976int) by (nonlinear_arith);
    assert(594106248529826068545826976int * 1048576int == 622965553658410899651509067186176int) by (nonlinear_arith);
    assert(pow(540int, 12) <= 622965553658410899651509067186176int < pow(540int + 1, 12)) by {
        reveal_with_fuel(pow, 13);
    }
    crate::roots::lemma_iroot_unique(622965553658410899651509067186176int, 12, 540int);
    assert(538050int * 540int == 290547000int) by (nonlinear_arith);
    assert((290547000int - 27699200int) / 2048000int == 128int);
    assert(linear_to_srgb_spec(226346) == 128);
}
/// Round trip at byte value 129.
#[verifier::spinoff_prover]
proof fn case_129()
    ensures
        linear_to_srgb_spec(srgb_to_linear_spec(129)) == 129,
{
    let a = 40 * 129 + 561int;
    assert(a * a == 32729841int) by (nonlinear_arith)
        requires
            a == 5721,
    ;
    assert(32729841int * 0x10000000000000000000000000int == 41490002589024512022512257936146825216int) by (nonlinear_arith);
    assert(a * a * 0x10000000000000000000000000int == 41490002589024512022512257936146825216int);
    assert(41490002589024512022512257936146825216int / 115799121int == 358292897482568214162111454508int);
    assert(pow(814418int, 5) <= 358292897482568214162111454508int < pow(814418int + 1, 5)) by {
        reveal_with_fuel(pow, 6);
    }
    crate::roots::lemma_iroot_unique(358292897482568214162111454508int, 5, 814418int);
    assert(32729841int * 814418int == 26655771647538int) by (nonlinear_arith);
    assert(a * a * 814418int == 26655771647538int);
    assert(26655771647538int / 115799121int == 230189int);
    assert(srgb_to_linear_spec(129) == 230189);
    assert(230189int * 230189int == 52986975721int) by (nonlinear_arith);
    assert(52986975721int * 230189int == 12197018954241269int) by (nonlinear_arith);
    assert(12197018954241269int * 230189int == 2807619596057843469841int) by (nonlinear_arith);
    assert(2807619596057843469841int * 230189int == 646283147196958930479229949int) by (nonlinear_arith);
    assert(646283147196958930479229949int * 1048576int == 677676997355198407486189023002624int) by (nonlinear_arith);
    assert(pow(544int, 12) <= 677676997355198407486189023002624int < pow(544int + 1, 12)) by {
        reveal_with_fuel(pow, 13);
    }
    crate::roots::lemma_iroot_unique(677676997355198407486189023002624int, 12, 544int);
    assert(538050int * 544int == 292699200int) by (nonlinear_arith);
    assert((292699200int - 27699200int) / 2048000int == 129int);
    assert(linear_to_srgb_spec(230189) == 129);
}
/// Round trip at byte value 130.
#[verifier::spinoff_prover]
proof fn case_130()
    ensures
        linear_to_srgb_spec(srgb_to_linear_spec(130)) == 130,
{
    let a = 40 * 130 + 561int;
    assert(a * a == 33189121int) by (nonlinear_arith)
        requires
            a == 5761,
    ;
    assert(33189121int * 0x10000000000000000000000000int == 42072209156697333222031663784311914496int) by (nonlinear_arith);
    assert(a * a * 0x10000000000000000000000000int == 42072209156697333222031663784311914496int);
    assert(42072209156697333222031663784311914496int / 115799121int == 363320626213538643544899307001int);
    assert(pow(816691int, 5) <= 363320626213538643544899307001int < pow(816691int + 1, 5)) by {
        reveal_with_fuel(pow, 6);
    }
    crate::roots::lemma_iroot_unique(363320626213538643544899307001int, 5, 816691int);
    assert(33189121int * 816691int == 27105256418611int) by (nonlinear_arith);
    assert(a * a * 816691int == 27105256418611int);
    assert(27105256418611int / 115799121int == 234071int);
    assert(srgb_to_linear_spec(130) == 234071);
    assert(234071int * 234071int == 54789233041int) by (nonlinear_arith);
    assert(54789233041int * 234071int == 12824570567139911int) by (nonlinear_arith);
    assert(12824570567139911int * 234071int == 3001860057221006107681int) by (nonlinear_arith);
    assert(3001860057221006107681int * 234071int == 702648385453778120630999351int) by (nonlinear_arith);
    assert(702648385453778120630999351int * 1048576int == 736780233425580846618770775474176int) by (nonlinear_arith);
    assert(pow(548int, 12) <= 736780233425580846618770775474176int < pow(548int + 1, 12)) by {
        reveal_with_fuel(pow, 13);
    }
    crate::roots::lemma_iroot_unique(736780233425580846618770775474176int, 12, 548int);
    assert(538050int * 548int == 294851400int) by (nonlinear_arith);
    assert((294851400int - 27699200int) / 2048000int == 130int);
    assert(linear_to_srgb_spec(234071) == 130);
}
/// Round trip at byte value 131.
#[verifier::spinoff_prover]
proof fn case_131()
    ensures
        linear_to_srgb_spec(srgb_to_linear_spec(131)) == 131,
{
    let a = 40 * 131 + 561int;
    assert(a * a == 33651601int) by (nonlinear_arith)
        requires
            a == 5801,
    ;
    assert(33651601int * 0x10000000000000000000000000int == 42658472206290884755635859082734206976int) by (nonlinear_arith);
    assert(a * a * 0x10000000000000000000000000int == 42658472206290884755635859082734206976int);
    assert(42658472206290884755635859082734206976int / 115799121int == 368383385278812995097224089315int);
    assert(pow(818954int, 5) <= 368383385278812995097224089315int < pow(818954int + 1, 5)) by {
        reveal_with_fuel(pow, 6);
    }
    crate::roots::lemma_iroot_unique(368383385278812995097224089315int, 5, 818954int);
    assert(33651601int * 818954int == 27559113245354int) by (nonlinear_arith);
    assert(a * a * 818954int == 27559113245354int);
    assert(27559113245354int / 115799121int == 237990int);
    assert(srgb_to_linear_spec(131) == 237990);
    assert(237990int * 237990int == 56639240100int) by (nonlinear_arith);
    assert(56639240100int * 237990int == 13479572751399000int) by (nonlinear_arith);
    assert(13479572751399000int * 237990int == 3208003519105448010000int) by (nonlinear_arith);
    assert(3208003519105448010000int * 237990int == 763472757511905571899900000int) by (nonlinear_arith);
    assert(763472757511905571899900000int * 1048576int == 800559210180803896960509542400000int) by (nonlinear_arith);
    assert(pow(552int, 12) <= 800559210180803896960509542400000int < pow(552int + 1, 12)) by {
        reveal_with_fuel(pow, 13);
    }
    crate::roots::lemma_iroot_unique(800559210180803896960509542400000int, 12, 552int);
    assert(538050int * 552int == 297003600int) by (nonlinear_arith);
    assert((297003600int - 27699200int) / 2048000int == 131int);
    assert(linear_to_srgb_spec(237990) == 131);
}
/// Round trip at byte value 132.
#[verifier::spinoff_prover]
proof fn case_132()
    ensures
        linear_to_srgb_spec(srgb_to_linear_spec(132)) == 132,
{
    let a = 40 * 132 + 561int;
    assert(a * a == 34117281int) by (nonlinear_arith)
        requires
            a == 5841,
    ;
    assert(34117281int * 0x10000000000000000000000000int == 43248791737805166623324843831413702656int) by (nonlinear_arith);
    assert(a * a * 0x10000000000000000000000000int == 43248791737805166623324843831413702656int);
    assert(43248791737805166623324843831413702656int / 115799121int == 373481174678391268819085801449int);
    assert(pow(821209int, 5) <= 373481174678391268819085801449int < pow(821209int + 1, 5)) by {
        reveal_with_fuel(pow, 6);
    }
    crate::roots::lemma_iroot_unique(373481174678391268819085801449int, 5, 821209int);
    assert(34117281int * 821209int == 28017418212729int) by (nonlinear_arith);
    assert(a * a * 821209int == 28017418212729int);
    assert(28017418212729int / 115799121int == 241948int);
    assert(srgb_to_linear_spec(132) == 241948);
    assert(241948int * 241948int == 58538834704int) by (nonlinear_arith);
    assert(58538834704int * 241948int == 14163353978963392int) by (nonlinear_arith);
    assert(14163353978963392int * 241948int == 3426795168502234767616int) by (nonlinear_arith);
    assert(3426795168502234767616int * 241948int == 829106237428778697555155968int) by (nonlinear_arith);
    assert(829106237428778697555155968int * 1048576int == 869380902018119051567595224301568int) by (nonlinear_arith);
    assert(pow(555int, 12) <= 869380902018119051567595224301568int < pow(555int + 1, 12)) by {
        reveal_with_fuel(pow, 13);
    }
    crate::roots::lemma_iroot_unique(869380902018119051567595224301568int, 12, 555int);
    assert(538050int * 555int == 298617750int) by (nonlinear_arith);
    assert((298617750int - 27699200int) / 2048000int == 132int);
    assert(linear_to_srgb_spec(241948) == 132);
}
/// Round trip at byte value 133.
#[verifier::spinoff_prover]
proof fn case_133()
    ensures
        linear_to_srgb_spec(srgb_to_linear_spec(133)) == 133,
{
    let a = 40 * 133 + 561int;
    assert(a * a == 34586161int) by (nonlinear_arith)
        requires
            a == 5881,
    ;
    assert(34586161int * 0x10000000000000000000000000int == 43843167751240178825098618030350401536int) by (nonlinear_arith);
    assert(a * a * 0x10000000000000000000000000int == 43843167751240178825098618030350401536int);
    assert(43843167751240178825098618030350401536int / 115799121int == 378613994412273464710484443403int);
    assert(pow(823453int, 5) <= 378613994412273464710484443403int < pow(823453int + 1, 5)) by {
        reveal_with_fuel(pow, 6);
    }
    crate::roots::lemma_iroot_unique(378613994412273464710484443403int, 5, 823453int);
    assert(34586161int * 823453int == 28480078033933int) by (nonlinear_arith);
    assert(a * a * 823453int == 28480078033933int);
    assert(28480078033933int / 115799121int == 245943int);
    assert(srgb_to_linear_spec(133) == 245943);
    assert(245943int * 245943int == 60487959249int) by (nonlinear_arith);
    assert(60487959249int * 245943int == 14876590161576807int) by (nonlinear_arith);
    assert(14876590161576807int * 245943int == 3658793214108684644001int) by (nonlinear_arith);
    assert(3658793214108684644001int * 245943int == 899854579457532227399537943int) by (nonlinear_arith);
    assert(899854579457532227399537943int * 1048576int == 943565915509261312877697898119168int) by (nonlinear_arith);
    assert(pow(559int, 12) <= 943565915509261312877697898119168int < pow(559int + 1, 12)) by {
        reveal_with_fuel(pow, 13);
    }
    crate::roots::lemma_iroot_unique(943565915509261312877697898119168int, 12, 559int);
    assert(538050int * 559int == 300769950int) by (nonlinear_arith);
    assert((300769950int - 27699200int) / 2048000int == 133int);
    assert(linear_to_srgb_spec(245943) == 133);
}
/// Round trip at byte value 134.
#[verifier::spinoff_prover]
proof fn case_134()
    ensures
        linear_to_srgb_spec(srgb_to_linear_spec(134)) == 134,
{
    let a = 40 * 134 + 561int;
    assert(a * a == 35058241int) by (nonlinear_arith)
        requires
            a == 5921,
    ;
    assert(35058241int * 0x10000000000000000000000000int == 44441600246595921360957181679544303616int) by (nonlinear_arith);
    assert(a * a * 0x10000000000000000000000000int == 44441600246595921360957181679544303616int);
    assert(44441600246595921360957181679544303616int / 115799121int == 383781844480459582771420015179int);
    assert(pow(825689int, 5) <= 383781844480459582771420015179int < pow(825689int + 1, 5)) by {
        reveal_with_fuel(pow, 6);
    }
    crate::roots::lemma_iroot_unique(383781844480459582771420015179int, 5, 825689int);
    assert(35058241int * 825689int == 28947203953049int) by (nonlinear_arith);
    assert(a * a * 825689int == 28947203953049int);
    assert(28947203953049int / 115799121int == 249977int);
    assert(srgb_to_linear_spec(134) == 249977);
    assert(249977int * 249977int == 62488500529int) by (nonlinear_arith);
    assert(62488500529int * 249977int == 15620687896737833int) by (nonlinear_arith);
    assert(15620687896737833int * 249977int == 3904812698362833279841int) by (nonlinear_arith);
    assert(3904812698362833279841int * 249977int == 976113363898645974794813657int) by (nonlinear_arith);
    assert(976113363898645974794813657int * 1048576int == 1023529046663386601666446525202432int) by (nonlinear_arith);
    assert(pow(563int, 12) <= 1023529046663386601666446525202432int < pow(563int + 1, 12)) by {
        reveal_with_fuel(pow, 13);
    }
    crate::roots::lemma_iroot_unique(1023529046663386601666446525202432int, 12, 563int);
    assert(538050int * 563int == 302922150int) by (nonlinear_arith);
    assert((302922150int - 27699200int) / 2048000int == 134int);
    assert(linear_to_srgb_spec(249977) == 134);
}
/// Round trip at byte value 135.
#[verifier::spinoff_prover]
proof fn case_135()
    ensures
        linear_to_srgb_spec(srgb_to_linear_spec(135)) == 135,
{
    let a = 40 * 135 + 561int;
    assert(a * a == 35533521int) by (nonlinear_arith)
        requires
            a == 5961,
    ;
    assert(35533521int * 0x10000000000000000000000000int == 45044089223872394230900534778995408896int) by (nonlinear_arith);
    assert(a * a * 0x10000000000000000000000000int == 45044089223872394230900534778995408896int);
    assert(45044089223872394230900534778995408896int / 115799121int == 388984724882949623001892516774int);
    assert(pow(827916int, 5) <= 388984724882949623001892516774int < pow(827916int + 1, 5)) by {
        reveal_with_fuel(pow, 6);
    }
    crate::roots::lemma_iroot_unique(388984724882949623001892516774int, 5, 827916int);
    assert(35533521int * 827916int == 29418770572236int) by (nonlinear_arith);
    assert(a * a * 827916int == 29418770572236int);
    assert(29418770572236int / 115799121int == 254050int);
    assert(srgb_to_linear_spec(135) == 254050);
    assert(254050int * 254050int == 64541402500int) by (nonlinear_arith);
    assert(64541402500int * 254050int == 16396743305125000int) by (nonlinear_arith);
    assert(16396743305125000int * 254050int == 4165592636667006250000int) by (nonlinear_arith);
    assert(4165592636667006250000int * 254050int == 1058268809345252937812500000int) by (nonlinear_arith);
    assert(1058268809345252937812500000int * 1048576int == 1109675275028007944519680000000000int) by (nonlinear_arith);
    assert(pow(567int, 12) <= 1109675275028007944519680000000000int < pow(567int + 1, 12)) by {
        reveal_with_fuel(pow, 13);
    }
    crate::roots::lemma_iroot_unique(1109675275028007944519680000000000int, 12, 567int);
    assert(538050int * 567int == 305074350int) by (nonlinear_arith);
    assert((305074350int - 27699200int) / 2048000int == 135int);
    assert(linear_to_srgb_spec(254050) == 135);
}
/// Round trip at byte value 136.
#[verifier::spinoff_prover]
proof fn case_136()
    ensures
        linear_to_srgb_spec(srgb_to_linear_spec(136)) == 136,
{
    let a = 40 * 136 + 561int;
    assert(a * a == 36012001int) by (nonlinear_arith)
        requires
            a == 6001,
    ;
    assert(36012001int * 0x10000000000000000000000000int == 45650634683069597434928677328703717376int) by (nonlinear_arith);
    assert(a * a * 0x10000000000000000000000000int == 45650634683069597434928677328703717376int);
    assert(45650634683069597434928677328703717376int / 115799121int == 394222635619743585401901948190int);
    assert(pow(830134int, 5) <= 394222635619743585401901948190int < pow(830134int + 1, 5)) by {
        reveal_with_fuel(pow, 6);
    }
    crate::roots::lemma_iroot_unique(394222635619743585401901948190int, 5, 830134int);
    assert(36012001int * 830134int == 29894786438134int) by (nonlinear_arith);
    assert(a * a * 830134int == 29894786438134int);
    assert(29894786438134int / 115799121int == 258160int);
    assert(srgb_to_linear_spec(136) == 258160);
    assert(258160int * 258160int == 66646585600int) by (nonlinear_arith);
    assert(66646585600int * 258160int == 17205482538496000int) by (nonlinear_arith);
    assert(17205482538496000int * 258160int == 4441767372138127360000int) by (nonlinear_arith);
    assert(4441767372138127360000int * 258160int == 1146686664791178959257600000int) by (nonlinear_arith);
    assert(1146686664791178959257600000int * 1048576int == 1202388116220075268382497177600000int) by (nonlinear_arith);
    assert(pow(571int, 12) <= 1202388116220075268382497177600000int < pow(571int + 1, 12)) by {
        reveal_with_fuel(pow, 13);
    }
    crate::roots::lemma_iroot_unique(1202388116220075268382497177600000int, 12, 571int);
    assert(538050int * 571int == 307226550int) by (nonlinear_arith);
    assert((307226550int - 27699200int) / 2048000int == 136int);
    assert(linear_to_srgb_spec(258160) == 136);
}
/// Round trip at byte value 137.
#[verifier::spinoff_prover]
proof fn case_137()
    ensures
        linear_to_srgb_spec(srgb_to_linear_spec(137)) == 137,
{
    let a = 40 * 137 + 561int;
    assert(a * a == 36493681int) by (nonlinear_arith)
        requires
            a == 6041,
    ;
    assert(36493681int * 0x10000000000000000000000000int == 46261236624187530973041609328669229056int) by (nonlinear_arith);
    assert(a * a * 0x10000000000000000000000000int == 46261236624187530973041609328669229056int);
    assert(46261236624187530973041609328669229056int / 115799121int == 399495576690841469971448309427int);
    assert(pow(832343int, 5) <= 399495576690841469971448309427int < pow(832343int + 1, 5)) by {
        reveal_with_fuel(pow, 6);
    }
    crate::roots::lemma_iroot_unique(399495576690841469971448309427int, 5, 832343int);
    assert(36493681int * 832343int == 30375259924583int) by (nonlinear_arith);
    assert(a * a * 832343int == 30375259924583int);
    assert(30375259924583int / 115799121int == 262309int);
    assert(srgb_to_linear_spec(137) == 262309);
    assert(262309int * 262309int == 68806011481int) by (nonlinear_arith);
    assert(68806011481int * 262309int == 18048436065569629int) by (nonlinear_arith);
    assert(18048436065569629int * 262309int == 4734267215923503813361int) by (nonlinear_arith);
    assert(4734267215923503813361int * 262309int == 1241840899141678361778910549int) by (nonlinear_arith);
    assert(1241840899141678361778910549int * 1048576int == 1302164562658384529880682907828224int) by (nonlinear_arith);
    assert(pow(574int, 12) <= 1302164562658384529880682907828224int < pow(574int + 1, 12)) by {
        reveal_with_fuel(pow, 13);
    }
    crate::roots::lemma_iroot_unique(1302164562658384529880682907828224int, 12, 574int);
    assert(538050int * 574int == 308840700int) by (nonlinear_arith);
    assert((308840700int - 27699200int) / 2048000int == 137int);
    assert(linear_to_srgb_spec(262309) == 137);
}
/// Round trip at byte value 138.
#[verifier::spinoff_prover]
proof fn case_138()
    ensures
        linear_to_srgb_spec(srgb_to_linear_spec(138)) == 138,
{
    let a = 40 * 138 + 561int;
    assert(a * a == 36978561int) by (nonlinear_arith)
        requires
            a == 6081,
    ;
    assert(36978561int * 0x10000000000000000000000000int == 46875895047226194845239330778891943936int) by (nonlinear_arith);
    assert(a * a * 0x10000000000000000000000000int == 46875895047226194845239330778891943936int);
    assert(46875895047226194845239330778891943936int / 115799121int == 404803548096243276710531600485int);
    assert(pow(834543int, 5) <= 404803548096243276710531600485int < pow(834543int + 1, 5)) by {
        reveal_with_fuel(pow, 6);
    }
    crate::roots::lemma_iroot_unique(404803548096243276710531600485int, 5, 834543int);
    assert(36978561int * 834543int == 30860199232623int) by (nonlinear_arith);
    assert(a * a * 834543int == 30860199232623int);
    assert(30860199232623int / 115799121int == 266497int);
    assert(srgb_to_linear_spec(138) == 266497);
    assert(266497int * 266497int == 71020651009int) by (nonlinear_arith);
    assert(71020651009int * 266497int == 18926790431945473int) by (nonlinear_arith);
    assert(18926790431945473int * 266497int == 5043932869742172718081int) by (nonlinear_arith);
    assert(5043932869742172718081int * 266497int == 1344192977987679802850432257int) by (nonlinear_arith);
    assert(1344192977987679802850432257int * 1048576int == 1409488496086409336953694854316032int) by (nonlinear_arith);
    assert(pow(578int, 12) <= 1409488496086409336953694854316032int < pow(578int + 1, 12)) by {
        reveal_with_fuel(pow, 13);
    }
    crate::roots::lemma_iroot_unique(1409488496086409336953694854316032int, 12, 578int);
    assert(538050int * 578int == 310992900int) by (nonlinear_arith);
    assert((310992900int - 27699200int) / 2048000int == 138int);
    assert(linear_to_srgb_spec(266497) == 138);
}
/// Round trip at byte value 139.
#[verifier::spinoff_prover]
proof fn case_139()
    ensures
        linear_to_srgb_spec(srgb_to_linear_spec(139)) == 139,
{
    let a = 40 * 139 + 561int;
    assert(a * a == 37466641int) by (nonlinear_arith)
        requires
            a == 6121,
    ;
    assert(37466641int * 0x10000000000000000000000000int == 47494609952185589051521841679371862016int) by (nonlinear_arith);
    assert(a * a * 0x10000000000000000000000000int == 47494609952185589051521841679371862016int);
    assert(47494609952185589051521841679371862016int / 115799121int == 410146549835949005619151821362int);
    assert(pow(836734int, 5) <= 410146549835949005619151821362int < pow(836734int + 1, 5)) by {
        reveal_with_fuel(pow, 6);
    }
    crate::roots::lemma_iroot_unique(410146549835949005619151821362int, 5, 836734int);
    assert(37466641int * 836734int == 31349612390494int) by (nonlinear_arith);
    assert(a * a * 836734int == 31349612390494int);
    assert(31349612390494int / 115799121int == 270724int);
    assert(srgb_to_linear_spec(139) == 270724);
    assert(270724int * 270724int == 73291484176int) by (nonlinear_arith);
    assert(73291484176int * 270724int == 19841763762063424int) by (nonlinear_arith);
    assert(19841763762063424int * 270724int == 5371641652720858398976int) by (nonlinear_arith);
    assert(5371641652720858398976int * 270724int == 1454232314791201669204378624int) by (nonlinear_arith);
    assert(1454232314791201669204378624int * 1048576int == 1524873103714499081487650520039424int) by (nonlinear_arith);
    assert(pow(582int, 12) <= 1524873103714499081487650520039424int < pow(582int + 1, 12)) by {
        reveal_with_fuel(pow, 13);
    }
    crate::roots::lemma_iroot_unique(1524873103714499081487650520039424int, 12, 582int);
    assert(538050int * 582int == 313145100int) by (nonlinear_arith);
    assert((313145100int - 27699200int) / 2048000int == 139int);
    assert(linear_to_srgb_spec(270724) == 139);
}
/// Round trip at byte value 140.
#[verifier::spinoff_prover]
proof fn case_140()
    ensures
        linear_to_srgb_spec(srgb_to_linear_spec(140)) == 140,
{
    let a = 40 * 140 + 561int;
    assert(a * a == 37957921int) by (nonlinear_arith)
        requires
            a == 6161,
    ;
    assert(37957921int * 0x10000000000000000000000000int == 48117381339065713591889142030108983296int) by (nonlinear_arith);
    assert(a * a * 0x10000000000000000000000000int == 48117381339065713591889142030108983296int);
    assert(48117381339065713591889142030108983296int / 115799121int == 415524581909958656697308972061int);
    assert(pow(838917int, 5) <= 415524581909958656697308972061int < pow(838917int + 1, 5)) by {
        reveal_with_fuel(pow, 6);
    }
    crate::roots::lemma_iroot_unique(415524581909958656697308972061int, 5, 838917int);
    assert(37957921int * 838917int == 31843545211557int) by (nonlinear_arith);
    assert(a * a * 838917int == 31843545211557int);
    assert(31843545211557int / 115799121int == 274989int);
    assert(srgb_to_linear_spec(140) == 274989);
    assert(274989int * 274989int == 75618950121int) by (nonlinear_arith);
    assert(75618950121int * 274989int == 20794379474823669int) by (nonlinear_arith);
    assert(20794379474823669int * 274989int == 5718225617402285914641int) by (nonlinear_arith);
    assert(5718225617402285914641int * 274989int == 1572449144303837201381213949int) by (nonlinear_arith);
    assert(1572449144303837201381213949int * 1048576int == 1648832433937540397275507797786624int) by (nonlinear_arith);
    assert(pow(586int, 12) <= 1648832433937540397275507797786624int < pow(586int + 1, 12)) by {
        reveal_with_fuel(pow, 13);
    }
    crate::roots::lemma_iroot_unique(1648832433937540397275507797786624int, 12, 586int);
    assert(538050int * 586int == 315297300int) by (nonlinear_arith);
    assert((315297300int - 27699200int) / 2048000int == 140int);
    assert(linear_to_srgb_spec(274989) == 140);
}
/// Round trip at byte value 141.
#[verifier::spinoff_prover]
proof fn case_141()
    ensures
        linear_to_srgb_spec(srgb_to_linear_spec(141)) == 141,
{
    let a = 40 * 141 + 561int;
    assert(a * a == 38452401int) by (nonlinear_arith)
        requires
            a == 6201,
    ;
    assert(38452401int * 0x10000000000000000000000000int == 48744209207866568466341231831103307776int) by (nonlinear_arith);
    assert(a * a * 0x10000000000000000000000000int == 48744209207866568466341231831103307776int);
    assert(48744209207866568466341231831103307776int / 115799121int == 420937644318272229945003052580int);
    assert(pow(841092int, 5) <= 420937644318272229945003052580int < pow(841092int + 1, 5)) by {
        reveal_with_fuel(pow, 6);
    }
    crate::roots::lemma_iroot_unique(420937644318272229945003052580int, 5, 841092int);
    assert(38452401int * 841092int == 32342006861892int) by (nonlinear_arith);
    assert(a * a * 841092int == 32342006861892int);
    assert(32342006861892int / 115799121int == 279294int);
    assert(srgb_to_linear_spec(141) == 279294);
    assert(279294int * 279294int == 78005138436int) by (nonlinear_arith);
    assert(78005138436int * 279294int == 21786367134344184int) by (nonlinear_arith);
    assert(21786367134344184int * 279294int == 6084801622419524526096int) by (nonlinear_arith);
    assert(6084801622419524526096int * 279294int == 1699448584332038682991456224int) by (nonlinear_arith);
    assert(1699448584332038682991456224int * 1048576int == 1782000998764551794056449201537024int) by (nonlinear_arith);
    assert(pow(590int, 12) <= 1782000998764551794056449201537024int < pow(590int + 1, 12)) by {
        reveal_with_fuel(pow, 13);
    }
    crate::roots::lemma_iroot_unique(1782000998764551794056449201537024int, 12, 590int);
    assert(538050int * 590int == 317449500int) by (nonlinear_arith);
    assert((317449500int - 27699200int) / 2048000int == 141int);
    assert(linear_to_srgb_spec(279294) == 141);
}
/// Round trip at byte value 142.
#[verifier::spinoff_prover]
proof fn case_142()
    ensures
        linear_to_srgb_spec(srgb_to_linear_spec(142)) == 142,
{
    let a = 40 * 142 + 561int;
    assert(a * a == 38950081int) by (nonlinear_arith)
        requires
            a == 6241,
    ;
    assert(38950081int * 0x10000000000000000000000000int == 49375093558588153674878111082354835456int) by (nonlinear_arith);
    assert(a * a * 0x10000000000000000000000000int == 49375093558588153674878111082354835456int);
    assert(49375093558588153674878111082354835456int / 115799121int == 426385737060889725362234062919int);
    assert(pow(843258int, 5) <= 426385737060889725362234062919int < pow(843258int + 1, 5)) by {
        reveal_with_fuel(pow, 6);
    }
    crate::roots::lemma_iroot_unique(426385737060889725362234062919int, 5, 843258int);
    assert(38950081int * 843258int == 32844967403898int) by (nonlinear_arith);
    assert(a * a * 843258int == 32844967403898int);
    assert(32844967403898int / 115799121int == 283637int);
    assert(srgb_to_linear_spec(142) == 283637);
    assert(283637int * 283637int == 80449947769int) by (nonlinear_arith);
    assert(80449947769int * 283637int == 22818581835355853int) by (nonlinear_arith);
    assert(22818581835355853int * 283637int == 6472194096034828077361int) by (nonlinear_arith);
    assert(6472194096034828077361int * 283637int == 1835753716817030531378441957int) by (nonlinear_arith);
    assert(1835753716817030531378441957int * 1048576int == 1924927289365134606470681153503232int) by (nonlinear_arith);
    assert(pow(593int, 12) <= 1924927289365134606470681153503232int < pow(593int + 1, 12)) by {
        reveal_with_fuel(pow, 13);
    }
    crate::roots::lemma_iroot_unique(1924927289365134606470681153503232int, 12, 593int);
    assert(538050int * 593int == 319063650int) by (nonlinear_arith);
    assert((319063650int - 27699200int) / 2048000int == 142int);
    assert(linear_to_srgb_spec(283637) == 142);
}
/// Round trip at byte value 143.
#[verifier::spinoff_prover]
proof fn case_143()
    ensures
        linear_to_srgb_spec(srgb_to_linear_spec(143)) == 143,
{
    let a = 40 * 143 + 561int;
    assert(a * a == 39450961int) by (nonlinear_arith)
        requires
            a == 6281,
    ;
    assert(39450961int * 0x10000000000000000000000000int == 50010034391230469217499779783863566336int) by (nonlinear_arith);
    assert(a * a * 0x10000000000000000000000000int == 50010034391230469217499779783863566336int);
    assert(50010034391230469217499779783863566336int / 115799121int == 431868860137811142949002003079int);
    assert(pow(845415int, 5) <= 431868860137811142949002003079int < pow(845415int + 1, 5)) by {
        reveal_with_fuel(pow, 6);
    }
    crate::roots::lemma_iroot_unique(431868860137811142949002003079int, 5, 845415int);
    assert(39450961int * 845415int == 33352434193815int) by (nonlinear_arith);
    assert(a * a * 845415int == 33352434193815int);
    assert(33352434193815int / 115799121int == 288019int);
    assert(srgb_to_linear_spec(143) == 288019);
    assert(288019int * 288019int == 82954944361int) by (nonlinear_arith);
    assert(82954944361int * 288019int == 23892600119910859int) by (nonlinear_arith);
    assert(23892600119910859int * 288019int == 6881522793936605698321int) by (nonlinear_arith);
    assert(6881522793936605698321int * 288019int == 1982009313586827236624716099int) by (nonlinear_arith);
    assert(1982009313586827236624716099int * 1048576int == 2078287398003620956470998308225024int) by (nonlinear_arith);
    assert(pow(597int, 12) <= 2078287398003620956470998308225024int < pow(597int + 1, 12)) by {
        reveal_with_fuel(pow, 13);
    }
    crate::roots::lemma_iroot_unique(2078287398003620956470998308225024int, 12, 597int);
    assert(538050int * 597int == 321215850int) by (nonlinear_arith);
    assert((321215850int - 27699200int) / 2048000int == 143int);
    assert(linear_to_srgb_spec(288019) == 143);
}
/// Round trip at byte value 144.
#[verifier::spinoff_prover]
proof fn case_144()
    ensures
        linear_to_srgb_spec(srgb_to_linear_spec(144)) == 144,
{
    let a = 40 * 144 + 561int;
    assert(a * a == 39955041int) by (nonlinear_arith)
        requires
            a == 6321,
    ;
    assert(39955041int * 0x10000000000000000000000000int == 50649031705793515094206237935629500416int) by (nonlinear_arith);
    assert(a * a * 0x10000000000000000000000000int == 50649031705793515094206237935629500416int);
    assert(50649031705793515094206237935629500416int / 115799121int == 437387013549036482705306873060int);
    assert(pow(847565int, 5) <= 437387013549036482705306873060int < pow(847565int + 1, 5)) by {
        reveal_with_fuel(pow, 6);
    }
    crate::roots::lemma_iroot_unique(437387013549036482705306873060int, 5, 847565int);
    assert(39955041int * 847565int == 33864494325165int) by (nonlinear_arith);
    assert(a * a * 847565int == 33864494325165int);
    assert(33864494325165int / 115799121int == 292441int);
    assert(srgb_to_linear_spec(144) == 292441);
    assert(292441int * 292441int == 85521738481int) by (nonlinear_arith);
    assert(85521738481int * 292441int == 25010062723122121int) by (nonlinear_arith);
    assert(25010062723122121int * 292441int == 7313967752812556187361int) by (nonlinear_arith);
    assert(7313967752812556187361int * 292441int == 2138904043600256743988038201int) by (nonlinear_arith);
    assert(2138904043600256743988038201int * 1048576int == 2242803446422182815584001144651776int) by (nonlinear_arith);
    assert(pow(601int, 12) <= 2242803446422182815584001144651776int < pow(601int + 1, 12)) by {
        reveal_with_fuel(pow, 13);
    }
    crate::roots::lemma_iroot_unique(2242803446422182815584001144651776int, 12, 601int);
    assert(538050int * 601int == 323368050int) by (nonlinear_arith);
    assert((323368050int - 27699200int) / 2048000int == 144int);
    assert(linear_to_srgb_spec(292441) == 144);
}
/// Round trip at byte value 145.
#[verifier::spinoff_prover]
proof fn case_145()
    ensures
        linear_to_srgb_spec(srgb_to_linear_spec(145)) == 145,
{
    let a = 40 * 145 + 561int;
    assert(a * a == 40462321int) by (nonlinear_arith)
        requires
            a == 6361,
    ;
    assert(40462321int * 0x10000000000000000000000000int == 51292085502277291304997485537652637696int) by (nonlinear_arith);
    assert(a * a * 0x10000000000000000000000000int == 51292085502277291304997485537652637696int);
    assert(51292085502277291304997485537652637696int / 115799121int == 442940197294565744631148672861int);
    assert(pow(849706int, 5) <= 442940197294565744631148672861int < pow(849706int + 1, 5)) by {
        reveal_with_fuel(pow, 6);
    }
    crate::roots::lemma_iroot_unique(442940197294565744631148672861int, 5, 849706int);
    assert(40462321int * 849706int == 34381076927626int) by (nonlinear_arith);
    assert(a * a * 849706int == 34381076927626int);
    assert(34381076927626int / 115799121int == 296902int);
    assert(srgb_to_linear_spec(145) == 296902);
    assert(296902int * 296902int == 88150797604int) by (nonlinear_arith);
    assert(88150797604int * 296902int == 26172148110222808int) by (nonlinear_arith);
    assert(26172148110222808int * 296902int == 7770563118221372140816int) by (nonlinear_arith);
    assert(7770563118221372140816int * 296902int == 2307095730926161831352552032int) by (nonlinear_arith);
    assert(2307095730926161831352552032int * 1048576int == 2419165213151631068472333599506432int) by (nonlinear_arith);
    assert(pow(605int, 12) <= 2419165213151631068472333599506432int < pow(605int + 1, 12)) by {
        reveal_with_fuel(pow, 13);
    }
    crate::roots::lemma_iroot_unique(2419165213151631068472333599506432int, 12, 605int);
    assert(538050int * 605int == 325520250int) by (nonlinear_arith);
    assert((325520250int - 27699200int) / 2048000int == 145int);
    assert(linear_to_srgb_spec(296902) == 145);
}
/// Round trip at byte value 146.
#[verifier::spinoff_prover]
proof fn case_146()
    ensures
        linear_to_srgb_spec(srgb_to_linear_spec(146)) == 146,
{
    let a = 40 * 146 + 561int;
    assert(a * a == 40972801int) by (nonlinear_arith)
        requires
            a == 6401,
    ;
    assert(40972801int * 0x10000000000000000000000000int == 51939195780681797849873522589932978176int) by (nonlinear_arith);
    assert(a * a * 0x10000000000000000000000000int == 51939195780681797849873522589932978176int);
    assert(51939195780681797849873522589932978176int / 115799121int == 448528411374398928726527402482int);
    assert(pow(851839int, 5) <= 448528411374398928726527402482int < pow(851839int + 1, 5)) by {
        reveal_with_fuel(pow, 6);
    }
    crate::roots::lemma_iroot_unique(448528411374398928726527402482int, 5, 851839int);
    assert(40972801int * 851839int == 34902229831039int) by (nonlinear_arith);
    assert(a * a * 851839int == 34902229831039int);
    assert(34902229831039int / 115799121int == 301403int);
    assert(srgb_to_linear_spec(146) == 301403);
    assert(301403int * 301403int == 90843768409int) by (nonlinear_arith);
    assert(90843768409int * 301403int == 27380584329777827int) by (nonlinear_arith);
    assert(27380584329777827int * 301403int == 8252590258748026391281int) by (nonlinear_arith);
    assert(8252590258748026391281int * 301403int == 2487355461757431398411267243int) by (nonlinear_arith);
    assert(2487355461757431398411267243int * 1048576int == 2608181240667760386020492960595968int) by (nonlinear_arith);
    assert(pow(609int, 12) <= 2608181240667760386020492960595968int < pow(609int + 1, 12)) by {
        reveal_with_fuel(pow, 13);
    }
    crate::roots::lemma_iroot_unique(2608181240667760386020492960595968int, 12, 609int);
    assert(538050int * 609int == 327672450int) by (nonlinear_arith);
    assert((327672450int - 27699200int) / 2048000int == 146int);
    assert(linear_to_srgb_spec(301403) == 146);
}
/// Round trip at byte value 147.
#[verifier::spinoff_prover]
proof fn case_147()
    ensures
        linear_to_srgb_spec(srgb_to_linear_spec(147)) == 147,
{
    let a = 40 * 147 + 561int;
    assert(a * a == 41486481int) by (nonlinear_arith)
        requires
            a == 6441,
    ;
    assert(41486481int * 0x10000000000000000000000000int == 52590362541007034728834349092470521856int) by (nonlinear_arith);
    assert(a * a * 0x10000000000000000000000000int == 52590362541007034728834349092470521856int);
    assert(52590362541007034728834349092470521856int / 115799121int == 454151655788536034991443061925int);
    assert(pow(853965int, 5) <= 454151655788536034991443061925int < pow(853965int + 1, 5)) by {
        reveal_with_fuel(pow, 6);
    }
    crate::roots::lemma_iroot_unique(454151655788536034991443061925int, 5, 853965int);
    assert(41486481int * 853965int == 35428002747165int) by (nonlinear_arith);
    assert(a * a * 853965int == 35428002747165int);
    assert(35428002747165int / 115799121int == 305943int);
    assert(srgb_to_linear_spec(147) == 305943);
    assert(305943int * 305943int == 93601119249int) by (nonlinear_arith);
    assert(93601119249int * 305943int == 28636607226396807int) by (nonlinear_arith);
    assert(28636607226396807int * 305943int == 8761169524665518324001int) by (nonlinear_arith);
    assert(8761169524665518324001int * 305943int == 2680418487884742672599837943int) by (nonlinear_arith);
    assert(2680418487884742672599837943int * 1048576int == 2810622496352231932664047670919168int) by (nonlinear_arith);
    assert(pow(612int, 12) <= 2810622496352231932664047670919168int < pow(612int + 1, 12)) by {
        reveal_with_fuel(pow, 13);
    }
    crate::roots::lemma_iroot_unique(2810622496352231932664047670919168int, 12, 612int);
    assert(538050int * 612int == 329286600int) by (nonlinear_arith);
    assert((329286600int - 27699200int) / 2048000int == 147int);
    assert(linear_to_srgb_spec(305943) == 147);
}
/// Round trip at byte value 148.
#[verifier::spinoff_prover]
proof fn case_148()
    ensures
        linear_to_srgb_spec(srgb_to_linear_spec(148)) == 148,
{
    let a = 40 * 148 + 561int;
    assert(a * a == 42003361int) by (nonlinear_arith)
        requires
            a == 6481,
    ;
    assert(42003361int * 0x10000000000000000000000000int == 53245585783253001941879965045265268736int) by (nonlinear_arith);
    assert(a * a * 0x10000000000000000000000000int == 53245585783253001941879965045265268736int);
    assert(53245585783253001941879965045265268736int / 115799121int == 459809930536977063425895651187int);
    assert(pow(856082int, 5) <= 459809930536977063425895651187int < pow(856082int + 1, 5)) by {
        reveal_with_fuel(pow, 6);
    }
    crate::roots::lemma_iroot_unique(459809930536977063425895651187int, 5, 856082int);
    assert(42003361int * 856082int == 35958321291602int) by (nonlinear_arith);
    assert(a * a * 856082int == 35958321291602int);
    assert(35958321291602int / 115799121int == 310523int);
    assert(srgb_to_linear_spec(148) == 310523);
    assert(310523int * 310523int == 96424533529int) by (nonlinear_arith);
    assert(96424533529int * 310523int == 29942035425025667int) by (nonlinear_arith);
    assert(29942035425025667int * 310523int == 9297690666285245193841int) by (nonlinear_arith);
    assert(9297690666285245193841int * 310523int == 2887146798766893193327088843int) by (nonlinear_arith);
    assert(2887146798766893193327088843int * 1048576int == 3027392841663793797086145510637568int) by (nonlinear_arith);
    assert(pow(616int, 12) <= 3027392841663793797086145510637568int < pow(616int + 1, 12)) by {
        reveal_with_fuel(pow, 13);
    }
    crate::roots::lemma_iroot_unique(3027392841663793797086145510637568int, 12, 616int);
    assert(538050int * 616int == 331438800int) by (nonlinear_arith);
    assert((331438800int - 27699200int) / 2048000int == 148int);
    assert(linear_to_srgb_spec(310523) == 148);
}
/// Round trip at byte value 149.
#[verifier::spinoff_prover]
proof fn case_149()
    ensures
        linear_to_srgb_spec(srgb_to_linear_spec(149)) == 149,
{
    let a = 40 * 149 + 561int;
    assert(a * a == 42523441int) by (nonlinear_arith)
        requires
            a == 6521,
    ;
    assert(42523441int * 0x10000000000000000000000000int == 53904865507419699489010370448317218816int) by (nonlinear_arith);
    assert(a * a * 0x10000000000000000000000000int == 53904865507419699489010370448317218816int);
    assert(53904865507419699489010370448317218816int / 115799121int == 465503235619722014029885170271int);
    assert(pow(858192int, 5) <= 465503235619722014029885170271int < pow(858192int + 1, 5)) by {
        reveal_with_fuel(pow, 6);
    }
    crate::roots::lemma_iroot_unique(465503235619722014029885170271int, 5, 858192int);
    assert(42523441int * 858192int == 36493276878672int) by (nonlinear_arith);
    assert(a * a * 858192int == 36493276878672int);
    assert(36493276878672int / 115799121int == 315142int);
    assert(srgb_to_linear_spec(149) == 315142);
    assert(315142int * 315142int == 99314480164int) by (nonlinear_arith);
    assert(99314480164int * 315142int == 31298163907843288int) by (nonlinear_arith);
    assert(31298163907843288int * 315142int == 9863365970245549466896int) by (nonlinear_arith);
    assert(9863365970245549466896int * 315142int == 3108360878595122950096539232int) by (nonlinear_arith);
    assert(3108360878595122950096539232int * 1048576int == 3259352616633759642520428721733632int) by (nonlinear_arith);
    assert(pow(620int, 12) <= 3259352616633759642520428721733632int < pow(620int + 1, 12)) by {
        reveal_with_fuel(pow, 13);
    }
    crate::roots::lemma_iroot_unique(3259352616633759642520428721733632int, 12, 620int);
    assert(538050int * 620int == 333591000int) by (nonlinear_arith);
    assert((333591000int - 27699200int) / 2048000int == 149int);
    assert(linear_to_srgb_spec(315142) == 149);
}
/// Round trip at byte value 150.
#[verifier::spinoff_prover]
proof fn case_150()
    ensures
        linear_to_srgb_spec(srgb_to_linear_spec(150)) == 150,
{
    let a = 40 * 150 + 561int;
    assert(a * a == 43046721int) by (nonlinear_arith)
        requires
            a == 6561,
    ;
    assert(43046721int * 0x10000000000000000000000000int == 54568201713507127370225565301626372096int) by (nonlinear_arith);
    assert(a * a * 0x10000000000000000000000000int == 54568201713507127370225565301626372096int);
    assert(54568201713507127370225565301626372096int / 115799121int == 471231571036770886803411619174int);
    assert(pow(860293int, 5) <= 471231571036770886803411619174int < pow(860293int + 1, 5)) by {
        reveal_with_fuel(pow, 6);
    }
    crate::roots::lemma_iroot_unique(471231571036770886803411619174int, 5, 860293int);
    assert(43046721int * 860293int == 37032792749253int) by (nonlinear_arith);
    assert(a * a * 860293int == 37032792749253int);
    assert(37032792749253int / 115799121int == 319802int);
    assert(srgb_to_linear_spec(150) == 319802);
    assert(319802int * 319802int == 102273319204int) by (nonlinear_arith);
    assert(102273319204int * 319802int == 32707212028077608int) by (nonlinear_arith);
    assert(32707212028077608int * 319802int == 10459831821003275193616int) by (nonlinear_arith);
    assert(10459831821003275193616int * 319802int == 3345075136020489413468784032int) by (nonlinear_arith);
    assert(3345075136020489413468784032int * 1048576int == 3507565505827820707217443685138432int) by (nonlinear_arith);
    assert(pow(624int, 12) <= 3507565505827820707217443685138432int < pow(624int + 1, 12)) by {
        reveal_with_fuel(pow, 13);
    }
    crate::roots::lemma_iroot_unique(3507565505827820707217443685138432int, 12, 624int);
    assert(538050int * 624int == 335743200int) by (nonlinear_arith);
    assert((335743200int - 27699200int) / 2048000int == 150int);
    assert(linear_to_srgb_spec(319802) == 150);
}
/// Round trip at byte value 151.
#[verifier::spinoff_prover]
proof fn case_151()
    ensures
        linear_to_srgb_spec(srgb_to_linear_spec(151)) == 151,
{
    let a = 40 * 151 + 561int;
    assert(a * a == 43573201int) by (nonlinear_arith)
        requires
            a == 6601,
    ;
    assert(43573201int * 0x10000000000000000000000000int == 55235594401515285585525549605192728576int) by (nonlinear_arith);
    assert(a * a * 0x10000000000000000000000000int == 55235594401515285585525549605192728576int);
    assert(55235594401515285585525549605192728576int / 115799121int == 476994936788123681746474997899int);
    assert(pow(862388int, 5) <= 476994936788123681746474997899int < pow(862388int + 1, 5)) by {
        reveal_with_fuel(pow, 6);
    }
    crate::roots::lemma_iroot_unique(476994936788123681746474997899int, 5, 862388int);
    assert(43573201int * 862388int == 37577005663988int) by (nonlinear_arith);
    assert(a * a * 862388int == 37577005663988int);
    assert(37577005663988int / 115799121int == 324501int);
    assert(srgb_to_linear_spec(151) == 324501);
    assert(324501int * 324501int == 105300899001int) by (nonlinear_arith);
    assert(105300899001int * 324501int == 34170247026723501int) by (nonlinear_arith);
    assert(34170247026723501int * 324501int == 11088279330418802798001int) by (nonlinear_arith);
    assert(11088279330418802798001int * 324501int == 3598157731000231926754122501int) by (nonlinear_arith);
    assert(3598157731000231926754122501int * 1048576int == 3772941840941299192828130755608576int) by (nonlinear_arith);
    assert(pow(628int, 12) <= 3772941840941299192828130755608576int < pow(628int + 1, 12)) by {
        reveal_with_fuel(pow, 13);
    }
    crate::roots::lemma_iroot_unique(3772941840941299192828130755608576int, 12, 628int);
    assert(538050int * 628int == 337895400int) by (nonlinear_arith);
    assert((337895400int - 27699200int) / 2048000int == 151int);
    assert(linear_to_srgb_spec(324501) == 151);
}
/// Round trip at byte value 152.
#[verifier::spinoff_prover]
proof fn case_152()
    ensures
        linear_to_srgb_spec(srgb_to_linear_spec(152)) == 152,
{
    let a = 40 * 152 + 561int;
    assert(a * a == 44102881int) by (nonlinear_arith)
        requires
            a == 6641,
    ;
    assert(44102881int * 0x10000000000000000000000000int == 55907043571444174134910323359016288256int) by (nonlinear_arith);
    assert(a * a * 0x10000000000000000000000000int == 55907043571444174134910323359016288256int);
    assert(55907043571444174134910323359016288256int / 115799121int == 482793332873780398859075306443int);
    assert(pow(864474int, 5) <= 482793332873780398859075306443int < pow(864474int + 1, 5)) by {
        reveal_with_fuel(pow, 6);
    }
    crate::roots::lemma_iroot_unique(482793332873780398859075306443int, 5, 864474int);
    assert(44102881int * 864474int == 38125793949594int) by (nonlinear_arith);
    assert(a * a * 864474int == 38125793949594int);
    assert(38125793949594int / 115799121int == 329240int);
    assert(srgb_to_linear_spec(152) == 329240);
    assert(329240int * 329240int == 108398977600int) by (nonlinear_arith);
    assert(108398977600int * 329240int == 35689279385024000int) by (nonlinear_arith);
    assert(35689279385024000int * 329240int == 11750338344725301760000int) by (nonlinear_arith);
    assert(11750338344725301760000int * 329240int == 3868681396617358351462400000int) by (nonlinear_arith);
    assert(3868681396617358351462400000int * 1048576int == 4056606464139443150743037542400000int) by (nonlinear_arith);
    assert(pow(631int, 12) <= 4056606464139443150743037542400000int < pow(631int + 1, 12)) by {
        reveal_with_fuel(pow, 13);
    }
    crate::roots::lemma_iroot_unique(4056606464139443150743037542400000int, 12, 631int);
    assert(538050int * 631int == 339509550int) by (nonlinear_arith);
    assert((339509550int - 27699200int) / 2048000int == 152int);
    assert(linear_to_srgb_spec(329240) == 152);
}
/// Round trip at byte value 153.
#[verifier::spinoff_prover]
proof fn case_153()
    ensures
        linear_to_srgb_spec(srgb_to_linear_spec(153)) == 153,
{
    let a = 40 * 153 + 561int;
    assert(a * a == 44635761int) by (nonlinear_arith)
        requires
            a == 6681,
    ;
    assert(44635761int * 0x10000000000000000000000000int == 56582549223293793018379886563097051136int) by (nonlinear_arith);
    assert(a * a * 0x10000000000000000000000000int == 56582549223293793018379886563097051136int);
    assert(56582549223293793018379886563097051136int / 115799121int == 488626759293741038141212544809int);
    assert(pow(866553int, 5) <= 488626759293741038141212544809int < pow(866553int + 1, 5)) by {
        reveal_with_fuel(pow, 6);
    }
    crate::roots::lemma_iroot_unique(488626759293741038141212544809int, 5, 866553int);
    assert(44635761int * 866553int == 38679252601833int) by (nonlinear_arith);
    assert(a * a * 866553int == 38679252601833int);
    assert(38679252601833int / 115799121int == 334020int);
    assert(srgb_to_linear_spec(153) == 334020);
    assert(334020int * 334020int == 111569360400int) by (nonlinear_arith);
    assert(111569360400int * 334020int == 37266397760808000int) by (nonlinear_arith);
    assert(37266397760808000int * 334020int == 12447722180065088160000int) by (nonlinear_arith);
    assert(12447722180065088160000int * 334020int == 4157788162585340747203200000int) by (nonlinear_arith);
    assert(4157788162585340747203200000int * 1048576int == 4359756880371086259339342643200000int) by (nonlinear_arith);
    assert(pow(635int, 12) <= 4359756880371086259339342643200000int < pow(635int + 1, 12)) by {
        reveal_with_fuel(pow, 13);
    }
    crate::roots::lemma_iroot_unique(4359756880371086259339342643200000int, 12, 635int);
    assert(538050int * 635int == 341661750int) by (nonlinear_arith);
    assert((341661750int - 27699200int) / 2048000int == 153int);
    assert(linear_to_srgb_spec(334020) == 153);
}
/// Round trip at byte value 154.
#[verifier::spinoff_prover]
proof fn case_154()
    ensures
        linear_to_srgb_spec(srgb_to_linear_spec(154)) == 154,
{
    let a = 40 * 154 + 561int;
    assert(a * a == 45171841int) by (nonlinear_arith)
        requires
            a == 6721,
    ;
    assert(45171841int * 0x10000000000000000000000000int == 57262111357064142235934239217435017216int) by (nonlinear_arith);
    assert(a * a * 0x10000000000000000000000000int == 57262111357064142235934239217435017216int);
    assert(57262111357064142235934239217435017216int / 115799121int == 494495216048005599592886712995int);
    assert(pow(868625int, 5) <= 494495216048005599592886712995int < pow(868625int + 1, 5)) by {
        reveal_with_fuel(pow, 6);
    }
    crate::roots::lemma_iroot_unique(494495216048005599592886712995int, 5, 868625int);
    assert(45171841int * 868625int == 39237390388625int) by (nonlinear_arith);
    assert(a * a * 868625int == 39237390388625int);
    assert(39237390388625int / 115799121int == 338840int);
    assert(srgb_to_linear_spec(154) == 338840);
    assert(338840int * 338840int == 114812545600int) by (nonlinear_arith);
    assert(114812545600int * 338840int == 38903082951104000int) by (nonlinear_arith);
    assert(38903082951104000int * 338840int == 13181920627152079360000int) by (nonlinear_arith);
    assert(13181920627152079360000int * 338840int == 4466561985304210570342400000int) by (nonlinear_arith);
    assert(4466561985304210570342400000int * 1048576int == 4683529700302347903007352422400000int) by (nonlinear_arith);
    assert(pow(639int, 12) <= 4683529700302347903007352422400000int < pow(639int + 1, 12)) by {
        reveal_with_fuel(pow, 13);
    }
    crate::roots::lemma_iroot_unique(4683529700302347903007352422400000int, 12, 639int);
    assert(538050int * 639int == 343813950int) by (nonlinear_arith);
    assert((343813950int - 27699200int) / 2048000int == 154int);
    assert(linear_to_srgb_spec(338840) == 154);
}
/// Round trip at byte value 155.
#[verifier::spinoff_prover]
proof fn case_155()
    ensures
        linear_to_srgb_spec(srgb_to_linear_spec(155)) == 155,
{
    let a = 40 * 155 + 561int;
    assert(a * a == 45711121int) by (nonlinear_arith)
        requires
            a == 6761,
    ;
    assert(45711121int * 0x10000000000000000000000000int == 57945729972755221787573381322030186496int) by (nonlinear_arith);
    assert(a * a * 0x10000000000000000000000000int == 57945729972755221787573381322030186496int);
    assert(57945729972755221787573381322030186496int / 115799121int == 500398703136574083214097811001int);
    assert(pow(870689int, 5) <= 500398703136574083214097811001int < pow(870689int + 1, 5)) by {
        reveal_with_fuel(pow, 6);
    }
    crate::roots::lemma_iroot_unique(500398703136574083214097811001int, 5, 870689int);
    assert(45711121int * 870689int == 39800170232369int) by (nonlinear_arith);
    assert(a * a * 870689int == 39800170232369int);
    assert(39800170232369int / 115799121int == 343700int);
    assert(srgb_to_linear_spec(155) == 343700);
    assert(343700int * 343700int == 118129690000int) by (nonlinear_arith);
    assert(118129690000int * 343700int == 40601174453000000int) by (nonlinear_arith);
    assert(40601174453000000int * 343700int == 13954623659496100000000int) by (nonlinear_arith);
    assert(13954623659496100000000int * 343700int == 4796204151768809570000000000int) by (nonlinear_arith);
    assert(4796204151768809570000000000int * 1048576int == 5029184564645131263672320000000000int) by (nonlinear_arith);
    assert(pow(643int, 12) <= 5029184564645131263672320000000000int < pow(643int + 1, 12)) by {
        reveal_with_fuel(pow, 13);
    }
    crate::roots::lemma_iroot_unique(5029184564645131263672320000000000int, 12, 643int);
    assert(538050int * 643int == 345966150int) by (nonlinear_arith);
    assert((345966150int - 27699200int) / 2048000int == 155int);
    assert(linear_to_srgb_spec(343700) == 155);
}
/// Round trip at byte value 156.
#[verifier::spinoff_prover]
proof fn case_156()
    ensures
        linear_to_srgb_spec(srgb_to_linear_spec(156)) == 156,
{
    let a = 40 * 156 + 561int;
    assert(a * a == 46253601int) by (nonlinear_arith)
        requires
            a == 6801,
    ;
    assert(46253601int * 0x10000000000000000000000000int == 58633405070367031673297312876882558976int) by (nonlinear_arith);
    assert(a * a * 0x10000000000000000000000000int == 58633405070367031673297312876882558976int);
    assert(58633405070367031673297312876882558976int / 115799121int == 506337220559446489004845838828int);
    assert(pow(872746int, 5) <= 506337220559446489004845838828int < pow(872746int + 1, 5)) by {
        reveal_with_fuel(pow, 6);
    }
    crate::roots::lemma_iroot_unique(506337220559446489004845838828int, 5, 872746int);
    assert(46253601int * 872746int == 40367645258346int) by (nonlinear_arith);
    assert(a * a * 872746int == 40367645258346int);
    assert(40367645258346int / 115799121int == 348600int);
    assert(srgb_to_linear_spec(156) == 348600);
    assert(348600int * 348600int == 121521960000int) by (nonlinear_arith);
    assert(121521960000int * 348600int == 42362555256000000int) by (nonlinear_arith);
    assert(42362555256000000int * 348600int == 14767586762241600000000int) by (nonlinear_arith);
    assert(14767586762241600000000int * 348600int == 5147980745317421760000000000int) by (nonlinear_arith);
    assert(5147980745317421760000000000int * 1048576int == 5398049058001960839413760000000000int) by (nonlinear_arith);
    assert(pow(647int, 12) <= 5398049058001960839413760000000000int < pow(647int + 1, 12)) by {
        reveal_with_fuel(pow, 13);
    }
    crate::roots::lemma_iroot_unique(5398049058001960839413760000000000int, 12, 647int);
    assert(538050int * 647int == 348118350int) by (nonlinear_arith);
    assert((348118350int - 27699200int) / 2048000int == 156int);
    assert(linear_to_srgb_spec(348600) == 156);
}
/// Round trip at byte value 157.
#[verifier::spinoff_prover]
proof fn case_157()
    ensures
        linear_to_srgb_spec(srgb_to_linear_spec(157)) == 157,
{
    let a = 40 * 157 + 561int;
    assert(a * a == 46799281int) by (nonlinear_arith)
        requires
            a == 6841,
    ;
    assert(46799281int * 0x10000000000000000000000000int == 59325136649899571893106033881992134656int) by (nonlinear_arith);
    assert(a * a * 0x10000000000000000000000000int == 59325136649899571893106033881992134656int);
    assert(59325136649899571893106033881992134656int / 115799121int == 512310768316622816965130796476int);
    assert(pow(874795int, 5) <= 512310768316622816965130796476int < pow(874795int + 1, 5)) by {
        reveal_with_fuel(pow, 6);
    }
    crate::roots::lemma_iroot_unique(512310768316622816965130796476int, 5, 874795int);
    assert(46799281int * 874795int == 40939777022395int) by (nonlinear_arith);
    assert(a * a * 874795int == 40939777022395int);
    assert(40939777022395int / 115799121int == 353541int);
    assert(srgb_to_linear_spec(157) == 353541);
    assert(353541int * 353541int == 124991238681int) by (nonlinear_arith);
    assert(124991238681int * 353541int == 44189527514519421int) by (nonlinear_arith);
    assert(44189527514519421int * 353541int == 15622809747010710619761int) by (nonlinear_arith);
    assert(15622809747010710619761int * 353541int == 5523303780767913643220923701int) by (nonlinear_arith);
    assert(5523303780767913643220923701int * 1048576int == 5791603785222495816354023290699776int) by (nonlinear_arith);
    assert(pow(650int, 12) <= 5791603785222495816354023290699776int < pow(650int + 1, 12)) by {
        reveal_with_fuel(pow, 13);
    }
    crate::roots::lemma_iroot_unique(5791603785222495816354023290699776int, 12, 650int);
    assert(538050int * 650int == 349732500int) by (nonlinear_arith);
    assert((349732500int - 27699200int) / 2048000int == 157int);
    assert(linear_to_srgb_spec(353541) == 157);
}
/// Round trip at byte value 158.
#[verifier::spinoff_prover]
proof fn case_158()
    ensures
        linear_to_srgb_spec(srgb_to_linear_spec(158)) == 158,
{
    let a = 40 * 158 + 561int;
    assert(a * a == 47348161int) by (nonlinear_arith)
        requires
            a == 6881,
    ;
    assert(47348161int * 0x10000000000000000000000000int == 60020924711352842446999544337358913536int) by (nonlinear_arith);
    assert(a * a * 0x10000000000000000000000000int == 60020924711352842446999544337358913536int);
    assert(60020924711352842446999544337358913536int / 115799121int == 518319346408103067094952683944int);
    assert(pow(876838int, 5) <= 518319346408103067094952683944int < pow(876838int + 1, 5)) by {
        reveal_with_fuel(pow, 6);
    }
    crate::roots::lemma_iroot_unique(518319346408103067094952683944int, 5, 876838int);
    assert(47348161int * 876838int == 41516666794918int) by (nonlinear_arith);
    assert(a * a * 876838int == 41516666794918int);
    assert(41516666794918int / 115799121int == 358523int);
    assert(srgb_to_linear_spec(158) == 358523);
    assert(358523int * 358523int == 128538741529int) by (nonlinear_arith);
    assert(128538741529int * 358523int == 46084095229201667int) by (nonlinear_arith);
    assert(46084095229201667int * 358523int == 16522208073859069257841int) by (nonlinear_arith);
    assert(16522208073859069257841int * 358523int == 5923591605264175087528928843int) by (nonlinear_arith);
    assert(5923591605264175087528928843int * 1048576int == 6211335991081487656580734090477568int) by (nonlinear_arith);
    assert(pow(654int, 12) <= 6211335991081487656580734090477568int < pow(654int + 1, 12)) by {
        reveal_with_fuel(pow, 13);
    }
    crate::roots::lemma_iroot_unique(6211335991081487656580734090477568int, 12, 654int);
    assert(538050int * 654int == 351884700int) by (nonlinear_arith);
    assert((351884700int - 27699200int) / 2048000int == 158int);
    assert(linear_to_srgb_spec(358523) == 158);
}
/// Round trip at byte value 159.
#[verifier::spinoff_prover]
proof fn case_159()
    ensures
        linear_to_srgb_spec(srgb_to_linear_spec(159)) == 159,
{
    let a = 40 * 159 + 561int;
    assert(a * a == 47900241int) by (nonlinear_arith)
        requires
            a == 6921,
    ;
    assert(47900241int * 0x10000000000000000000000000int == 60720769254726843334977844242982895616int) by (nonlinear_arith);
    assert(a * a * 0x10000000000000000000000000int == 60720769254726843334977844242982895616int);
    assert(60720769254726843334977844242982895616int / 115799121int == 524362954833887239394311501233int);
    assert(pow(878873int, 5) <= 524362954833887239394311501233int < pow(878873int + 1, 5)) by {
        reveal_with_fuel(pow, 6);
    }
    crate::roots::lemma_iroot_unique(524362954833887239394311501233int, 5, 878873int);
    assert(47900241int * 878873int == 42098228508393int) by (nonlinear_arith);
    assert(a * a * 878873int == 42098228508393int);
    assert(42098228508393int / 115799121int == 363545int);
    assert(srgb_to_linear_spec(159) == 363545);
    assert(363545int * 363545int == 132164967025int) by (nonlinear_arith);
    assert(132164967025int * 363545int == 48047912937103625int) by (nonlinear_arith);
    assert(48047912937103625int * 363545int == 17467578508719337350625int) by (nonlinear_arith);
    assert(17467578508719337350625int * 363545int == 6350250828952371497132965625int) by (nonlinear_arith);
    assert(6350250828952371497132965625int * 1048576int == 6658720613219561894977696563200000int) by (nonlinear_arith);
    assert(pow(658int, 12) <= 6658720613219561894977696563200000int < pow(658int + 1, 12)) by {
        reveal_with_fuel(pow, 13);
    }
    crate::roots::lemma_iroot_unique(6658720613219561894977696563200000int, 12, 658int);
    assert(538050int * 658int == 354036900int) by (nonlinear_arith);
    assert((354036900int - 27699200int) / 2048000int == 159int);
    assert(linear_to_srgb_spec(363545) == 159);
}
/// Round trip at byte value 160.
#[verifier::spinoff_prover]
proof fn case_160()
    ensures
        linear_to_srgb_spec(srgb_to_linear_spec(160)) == 160,
{
    let a = 40 * 160 + 561int;
    assert(a * a == 48455521int) by (nonlinear_arith)
        requires
            a == 6961,
    ;
    assert(48455521int * 0x10000000000000000000000000int == 61424670280021574557040933598864080896int) by (nonlinear_arith);
    assert(a * a * 0x10000000000000000000000000int == 61424670280021574557040933598864080896int);
    assert(61424670280021574557040933598864080896int / 115799121int == 530441593593975333863207248342int);
    assert(pow(880901int, 5) <= 530441593593975333863207248342int < pow(880901int + 1, 5)) by {
        reveal_with_fuel(pow, 6);
    }
    crate::roots::lemma_iroot_unique(530441593593975333863207248342int, 5, 880901int);
    assert(48455521int * 880901int == 42684516904421int) by (nonlinear_arith);
    assert(a * a * 880901int == 42684516904421int);
    assert(42684516904421int / 115799121int == 368608int);
    assert(srgb_to_linear_spec(160) == 368608);
    assert(368608int * 368608int == 135871857664int) by (nonlinear_arith);
    assert(135871857664int * 368608int == 50083453709811712int) by (nonlinear_arith);
    assert(50083453709811712int * 368608int == 18461161705066275536896int) by (nonlinear_arith);
    assert(18461161705066275536896int * 368608int == 6804931893781069693104160768int) by (nonlinear_arith);
    assert(6804931893781069693104160768int * 1048576int == 7135488265453378934516388481466368int) by (nonlinear_arith);
    assert(pow(662int, 12) <= 7135488265453378934516388481466368int < pow(662int + 1, 12)) by {
        reveal_with_fuel(pow, 13);
    }
    crate::roots::lemma_iroot_unique(7135488265453378934516388481466368int, 12, 662int);
    assert(538050int * 662int == 356189100int) by (nonlinear_arith);
    assert((356189100int - 27699200int) / 2048000int == 160int);
    assert(linear_to_srgb_spec(368608) == 160);
}
/// Round trip at byte value 161.
#[verifier::spinoff_prover]
proof fn case_161()
    ensures
        linear_to_srgb_spec(srgb_to_linear_spec(161)) == 161,
{
    let a = 40 * 161 + 561int;
    assert(a * a == 49014001int) by (nonlinear_arith)
        requires
            a == 7001,
    ;
    assert(49014001int * 0x10000000000000000000000000int == 62132627787237036113188812405002469376int) by (nonlinear_arith);
    assert(a * a * 0x10000000000000000000000000int == 62132627787237036113188812405002469376int);
    assert(62132627787237036113188812405002469376int / 115799121int == 536555262688367350501639925271int);
    assert(pow(882923int, 5) <= 536555262688367350501639925271int < pow(882923int + 1, 5)) by {
        reveal_with_fuel(pow, 6);
    }
    crate::roots::lemma_iroot_unique(536555262688367350501639925271int, 5, 882923int);
    assert(49014001int * 882923int == 43275588804923int) by (nonlinear_arith);
    assert(a * a * 882923int == 43275588804923int);
    assert(43275588804923int / 115799121int == 373712int);
    assert(srgb_to_linear_spec(161) == 373712);
    assert(373712int * 373712int == 139660658944int) by (nonlinear_arith);
    assert(139660658944int * 373712int == 52192864175280128int) by (nonlinear_arith);
    assert(52192864175280128int * 373712int == 19505099656672287195136int) by (nonlinear_arith);
    assert(19505099656672287195136int * 373712int == 7289289802894313792268664832int) by (nonlinear_arith);
    assert(7289289802894313792268664832int * 1048576int == 7643374344359707979041907494879232int) by (nonlinear_arith);
    assert(pow(666int, 12) <= 7643374344359707979041907494879232int < pow(666int + 1, 12)) by {
        reveal_with_fuel(pow, 13);
    }
    crate::roots::lemma_iroot_unique(7643374344359707979041907494879232int, 12, 666int);
    assert(538050int * 666int == 358341300int) by (nonlinear_arith);
    assert((358341300int - 27699200int) / 2048000int == 161int);
    assert(linear_to_srgb_spec(373712) == 161);
}
/// Round trip at byte value 162.
#[verifier::spinoff_prover]
proof fn case_162()
    ensures
        linear_to_srgb_spec(srgb_to_linear_spec(162)) == 162,
{
    let a = 40 * 162 + 561int;
    assert(a * a == 49575681int) by (nonlinear_arith)
        requires
            a == 7041,
    ;
    assert(49575681int * 0x10000000000000000000000000int == 62844641776373228003421480661398061056int) by (nonlinear_arith);
    assert(a * a * 0x10000000000000000000000000int == 62844641776373228003421480661398061056int);
    assert(62844641776373228003421480661398061056int / 115799121int == 542703962117063289309609532022int);
    assert(pow(884937int, 5) <= 542703962117063289309609532022int < pow(884937int + 1, 5)) by {
        reveal_with_fuel(pow, 6);
    }
    crate::roots::lemma_iroot_unique(542703962117063289309609532022int, 5, 884937int);
    assert(49575681int * 884937int == 43871354417097int) by (nonlinear_arith);
    assert(a * a * 884937int == 43871354417097int);
    assert(43871354417097int / 115799121int == 378857int);
    assert(srgb_to_linear_spec(162) == 378857);
    assert(378857int * 378857int == 143532626449int) by (nonlinear_arith);
    assert(143532626449int * 378857int == 54378340258588793int) by (nonlinear_arith);
    assert(54378340258588793int * 378857int == 20601614855348174349601int) by (nonlinear_arith);
    assert(20601614855348174349601int * 378857int == 7805065999252643289566786057int) by (nonlinear_arith);
    assert(7805065999252643289566786057int * 1048576int == 8184204885232339690000782256504832int) by (nonlinear_arith);
    assert(pow(670int, 12) <= 8184204885232339690000782256504832int < pow(670int + 1, 12)) by {
        reveal_with_fuel(pow, 13);
    }
    crate::roots::lemma_iroot_unique(8184204885232339690000782256504832int, 12, 670int);
    assert(538050int * 670int == 360493500int) by (nonlinear_arith);
    assert((360493500int - 27699200int) / 2048000int == 162int);
    assert(linear_to_srgb_spec(378857) == 162);
}
/// Round trip at byte value 163.
#[verifier::spinoff_prover]
proof fn case_163()
    ensures
        linear_to_srgb_spec(srgb_to_linear_spec(163)) == 163,
{
    let a = 40 * 163 + 561int;
    assert(a * a == 50140561int) by (nonlinear_arith)
        requires
            a == 7081,
    ;
    assert(50140561int * 0x10000000000000000000000000int == 63560712247430150227738938368050855936int) by (nonlinear_arith);
    assert(a * a * 0x10000000000000000000000000int == 63560712247430150227738938368050855936int);
    assert(63560712247430150227738938368050855936int / 115799121int == 548887691880063150287116068593int);
    assert(pow(886945int, 5) <= 548887691880063150287116068593int < pow(886945int + 1, 5)) by {
        reveal_with_fuel(pow, 6);
    }
    crate::roots::lemma_iroot_unique(548887691880063150287116068593int, 5, 886945int);
    assert(50140561int * 886945int == 44471919876145int) by (nonlinear_arith);
    assert(a * a * 886945int == 44471919876145int);
    assert(44471919876145int / 115799121int == 384043int);
    assert(srgb_to_linear_spec(163) == 384043);
    assert(384043int * 384043int == 147489025849int) by (nonlinear_arith);
    assert(147489025849int * 384043int == 56642127954127507int) by (nonlinear_arith);
    assert(56642127954127507int * 384043int == 21753012745886990170801int) by (nonlinear_arith);
    assert(21753012745886990170801int * 384043int == 8354092273968677366164928443int) by (nonlinear_arith);
    assert(8354092273968677366164928443int * 1048576int == 8759900660268979837903756007047168int) by (nonlinear_arith);
    assert(pow(673int, 12) <= 8759900660268979837903756007047168int < pow(673int + 1, 12)) by {
        reveal_with_fuel(pow, 13);
    }
    crate::roots::lemma_iroot_unique(8759900660268979837903756007047168int, 12, 673int);
    assert(538050int * 673int == 362107650int) by (nonlinear_arith);
    assert((362107650int - 27699200int) / 2048000int == 163int);
    assert(linear_to_srgb_spec(384043) == 163);
}
/// Round trip at byte value 164.
#[verifier::spinoff_prover]
proof fn case_164()
    ensures
        linear_to_srgb_spec(srgb_to_linear_spec(164)) == 164,
{
    let a = 40 * 164 + 561int;
    assert(a * a == 50708641int) by (nonlinear_arith)
        requires
            a == 7121,
    ;
    assert(50708641int * 0x10000000000000000000000000int == 64280839200407802786141185524960854016int) by (nonlinear_arith);
    assert(a * a * 0x10000000000000000000000000int == 64280839200407802786141185524960854016int);
    assert(64280839200407802786141185524960854016int / 115799121int == 555106451977366933434159534984int);
    assert(pow(888945int, 5) <= 555106451977366933434159534984int < pow(888945int + 1, 5)) by {
        reveal_with_fuel(pow, 6);
    }
    crate::roots::lemma_iroot_unique(555106451977366933434159534984int, 5, 888945int);
    assert(50708641int * 888945int == 45077192873745int) by (nonlinear_arith);
    assert(a * a * 888945int == 45077192873745int);
    assert(45077192873745int / 115799121int == 389270int);
    assert(srgb_to_linear_spec(164) == 389270);
    assert(389270int * 389270int == 151531132900int) by (nonlinear_arith);
    assert(151531132900int * 389270int == 58986524103983000int) by (nonlinear_arith);
    assert(58986524103983000int * 389270int == 22961684237957462410000int) by (nonlinear_arith);
    assert(22961684237957462410000int * 389270int == 8938294823309701392340700000int) by (nonlinear_arith);
    assert(8938294823309701392340700000int * 1048576int == 9372481432646793447175041843200000int) by (nonlinear_arith);
    assert(pow(677int, 12) <= 9372481432646793447175041843200000int < pow(677int + 1, 12)) by {
        reveal_with_fuel(pow, 13);
    }
    crate::roots::lemma_iroot_unique(9372481432646793447175041843200000int, 12, 677int);
    assert(538050int * 677int == 364259850int) by (nonlinear_arith);
    assert((364259850int - 27699200int) / 2048000int == 164int);
    assert(linear_to_srgb_spec(389270) == 164);
}
/// Round trip at byte value 165.
#[verifier::spinoff_prover]
proof fn case_165()
    ensures
        linear_to_srgb_spec(srgb_to_linear_spec(165)) == 165,
{
    let a = 40 * 165 + 561int;
    assert(a * a == 51279921int) by (nonlinear_arith)
        requires
            a == 7161,
    ;
    assert(51279921int * 0x10000000000000000000000000int == 65005022635306185678628222132128055296int) by (nonlinear_arith);
    assert(a * a * 0x10000000000000000000000000int == 65005022635306185678628222132128055296int);
    assert(65005022635306185678628222132128055296int / 115799121int == 561360242408974638750739931196int);
    assert(pow(890939int, 5) <= 561360242408974638750739931196int < pow(890939int + 1, 5)) by {
        reveal_with_fuel(pow, 6);
    }
    crate::roots::lemma_iroot_unique(561360242408974638750739931196int, 5, 890939int);
    assert(51279921int * 890939int == 45687281535819int) by (nonlinear_arith);
    assert(a * a * 890939int == 45687281535819int);
    assert(45687281535819int / 115799121int == 394539int);
    assert(srgb_to_linear_spec(165) == 394539);
    assert(394539int * 394539int == 155661022521int) by (nonlinear_arith);
    assert(155661022521int * 394539int == 61414344164412819int) by (nonlinear_arith);
    assert(61414344164412819int * 394539int == 24230353932283269195441int) by (nonlinear_arith);
    assert(24230353932283269195441int * 394539int == 9559819610089108745100096699int) by (nonlinear_arith);
    assert(9559819610089108745100096699int * 1048576int == 10024197407468797291502078996250624int) by (nonlinear_arith);
    assert(pow(681int, 12) <= 10024197407468797291502078996250624int < pow(681int + 1, 12)) by {
        reveal_with_fuel(pow, 13);
    }
    crate::roots::lemma_iroot_unique(10024197407468797291502078996250624int, 12, 681int);
    assert(538050int * 681int == 366412050int) by (nonlinear_arith);
    assert((366412050int - 27699200int) / 2048000int == 165int);
    assert(linear_to_srgb_spec(394539) == 165);
}
/// Round trip at byte value 166.
#[verifier::spinoff_prover]
proof fn case_166()
    ensures
        linear_to_srgb_spec(srgb_to_linear_spec(166)) == 166,
{
    let a = 40 * 166 + 561int;
    assert(a * a == 51854401int) by (nonlinear_arith)
        requires
            a == 7201,
    ;
    assert(51854401int * 0x10000000000000000000000000int == 65733262552125298905200048189552459776int) by (nonlinear_arith);
    assert(a * a * 0x10000000000000000000000000int == 65733262552125298905200048189552459776int);
    assert(65733262552125298905200048189552459776int / 115799121int == 567649063174886266236857257228int);
    assert(pow(892927int, 5) <= 567649063174886266236857257228int < pow(892927int + 1, 5)) by {
        reveal_with_fuel(pow, 6);
    }
    crate::roots::lemma_iroot_unique(567649063174886266236857257228int, 5, 892927int);
    assert(51854401int * 892927int == 46302194721727int) by (nonlinear_arith);
    assert(a * a * 892927int == 46302194721727int);
    assert(46302194721727int / 115799121int == 399849int);
    assert(srgb_to_linear_spec(166) == 399849);
    assert(399849int * 399849int == 159879222801int) by (nonlinear_arith);
    assert(159879222801int * 399849int == 63927547357757049int) by (nonlinear_arith);
    assert(63927547357757049int * 399849int == 25561365883451798285601int) by (nonlinear_arith);
    assert(25561365883451798285601int * 399849int == 10220686587132318092699274249int) by (nonlinear_arith);
    assert(10220686587132318092699274249int * 1048576int == 10717166658788857576370234194919424int) by (nonlinear_arith);
    assert(pow(685int, 12) <= 10717166658788857576370234194919424int < pow(685int + 1, 12)) by {
        reveal_with_fuel(pow, 13);
    }
    crate::roots::lemma_iroot_unique(10717166658788857576370234194919424int, 12, 685int);
    assert(538050int * 685int == 368564250int) by (nonlinear_arith);
    assert((368564250int - 27699200int) / 2048000int == 166int);
    assert(linear_to_srgb_spec(399849) == 166);
}
/// Round trip at byte value 167.
#[verifier::spinoff_prover]
proof fn case_167()
    ensures
        linear_to_srgb_spec(srgb_to_linear_spec(167)) == 167,
{
    let a = 40 * 167 + 561int;
    assert(a * a == 52432081int) by (nonlinear_arith)
        requires
            a == 7241,
    ;
    assert(52432081int * 0x10000000000000000000000000int == 66465558950865142465856663697234067456int) by (nonlinear_arith);
    assert(a * a * 0x10000000000000000000000000int == 66465558950865142465856663697234067456int);
    assert(66465558950865142465856663697234067456int / 115799121int == 573972914275101815892511513081int);
    assert(pow(894907int, 5) <= 573972914275101815892511513081int < pow(894907int + 1, 5)) by {
        reveal_with_fuel(pow, 6);
    }
    crate::roots::lemma_iroot_unique(573972914275101815892511513081int, 5, 894907int);
    assert(52432081int * 894907int == 46921836311467int) by (nonlinear_arith);
    assert(a * a * 894907int == 46921836311467int);
    assert(46921836311467int / 115799121int == 405200int);
    assert(srgb_to_linear_spec(167) == 405200);
    assert(405200int * 405200int == 164187040000int) by (nonlinear_arith);
    assert(164187040000int * 405200int == 66528588608000000int) by (nonlinear_arith);
    assert(66528588608000000int * 405200int == 26957384103961600000000int) by (nonlinear_arith);
    assert(26957384103961600000000int * 405200int == 10923132038925240320000000000int) by (nonlinear_arith);
    assert(10923132038925240320000000000int * 1048576int == 11453734100848072793784320000000000int) by (nonlinear_arith);
    assert(pow(689int, 12) <= 11453734100848072793784320000000000int < pow(689int + 1, 12)) by {
        reveal_with_fuel(pow, 13);
    }
    crate::roots::lemma_iroot_unique(11453734100848072793784320000000000int, 12, 689int);
    assert(538050int * 689int == 370716450int) by (nonlinear_arith);
    assert((370716450int - 27699200int) / 2048000int == 167int);
    assert(linear_to_srgb_spec(405200) == 167);
}
/// Round trip at byte value 168.
#[verifier::spinoff_prover]
proof fn case_168()
    ensures
        linear_to_srgb_spec(srgb_to_linear_spec(168)) == 168,
{
    let a = 40 * 168 + 561int;
    assert(a * a == 53012961int) by (nonlinear_arith)
        requires
            a == 7281,
    ;
    assert(53012961int * 0x10000000000000000000000000int == 67201911831525716360598068655172878336int) by (nonlinear_arith);
    assert(a * a * 0x10000000000000000000000000int == 67201911831525716360598068655172878336int);
    assert(67201911831525716360598068655172878336int / 115799121int == 580331795709621287717702698755int);
    assert(pow(896881int, 5) <= 580331795709621287717702698755int < pow(896881int + 1, 5)) by {
        reveal_with_fuel(pow, 6);
    }
    crate::roots::lemma_iroot_unique(580331795709621287717702698755int, 5, 896881int);
    assert(53012961int * 896881int == 47546317474641int) by (nonlinear_arith);
    assert(a * a * 896881int == 47546317474641int);
    assert(47546317474641int / 115799121int == 410593int);
    assert(srgb_to_linear_spec(168) == 410593);
    assert(410593int * 410593int == 168586611649int) by (nonlinear_arith);
    assert(168586611649int * 410593int == 69220482636797857int) by (nonlinear_arith);
    assert(69220482636797857int * 410593int == 28421445627290742499201int) by (nonlinear_arith);
    assert(28421445627290742499201int * 410593int == 11669646624446187834974436193int) by (nonlinear_arith);
    assert(11669646624446187834974436193int * 1048576int == 12236511378875285855246154405511168int) by (nonlinear_arith);
    assert(pow(692int, 12) <= 12236511378875285855246154405511168int < pow(692int + 1, 12)) by {
        reveal_with_fuel(pow, 13);
    }
    crate::roots::lemma_iroot_unique(12236511378875285855246154405511168int, 12, 692int);
    assert(538050int * 692int == 372330600int) by (nonlinear_arith);
    assert((372330600int - 27699200int) / 2048000int == 168int);
    assert(linear_to_srgb_spec(410593) == 168);
}
/// Round trip at byte value 169.
#[verifier::spinoff_prover]
proof fn case_169()
    ensures
        linear_to_srgb_spec(srgb_to_linear_spec(169)) == 169,
{
    let a = 40 * 169 + 561int;
    assert(a * a == 53597041int) by (nonlinear_arith)
        requires
            a == 7321,
    ;
    assert(53597041int * 0x10000000000000000000000000int == 67942321194107020589424263063368892416int) by (nonlinear_arith);
    assert(a * a * 0x10000000000000000000000000int == 67942321194107020589424263063368892416int);
    assert(67942321194107020589424263063368892416int / 115799121int == 586725707478444681712430814249int);
    assert(pow(898849int, 5) <= 586725707478444681712430814249int < pow(898849int + 1, 5)) by {
        reveal_with_fuel(pow, 6);
    }
    crate::roots::lemma_iroot_unique(586725707478444681712430814249int, 5, 898849int);
    assert(53597041int * 898849int == 48175646705809int) by (nonlinear_arith);
    assert(a * a * 898849int == 48175646705809int);
    assert(48175646705809int / 115799121int == 416027int);
    assert(srgb_to_linear_spec(169) == 416027);
    assert(416027int * 416027int == 173078464729int) by (nonlinear_arith);
    assert(173078464729int * 416027int == 72005314445811683int) by (nonlinear_arith);
    assert(72005314445811683int * 416027int == 29956154952947697043441int) by (nonlinear_arith);
    assert(29956154952947697043441int * 416027int == 12462569276609971557891628907int) by (nonlinear_arith);
    assert(12462569276609971557891628907int * 1048576int == 13067951041790577536287772672786432int) by (nonlinear_arith);
    assert(pow(696int, 12) <= 13067951041790577536287772672786432int < pow(696int + 1, 12)) by {
        reveal_with_fuel(pow, 13);
    }
    crate::roots::lemma_iroot_unique(13067951041790577536287772672786432int, 12, 696int);
    assert(538050int * 696int == 374482800int) by (nonlinear_arith);
    assert((374482800int - 27699200int) / 2048000int == 169int);
    assert(linear_to_srgb_spec(416027) == 169);
}
/// Round trip at byte value 170.
#[verifier::spinoff_prover]
proof fn case_170()
    ensures
        linear_to_srgb_spec(srgb_to_linear_spec(170)) == 170,
{
    let a = 40 * 170 + 561int;
    assert(a * a == 54184321int) by (nonlinear_arith)
        requires
            a == 7361,
    ;
    assert(54184321int * 0x10000000000000000000000000int == 68686787038609055152335246921822109696int) by (nonlinear_arith);
    assert(a * a * 0x10000000000000000000000000int == 68686787038609055152335246921822109696int);
    assert(68686787038609055152335246921822109696int / 115799121int == 593154649581571997876695859563int);
    assert(pow(900810int, 5) <= 593154649581571997876695859563int < pow(900810int + 1, 5)) by {
        reveal_with_fuel(pow, 6);
    }
    crate::roots::lemma_iroot_unique(593154649581571997876695859563int, 5, 900810int);
    assert(54184321int * 900810int == 48809778200010int) by (nonlinear_arith);
    assert(a * a * 900810int == 48809778200010int);
    assert(48809778200010int / 115799121int == 421503int);
    assert(srgb_to_linear_spec(170) == 421503);
    assert(421503int * 421503int == 177664779009int) by (nonlinear_arith);
    assert(177664779009int * 421503int == 74886237346630527int) by (nonlinear_arith);
    assert(74886237346630527int * 421503int == 31564773700316807022081int) by (nonlinear_arith);
    assert(31564773700316807022081int * 421503int == 13304646809004635110228207743int) by (nonlinear_arith);
    assert(13304646809004635110228207743int * 1048576int == 13950933332398844265342653162323968int) by (nonlinear_arith);
    assert(pow(700int, 12) <= 13950933332398844265342653162323968int < pow(700int + 1, 12)) by {
        reveal_with_fuel(pow, 13);
    }
    crate::roots::lemma_iroot_unique(13950933332398844265342653162323968int, 12, 700int);
    assert(538050int * 700int == 376635000int) by (nonlinear_arith);
    assert((376635000int - 27699200int) / 2048000int == 170int);
    assert(linear_to_srgb_spec(421503) == 170);
}
/// Round trip at byte value 171.
#[verifier::spinoff_prover]
proof fn case_171()
    ensures
        linear_to_srgb_spec(srgb_to_linear_spec(171)) == 171,
{
    let a = 40 * 171 + 561int;
    assert(a * a == 54774801int) by (nonlinear_arith)
        requires
            a == 7401,
    ;
    assert(54774801int * 0x10000000000000000000000000int == 69435309365031820049331020230532530176int) by (nonlinear_arith);
    assert(a * a * 0x10000000000000000000000000int == 69435309365031820049331020230532530176int);
    assert(69435309365031820049331020230532530176int / 115799121int == 599618622019003236210497834698int);
    assert(pow(902765int, 5) <= 599618622019003236210497834698int < pow(902765int + 1, 5)) by {
        reveal_with_fuel(pow, 6);
    }
    crate::roots::lemma_iroot_unique(599618622019003236210497834698int, 5, 902765int);
    assert(54774801int * 902765int == 49448773224765int) by (nonlinear_arith);
    assert(a * a * 902765int == 49448773224765int);
    assert(49448773224765int / 115799121int == 427022int);
    assert(srgb_to_linear_spec(171) == 427022);
    assert(427022int * 427022int == 182347788484int) by (nonlinear_arith);
    assert(182347788484int * 427022int == 77866517334014648int) by (nonlinear_arith);
    assert(77866517334014648int * 427022int == 33250715965005603018256int) by (nonlinear_arith);
    assert(33250715965005603018256int * 427022int == 14198787232808622612061713632int) by (nonlinear_arith);
    assert(14198787232808622612061713632int * 1048576int == 14888507521429534264065223433388032int) by (nonlinear_arith);
    assert(pow(704int, 12) <= 14888507521429534264065223433388032int < pow(704int + 1, 12)) by {
        reveal_with_fuel(pow, 13);
    }
    crate::roots::lemma_iroot_unique(14888507521429534264065223433388032int, 12, 704int);
    assert(538050int * 704int == 378787200int) by (nonlinear_arith);
    assert((378787200int - 27699200int) / 2048000int == 171int);
    assert(linear_to_srgb_spec(427022) == 171);
}
/// Round trip at byte value 172.
#[verifier::spinoff_prover]
proof fn case_172()
    ensures
        linear_to_srgb_spec(srgb_to_linear_spec(172)) == 172,
{
    let a = 40 * 172 + 561int;
    assert(a * a == 55368481int) by (nonlinear_arith)
        requires
            a == 7441,
    ;
    assert(55368481int * 0x10000000000000000000000000int == 70187888173375315280411582989500153856int) by (nonlinear_arith);
    assert(a * a * 0x10000000000000000000000000int == 70187888173375315280411582989500153856int);
    assert(70187888173375315280411582989500153856int / 115799121int == 606117624790738396713836739654int);
    assert(pow(904714int, 5) <= 606117624790738396713836739654int < pow(904714int + 1, 5)) by {
        reveal_with_fuel(pow, 6);
    }
    crate::roots::lemma_iroot_unique(606117624790738396713836739654int, 5, 904714int);
    assert(55368481int * 904714int == 50092639919434int) by (nonlinear_arith);
    assert(a * a * 904714int == 50092639919434int);
    assert(50092639919434int / 115799121int == 432582int);
    assert(srgb_to_linear_spec(172) == 432582);
    assert(432582int * 432582int == 187127186724int) by (nonlinear_arith);
    assert(187127186724int * 432582int == 80947852687441368int) by (nonlinear_arith);
    assert(80947852687441368int * 432582int == 35016584011238761852176int) by (nonlinear_arith);
    assert(35016584011238761852176int * 432582int == 15147543944749686079537998432int) by (nonlinear_arith);
    assert(15147543944749686079537998432int * 1048576int == 15883351039409846830537636243832832int) by (nonlinear_arith);
    assert(pow(708int, 12) <= 15883351039409846830537636243832832int < pow(708int + 1, 12)) by {
        reveal_with_fuel(pow, 13);
    }
    crate::roots::lemma_iroot_unique(15883351039409846830537636243832832int, 12, 708int);
    assert(538050int * 708int == 380939400int) by (nonlinear_arith);
    assert((380939400int - 27699200int) / 2048000int == 172int);
    assert(linear_to_srgb_spec(432582) == 172);
}
/// Round trip at byte value 173.
#[verifier::spinoff_prover]
proof fn case_173()
    ensures
        linear_to_srgb_spec(srgb_to_linear_spec(173)) == 173,
{
    let a = 40 * 173 + 561int;
    assert(a * a == 55965361int) by (nonlinear_arith)
        requires
            a == 7481,
    ;
    assert(55965361int * 0x10000000000000000000000000int == 70944523463639540845576935198724980736int) by (nonlinear_arith);
    assert(a * a * 0x10000000000000000000000000int == 70944523463639540845576935198724980736int);
    assert(70944523463639540845576935198724980736int / 115799121int == 612651657896777479386712574430int);
    assert(pow(906656int, 5) <= 612651657896777479386712574430int < pow(906656int + 1, 5)) by {
        reveal_with_fuel(pow, 6);
    }
    crate::roots::lemma_iroot_unique(612651657896777479386712574430int, 5, 906656int);
    assert(55965361int * 906656int == 50741330342816int) by (nonlinear_arith);
    assert(a * a * 906656int == 50741330342816int);
    assert(50741330342816int / 115799121int == 438184int);
    assert(srgb_to_linear_spec(173) == 438184);
    assert(438184int * 438184int == 192005217856int) by (nonlinear_arith);
    assert(192005217856int * 438184int == 84133614381013504int) by (nonlinear_arith);
    assert(84133614381013504int * 438184int == 36866003683930021236736int) by (nonlinear_arith);
    assert(36866003683930021236736int * 438184int == 16154092958239192425597927424int) by (nonlinear_arith);
    assert(16154092958239192425597927424int * 1048576int == 16938794177778619436863772346548224int) by (nonlinear_arith);
    assert(pow(711int, 12) <= 16938794177778619436863772346548224int < pow(711int + 1, 12)) by {
        reveal_with_fuel(pow, 13);
    }
    crate::roots::lemma_iroot_unique(16938794177778619436863772346548224int, 12, 711int);
    assert(538050int * 711int == 382553550int) by (nonlinear_arith);
    assert((382553550int - 27699200int) / 2048000int == 173int);
    assert(linear_to_srgb_spec(438184) == 173);
}
/// Round trip at byte value 174.
#[verifier::spinoff_prover]
proof fn case_174()
    ensures
        linear_to_srgb_spec(srgb_to_linear_spec(174)) == 174,
{
    let a = 40 * 174 + 561int;
    assert(a * a == 56565441int) by (nonlinear_arith)
        requires
            a == 7521,
    ;
    assert(56565441int * 0x10000000000000000000000000int == 71705215235824496744827076858207010816int) by (nonlinear_arith);
    assert(a * a * 0x10000000000000000000000000int == 71705215235824496744827076858207010816int);
    assert(71705215235824496744827076858207010816int / 115799121int == 619220721337120484229125339027int);
    assert(pow(908592int, 5) <= 619220721337120484229125339027int < pow(908592int + 1, 5)) by {
        reveal_with_fuel(pow, 6);
    }
    crate::roots::lemma_iroot_unique(619220721337120484229125339027int, 5, 908592int);
    assert(56565441int * 908592int == 51394907169072int) by (nonlinear_arith);
    assert(a * a * 908592int == 51394907169072int);
    assert(51394907169072int / 115799121int == 443828int);
    assert(srgb_to_linear_spec(174) == 443828);
    assert(443828int * 443828int == 196983293584int) by (nonlinear_arith);
    assert(196983293584int * 443828int == 87426701224799552int) by (nonlinear_arith);
    assert(87426701224799552int * 443828int == 38802417951200335565056int) by (nonlinear_arith);
    assert(38802417951200335565056int * 443828int == 17221599554445342533167674368int) by (nonlinear_arith);
    assert(17221599554445342533167674368int * 1048576int == 18058155974402079492058827318099968int) by (nonlinear_arith);
    assert(pow(715int, 12) <= 18058155974402079492058827318099968int < pow(715int + 1, 12)) by {
        reveal_with_fuel(pow, 13);
    }
    crate::roots::lemma_iroot_unique(18058155974402079492058827318099968int, 12, 715int);
    assert(538050int * 715int == 384705750int) by (nonlinear_arith);
    assert((384705750int - 27699200int) / 2048000int == 174int);
    assert(linear_to_srgb_spec(443828) == 174);
}
/// Round trip at byte value 175.
#[verifier::spinoff_prover]
proof fn case_175()
    ensures
        linear_to_srgb_spec(srgb_to_linear_spec(175)) == 175,
{
    let a = 40 * 175 + 561int;
    assert(a * a == 57168721int) by (nonlinear_arith)
        requires
            a == 7561,
    ;
    assert(57168721int * 0x10000000000000000000000000int == 72469963489930182978162007967946244096int) by (nonlinear_arith);
    assert(a * a * 0x10000000000000000000000000int == 72469963489930182978162007967946244096int);
    assert(72469963489930182978162007967946244096int / 115799121int == 625824815111767411241075033444int);
    assert(pow(910522int, 5) <= 625824815111767411241075033444int < pow(910522int + 1, 5)) by {
        reveal_with_fuel(pow, 6);
    }
    crate::roots::lemma_iroot_unique(625824815111767411241075033444int, 5, 910522int);
    assert(57168721int * 910522int == 52053378182362int) by (nonlinear_arith);
    assert(a * a * 910522int == 52053378182362int);
    assert(52053378182362int / 115799121int == 449514int);
    assert(srgb_to_linear_spec(175) == 449514);
    assert(449514int * 449514int == 202062836196int) by (nonlinear_arith);
    assert(202062836196int * 449514int == 90830073749808744int) by (nonlinear_arith);
    assert(90830073749808744int * 449514int == 40829389771571527750416int) by (nonlinear_arith);
    assert(40829389771571527750416int * 449514int == 18353382313778203725200497824int) by (nonlinear_arith);
    assert(18353382313778203725200497824int * 1048576int == 19244916213052293749355837206298624int) by (nonlinear_arith);
    assert(pow(719int, 12) <= 19244916213052293749355837206298624int < pow(719int + 1, 12)) by {
        reveal_with_fuel(pow, 13);
    }
    crate::roots::lemma_iroot_unique(19244916213052293749355837206298624int, 12, 719int);
    assert(538050int * 719int == 386857950int) by (nonlinear_arith);
    assert((386857950int - 27699200int) / 2048000int == 175int);
    assert(linear_to_srgb_spec(449514) == 175);
}
/// Round trip at byte value 176.
#[verifier::spinoff_prover]
proof fn case_176()
    ensures
        linear_to_srgb_spec(srgb_to_linear_spec(176)) == 176,
{
    let a = 40 * 176 + 561int;
    assert(a * a == 57775201int) by (nonlinear_arith)
        requires
            a == 7601,
    ;
    assert(57775201int * 0x10000000000000000000000000int == 73238768225956599545581728527942680576int) by (nonlinear_arith);
    assert(a * a * 0x10000000000000000000000000int == 73238768225956599545581728527942680576int);
    assert(73238768225956599545581728527942680576int / 115799121int == 632463939220718260422561657682int);
    assert(pow(912445int, 5) <= 632463939220718260422561657682int < pow(912445int + 1, 5)) by {
        reveal_with_fuel(pow, 6);
    }
    crate::roots::lemma_iroot_unique(632463939220718260422561657682int, 5, 912445int);
    assert(57775201int * 912445int == 52716693276445int) by (nonlinear_arith);
    assert(a * a * 912445int == 52716693276445int);
    assert(52716693276445int / 115799121int == 455242int);
    assert(srgb_to_linear_spec(176) == 455242);
    assert(455242int * 455242int == 207245278564int) by (nonlinear_arith);
    assert(207245278564int * 455242int == 94346755104032488int) by (nonlinear_arith);
    assert(94346755104032488int * 455242int == 42950605487069957902096int) by (nonlinear_arith);
    assert(42950605487069957902096int * 455242int == 19552919543144701775265987232int) by (nonlinear_arith);
    assert(19552919543144701775265987232int * 1048576int == 20502722162872498808701307827781632int) by (nonlinear_arith);
    assert(pow(723int, 12) <= 20502722162872498808701307827781632int < pow(723int + 1, 12)) by {
        reveal_with_fuel(pow, 13);
    }
    crate::roots::lemma_iroot_unique(20502722162872498808701307827781632int, 12, 723int);
    assert(538050int * 723int == 389010150int) by (nonlinear_arith);
    assert((389010150int - 27699200int) / 2048000int == 176int);
    assert(linear_to_srgb_spec(455242) == 176);
}
/// Round trip at byte value 177.
#[verifier::spinoff_prover]
proof fn case_177()
    ensures
        linear_to_srgb_spec(srgb_to_linear_spec(177)) == 177,
{
    let a = 40 * 177 + 561int;
    assert(a * a == 58384881int) by (nonlinear_arith)
        requires
            a == 7641,
    ;
    assert(58384881int * 0x10000000000000000000000000int == 74011629443903746447086238538196320256int) by (nonlinear_arith);
    assert(a * a * 0x10000000000000000000000000int == 74011629443903746447086238538196320256int);
    assert(74011629443903746447086238538196320256int / 115799121int == 639138093663973031773585211740int);
    assert(pow(914363int, 5) <= 639138093663973031773585211740int < pow(914363int + 1, 5)) by {
        reveal_with_fuel(pow, 6);
    }
    crate::roots::lemma_iroot_unique(639138093663973031773585211740int, 5, 914363int);
    assert(58384881int * 914363int == 53384974945803int) by (nonlinear_arith);
    assert(a * a * 914363int == 53384974945803int);
    assert(53384974945803int / 115799121int == 461013int);
    assert(srgb_to_linear_spec(177) == 461013);
    assert(461013int * 461013int == 212532986169int) by (nonlinear_arith);
    assert(212532986169int * 461013int == 97980469552729197int) by (nonlinear_arith);
    assert(97980469552729197int * 461013int == 45170270209912345296561int) by (nonlinear_arith);
    assert(45170270209912345296561int * 461013int == 20824081780282320042203476293int) by (nonlinear_arith);
    assert(20824081780282320042203476293int * 1048576int == 21835632376841314020573552357408768int) by (nonlinear_arith);
    assert(pow(727int, 12) <= 21835632376841314020573552357408768int < pow(727int + 1, 12)) by {
        reveal_with_fuel(pow, 13);
    }
    crate::roots::lemma_iroot_unique(21835632376841314020573552357408768int, 12, 727int);
    assert(538050int * 727int == 391162350int) by (nonlinear_arith);
    assert((391162350int - 27699200int) / 2048000int == 177int);
    assert(linear_to_srgb_spec(461013) == 177);
}
/// Round trip at byte value 178.
#[verifier::spinoff_prover]
proof fn case_178()
    ensures
        linear_to_srgb_spec(srgb_to_linear_spec(178)) == 178,
{
    let a = 40 * 178 + 561int;
    assert(a * a == 58997761int) by (nonlinear_arith)
        requires
            a == 7681,
    ;
    assert(58997761int * 0x10000000000000000000000000int == 74788547143771623682675537998707163136int) by (nonlinear_arith);
    assert(a * a * 0x10000000000000000000000000int == 74788547143771623682675537998707163136int);
    assert(74788547143771623682675537998707163136int / 115799121int == 645847278441531725294145695619int);
    assert(pow(916275int, 5) <= 645847278441531725294145695619int < pow(916275int + 1, 5)) by {
        reveal_with_fuel(pow, 6);
    }
    crate::roots::lemma_iroot_unique(645847278441531725294145695619int, 5, 916275int);
    assert(58997761int * 916275int == 54058173460275int) by (nonlinear_arith);
    assert(a * a * 916275int == 54058173460275int);
    assert(54058173460275int / 115799121int == 466827int);
    assert(srgb_to_linear_spec(178) == 466827);
    assert(466827int * 466827int == 217927447929int) by (nonlinear_arith);
    assert(217927447929int * 466827int == 101734416734351283int) by (nonlinear_arith);
    assert(101734416734351283int * 466827int == 47492372560847006389041int) by (nonlinear_arith);
    assert(47492372560847006389041int * 466827int == 22170721805462525451576842907int) by (nonlinear_arith);
    assert(22170721805462525451576842907int * 1048576int == 23247686787884673087912639628050432int) by (nonlinear_arith);
    assert(pow(730int, 12) <= 23247686787884673087912639628050432int < pow(730int + 1, 12)) by {
        reveal_with_fuel(pow, 13);
    }
    crate::roots::lemma_iroot_unique(23247686787884673087912639628050432int, 12, 730int);
    assert(538050int * 730int == 392776500int) by (nonlinear_arith);
    assert((392776500int - 27699200int) / 2048000int == 178int);
    assert(linear_to_srgb_spec(466827) == 178);
}
/// Round trip at byte value 179.
#[verifier::spinoff_prover]
proof fn case_179()
    ensures
        linear_to_srgb_spec(srgb_to_linear_spec(179)) == 179,
{
    let a = 40 * 179 + 561int;
    assert(a * a == 59613841int) by (nonlinear_arith)
        requires
            a == 7721,
    ;
    assert(59613841int * 0x10000000000000000000000000int == 75569521325560231252349626909475209216int) by (nonlinear_arith);
    assert(a * a * 0x10000000000000000000000000int == 75569521325560231252349626909475209216int);
    assert(75569521325560231252349626909475209216int / 115799121int == 652591493553394340984243109319int);
    assert(pow(918180int, 5) <= 652591493553394340984243109319int < pow(918180int + 1, 5)) by {
        reveal_with_fuel(pow, 6);
    }
    crate::roots::lemma_iroot_unique(652591493553394340984243109319int, 5, 918180int);
    assert(59613841int * 918180int == 54736236529380int) by (nonlinear_arith);
    assert(a * a * 918180int == 54736236529380int);
    assert(54736236529380int / 115799121int == 472682int);
    assert(srgb_to_linear_spec(179) == 472682);
    assert(472682int * 472682int == 223428273124int) by (nonlinear_arith);
    assert(223428273124int * 472682int == 105610522996798568int) by (nonlinear_arith);
    assert(105610522996798568int * 472682int == 49920193231172740719376int) by (nonlinear_arith);
    assert(49920193231172740719376int * 472682int == 23596376776897193428716086432int) by (nonlinear_arith);
    assert(23596376776897193428716086432int * 1048576int == 24742594375211751496709399046520832int) by (nonlinear_arith);
    assert(pow(734int, 12) <= 24742594375211751496709399046520832int < pow(734int + 1, 12)) by {
        reveal_with_fuel(pow, 13);
    }
    crate::roots::lemma_iroot_unique(24742594375211751496709399046520832int, 12, 734int);
    assert(538050int * 734int == 394928700int) by (nonlinear_arith);
    assert((394928700int - 27699200int) / 2048000int == 179int);
    assert(linear_to_srgb_spec(472682) == 179);
}
/// Round trip at byte value 180.
#[verifier::spinoff_prover]
proof fn case_180()
    ensures
        linear_to_srgb_spec(srgb_to_linear_spec(180)) == 180,
{
    let a = 40 * 180 + 561int;
    assert(a * a == 60233121int) by (nonlinear_arith)
        requires
            a == 7761,
    ;
    assert(60233121int * 0x10000000000000000000000000int == 76354551989269569156108505270500458496int) by (nonlinear_arith);
    assert(a * a * 0x10000000000000000000000000int == 76354551989269569156108505270500458496int);
    assert(76354551989269569156108505270500458496int / 115799121int == 659370738999560878843877452839int);
    assert(pow(920080int, 5) <= 659370738999560878843877452839int < pow(920080int + 1, 5)) by {
        reveal_with_fuel(pow, 6);
    }
    crate::roots::lemma_iroot_unique(659370738999560878843877452839int, 5, 920080int);
    assert(60233121int * 920080int == 55419289969680int) by (nonlinear_arith);
    assert(a * a * 920080int == 55419289969680int);
    assert(55419289969680int / 115799121int == 478581int);
    assert(srgb_to_linear_spec(180) == 478581);
    assert(478581int * 478581int == 229039773561int) by (nonlinear_arith);
    assert(229039773561int * 478581int == 109614083870596941int) by (nonlinear_arith);
    assert(109614083870596941int * 478581int == 52459217872874154620721int) by (nonlinear_arith);
    assert(52459217872874154620721int * 478581int == 25105984948817985792539276901int) by (nonlinear_arith);
    assert(25105984948817985792539276901int * 1048576int == 26325533273691768270397664815742976int) by (nonlinear_arith);
    assert(pow(738int, 12) <= 26325533273691768270397664815742976int < pow(738int + 1, 12)) by {
        reveal_with_fuel(pow, 13);
    }
    crate::roots::lemma_iroot_unique(26325533273691768270397664815742976int, 12, 738int);
    assert(538050int * 738int == 397080900int) by (nonlinear_arith);
    assert((397080900int - 27699200int) / 2048000int == 180int);
    assert(linear_to_srgb_spec(478581) == 180);
}
/// Round trip at byte value 181.
#[verifier::spinoff_prover]
proof fn case_181()
    ensures
        linear_to_srgb_spec(srgb_to_linear_spec(181)) == 181,
{
    let a = 40 * 181 + 561int;
    assert(a * a == 60855601int) by (nonlinear_arith)
        requires
            a == 7801,
    ;
    assert(60855601int * 0x10000000000000000000000000int == 77143639134899637393952173081782910976int) by (nonlinear_arith);
    assert(a * a * 0x10000000000000000000000000int == 77143639134899637393952173081782910976int);
    assert(77143639134899637393952173081782910976int / 115799121int == 666185014780031338873048726179int);
    assert(pow(921974int, 5) <= 666185014780031338873048726179int < pow(921974int + 1, 5)) by {
        reveal_with_fuel(pow, 6);
    }
    crate::roots::lemma_iroot_unique(666185014780031338873048726179int, 5, 921974int);
    assert(60855601int * 921974int == 56107281876374int) by (nonlinear_arith);
    assert(a * a * 921974int == 56107281876374int);
    assert(56107281876374int / 115799121int == 484522int);
    assert(srgb_to_linear_spec(181) == 484522);
    assert(484522int * 484522int == 234761568484int) by (nonlinear_arith);
    assert(234761568484int * 484522int == 113747144685004648int) by (nonlinear_arith);
    assert(113747144685004648int * 484522int == 55112994037067822058256int) by (nonlinear_arith);
    assert(55112994037067822058256int * 484522int == 26703458096828175279310313632int) by (nonlinear_arith);
    assert(26703458096828175279310313632int * 1048576int == 28000605277339700721678091426988032int) by (nonlinear_arith);
    assert(pow(742int, 12) <= 28000605277339700721678091426988032int < pow(742int + 1, 12)) by {
        reveal_with_fuel(pow, 13);
    }
    crate::roots::lemma_iroot_unique(28000605277339700721678091426988032int, 12, 742int);
    assert(538050int * 742int == 399233100int) by (nonlinear_arith);
    assert((399233100int - 27699200int) / 2048000int == 181int);
    assert(linear_to_srgb_spec(484522) == 181);
}
/// Round trip at byte value 182.
#[verifier::spinoff_prover]
proof fn case_182()
    ensures
        linear_to_srgb_spec(srgb_to_linear_spec(182)) == 182,
{
    let a = 40 * 182 + 561int;
    assert(a * a == 61481281int) by (nonlinear_arith)
        requires
            a == 7841,
    ;
    assert(61481281int * 0x10000000000000000000000000int == 77936782762450435965880630343322566656int) by (nonlinear_arith);
    assert(a * a * 0x10000000000000000000000000int == 77936782762450435965880630343322566656int);
    assert(77936782762450435965880630343322566656int / 115799121int == 673034320894805721071756929340int);
    assert(pow(923862int, 5) <= 673034320894805721071756929340int < pow(923862int + 1, 5)) by {
        reveal_with_fuel(pow, 6);
    }
    crate::roots::lemma_iroot_unique(673034320894805721071756929340int, 5, 923862int);
    assert(61481281int * 923862int == 56800219227222int) by (nonlinear_arith);
    assert(a * a * 923862int == 56800219227222int);
    assert(56800219227222int / 115799121int == 490506int);
    assert(srgb_to_linear_spec(182) == 490506);
    assert(490506int * 490506int == 240596136036int) by (nonlinear_arith);
    assert(240596136036int * 490506int == 118013848302474216int) by (nonlinear_arith);
    assert(118013848302474216int * 490506int == 57886500675453417793296int) by (nonlinear_arith);
    assert(57886500675453417793296int * 490506int == 28393675900313954148118447776int) by (nonlinear_arith);
    assert(28393675900313954148118447776int * 1048576int == 29772927100847604784817449495166976int) by (nonlinear_arith);
    assert(pow(746int, 12) <= 29772927100847604784817449495166976int < pow(746int + 1, 12)) by {
        reveal_with_fuel(pow, 13);
    }
    crate::roots::lemma_iroot_unique(29772927100847604784817449495166976int, 12, 746int);
    assert(538050int * 746int == 401385300int) by (nonlinear_arith);
    assert((401385300int - 27699200int) / 2048000int == 182int);
    assert(linear_to_srgb_spec(490506) == 182);
}
/// Round trip at byte value 183.
#[verifier::spinoff_prover]
proof fn case_183()
    ensures
        linear_to_srgb_spec(srgb_to_linear_spec(183)) == 183,
{
    let a = 40 * 183 + 561int;
    assert(a * a == 62110161int) by (nonlinear_arith)
        requires
            a == 7881,
    ;
    assert(62110161int * 0x10000000000000000000000000int == 78733982871921964871893877055119425536int) by (nonlinear_arith);
    assert(a * a * 0x10000000000000000000000000int == 78733982871921964871893877055119425536int);
    assert(78733982871921964871893877055119425536int / 115799121int == 679918657343884025440002062322int);
    assert(pow(925745int, 5) <= 679918657343884025440002062322int < pow(925745int + 1, 5)) by {
        reveal_with_fuel(pow, 6);
    }
    crate::roots::lemma_iroot_unique(679918657343884025440002062322int, 5, 925745int);
    assert(62110161int * 925745int == 57498170994945int) by (nonlinear_arith);
    assert(a * a * 925745int == 57498170994945int);
    assert(57498170994945int / 115799121int == 496533int);
    assert(srgb_to_linear_spec(183) == 496533);
    assert(496533int * 496533int == 246545020089int) by (nonlinear_arith);
    assert(246545020089int * 496533int == 122417738459851437int) by (nonlinear_arith);
    assert(122417738459851437int * 496533int == 60784446930685413567921int) by (nonlinear_arith);
    assert(60784446930685413567921int * 496533int == 30181483787834020455120517893int) by (nonlinear_arith);
    assert(30181483787834020455120517893int * 1048576int == 31647579544311845832748452170170368int) by (nonlinear_arith);
    assert(pow(749int, 12) <= 31647579544311845832748452170170368int < pow(749int + 1, 12)) by {
        reveal_with_fuel(pow, 13);
    }
    crate::roots::lemma_iroot_unique(31647579544311845832748452170170368int, 12, 749int);
    assert(538050int * 749int == 402999450int) by (nonlinear_arith);
    assert((402999450int - 27699200int) / 2048000int == 183int);
    assert(linear_to_srgb_spec(496533) == 183);
}
/// Round trip at byte value 184.
#[verifier::spinoff_prover]
proof fn case_184()
    ensures
        linear_to_srgb_spec(srgb_to_linear_spec(184)) == 184,
{
    let a = 40 * 184 + 561int;
    assert(a * a == 62742241int) by (nonlinear_arith)
        requires
            a == 7921,
    ;
    assert(62742241int * 0x10000000000000000000000000int == 79535239463314224111991913217173487616int) by (nonlinear_arith);
    assert(a * a * 0x10000000000000000000000000int == 79535239463314224111991913217173487616int);
    assert(79535239463314224111991913217173487616int / 115799121int == 686838024127266251977784125124int);
    assert(pow(927621int, 5) <= 686838024127266251977784125124int < pow(927621int + 1, 5)) by {
        reveal_with_fuel(pow, 6);
    }
    crate::roots::lemma_iroot_unique(686838024127266251977784125124int, 5, 927621int);
    assert(62742241int * 927621int == 58201020338661int) by (nonlinear_arith);
    assert(a * a * 927621int == 58201020338661int);
    assert(58201020338661int / 115799121int == 502603int);
    assert(srgb_to_linear_spec(184) == 502603);
    assert(502603int * 502603int == 252609775609int) by (nonlinear_arith);
    assert(252609775609int * 502603int == 126962431050410227int) by (nonlinear_arith);
    assert(126962431050410227int * 502603int == 63811698733229331320881int) by (nonlinear_arith);
    assert(63811698733229331320881int * 502603int == 32071951218417261609868753243int) by (nonlinear_arith);
    assert(32071951218417261609868753243int * 1048576int == 33629878320803098509829737800531968int) by (nonlinear_arith);
    assert(pow(753int, 12) <= 33629878320803098509829737800531968int < pow(753int + 1, 12)) by {
        reveal_with_fuel(pow, 13);
    }
    crate::roots::lemma_iroot_unique(33629878320803098509829737800531968int, 12, 753int);
    assert(538050int * 753int == 405151650int) by (nonlinear_arith);
    assert((405151650int - 27699200int) / 2048000int == 184int);
    assert(linear_to_srgb_spec(502603) == 184);
}
/// Round trip at byte value 185.
#[verifier::spinoff_prover]
proof fn case_185()
    ensures
        linear_to_srgb_spec(srgb_to_linear_spec(185)) == 185,
{
    let a = 40 * 185 + 561int;
    assert(a * a == 63377521int) by (nonlinear_arith)
        requires
            a == 7961,
    ;
    assert(63377521int * 0x10000000000000000000000000int == 80340552536627213686174738829484752896int) by (nonlinear_arith);
    assert(a * a * 0x10000000000000000000000000int == 80340552536627213686174738829484752896int);
    assert(80340552536627213686174738829484752896int / 115799121int == 693792421244952400685103117747int);
    assert(pow(929492int, 5) <= 693792421244952400685103117747int < pow(929492int + 1, 5)) by {
        reveal_with_fuel(pow, 6);
    }
    crate::roots::lemma_iroot_unique(693792421244952400685103117747int, 5, 929492int);
    assert(63377521int * 929492int == 58908898749332int) by (nonlinear_arith);
    assert(a * a * 929492int == 58908898749332int);
    assert(58908898749332int / 115799121int == 508716int);
    assert(srgb_to_linear_spec(185) == 508716);
    assert(508716int * 508716int == 258791968656int) by (nonlinear_arith);
    assert(258791968656int * 508716int == 131651615126805696int) by (nonlinear_arith);
    assert(131651615126805696int * 508716int == 66973283040848086446336int) by (nonlinear_arith);
    assert(66973283040848086446336int * 508716int == 34070380655408075144634264576int) by (nonlinear_arith);
    assert(34070380655408075144634264576int * 1048576int == 35725383466125177802860018612043776int) by (nonlinear_arith);
    assert(pow(757int, 12) <= 35725383466125177802860018612043776int < pow(757int + 1, 12)) by {
        reveal_with_fuel(pow, 13);
    }
    crate::roots::lemma_iroot_unique(35725383466125177802860018612043776int, 12, 757int);
    assert(538050int * 757int == 407303850int) by (nonlinear_arith);
    assert((407303850int - 27699200int) / 2048000int == 185int);
    assert(linear_to_srgb_spec(508716) == 185);
}
/// Round trip at byte value 186.
#[verifier::spinoff_prover]
proof fn case_186()
    ensures
        linear_to_srgb_spec(srgb_to_linear_spec(186)) == 186,
{
    let a = 40 * 186 + 561int;
    assert(a * a == 64016001int) by (nonlinear_arith)
        requires
            a == 8001,
    ;
    assert(64016001int * 0x10000000000000000000000000int == 81149922091860933594442353892053221376int) by (nonlinear_arith);
    assert(a * a * 0x10000000000000000000000000int == 81149922091860933594442353892053221376int);
    assert(81149922091860933594442353892053221376int / 115799121int == 700781848696942471561959040190int);
    assert(pow(931357int, 5) <= 700781848696942471561959040190int < pow(931357int + 1, 5)) by {
        reveal_with_fuel(pow, 6);
    }
    crate::roots::lemma_iroot_unique(700781848696942471561959040190int, 5, 931357int);
    assert(64016001int * 931357int == 59621750643357int) by (nonlinear_arith);
    assert(a * a * 931357int == 59621750643357int);
    assert(59621750643357int / 115799121int == 514872int);
    assert(srgb_to_linear_spec(186) == 514872);
    assert(514872int * 514872int == 265093176384int) by (nonlinear_arith);
    assert(265093176384int * 514872int == 136489053911182848int) by (nonlinear_arith);
    assert(136489053911182848int * 514872int == 70274392165358535315456int) by (nonlinear_arith);
    assert(70274392165358535315456int * 514872int == 36182316842962479794939461632int) by (nonlinear_arith);
    assert(36182316842962479794939461632int * 1048576int == 37939909065926225213458440920236032int) by (nonlinear_arith);
    assert(pow(761int, 12) <= 37939909065926225213458440920236032int < pow(761int + 1, 12)) by {
        reveal_with_fuel(pow, 13);
    }
    crate::roots::lemma_iroot_unique(37939909065926225213458440920236032int, 12, 761int);
    assert(538050int * 761int == 409456050int) by (nonlinear_arith);
    assert((409456050int - 27699200int) / 2048000int == 186int);
    assert(linear_to_srgb_spec(514872) == 186);
}
/// Round trip at byte value 187.
#[verifier::spinoff_prover]
proof fn case_187()
    ensures
        linear_to_srgb_spec(srgb_to_linear_spec(187)) == 187,
{
    let a = 40 * 187 + 561int;
    assert(a * a == 64657681int) by (nonlinear_arith)
        requires
            a == 8041,
    ;
    assert(64657681int * 0x10000000000000000000000000int == 81963348129015383836794758404878893056int) by (nonlinear_arith);
    assert(a * a * 0x10000000000000000000000000int == 81963348129015383836794758404878893056int);
    assert(81963348129015383836794758404878893056int / 115799121int == 707806306483236464608351892454int);
    assert(pow(933217int, 5) <= 707806306483236464608351892454int < pow(933217int + 1, 5)) by {
        reveal_with_fuel(pow, 6);
    }
    crate::roots::lemma_iroot_unique(707806306483236464608351892454int, 5, 933217int);
    assert(64657681int * 933217int == 60339647089777int) by (nonlinear_arith);
    assert(a * a * 933217int == 60339647089777int);
    assert(60339647089777int / 115799121int == 521071int);
    assert(srgb_to_linear_spec(187) == 521071);
    assert(521071int * 521071int == 271514987041int) by (nonlinear_arith);
    assert(271514987041int * 521071int == 141478585812440911int) by (nonlinear_arith);
    assert(141478585812440911int * 521071int == 73720388187874397935681int) by (nonlinear_arith);
    assert(73720388187874397935681int * 521071int == 38413556393443900406743234351int) by (nonlinear_arith);
    assert(38413556393443900406743234351int * 1048576int == 40279533308811831312901193702834176int) by (nonlinear_arith);
    assert(pow(765int, 12) <= 40279533308811831312901193702834176int < pow(765int + 1, 12)) by {
        reveal_with_fuel(pow, 13);
    }
    crate::roots::lemma_iroot_unique(40279533308811831312901193702834176int, 12, 765int);
    assert(538050int * 765int == 411608250int) by (nonlinear_arith);
    assert((411608250int - 27699200int) / 2048000int == 187int);
    assert(linear_to_srgb_spec(521071) == 187);
}
/// Round trip at byte value 188.
#[verifier::spinoff_prover]
proof fn case_188()
    ensures
        linear_to_srgb_spec(srgb_to_linear_spec(188)) == 188,
{
    let a = 40 * 188 + 561int;
    assert(a * a == 65302561int) by (nonlinear_arith)
        requires
            a == 8081,
    ;
    assert(65302561int * 0x10000000000000000000000000int == 82780830648090564413231952367961767936int) by (nonlinear_arith);
    assert(a * a * 0x10000000000000000000000000int == 82780830648090564413231952367961767936int);
    assert(82780830648090564413231952367961767936int / 115799121int == 714865794603834379824281674538int);
    assert(pow(935071int, 5) <= 714865794603834379824281674538int < pow(935071int + 1, 5)) by {
        reveal_with_fuel(pow, 6);
    }
    crate::roots::lemma_iroot_unique(714865794603834379824281674538int, 5, 935071int);
    assert(65302561int * 935071int == 61062531016831int) by (nonlinear_arith);
    assert(a * a * 935071int == 61062531016831int);
    assert(61062531016831int / 115799121int == 527314int);
    assert(srgb_to_linear_spec(188) == 527314);
    assert(527314int * 527314int == 278060054596int) by (nonlinear_arith);
    assert(278060054596int * 527314int == 146624959629235144int) by (nonlinear_arith);
    assert(146624959629235144int * 527314int == 77317393961930500723216int) by (nonlinear_arith);
    assert(77317393961930500723216int * 527314int == 40770544279641420058361921824int) by (nonlinear_arith);
    assert(40770544279641420058361921824int * 1048576int == 42751014238569281679116910538522624int) by (nonlinear_arith);
    assert(pow(768int, 12) <= 42751014238569281679116910538522624int < pow(768int + 1, 12)) by {
        reveal_with_fuel(pow, 13);
    }
    crate::roots::lemma_iroot_unique(42751014238569281679116910538522624int, 12, 768int);
    assert(538050int * 768int == 413222400int) by (nonlinear_arith);
    assert((413222400int - 27699200int) / 2048000int == 188int);
    assert(linear_to_srgb_spec(527314) == 188);
}
/// Round trip at byte value 189.
#[verifier::spinoff_prover]
proof fn case_189()
    ensures
        linear_to_srgb_spec(srgb_to_linear_spec(189)) == 189,
{
    let a = 40 * 189 + 561int;
    assert(a * a == 65950641int) by (nonlinear_arith)
        requires
            a == 8121,
    ;
    assert(65950641int * 0x10000000000000000000000000int == 83602369649086475323753935781301846016int) by (nonlinear_arith);
    assert(a * a * 0x10000000000000000000000000int == 83602369649086475323753935781301846016int);
    assert(83602369649086475323753935781301846016int / 115799121int == 721960313058736217209748386443int);
    assert(pow(936920int, 5) <= 721960313058736217209748386443int < pow(936920int + 1, 5)) by {
        reveal_with_fuel(pow, 6);
    }
    crate::roots::lemma_iroot_unique(721960313058736217209748386443int, 5, 936920int);
    assert(65950641int * 936920int == 61790474565720int) by (nonlinear_arith);
    assert(a * a * 936920int == 61790474565720int);
    assert(61790474565720int / 115799121int == 533600int);
    assert(srgb_to_linear_spec(189) == 533600);
    assert(533600int * 533600int == 284728960000int) by (nonlinear_arith);
    assert(284728960000int * 533600int == 151931373056000000int) by (nonlinear_arith);
    assert(151931373056000000int * 533600int == 81070580662681600000000int) by (nonlinear_arith);
    assert(81070580662681600000000int * 533600int == 43259261841606901760000000000int) by (nonlinear_arith);
    assert(43259261841606901760000000000int * 1048576int == 45360623744824798619893760000000000int) by (nonlinear_arith);
    assert(pow(772int, 12) <= 45360623744824798619893760000000000int < pow(772int + 1, 12)) by {
        reveal_with_fuel(pow, 13);
    }
    crate::roots::lemma_iroot_unique(45360623744824798619893760000000000int, 12, 772int);
    assert(538050int * 772int == 415374600int) by (nonlinear_arith);
    assert((415374600int - 27699200int) / 2048000int == 189int);
    assert(linear_to_srgb_spec(533600) == 189);
}
/// Round trip at byte value 190.
#[verifier::spinoff_prover]
proof fn case_190()
    ensures
        linear_to_srgb_spec(srgb_to_linear_spec(190)) == 190,
{
    let a = 40 * 190 + 561int;
    assert(a * a == 66601921int) by (nonlinear_arith)
        requires
            a == 8161,
    ;
    assert(66601921int * 0x10000000000000000000000000int == 84427965132003116568360708644899127296int) by (nonlinear_arith);
    assert(a * a * 0x10000000000000000000000000int == 84427965132003116568360708644899127296int);
    assert(84427965132003116568360708644899127296int / 115799121int == 729089861847941976764752028168int);
    assert(pow(938763int, 5) <= 729089861847941976764752028168int < pow(938763int + 1, 5)) by {
        reveal_with_fuel(pow, 6);
    }
    crate::roots::lemma_iroot_unique(729089861847941976764752028168int, 5, 938763int);
    assert(66601921int * 938763int == 62523419163723int) by (nonlinear_arith);
    assert(a * a * 938763int == 62523419163723int);
    assert(62523419163723int / 115799121int == 539929int);
    assert(srgb_to_linear_spec(190) == 539929);
    assert(539929int * 539929int == 291523325041int) by (nonlinear_arith);
    assert(291523325041int * 539929int == 157401897366062089int) by (nonlinear_arith);
    assert(157401897366062089int * 539929int == 84985849042960537651681int) by (nonlinear_arith);
    assert(84985849042960537651681int * 539929int == 45886324487916640133734470649int) by (nonlinear_arith);
    assert(45886324487916640133734470649int * 1048576int == 48115298586241678844870756295245824int) by (nonlinear_arith);
    assert(pow(776int, 12) <= 48115298586241678844870756295245824int < pow(776int + 1, 12)) by {
        reveal_with_fuel(pow, 13);
    }
    crate::roots::lemma_iroot_unique(48115298586241678844870756295245824int, 12, 776int);
    assert(538050int * 776int == 417526800int) by (nonlinear_arith);
    assert((417526800int - 27699200int) / 2048000int == 190int);
    assert(linear_to_srgb_spec(539929) == 190);
}
/// Round trip at byte value 191.
#[verifier::spinoff_prover]
proof fn case_191()
    ensures
        linear_to_srgb_spec(srgb_to_linear_spec(191)) == 191,
{
    let a = 40 * 191 + 561int;
    assert(a * a == 67256401int) by (nonlinear_arith)
        requires
            a == 8201,
    ;
    assert(67256401int * 0x10000000000000000000000000int == 85257617096840488147052270958753611776int) by (nonlinear_arith);
    assert(a * a * 0x10000000000000000000000000int == 85257617096840488147052270958753611776int);
    assert(85257617096840488147052270958753611776int / 115799121int == 736254440971451658489292599714int);
    assert(pow(940601int, 5) <= 736254440971451658489292599714int < pow(940601int + 1, 5)) by {
        reveal_with_fuel(pow, 6);
    }
    crate::roots::lemma_iroot_unique(736254440971451658489292599714int, 5, 940601int);
    assert(67256401int * 940601int == 63261438037001int) by (nonlinear_arith);
    assert(a * a * 940601int == 63261438037001int);
    assert(63261438037001int / 115799121int == 546303int);
    assert(srgb_to_linear_spec(191) == 546303);
    assert(546303int * 546303int == 298446967809int) by (nonlinear_arith);
    assert(298446967809int * 546303int == 163042473854960127int) by (nonlinear_arith);
    assert(163042473854960127int * 546303int == 89070592594386282260481int) by (nonlinear_arith);
    assert(89070592594386282260481int * 546303int == 48659531946091009157747551743int) by (nonlinear_arith);
    assert(48659531946091009157747551743int * 1048576int == 51023217369904326018594296816467968int) by (nonlinear_arith);
    assert(pow(780int, 12) <= 51023217369904326018594296816467968int < pow(780int + 1, 12)) by {
        reveal_with_fuel(pow, 13);
    }
    crate::roots::lemma_iroot_unique(51023217369904326018594296816467968int, 12, 780int);
    assert(538050int * 780int == 419679000int) by (nonlinear_arith);
    assert((419679000int - 27699200int) / 2048000int == 191int);
    assert(linear_to_srgb_spec(546303) == 191);
}
/// Round trip at byte value 192.
#[verifier::spinoff_prover]
proof fn case_192()
    ensures
        linear_to_srgb_spec(srgb_to_linear_spec(192)) == 192,
{
    let a = 40 * 192 + 561int;
    assert(a * a == 67914081int) by (nonlinear_arith)
        requires
            a == 8241,
    ;
    assert(67914081int * 0x10000000000000000000000000int == 86091325543598590059828622722865299456int) by (nonlinear_arith);
    assert(a * a * 0x10000000000000000000000000int == 86091325543598590059828622722865299456int);
    assert(86091325543598590059828622722865299456int / 115799121int == 743454050429265262383370101081int);
    assert(pow(942433int, 5) <= 743454050429265262383370101081int < pow(942433int + 1, 5)) by {
        reveal_with_fuel(pow, 6);
    }
    crate::roots::lemma_iroot_unique(743454050429265262383370101081int, 5, 942433int);
    assert(67914081int * 942433int == 64004471099073int) by (nonlinear_arith);
    assert(a * a * 942433int == 64004471099073int);
    assert(64004471099073int / 115799121int == 552719int);
    assert(srgb_to_linear_spec(192) == 552719);
    assert(552719int * 552719int == 305498292961int) by (nonlinear_arith);
    assert(305498292961int * 552719int == 168854710987110959int) by (nonlinear_arith);
    assert(168854710987110959int * 552719int == 93329207002084982147521int) by (nonlinear_arith);
    assert(93329207002084982147521int * 552719int == 51584825964985409247595659599int) by (nonlinear_arith);
    assert(51584825964985409247595659599int * 1048576int == 54090610471060540487206866359681024int) by (nonlinear_arith);
    assert(pow(784int, 12) <= 54090610471060540487206866359681024int < pow(784int + 1, 12)) by {
        reveal_with_fuel(pow, 13);
    }
    crate::roots::lemma_iroot_unique(54090610471060540487206866359681024int, 12, 784int);
    assert(538050int * 784int == 421831200int) by (nonlinear_arith);
    assert((421831200int - 27699200int) / 2048000int == 192int);
    assert(linear_to_srgb_spec(552719) == 192);
}
/// Round trip at byte value 193.
#[verifier::spinoff_prover]
proof fn case_193()
    ensures
        linear_to_srgb_spec(srgb_to_linear_spec(193)) == 193,
{
    let a = 40 * 193 + 561int;
    assert(a * a == 68574961int) by (nonlinear_arith)
        requires
            a == 8281,
    ;
    assert(68574961int * 0x10000000000000000000000000int == 86929090472277422306689763937234190336int) by (nonlinear_arith);
    assert(a * a * 0x10000000000000000000000000int == 86929090472277422306689763937234190336int);
    assert(86929090472277422306689763937234190336int / 115799121int == 750688690221382788446984532268int);
    assert(pow(944260int, 5) <= 750688690221382788446984532268int < pow(944260int + 1, 5)) by {
        reveal_with_fuel(pow, 6);
    }
    crate::roots::lemma_iroot_unique(750688690221382788446984532268int, 5, 944260int);
    assert(68574961int * 944260int == 64752592673860int) by (nonlinear_arith);
    assert(a * a * 944260int == 64752592673860int);
    assert(64752592673860int / 115799121int == 559180int);
    assert(srgb_to_linear_spec(193) == 559180);
    assert(559180int * 559180int == 312682272400int) by (nonlinear_arith);
    assert(312682272400int * 559180int == 174845673080632000int) by (nonlinear_arith);
    assert(174845673080632000int * 559180int == 97770203473227801760000int) by (nonlinear_arith);
    assert(97770203473227801760000int * 559180int == 54671142378159522188156800000int) by (nonlinear_arith);
    assert(54671142378159522188156800000int * 1048576int == 57326847790320999137968704716800000int) by (nonlinear_arith);
    assert(pow(788int, 12) <= 57326847790320999137968704716800000int < pow(788int + 1, 12)) by {
        reveal_with_fuel(pow, 13);
    }
    crate::roots::lemma_iroot_unique(57326847790320999137968704716800000int, 12, 788int);
    assert(538050int * 788int == 423983400int) by (nonlinear_arith);
    assert((423983400int - 27699200int) / 2048000int == 193int);
    assert(linear_to_srgb_spec(559180) == 193);
}
/// Round trip at byte value 194.
#[verifier::spinoff_prover]
proof fn case_194()
    ensures
        linear_to_srgb_spec(srgb_to_linear_spec(194)) == 194,
{
    let a = 40 * 194 + 561int;
    assert(a * a == 69239041int) by (nonlinear_arith)
        requires
            a == 8321,
    ;
    assert(69239041int * 0x10000000000000000000000000int == 87770911882876984887635694601860284416int) by (nonlinear_arith);
    assert(a * a * 0x10000000000000000000000000int == 87770911882876984887635694601860284416int);
    assert(87770911882876984887635694601860284416int / 115799121int == 757958360347804236680135893275int);
    assert(pow(946082int, 5) <= 757958360347804236680135893275int < pow(946082int + 1, 5)) by {
        reveal_with_fuel(pow, 6);
    }
    crate::roots::lemma_iroot_unique(757958360347804236680135893275int, 5, 946082int);
    assert(69239041int * 946082int == 65505810387362int) by (nonlinear_arith);
    assert(a * a * 946082int == 65505810387362int);
    assert(65505810387362int / 115799121int == 565684int);
    assert(srgb_to_linear_spec(194) == 565684);
    assert(565684int * 565684int == 319998387856int) by (nonlinear_arith);
    assert(319998387856int * 565684int == 181017968035933504int) by (nonlinear_arith);
    assert(181017968035933504int * 565684int == 102398968230439008276736int) by (nonlinear_arith);
    assert(102398968230439008276736int * 565684int == 57925457944467659958017127424int) by (nonlinear_arith);
    assert(57925457944467659958017127424int * 1048576int == 60739244989578121008137767405748224int) by (nonlinear_arith);
    assert(pow(791int, 12) <= 60739244989578121008137767405748224int < pow(791int + 1, 12)) by {
        reveal_with_fuel(pow, 13);
    }
    crate::roots::lemma_iroot_unique(60739244989578121008137767405748224int, 12, 791int);
    assert(538050int * 791int == 425597550int) by (nonlinear_arith);
    assert((425597550int - 27699200int) / 2048000int == 194int);
    assert(linear_to_srgb_spec(565684) == 194);
}
/// Round trip at byte value 195.
#[verifier::spinoff_prover]
proof fn case_195()
    ensures
        linear_to_srgb_spec(srgb_to_linear_spec(195)) == 195,
{
    let a = 40 * 195 + 561int;
    assert(a * a == 69906321int) by (nonlinear_arith)
        requires
            a == 8361,
    ;
    assert(69906321int * 0x10000000000000000000000000int == 88616789775397277802666414716743581696int) by (nonlinear_arith);
    assert(a * a * 0x10000000000000000000000000int == 88616789775397277802666414716743581696int);
    assert(88616789775397277802666414716743581696int / 115799121int == 765263060808529607082824184103int);
    assert(pow(947899int, 5) <= 765263060808529607082824184103int < pow(947899int + 1, 5)) by {
        reveal_with_fuel(pow, 6);
    }
    crate::roots::lemma_iroot_unique(765263060808529607082824184103int, 5, 947899int);
    assert(69906321int * 947899int == 66264131769579int) by (nonlinear_arith);
    assert(a * a * 947899int == 66264131769579int);
    assert(66264131769579int / 115799121int == 572233int);
    assert(srgb_to_linear_spec(195) == 572233);
    assert(572233int * 572233int == 327450606289int) by (nonlinear_arith);
    assert(327450606289int * 572233int == 187378042788573337int) by (nonlinear_arith);
    assert(187378042788573337int * 572233int == 107223899559033686351521int) by (nonlinear_arith);
    assert(107223899559033686351521int * 572233int == 61357053716364523441989916393int) by (nonlinear_arith);
    assert(61357053716364523441989916393int * 1048576int == 64337533957690646532708018571706368int) by (nonlinear_arith);
    assert(pow(795int, 12) <= 64337533957690646532708018571706368int < pow(795int + 1, 12)) by {
        reveal_with_fuel(pow, 13);
    }
    crate::roots::lemma_iroot_unique(64337533957690646532708018571706368int, 12, 795int);
    assert(538050int * 795int == 427749750int) by (nonlinear_arith);
    assert((427749750int - 27699200int) / 2048000int == 195int);
    assert(linear_to_srgb_spec(572233) == 195);
}
/// Round trip at byte value 196.
#[verifier::spinoff_prover]
proof fn case_196()
    ensures
        linear_to_srgb_spec(srgb_to_linear_spec(196)) == 196,
{
    let a = 40 * 196 + 561int;
    assert(a * a == 70576801int) by (nonlinear_arith)
        requires
            a == 8401,
    ;
    assert(70576801int * 0x10000000000000000000000000int == 89466724149838301051781924281884082176int) by (nonlinear_arith);
    assert(a * a * 0x10000000000000000000000000int == 89466724149838301051781924281884082176int);
    assert(89466724149838301051781924281884082176int / 115799121int == 772602791603558899655049404752int);
    assert(pow(949710int, 5) <= 772602791603558899655049404752int < pow(949710int + 1, 5)) by {
        reveal_with_fuel(pow, 6);
    }
    crate::roots::lemma_iroot_unique(772602791603558899655049404752int, 5, 949710int);
    assert(70576801int * 949710int == 67027493677710int) by (nonlinear_arith);
    assert(a * a * 949710int == 67027493677710int);
    assert(67027493677710int / 115799121int == 578825int);
    assert(srgb_to_linear_spec(196) == 578825);
    assert(578825int * 578825int == 335038380625int) by (nonlinear_arith);
    assert(335038380625int * 578825int == 193928590665265625int) by (nonlinear_arith);
    assert(193928590665265625int * 578825int == 112250716491822375390625int) by (nonlinear_arith);
    assert(112250716491822375390625int * 578825int == 64973520973379086435478515625int) by (nonlinear_arith);
    assert(64973520973379086435478515625int * 1048576int == 68129674728181948938168320000000000int) by (nonlinear_arith);
    assert(pow(799int, 12) <= 68129674728181948938168320000000000int < pow(799int + 1, 12)) by {
        reveal_with_fuel(pow, 13);
    }
    crate::roots::lemma_iroot_unique(68129674728181948938168320000000000int, 12, 799int);
    assert(538050int * 799int == 429901950int) by (nonlinear_arith);
    assert((429901950int - 27699200int) / 2048000int == 196int);
    assert(linear_to_srgb_spec(578825) == 196);
}
/// Round trip at byte value 197.
#[verifier::spinoff_prover]
proof fn case_197()
    ensures
        linear_to_srgb_spec(srgb_to_linear_spec(197)) == 197,
{
    let a = 40 * 197 + 561int;
    assert(a * a == 71250481int) by (nonlinear_arith)
        requires
            a == 8441,
    ;
    assert(71250481int * 0x10000000000000000000000000int == 90320715006200054634982223297281785856int) by (nonlinear_arith);
    assert(a * a * 0x10000000000000000000000000int == 90320715006200054634982223297281785856int);
    assert(90320715006200054634982223297281785856int / 115799121int == 779977552732892114396811555221int);
    assert(pow(951516int, 5) <= 779977552732892114396811555221int < pow(951516int + 1, 5)) by {
        reveal_with_fuel(pow, 6);
    }
    crate::roots::lemma_iroot_unique(779977552732892114396811555221int, 5, 951516int);
    assert(71250481int * 951516int == 67795972679196int) by (nonlinear_arith);
    assert(a * a * 951516int == 67795972679196int);
    assert(67795972679196int / 115799121int == 585461int);
    assert(srgb_to_linear_spec(197) == 585461);
    assert(585461int * 585461int == 342764582521int) by (nonlinear_arith);
    assert(342764582521int * 585461int == 200675295247327181int) by (nonlinear_arith);
    assert(200675295247327181int * 585461int == 117487559030795418715441int) by (nonlinear_arith);
    assert(117487559030795418715441int * 585461int == 68784383797728516636560803301int) by (nonlinear_arith);
    assert(68784383797728516636560803301int * 1048576int == 72125654025086977060698380882149376int) by (nonlinear_arith);
    assert(pow(803int, 12) <= 72125654025086977060698380882149376int < pow(803int + 1, 12)) by {
        reveal_with_fuel(pow, 13);
    }
    crate::roots::lemma_iroot_unique(72125654025086977060698380882149376int, 12, 803int);
    assert(538050int * 803int == 432054150int) by (nonlinear_arith);
    assert((432054150int - 27699200int) / 2048000int == 197int);
    assert(linear_to_srgb_spec(585461) == 197);
}
/// Round trip at byte value 198.
#[verifier::spinoff_prover]
proof fn case_198()
    ensures
        linear_to_srgb_spec(srgb_to_linear_spec(198)) == 198,
{
    let a = 40 * 198 + 561int;
    assert(a * a == 71927361int) by (nonlinear_arith)
        requires
            a == 8481,
    ;
    assert(71927361int * 0x10000000000000000000000000int == 91178762344482538552267311762936692736int) by (nonlinear_arith);
    assert(a * a * 0x10000000000000000000000000int == 91178762344482538552267311762936692736int);
    assert(91178762344482538552267311762936692736int / 115799121int == 787387344196529251308110635511int);
    assert(pow(953317int, 5) <= 787387344196529251308110635511int < pow(953317int + 1, 5)) by {
        reveal_with_fuel(pow, 6);
    }
    crate::roots::lemma_iroot_unique(787387344196529251308110635511int, 5, 953317int);
    assert(71927361int * 953317int == 68569576006437int) by (nonlinear_arith);
    assert(a * a * 953317int == 68569576006437int);
    assert(68569576006437int / 115799121int == 592142int);
    assert(srgb_to_linear_spec(198) == 592142);
    assert(592142int * 592142int == 350632148164int) by (nonlinear_arith);
    assert(350632148164int * 592142int == 207624021478127288int) by (nonlinear_arith);
    assert(207624021478127288int * 592142int == 122942903326101248570896int) by (nonlinear_arith);
    assert(122942903326101248570896int * 592142int == 72799656661324245531267499232int) by (nonlinear_arith);
    assert(72799656661324245531267499232int * 1048576int == 76335972783304732082194349274693632int) by (nonlinear_arith);
    assert(pow(807int, 12) <= 76335972783304732082194349274693632int < pow(807int + 1, 12)) by {
        reveal_with_fuel(pow, 13);
    }
    crate::roots::lemma_iroot_unique(76335972783304732082194349274693632int, 12, 807int);
    assert(538050int * 807int == 434206350int) by (nonlinear_arith);
    assert((434206350int - 27699200int) / 2048000int == 198int);
    assert(linear_to_srgb_spec(592142) == 198);
}
/// Round trip at byte value 199.
#[verifier::spinoff_prover]
proof fn case_199()
    ensures
        linear_to_srgb_spec(srgb_to_linear_spec(199)) == 199,
{
    let a = 40 * 199 + 561int;
    assert(a * a == 72607441int) by (nonlinear_arith)
        requires
            a == 8521,
    ;
    assert(72607441int * 0x10000000000000000000000000int == 92040866164685752803637189678848802816int) by (nonlinear_arith);
    assert(a * a * 0x10000000000000000000000000int == 92040866164685752803637189678848802816int);
    assert(92040866164685752803637189678848802816int / 115799121int == 794832165994470310388946645621int);
    assert(pow(955113int, 5) <= 794832165994470310388946645621int < pow(955113int + 1, 5)) by {
        reveal_with_fuel(pow, 6);
    }
    crate::roots::lemma_iroot_unique(794832165994470310388946645621int, 5, 955113int);
    assert(72607441int * 955113int == 69348310795833int) by (nonlinear_arith);
    assert(a * a * 955113int == 69348310795833int);
    assert(69348310795833int / 115799121int == 598867int);
    assert(srgb_to_linear_spec(199) == 598867);
    assert(598867int * 598867int == 358641683689int) by (nonlinear_arith);
    assert(358641683689int * 598867int == 214778669185780363int) by (nonlinear_arith);
    assert(214778669185780363int * 598867int == 128623857279280728648721int) by (nonlinear_arith);
    assert(128623857279280728648721int * 598867int == 77028583537271012123673599107int) by (nonlinear_arith);
    assert(77028583537271012123673599107int * 1048576int == 80770324011177488808593167857221632int) by (nonlinear_arith);
    assert(pow(810int, 12) <= 80770324011177488808593167857221632int < pow(810int + 1, 12)) by {
        reveal_with_fuel(pow, 13);
    }
    crate::roots::lemma_iroot_unique(80770324011177488808593167857221632int, 12, 810int);
    assert(538050int * 810int == 435820500int) by (nonlinear_arith);
    assert((435820500int - 27699200int) / 2048000int == 199int);
    assert(linear_to_srgb_spec(598867) == 199);
}
/// Round trip at byte value 200.
#[verifier::spinoff_prover]
proof fn case_200()
    ensures
        linear_to_srgb_spec(srgb_to_linear_spec(200)) == 200,
{
    let a = 40 * 200 + 561int;
    assert(a * a == 73290721int) by (nonlinear_arith)
        requires
            a == 8561,
    ;
    assert(73290721int * 0x10000000000000000000000000int == 92907026466809697389091857045018116096int) by (nonlinear_arith);
    assert(a * a * 0x10000000000000000000000000int == 92907026466809697389091857045018116096int);
    assert(92907026466809697389091857045018116096int / 115799121int == 802312018126715291639319585552int);
    assert(pow(956904int, 5) <= 802312018126715291639319585552int < pow(956904int + 1, 5)) by {
        reveal_with_fuel(pow, 6);
    }
    crate::roots::lemma_iroot_unique(802312018126715291639319585552int, 5, 956904int);
    assert(73290721int * 956904int == 70132184087784int) by (nonlinear_arith);
    assert(a * a * 956904int == 70132184087784int);
    assert(70132184087784int / 115799121int == 605636int);
    assert(srgb_to_linear_spec(200) == 605636);
    assert(605636int * 605636int == 366794964496int) by (nonlinear_arith);
    assert(366794964496int * 605636int == 222144235117499456int) by (nonlinear_arith);
    assert(222144235117499456int * 605636int == 134538545979621900534016int) by (nonlinear_arith);
    assert(134538545979621900534016int * 605636int == 81481386832914289351819314176int) by (nonlinear_arith);
    assert(81481386832914289351819314176int * 1048576int == 85439426679709933871373289181413376int) by (nonlinear_arith);
    assert(pow(814int, 12) <= 85439426679709933871373289181413376int < pow(814int + 1, 12)) by {
        reveal_with_fuel(pow, 13);
    }
    crate::roots::lemma_iroot_unique(85439426679709933871373289181413376int, 12, 814int);
    assert(538050int * 814int == 437972700int) by (nonlinear_arith);
    assert((437972700int - 27699200int) / 2048000int == 200int);
    assert(linear_to_srgb_spec(605636) == 200);
}
/// Round trip at byte value 201.
#[verifier::spinoff_prover]
proof fn case_201()
    ensures
        linear_to_srgb_spec(srgb_to_linear_spec(201)) == 201,
{
    let a = 40 * 201 + 561int;
    assert(a * a == 73977201int) by (nonlinear_arith)
        requires
            a == 8601,
    ;
    assert(73977201int * 0x10000000000000000000000000int == 93777243250854372308631313861444632576int) by (nonlinear_arith);
    assert(a * a * 0x10000000000000000000000000int == 93777243250854372308631313861444632576int);
    assert(93777243250854372308631313861444632576int / 115799121int == 809826900593264195059229455303int);
    assert(pow(958690int, 5) <= 809826900593264195059229455303int < pow(958690int + 1, 5)) by {
        reveal_with_fuel(pow, 6);
    }
    crate::roots::lemma_iroot_unique(809826900593264195059229455303int, 5, 958690int);
    assert(73977201int * 958690int == 70921202826690int) by (nonlinear_arith);
    assert(a * a * 958690int == 70921202826690int);
    assert(70921202826690int / 115799121int == 612450int);
    assert(srgb_to_linear_spec(201) == 612450);
    assert(612450int * 612450int == 375095002500int) by (nonlinear_arith);
    assert(375095002500int * 612450int == 229726934281125000int) by (nonlinear_arith);
    assert(229726934281125000int * 612450int == 140696260900475006250000int) by (nonlinear_arith);
    assert(140696260900475006250000int * 612450int == 86169424988495917577812500000int) by (nonlinear_arith);
    assert(86169424988495917577812500000int * 1048576int == 90355190976737095270072320000000000int) by (nonlinear_arith);
    assert(pow(818int, 12) <= 90355190976737095270072320000000000int < pow(818int + 1, 12)) by {
        reveal_with_fuel(pow, 13);
    }
    crate::roots::lemma_iroot_unique(90355190976737095270072320000000000int, 12, 818int);
    assert(538050int * 818int == 440124900int) by (nonlinear_arith);
    assert((440124900int - 27699200int) / 2048000int == 201int);
    assert(linear_to_srgb_spec(612450) == 201);
}
/// Round trip at byte value 202.
#[verifier::spinoff_prover]
proof fn case_202()
    ensures
        linear_to_srgb_spec(srgb_to_linear_spec(202)) == 202,
{
    let a = 40 * 202 + 561int;
    assert(a * a == 74666881int) by (nonlinear_arith)
        requires
            a == 8641,
    ;
    assert(74666881int * 0x10000000000000000000000000int == 94651516516819777562255560128128352256int) by (nonlinear_arith);
    assert(a * a * 0x10000000000000000000000000int == 94651516516819777562255560128128352256int);
    assert(94651516516819777562255560128128352256int / 115799121int == 817376813394117020648676254875int);
    assert(pow(960471int, 5) <= 817376813394117020648676254875int < pow(960471int + 1, 5)) by {
        reveal_with_fuel(pow, 6);
    }
    crate::roots::lemma_iroot_unique(817376813394117020648676254875int, 5, 960471int);
    assert(74666881int * 960471int == 71715373860951int) by (nonlinear_arith);
    assert(a * a * 960471int == 71715373860951int);
    assert(71715373860951int / 115799121int == 619308int);
    assert(srgb_to_linear_spec(202) == 619308);
    assert(619308int * 619308int == 383542398864int) by (nonlinear_arith);
    assert(383542398864int * 619308int == 237530875955666112int) by (nonlinear_arith);
    assert(237530875955666112int * 619308int == 147104771726351668490496int) by (nonlinear_arith);
    assert(147104771726351668490496int * 619308int == 91103161968303399109512096768int) by (nonlinear_arith);
    assert(91103161968303399109512096768int * 1048576int == 95528589164075705024655756380602368int) by (nonlinear_arith);
    assert(pow(822int, 12) <= 95528589164075705024655756380602368int < pow(822int + 1, 12)) by {
        reveal_with_fuel(pow, 13);
    }
    crate::roots::lemma_iroot_unique(95528589164075705024655756380602368int, 12, 822int);
    assert(538050int * 822int == 442277100int) by (nonlinear_arith);
    assert((442277100int - 27699200int) / 2048000int == 202int);
    assert(linear_to_srgb_spec(619308) == 202);
}
/// Round trip at byte value 203.
#[verifier::spinoff_prover]
proof fn case_203()
    ensures
        linear_to_srgb_spec(srgb_to_linear_spec(203)) == 203,
{
    let a = 40 * 203 + 561int;
    assert(a * a == 75359761int) by (nonlinear_arith)
        requires
            a == 8681,
    ;
    assert(75359761int * 0x10000000000000000000000000int == 95529846264705913149964595845069275136int) by (nonlinear_arith);
    assert(a * a * 0x10000000000000000000000000int == 95529846264705913149964595845069275136int);
    assert(95529846264705913149964595845069275136int / 115799121int == 824961756529273768407659984267int);
    assert(pow(962247int, 5) <= 824961756529273768407659984267int < pow(962247int + 1, 5)) by {
        reveal_with_fuel(pow, 6);
    }
    crate::roots::lemma_iroot_unique(824961756529273768407659984267int, 5, 962247int);
    assert(75359761int * 962247int == 72514703942967int) by (nonlinear_arith);
    assert(a * a * 962247int == 72514703942967int);
    assert(72514703942967int / 115799121int == 626211int);
    assert(srgb_to_linear_spec(203) == 626211);
    assert(626211int * 626211int == 392140216521int) by (nonlinear_arith);
    assert(392140216521int * 626211int == 245562517127831931int) by (nonlinear_arith);
    assert(245562517127831931int * 626211int == 153773949413136761343441int) by (nonlinear_arith);
    assert(153773949413136761343441int * 626211int == 96294938635949784457637532051int) by (nonlinear_arith);
    assert(96294938635949784457637532051int * 1048576int == 100972561575129681187451732807909376int) by (nonlinear_arith);
    assert(pow(826int, 12) <= 100972561575129681187451732807909376int < pow(826int + 1, 12)) by {
        reveal_with_fuel(pow, 13);
    }
    crate::roots::lemma_iroot_unique(100972561575129681187451732807909376int, 12, 826int);
    assert(538050int * 826int == 444429300int) by (nonlinear_arith);
    assert((444429300int - 27699200int) / 2048000int == 203int);
    assert(linear_to_srgb_spec(626211) == 203);
}
/// Round trip at byte value 204.
#[verifier::spinoff_prover]
proof fn case_204()
    ensures
        linear_to_srgb_spec(srgb_to_linear_spec(204)) == 204,
{
    let a = 40 * 204 + 561int;
    assert(a * a == 76055841int) by (nonlinear_arith)
        requires
            a == 8721,
    ;
    assert(76055841int * 0x10000000000000000000000000int == 96412232494512779071758421012267401216int) by (nonlinear_arith);
    assert(a * a * 0x10000000000000000000000000int == 96412232494512779071758421012267401216int);
    assert(96412232494512779071758421012267401216int / 115799121int == 832581729998734438336180643480int);
    assert(pow(964018int, 5) <= 832581729998734438336180643480int < pow(964018int + 1, 5)) by {
        reveal_with_fuel(pow, 6);
    }
    crate::roots::lemma_iroot_unique(832581729998734438336180643480int, 5, 964018int);
    assert(76055841int * 964018int == 73319199729138int) by (nonlinear_arith);
    assert(a * a * 964018int == 73319199729138int);
    assert(73319199729138int / 115799121int == 633158int);
    assert(srgb_to_linear_spec(204) == 633158);
    assert(633158int * 633158int == 400889052964int) by (nonlinear_arith);
    assert(400889052964int * 633158int == 253826110996580312int) by (nonlinear_arith);
    assert(253826110996580312int * 633158int == 160712032786372797185296int) by (nonlinear_arith);
    assert(160712032786372797185296int * 633158int == 101756109254954227520247644768int) by (nonlinear_arith);
    assert(101756109254954227520247644768int * 1048576int == 106699014018122884076271194360250368int) by (nonlinear_arith);
    assert(pow(829int, 12) <= 106699014018122884076271194360250368int < pow(829int + 1, 12)) by {
        reveal_with_fuel(pow, 13);
    }
    crate::roots::lemma_iroot_unique(106699014018122884076271194360250368int, 12, 829int);
    assert(538050int * 829int == 446043450int) by (nonlinear_arith);
    assert((446043450int - 27699200int) / 2048000int == 204int);
    assert(linear_to_srgb_spec(633158) == 204);
}
/// Round trip at byte value 205.
#[verifier::spinoff_prover]
proof fn case_205()
    ensures
        linear_to_srgb_spec(srgb_to_linear_spec(205)) == 205,
{
    let a = 40 * 205 + 561int;
    assert(a * a == 76755121int) by (nonlinear_arith)
        requires
            a == 8761,
    ;
    assert(76755121int * 0x10000000000000000000000000int == 97298675206240375327637035629722730496int) by (nonlinear_arith);
    assert(a * a * 0x10000000000000000000000000int == 97298675206240375327637035629722730496int);
    assert(97298675206240375327637035629722730496int / 115799121int == 840236733802499030434238232514int);
    assert(pow(965784int, 5) <= 840236733802499030434238232514int < pow(965784int + 1, 5)) by {
        reveal_with_fuel(pow, 6);
    }
    crate::roots::lemma_iroot_unique(840236733802499030434238232514int, 5, 965784int);
    assert(76755121int * 965784int == 74128867779864int) by (nonlinear_arith);
    assert(a * a * 965784int == 74128867779864int);
    assert(74128867779864int / 115799121int == 640150int);
    assert(srgb_to_linear_spec(205) == 640150);
    assert(640150int * 640150int == 409792022500int) by (nonlinear_arith);
    assert(409792022500int * 640150int == 262328363203375000int) by (nonlinear_arith);
    assert(262328363203375000int * 640150int == 167929501704640506250000int) by (nonlinear_arith);
    assert(167929501704640506250000int * 640150int == 107500070516225620075937500000int) by (nonlinear_arith);
    assert(107500070516225620075937500000int * 1048576int == 112721993941621795796746240000000000int) by (nonlinear_arith);
    assert(pow(833int, 12) <= 112721993941621795796746240000000000int < pow(833int + 1, 12)) by {
        reveal_with_fuel(pow, 13);
    }
    crate::roots::lemma_iroot_unique(112721993941621795796746240000000000int, 12, 833int);
    assert(538050int * 833int == 448195650int) by (nonlinear_arith);
    assert((448195650int - 27699200int) / 2048000int == 205int);
    assert(linear_to_srgb_spec(640150) == 205);
}
/// Round trip at byte value 206.
#[verifier::spinoff_prover]
proof fn case_206()
    ensures
        linear_to_srgb_spec(srgb_to_linear_spec(206)) == 206,
{
    let a = 40 * 206 + 561int;
    assert(a * a == 77457601int) by (nonlinear_arith)
        requires
            a == 8801,
    ;
    assert(77457601int * 0x10000000000000000000000000int == 98189174399888701917600439697435262976int) by (nonlinear_arith);
    assert(a * a * 0x10000000000000000000000000int == 98189174399888701917600439697435262976int);
    assert(98189174399888701917600439697435262976int / 115799121int == 847926767940567544701832751368int);
    assert(pow(967546int, 5) <= 847926767940567544701832751368int < pow(967546int + 1, 5)) by {
        reveal_with_fuel(pow, 6);
    }
    crate::roots::lemma_iroot_unique(847926767940567544701832751368int, 5, 967546int);
    assert(77457601int * 967546int == 74943792017146int) by (nonlinear_arith);
    assert(a * a * 967546int == 74943792017146int);
    assert(74943792017146int / 115799121int == 647187int);
    assert(srgb_to_linear_spec(206) == 647187);
    assert(647187int * 647187int == 418851012969int) by (nonlinear_arith);
    assert(418851012969int * 647187int == 271074930530368203int) by (nonlinear_arith);
    assert(271074930530368203int * 647187int == 175436171065157406194961int) by (nonlinear_arith);
    assert(175436171065157406194961int * 647187int == 113540009243146026243098224707int) by (nonlinear_arith);
    assert(113540009243146026243098224707int * 1048576int == 119055328732141087613882964070367232int) by (nonlinear_arith);
    assert(pow(837int, 12) <= 119055328732141087613882964070367232int < pow(837int + 1, 12)) by {
        reveal_with_fuel(pow, 13);
    }
    crate::roots::lemma_iroot_unique(119055328732141087613882964070367232int, 12, 837int);
    assert(538050int * 837int == 450347850int) by (nonlinear_arith);
    assert((450347850int - 27699200int) / 2048000int == 206int);
    assert(linear_to_srgb_spec(647187) == 206);
}
/// Round trip at byte value 207.
#[verifier::spinoff_prover]
proof fn case_207()
    ensures
        linear_to_srgb_spec(srgb_to_linear_spec(207)) == 207,
{
    let a = 40 * 207 + 561int;
    assert(a * a == 78163281int) by (nonlinear_arith)
        requires
            a == 8841,
    ;
    assert(78163281int * 0x10000000000000000000000000int == 99083730075457758841648633215404998656int) by (nonlinear_arith);
    assert(a * a * 0x10000000000000000000000000int == 99083730075457758841648633215404998656int);
    assert(99083730075457758841648633215404998656int / 115799121int == 855651832412939981138964200042int);
    assert(pow(969302int, 5) <= 855651832412939981138964200042int < pow(969302int + 1, 5)) by {
        reveal_with_fuel(pow, 6);
    }
    crate::roots::lemma_iroot_unique(855651832412939981138964200042int, 5, 969302int);
    assert(78163281int * 969302int == 75763824599862int) by (nonlinear_arith);
    assert(a * a * 969302int == 75763824599862int);
    assert(75763824599862int / 115799121int == 654269int);
    assert(srgb_to_linear_spec(207) == 654269);
    assert(654269int * 654269int == 428067924361int) by (nonlinear_arith);
    assert(428067924361int * 654269int == 280071572803747109int) by (nonlinear_arith);
    assert(280071572803747109int * 654269int == 183242147866734817258321int) by (nonlinear_arith);
    assert(183242147866734817258321int * 654269int == 119889656842620722152784422349int) by (nonlinear_arith);
    assert(119889656842620722152784422349int * 1048576int == 125713416813407866352078078449025024int) by (nonlinear_arith);
    assert(pow(841int, 12) <= 125713416813407866352078078449025024int < pow(841int + 1, 12)) by {
        reveal_with_fuel(pow, 13);
    }
    crate::roots::lemma_iroot_unique(125713416813407866352078078449025024int, 12, 841int);
    assert(538050int * 841int == 452500050int) by (nonlinear_arith);
    assert((452500050int - 27699200int) / 2048000int == 207int);
    assert(linear_to_srgb_spec(654269) == 207);
}
/// Round trip at byte value 208.
#[verifier::spinoff_prover]
proof fn case_208()
    ensures
        linear_to_srgb_spec(srgb_to_linear_spec(208)) == 208,
{
    let a = 40 * 208 + 561int;
    assert(a * a == 78872161int) by (nonlinear_arith)
        requires
            a == 8881,
    ;
    assert(78872161int * 0x10000000000000000000000000int == 99982342232947546099781616183631937536int) by (nonlinear_arith);
    assert(a * a * 0x10000000000000000000000000int == 99982342232947546099781616183631937536int);
    assert(99982342232947546099781616183631937536int / 115799121int == 863411927219616339745632578537int);
    assert(pow(971054int, 5) <= 863411927219616339745632578537int < pow(971054int + 1, 5)) by {
        reveal_with_fuel(pow, 6);
    }
    crate::roots::lemma_iroot_unique(863411927219616339745632578537int, 5, 971054int);
    assert(78872161int * 971054int == 76589127427694int) by (nonlinear_arith);
    assert(a * a * 971054int == 76589127427694int);
    assert(76589127427694int / 115799121int == 661396int);
    assert(srgb_to_linear_spec(208) == 661396);
    assert(661396int * 661396int == 437444668816int) by (nonlinear_arith);
    assert(437444668816int * 661396int == 289324154176227136int) by (nonlinear_arith);
    assert(289324154176227136int * 661396int == 191357838275539922841856int) by (nonlinear_arith);
    assert(191357838275539922841856int * 661396int == 126563308804089002807912190976int) by (nonlinear_arith);
    assert(126563308804089002807912190976int * 1048576int == 132711248092556430208309333564850176int) by (nonlinear_arith);
    assert(pow(845int, 12) <= 132711248092556430208309333564850176int < pow(845int + 1, 12)) by {
        reveal_with_fuel(pow, 13);
    }
    crate::roots::lemma_iroot_unique(132711248092556430208309333564850176int, 12, 845int);
    assert(538050int * 845int == 454652250int) by (nonlinear_arith);
    assert((454652250int - 27699200int) / 2048000int == 208int);
    assert(linear_to_srgb_spec(661396) == 208);
}
/// Round trip at byte value 209.
#[verifier::spinoff_prover]
proof fn case_209()
    ensures
        linear_to_srgb_spec(srgb_to_linear_spec(209)) == 209,
{
    let a = 40 * 209 + 561int;
    assert(a * a == 79584241int) by (nonlinear_arith)
        requires
            a == 8921,
    ;
    assert(79584241int * 0x10000000000000000000000000int == 100885010872358063691999388602116079616int) by (nonlinear_arith);
    assert(a * a * 0x10000000000000000000000000int == 100885010872358063691999388602116079616int);
    assert(100885010872358063691999388602116079616int / 115799121int == 871207052360596620521837886853int);
    assert(pow(972801int, 5) <= 871207052360596620521837886853int < pow(972801int + 1, 5)) by {
        reveal_with_fuel(pow, 6);
    }
    crate::roots::lemma_iroot_unique(871207052360596620521837886853int, 5, 972801int);
    assert(79584241int * 972801int == 77419629229041int) by (nonlinear_arith);
    assert(a * a * 972801int == 77419629229041int);
    assert(77419629229041int / 115799121int == 668568int);
    assert(srgb_to_linear_spec(209) == 668568);
    assert(668568int * 668568int == 446983170624int) by (nonlinear_arith);
    assert(446983170624int * 668568int == 298838644417746432int) by (nonlinear_arith);
    assert(298838644417746432int * 668568int == 199793954821083896549376int) by (nonlinear_arith);
    assert(199793954821083896549376int * 668568int == 133575844786822418548223213568int) by (nonlinear_arith);
    assert(133575844786822418548223213568int * 1048576int == 140064425023187104351621704390279168int) by (nonlinear_arith);
    assert(pow(848int, 12) <= 140064425023187104351621704390279168int < pow(848int + 1, 12)) by {
        reveal_with_fuel(pow, 13);
    }
    crate::roots::lemma_iroot_unique(140064425023187104351621704390279168int, 12, 848int);
    assert(538050int * 848int == 456266400int) by (nonlinear_arith);
    assert((456266400int - 27699200int) / 2048000int == 209int);
    assert(linear_to_srgb_spec(668568) == 209);
}
/// Round trip at byte value 210.
#[verifier::spinoff_prover]
proof fn case_210()
    ensures
        linear_to_srgb_spec(srgb_to_linear_spec(210)) == 210,
{
    let a = 40 * 210 + 561int;
    assert(a * a == 80299521int) by (nonlinear_arith)
        requires
            a == 8961,
    ;
    assert(80299521int * 0x10000000000000000000000000int == 101791735993689311618301950470857424896int) by (nonlinear_arith);
    assert(a * a * 0x10000000000000000000000000int == 101791735993689311618301950470857424896int);
    assert(101791735993689311618301950470857424896int / 115799121int == 879037207835880823467580124989int);
    assert(pow(974543int, 5) <= 879037207835880823467580124989int < pow(974543int + 1, 5)) by {
        reveal_with_fuel(pow, 6);
    }
    crate::roots::lemma_iroot_unique(879037207835880823467580124989int, 5, 974543int);
    assert(80299521int * 974543int == 78255336093903int) by (nonlinear_arith);
    assert(a * a * 974543int == 78255336093903int);
    assert(78255336093903int / 115799121int == 675785int);
    assert(srgb_to_linear_spec(210) == 675785);
    assert(675785int * 675785int == 456685366225int) by (nonlinear_arith);
    assert(456685366225int * 675785int == 308621120214361625int) by (nonlinear_arith);
    assert(308621120214361625int * 675785int == 208561523724062370750625int) by (nonlinear_arith);
    assert(208561523724062370750625int * 675785int == 140942749309865489217711115625int) by (nonlinear_arith);
    assert(140942749309865489217711115625int * 1048576int == 147789184300341515221950650777600000int) by (nonlinear_arith);
    assert(pow(852int, 12) <= 147789184300341515221950650777600000int < pow(852int + 1, 12)) by {
        reveal_with_fuel(pow, 13);
    }
    crate::roots::lemma_iroot_unique(147789184300341515221950650777600000int, 12, 852int);
    assert(538050int * 852int == 458418600int) by (nonlinear_arith);
    assert((458418600int - 27699200int) / 2048000int == 210int);
    assert(linear_to_srgb_spec(675785) == 210);
}
/// Round trip at byte value 211.
#[verifier::spinoff_prover]
proof fn case_211()
    ensures
        linear_to_srgb_spec(srgb_to_linear_spec(211)) == 211,
{
    let a = 40 * 211 + 561int;
    assert(a * a == 81018001int) by (nonlinear_arith)
        requires
            a == 9001,
    ;
    assert(81018001int * 0x10000000000000000000000000int == 102702517596941289878689301789855973376int) by (nonlinear_arith);
    assert(a * a * 0x10000000000000000000000000int == 102702517596941289878689301789855973376int);
    assert(102702517596941289878689301789855973376int / 115799121int == 886902393645468948582859292946int);
    assert(pow(976281int, 5) <= 886902393645468948582859292946int < pow(976281int + 1, 5)) by {
        reveal_with_fuel(pow, 6);
    }
    crate::roots::lemma_iroot_unique(886902393645468948582859292946int, 5, 976281int);
    assert(81018001int * 976281int == 79096335034281int) by (nonlinear_arith);
    assert(a * a * 976281int == 79096335034281int);
    assert(79096335034281int / 115799121int == 683047int);
    assert(srgb_to_linear_spec(211) == 683047);
    assert(683047int * 683047int == 466553204209int) by (nonlinear_arith);
    assert(466553204209int * 683047int == 318677766475344823int) by (nonlinear_arith);
    assert(318677766475344823int * 683047int == 217671892357684855315681int) by (nonlinear_arith);
    assert(217671892357684855315681int * 683047int == 148680133059239567368809960007int) by (nonlinear_arith);
    assert(148680133059239567368809960007int * 1048576int == 155902419202725188593317272624300032int) by (nonlinear_arith);
    assert(pow(856int, 12) <= 155902419202725188593317272624300032int < pow(856int + 1, 12)) by {
        reveal_with_fuel(pow, 13);
    }
    crate::roots::lemma_iroot_unique(155902419202725188593317272624300032int, 12, 856int);
    assert(538050int * 856int == 460570800int) by (nonlinear_arith);
    assert((460570800int - 27699200int) / 2048000int == 211int);
    assert(linear_to_srgb_spec(683047) == 211);
}
/// Round trip at byte value 212.
#[verifier::spinoff_prover]
proof fn case_212()
    ensures
        linear_to_srgb_spec(srgb_to_linear_spec(212)) == 212,
{
    let a = 40 * 212 + 561int;
    assert(a * a == 81739681int) by (nonlinear_arith)
        requires
            a == 9041,
    ;
    assert(81739681int * 0x10000000000000000000000000int == 103617355682113998473161442559111725056int) by (nonlinear_arith);
    assert(a * a * 0x10000000000000000000000000int == 103617355682113998473161442559111725056int);
    assert(103617355682113998473161442559111725056int / 115799121int == 894802609789360995867675390723int);
    assert(pow(978014int, 5) <= 894802609789360995867675390723int < pow(978014int + 1, 5)) by {
        reveal_with_fuel(pow, 6);
    }
    crate::roots::lemma_iroot_unique(894802609789360995867675390723int, 5, 978014int);
    assert(81739681int * 978014int == 79942552373534int) by (nonlinear_arith);
    assert(a * a * 978014int == 79942552373534int);
    assert(79942552373534int / 115799121int == 690355int);
    assert(srgb_to_linear_spec(212) == 690355);
    assert(690355int * 690355int == 476590026025int) by (nonlinear_arith);
    assert(476590026025int * 690355int == 329016307416488875int) by (nonlinear_arith);
    assert(329016307416488875int * 690355int == 227138052906510177300625int) by (nonlinear_arith);
    assert(227138052906510177300625int * 690355int == 156805890514273833450372971875int) by (nonlinear_arith);
    assert(156805890514273833450372971875int * 1048576int == 164422893451895199184058289356800000int) by (nonlinear_arith);
    assert(pow(860int, 12) <= 164422893451895199184058289356800000int < pow(860int + 1, 12)) by {
        reveal_with_fuel(pow, 13);
    }
    crate::roots::lemma_iroot_unique(164422893451895199184058289356800000int, 12, 860int);
    assert(538050int * 860int == 462723000int) by (nonlinear_arith);
    assert((462723000int - 27699200int) / 2048000int == 212int);
    assert(linear_to_srgb_spec(690355) == 212);
}
/// Round trip at byte value 213.
#[verifier::spinoff_prover]
proof fn case_213()
    ensures
        linear_to_srgb_spec(srgb_to_linear_spec(213)) == 213,
{
    let a = 40 * 213 + 561int;
    assert(a * a == 82464561int) by (nonlinear_arith)
        requires
            a == 9081,
    ;
    assert(82464561int * 0x10000000000000000000000000int == 104536250249207437401718372778624679936int) by (nonlinear_arith);
    assert(a * a * 0x10000000000000000000000000int == 104536250249207437401718372778624679936int);
    assert(104536250249207437401718372778624679936int / 115799121int == 902737856267556965322028418321int);
    assert(pow(979743int, 5) <= 902737856267556965322028418321int < pow(979743int + 1, 5)) by {
        reveal_with_fuel(pow, 6);
    }
    crate::roots::lemma_iroot_unique(902737856267556965322028418321int, 5, 979743int);
    assert(82464561int * 979743int == 80794076387823int) by (nonlinear_arith);
    assert(a * a * 979743int == 80794076387823int);
    assert(80794076387823int / 115799121int == 697708int);
    assert(srgb_to_linear_spec(213) == 697708);
    assert(697708int * 697708int == 486796453264int) by (nonlinear_arith);
    assert(486796453264int * 697708int == 339641779813918912int) by (nonlinear_arith);
    assert(339641779813918912int * 697708int == 236970786910409736253696int) by (nonlinear_arith);
    assert(236970786910409736253696int * 697708int == 165336413793688156262093728768int) by (nonlinear_arith);
    assert(165336413793688156262093728768int * 1048576int == 173367795430130352140681193736634368int) by (nonlinear_arith);
    assert(pow(864int, 12) <= 173367795430130352140681193736634368int < pow(864int + 1, 12)) by {
        reveal_with_fuel(pow, 13);
    }
    crate::roots::lemma_iroot_unique(173367795430130352140681193736634368int, 12, 864int);
    assert(538050int * 864int == 464875200int) by (nonlinear_arith);
    assert((464875200int - 27699200int) / 2048000int == 213int);
    assert(linear_to_srgb_spec(697708) == 213);
}
/// Round trip at byte value 214.
#[verifier::spinoff_prover]
proof fn case_214()
    ensures
        linear_to_srgb_spec(srgb_to_linear_spec(214)) == 214,
{
    let a = 40 * 214 + 561int;
    assert(a * a == 83192641int) by (nonlinear_arith)
        requires
            a == 9121,
    ;
    assert(83192641int * 0x10000000000000000000000000int == 105459201298221606664360092448394838016int) by (nonlinear_arith);
    assert(a * a * 0x10000000000000000000000000int == 105459201298221606664360092448394838016int);
    assert(105459201298221606664360092448394838016int / 115799121int == 910708133080056856945918375739int);
    assert(pow(981467int, 5) <= 910708133080056856945918375739int < pow(981467int + 1, 5)) by {
        reveal_with_fuel(pow, 6);
    }
    crate::roots::lemma_iroot_unique(910708133080056856945918375739int, 5, 981467int);
    assert(83192641int * 981467int == 81650831784347int) by (nonlinear_arith);
    assert(a * a * 981467int == 81650831784347int);
    assert(81650831784347int / 115799121int == 705107int);
    assert(srgb_to_linear_spec(214) == 705107);
    assert(705107int * 705107int == 497175881449int) by (nonlinear_arith);
    assert(497175881449int * 705107int == 350562194240860043int) by (nonlinear_arith);
    assert(350562194240860043int * 705107int == 247183857094590102339601int) by (nonlinear_arith);
    assert(247183857094590102339601int * 705107int == 174291067924395143290369042307int) by (nonlinear_arith);
    assert(174291067924395143290369042307int * 1048576int == 182757430839890561770842008906104832int) by (nonlinear_arith);
    assert(pow(867int, 12) <= 182757430839890561770842008906104832int < pow(867int + 1, 12)) by {
        reveal_with_fuel(pow, 13);
    }
    crate::roots::lemma_iroot_unique(182757430839890561770842008906104832int, 12, 867int);
    assert(538050int * 867int == 466489350int) by (nonlinear_arith);
    assert((466489350int - 27699200int) / 2048000int == 214int);
    assert(linear_to_srgb_spec(705107) == 214);
}
/// Round trip at byte value 215.
#[verifier::spinoff_prover]
proof fn case_215()
    ensures
        linear_to_srgb_spec(srgb_to_linear_spec(215)) == 215,
{
    let a = 40 * 215 + 561int;
    assert(a * a == 83923921int) by (nonlinear_arith)
        requires
            a == 9161,
    ;
    assert(83923921int * 0x10000000000000000000000000int == 106386208829156506261086601568422199296int) by (nonlinear_arith);
    assert(a * a * 0x10000000000000000000000000int == 106386208829156506261086601568422199296int);
    assert(106386208829156506261086601568422199296int / 115799121int == 918713440226860670739345262978int);
    assert(pow(983186int, 5) <= 918713440226860670739345262978int < pow(983186int + 1, 5)) by {
        reveal_with_fuel(pow, 6);
    }
    crate::roots::lemma_iroot_unique(918713440226860670739345262978int, 5, 983186int);
    assert(83923921int * 983186int == 82512824192306int) by (nonlinear_arith);
    assert(a * a * 983186int == 82512824192306int);
    assert(82512824192306int / 115799121int == 712551int);
    assert(srgb_to_linear_spec(215) == 712551);
    assert(712551int * 712551int == 507728927601int) by (nonlinear_arith);
    assert(507728927601int * 712551int == 361782755091020151int) by (nonlinear_arith);
    assert(361782755091020151int * 712551int == 257788663922861499615201int) by (nonlinear_arith);
    assert(257788663922861499615201int * 712551int == 183687570266898884412311087751int) by (nonlinear_arith);
    assert(183687570266898884412311087751int * 1048576int == 192610377680183764621523511149592576int) by (nonlinear_arith);
    assert(pow(871int, 12) <= 192610377680183764621523511149592576int < pow(871int + 1, 12)) by {
        reveal_with_fuel(pow, 13);
    }
    crate::roots::lemma_iroot_unique(192610377680183764621523511149592576int, 12, 871int);
    assert(538050int * 871int == 468641550int) by (nonlinear_arith);
    assert((468641550int - 27699200int) / 2048000int == 215int);
    assert(linear_to_srgb_spec(712551) == 215);
}
/// Round trip at byte value 216.
#[verifier::spinoff_prover]
proof fn case_216()
    ensures
        linear_to_srgb_spec(srgb_to_linear_spec(216)) == 216,
{
    let a = 40 * 216 + 561int;
    assert(a * a == 84658401int) by (nonlinear_arith)
        requires
            a == 9201,
    ;
    assert(84658401int * 0x10000000000000000000000000int == 107317272842012136191897900138706763776int) by (nonlinear_arith);
    assert(a * a * 0x10000000000000000000000000int == 107317272842012136191897900138706763776int);
    assert(107317272842012136191897900138706763776int / 115799121int == 926753777707968406702309080037int);
    assert(pow(984901int, 5) <= 926753777707968406702309080037int < pow(984901int + 1, 5)) by {
        reveal_with_fuel(pow, 6);
    }
    crate::roots::lemma_iroot_unique(926753777707968406702309080037int, 5, 984901int);
    assert(84658401int * 984901int == 83380143803301int) by (nonlinear_arith);
    assert(a * a * 984901int == 83380143803301int);
    assert(83380143803301int / 115799121int == 720041int);
    assert(srgb_to_linear_spec(216) == 720041);
    assert(720041int * 720041int == 518459041681int) by (nonlinear_arith);
    assert(518459041681int * 720041int == 373311766831028921int) by (nonlinear_arith);
    assert(373311766831028921int * 720041int == 268799777900780895305761int) by (nonlinear_arith);
    assert(268799777900780895305761int * 720041int == 193546860879456176636855456201int) by (nonlinear_arith);
    assert(193546860879456176636855456201int * 1048576int == 202948593193536639873167346841419776int) by (nonlinear_arith);
    assert(pow(875int, 12) <= 202948593193536639873167346841419776int < pow(875int + 1, 12)) by {
        reveal_with_fuel(pow, 13);
    }
    crate::roots::lemma_iroot_unique(202948593193536639873167346841419776int, 12, 875int);
    assert(538050int * 875int == 470793750int) by (nonlinear_arith);
    assert((470793750int - 27699200int) / 2048000int == 216int);
    assert(linear_to_srgb_spec(720041) == 216);
}
/// Round trip at byte value 217.
#[verifier::spinoff_prover]
proof fn case_217()
    ensures
        linear_to_srgb_spec(srgb_to_linear_spec(217)) == 217,
{
    let a = 40 * 217 + 561int;
    assert(a * a == 85396081int) by (nonlinear_arith)
        requires
            a == 9241,
    ;
    assert(85396081int * 0x10000000000000000000000000int == 108252393336788496456793988159248531456int) by (nonlinear_arith);
    assert(a * a * 0x10000000000000000000000000int == 108252393336788496456793988159248531456int);
    assert(108252393336788496456793988159248531456int / 115799121int == 934829145523380064834809826917int);
    assert(pow(986612int, 5) <= 934829145523380064834809826917int < pow(986612int + 1, 5)) by {
        reveal_with_fuel(pow, 6);
    }
    crate::roots::lemma_iroot_unique(934829145523380064834809826917int, 5, 986612int);
    assert(85396081int * 986612int == 84252798267572int) by (nonlinear_arith);
    assert(a * a * 986612int == 84252798267572int);
    assert(84252798267572int / 115799121int == 727577int);
    assert(srgb_to_linear_spec(217) == 727577);
    assert(727577int * 727577int == 529368290929int) by (nonlinear_arith);
    assert(529368290929int * 727577int == 385156193009249033int) by (nonlinear_arith);
    assert(385156193009249033int * 727577int == 280230787441090383683041int) by (nonlinear_arith);
    assert(280230787441090383683041int * 727577int == 203889475634026218088955921657int) by (nonlinear_arith);
    assert(203889475634026218088955921657int * 1048576int == 213793610802424675658845044507410432int) by (nonlinear_arith);
    assert(pow(879int, 12) <= 213793610802424675658845044507410432int < pow(879int + 1, 12)) by {
        reveal_with_fuel(pow, 13);
    }
    crate::roots::lemma_iroot_unique(213793610802424675658845044507410432int, 12, 879int);
    assert(538050int * 879int == 472945950int) by (nonlinear_arith);
    assert((472945950int - 27699200int) / 2048000int == 217int);
    assert(linear_to_srgb_spec(727577) == 217);
}
/// Round trip at byte value 218.
#[verifier::spinoff_prover]
proof fn case_218()
    ensures
        linear_to_srgb_spec(srgb_to_linear_spec(218)) == 218,
{
    let a = 40 * 218 + 561int;
    assert(a * a == 86136961int) by (nonlinear_arith)
        requires
            a == 9281,
    ;
    assert(86136961int * 0x10000000000000000000000000int == 109191570313485587055774865630047502336int) by (nonlinear_arith);
    assert(a * a * 0x10000000000000000000000000int == 109191570313485587055774865630047502336int);
    assert(109191570313485587055774865630047502336int / 115799121int == 942939543673095645136847503618int);
    assert(pow(988318int, 5) <= 942939543673095645136847503618int < pow(988318int + 1, 5)) by {
        reveal_with_fuel(pow, 6);
    }
    crate::roots::lemma_iroot_unique(942939543673095645136847503618int, 5, 988318int);
    assert(86136961int * 988318int == 85130709021598int) by (nonlinear_arith);
    assert(a * a * 988318int == 85130709021598int);
    assert(85130709021598int / 115799121int == 735158int);
    assert(srgb_to_linear_spec(218) == 735158);
    assert(735158int * 735158int == 540457284964int) by (nonlinear_arith);
    assert(540457284964int * 735158int == 397321496699564312int) by (nonlinear_arith);
    assert(397321496699564312int * 735158int == 292094076870658300481296int) by (nonlinear_arith);
    assert(292094076870658300481296int * 735158int == 214735297364079414865228604768int) by (nonlinear_arith);
    assert(214735297364079414865228604768int * 1048576int == 225166279168836936521721949473210368int) by (nonlinear_arith);
    assert(pow(883int, 12) <= 225166279168836936521721949473210368int < pow(883int + 1, 12)) by {
        reveal_with_fuel(pow, 13);
    }
    crate::roots::lemma_iroot_unique(225166279168836936521721949473210368int, 12, 883int);
    assert(538050int * 883int == 475098150int) by (nonlinear_arith);
    assert((475098150int - 27699200int) / 2048000int == 218int);
    assert(linear_to_srgb_spec(735158) == 218);
}
/// Round trip at byte value 219.
#[verifier::spinoff_prover]
proof fn case_219()
    ensures
        linear_to_srgb_spec(srgb_to_linear_spec(219)) == 219,
{
    let a = 40 * 219 + 561int;
    assert(a * a == 86881041int) by (nonlinear_arith)
        requires
            a == 9321,
    ;
    assert(86881041int * 0x10000000000000000000000000int == 110134803772103407988840532551103676416int) by (nonlinear_arith);
    assert(a * a * 0x10000000000000000000000000int == 110134803772103407988840532551103676416int);
    assert(110134803772103407988840532551103676416int / 115799121int == 951084972157115147608422110139int);
    assert(pow(990019int, 5) <= 951084972157115147608422110139int < pow(990019int + 1, 5)) by {
        reveal_with_fuel(pow, 6);
    }
    crate::roots::lemma_iroot_unique(951084972157115147608422110139int, 5, 990019int);
    assert(86881041int * 990019int == 86013881329779int) by (nonlinear_arith);
    assert(a * a * 990019int == 86013881329779int);
    assert(86013881329779int / 115799121int == 742785int);
    assert(srgb_to_linear_spec(219) == 742785);
    assert(742785int * 742785int == 551729556225int) by (nonlinear_arith);
    assert(551729556225int * 742785int == 409816438420586625int) by (nonlinear_arith);
    assert(409816438420586625int * 742785int == 304405503212235436250625int) by (nonlinear_arith);
    assert(304405503212235436250625int * 742785int == 226107841703500298515420490625int) by (nonlinear_arith);
    assert(226107841703500298515420490625int * 1048576int == 237091256222089529016105556377600000int) by (nonlinear_arith);
    assert(pow(886int, 12) <= 237091256222089529016105556377600000int < pow(886int + 1, 12)) by {
        reveal_with_fuel(pow, 13);
    }
    crate::roots::lemma_iroot_unique(237091256222089529016105556377600000int, 12, 886int);
    assert(538050int * 886int == 476712300int) by (nonlinear_arith);
    assert((476712300int - 27699200int) / 2048000int == 219int);
    assert(linear_to_srgb_spec(742785) == 219);
}
/// Round trip at byte value 220.
#[verifier::spinoff_prover]
proof fn case_220()
    ensures
        linear_to_srgb_spec(srgb_to_linear_spec(220)) == 220,
{
    let a = 40 * 220 + 561int;
    assert(a * a == 87628321int) by (nonlinear_arith)
        requires
            a == 9361,
    ;
    assert(87628321int * 0x10000000000000000000000000int == 111082093712641959255990988922417053696int) by (nonlinear_arith);
    assert(a * a * 0x10000000000000000000000000int == 111082093712641959255990988922417053696int);
    assert(111082093712641959255990988922417053696int / 115799121int == 959265430975438572249533646480int);
    assert(pow(991717int, 5) <= 959265430975438572249533646480int < pow(991717int + 1, 5)) by {
        reveal_with_fuel(pow, 6);
    }
    crate::roots::lemma_iroot_unique(959265430975438572249533646480int, 5, 991717int);
    assert(87628321int * 991717int == 86902495617157int) by (nonlinear_arith);
    assert(a * a * 991717int == 86902495617157int);
    assert(86902495617157int / 115799121int == 750459int);
    assert(srgb_to_linear_spec(220) == 750459);
    assert(750459int * 750459int == 563188710681int) by (nonlinear_arith);
    assert(563188710681int * 750459int == 422650036628952579int) by (nonlinear_arith);
    assert(422650036628952579int * 750459int == 317181523838527123483761int) by (nonlinear_arith);
    assert(317181523838527123483761int * 750459int == 238031729198337226562499796299int) by (nonlinear_arith);
    assert(238031729198337226562499796299int * 1048576int == 249594358475875655679999786404020224int) by (nonlinear_arith);
    assert(pow(890int, 12) <= 249594358475875655679999786404020224int < pow(890int + 1, 12)) by {
        reveal_with_fuel(pow, 13);
    }
    crate::roots::lemma_iroot_unique(249594358475875655679999786404020224int, 12, 890int);
    assert(538050int * 890int == 478864500int) by (nonlinear_arith);
    assert((478864500int - 27699200int) / 2048000int == 220int);
    assert(linear_to_srgb_spec(750459) == 220);
}
/// Round trip at byte value 221.
#[verifier::spinoff_prover]
proof fn case_221()
    ensures
        linear_to_srgb_spec(srgb_to_linear_spec(221)) == 221,
{
    let a = 40 * 221 + 561int;
    assert(a * a == 88378801int) by (nonlinear_arith)
        requires
            a == 9401,
    ;
    assert(88378801int * 0x10000000000000000000000000int == 112033440135101240857226234743987634176int) by (nonlinear_arith);
    assert(a * a * 0x10000000000000000000000000int == 112033440135101240857226234743987634176int);
    assert(112033440135101240857226234743987634176int / 115799121int == 967480920128065919060182112643int);
    assert(pow(993409int, 5) <= 967480920128065919060182112643int < pow(993409int + 1, 5)) by {
        reveal_with_fuel(pow, 6);
    }
    crate::roots::lemma_iroot_unique(967480920128065919060182112643int, 5, 993409int);
    assert(88378801int * 993409int == 87796296322609int) by (nonlinear_arith);
    assert(a * a * 993409int == 87796296322609int);
    assert(87796296322609int / 115799121int == 758177int);
    assert(srgb_to_linear_spec(221) == 758177);
    assert(758177int * 758177int == 574832363329int) by (nonlinear_arith);
    assert(574832363329int * 758177int == 435824676731691233int) by (nonlinear_arith);
    assert(435824676731691233int * 758177int == 330432245930403463962241int) by (nonlinear_arith);
    assert(330432245930403463962241int * 758177int == 250526128922775507096499994657int) by (nonlinear_arith);
    assert(250526128922775507096499994657int * 1048576int == 262695686161328250129219578397458432int) by (nonlinear_arith);
    assert(pow(894int, 12) <= 262695686161328250129219578397458432int < pow(894int + 1, 12)) by {
        reveal_with_fuel(pow, 13);
    }
    crate::roots::lemma_iroot_unique(262695686161328250129219578397458432int, 12, 894int);
    assert(538050int * 894int == 481016700int) by (nonlinear_arith);
    assert((481016700int - 27699200int) / 2048000int == 221int);
    assert(linear_to_srgb_spec(758177) == 221);
}
/// Round trip at byte value 222.
#[verifier::spinoff_prover]
proof fn case_222()
    ensures
        linear_to_srgb_spec(srgb_to_linear_spec(222)) == 222,
{
    let a = 40 * 222 + 561int;
    assert(a * a == 89132481int) by (nonlinear_arith)
        requires
            a == 9441,
    ;
    assert(89132481int * 0x10000000000000000000000000int == 112988843039481252792546270015815417856int) by (nonlinear_arith);
    assert(a * a * 0x10000000000000000000000000int == 112988843039481252792546270015815417856int);
    assert(112988843039481252792546270015815417856int / 115799121int == 975731439614997188040367508625int);
    assert(pow(995098int, 5) <= 975731439614997188040367508625int < pow(995098int + 1, 5)) by {
        reveal_with_fuel(pow, 6);
    }
    crate::roots::lemma_iroot_unique(975731439614997188040367508625int, 5, 995098int);
    assert(89132481int * 995098int == 88695553578138int) by (nonlinear_arith);
    assert(a * a * 995098int == 88695553578138int);
    assert(88695553578138int / 115799121int == 765943int);
    assert(srgb_to_linear_spec(222) == 765943);
    assert(765943int * 765943int == 586668679249int) by (nonlinear_arith);
    assert(586668679249int * 765943int == 449354768190016807int) by (nonlinear_arith);
    assert(449354768190016807int * 765943int == 344180139211766043204001int) by (nonlinear_arith);
    assert(344180139211766043204001int * 765943int == 263622368368277718429802137943int) by (nonlinear_arith);
    assert(263622368368277718429802137943int * 1048576int == 276428088534135176880248206595719168int) by (nonlinear_arith);
    assert(pow(898int, 12) <= 276428088534135176880248206595719168int < pow(898int + 1, 12)) by {
        reveal_with_fuel(pow, 13);
    }
    crate::roots::lemma_iroot_unique(276428088534135176880248206595719168int, 12, 898int);
    assert(538050int * 898int == 483168900int) by (nonlinear_arith);
    assert((483168900int - 27699200int) / 2048000int == 222int);
    assert(linear_to_srgb_spec(765943) == 222);
}
/// Round trip at byte value 223.
#[verifier::spinoff_prover]
proof fn case_223()
    ensures
        linear_to_srgb_spec(srgb_to_linear_spec(223)) == 223,
{
    let a = 40 * 223 + 561int;
    assert(a * a == 89889361int) by (nonlinear_arith)
        requires
            a == 9481,
    ;
    assert(89889361int * 0x10000000000000000000000000int == 113948302425781995061951094737900404736int) by (nonlinear_arith);
    assert(a * a * 0x10000000000000000000000000int == 113948302425781995061951094737900404736int);
    assert(113948302425781995061951094737900404736int / 115799121int == 984016989436232379190089834428int);
    assert(pow(996782int, 5) <= 984016989436232379190089834428int < pow(996782int + 1, 5)) by {
        reveal_with_fuel(pow, 6);
    }
    crate::roots::lemma_iroot_unique(984016989436232379190089834428int, 5, 996782int);
    assert(89889361int * 996782int == 89600097036302int) by (nonlinear_arith);
    assert(a * a * 996782int == 89600097036302int);
    assert(89600097036302int / 115799121int == 773754int);
    assert(srgb_to_linear_spec(223) == 773754);
    assert(773754int * 773754int == 598695252516int) by (nonlinear_arith);
    assert(598695252516int * 773754int == 463242846415265064int) by (nonlinear_arith);
    assert(463242846415265064int * 773754int == 358436005385197004330256int) by (nonlinear_arith);
    assert(358436005385197004330256int * 773754int == 277341292910817722888552901024int) by (nonlinear_arith);
    assert(277341292910817722888552901024int * 1048576int == 290813423555253604595587246744141824int) by (nonlinear_arith);
    assert(pow(902int, 12) <= 290813423555253604595587246744141824int < pow(902int + 1, 12)) by {
        reveal_with_fuel(pow, 13);
    }
    crate::roots::lemma_iroot_unique(290813423555253604595587246744141824int, 12, 902int);
    assert(538050int * 902int == 485321100int) by (nonlinear_arith);
    assert((485321100int - 27699200int) / 2048000int == 223int);
    assert(linear_to_srgb_spec(773754) == 223);
}
/// Round trip at byte value 224.
#[verifier::spinoff_prover]
proof fn case_224()
    ensures
        linear_to_srgb_spec(srgb_to_linear_spec(224)) == 224,
{
    let a = 40 * 224 + 561int;
    assert(a * a == 90649441int) by (nonlinear_arith)
        requires
            a == 9521,
    ;
    assert(90649441int * 0x10000000000000000000000000int == 114911818294003467665440708910242594816int) by (nonlinear_arith);
    assert(a * a * 0x10000000000000000000000000int == 114911818294003467665440708910242594816int);
    assert(114911818294003467665440708910242594816int / 115799121int == 992337569591771492509349090052int);
    assert(pow(998462int, 5) <= 992337569591771492509349090052int < pow(998462int + 1, 5)) by {
        reveal_with_fuel(pow, 6);
    }
    crate::roots::lemma_iroot_unique(992337569591771492509349090052int, 5, 998462int);
    assert(90649441int * 998462int == 90510022159742int) by (nonlinear_arith);
    assert(a * a * 998462int == 90510022159742int);
    assert(90510022159742int / 115799121int == 781612int);
    assert(srgb_to_linear_spec(224) == 781612);
    assert(781612int * 781612int == 610917318544int) by (nonlinear_arith);
    assert(610917318544int * 781612int == 477500307181812928int) by (nonlinear_arith);
    assert(477500307181812928int * 781612int == 373219970096991166279936int) by (nonlinear_arith);
    assert(373219970096991166279936int * 781612int == 291713207267449459458393336832int) by (nonlinear_arith);
    assert(291713207267449459458393336832int * 1048576int == 305883468023673084401044251561951232int) by (nonlinear_arith);
    assert(pow(906int, 12) <= 305883468023673084401044251561951232int < pow(906int + 1, 12)) by {
        reveal_with_fuel(pow, 13);
    }
    crate::roots::lemma_iroot_unique(305883468023673084401044251561951232int, 12, 906int);
    assert(538050int * 906int == 487473300int) by (nonlinear_arith);
    assert((487473300int - 27699200int) / 2048000int == 224int);
    assert(linear_to_srgb_spec(781612) == 224);
}
/// Round trip at byte value 225.
#[verifier::spinoff_prover]
proof fn case_225()
    ensures
        linear_to_srgb_spec(srgb_to_linear_spec(225)) == 225,
{
    let a = 40 * 225 + 561int;
    assert(a * a == 91412721int) by (nonlinear_arith)
        requires
            a == 9561,
    ;
    assert(91412721int * 0x10000000000000000000000000int == 115879390644145670603015112532841988096int) by (nonlinear_arith);
    assert(a * a * 0x10000000000000000000000000int == 115879390644145670603015112532841988096int);
    assert(115879390644145670603015112532841988096int / 115799121int == 1000693180081614527998145275496int);
    assert(pow(1000138int, 5) <= 1000693180081614527998145275496int < pow(1000138int + 1, 5)) by {
        reveal_with_fuel(pow, 6);
    }
    crate::roots::lemma_iroot_unique(1000693180081614527998145275496int, 5, 1000138int);
    assert(91412721int * 1000138int == 91425335955498int) by (nonlinear_arith);
    assert(a * a * 1000138int == 91425335955498int);
    assert(91425335955498int / 115799121int == 789516int);
    assert(srgb_to_linear_spec(225) == 789516);
    assert(789516int * 789516int == 623335514256int) by (nonlinear_arith);
    assert(623335514256int * 789516int == 492133361873340096int) by (nonlinear_arith);
    assert(492133361873340096int * 789516int == 388547163332791979233536int) by (nonlinear_arith);
    assert(388547163332791979233536int * 789516int == 306764202205852592276544408576int) by (nonlinear_arith);
    assert(306764202205852592276544408576int * 1048576int == 321665580092204087798969829766987776int) by (nonlinear_arith);
    assert(pow(909int, 12) <= 321665580092204087798969829766987776int < pow(909int + 1, 12)) by {
        reveal_with_fuel(pow, 13);
    }
    crate::roots::lemma_iroot_unique(321665580092204087798969829766987776int, 12, 909int);
    assert(538050int * 909int == 489087450int) by (nonlinear_arith);
    assert((489087450int - 27699200int) / 2048000int == 225int);
    assert(linear_to_srgb_spec(789516) == 225);
}
/// Round trip at byte value 226.
#[verifier::spinoff_prover]
proof fn case_226()
    ensures
        linear_to_srgb_spec(srgb_to_linear_spec(226)) == 226,
{
    let a = 40 * 226 + 561int;
    assert(a * a == 92179201int) by (nonlinear_arith)
        requires
            a == 9601,
    ;
    assert(92179201int * 0x10000000000000000000000000int == 116851019476208603874674305605698584576int) by (nonlinear_arith);
    assert(a * a * 0x10000000000000000000000000int == 116851019476208603874674305605698584576int);
    assert(116851019476208603874674305605698584576int / 115799121int == 1009083820905761485656478390761int);
    assert(pow(1001810int, 5) <= 1009083820905761485656478390761int < pow(1001810int + 1, 5)) by {
        reveal_with_fuel(pow, 6);
    }
    crate::roots::lemma_iroot_unique(1009083820905761485656478390761int, 5, 1001810int);
    assert(92179201int * 1001810int == 92346045353810int) by (nonlinear_arith);
    assert(a * a * 1001810int == 92346045353810int);
    assert(92346045353810int / 115799121int == 797467int);
    assert(srgb_to_linear_spec(226) == 797467);
    assert(797467int * 797467int == 635953616089int) by (nonlinear_arith);
    assert(635953616089int * 797467int == 507152022361646563int) by (nonlinear_arith);
    assert(507152022361646563int * 797467int == 404437001816675199655921int) by (nonlinear_arith);
    assert(404437001816675199655921int * 797467int == 322525162527738521444008352107int) by (nonlinear_arith);
    assert(322525162527738521444008352107int * 1048576int == 338192144822685947861672501818949632int) by (nonlinear_arith);
    assert(pow(913int, 12) <= 338192144822685947861672501818949632int < pow(913int + 1, 12)) by {
        reveal_with_fuel(pow, 13);
    }
    crate::roots::lemma_iroot_unique(338192144822685947861672501818949632int, 12, 913int);
    assert(538050int * 913int == 491239650int) by (nonlinear_arith);
    assert((491239650int - 27699200int) / 2048000int == 226int);
    assert(linear_to_srgb_spec(797467) == 226);
}
/// Round trip at byte value 227.
#[verifier::spinoff_prover]
proof fn case_227()
    ensures
        linear_to_srgb_spec(srgb_to_linear_spec(227)) == 227,
{
    let a = 40 * 227 + 561int;
    assert(a * a == 92948881int) by (nonlinear_arith)
        requires
            a == 9641,
    ;
    assert(92948881int * 0x10000000000000000000000000int == 117826704790192267480418288128812384256int) by (nonlinear_arith);
    assert(a * a * 0x10000000000000000000000000int == 117826704790192267480418288128812384256int);
    assert(117826704790192267480418288128812384256int / 115799121int == 1017509492064212365484348435847int);
    assert(pow(1003477int, 5) <= 1017509492064212365484348435847int < pow(1003477int + 1, 5)) by {
        reveal_with_fuel(pow, 6);
    }
    crate::roots::lemma_iroot_unique(1017509492064212365484348435847int, 5, 1003477int);
    assert(92948881int * 1003477int == 93272064259237int) by (nonlinear_arith);
    assert(a * a * 1003477int == 93272064259237int);
    assert(93272064259237int / 115799121int == 805464int);
    assert(srgb_to_linear_spec(227) == 805464);
    assert(805464int * 805464int == 648772255296int) by (nonlinear_arith);
    assert(648772255296int * 805464int == 522562695839737344int) by (nonlinear_arith);
    assert(522562695839737344int * 805464int == 420905439241858200047616int) by (nonlinear_arith);
    assert(420905439241858200047616int * 805464int == 339024178713504073243152973824int) by (nonlinear_arith);
    assert(339024178713504073243152973824int * 1048576int == 355492617218691247105012372680474624int) by (nonlinear_arith);
    assert(pow(917int, 12) <= 355492617218691247105012372680474624int < pow(917int + 1, 12)) by {
        reveal_with_fuel(pow, 13);
    }
    crate::roots::lemma_iroot_unique(355492617218691247105012372680474624int, 12, 917int);
    assert(538050int * 917int == 493391850int) by (nonlinear_arith);
    assert((493391850int - 27699200int) / 2048000int == 227int);
    assert(linear_to_srgb_spec(805464) == 227);
}
/// Round trip at byte value 228.
#[verifier::spinoff_prover]
proof fn case_228()
    ensures
        linear_to_srgb_spec(srgb_to_linear_spec(228)) == 228,
{
    let a = 40 * 228 + 561int;
    assert(a * a == 93721761int) by (nonlinear_arith)
        requires
            a == 9681,
    ;
    assert(93721761int * 0x10000000000000000000000000int == 118806446586096661420247060102183387136int) by (nonlinear_arith);
    assert(a * a * 0x10000000000000000000000000int == 118806446586096661420247060102183387136int);
    assert(118806446586096661420247060102183387136int / 115799121int == 1025970193556967167481755410752int);
    assert(pow(1005140int, 5) <= 1025970193556967167481755410752int < pow(1005140int + 1, 5)) by {
        reveal_with_fuel(pow, 6);
    }
    crate::roots::lemma_iroot_unique(1025970193556967167481755410752int, 5, 1005140int);
    assert(93721761int * 1005140int == 94203490851540int) by (nonlinear_arith);
    assert(a * a * 1005140int == 94203490851540int);
    assert(94203490851540int / 115799121int == 813507int);
    assert(srgb_to_linear_spec(228) == 813507);
    assert(813507int * 813507int == 661793639049int) by (nonlinear_arith);
    assert(661793639049int * 813507int == 538373757921834843int) by (nonlinear_arith);
    assert(538373757921834843int * 813507int == 437970820685718097624401int) by (nonlinear_arith);
    assert(437970820685718097624401int * 813507int == 356292328423576472444133584307int) by (nonlinear_arith);
    assert(356292328423576472444133584307int * 1048576int == 373599584569080123169579817298296832int) by (nonlinear_arith);
    assert(pow(921int, 12) <= 373599584569080123169579817298296832int < pow(921int + 1, 12)) by {
        reveal_with_fuel(pow, 13);
    }
    crate::roots::lemma_iroot_unique(373599584569080123169579817298296832int, 12, 921int);
    assert(538050int * 921int == 495544050int) by (nonlinear_arith);
    assert((495544050int - 27699200int) / 2048000int == 228int);
    assert(linear_to_srgb_spec(813507) == 228);
}
/// Round trip at byte value 229.
#[verifier::spinoff_prover]
proof fn case_229()
    ensures
        linear_to_srgb_spec(srgb_to_linear_spec(229)) == 229,
{
    let a = 40 * 229 + 561int;
    assert(a * a == 94497841int) by (nonlinear_arith)
        requires
            a == 9721,
    ;
    assert(94497841int * 0x10000000000000000000000000int == 119790244863921785694160621525811593216int) by (nonlinear_arith);
    assert(a * a * 0x10000000000000000000000000int == 119790244863921785694160621525811593216int);
    assert(119790244863921785694160621525811593216int / 115799121int == 1034465925384025891648699315479int);
    assert(pow(1006800int, 5) <= 1034465925384025891648699315479int < pow(1006800int + 1, 5)) by {
        reveal_with_fuel(pow, 6);
    }
    crate::roots::lemma_iroot_unique(1034465925384025891648699315479int, 5, 1006800int);
    assert(94497841int * 1006800int == 95140426318800int) by (nonlinear_arith);
    assert(a * a * 1006800int == 95140426318800int);
    assert(95140426318800int / 115799121int == 821598int);
    assert(srgb_to_linear_spec(229) == 821598);
    assert(821598int * 821598int == 675023273604int) by (nonlinear_arith);
    assert(675023273604int * 821598int == 554597771546499192int) by (nonlinear_arith);
    assert(554597771546499192int * 821598int == 455656419907060643148816int) by (nonlinear_arith);
    assert(455656419907060643148816int * 821598int == 374366403282801210289780927968int) by (nonlinear_arith);
    assert(374366403282801210289780927968int * 1048576int == 392551625688666561880817326324973568int) by (nonlinear_arith);
    assert(pow(925int, 12) <= 392551625688666561880817326324973568int < pow(925int + 1, 12)) by {
        reveal_with_fuel(pow, 13);
    }
    crate::roots::lemma_iroot_unique(392551625688666561880817326324973568int, 12, 925int);
    assert(538050int * 925int == 497696250int) by (nonlinear_arith);
    assert((497696250int - 27699200int) / 2048000int == 229int);
    assert(linear_to_srgb_spec(821598) == 229);
}
/// Round trip at byte value 230.
#[verifier::spinoff_prover]
proof fn case_230()
    ensures
        linear_to_srgb_spec(srgb_to_linear_spec(230)) == 230,
{
    let a = 40 * 230 + 561int;
    assert(a * a == 95277121int) by (nonlinear_arith)
        requires
            a == 9761,
    ;
    assert(95277121int * 0x10000000000000000000000000int == 120778099623667640302158972399697002496int) by (nonlinear_arith);
    assert(a * a * 0x10000000000000000000000000int == 120778099623667640302158972399697002496int);
    assert(120778099623667640302158972399697002496int / 115799121int == 1042996687545388537985180150026int);
    assert(pow(1008455int, 5) <= 1042996687545388537985180150026int < pow(1008455int + 1, 5)) by {
        reveal_with_fuel(pow, 6);
    }
    crate::roots::lemma_iroot_unique(1042996687545388537985180150026int, 5, 1008455int);
    assert(95277121int * 1008455int == 96082689058055int) by (nonlinear_arith);
    assert(a * a * 1008455int == 96082689058055int);
    assert(96082689058055int / 115799121int == 829735int);
    assert(srgb_to_linear_spec(230) == 829735);
    assert(829735int * 829735int == 688460170225int) by (nonlinear_arith);
    assert(688460170225int * 829735int == 571239499341640375int) by (nonlinear_arith);
    assert(571239499341640375int * 829735int == 473977405986235976550625int) by (nonlinear_arith);
    assert(473977405986235976550625int * 829735int == 393275642955989508003232834375int) by (nonlinear_arith);
    assert(393275642955989508003232834375int * 1048576int == 412379400588219654343997872537600000int) by (nonlinear_arith);
    assert(pow(928int, 12) <= 412379400588219654343997872537600000int < pow(928int + 1, 12)) by {
        reveal_with_fuel(pow, 13);
    }
    crate::roots::lemma_iroot_unique(412379400588219654343997872537600000int, 12, 928int);
    assert(538050int * 928int == 499310400int) by (nonlinear_arith);
    assert((499310400int - 27699200int) / 2048000int == 230int);
    assert(linear_to_srgb_spec(829735) == 230);
}
/// Round trip at byte value 231.
#[verifier::spinoff_prover]
proof fn case_231()
    ensures
        linear_to_srgb_spec(srgb_to_linear_spec(231)) == 231,
{
    let a = 40 * 231 + 561int;
    assert(a * a == 96059601int) by (nonlinear_arith)
        requires
            a == 9801,
    ;
    assert(96059601int * 0x10000000000000000000000000int == 121770010865334225244242112723839614976int) by (nonlinear_arith);
    assert(a * a * 0x10000000000000000000000000int == 121770010865334225244242112723839614976int);
    assert(121770010865334225244242112723839614976int / 115799121int == 1051562480041055106491197914393int);
    assert(pow(1010106int, 5) <= 1051562480041055106491197914393int < pow(1010106int + 1, 5)) by {
        reveal_with_fuel(pow, 6);
    }
    crate::roots::lemma_iroot_unique(1051562480041055106491197914393int, 5, 1010106int);
    assert(96059601int * 1010106int == 97030379327706int) by (nonlinear_arith);
    assert(a * a * 1010106int == 97030379327706int);
    assert(97030379327706int / 115799121int == 837919int);
    assert(srgb_to_linear_spec(231) == 837919);
    assert(837919int * 837919int == 702108250561int) by (nonlinear_arith);
    assert(702108250561int * 837919int == 588309843201822559int) by (nonlinear_arith);
    assert(588309843201822559int * 837919int == 492955995505827956814721int) by (nonlinear_arith);
    assert(492955995505827956814721int * 837919int == 413057194798247855746234205599int) by (nonlinear_arith);
    assert(413057194798247855746234205599int * 1048576int == 433121861092767543586963278370177024int) by (nonlinear_arith);
    assert(pow(932int, 12) <= 433121861092767543586963278370177024int < pow(932int + 1, 12)) by {
        reveal_with_fuel(pow, 13);
    }
    crate::roots::lemma_iroot_unique(433121861092767543586963278370177024int, 12, 932int);
    assert(538050int * 932int == 501462600int) by (nonlinear_arith);
    assert((501462600int - 27699200int) / 2048000int == 231int);
    assert(linear_to_srgb_spec(837919) == 231);
}
/// Round trip at byte value 232.
#[verifier::spinoff_prover]
proof fn case_232()
    ensures
        linear_to_srgb_spec(srgb_to_linear_spec(232)) == 232,
{
    let a = 40 * 232 + 561int;
    assert(a * a == 96845281int) by (nonlinear_arith)
        requires
            a == 9841,
    ;
    assert(96845281int * 0x10000000000000000000000000int == 122765978588921540520410042498239430656int) by (nonlinear_arith);
    assert(a * a * 0x10000000000000000000000000int == 122765978588921540520410042498239430656int);
    assert(122765978588921540520410042498239430656int / 115799121int == 1060163302871025597166752608581int);
    assert(pow(1011753int, 5) <= 1060163302871025597166752608581int < pow(1011753int + 1, 5)) by {
        reveal_with_fuel(pow, 6);
    }
    crate::roots::lemma_iroot_unique(1060163302871025597166752608581int, 5, 1011753int);
    assert(96845281int * 1011753int == 97983503587593int) by (nonlinear_arith);
    assert(a * a * 1011753int == 97983503587593int);
    assert(97983503587593int / 115799121int == 846150int);
    assert(srgb_to_linear_spec(232) == 846150);
    assert(846150int * 846150int == 715969822500int) by (nonlinear_arith);
    assert(715969822500int * 846150int == 605817865308375000int) by (nonlinear_arith);
    assert(605817865308375000int * 846150int == 512612786730681506250000int) by (nonlinear_arith);
    assert(512612786730681506250000int * 846150int == 433747309492166156513437500000int) by (nonlinear_arith);
    assert(433747309492166156513437500000int * 1048576int == 454817018798057619732234240000000000int) by (nonlinear_arith);
    assert(pow(936int, 12) <= 454817018798057619732234240000000000int < pow(936int + 1, 12)) by {
        reveal_with_fuel(pow, 13);
    }
    crate::roots::lemma_iroot_unique(454817018798057619732234240000000000int, 12, 936int);
    assert(538050int * 936int == 503614800int) by (nonlinear_arith);
    assert((503614800int - 27699200int) / 2048000int == 232int);
    assert(linear_to_srgb_spec(846150) == 232);
}
/// Round trip at byte value 233.
#[verifier::spinoff_prover]
proof fn case_233()
    ensures
        linear_to_srgb_spec(srgb_to_linear_spec(233)) == 233,
{
    let a = 40 * 233 + 561int;
    assert(a * a == 97634161int) by (nonlinear_arith)
        requires
            a == 9881,
    ;
    assert(97634161int * 0x10000000000000000000000000int == 123766002794429586130662761722896449536int) by (nonlinear_arith);
    assert(a * a * 0x10000000000000000000000000int == 123766002794429586130662761722896449536int);
    assert(123766002794429586130662761722896449536int / 115799121int == 1068799156035300010011844232590int);
    assert(pow(1013396int, 5) <= 1068799156035300010011844232590int < pow(1013396int + 1, 5)) by {
        reveal_with_fuel(pow, 6);
    }
    crate::roots::lemma_iroot_unique(1068799156035300010011844232590int, 5, 1013396int);
    assert(97634161int * 1013396int == 98942068220756int) by (nonlinear_arith);
    assert(a * a * 1013396int == 98942068220756int);
    assert(98942068220756int / 115799121int == 854428int);
    assert(srgb_to_linear_spec(233) == 854428);
    assert(854428int * 854428int == 730047207184int) by (nonlinear_arith);
    assert(730047207184int * 854428int == 623772775139810752int) by (nonlinear_arith);
    assert(623772775139810752int * 854428int == 532968924717158221209856int) by (nonlinear_arith);
    assert(532968924717158221209856int * 854428int == 455383572408232064631894842368int) by (nonlinear_arith);
    assert(455383572408232064631894842368int * 1048576int == 477504284821534345403453766230867968int) by (nonlinear_arith);
    assert(pow(940int, 12) <= 477504284821534345403453766230867968int < pow(940int + 1, 12)) by {
        reveal_with_fuel(pow, 13);
    }
    crate::roots::lemma_iroot_unique(477504284821534345403453766230867968int, 12, 940int);
    assert(538050int * 940int == 505767000int) by (nonlinear_arith);
    assert((505767000int - 27699200int) / 2048000int == 233int);
    assert(linear_to_srgb_spec(854428) == 233);
}
/// Round trip at byte value 234.
#[verifier::spinoff_prover]
proof fn case_234()
    ensures
        linear_to_srgb_spec(srgb_to_linear_spec(234)) == 234,
{
    let a = 40 * 234 + 561int;
    assert(a * a == 98426241int) by (nonlinear_arith)
        requires
            a == 9921,
    ;
    assert(98426241int * 0x10000000000000000000000000int == 124770083481858362075000270397810671616int) by (nonlinear_arith);
    assert(a * a * 0x10000000000000000000000000int == 124770083481858362075000270397810671616int);
    assert(124770083481858362075000270397810671616int / 115799121int == 1077470039533878345026472786419int);
    assert(pow(1015035int, 5) <= 1077470039533878345026472786419int < pow(1015035int + 1, 5)) by {
        reveal_with_fuel(pow, 6);
    }
    crate::roots::lemma_iroot_unique(1077470039533878345026472786419int, 5, 1015035int);
    assert(98426241int * 1015035int == 99906079533435int) by (nonlinear_arith);
    assert(a * a * 1015035int == 99906079533435int);
    assert(99906079533435int / 115799121int == 862753int);
    assert(srgb_to_linear_spec(234) == 862753);
    assert(862753int * 862753int == 744342739009int) by (nonlinear_arith);
    assert(744342739009int * 862753int == 642183931108231777int) by (nonlinear_arith);
    assert(642183931108231777int * 862753int == 554046113115420290302081int) by (nonlinear_arith);
    assert(554046113115420290302081int * 862753int == 478004946228668201718991288993int) by (nonlinear_arith);
    assert(478004946228668201718991288993int * 1048576int == 501224514496671988285693009847123968int) by (nonlinear_arith);
    assert(pow(944int, 12) <= 501224514496671988285693009847123968int < pow(944int + 1, 12)) by {
        reveal_with_fuel(pow, 13);
    }
    crate::roots::lemma_iroot_unique(501224514496671988285693009847123968int, 12, 944int);
    assert(538050int * 944int == 507919200int) by (nonlinear_arith);
    assert((507919200int - 27699200int) / 2048000int == 234int);
    assert(linear_to_srgb_spec(862753) == 234);
}
/// Round trip at byte value 235.
#[verifier::spinoff_prover]
proof fn case_235()
    ensures
        linear_to_srgb_spec(srgb_to_linear_spec(235)) == 235,
{
    let a = 40 * 235 + 561int;
    assert(a * a == 99221521int) by (nonlinear_arith)
        requires
            a == 9961,
    ;
    assert(99221521int * 0x10000000000000000000000000int == 125778220651207868353422568522982096896int) by (nonlinear_arith);
    assert(a * a * 0x10000000000000000000000000int == 125778220651207868353422568522982096896int);
    assert(125778220651207868353422568522982096896int / 115799121int == 1086175953366760602210638270069int);
    assert(pow(1016670int, 5) <= 1086175953366760602210638270069int < pow(1016670int + 1, 5)) by {
        reveal_with_fuel(pow, 6);
    }
    crate::roots::lemma_iroot_unique(1086175953366760602210638270069int, 5, 1016670int);
    assert(99221521int * 1016670int == 100875543755070int) by (nonlinear_arith);
    assert(a * a * 1016670int == 100875543755070int);
    assert(100875543755070int / 115799121int == 871125int);
    assert(srgb_to_linear_spec(235) == 871125);
    assert(871125int * 871125int == 758858765625int) by (nonlinear_arith);
    assert(758858765625int * 871125int == 661060842205078125int) by (nonlinear_arith);
    assert(661060842205078125int * 871125int == 575866626165898681640625int) by (nonlinear_arith);
    assert(575866626165898681640625int * 871125int == 501651814718768489044189453125int) by (nonlinear_arith);
    assert(501651814718768489044189453125int * 1048576int == 526020053270547387168000000000000000int) by (nonlinear_arith);
    assert(pow(947int, 12) <= 526020053270547387168000000000000000int < pow(947int + 1, 12)) by {
        reveal_with_fuel(pow, 13);
    }
    crate::roots::lemma_iroot_unique(526020053270547387168000000000000000int, 12, 947int);
    assert(538050int * 947int == 509533350int) by (nonlinear_arith);
    assert((509533350int - 27699200int) / 2048000int == 235int);
    assert(linear_to_srgb_spec(871125) == 235);
}
/// Round trip at byte value 236.
#[verifier::spinoff_prover]
proof fn case_236()
    ensures
        linear_to_srgb_spec(srgb_to_linear_spec(236)) == 236,
{
    let a = 40 * 236 + 561int;
    assert(a * a == 100020001int) by (nonlinear_arith)
        requires
            a == 10001,
    ;
    assert(100020001int * 0x10000000000000000000000000int == 126790414302478104965929656098410725376int) by (nonlinear_arith);
    assert(a * a * 0x10000000000000000000000000int == 126790414302478104965929656098410725376int);
    assert(126790414302478104965929656098410725376int / 115799121int == 1094916897533946781564340683539int);
    assert(pow(1018301int, 5) <= 1094916897533946781564340683539int < pow(1018301int + 1, 5)) by {
        reveal_with_fuel(pow, 6);
    }
    crate::roots::lemma_iroot_unique(1094916897533946781564340683539int, 5, 1018301int);
    assert(100020001int * 1018301int == 101850467038301int) by (nonlinear_arith);
    assert(a * a * 1018301int == 101850467038301int);
    assert(101850467038301int / 115799121int == 879544int);
    assert(srgb_to_linear_spec(236) == 879544);
    assert(879544int * 879544int == 773597647936int) by (nonlinear_arith);
    assert(773597647936int * 879544int == 680413169656221184int) by (nonlinear_arith);
    assert(680413169656221184int * 879544int == 598453320892111405060096int) by (nonlinear_arith);
    assert(598453320892111405060096int * 879544int == 526366027670731233652177076224int) by (nonlinear_arith);
    assert(526366027670731233652177076224int * 1048576int == 551934783830864674058065229878657024int) by (nonlinear_arith);
    assert(pow(951int, 12) <= 551934783830864674058065229878657024int < pow(951int + 1, 12)) by {
        reveal_with_fuel(pow, 13);
    }
    crate::roots::lemma_iroot_unique(551934783830864674058065229878657024int, 12, 951int);
    assert(538050int * 951int == 511685550int) by (nonlinear_arith);
    assert((511685550int - 27699200int) / 2048000int == 236int);
    assert(linear_to_srgb_spec(879544) == 236);
}
/// Round trip at byte value 237.
#[verifier::spinoff_prover]
proof fn case_237()
    ensures
        linear_to_srgb_spec(srgb_to_linear_spec(237)) == 237,
{
    let a = 40 * 237 + 561int;
    assert(a * a == 100821681int) by (nonlinear_arith)
        requires
            a == 10041,
    ;
    assert(100821681int * 0x10000000000000000000000000int == 127806664435669071912521533124096557056int) by (nonlinear_arith);
    assert(a * a * 0x10000000000000000000000000int == 127806664435669071912521533124096557056int);
    assert(127806664435669071912521533124096557056int / 115799121int == 1103692872035436883087580026830int);
    assert(pow(1019928int, 5) <= 1103692872035436883087580026830int < pow(1019928int + 1, 5)) by {
        reveal_with_fuel(pow, 6);
    }
    crate::roots::lemma_iroot_unique(1103692872035436883087580026830int, 5, 1019928int);
    assert(100821681int * 1019928int == 102830855458968int) by (nonlinear_arith);
    assert(a * a * 1019928int == 102830855458968int);
    assert(102830855458968int / 115799121int == 888010int);
    assert(srgb_to_linear_spec(237) == 888010);
    assert(888010int * 888010int == 788561760100int) by (nonlinear_arith);
    assert(788561760100int * 888010int == 700250728586401000int) by (nonlinear_arith);
    assert(700250728586401000int * 888010int == 621829649492009952010000int) by (nonlinear_arith);
    assert(621829649492009952010000int * 888010int == 552190947045399757484400100000int) by (nonlinear_arith);
    assert(552190947045399757484400100000int * 1048576int == 579014174489077096103962319257600000int) by (nonlinear_arith);
    assert(pow(955int, 12) <= 579014174489077096103962319257600000int < pow(955int + 1, 12)) by {
        reveal_with_fuel(pow, 13);
    }
    crate::roots::lemma_iroot_unique(579014174489077096103962319257600000int, 12, 955int);
    assert(538050int * 955int == 513837750int) by (nonlinear_arith);
    assert((513837750int - 27699200int) / 2048000int == 237int);
    assert(linear_to_srgb_spec(888010) == 237);
}
/// Round trip at byte value 238.
#[verifier::spinoff_prover]
proof fn case_238()
    ensures
        linear_to_srgb_spec(srgb_to_linear_spec(238)) == 238,
{
    let a = 40 * 238 + 561int;
    assert(a * a == 101626561int) by (nonlinear_arith)
        requires
            a == 10081,
    ;
    assert(101626561int * 0x10000000000000000000000000int == 128826971050780769193198199600039591936int) by (nonlinear_arith);
    assert(a * a * 0x10000000000000000000000000int == 128826971050780769193198199600039591936int);
    assert(128826971050780769193198199600039591936int / 115799121int == 1112503876871230906780356299941int);
    assert(pow(1021551int, 5) <= 1112503876871230906780356299941int < pow(1021551int + 1, 5)) by {
        reveal_with_fuel(pow, 6);
    }
    crate::roots::lemma_iroot_unique(1112503876871230906780356299941int, 5, 1021551int);
    assert(101626561int * 1021551int == 103816715016111int) by (nonlinear_arith);
    assert(a * a * 1021551int == 103816715016111int);
    assert(103816715016111int / 115799121int == 896524int);
    assert(srgb_to_linear_spec(238) == 896524);
    assert(896524int * 896524int == 803755282576int) by (nonlinear_arith);
    assert(803755282576int * 896524int == 720585900956165824int) by (nonlinear_arith);
    assert(720585900956165824int * 896524int == 646022554268825609195776int) by (nonlinear_arith);
    assert(646022554268825609195776int * 896524int == 579174724443304610458633882624int) by (nonlinear_arith);
    assert(579174724443304610458633882624int * 1048576int == 607308715857862575216272482106343424int) by (nonlinear_arith);
    assert(pow(959int, 12) <= 607308715857862575216272482106343424int < pow(959int + 1, 12)) by {
        reveal_with_fuel(pow, 13);
    }
    crate::roots::lemma_iroot_unique(607308715857862575216272482106343424int, 12, 959int);
    assert(538050int * 959int == 515989950int) by (nonlinear_arith);
    assert((515989950int - 27699200int) / 2048000int == 238int);
    assert(linear_to_srgb_spec(896524) == 238);
}
/// Round trip at byte value 239.
#[verifier::spinoff_prover]
proof fn case_239()
    ensures
        linear_to_srgb_spec(srgb_to_linear_spec(239)) == 239,
{
    let a = 40 * 239 + 561int;
    assert(a * a == 102434641int) by (nonlinear_arith)
        requires
            a == 10121,
    ;
    assert(102434641int * 0x10000000000000000000000000int == 129851334147813196807959655526239830016int) by (nonlinear_arith);
    assert(a * a * 0x10000000000000000000000000int == 129851334147813196807959655526239830016int);
    assert(129851334147813196807959655526239830016int / 115799121int == 1121349912041328852642669502873int);
    assert(pow(1023171int, 5) <= 1121349912041328852642669502873int < pow(1023171int + 1, 5)) by {
        reveal_with_fuel(pow, 6);
    }
    crate::roots::lemma_iroot_unique(1121349912041328852642669502873int, 5, 1023171int);
    assert(102434641int * 1023171int == 104808154066611int) by (nonlinear_arith);
    assert(a * a * 1023171int == 104808154066611int);
    assert(104808154066611int / 115799121int == 905085int);
    assert(srgb_to_linear_spec(239) == 905085);
    assert(905085int * 905085int == 819178857225int) by (nonlinear_arith);
    assert(819178857225int * 905085int == 741426495991489125int) by (nonlinear_arith);
    assert(741426495991489125int * 905085int == 671054000124456934700625int) by (nonlinear_arith);
    assert(671054000124456934700625int * 905085int == 607360909702644104743515178125int) by (nonlinear_arith);
    assert(607360909702644104743515178125int * 1048576int == 636864073252359744775536171417600000int) by (nonlinear_arith);
    assert(pow(963int, 12) <= 636864073252359744775536171417600000int < pow(963int + 1, 12)) by {
        reveal_with_fuel(pow, 13);
    }
    crate::roots::lemma_iroot_unique(636864073252359744775536171417600000int, 12, 963int);
    assert(538050int * 963int == 518142150int) by (nonlinear_arith);
    assert((518142150int - 27699200int) / 2048000int == 239int);
    assert(linear_to_srgb_spec(905085) == 239);
}
/// Round trip at byte value 240.
#[verifier::spinoff_prover]
proof fn case_240()
    ensures
        linear_to_srgb_spec(srgb_to_linear_spec(240)) == 240,
{
    let a = 40 * 240 + 561int;
    assert(a * a == 103245921int) by (nonlinear_arith)
        requires
            a == 10161,
    ;
    assert(103245921int * 0x10000000000000000000000000int == 130879753726766354756805900902697271296int) by (nonlinear_arith);
    assert(a * a * 0x10000000000000000000000000int == 130879753726766354756805900902697271296int);
    assert(130879753726766354756805900902697271296int / 115799121int == 1130230977545730720674519635625int);
    assert(pow(1024786int, 5) <= 1130230977545730720674519635625int < pow(1024786int + 1, 5)) by {
        reveal_with_fuel(pow, 6);
    }
    crate::roots::lemma_iroot_unique(1130230977545730720674519635625int, 5, 1024786int);
    assert(103245921int * 1024786int == 105804974397906int) by (nonlinear_arith);
    assert(a * a * 1024786int == 105804974397906int);
    assert(105804974397906int / 115799121int == 913694int);
    assert(srgb_to_linear_spec(240) == 913694);
    assert(913694int * 913694int == 834836725636int) by (nonlinear_arith);
    assert(834836725636int * 913694int == 762785307193259384int) by (nonlinear_arith);
    assert(762785307193259384int * 913694int == 696952358470637939604496int) by (nonlinear_arith);
    assert(696952358470637939604496int * 913694int == 636801188220471061588990368224int) by (nonlinear_arith);
    assert(636801188220471061588990368224int * 1048576int == 667734442739468663876737164350849024int) by (nonlinear_arith);
    assert(pow(966int, 12) <= 667734442739468663876737164350849024int < pow(966int + 1, 12)) by {
        reveal_with_fuel(pow, 13);
    }
    crate::roots::lemma_iroot_unique(667734442739468663876737164350849024int, 12, 966int);
    assert(538050int * 966int == 519756300int) by (nonlinear_arith);
    assert((519756300int - 27699200int) / 2048000int == 240int);
    assert(linear_to_srgb_spec(913694) == 240);
}
/// Round trip at byte value 241.
#[verifier::spinoff_prover]
proof fn case_241()
    ensures
        linear_to_srgb_spec(srgb_to_linear_spec(241)) == 241,
{
    let a = 40 * 241 + 561int;
    assert(a * a == 104060401int) by (nonlinear_arith)
        requires
            a == 10201,
    ;
    assert(104060401int * 0x10000000000000000000000000int == 131912229787640243039736935729411915776int) by (nonlinear_arith);
    assert(a * a * 0x10000000000000000000000000int == 131912229787640243039736935729411915776int);
    assert(131912229787640243039736935729411915776int / 115799121int == 1139147073384436510875906698198int);
    assert(pow(1026398int, 5) <= 1139147073384436510875906698198int < pow(1026398int + 1, 5)) by {
        reveal_with_fuel(pow, 6);
    }
    crate::roots::lemma_iroot_unique(1139147073384436510875906698198int, 5, 1026398int);
    assert(104060401int * 1026398int == 106807387465598int) by (nonlinear_arith);
    assert(a * a * 1026398int == 106807387465598int);
    assert(106807387465598int / 115799121int == 922350int);
    assert(srgb_to_linear_spec(241) == 922350);
    assert(922350int * 922350int == 850729522500int) by (nonlinear_arith);
    assert(850729522500int * 922350int == 784670375077875000int) by (nonlinear_arith);
    assert(784670375077875000int * 922350int == 723740720453078006250000int) by (nonlinear_arith);
    assert(723740720453078006250000int * 922350int == 667542253509896499064687500000int) by (nonlinear_arith);
    assert(667542253509896499064687500000int * 1048576int == 699968786016393231403253760000000000int) by (nonlinear_arith);
    assert(pow(970int, 12) <= 699968786016393231403253760000000000int < pow(970int + 1, 12)) by {
        reveal_with_fuel(pow, 13);
    }
    crate::roots::lemma_iroot_unique(699968786016393231403253760000000000int, 12, 970int);
    assert(538050int * 970int == 521908500int) by (nonlinear_arith);
    assert((521908500int - 27699200int) / 2048000int == 241int);
    assert(linear_to_srgb_spec(922350) == 241);
}
/// Round trip at byte value 242.
#[verifier::spinoff_prover]
proof fn case_242()
    ensures
        linear_to_srgb_spec(srgb_to_linear_spec(242)) == 242,
{
    let a = 40 * 242 + 561int;
    assert(a * a == 104878081int) by (nonlinear_arith)
        requires
            a == 10241,
    ;
    assert(104878081int * 0x10000000000000000000000000int == 132948762330434861656752760006383763456int) by (nonlinear_arith);
    assert(a * a * 0x10000000000000000000000000int == 132948762330434861656752760006383763456int);
    assert(132948762330434861656752760006383763456int / 115799121int == 1148098199557446223246830690592int);
    assert(pow(1028006int, 5) <= 1148098199557446223246830690592int < pow(1028006int + 1, 5)) by {
        reveal_with_fuel(pow, 6);
    }
    crate::roots::lemma_iroot_unique(1148098199557446223246830690592int, 5, 1028006int);
    assert(104878081int * 1028006int == 107815296536486int) by (nonlinear_arith);
    assert(a * a * 1028006int == 107815296536486int);
    assert(107815296536486int / 115799121int == 931054int);
    assert(srgb_to_linear_spec(242) == 931054);
    assert(931054int * 931054int == 866861550916int) by (nonlinear_arith);
    assert(866861550916int * 931054int == 807094914426545464int) by (nonlinear_arith);
    assert(807094914426545464int * 931054int == 751448948456492860439056int) by (nonlinear_arith);
    assert(751448948456492860439056int * 931054int == 699639549256211503683224845024int) by (nonlinear_arith);
    assert(699639549256211503683224845024int * 1048576int == 733625240000881233686141175095885824int) by (nonlinear_arith);
    assert(pow(974int, 12) <= 733625240000881233686141175095885824int < pow(974int + 1, 12)) by {
        reveal_with_fuel(pow, 13);
    }
    crate::roots::lemma_iroot_unique(733625240000881233686141175095885824int, 12, 974int);
    assert(538050int * 974int == 524060700int) by (nonlinear_arith);
    assert((524060700int - 27699200int) / 2048000int == 242int);
    assert(linear_to_srgb_spec(931054) == 242);
}
/// Round trip at byte value 243.
#[verifier::spinoff_prover]
proof fn case_243()
    ensures
        linear_to_srgb_spec(srgb_to_linear_spec(243)) == 243,
{
    let a = 40 * 243 + 561int;
    assert(a * a == 105698961int) by (nonlinear_arith)
        requires
            a == 10281,
    ;
    assert(105698961int * 0x10000000000000000000000000int == 133989351355150210607853373733612814336int) by (nonlinear_arith);
    assert(a * a * 0x10000000000000000000000000int == 133989351355150210607853373733612814336int);
    assert(133989351355150210607853373733612814336int / 115799121int == 1157084356064759857787291612806int);
    assert(pow(1029610int, 5) <= 1157084356064759857787291612806int < pow(1029610int + 1, 5)) by {
        reveal_with_fuel(pow, 6);
    }
    crate::roots::lemma_iroot_unique(1157084356064759857787291612806int, 5, 1029610int);
    assert(105698961int * 1029610int == 108828707235210int) by (nonlinear_arith);
    assert(a * a * 1029610int == 108828707235210int);
    assert(108828707235210int / 115799121int == 939805int);
    assert(srgb_to_linear_spec(243) == 939805);
    assert(939805int * 939805int == 883233438025int) by (nonlinear_arith);
    assert(883233438025int * 939805int == 830067201223085125int) by (nonlinear_arith);
    assert(830067201223085125int * 939805int == 780101306045461515900625int) by (nonlinear_arith);
    assert(780101306045461515900625int * 939805int == 733143107928054959950986878125int) by (nonlinear_arith);
    assert(733143107928054959950986878125int * 1048576int == 768756267538768157685566016716800000int) by (nonlinear_arith);
    assert(pow(978int, 12) <= 768756267538768157685566016716800000int < pow(978int + 1, 12)) by {
        reveal_with_fuel(pow, 13);
    }
    crate::roots::lemma_iroot_unique(768756267538768157685566016716800000int, 12, 978int);
    assert(538050int * 978int == 526212900int) by (nonlinear_arith);
    assert((526212900int - 27699200int) / 2048000int == 243int);
    assert(linear_to_srgb_spec(939805) == 243);
}
/// Round trip at byte value 244.
#[verifier::spinoff_prover]
proof fn case_244()
    ensures
        linear_to_srgb_spec(srgb_to_linear_spec(244)) == 244,
{
    let a = 40 * 244 + 561int;
    assert(a * a == 106523041int) by (nonlinear_arith)
        requires
            a == 10321,
    ;
    assert(106523041int * 0x10000000000000000000000000int == 135033996861786289893038776911099068416int) by (nonlinear_arith);
    assert(a * a * 0x10000000000000000000000000int == 135033996861786289893038776911099068416int);
    assert(135033996861786289893038776911099068416int / 115799121int == 1166105542906377414497289464840int);
    assert(pow(1031211int, 5) <= 1166105542906377414497289464840int < pow(1031211int + 1, 5)) by {
        reveal_with_fuel(pow, 6);
    }
    crate::roots::lemma_iroot_unique(1166105542906377414497289464840int, 5, 1031211int);
    assert(106523041int * 1031211int == 109847731632651int) by (nonlinear_arith);
    assert(a * a * 1031211int == 109847731632651int);
    assert(109847731632651int / 115799121int == 948605int);
    assert(srgb_to_linear_spec(244) == 948605);
    assert(948605int * 948605int == 899851446025int) by (nonlinear_arith);
    assert(899851446025int * 948605int == 853603580956545125int) by (nonlinear_arith);
    assert(853603580956545125int * 948605int == 809732624913283488300625int) by (nonlinear_arith);
    assert(809732624913283488300625int * 948605int == 768116416655865283419414378125int) by (nonlinear_arith);
    assert(768116416655865283419414378125int * 1048576int == 805428439711340595426795850956800000int) by (nonlinear_arith);
    assert(pow(982int, 12) <= 805428439711340595426795850956800000int < pow(982int + 1, 12)) by {
        reveal_with_fuel(pow, 13);
    }
    crate::roots::lemma_iroot_unique(805428439711340595426795850956800000int, 12, 982int);
    assert(538050int * 982int == 528365100int) by (nonlinear_arith);
    assert((528365100int - 27699200int) / 2048000int == 244int);
    assert(linear_to_srgb_spec(948605) == 244);
}
/// Round trip at byte value 245.
#[verifier::spinoff_prover]
proof fn case_245()
    ensures
        linear_to_srgb_spec(srgb_to_linear_spec(245)) == 245,
{
    let a = 40 * 245 + 561int;
    assert(a * a == 107350321int) by (nonlinear_arith)
        requires
            a == 10361,
    ;
    assert(107350321int * 0x10000000000000000000000000int == 136082698850343099512308969538842525696int) by (nonlinear_arith);
    assert(a * a * 0x10000000000000000000000000int == 136082698850343099512308969538842525696int);
    assert(136082698850343099512308969538842525696int / 115799121int == 1175161760082298893376824246695int);
    assert(pow(1032807int, 5) <= 1175161760082298893376824246695int < pow(1032807int + 1, 5)) by {
        reveal_with_fuel(pow, 6);
    }
    crate::roots::lemma_iroot_unique(1175161760082298893376824246695int, 5, 1032807int);
    assert(107350321int * 1032807int == 110872162981047int) by (nonlinear_arith);
    assert(a * a * 1032807int == 110872162981047int);
    assert(110872162981047int / 115799121int == 957452int);
    assert(srgb_to_linear_spec(245) == 957452);
    assert(957452int * 957452int == 916714332304int) by (nonlinear_arith);
    assert(916714332304int * 957452int == 877709970893129408int) by (nonlinear_arith);
    assert(877709970893129408int * 957452int == 840365167051568537948416int) by (nonlinear_arith);
    assert(840365167051568537948416int * 957452int == 804609309923858399795786796032int) by (nonlinear_arith);
    assert(804609309923858399795786796032int * 1048576int == 843694011762719745424266935436050432int) by (nonlinear_arith);
    assert(pow(985int, 12) <= 843694011762719745424266935436050432int < pow(985int + 1, 12)) by {
        reveal_with_fuel(pow, 13);
    }
    crate::roots::lemma_iroot_unique(843694011762719745424266935436050432int, 12, 985int);
    assert(538050int * 985int == 529979250int) by (nonlinear_arith);
    assert((529979250int - 27699200int) / 2048000int == 245int);
    assert(linear_to_srgb_spec(957452) == 245);
}
/// Round trip at byte value 246.
#[verifier::spinoff_prover]
proof fn case_246()
    ensures
        linear_to_srgb_spec(srgb_to_linear_spec(246)) == 246,
{
    let a = 40 * 246 + 561int;
    assert(a * a == 108180801int) by (nonlinear_arith)
        requires
            a == 10401,
    ;
    assert(108180801int * 0x10000000000000000000000000int == 137135457320820639465663951616843186176int) by (nonlinear_arith);
    assert(a * a * 0x10000000000000000000000000int == 137135457320820639465663951616843186176int);
    assert(137135457320820639465663951616843186176int / 115799121int == 1184253007592524294425895958371int);
    assert(pow(1034400int, 5) <= 1184253007592524294425895958371int < pow(1034400int + 1, 5)) by {
        reveal_with_fuel(pow, 6);
    }
    crate::roots::lemma_iroot_unique(1184253007592524294425895958371int, 5, 1034400int);
    assert(108180801int * 1034400int == 111902220554400int) by (nonlinear_arith);
    assert(a * a * 1034400int == 111902220554400int);
    assert(111902220554400int / 115799121int == 966347int);
    assert(srgb_to_linear_spec(246) == 966347);
    assert(966347int * 966347int == 933826524409int) by (nonlinear_arith);
    assert(933826524409int * 966347int == 902400460383063923int) by (nonlinear_arith);
    assert(902400460383063923int * 966347int == 872031977689792672799281int) by (nonlinear_arith);
    assert(872031977689792672799281int * 966347int == 842685485544598079981566796507int) by (nonlinear_arith);
    assert(842685485544598079981566796507int * 1048576int == 883619775690412476314751385214124032int) by (nonlinear_arith);
    assert(pow(989int, 12) <= 883619775690412476314751385214124032int < pow(989int + 1, 12)) by {
        reveal_with_fuel(pow, 13);
    }
    crate::roots::lemma_iroot_unique(883619775690412476314751385214124032int, 12, 989int);
    assert(538050int * 989int == 532131450int) by (nonlinear_arith);
    assert((532131450int - 27699200int) / 2048000int == 246int);
    assert(linear_to_srgb_spec(966347) == 246);
}
/// Round trip at byte value 247.
#[verifier::spinoff_prover]
proof fn case_247()
    ensures
        linear_to_srgb_spec(srgb_to_linear_spec(247)) == 247,
{
    let a = 40 * 247 + 561int;
    assert(a * a == 109014481int) by (nonlinear_arith)
        requires
            a == 10441,
    ;
    assert(109014481int * 0x10000000000000000000000000int == 138192272273218909753103723145101049856int) by (nonlinear_arith);
    assert(a * a * 0x10000000000000000000000000int == 138192272273218909753103723145101049856int);
    assert(138192272273218909753103723145101049856int / 115799121int == 1193379285437053617644504599867int);
    assert(pow(1035990int, 5) <= 1193379285437053617644504599867int < pow(1035990int + 1, 5)) by {
        reveal_with_fuel(pow, 6);
    }
    crate::roots::lemma_iroot_unique(1193379285437053617644504599867int, 5, 1035990int);
    assert(109014481int * 1035990int == 112937912171190int) by (nonlinear_arith);
    assert(a * a * 1035990int == 112937912171190int);
    assert(112937912171190int / 115799121int == 975291int);
    assert(srgb_to_linear_spec(247) == 975291);
    assert(975291int * 975291int == 951192534681int) by (nonlinear_arith);
    assert(951192534681int * 975291int == 927689518341567171int) by (nonlinear_arith);
    assert(927689518341567171int * 975291int == 904767238032865387771761int) by (nonlinear_arith);
    assert(904767238032865387771761int * 975291int == 882411344348311316905308557451int) by (nonlinear_arith);
    assert(882411344348311316905308557451int * 1048576int == 925275357811374887435300825937739776int) by (nonlinear_arith);
    assert(pow(993int, 12) <= 925275357811374887435300825937739776int < pow(993int + 1, 12)) by {
        reveal_with_fuel(pow, 13);
    }
    crate::roots::lemma_iroot_unique(925275357811374887435300825937739776int, 12, 993int);
    assert(538050int * 993int == 534283650int) by (nonlinear_arith);
    assert((534283650int - 27699200int) / 2048000int == 247int);
    assert(linear_to_srgb_spec(975291) == 247);
}
/// Round trip at byte value 248.
#[verifier::spinoff_prover]
proof fn case_248()
    ensures
        linear_to_srgb_spec(srgb_to_linear_spec(248)) == 248,
{
    let a = 40 * 248 + 561int;
    assert(a * a == 109851361int) by (nonlinear_arith)
        requires
            a == 10481,
    ;
    assert(109851361int * 0x10000000000000000000000000int == 139253143707537910374628284123616116736int) by (nonlinear_arith);
    assert(a * a * 0x10000000000000000000000000int == 139253143707537910374628284123616116736int);
    assert(139253143707537910374628284123616116736int / 115799121int == 1202540593615886863032650171184int);
    assert(pow(1037576int, 5) <= 1202540593615886863032650171184int < pow(1037576int + 1, 5)) by {
        reveal_with_fuel(pow, 6);
    }
    crate::roots::lemma_iroot_unique(1202540593615886863032650171184int, 5, 1037576int);
    assert(109851361int * 1037576int == 113979135740936int) by (nonlinear_arith);
    assert(a * a * 1037576int == 113979135740936int);
    assert(113979135740936int / 115799121int == 984283int);
    assert(srgb_to_linear_spec(248) == 984283);
    assert(984283int * 984283int == 968813024089int) by (nonlinear_arith);
    assert(968813024089int * 984283int == 953586189789393187int) by (nonlinear_arith);
    assert(953586189789393187int * 984283int == 938598675644473294279921int) by (nonlinear_arith);
    assert(938598675644473294279921int * 984283int == 923846720259369107513723481643int) by (nonlinear_arith);
    assert(923846720259369107513723481643int * 1048576int == 968723498542688221280310113487290368int) by (nonlinear_arith);
    assert(pow(997int, 12) <= 968723498542688221280310113487290368int < pow(997int + 1, 12)) by {
        reveal_with_fuel(pow, 13);
    }
    crate::roots::lemma_iroot_unique(968723498542688221280310113487290368int, 12, 997int);
    assert(538050int * 997int == 536435850int) by (nonlinear_arith);
    assert((536435850int - 27699200int) / 2048000int == 248int);
    assert(linear_to_srgb_spec(984283) == 248);
}
/// Round trip at byte value 249.
#[verifier::spinoff_prover]
proof fn case_249()
    ensures
        linear_to_srgb_spec(srgb_to_linear_spec(249)) == 249,
{
    let a = 40 * 249 + 561int;
    assert(a * a == 110691441int) by (nonlinear_arith)
        requires
            a == 10521,
    ;
    assert(110691441int * 0x10000000000000000000000000int == 140318071623777641330237634552388386816int) by (nonlinear_arith);
    assert(a * a * 0x10000000000000000000000000int == 140318071623777641330237634552388386816int);
    assert(140318071623777641330237634552388386816int / 115799121int == 1211736932129024030590332672321int);
    assert(pow(1039158int, 5) <= 1211736932129024030590332672321int < pow(1039158int + 1, 5)) by {
        reveal_with_fuel(pow, 6);
    }
    crate::roots::lemma_iroot_unique(1211736932129024030590332672321int, 5, 1039158int);
    assert(110691441int * 1039158int == 115025896446678int) by (nonlinear_arith);
    assert(a * a * 1039158int == 115025896446678int);
    assert(115025896446678int / 115799121int == 993322int);
    assert(srgb_to_linear_spec(249) == 993322);
    assert(993322int * 993322int == 986688595684int) by (nonlinear_arith);
    assert(986688595684int * 993322int == 980099489242022248int) by (nonlinear_arith);
    assert(980099489242022248int * 993322int == 973554384852864023427856int) by (nonlinear_arith);
    assert(973554384852864023427856int * 993322int == 967052988670816597479404777632int) by (nonlinear_arith);
    assert(967052988670816597479404777632int * 1048576int == 1014028554648490184518564344110252032int) by (nonlinear_arith);
    assert(pow(1001int, 12) <= 1014028554648490184518564344110252032int < pow(1001int + 1, 12)) by {
        reveal_with_fuel(pow, 13);
    }
    crate::roots::lemma_iroot_unique(1014028554648490184518564344110252032int, 12, 1001int);
    assert(538050int * 1001int == 538588050int) by (nonlinear_arith);
    assert((538588050int - 27699200int) / 2048000int == 249int);
    assert(linear_to_srgb_spec(993322) == 249);
}
/// Round trip at byte value 250.
#[verifier::spinoff_prover]
proof fn case_250()
    ensures
        linear_to_srgb_spec(srgb_to_linear_spec(250)) == 250,
{
    let a = 40 * 250 + 561int;
    assert(a * a == 111534721int) by (nonlinear_arith)
        requires
            a == 10561,
    ;
    assert(111534721int * 0x10000000000000000000000000int == 141387056021938102619931774431417860096int) by (nonlinear_arith);
    assert(a * a * 0x10000000000000000000000000int == 141387056021938102619931774431417860096int);
    assert(141387056021938102619931774431417860096int / 115799121int == 1220968300976465120317552103279int);
    assert(pow(1040736int, 5) <= 1220968300976465120317552103279int < pow(1040736int + 1, 5)) by {
        reveal_with_fuel(pow, 6);
    }
    crate::roots::lemma_iroot_unique(1220968300976465120317552103279int, 5, 1040736int);
    assert(111534721int * 1040736int == 116078199394656int) by (nonlinear_arith);
    assert(a * a * 1040736int == 116078199394656int);
    assert(116078199394656int / 115799121int == 1002410int);
    assert(srgb_to_linear_spec(250) == 1002410);
    assert(1002410int * 1002410int == 1004825808100int) by (nonlinear_arith);
    assert(1004825808100int * 1002410int == 1007247438297521000int) by (nonlinear_arith);
    assert(1007247438297521000int * 1002410int == 1009674904623818025610000int) by (nonlinear_arith);
    assert(1009674904623818025610000int * 1002410int == 1012108221143961427051720100000int) by (nonlinear_arith);
    assert(1012108221143961427051720100000int * 1048576int == 1061272390094250497332184455577600000int) by (nonlinear_arith);
    assert(pow(1004int, 12) <= 1061272390094250497332184455577600000int < pow(1004int + 1, 12)) by {
        reveal_with_fuel(pow, 13);
    }
    crate::roots::lemma_iroot_unique(1061272390094250497332184455577600000int, 12, 1004int);
    assert(538050int * 1004int == 540202200int) by (nonlinear_arith);
    assert((540202200int - 27699200int) / 2048000int == 250int);
    assert(linear_to_srgb_spec(1002410) == 250);
}
/// Round trip at byte value 251.
#[verifier::spinoff_prover]
proof fn case_251()
    ensures
        linear_to_srgb_spec(srgb_to_linear_spec(251)) == 251,
{
    let a = 40 * 251 + 561int;
    assert(a * a == 112381201int) by (nonlinear_arith)
        requires
            a == 10601,
    ;
    assert(112381201int * 0x10000000000000000000000000int == 142460096902019294243710703760704536576int) by (nonlinear_arith);
    assert(a * a * 0x10000000000000000000000000int == 142460096902019294243710703760704536576int);
    assert(142460096902019294243710703760704536576int / 115799121int == 1230234700158210132214308464057int);
    assert(pow(1042311int, 5) <= 1230234700158210132214308464057int < pow(1042311int + 1, 5)) by {
        reveal_with_fuel(pow, 6);
    }
    crate::roots::lemma_iroot_unique(1230234700158210132214308464057int, 5, 1042311int);
    assert(112381201int * 1042311int == 117136161995511int) by (nonlinear_arith);
    assert(a * a * 1042311int == 117136161995511int);
    assert(117136161995511int / 115799121int == 1011546int);
    assert(srgb_to_linear_spec(251) == 1011546);
    assert(1011546int * 1011546int == 1023225310116int) by (nonlinear_arith);
    assert(1023225310116int * 1011546int == 1035039469546599336int) by (nonlinear_arith);
    assert(1035039469546599336int * 1011546int == 1046990035261984371933456int) by (nonlinear_arith);
    assert(1046990035261984371933456int * 1011546int == 1059078582209119243491799682976int) by (nonlinear_arith);
    assert(1059078582209119243491799682976int * 1048576int == 1110524383418509419863657344376242176int) by (nonlinear_arith);
    assert(pow(1008int, 12) <= 1110524383418509419863657344376242176int < pow(1008int + 1, 12)) by {
        reveal_with_fuel(pow, 13);
    }
    crate::roots::lemma_iroot_unique(1110524383418509419863657344376242176int, 12, 1008int);
    assert(538050int * 1008int == 542354400int) by (nonlinear_arith);
    assert((542354400int - 27699200int) / 2048000int == 251int);
    assert(linear_to_srgb_spec(1011546) == 251);
}
/// Round trip at byte value 252.
#[verifier::spinoff_prover]
proof fn case_252()
    ensures
        linear_to_srgb_spec(srgb_to_linear_spec(252)) == 252,
{
    let a = 40 * 252 + 561int;
    assert(a * a == 113230881int) by (nonlinear_arith)
        requires
            a == 10641,
    ;
    assert(113230881int * 0x10000000000000000000000000int == 143537194264021216201574422540248416256int) by (nonlinear_arith);
    assert(a * a * 0x10000000000000000000000000int == 143537194264021216201574422540248416256int);
    assert(143537194264021216201574422540248416256int / 115799121int == 1239536129674259066280601754656int);
    assert(pow(1043883int, 5) <= 1239536129674259066280601754656int < pow(1043883int + 1, 5)) by {
        reveal_with_fuel(pow, 6);
    }
    crate::roots::lemma_iroot_unique(1239536129674259066280601754656int, 5, 1043883int);
    assert(113230881int * 1043883int == 118199791750923int) by (nonlinear_arith);
    assert(a * a * 1043883int == 118199791750923int);
    assert(118199791750923int / 115799121int == 1020731int);
    assert(srgb_to_linear_spec(252) == 1020731);
    assert(1020731int * 1020731int == 1041891774361int) by (nonlinear_arith);
    assert(1041891774361int * 1020731int == 1063491232735277891int) by (nonlinear_arith);
    assert(1063491232735277891int * 1020731int == 1085538469481112936958321int) by (nonlinear_arith);
    assert(1085538469481112936958321int * 1020731int == 1108042767491925889254403952651int) by (nonlinear_arith);
    assert(1108042767491925889254403952651int * 1048576int == 1161867052965613681250825879054974976int) by (nonlinear_arith);
    assert(pow(1012int, 12) <= 1161867052965613681250825879054974976int < pow(1012int + 1, 12)) by {
        reveal_with_fuel(pow, 13);
    }
    crate::roots::lemma_iroot_unique(1161867052965613681250825879054974976int, 12, 1012int);
    assert(538050int * 1012int == 544506600int) by (nonlinear_arith);
    assert((544506600int - 27699200int) / 2048000int == 252int);
    assert(linear_to_srgb_spec(1020731) == 252);
}
/// Round trip at byte value 253.
#[verifier::spinoff_prover]
proof fn case_253()
    ensures
        linear_to_srgb_spec(srgb_to_linear_spec(253)) == 253,
{
    let a = 40 * 253 + 561int;
    assert(a * a == 114083761int) by (nonlinear_arith)
        requires
            a == 10681,
    ;
    assert(114083761int * 0x10000000000000000000000000int == 144618348107943868493522930770049499136int) by (nonlinear_arith);
    assert(a * a * 0x10000000000000000000000000int == 144618348107943868493522930770049499136int);
    assert(144618348107943868493522930770049499136int / 115799121int == 1248872589524611922516431975075int);
    assert(pow(1045450int, 5) <= 1248872589524611922516431975075int < pow(1045450int + 1, 5)) by {
        reveal_with_fuel(pow, 6);
    }
    crate::roots::lemma_iroot_unique(1248872589524611922516431975075int, 5, 1045450int);
    assert(114083761int * 1045450int == 119268867937450int) by (nonlinear_arith);
    assert(a * a * 1045450int == 119268867937450int);
    assert(119268867937450int / 115799121int == 1029963int);
    assert(srgb_to_linear_spec(253) == 1029963);
    assert(1029963int * 1029963int == 1060823781369int) by (nonlinear_arith);
    assert(1060823781369int * 1029963int == 1092609244330159347int) by (nonlinear_arith);
    assert(1092609244330159347int * 1029963int == 1125347095118023911514161int) by (nonlinear_arith);
    assert(1125347095118023911514161int * 1029963int == 1159065870129045261974859806043int) by (nonlinear_arith);
    assert(1159065870129045261974859806043int * 1048576int == 1215368653836433764620550595981344768int) by (nonlinear_arith);
    assert(pow(1016int, 12) <= 1215368653836433764620550595981344768int < pow(1016int + 1, 12)) by {
        reveal_with_fuel(pow, 13);
    }
    crate::roots::lemma_iroot_unique(1215368653836433764620550595981344768int, 12, 1016int);
    assert(538050int * 1016int == 546658800int) by (nonlinear_arith);
    assert((546658800int - 27699200int) / 2048000int == 253int);
    assert(linear_to_srgb_spec(1029963) == 253);
}
/// Round trip at byte value 254.
#[verifier::spinoff_prover]
proof fn case_254()
    ensures
        linear_to_srgb_spec(srgb_to_linear_spec(254)) == 254,
{
    let a = 40 * 254 + 561int;
    assert(a * a == 114939841int) by (nonlinear_arith)
        requires
            a == 10721,
    ;
    assert(114939841int * 0x10000000000000000000000000int == 145703558433787251119556228450107785216int) by (nonlinear_arith);
    assert(a * a * 0x10000000000000000000000000int == 145703558433787251119556228450107785216int);
    assert(145703558433787251119556228450107785216int / 115799121int == 1258244079709268700921799125315int);
    assert(pow(1047015int, 5) <= 1258244079709268700921799125315int < pow(1047015int + 1, 5)) by {
        reveal_with_fuel(pow, 6);
    }
    crate::roots::lemma_iroot_unique(1258244079709268700921799125315int, 5, 1047015int);
    assert(114939841int * 1047015int == 120343737624615int) by (nonlinear_arith);
    assert(a * a * 1047015int == 120343737624615int);
    assert(120343737624615int / 115799121int == 1039245int);
    assert(srgb_to_linear_spec(254) == 1039245);
    assert(1039245int * 1039245int == 1080030170025int) by (nonlinear_arith);
    assert(1080030170025int * 1039245int == 1122415954047631125int) by (nonlinear_arith);
    assert(1122415954047631125int * 1039245int == 1166465168164230408500625int) by (nonlinear_arith);
    assert(1166465168164230408500625int * 1039245int == 1212243093688835630882232028125int) by (nonlinear_arith);
    assert(1212243093688835630882232028125int * 1048576int == 1271129014207864510487967331123200000int) by (nonlinear_arith);
    assert(pow(1020int, 12) <= 1271129014207864510487967331123200000int < pow(1020int + 1, 12)) by {
        reveal_with_fuel(pow, 13);
    }
    crate::roots::lemma_iroot_unique(1271129014207864510487967331123200000int, 12, 1020int);
    assert(538050int * 1020int == 548811000int) by (nonlinear_arith);
    assert((548811000int - 27699200int) / 2048000int == 254int);
    assert(linear_to_srgb_spec(1039245) == 254);
}
/// Round trip at byte value 255.
#[verifier::spinoff_prover]
proof fn case_255()
    ensures
        linear_to_srgb_spec(srgb_to_linear_spec(255)) == 255,
{
    let a = 40 * 255 + 561int;
    assert(a * a == 115799121int) by (nonlinear_arith)
        requires
            a == 10761,
    ;
    assert(115799121int * 0x10000000000000000000000000int == 146792825241551364079674315580423274496int) by (nonlinear_arith);
    assert(a * a * 0x10000000000000000000000000int == 146792825241551364079674315580423274496int);
    assert(146792825241551364079674315580423274496int / 115799121int == 1267650600228229401496703205376int);
    assert(pow(1048576int, 5) <= 1267650600228229401496703205376int < pow(1048576int + 1, 5)) by {
        reveal_with_fuel(pow, 6);
    }
    crate::roots::lemma_iroot_unique(1267650600228229401496703205376int, 5, 1048576int);
    assert(115799121int * 1048576int == 121424179101696int) by (nonlinear_arith);
    assert(a * a * 1048576int == 121424179101696int);
    assert(121424179101696int / 115799121int == 1048576int);
    assert(srgb_to_linear_spec(255) == 1048576);
    assert(1048576int * 1048576int == 1099511627776int) by (nonlinear_arith);
    assert(1099511627776int * 1048576int == 1152921504606846976int) by (nonlinear_arith);
    assert(1152921504606846976int * 1048576int == 1208925819614629174706176int) by (nonlinear_arith);
    assert(1208925819614629174706176int * 1048576int == 1267650600228229401496703205376int) by (nonlinear_arith);
    assert(1267650600228229401496703205376int * 1048576int == 1329227995784915872903807060280344576int) by (nonlinear_arith);
    assert(pow(1024int, 12) <= 1329227995784915872903807060280344576int < pow(1024int + 1, 12)) by {
        reveal_with_fuel(pow, 13);
    }
    crate::roots::lemma_iroot_unique(1329227995784915872903807060280344576int, 12, 1024int);
    assert(538050int * 1024int == 550963200int) by (nonlinear_arith);
    assert((550963200int - 27699200int) / 2048000int == 255int);
    assert(linear_to_srgb_spec(1048576) == 255);
}
/// Round trip for byte values 0 through 31.
#[verifier::spinoff_prover]
proof fn group_0(b: int)
    requires
        0 <= b <= 31,
    ensures
        linear_to_srgb_spec(srgb_to_linear_spec(b)) == b,
{
    if b == 0 {
        case_0();
    } else if b == 1 {
        case_1();
    } else if b == 2 {
        case_2();
    } else if b == 3 {
        case_3();
    } else if b == 4 {
        case_4();
    } else if b == 5 {
        case_5();
    } else if b == 6 {
        case_6();
    } else if b == 7 {
        case_7();
    } else if b == 8 {
        case_8();
    } else if b == 9 {
        case_9();
    } else if b == 10 {
        case_10();
    } else if b == 11 {
        case_11();
    } else if b == 12 {
        case_12();
    } else if b == 13 {
        case_13();
    } else if b == 14 {
        case_14();
    } else if b == 15 {
        case_15();
    } else if b == 16 {
        case_16();
    } else if b == 17 {
        case_17();
    } else if b == 18 {
        case_18();
    } else if b == 19 {
        case_19();
    } else if b == 20 {
        case_20();
    } else if b == 21 {
        case_21();
    } else if b == 22 {
        case_22();
    } else if b == 23 {
        case_23();
    } else if b == 24 {
        case_24();
    } else if b == 25 {
        case_25();
    } else if b == 26 {
        case_26();
    } else if b == 27 {
        case_27();
    } else if b == 28 {
        case_28();
    } else if b == 29 {
        case_29();
    } else if b == 30 {
        case_30();
    } else if b == 31 {
        case_31();
    }
}
/// Round trip for byte values 32 through 63.
#[verifier::spinoff_prover]
proof fn group_1(b: int)
    requires
        32 <= b <= 63,
    ensures
        linear_to_srgb_spec(srgb_to_linear_spec(b)) == b,
{
    if b == 32 {
        case_32();
    } else if b == 33 {
        case_33();
    } else if b == 34 {
        case_34();
    } else if b == 35 {
        case_35();
    } else if b == 36 {
        case_36();
    } else if b == 37 {
        case_37();
    } else if b == 38 {
        case_38();
    } else if b == 39 {
        case_39();
    } else if b == 40 {
        case_40();
    } else if b == 41 {
        case_41();
    } else if b == 42 {
        case_42();
    } else if b == 43 {
        case_43();
    } else if b == 44 {
        case_44();
    } else if b == 45 {
        case_45();
    } else if b == 46 {
        case_46();
    } else if b == 47 {
        case_47();
    } else if b == 48 {
        case_48();
    } else if b == 49 {
        case_49();
    } else if b == 50 {
        case_50();
    } else if b == 51 {
        case_51();
    } else if b == 52 {
        case_52();
    } else if b == 53 {
        case_53();
    } else if b == 54 {
        case_54();
    } else if b == 55 {
        case_55();
    } else if b == 56 {
        case_56();
    } else if b == 57 {
        case_57();
    } else if b == 58 {
        case_58();
    } else if b == 59 {
        case_59();
    } else if b == 60 {
        case_60();
    } else if b == 61 {
        case_61();
    } else if b == 62 {
        case_62();
    } else if b == 63 {
        case_63();
    }
}
/// Round trip for byte values 64 through 95.
#[verifier::spinoff_prover]
proof fn group_2(b: int)
    requires
        64 <= b <= 95,
    ensures
        linear_to_srgb_spec(srgb_to_linear_spec(b)) == b,
{
    if b == 64 {
        case_64();
    } else if b == 65 {
        case_65();
    } else if b == 66 {
        case_66();
    } else if b == 67 {
        case_67();
    } else if b == 68 {
        case_68();
    } else if b == 69 {
        case_69();
    } else if b == 70 {
        case_70();
    } else if b == 71 {
        case_71();
    } else if b == 72 {
        case_72();
    } else if b == 73 {
        case_73();
    } else if b == 74 {
        case_74();
    } else if b == 75 {
        case_75();
    } else if b == 76 {
        case_76();
    } else if b == 77 {
        case_77();
    } else if b == 78 {
        case_78();
    } else if b == 79 {
        case_79();
    } else if b == 80 {
        case_80();
    } else if b == 81 {
        case_81();
    } else if b == 82 {
        case_82();
    } else if b == 83 {
        case_83();
    } else if b == 84 {
        case_84();
    } else if b == 85 {
        case_85();
    } else if b == 86 {
        case_86();
    } else if b == 87 {
        case_87();
    } else if b == 88 {
        case_88();
    } else if b == 89 {
        case_89();
    } else if b == 90 {
        case_90();
    } else if b == 91 {
        case_91();
    } else if b == 92 {
        case_92();
    } else if b == 93 {
        case_93();
    } else if b == 94 {
        case_94();
    } else if b == 95 {
        case_95();
    }
}
/// Round trip for byte values 96 through 127.
#[verifier::spinoff_prover]
proof fn group_3(b: int)
    requires
        96 <= b <= 127,
    ensures
        linear_to_srgb_spec(srgb_to_linear_spec(b)) == b,
{
    if b == 96 {
        case_96();
    } else if b == 97 {
        case_97();
    } else if b == 98 {
        case_98();
    } else if b == 99 {
        case_99();
    } else if b == 100 {
        case_100();
    } else if b == 101 {
        case_101();
    } else if b == 102 {
        case_102();
    } else if b == 103 {
        case_103();
    } else if b == 104 {
        case_104();
    } else if b == 105 {
        case_105();
    } else if b == 106 {
        case_106();
    } else if b == 107 {
        case_107();
    } else if b == 108 {
        case_108();
    } else if b == 109 {
        case_109();
    } else if b == 110 {
        case_110();
    } else if b == 111 {
        case_111();
    } else if b == 112 {
        case_112();
    } else if b == 113 {
        case_113();
    } else if b == 114 {
        case_114();
    } else if b == 115 {
        case_115();
    } else if b == 116 {
        case_116();
    } else if b == 117 {
        case_117();
    } else if b == 118 {
        case_118();
    } else if b == 119 {
        case_119();
    } else if b == 120 {
        case_120();
    } else if b == 121 {
        case_121();
    } else if b == 122 {
        case_122();
    } else if b == 123 {
        case_123();
    } else if b == 124 {
        case_124();
    } else if b == 125 {
        case_125();
    } else if b == 126 {
        case_126();
    } else if b == 127 {
        case_127();
    }
}
/// Round trip for byte values 128 through 159.
#[verifier::spinoff_prover]
proof fn group_4(b: int)
    requires
        128 <= b <= 159,
    ensures
        linear_to_srgb_spec(srgb_to_linear_spec(b)) == b,
{
    if b == 128 {
        case_128();
    } else if b == 129 {
        case_129();
    } else if b == 130 {
        case_130();
    } else if b == 131 {
        case_131();
    } else if b == 132 {
        case_132();
    } else if b == 133 {
        case_133();
    } else if b == 134 {
        case_134();
    } else if b == 135 {
        case_135();
    } else if b == 136 {
        case_136();
    } else if b == 137 {
        case_137();
    } else if b == 138 {
        case_138();
    } else if b == 139 {
        case_139();
    } else if b == 140 {
        case_140();
    } else if b == 141 {
        case_141();
    } else if b == 142 {
        case_142();
    } else if b == 143 {
        case_143();
    } else if b == 144 {
        case_144();
    } else if b == 145 {
        case_145();
    } else if b == 146 {
        case_146();
    } else if b == 147 {
        case_147();
    } else if b == 148 {
        case_148();
    } else if b == 149 {
        case_149();
    } else if b == 150 {
        case_150();
    } else if b == 151 {
        case_151();
    } else if b == 152 {
        case_152();
    } else if b == 153 {
        case_153();
    } else if b == 154 {
        case_154();
    } else if b == 155 {
        case_155();
    } else if b == 156 {
        case_156();
    } else if b == 157 {
        case_157();
    } else if b == 158 {
        case_158();
    } else if b == 159 {
        case_159();
    }
}
/// Round trip for byte values 160 through 191.
#[verifier::spinoff_prover]
proof fn group_5(b: int)
    requires
        160 <= b <= 191,
    ensures
        linear_to_srgb_spec(srgb_to_linear_spec(b)) == b,
{
    if b == 160 {
        case_160();
    } else if b == 161 {
        case_161();
    } else if b == 162 {
        case_162();
    } else if b == 163 {
        case_163();
    } else if b == 164 {
        case_164();
    } else if b == 165 {
        case_165();
    } else if b == 166 {
        case_166();
    } else if b == 167 {
        case_167();
    } else if b == 168 {
        case_168();
    } else if b == 169 {
        case_169();
    } else if b == 170 {
        case_170();
    } else if b == 171 {
        case_171();
    } else if b == 172 {
        case_172();
    } else if b == 173 {
        case_173();
    } else if b == 174 {
        case_174();
    } else if b == 175 {
        case_175();
    } else if b == 176 {
        case_176();
    } else if b == 177 {
        case_177();
    } else if b == 178 {
        case_178();
    } else if b == 179 {
        case_179();
    } else if b == 180 {
        case_180();
    } else if b == 181 {
        case_181();
    } else if b == 182 {
        case_182();
    } else if b == 183 {
        case_183();
    } else if b == 184 {
        case_184();
    } else if b == 185 {
        case_185();
    } else if b == 186 {
        case_186();
    } else if b == 187 {
        case_187();
    } else if b == 188 {
        case_188();
    } else if b == 189 {
        case_189();
    } else if b == 190 {
        case_190();
    } else if b == 191 {
        case_191();
    }
}
/// Round trip for byte values 192 through 223.
#[verifier::spinoff_prover]
proof fn group_6(b: int)
    requires
        192 <= b <= 223,
    ensures
        linear_to_srgb_spec(srgb_to_linear_spec(b)) == b,
{
    if b == 192 {
        case_192();
    } else if b == 193 {
        case_193();
    } else if b == 194 {
        case_194();
    } else if b == 195 {
        case_195();
    } else if b == 196 {
        case_196();
    } else if b == 197 {
        case_197();
    } else if b == 198 {
        case_198();
    } else if b == 199 {
        case_199();
    } else if b == 200 {
        case_200();
    } else if b == 201 {
        case_201();
    } else if b == 202 {
        case_202();
    } else if b == 203 {
        case_203();
    } else if b == 204 {
        case_204();
    } else if b == 205 {
        case_205();
    } else if b == 206 {
        case_206();
    } else if b == 207 {
        case_207();
    } else if b == 208 {
        case_208();
    } else if b == 209 {
        case_209();
    } else if b == 210 {
        case_210();
    } else if b == 211 {
        case_211();
    } else if b == 212 {
        case_212();
    } else if b == 213 {
        case_213();
    } else if b == 214 {
        case_214();
    } else if b == 215 {
        case_215();
    } else if b == 216 {
        case_216();
    } else if b == 217 {
        case_217();
    } else if b == 218 {
        case_218();
    } else if b == 219 {
        case_219();
    } else if b == 220 {
        case_220();
    } else if b == 221 {
        case_221();
    } else if b == 222 {
        case_222();
    } else if b == 223 {
        case_223();
    }
}
/// Round trip for byte values 224 through 255.
#[verifier::spinoff_prover]
proof fn group_7(b: int)
    requires
        224 <= b <= 255,
    ensures
        linear_to_srgb_spec(srgb_to_linear_spec(b)) == b,
{
    if b == 224 {
        case_224();
    } else if b == 225 {
        case_225();
    } else if b == 226 {
        case_226();
    } else if b == 227 {
        case_227();
    } else if b == 228 {
        case_228();
    } else if b == 229 {
        case_229();
    } else if b == 230 {
        case_230();
    } else if b == 231 {
        case_231();
    } else if b == 232 {
        case_232();
    } else if b == 233 {
        case_233();
    } else if b == 234 {
        case_234();
    } else if b == 235 {
        case_235();
    } else if b == 236 {
        case_236();
    } else if b == 237 {
        case_237();
    } else if b == 238 {
        case_238();
    } else if b == 239 {
        case_239();
    } else if b == 240 {
        case_240();
    } else if b == 241 {
        case_241();
    } else if b == 242 {
        case_242();
    } else if b == 243 {
        case_243();
    } else if b == 244 {
        case_244();
    } else if b == 245 {
        case_245();
    } else if b == 246 {
        case_246();
    } else if b == 247 {
        case_247();
    } else if b == 248 {
        case_248();
    } else if b == 249 {
        case_249();
    } else if b == 250 {
        case_250();
    } else if b == 251 {
        case_251();
    } else if b == 252 {
        case_252();
    } else if b == 253 {
        case_253();
    } else if b == 254 {
        case_254();
    } else if b == 255 {
        case_255();
    }
}
/// Color round trip: converting any sRGB byte to fixed-point linear
/// light and back returns exactly the same byte.
pub proof fn lemma_color_roundtrip(b: int)
    requires
        0 <= b <= 255,
    ensures
        linear_to_srgb_spec(srgb_to_linear_spec(b)) == b,
{
    if b <= 31 {
        group_0(b);
    } else if b <= 63 {
        group_1(b);
    } else if b <= 95 {
        group_2(b);
    } else if b <= 127 {
        group_3(b);
    } else if b <= 159 {
        group_4(b);
    } else if b <= 191 {
        group_5(b);
    } else if b <= 223 {
        group_6(b);
    } else {
        group_7(b);
    }
}

} // verus!
