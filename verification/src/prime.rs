//! The order of the secp256k1 scalar field is a prime number.
//!
//! The proof is a Pocklington certificate. For each prime of the chain there is
//! an element whose order is a prime proved before it; the order is shown by
//! repeated squaring, one step per call, with the quotient of each reduction
//! written out.
use vstd::arithmetic::power::*;
use vstd::prelude::*;

use crate::arith;

verus! {

/// The order of the scalar field of secp256k1.
pub open spec fn modulus() -> int {
    0xffffffff_ffffffff_ffffffff_fffffffe_baaedce6_af48a03b_bfd25e8c_d0364141int
}

/// One squaring: from the power `e` to the power `2 * e`.
proof fn square(u: int, n: int, e: int, x: int, k: int, y: int) -> (f: int)
    requires
        e >= 0,
        pow(u, e as nat) % n == x,
        0 <= y < n,
        x * x == k * n + y,
    ensures
        f == 2 * e,
        pow(u, f as nat) % n == y,
{
    lemma_pow_adds(u, e as nat, e as nat);
    arith::mod_idem(pow(u, e as nat), n);
    arith::cong_mul(pow(u, e as nat), x, pow(u, e as nat), x, n);
    assert(x * x == y + n * k) by (nonlinear_arith)
        requires
            x * x == k * n + y,
    ;
    arith::cong_intro(x * x, y, k, n);
    arith::mod_small(y, n);
    2 * e
}

/// One squaring and a multiplication: from the power `e` to `2 * e + 1`.
proof fn square_times(u: int, n: int, e: int, x: int, k: int, y: int) -> (f: int)
    requires
        e >= 0,
        pow(u, e as nat) % n == x,
        0 <= y < n,
        x * x * u == k * n + y,
    ensures
        f == 2 * e + 1,
        pow(u, f as nat) % n == y,
{
    lemma_pow_adds(u, e as nat, e as nat);
    lemma_pow_adds(u, (2 * e) as nat, 1);
    lemma_pow1(u);
    arith::mod_idem(pow(u, e as nat), n);
    arith::cong_mul(pow(u, e as nat), x, pow(u, e as nat), x, n);
    arith::cong_mul(pow(u, (2 * e) as nat), x * x, u, u, n);
    assert(x * x * u == y + n * k) by (nonlinear_arith)
        requires
            x * x * u == k * n + y,
    ;
    arith::cong_intro(x * x * u, y, k, n);
    arith::mod_small(y, n);
    2 * e + 1
}

/// The chain starts at the element itself.
proof fn first_power(u: int, n: int) -> (e: int)
    requires
        0 <= u < n,
    ensures
        e == 1,
        pow(u, e as nat) % n == u,
{
    lemma_pow1(u);
    arith::mod_small(u, n);
    1
}

/// `i` is the inverse of `u - 1`, with the quotient `k` of the reduction.
proof fn unit(u: int, i: int, k: int, n: int)
    requires
        n > 1,
        (u - 1) * i == k * n + 1,
    ensures
        ((u - 1) * i) % n == 1,
{
    assert((u - 1) * i == 1 + n * k) by (nonlinear_arith)
        requires
            (u - 1) * i == k * n + 1,
    ;
    arith::cong_intro((u - 1) * i, 1, k, n);
    arith::mod_small(1, n);
}


proof fn prime_19()
    ensures
        arith::is_prime(19),
{
    assert forall|d: int| 2 <= d < 5 implies !arith::divides(d, 19) by {
        assert(19int % d != 0) by (nonlinear_arith)
            requires
                2 <= d < 5,
        ;
    }
    arith::prime_by_trial(19, 5);
}


proof fn prime_113()
    ensures
        arith::is_prime(113),
{
    assert forall|d: int| 2 <= d < 11 implies !arith::divides(d, 113) by {
        assert(113int % d != 0) by (nonlinear_arith)
            requires
                2 <= d < 11,
        ;
    }
    arith::prime_by_trial(113, 11);
}


proof fn prime_1409()
    ensures
        arith::is_prime(1409),
{
    assert forall|d: int| 2 <= d < 38 implies !arith::divides(d, 1409) by {
        assert(1409int % d != 0) by (nonlinear_arith)
            requires
                2 <= d < 38,
        ;
    }
    arith::prime_by_trial(1409, 38);
}


proof fn prime_1871()
    ensures
        arith::is_prime(1871),
{
    assert forall|d: int| 2 <= d < 44 implies !arith::divides(d, 1871) by {
        assert(1871int % d != 0) by (nonlinear_arith)
            requires
                2 <= d < 44,
        ;
    }
    arith::prime_by_trial(1871, 44);
}


proof fn prime_9349()
    ensures
        arith::is_prime(9349),
{
    assert forall|d: int| 2 <= d < 97 implies !arith::divides(d, 9349) by {
        assert(9349int % d != 0) by (nonlinear_arith)
            requires
                2 <= d < 97,
        ;
    }
    arith::prime_by_trial(9349, 97);
}


proof fn prime_28181()
    ensures
        arith::is_prime(28181),
{
    prime_1409();
    let e = first_power(5879int, 28181int);
    let e = square(5879int, 28181int, e, 5879int, 1226int, 12735int);
    let e = square_times(5879int, 28181int, e, 12735int, 33833346int, 19149int);
    let e = square_times(5879int, 28181int, e, 19149int, 76496093int, 20846int);
    let e = square(5879int, 28181int, e, 20846int, 15420int, 4696int);
    let e = square(5879int, 28181int, e, 4696int, 782int, 14874int);
    let e = square(5879int, 28181int, e, 14874int, 7850int, 15026int);
    let e = square(5879int, 28181int, e, 15026int, 8011int, 22685int);
    let e = square(5879int, 28181int, e, 22685int, 18260int, 24165int);
    let e = square(5879int, 28181int, e, 24165int, 20721int, 8724int);
    let e = square_times(5879int, 28181int, e, 8724int, 15877363int, 1int);
    assert(e == 1409int);
    unit(5879int, 16200int, 3379int, 28181int);
    arith::prime_by_order(28181int, 1409int, 5879int, 16200int);
}


proof fn order_113_of_120233()
    ensures
        pow(32912int, 113int as nat) % 120233int == 1,
{
    let e = first_power(32912int, 120233int);
    let e = square_times(32912int, 120233int, e, 32912int, 296509859int, 97381int);
    let e = square_times(32912int, 120233int, e, 97381int, 2595846756int, 92684int);
    let e = square(32912int, 120233int, e, 92684int, 71447int, 36705int);
    let e = square(32912int, 120233int, e, 36705int, 11205int, 46260int);
    let e = square(32912int, 120233int, e, 46260int, 17798int, 80666int);
    let e = square_times(32912int, 120233int, e, 80666int, 1781195687int, 1int);
    assert(e == 113int);
}


proof fn order_19_of_120233()
    ensures
        pow(76217int, 19int as nat) % 120233int == 1,
{
    let e = first_power(76217int, 120233int);
    let e = square(76217int, 120233int, e, 76217int, 48314int, 93927int);
    let e = square(76217int, 120233int, e, 93927int, 73376int, 64721int);
    let e = square_times(76217int, 120233int, e, 64721int, 2655330626int, 61639int);
    let e = square_times(76217int, 120233int, e, 61639int, 2408459432int, 1int);
    assert(e == 19int);
}


proof fn prime_120233()
    ensures
        arith::is_prime(120233int),
{
    prime_113();
    prime_19();
    order_113_of_120233();
    order_19_of_120233();
    unit(32912int, 118505int, 32438int, 120233int);
    unit(76217int, 83923int, 53199int, 120233int);
    arith::prime_by_two_orders(120233int, 113int, 19int, 32912int, 118505int, 76217int, 83923int);
}


proof fn prime_1627771()
    ensures
        arith::is_prime(1627771),
{
    prime_1871();
    let e = first_power(910796int, 1627771int);
    let e = square_times(910796int, 1627771int, e, 910796int, 464162485433int, 278493int);
    let e = square_times(910796int, 1627771int, e, 278493int, 43396666915int, 1128539int);
    let e = square(910796int, 1627771int, e, 1128539int, 782419int, 1316472int);
    let e = square_times(910796int, 1627771int, e, 1316472int, 969730512339int, 193695int);
    let e = square(910796int, 1627771int, e, 193695int, 23048int, 887017int);
    let e = square(910796int, 1627771int, e, 887017int, 483359int, 1395500int);
    let e = square_times(910796int, 1627771int, e, 1395500int, 1089651169617int, 366293int);
    let e = square_times(910796int, 1627771int, e, 366293int, 75073220403int, 1210091int);
    let e = square_times(910796int, 1627771int, e, 1210091int, 819339456617int, 510969int);
    let e = square_times(910796int, 1627771int, e, 510969int, 146088797105int, 1int);
    assert(e == 1871int);
    unit(910796int, 589711int, 329964int, 1627771int);
    arith::prime_by_order(1627771int, 1871int, 910796int, 589711int);
}


proof fn prime_44706919()
    ensures
        arith::is_prime(44706919),
{
    prime_9349();
    let e = first_power(24793509int, 44706919int);
    let e = square(24793509int, 44706919int, e, 24793509int, 13749954int, 8801355int);
    let e = square(24793509int, 44706919int, e, 8801355int, 1732703int, 37163968int);
    let e = square_times(24793509int, 44706919int, e, 37163968int, 0x2b8a3806d41cfint, 4014519int);
    let e = square(24793509int, 44706919int, e, 4014519int, 360489int, 10277970int);
    let e = square(24793509int, 44706919int, e, 10277970int, 2362870int, 29623370int);
    let e = square_times(24793509int, 44706919int, e, 29623370int, 0x1ba9f108863c9int, 44518293int);
    let e = square(24793509int, 44706919int, e, 44518293int, 44330462int, 37767271int);
    let e = square(24793509int, 44706919int, e, 37767271int, 31904832int, 18854833int);
    let e = square(24793509int, 44706919int, e, 18854833int, 7951895int, 1796384int);
    let e = square(24793509int, 44706919int, e, 1796384int, 72181int, 5355117int);
    let e = square_times(24793509int, 44706919int, e, 5355117int, 0xe76e4f466d3int, 32369608int);
    let e = square(24793509int, 44706919int, e, 32369608int, 23436898int, 21576402int);
    let e = square_times(24793509int, 44706919int, e, 21576402int, 0xead0096f39b5int, 1int);
    assert(e == 9349int);
    unit(24793509int, 35850462int, 19881905int, 44706919int);
    arith::prime_by_order(44706919int, 9349int, 24793509int, 35850462int);
}


proof fn prime_545358713()
    ensures
        arith::is_prime(545358713),
{
    prime_28181();
    let e = first_power(420071726int, 545358713int);
    let e = square_times(420071726int, 545358713int, e, 420071726int, 0x1e2e3dde1330ddeint, 272072778int);
    let e = square(420071726int, 545358713int, e, 272072778int, 135733774int, 229364422int);
    let e = square_times(420071726int, 545358713int, e, 229364422int, 0x8ff6c01b346741int, 505907135int);
    let e = square_times(420071726int, 545358713int, e, 505907135int, 0x2bc651c17796a08int, 56044134int);
    let e = square_times(420071726int, 545358713int, e, 56044134int, 0x89866799d49f5int, 73026987int);
    let e = square(420071726int, 545358713int, e, 73026987int, 9778776int, 136222881int);
    let e = square(420071726int, 545358713int, e, 136222881int, 34026545int, 518903576int);
    let e = square(420071726int, 545358713int, e, 518903576int, 493731767int, 167251905int);
    let e = square(420071726int, 545358713int, e, 167251905int, 51293211int, 189531582int);
    let e = square_times(420071726int, 545358713int, e, 189531582int, 0x624d70df75c24cint, 43198668int);
    let e = square(420071726int, 545358713int, e, 43198668int, 3421830int, 112069434int);
    let e = square_times(420071726int, 545358713int, e, 112069434int, 0x225ea4c2010612int, 87938038int);
    let e = square(420071726int, 545358713int, e, 87938038int, 14179838int, 325060950int);
    let e = square_times(420071726int, 545358713int, e, 325060950int, 0x12127bb0e14d7efint, 1int);
    assert(e == 28181int);
    unit(420071726int, 160797069int, 123856648int, 545358713int);
    arith::prime_by_order(545358713int, 28181int, 420071726int, 160797069int);
}


proof fn prime_297159362677()
    ensures
        arith::is_prime(297159362677int),
{
    prime_1627771();
    let e = first_power(114170894341int, 297159362677int);
    let e = square_times(114170894341int, 297159362677int, e, 114170894341int, 0x10f7df501652fcc2c48int, 113180740501int);
    let e = square(114170894341int, 297159362677int, e, 113180740501int, 43107778617int, 105773253292int);
    let e = square(114170894341int, 297159362677int, e, 105773253292int, 37649768162int, 16863147590int);
    let e = square(114170894341int, 297159362677int, e, 16863147590int, 956946952int, 270105097596int);
    let e = square_times(114170894341int, 297159362677int, e, 270105097596int, 0x5ef89f592b8d24b465aint, 292775161134int);
    let e = square_times(114170894341int, 297159362677int, e, 292775161134int, 0x6f9507fad4b3b70be0dint, 120907768163int);
    let e = square(114170894341int, 297159362677int, e, 120907768163int, 49194776400int, 96235971769int);
    let e = square_times(114170894341int, 297159362677int, e, 96235971769int, 0xc0e5237e1be24a269fint, 57464503754int);
    let e = square(114170894341int, 297159362677int, e, 57464503754int, 11112452126int, 152646391214int);
    let e = square_times(114170894341int, 297159362677int, e, 152646391214int, 0x1e54f63d7737f1cdcc3int, 105132027445int);
    let e = square_times(114170894341int, 297159362677int, e, 105132027445int, 0xe634b21a2c6dc5e64bint, 114386416278int);
    let e = square(114170894341int, 297159362677int, e, 114386416278int, 44031095339int, 16438110781int);
    let e = square(114170894341int, 297159362677int, e, 16438110781int, 909315067int, 266114875602int);
    let e = square_times(114170894341int, 297159362677int, e, 266114875602int, 0x5c2f984de372950e20fint, 86189470841int);
    let e = square_times(114170894341int, 297159362677int, e, 86189470841int, 0x9ab9122c6dc1a6353bint, 22164558334int);
    let e = square_times(114170894341int, 297159362677int, e, 22164558334int, 0xa3b6a5d62e7e325abint, 86729451757int);
    let e = square_times(114170894341int, 297159362677int, e, 86729451757int, 0x9caaee4fc1c000d85fint, 135351539106int);
    let e = square(114170894341int, 297159362677int, e, 135351539106int, 61650553337int, 55731676087int);
    let e = square_times(114170894341int, 297159362677int, e, 55731676087int, 0x40b125de4845f23f46int, 54252551447int);
    let e = square_times(114170894341int, 297159362677int, e, 54252551447int, 0x3d4dbe73551151c484int, 1int);
    assert(e == 1627771int);
    unit(114170894341int, 44169280672int, 16970174627int, 297159362677int);
    arith::prime_by_order(297159362677int, 1627771int, 114170894341int, 44169280672int);
}


proof fn order_44706919_of_174723607534414371449()
    ensures
        pow(0x3c02f880550dc7bc9int, 44706919int as nat) % 0x978c6f353c3889a79int == 1,
{
    let e = first_power(0x3c02f880550dc7bc9int, 0x978c6f353c3889a79int);
    let e = square(0x3c02f880550dc7bc9int, 0x978c6f353c3889a79int, e, 0x3c02f880550dc7bc9int, 0x17c39236b9f759b13int, 0x86980d98ea45b09d6int);
    let e = square_times(0x3c02f880550dc7bc9int, 0x978c6f353c3889a79int, e, 0x86980d98ea45b09d6int, 0x1c058e6db239c429c2efaf3e64efe41956int, 0x54367543f0823b75eint);
    let e = square(0x3c02f880550dc7bc9int, 0x978c6f353c3889a79int, e, 0x54367543f0823b75eint, 0x2ecba27fc93e9dceeint, 0x34f4f16a8462aee06int);
    let e = square_times(0x3c02f880550dc7bc9int, 0x978c6f353c3889a79int, e, 0x34f4f16a8462aee06int, 0x4568585f82458ef9034ddec790e4d36b9int, 0x4f3837e2b6b65a8d3int);
    let e = square(0x3c02f880550dc7bc9int, 0x978c6f353c3889a79int, e, 0x4f3837e2b6b65a8d3int, 0x2969294337ee64d3dint, 0x94ab8bebe031a6a14int);
    let e = square_times(0x3c02f880550dc7bc9int, 0x978c6f353c3889a79int, e, 0x94ab8bebe031a6a14int, 0x223078906fc9f8cb5212561ec6b871f27aint, 0xe2e825c84bd7a66int);
    let e = square(0x3c02f880550dc7bc9int, 0x978c6f353c3889a79int, e, 0xe2e825c84bd7a66int, 0x153bcc1fa322b0int, 0x4c17e141d90a81b74int);
    let e = square_times(0x3c02f880550dc7bc9int, 0x978c6f353c3889a79int, e, 0x4c17e141d90a81b74int, 0x8f4da17e74df77e8d87f0296933f82b4dint, 0x584841b72f168e3abint);
    let e = square(0x3c02f880550dc7bc9int, 0x978c6f353c3889a79int, e, 0x584841b72f168e3abint, 0x336d6d2a9a1b6be8bint, 0x472400c2e42910686int);
    let e = square(0x3c02f880550dc7bc9int, 0x978c6f353c3889a79int, e, 0x472400c2e42910686int, 0x216529cc8c0448743int, 0x7542457f87d9c5179int);
    let e = square(0x3c02f880550dc7bc9int, 0x978c6f353c3889a79int, e, 0x7542457f87d9c5179int, 0x5aba4630408c1f8f4int, 0x499e92a7c9e5457ddint);
    let e = square_times(0x3c02f880550dc7bc9int, 0x978c6f353c3889a79int, e, 0x499e92a7c9e5457ddint, 0x86230b9b88e14287e1ddf33148d5fafedint, 0x4d8aa8fe369090bccint);
    let e = square(0x3c02f880550dc7bc9int, 0x978c6f353c3889a79int, e, 0x4d8aa8fe369090bccint, 0x27acd3f1868afdfeaint, 0x316077267b2bf90f6int);
    let e = square_times(0x3c02f880550dc7bc9int, 0x978c6f353c3889a79int, e, 0x316077267b2bf90f6int, 0x3c573165bfba71b107cd54063f07e9c73int, 0x8d525ddc6416f4629int);
    let e = square_times(0x3c02f880550dc7bc9int, 0x978c6f353c3889a79int, e, 0x8d525ddc6416f4629int, 0x1ee4a1cd5d61e8b3f1768eb3970b641507int, 0x2945b9db4355d788aint);
    let e = square(0x3c02f880550dc7bc9int, 0x978c6f353c3889a79int, e, 0x2945b9db4355d788aint, 0xb3d71a786ac7838dint, 0x1f703780a29adaabfint);
    let e = square(0x3c02f880550dc7bc9int, 0x978c6f353c3889a79int, e, 0x1f703780a29adaabfint, 0x68594c33210864b7int, 0x2d8ac69e1d6428a02int);
    let e = square(0x3c02f880550dc7bc9int, 0x978c6f353c3889a79int, e, 0x2d8ac69e1d6428a02int, 0xdaf98b87dd0fc3efint, 0x24aca073baf24c60dint);
    let e = square_times(0x3c02f880550dc7bc9int, 0x978c6f353c3889a79int, e, 0x24aca073baf24c60dint, 0x2149b9f9e14cef28b529c7cb3b333a48aint, 0x947683027a543ea77int);
    let e = square_times(0x3c02f880550dc7bc9int, 0x978c6f353c3889a79int, e, 0x947683027a543ea77int, 0x22181868cdf7d115bba79361a8ec3f9ec0int, 0x4b24886a953fabcd9int);
    let e = square(0x3c02f880550dc7bc9int, 0x978c6f353c3889a79int, e, 0x4b24886a953fabcd9int, 0x2542191cc15e34455int, 0x31568cb92fd7501c4int);
    let e = square(0x3c02f880550dc7bc9int, 0x978c6f353c3889a79int, e, 0x31568cb92fd7501c4int, 0x100ffefe555c8d747int, 0x36d9d3dd53504a781int);
    let e = square_times(0x3c02f880550dc7bc9int, 0x978c6f353c3889a79int, e, 0x36d9d3dd53504a781int, 0x4a761944cbff1458b4340a353a5b77cb4int, 0x8b8de6e302e0c89b5int);
    let e = square_times(0x3c02f880550dc7bc9int, 0x978c6f353c3889a79int, e, 0x8b8de6e302e0c89b5int, 0x1e200ce95bcaf3a28206fc05ae1487f88fint, 0x4a4bbddd70de4a5eaint);
    let e = square_times(0x3c02f880550dc7bc9int, 0x978c6f353c3889a79int, e, 0x4a4bbddd70de4a5eaint, 0x889cfb7a40cea30e88f0a2362a55d4f5bint, 1int);
    assert(e == 44706919int);
}


proof fn order_120233_of_174723607534414371449()
    ensures
        pow(0x54d08d619496f1ee4int, 120233int as nat) % 0x978c6f353c3889a79int == 1,
{
    let e = first_power(0x54d08d619496f1ee4int, 0x978c6f353c3889a79int);
    let e = square_times(0x54d08d619496f1ee4int, 0x978c6f353c3889a79int, e, 0x54d08d619496f1ee4int, 0xfb9e16ccc36919c7216741828e482f073int, 0x17a2dec498bf7a5e5int);
    let e = square_times(0x54d08d619496f1ee4int, 0x978c6f353c3889a79int, e, 0x17a2dec498bf7a5e5int, 0x138a96ad1607108c48ed161497eaf0e24int, 0x11588671774501040int);
    let e = square(0x54d08d619496f1ee4int, 0x978c6f353c3889a79int, e, 0x11588671774501040int, 0x1fc3fd7705757353int, 0x8b6112293700c9fc5int);
    let e = square_times(0x54d08d619496f1ee4int, 0x978c6f353c3889a79int, e, 0x8b6112293700c9fc5int, 0x2a7822eef8faf3bc02235349fbdcc01cddint, 0x8ec405612801973cfint);
    let e = square(0x54d08d619496f1ee4int, 0x978c6f353c3889a79int, e, 0x8ec405612801973cfint, 0x867de9966775fd7cdint, 0xb2a8b371f2cb4f7cint);
    let e = square_times(0x54d08d619496f1ee4int, 0x978c6f353c3889a79int, e, 0xb2a8b371f2cb4f7cint, 0x45c797ae6bbf05feab8067e64cbeef1cint, 0x2a2819674eb56a204int);
    let e = square(0x54d08d619496f1ee4int, 0x978c6f353c3889a79int, e, 0x2a2819674eb56a204int, 0xbba108f8dd759574int, 0x7b7a1f3a06f1da43cint);
    let e = square_times(0x54d08d619496f1ee4int, 0x978c6f353c3889a79int, e, 0x7b7a1f3a06f1da43cint, 0x2154cc58d8965be91216201bd8450e3df1int, 0x421f6024d7ef3a557int);
    let e = square_times(0x54d08d619496f1ee4int, 0x978c6f353c3889a79int, e, 0x421f6024d7ef3a557int, 0x98ee98840746f7ac0b95fdfa630464d52int, 0x93ce6d555fe244b62int);
    let e = square(0x54d08d619496f1ee4int, 0x978c6f353c3889a79int, e, 0x93ce6d555fe244b62int, 0x902813754eb0063acint, 0x244b038697b3dfd38int);
    let e = square_times(0x54d08d619496f1ee4int, 0x978c6f353c3889a79int, e, 0x244b038697b3dfd38int, 0x2e12a83e7a33e101a839c9984cac90ea5int, 0x1dde210aa64b3fb03int);
    let e = square(0x54d08d619496f1ee4int, 0x978c6f353c3889a79int, e, 0x1dde210aa64b3fb03int, 0x5e2ec9ee26e3ab8fint, 0x6fd54b4abec88c572int);
    let e = square_times(0x54d08d619496f1ee4int, 0x978c6f353c3889a79int, e, 0x6fd54b4abec88c572int, 0x1b5764bfb9d046c7accb869601cc3cd84fint, 0x60a487bd3bde1bb39int);
    let e = square(0x54d08d619496f1ee4int, 0x978c6f353c3889a79int, e, 0x60a487bd3bde1bb39int, 0x3da1106f047d8f59cint, 0x4e32e84bc04f263f5int);
    let e = square(0x54d08d619496f1ee4int, 0x978c6f353c3889a79int, e, 0x4e32e84bc04f263f5int, 0x2859ba9ffcc0898a1int, 0x2dde575cd75d26a60int);
    let e = square_times(0x54d08d619496f1ee4int, 0x978c6f353c3889a79int, e, 0x2dde575cd75d26a60int, 0x4997766f90ded59862c425d05248be037int, 1int);
    assert(e == 120233int);
}


proof fn prime_174723607534414371449()
    ensures
        arith::is_prime(0x978c6f353c3889a79int),
{
    prime_44706919();
    prime_120233();
    order_44706919_of_174723607534414371449();
    order_120233_of_174723607534414371449();
    unit(0x3c02f880550dc7bc9int, 0x549464bf5eeee8eeaint, 0x217e1d6c99705d787int, 0x978c6f353c3889a79int);
    unit(0x54d08d619496f1ee4int, 0xc63ad50804f2104eint, 0x6ef0a1b884084831int, 0x978c6f353c3889a79int);
    arith::prime_by_two_orders(0x978c6f353c3889a79int, 44706919int, 120233int, 0x3c02f880550dc7bc9int, 0x549464bf5eeee8eeaint, 0x54d08d619496f1ee4int, 0xc63ad50804f2104eint);
}


proof fn order_297159362677_of_29047611873442575647497758179()
    ensures
        pow(0x33e68e5c0f4c9f74cf1864bbint, 297159362677int as nat) % 0x5ddb9f12ef6348a3e23ba5e3int == 1,
{
    let e = first_power(0x33e68e5c0f4c9f74cf1864bbint, 0x5ddb9f12ef6348a3e23ba5e3int);
    let e = square(0x33e68e5c0f4c9f74cf1864bbint, 0x5ddb9f12ef6348a3e23ba5e3int, e, 0x33e68e5c0f4c9f74cf1864bbint, 0x1cb31175090e9ad9d8b1d322int, 0x2d1d71a287c764d605197f73int);
    let e = square(0x33e68e5c0f4c9f74cf1864bbint, 0x5ddb9f12ef6348a3e23ba5e3int, e, 0x2d1d71a287c764d605197f73int, 0x15af835860e303f39de74a8fint, 0x474b4a42be2922d01dcf05dcint);
    let e = square(0x33e68e5c0f4c9f74cf1864bbint, 0x5ddb9f12ef6348a3e23ba5e3int, e, 0x474b4a42be2922d01dcf05dcint, 0x36279c58cd6e2c1747234fe1int, 0xe6d0f35d3abb4d570437b8dint);
    let e = square_times(0x33e68e5c0f4c9f74cf1864bbint, 0x5ddb9f12ef6348a3e23ba5e3int, e, 0xe6d0f35d3abb4d570437b8dint, 0x73141a852745aa482526321b016d44bfbc1bfbbdae5a50int, 0xecb2f4de023980932152383int);
    let e = square(0x33e68e5c0f4c9f74cf1864bbint, 0x5ddb9f12ef6348a3e23ba5e3int, e, 0xecb2f4de023980932152383int, 0x254eda8dafa571f8746ccc9int, 0x40be0a3d4b0b2598ca52f1ceint);
    let e = square_times(0x33e68e5c0f4c9f74cf1864bbint, 0x5ddb9f12ef6348a3e23ba5e3int, e, 0x40be0a3d4b0b2598ca52f1ceint, 0x90dd03eb5a73d2b9ccd29fa3408af85e5862334a228ab21int, 0x287636d73863fb3f6a6756e9int);
    let e = square(0x33e68e5c0f4c9f74cf1864bbint, 0x5ddb9f12ef6348a3e23ba5e3int, e, 0x287636d73863fb3f6a6756e9int, 0x117162caaf76d80ad0582d6bint, 0x1b53773ce76100f27fe02330int);
    let e = square(0x33e68e5c0f4c9f74cf1864bbint, 0x5ddb9f12ef6348a3e23ba5e3int, e, 0x1b53773ce76100f27fe02330int, 0x7f4adb648924bfa7be9f836int, 0x5491da05ea87867faaf2431eint);
    let e = square_times(0x33e68e5c0f4c9f74cf1864bbint, 0x5ddb9f12ef6348a3e23ba5e3int, e, 0x5491da05ea87867faaf2431eint, 0xf72dd35a9fdc4532f4f32127905d49daa97315d139b574fint, 0x50cb75cd329f47cdcc475fint);
    let e = square_times(0x33e68e5c0f4c9f74cf1864bbint, 0x5ddb9f12ef6348a3e23ba5e3int, e, 0x50cb75cd329f47cdcc475fint, 0xe19accda6071d374a82f22fe0978b8d52563f463e83int, 0x43d08ead5342c0f7a07b4d52int);
    let e = square(0x33e68e5c0f4c9f74cf1864bbint, 0x5ddb9f12ef6348a3e23ba5e3int, e, 0x43d08ead5342c0f7a07b4d52int, 0x30ff6fd3cf574c6a04682192int, 0x352e96245c9c17d43d878fceint);
    let e = square(0x33e68e5c0f4c9f74cf1864bbint, 0x5ddb9f12ef6348a3e23ba5e3int, e, 0x352e96245c9c17d43d878fceint, 0x1e22541b22366fb591cc8f75int, 0x38b2c8601d8b8e3ead3b2c05int);
    let e = square(0x33e68e5c0f4c9f74cf1864bbint, 0x5ddb9f12ef6348a3e23ba5e3int, e, 0x38b2c8601d8b8e3ead3b2c05int, 0x2240326d76258e614d1d3161int, 0x8397a174c96aa87dece6a16int);
    let e = square(0x33e68e5c0f4c9f74cf1864bbint, 0x5ddb9f12ef6348a3e23ba5e3int, e, 0x8397a174c96aa87dece6a16int, 0xb87f53e9a328e50a0d9b65int, 0x4aa0d90fb42c316d65de5655int);
    let e = square(0x33e68e5c0f4c9f74cf1864bbint, 0x5ddb9f12ef6348a3e23ba5e3int, e, 0x4aa0d90fb42c316d65de5655int, 0x3b56a6ae5180bea306e5ff45int, 0x37d9ef9ce7858e4dd029650aint);
    let e = square(0x33e68e5c0f4c9f74cf1864bbint, 0x5ddb9f12ef6348a3e23ba5e3int, e, 0x37d9ef9ce7858e4dd029650aint, 0x213c2a4e710d20adf443a716int, 0x17f7beab52a27a1ba4548de2int);
    let e = square(0x33e68e5c0f4c9f74cf1864bbint, 0x5ddb9f12ef6348a3e23ba5e3int, e, 0x17f7beab52a27a1ba4548de2int, 0x61ed6405c0c4a065c12b0f8int, 0x3a338b08f3a5e3f59127f79cint);
    let e = square_times(0x33e68e5c0f4c9f74cf1864bbint, 0x5ddb9f12ef6348a3e23ba5e3int, e, 0x3a338b08f3a5e3f59127f79cint, 0x75120f216ed4859639375cd4fc2293082e8212cd8511a20int, 0x323d1376af0f1f13064ebe50int);
    let e = square(0x33e68e5c0f4c9f74cf1864bbint, 0x5ddb9f12ef6348a3e23ba5e3int, e, 0x323d1376af0f1f13064ebe50int, 0x1ae40c0cf4191c4dc7ff62d3int, 0x278c33e37d505cb1477338e7int);
    let e = square_times(0x33e68e5c0f4c9f74cf1864bbint, 0x5ddb9f12ef6348a3e23ba5e3int, e, 0x278c33e37d505cb1477338e7int, 0x360daeb4f81f74a94ff6d3f78a4462f94b65a2a456ea9f6int, 0x4edf6ff0795f62c3fdded369int);
    let e = square(0x33e68e5c0f4c9f74cf1864bbint, 0x5ddb9f12ef6348a3e23ba5e3int, e, 0x4edf6ff0795f62c3fdded369int, 0x4247ba4f977c6dd1b03269a8int, 0x424402aa7c3c7b6a7e2d4919int);
    let e = square(0x33e68e5c0f4c9f74cf1864bbint, 0x5ddb9f12ef6348a3e23ba5e3int, e, 0x424402aa7c3c7b6a7e2d4919int, 0x2ec8f383663299ea25c0a7eeint, 0x46d33525f55a2185edbdf667int);
    let e = square(0x33e68e5c0f4c9f74cf1864bbint, 0x5ddb9f12ef6348a3e23ba5e3int, e, 0x46d33525f55a2185edbdf667int, 0x3571c85100448adee330b863int, 0x3ecb212dfcbb7219b763cea8int);
    let e = square(0x33e68e5c0f4c9f74cf1864bbint, 0x5ddb9f12ef6348a3e23ba5e3int, e, 0x3ecb212dfcbb7219b763cea8int, 0x2a02b27a59e5264850eec645int, 0x8236f8108e62ee467578611int);
    let e = square(0x33e68e5c0f4c9f74cf1864bbint, 0x5ddb9f12ef6348a3e23ba5e3int, e, 0x8236f8108e62ee467578611int, 0xb4a79d2d5d1c1582e42e76int, 0x55892d6a4f2f50e9104a8c7fint);
    let e = square(0x33e68e5c0f4c9f74cf1864bbint, 0x5ddb9f12ef6348a3e23ba5e3int, e, 0x55892d6a4f2f50e9104a8c7fint, 0x4df3a1e0cfefde3f6a55fff5int, 0x44de710a6d4245e766d547c2int);
    let e = square_times(0x33e68e5c0f4c9f74cf1864bbint, 0x5ddb9f12ef6348a3e23ba5e3int, e, 0x44de710a6d4245e766d547c2int, 0xa3eb264864c1f270e345a06e8ec9e9a1cf720069fd63153int, 0x21b5098b575b1660ba11ac53int);
    let e = square(0x33e68e5c0f4c9f74cf1864bbint, 0x5ddb9f12ef6348a3e23ba5e3int, e, 0x21b5098b575b1660ba11ac53int, 0xc1af1ff5d6d4dddccb24e14int, 0x1e2755b7a5f64483ddfb832dint);
    let e = square(0x33e68e5c0f4c9f74cf1864bbint, 0x5ddb9f12ef6348a3e23ba5e3int, e, 0x1e2755b7a5f64483ddfb832dint, 0x9affc0cbfc6329228002129int, 0x429e0139947659d9cb85418eint);
    let e = square(0x33e68e5c0f4c9f74cf1864bbint, 0x5ddb9f12ef6348a3e23ba5e3int, e, 0x429e0139947659d9cb85418eint, 0x2f485d39d3d73d72fe554f53int, 0x10a8c96096fa17a2526e952bint);
    let e = square(0x33e68e5c0f4c9f74cf1864bbint, 0x5ddb9f12ef6348a3e23ba5e3int, e, 0x10a8c96096fa17a2526e952bint, 0x2f4faa045a16f9be1a9d5daint, 0x54dd4aaa3b78b157c632f2ebint);
    let e = square_times(0x33e68e5c0f4c9f74cf1864bbint, 0x5ddb9f12ef6348a3e23ba5e3int, e, 0x54dd4aaa3b78b157c632f2ebint, 0xf8e795617d994f2ce6ec9293cc0e421cfe6eb99280d02e1int, 0x360fcea3ff5b7af01265c9a0int);
    let e = square_times(0x33e68e5c0f4c9f74cf1864bbint, 0x5ddb9f12ef6348a3e23ba5e3int, e, 0x360fcea3ff5b7af01265c9a0int, 0x650268590d08001aa0fd3d735775601b8cb9c220bd15896int, 0x1f145cc9af6334d146ff90feint);
    let e = square_times(0x33e68e5c0f4c9f74cf1864bbint, 0x5ddb9f12ef6348a3e23ba5e3int, e, 0x1f145cc9af6334d146ff90feint, 0x216227ef5d9367a73263018221af317b59578a7b1a48d91int, 0x31b5b059cdebe88cec9dea59int);
    let e = square(0x33e68e5c0f4c9f74cf1864bbint, 0x5ddb9f12ef6348a3e23ba5e3int, e, 0x31b5b059cdebe88cec9dea59int, 0x1a53dfebb32199666e10551cint, 0x2bca4a08a8f94656eae64f1dint);
    let e = square_times(0x33e68e5c0f4c9f74cf1864bbint, 0x5ddb9f12ef6348a3e23ba5e3int, e, 0x2bca4a08a8f94656eae64f1dint, 0x4245d6abfc01c4e5ce6b48244559ea8f0432fa6173b40cbint, 0x565a54f5c02fe16ede46a152int);
    let e = square(0x33e68e5c0f4c9f74cf1864bbint, 0x5ddb9f12ef6348a3e23ba5e3int, e, 0x565a54f5c02fe16ede46a152int, 0x4f72ac04b2a750881d883ef3int, 0x2c0d411dda3cb351ce1ccdcbint);
    let e = square_times(0x33e68e5c0f4c9f74cf1864bbint, 0x5ddb9f12ef6348a3e23ba5e3int, e, 0x2c0d411dda3cb351ce1ccdcbint, 0x431122e864dfb0d2f5340d993deb43b61c1f17312ba0236int, 1int);
    assert(e == 297159362677int);
}


proof fn order_545358713_of_29047611873442575647497758179()
    ensures
        pow(0x5010e22e6820a9a776987fcint, 545358713int as nat) % 0x5ddb9f12ef6348a3e23ba5e3int == 1,
{
    let e = first_power(0x5010e22e6820a9a776987fcint, 0x5ddb9f12ef6348a3e23ba5e3int);
    let e = square(0x5010e22e6820a9a776987fcint, 0x5ddb9f12ef6348a3e23ba5e3int, e, 0x5010e22e6820a9a776987fcint, 0x444cf8444f48852509deffint, 0xbc7cc67762f7fad65b3a8f3int);
    let e = square(0x5010e22e6820a9a776987fcint, 0x5ddb9f12ef6348a3e23ba5e3int, e, 0xbc7cc67762f7fad65b3a8f3int, 0x17a863d4b70829cc6d24809int, 0x55fd557502d8fae0105b29aeint);
    let e = square(0x5010e22e6820a9a776987fcint, 0x5ddb9f12ef6348a3e23ba5e3int, e, 0x55fd557502d8fae0105b29aeint, 0x4ec7e8891c3939b552afd1c0int, 0x79e9caafcb27127ed257504int);
    let e = square(0x5010e22e6820a9a776987fcint, 0x5ddb9f12ef6348a3e23ba5e3int, e, 0x79e9caafcb27127ed257504int, 0x9e5ace89873950d463f41fint, 0x36d445de6ab14b820e863593int);
    let e = square(0x5010e22e6820a9a776987fcint, 0x5ddb9f12ef6348a3e23ba5e3int, e, 0x36d445de6ab14b820e863593int, 0x20079a61a137aeb28a381159int, 0x26a9fa42e9a81635f0b1737eint);
    let e = square_times(0x5010e22e6820a9a776987fcint, 0x5ddb9f12ef6348a3e23ba5e3int, e, 0x26a9fa42e9a81635f0b1737eint, 0x4fb3c085bacdfe2b73c98b34784bc537168cc0914503a0int, 0x58ba15475c487c0889740110int);
    let e = square(0x5010e22e6820a9a776987fcint, 0x5ddb9f12ef6348a3e23ba5e3int, e, 0x58ba15475c487c0889740110int, 0x53e05a68de83d2172519542aint, 0x5c0d7d94baa86963641e6dc2int);
    let e = square(0x5010e22e6820a9a776987fcint, 0x5ddb9f12ef6348a3e23ba5e3int, e, 0x5c0d7d94baa86963641e6dc2int, 0x5a483f7eb1ad55c781c57958int, 0x505458e18ecea3277ee75fcint);
    let e = square(0x5010e22e6820a9a776987fcint, 0x5ddb9f12ef6348a3e23ba5e3int, e, 0x505458e18ecea3277ee75fcint, 0x44c04279485ca20542f55dint, 0x4d2699d554300fef65fccd99int);
    let e = square(0x5010e22e6820a9a776987fcint, 0x5ddb9f12ef6348a3e23ba5e3int, e, 0x4d2699d554300fef65fccd99int, 0x3f6ae898341ac86043345b33int, 0x156e795eb2026dd4c360a838int);
    let e = square(0x5010e22e6820a9a776987fcint, 0x5ddb9f12ef6348a3e23ba5e3int, e, 0x156e795eb2026dd4c360a838int, 0x4e4c87968d7ab4ea88709ffint, 0x308cb6a2e15bf4d603955423int);
    let e = square(0x5010e22e6820a9a776987fcint, 0x5ddb9f12ef6348a3e23ba5e3int, e, 0x308cb6a2e15bf4d603955423int, 0x191cf8f668a2be6030bc4084int, 0x51b33535bb7ca7feb76b3bdint);
    let e = square_times(0x5010e22e6820a9a776987fcint, 0x5ddb9f12ef6348a3e23ba5e3int, e, 0x51b33535bb7ca7feb76b3bdint, 0x163e0d8656140914efaf38ffbeba2c19226a52c99f017int, 0x16d79fd8fea619c3227eaa77int);
    let e = square_times(0x5010e22e6820a9a776987fcint, 0x5ddb9f12ef6348a3e23ba5e3int, e, 0x16d79fd8fea619c3227eaa77int, 0x1bd1932b6f49097892c47f45e805bad16fde19a00c0416int, 0x1d6751339535722426072d3aint);
    let e = square(0x5010e22e6820a9a776987fcint, 0x5ddb9f12ef6348a3e23ba5e3int, e, 0x1d6751339535722426072d3aint, 0x93623efb3ac67a0fa0db414int, 0x25b53b7a8956da2a0155df68int);
    let e = square(0x5010e22e6820a9a776987fcint, 0x5ddb9f12ef6348a3e23ba5e3int, e, 0x25b53b7a8956da2a0155df68int, 0xf263d91ff735ca39ab1c3acint, 0x1c55776eb68a12ac3ea3fcbcint);
    let e = square(0x5010e22e6820a9a776987fcint, 0x5ddb9f12ef6348a3e23ba5e3int, e, 0x1c55776eb68a12ac3ea3fcbcint, 0x88dadcfa167c16bdc02de86int, 0x4b3f7cc73eed40375c10fb3eint);
    let e = square(0x5010e22e6820a9a776987fcint, 0x5ddb9f12ef6348a3e23ba5e3int, e, 0x4b3f7cc73eed40375c10fb3eint, 0x3c53f935eb6f34616a0206d0int, 0x35aa9d7f00c6dfb96e328894int);
    let e = square(0x5010e22e6820a9a776987fcint, 0x5ddb9f12ef6348a3e23ba5e3int, e, 0x35aa9d7f00c6dfb96e328894int, 0x1eaf860e3db1c7cb22a59338int, 0x45836a12410cfa040410f2e8int);
    let e = square_times(0x5010e22e6820a9a776987fcint, 0x5ddb9f12ef6348a3e23ba5e3int, e, 0x45836a12410cfa040410f2e8int, 0x101a0cfc0cc7eb3f196d987d516fd937da5b31230002f69int, 0x19d335b145610c6bd5187fe5int);
    let e = square_times(0x5010e22e6820a9a776987fcint, 0x5ddb9f12ef6348a3e23ba5e3int, e, 0x19d335b145610c6bd5187fe5int, 0x238ee2206f69fdbac52d15ef67a3a2ec046f074a71b507int, 0x49440f5f06209abacd123467int);
    let e = square(0x5010e22e6820a9a776987fcint, 0x5ddb9f12ef6348a3e23ba5e3int, e, 0x49440f5f06209abacd123467int, 0x39310ebe13d6ecd990309f8dint, 0x588885c5df7e9533edc3a66aint);
    let e = square_times(0x5010e22e6820a9a776987fcint, 0x5ddb9f12ef6348a3e23ba5e3int, e, 0x588885c5df7e9533edc3a66aint, 0x1a1e5e31d2e52a1adb36083216c2919123cf0205dcd6d7fint, 0x54f768f8d78b7d88dee9dd3int);
    let e = square_times(0x5010e22e6820a9a776987fcint, 0x5ddb9f12ef6348a3e23ba5e3int, e, 0x54f768f8d78b7d88dee9dd3int, 0x180e7523732b54d0e798b349a74fd995f7c331c7a3389int, 0x37597164f06908a17ebcd8e1int);
    let e = square_times(0x5010e22e6820a9a776987fcint, 0x5ddb9f12ef6348a3e23ba5e3int, e, 0x37597164f06908a17ebcd8e1int, 0xa3561744d0ccf0630d2addc0b03127b268d0fec1f21355int, 0x3db14dcf8804484a6a31c39dint);
    let e = square_times(0x5010e22e6820a9a776987fcint, 0x5ddb9f12ef6348a3e23ba5e3int, e, 0x3db14dcf8804484a6a31c39dint, 0xcaeb5040d8b2e0f2870939a15cca4f223a4d1b9f9e2e4fint, 0x2536746120f5091350ec93cfint);
    let e = square(0x5010e22e6820a9a776987fcint, 0x5ddb9f12ef6348a3e23ba5e3int, e, 0x2536746120f5091350ec93cfint, 0xec10ac6abbd9f8e6c20a96cint, 0x550378e205d3ede4e8f28a9dint);
    let e = square(0x5010e22e6820a9a776987fcint, 0x5ddb9f12ef6348a3e23ba5e3int, e, 0x550378e205d3ede4e8f28a9dint, 0x4d00ad20d58bd87cf7a8a828int, 0x4e1dcd1645544e758bbac0d1int);
    let e = square_times(0x5010e22e6820a9a776987fcint, 0x5ddb9f12ef6348a3e23ba5e3int, e, 0x4e1dcd1645544e758bbac0d1int, 0x14557d6d8cba683f7c53be1980cd3fa1aa92e1fc3e13d89int, 1int);
    assert(e == 545358713int);
}


proof fn prime_29047611873442575647497758179()
    ensures
        arith::is_prime(0x5ddb9f12ef6348a3e23ba5e3int),
{
    prime_297159362677();
    prime_545358713();
    order_297159362677_of_29047611873442575647497758179();
    order_545358713_of_29047611873442575647497758179();
    unit(0x33e68e5c0f4c9f74cf1864bbint, 0x19772c4448ea2e06c03560ddint, 0xe14e85d1eb8bfd9135de5fbint, 0x5ddb9f12ef6348a3e23ba5e3int);
    unit(0x5010e22e6820a9a776987fcint, 0x1f290afd90303f0ce9efa9efint, 0x1a94db4f354d429a1e4309cint, 0x5ddb9f12ef6348a3e23ba5e3int);
    arith::prime_by_two_orders(0x5ddb9f12ef6348a3e23ba5e3int, 297159362677int, 545358713int, 0x33e68e5c0f4c9f74cf1864bbint, 0x19772c4448ea2e06c03560ddint, 0x5010e22e6820a9a776987fcint, 0x1f290afd90303f0ce9efa9efint);
}


#[verifier::rlimit(40)]
proof fn prime_341948486974166000522343609283189()
    ensures
        arith::is_prime(0x10dbff26eab8198050172ee03275int),
{
    prime_29047611873442575647497758179();
    let e = first_power(0xe62d151a1de8c23e34c03a81887int, 0x10dbff26eab8198050172ee03275int);
    let e = square(0xe62d151a1de8c23e34c03a81887int, 0x10dbff26eab8198050172ee03275int, e, 0xe62d151a1de8c23e34c03a81887int, 0xc46877d47eedb4504bc9336dc1eint, 0xc7dfd485a518fa187eb6039217bint);
    let e = square_times(0xe62d151a1de8c23e34c03a81887int, 0x10dbff26eab8198050172ee03275int, e, 0xc7dfd485a518fa187eb6039217bint, 0x8528ea591b52fdef528955784d0569fc0e052fc318f3aa768dd401int, 0xac25b5b2591b377698a687165baint);
    let e = square_times(0xe62d151a1de8c23e34c03a81887int, 0x10dbff26eab8198050172ee03275int, e, 0xac25b5b2591b377698a687165baint, 0x62c7219b5783242e039ba854c6444bc2e8f3c4c8ea574b1faac55dint, 0x85ade7a411545e2f010763aa27bint);
    let e = square_times(0xe62d151a1de8c23e34c03a81887int, 0x10dbff26eab8198050172ee03275int, e, 0x85ade7a411545e2f010763aa27bint, 0x3b9083c0ab45b3a9dfc06225368480958f916bf25f37a20b2f4dffint, 0xa92d9a4a71ea4ba33bf800ec2a4int);
    let e = square(0xe62d151a1de8c23e34c03a81887int, 0x10dbff26eab8198050172ee03275int, e, 0xa92d9a4a71ea4ba33bf800ec2a4int, 0x6a1a592b637264f6b1ae8a372e6int, 0xdc3662278beb7cb3725c18889f2int);
    let e = square_times(0xe62d151a1de8c23e34c03a81887int, 0x10dbff26eab8198050172ee03275int, e, 0xdc3662278beb7cb3725c18889f2int, 0xa1a34455de5695b597cbe52c42d9fac62226a2b8374192457f2fc0int, 0xdd5c8556a990fec7a5316a4cc9cint);
    let e = square_times(0xe62d151a1de8c23e34c03a81887int, 0x10dbff26eab8198050172ee03275int, e, 0xdd5c8556a990fec7a5316a4cc9cint, 0xa354312b13f96d47a1a5862dd5474992e1790769f110d0c2c52af2int, 0x279519bc955807b2978c8881cd6int);
    let e = square_times(0xe62d151a1de8c23e34c03a81887int, 0x10dbff26eab8198050172ee03275int, e, 0x279519bc955807b2978c8881cd6int, 0x538ea4f849a6897a588ccad27c8dd5adf5728696f2f7b2143f10eint, 0x9a2ca38c92cd3242b991aa17ed6int);
    let e = square(0xe62d151a1de8c23e34c03a81887int, 0x10dbff26eab8198050172ee03275int, e, 0x9a2ca38c92cd3242b991aa17ed6int, 0x581e22da188888a30f79af0f7daint, 0xccc8828c05d48b20b54b98042int);
    let e = square_times(0xe62d151a1de8c23e34c03a81887int, 0x10dbff26eab8198050172ee03275int, e, 0xccc8828c05d48b20b54b98042int, 0x8bc7ec197920fb34ef10721e2cb4fafa1158d0073461c46fabint, 0xd2a29964005c465bb42ac94e9f5int);
    let e = square_times(0xe62d151a1de8c23e34c03a81887int, 0x10dbff26eab8198050172ee03275int, e, 0xd2a29964005c465bb42ac94e9f5int, 0x93e2465568768c1425587527df853547ec6fde3ce135f7301e88d5int, 0x79d49797661585ddbaa265eb076int);
    let e = square(0xe62d151a1de8c23e34c03a81887int, 0x10dbff26eab8198050172ee03275int, e, 0x79d49797661585ddbaa265eb076int, 0x370617067d8e8298cd52d4844a6int, 0x7ed3d378fae620cd95f639aaa86int);
    let e = square_times(0xe62d151a1de8c23e34c03a81887int, 0x10dbff26eab8198050172ee03275int, e, 0x7ed3d378fae620cd95f639aaa86int, 0x359d6b352064e855465881a5c96cd99f24a8fa9b8d3704c4ace977int, 0x9d3e0147e3b0155ea3e55763399int);
    let e = square_times(0xe62d151a1de8c23e34c03a81887int, 0x10dbff26eab8198050172ee03275int, e, 0x9d3e0147e3b0155ea3e55763399int, 0x5269cf56d64db748ce1a5fdbf590f83263edf8bab6a35db047a308int, 0x7638c7db7ff9a42a7d8067e77efint);
    let e = square_times(0xe62d151a1de8c23e34c03a81887int, 0x10dbff26eab8198050172ee03275int, e, 0x7638c7db7ff9a42a7d8067e77efint, 0x2e95fc10977ad6e7dd3a8d4a0f16a75693e29d19379f2314472dd6int, 0xfde3d07611b5c9fdfa0e1bc6199int);
    let e = square(0xe62d151a1de8c23e34c03a81887int, 0x10dbff26eab8198050172ee03275int, e, 0xfde3d07611b5c9fdfa0e1bc6199int, 0xeef6657b836b60b22e6c48ef970int, 0xeae82fab3b9f8ac1e964bdd6d41int);
    let e = square(0xe62d151a1de8c23e34c03a81887int, 0x10dbff26eab8198050172ee03275int, e, 0xeae82fab3b9f8ac1e964bdd6d41int, 0xcc9090cbfc313985a088a34a4d5int, 0x8893c2ae63f86a82dfef4397b28int);
    let e = square_times(0xe62d151a1de8c23e34c03a81887int, 0x10dbff26eab8198050172ee03275int, e, 0x8893c2ae63f86a82dfef4397b28int, 0x3e2cc9f3177e47085760e9a230bcd1ad3298733c4dd81937f4ba09int, 0x7d67f7ca3b5268397fdd52e93a3int);
    let e = square_times(0xe62d151a1de8c23e34c03a81887int, 0x10dbff26eab8198050172ee03275int, e, 0x7d67f7ca3b5268397fdd52e93a3int, 0x346b822a90057438b8026346f0c198e4ccada6836bb3b6b783e980int, 0x3aa24335d40d5d2b12deac7397fint);
    let e = square_times(0xe62d151a1de8c23e34c03a81887int, 0x10dbff26eab8198050172ee03275int, e, 0x3aa24335d40d5d2b12deac7397fint, 0xb7590b760623c9afdc1e4087033d7d32050b5f03cebe502ead809int, 0xefcd1a224dad0aa0226c1e2b56aint);
    let e = square_times(0xe62d151a1de8c23e34c03a81887int, 0x10dbff26eab8198050172ee03275int, e, 0xefcd1a224dad0aa0226c1e2b56aint, 0xbfac620216afa3a27dbabc9662c16ccc491cfbad578a7c8c52f9b3int, 0x2efd3a5c795c6b739399b55ac6dint);
    let e = square_times(0xe62d151a1de8c23e34c03a81887int, 0x10dbff26eab8198050172ee03275int, e, 0x2efd3a5c795c6b739399b55ac6dint, 0x75c0f52173d054fd6e8f26b264f9f60d1026c8a651531f56deb3bint, 0xfd0a221121585f3246bb2a79168int);
    let e = square(0xe62d151a1de8c23e34c03a81887int, 0x10dbff26eab8198050172ee03275int, e, 0xfd0a221121585f3246bb2a79168int, 0xed5d513475c6e21b09bed63b709int, 0x10ffef5475b772313fea149123int);
    let e = square(0xe62d151a1de8c23e34c03a81887int, 0x10dbff26eab8198050172ee03275int, e, 0x10ffef5475b772313fea149123int, 0x11242c1d86e7f2dfad7a4efaint, 0x2d08a81b612d8e3c26cc8adbe87int);
    let e = square(0xe62d151a1de8c23e34c03a81887int, 0x10dbff26eab8198050172ee03275int, e, 0x2d08a81b612d8e3c26cc8adbe87int, 0x784ab9366d501d6cf0fd530bfeint, 0xa4e03059d0077c56943deb6941bint);
    let e = square_times(0xe62d151a1de8c23e34c03a81887int, 0x10dbff26eab8198050172ee03275int, e, 0xa4e03059d0077c56943deb6941bint, 0x5a9bf965c0f27ac1c5633c42b150da6f84c4ed13316eac230925feint, 0x738b358b2f2cdc497f892366759int);
    let e = square(0xe62d151a1de8c23e34c03a81887int, 0x10dbff26eab8198050172ee03275int, e, 0x738b358b2f2cdc497f892366759int, 0x317dddc46cc6240080e08676d91int, 0xba327a8e7569574cf9c4fb957acint);
    let e = square(0xe62d151a1de8c23e34c03a81887int, 0x10dbff26eab8198050172ee03275int, e, 0xba327a8e7569574cf9c4fb957acint, 0x8086357b81dc7fb0b18d98955ccint, 0x5f6142d55bec77c842a03984d54int);
    let e = square_times(0xe62d151a1de8c23e34c03a81887int, 0x10dbff26eab8198050172ee03275int, e, 0x5f6142d55bec77c842a03984d54int, 0x1e52b4739925255dbc6e1beb21ace17fabf2220c0847a4f21ea3b8int, 0xa231349ba5b84f5237e6c6dfdd8int);
    let e = square(0xe62d151a1de8c23e34c03a81887int, 0x10dbff26eab8198050172ee03275int, e, 0xa231349ba5b84f5237e6c6dfdd8int, 0x61856ab9d429e06ca75245635d5int, 0xd34505af9fbf14dd62f935a71e7int);
    let e = square_times(0xe62d151a1de8c23e34c03a81887int, 0x10dbff26eab8198050172ee03275int, e, 0xd34505af9fbf14dd62f935a71e7int, 0x94c6b01c9770dcb60dbb9cd35e96d2e47f6f58ad3a783583bc696fint, 0xb8c906c632086badd6014c227dcint);
    let e = square_times(0xe62d151a1de8c23e34c03a81887int, 0x10dbff26eab8198050172ee03275int, e, 0xb8c906c632086badd6014c227dcint, 0x71d041d823dd5d9a9c54fd365f1317e488409ee7c74ed61ade6c6cint, 0x5995af30362a1ee60837588c614int);
    let e = square_times(0xe62d151a1de8c23e34c03a81887int, 0x10dbff26eab8198050172ee03275int, e, 0x5995af30362a1ee60837588c614int, 0x1ac00c7b06d56586ee2438ee8463a28e77ea30b2b955e4a8116a4aint, 0x53173c40846c54fc92b98badb1eint);
    let e = square(0xe62d151a1de8c23e34c03a81887int, 0x10dbff26eab8198050172ee03275int, e, 0x53173c40846c54fc92b98badb1eint, 0x1998285dedcccbc58ab71a7222aint, 0x6f961216f941ef675f5bc558652int);
    let e = square_times(0xe62d151a1de8c23e34c03a81887int, 0x10dbff26eab8198050172ee03275int, e, 0x6f961216f941ef675f5bc558652int, 0x2980c93d2096ead61dc2d1489992005b84469c6e11f342f2f40367int, 0xb222cadbf9f0dbaedb3be8175c9int);
    let e = square_times(0xe62d151a1de8c23e34c03a81887int, 0x10dbff26eab8198050172ee03275int, e, 0xb222cadbf9f0dbaedb3be8175c9int, 0x69c5181ff36f8fff259d583aa6bf5f29dacfcad6912eacd757f811int, 0x10275909fbf42a7869a7fedf3572int);
    let e = square_times(0xe62d151a1de8c23e34c03a81887int, 0x10dbff26eab8198050172ee03275int, e, 0x10275909fbf42a7869a7fedf3572int, 0xdea91976d110dbff7d62f4a29a72e2f4a209320c4773cae6e6617bint, 0x9d7ca8abd237b944f51badffe25int);
    let e = square_times(0xe62d151a1de8c23e34c03a81887int, 0x10dbff26eab8198050172ee03275int, e, 0x9d7ca8abd237b944f51badffe25int, 0x52ab89758eed6a495e3ceee812e1f70e122e0dbf0bacfcc999c3f5int, 0x9798ed866bbb42b0bfa1b2cb4f6int);
    let e = square(0xe62d151a1de8c23e34c03a81887int, 0x10dbff26eab8198050172ee03275int, e, 0x9798ed866bbb42b0bfa1b2cb4f6int, 0x5532540f94c0a4987f97b5617aaint, 0xb05620a31885ea4877b28c2d7b2int);
    let e = square_times(0xe62d151a1de8c23e34c03a81887int, 0x10dbff26eab8198050172ee03275int, e, 0xb05620a31885ea4877b28c2d7b2int, 0x67a4cf125bc543bdac81629b2e2a6a7ff317fa3fa81e8f9269d3a6int, 0xc28a92082245ab2a9333c1617eint);
    let e = square_times(0xe62d151a1de8c23e34c03a81887int, 0x10dbff26eab8198050172ee03275int, e, 0xc28a92082245ab2a9333c1617eint, 0x7e261057f4f4ea7394dd0eb34fa0827cd3a5ed0f3e52433b7ca3int, 0x14e5861195ac99bba501d0eab9dint);
    let e = square(0xe62d151a1de8c23e34c03a81887int, 0x10dbff26eab8198050172ee03275int, e, 0x14e5861195ac99bba501d0eab9dint, 0x19e68b2447501513812b46f3f1int, 0xefbc108641c489cbcca66448f24int);
    let e = square(0xe62d151a1de8c23e34c03a81887int, 0x10dbff26eab8198050172ee03275int, e, 0xefbc108641c489cbcca66448f24int, 0xd50f2bb4b93dada0e006cd6f997int, 0x9b6491391983078444ca09ad0dint);
    let e = square(0xe62d151a1de8c23e34c03a81887int, 0x10dbff26eab8198050172ee03275int, e, 0x9b6491391983078444ca09ad0dint, 0x59841b9f9fd30c2c9551f557cint, 0xf4ab8a899cf8e70b8cf096048fdint);
    let e = square_times(0xe62d151a1de8c23e34c03a81887int, 0x10dbff26eab8198050172ee03275int, e, 0xf4ab8a899cf8e70b8cf096048fdint, 0xc7892bf652f4bd44306eb4886d0acd42abe178051f63307374d4fbint, 0xb2c8267280a336e8e46a3ca8608int);
    let e = square_times(0xe62d151a1de8c23e34c03a81887int, 0x10dbff26eab8198050172ee03275int, e, 0xb2c8267280a336e8e46a3ca8608int, 0x6a89d0d5d61ae35f625d8fb57fcdc120f46e25ef7ef3c20ba33d0eint, 0x87cdbf41f307bd8b9a531051e5aint);
    let e = square(0xe62d151a1de8c23e34c03a81887int, 0x10dbff26eab8198050172ee03275int, e, 0x87cdbf41f307bd8b9a531051e5aint, 0x445e943cc6d0fbe551075d13768int, 0xe10ea47452fbe70e8d6c6ac951cint);
    let e = square_times(0xe62d151a1de8c23e34c03a81887int, 0x10dbff26eab8198050172ee03275int, e, 0xe10ea47452fbe70e8d6c6ac951cint, 0xa8d4041d8e49da60d76c9f394676a1035a9ca49202f445191e28c3int, 0x94bd4e7ec84ce8514c4a1cb8e51int);
    let e = square(0xe62d151a1de8c23e34c03a81887int, 0x10dbff26eab8198050172ee03275int, e, 0x94bd4e7ec84ce8514c4a1cb8e51int, 0x5203bf8e704217a4799324ce666int, 0x5400f7dae5c1e7d3233f62ebd03int);
    let e = square(0xe62d151a1de8c23e34c03a81887int, 0x10dbff26eab8198050172ee03275int, e, 0x5400f7dae5c1e7d3233f62ebd03int, 0x1a28f118748dea014f74ae8f165int, 0x78d8395d2ebad29ce0f22a560e0int);
    let e = square_times(0xe62d151a1de8c23e34c03a81887int, 0x10dbff26eab8198050172ee03275int, e, 0x78d8395d2ebad29ce0f22a560e0int, 0x30ad0695567a40f092e39be3f5b4001a47c7be9d0210eaa3b624b8int, 0x9261cb25289721a12543634a3e8int);
    let e = square(0xe62d151a1de8c23e34c03a81887int, 0x10dbff26eab8198050172ee03275int, e, 0x9261cb25289721a12543634a3e8int, 0x4f6f788e157bfc1e43522b34f26int, 0xd60ca4c8dc6c37031a0e888a9e2int);
    let e = square(0xe62d151a1de8c23e34c03a81887int, 0x10dbff26eab8198050172ee03275int, e, 0xd60ca4c8dc6c37031a0e888a9e2int, 0xa9d9bb5094594298c3da9ba77e7int, 0x1d87576314a1a46bd94271840f1int);
    let e = square(0xe62d151a1de8c23e34c03a81887int, 0x10dbff26eab8198050172ee03275int, e, 0x1d87576314a1a46bd94271840f1int, 0x33b7f6d7532472429336ac90ddint, 0xe9667f8d39af9913be6832003e0int);
    let e = square_times(0xe62d151a1de8c23e34c03a81887int, 0x10dbff26eab8198050172ee03275int, e, 0xe9667f8d39af9913be6832003e0int, 0xb593ddd1740e130bdd76bf280c52769598cc45ee8d906981980cfbint, 0x5bbb06950c1b944b01835a42749int);
    let e = square(0xe62d151a1de8c23e34c03a81887int, 0x10dbff26eab8198050172ee03275int, e, 0x5bbb06950c1b944b01835a42749int, 0x1f31971a26fd1d3254f8c741bb1int, 0xbf9491ad28b1499f8f3ae3618ecint);
    let e = square_times(0xe62d151a1de8c23e34c03a81887int, 0x10dbff26eab8198050172ee03275int, e, 0xbf9491ad28b1499f8f3ae3618ecint, 0x7a5681622c047b6a064566a43af9195c62505aeff2c9105c681711int, 0x34d084715d6769c84fcbc6a1e2bint);
    let e = square(0xe62d151a1de8c23e34c03a81887int, 0x10dbff26eab8198050172ee03275int, e, 0x34d084715d6769c84fcbc6a1e2bint, 0xa57314c01e27ae1de7f99c0814int, 0x94c45a48c9127515f67efc68215int);
    let e = square(0xe62d151a1de8c23e34c03a81887int, 0x10dbff26eab8198050172ee03275int, e, 0x94c45a48c9127515f67efc68215int, 0x520b84f39b88db6dba6eea890efint, 0xd7d550e3de844cab2cbee1c6a7eint);
    let e = square(0xe62d151a1de8c23e34c03a81887int, 0x10dbff26eab8198050172ee03275int, e, 0xd7d550e3de844cab2cbee1c6a7eint, 0xacb180239820d996a3637289574int, 0x10224b47869474e997a6ff9fa000int);
    let e = square_times(0xe62d151a1de8c23e34c03a81887int, 0x10dbff26eab8198050172ee03275int, e, 0x10224b47869474e997a6ff9fa000int, 0xde1ddd3a38c1d38e1de1a6bd98102b97996372e7119922ae5e778eint, 0xaac354044d77c36589cb739a01aint);
    let e = square_times(0xe62d151a1de8c23e34c03a81887int, 0x10dbff26eab8198050172ee03275int, e, 0xaac354044d77c36589cb739a01aint, 0x6132144a2f129e537f1b293491f7274b76757d62d939e4fcd8090dint, 0xb6d7675b5266dee83386e2f978bint);
    let e = square_times(0xe62d151a1de8c23e34c03a81887int, 0x10dbff26eab8198050172ee03275int, e, 0xb6d7675b5266dee83386e2f978bint, 0x6f6e7c9bd0f418cda227838f6bf08eeb99fd31853b810e1da2be0dint, 0x5c203b1377282b737877de994deint);
    let e = square_times(0xe62d151a1de8c23e34c03a81887int, 0x10dbff26eab8198050172ee03275int, e, 0x5c203b1377282b737877de994deint, 0x1c4a1179a2b4d744087adc09422f99123fb9335b43c3d7085eeb36int, 0xc10afe51af238e6e531f210a9eeint);
    let e = square_times(0xe62d151a1de8c23e34c03a81887int, 0x10dbff26eab8198050172ee03275int, e, 0xc10afe51af238e6e531f210a9eeint, 0x7c36865e2a9f36e1b8a327fece6e819508d90c304a20b47bfe49e8int, 0x249eb53b8b0cfada9cda6389bd4int);
    let e = square(0xe62d151a1de8c23e34c03a81887int, 0x10dbff26eab8198050172ee03275int, e, 0x249eb53b8b0cfada9cda6389bd4int, 0x4f8aa787008ca6dbb115d00140int, 0x292ba8bd4a112bf5ef74b4b5550int);
    let e = square(0xe62d151a1de8c23e34c03a81887int, 0x10dbff26eab8198050172ee03275int, e, 0x292ba8bd4a112bf5ef74b4b5550int, 0x6489d60186b8aea1d79e5d967eint, 0x68a4b83b9c55c8f3dcdfee3d56aint);
    let e = square(0xe62d151a1de8c23e34c03a81887int, 0x10dbff26eab8198050172ee03275int, e, 0x68a4b83b9c55c8f3dcdfee3d56aint, 0x2898169cd811875a206ea2b4603int, 0x6428eed3a0b5effe86a3dd1fa85int);
    let e = square_times(0xe62d151a1de8c23e34c03a81887int, 0x10dbff26eab8198050172ee03275int, e, 0x6428eed3a0b5effe86a3dd1fa85int, 0x217041ea00785da09f42425b18c5ea8f96c9fa75b3c1633e44f455int, 0xdf0b4019e84f9fb76e2dde8df56int);
    let e = square(0xe62d151a1de8c23e34c03a81887int, 0x10dbff26eab8198050172ee03275int, e, 0xdf0b4019e84f9fb76e2dde8df56int, 0xb86ccbfd15ee41b378f1a3336f6int, 0xdcac335adddba1038f8c552c676int);
    let e = square(0xe62d151a1de8c23e34c03a81887int, 0x10dbff26eab8198050172ee03275int, e, 0xdcac335adddba1038f8c552c676int, 0xb4863fbe1128ef7f3323df97c77int, 0xdc59350982c6b52416901fd9e01int);
    let e = square(0xe62d151a1de8c23e34c03a81887int, 0x10dbff26eab8198050172ee03275int, e, 0xdc59350982c6b52416901fd9e01int, 0xb3fe8f92450c25d5c2418c081efint, 0xc23bd477a299dd74fb725032bc6int);
    let e = square_times(0xe62d151a1de8c23e34c03a81887int, 0x10dbff26eab8198050172ee03275int, e, 0xc23bd477a299dd74fb725032bc6int, 0x7dc006ff9cbcd1456101d49a74cb2f68fadd6a57dc7d527e2c5f47int, 0x6102226dee229d5616c30475489int);
    let e = square_times(0xe62d151a1de8c23e34c03a81887int, 0x10dbff26eab8198050172ee03275int, e, 0x6102226dee229d5616c30475489int, 0x1f5e0805cf70c7c989aa213356900fee8c19a2ebc794497d8331cdint, 0x336b0093f1ebc15879a4229cd06int);
    let e = square_times(0xe62d151a1de8c23e34c03a81887int, 0x10dbff26eab8198050172ee03275int, e, 0x336b0093f1ebc15879a4229cd06int, 0x8cff2b3579babc16afc7029b833abc09c85a769d562add55d394aint, 0xe2896ea61eaf52a574084dc142aint);
    let e = square(0xe62d151a1de8c23e34c03a81887int, 0x10dbff26eab8198050172ee03275int, e, 0xe2896ea61eaf52a574084dc142aint, 0xbe3f17b432ce37fb4561fe42a8bint, 0xaa98578fe361781eb9fa28fff5dint);
    let e = square_times(0xe62d151a1de8c23e34c03a81887int, 0x10dbff26eab8198050172ee03275int, e, 0xaa98578fe361781eb9fa28fff5dint, 0x61012b529ea140f7638f2018a8605d409d078682c5f2f512defaf1int, 0x85644767ba60caefacaab6dd0daint);
    let e = square_times(0xe62d151a1de8c23e34c03a81887int, 0x10dbff26eab8198050172ee03275int, e, 0x85644767ba60caefacaab6dd0daint, 0x3b4ef91e08dade35bfd7b84e293453b022e1e088f3d91ef5f93f39int, 0x10a1cb1d1965b1426bdd0191fe6fint);
    let e = square_times(0xe62d151a1de8c23e34c03a81887int, 0x10dbff26eab8198050172ee03275int, e, 0x10a1cb1d1965b1426bdd0191fe6fint, 0xec0a9f548f938dfd0bd35d935757c9eebe4ed44c8df0de6d028ae8int, 0x91fbe8ec45cacd68de7c6cf895fint);
    let e = square(0xe62d151a1de8c23e34c03a81887int, 0x10dbff26eab8198050172ee03275int, e, 0x91fbe8ec45cacd68de7c6cf895fint, 0x4f010b8f30b15683804e1850d24int, 0x10a42f5c3d985fa906e55f78c7cdint);
    let e = square_times(0xe62d151a1de8c23e34c03a81887int, 0x10dbff26eab8198050172ee03275int, e, 0x10a42f5c3d985fa906e55f78c7cdint, 0xec4e863996eaf7b885da0b929dce875a3ad7cbcf494269b30148d3int, 0xfd9a868d218727f56fa8afbe530int);
    let e = square(0xe62d151a1de8c23e34c03a81887int, 0x10dbff26eab8198050172ee03275int, e, 0xfd9a868d218727f56fa8afbe530int, 0xee6c83c7fbdb9e4bc6bde154628int, 0x27ca5bd5147aa954b35bee208b8int);
    let e = square(0xe62d151a1de8c23e34c03a81887int, 0x10dbff26eab8198050172ee03275int, e, 0x27ca5bd5147aa954b35bee208b8int, 0x5de93cf3a90c5456bcf715b722int, 0x102222d5ad77bacefe1f00baadb6int);
    let e = square_times(0xe62d151a1de8c23e34c03a81887int, 0x10dbff26eab8198050172ee03275int, e, 0x102222d5ad77bacefe1f00baadb6int, 0xde1983a44a3a326b5bb41f28ce5f0adc16d8e1a9ca45254384a699int, 0xe58ef3fd67e6fe641b5fd7a79cfint);
    let e = square(0xe62d151a1de8c23e34c03a81887int, 0x10dbff26eab8198050172ee03275int, e, 0xe58ef3fd67e6fe641b5fd7a79cfint, 0xc35af7e11fb0f8b0d24fad7563cint, 0x106b4e18bbd4c722c3de897f33f5int);
    let e = square_times(0xe62d151a1de8c23e34c03a81887int, 0x10dbff26eab8198050172ee03275int, e, 0x106b4e18bbd4c722c3de897f33f5int, 0xe609ebb9d4ff034554c4a807eeca1e0ef5a586898a177824e8988bint, 0x56f5650aca65b98a936eba97248int);
    let e = square_times(0xe62d151a1de8c23e34c03a81887int, 0x10dbff26eab8198050172ee03275int, e, 0x56f5650aca65b98a936eba97248int, 0x19347070b7c1047c67de10b41e5ba379ba4265b1963632b4b30d80int, 0x7a45eefd2dbed6167ed85156240int);
    let e = square_times(0xe62d151a1de8c23e34c03a81887int, 0x10dbff26eab8198050172ee03275int, e, 0x7a45eefd2dbed6167ed85156240int, 0x31d561706de2f188f07d76f79d1890aff30b57f784192b5d84effeint, 0xea1ee2adcc234352a8e9a9a24eaint);
    let e = square_times(0xe62d151a1de8c23e34c03a81887int, 0x10dbff26eab8198050172ee03275int, e, 0xea1ee2adcc234352a8e9a9a24eaint, 0xb6b33403b0549dcbaecacd885b78a9afe02c3a72446e099331a364int, 0x2c0199cc3e2e0571f154f61a688int);
    let e = square(0xe62d151a1de8c23e34c03a81887int, 0x10dbff26eab8198050172ee03275int, e, 0x2c0199cc3e2e0571f154f61a688int, 0x72dd6f670189c64d9797b4257eint, 0x4fcc9c6c28826d0bfbe987ce9aaint);
    let e = square(0xe62d151a1de8c23e34c03a81887int, 0x10dbff26eab8198050172ee03275int, e, 0x4fcc9c6c28826d0bfbe987ce9aaint, 0x179b557d3d0b1d8749c073df198int, 0x31157d731dafe93a5c6f477ca6cint);
    let e = square(0xe62d151a1de8c23e34c03a81887int, 0x10dbff26eab8198050172ee03275int, e, 0x31157d731dafe93a5c6f477ca6cint, 0x8ee6de5f7456c304d24779dc3bint, 0xa9bf4695140258af96aeb217099int);
    let e = square_times(0xe62d151a1de8c23e34c03a81887int, 0x10dbff26eab8198050172ee03275int, e, 0xa9bf4695140258af96aeb217099int, 0x600aec981973900fa1fe3264ad8dd2f0da92cbb267f1c5bd1e9652int, 0xf8be8a87b3b5923cfb6438b391dint);
    let e = square_times(0xe62d151a1de8c23e34c03a81887int, 0x10dbff26eab8198050172ee03275int, e, 0xf8be8a87b3b5923cfb6438b391dint, 0xce3c8817e99c5dea3ae806cdda24e1671c5f133bea2e09b17dc7c6int, 1int);
    assert(e == 0x5ddb9f12ef6348a3e23ba5e3int);
    unit(0xe62d151a1de8c23e34c03a81887int, 0xb628645e03e3bc891eeb6c2ac0aint, 0x9b6f2dd0eb95e1c8a4b38881aefint, 0x10dbff26eab8198050172ee03275int);
    arith::prime_by_order(0x10dbff26eab8198050172ee03275int, 0x5ddb9f12ef6348a3e23ba5e3int, 0xe62d151a1de8c23e34c03a81887int, 0xb628645e03e3bc891eeb6c2ac0aint);
}


/// A step of the chain that shows the order of `u`.
proof fn u_square(e: int, x: int, k: int, y: int) -> (f: int)
    requires
        e >= 0,
        pow(0xbf8ef18068f2b95b4ec1d89e969aaaf80d6a55b047c0187ebebfa98b6a4e7de2int, e as nat) % 0xfffffffffffffffffffffffffffffffebaaedce6af48a03bbfd25e8cd0364141int == x,
        0 <= y < 0xfffffffffffffffffffffffffffffffebaaedce6af48a03bbfd25e8cd0364141int,
        x * x == k * 0xfffffffffffffffffffffffffffffffebaaedce6af48a03bbfd25e8cd0364141int + y,
    ensures
        f == 2 * e,
        pow(0xbf8ef18068f2b95b4ec1d89e969aaaf80d6a55b047c0187ebebfa98b6a4e7de2int, f as nat) % 0xfffffffffffffffffffffffffffffffebaaedce6af48a03bbfd25e8cd0364141int == y,
{
    square(0xbf8ef18068f2b95b4ec1d89e969aaaf80d6a55b047c0187ebebfa98b6a4e7de2int, 0xfffffffffffffffffffffffffffffffebaaedce6af48a03bbfd25e8cd0364141int, e, x, k, y)
}

proof fn u_square_times(e: int, x: int, k: int, y: int) -> (f: int)
    requires
        e >= 0,
        pow(0xbf8ef18068f2b95b4ec1d89e969aaaf80d6a55b047c0187ebebfa98b6a4e7de2int, e as nat) % 0xfffffffffffffffffffffffffffffffebaaedce6af48a03bbfd25e8cd0364141int == x,
        0 <= y < 0xfffffffffffffffffffffffffffffffebaaedce6af48a03bbfd25e8cd0364141int,
        x * x * 0xbf8ef18068f2b95b4ec1d89e969aaaf80d6a55b047c0187ebebfa98b6a4e7de2int == k * 0xfffffffffffffffffffffffffffffffebaaedce6af48a03bbfd25e8cd0364141int + y,
    ensures
        f == 2 * e + 1,
        pow(0xbf8ef18068f2b95b4ec1d89e969aaaf80d6a55b047c0187ebebfa98b6a4e7de2int, f as nat) % 0xfffffffffffffffffffffffffffffffebaaedce6af48a03bbfd25e8cd0364141int == y,
{
    square_times(0xbf8ef18068f2b95b4ec1d89e969aaaf80d6a55b047c0187ebebfa98b6a4e7de2int, 0xfffffffffffffffffffffffffffffffebaaedce6af48a03bbfd25e8cd0364141int, e, x, k, y)
}

proof fn order_of_u()
    ensures
        pow(0xbf8ef18068f2b95b4ec1d89e969aaaf80d6a55b047c0187ebebfa98b6a4e7de2int, 0x10dbff26eab8198050172ee03275int as nat) % 0xfffffffffffffffffffffffffffffffebaaedce6af48a03bbfd25e8cd0364141int == 1,
{
    let e = first_power(0xbf8ef18068f2b95b4ec1d89e969aaaf80d6a55b047c0187ebebfa98b6a4e7de2int, 0xfffffffffffffffffffffffffffffffebaaedce6af48a03bbfd25e8cd0364141int);
    let e = u_square(e, 0xbf8ef18068f2b95b4ec1d89e969aaaf80d6a55b047c0187ebebfa98b6a4e7de2int, 0x8f569c2e6ae1a3ddff8e029dd73093bdfd3e420175ce9a208798dc0acfb8963fint, 0xf6406626a7aaa0da613ceac2c0b47229fbc1b3de31f52ecb7d4a7ac89e505685int);
    let e = u_square(e, 0xf6406626a7aaa0da613ceac2c0b47229fbc1b3de31f52ecb7d4a7ac89e505685int, 0xecdfd485865295e64cb7878c06dc5c0bba9a954a792e4fd7b9379063bcb8be7cint, 0x5f5be6a4c6eda3053f086c765c0bfe6d44d8841319feed0dc6f29e079aefc79dint);
    let e = u_square(e, 0x5f5be6a4c6eda3053f086c765c0bfe6d44d8841319feed0dc6f29e079aefc79dint, 0x2385562c14964b72467dd13c372d6827cdf697647fa050d80359e346d875fc44int, 0xed99786735f5ea13d958df6f69b30478f2e965b4865d8a5085d3ee57d5712505int);
    let e = u_square(e, 0xed99786735f5ea13d958df6f69b30478f2e965b4865d8a5085d3ee57d5712505int, 0xdc8584f03de8bf8d8edd10d1abe328838605f68511b8488b1f5e5509e272e0acint, 0x7d5ccead2a66f32e351da78afcc0cb55c2e2b5583b8b7bc4d4e7b4293745ba6dint);
    let e = u_square_times(e, 0x7d5ccead2a66f32e351da78afcc0cb55c2e2b5583b8b7bc4d4e7b4293745ba6dint, 0x2defb61864a72d2d56aab865ebb06d16f16866005ccfc3e2f65211502e0a16ea8791349d1845124ccf1b84b5cf46d36f5c7535dc55aaa94134e4cfb38582e34bint, 0x2cff5fb19ced861cb38bfd7d98860606feaf349048896306c222b2727ac0c4a7int);
    let e = u_square_times(e, 0x2cff5fb19ced861cb38bfd7d98860606feaf349048896306c222b2727ac0c4a7int, 0x5eb1788d4572708b9e9c5ea6e4c239c867a088d0806fad8199bc013221e383f4b56ce018d4658e052ea74c756dc432f76566504d1dbb84b2e8dfc24c2193ddeint, 0x5f2e8e6fbd6da80aad6cc82c2f0487b61e6011e67ba2b345d818db0fa8c63664int);
    let e = u_square(e, 0x5f2e8e6fbd6da80aad6cc82c2f0487b61e6011e67ba2b345d818db0fa8c63664int, 0x2363962e6dff9d0bc83bba6818a52f18653526a34f4569693804e3314e5b3c80int, 0xdfd18f673bd0988938f7ca7fc4345d50be17d07eabba2dcb5c3445c29bb77a90int);
    let e = u_square_times(e, 0xdfd18f673bd0988938f7ca7fc4345d50be17d07eabba2dcb5c3445c29bb77a90int, 0x926ca74fa905e6fad719b3709807cb42c0aa3f93f67e848333a3269bc1baedf48a2dc17773b993dac5fcdce95f8c8bdfb840c9484abd1c072447e1995c603f6bint, 0x84c94dc28fd457e8f9b7f21ce3a64c53172c221a98d3a9e915ccf307bdaabcd5int);
    let e = u_square_times(e, 0x84c94dc28fd457e8f9b7f21ce3a64c53172c221a98d3a9e915ccf307bdaabcd5int, 0x3389bdfe3e15dbe47baa3fcf57c957fc7ec4936617fc1b327a58d4830db8417077c9645d968b6d203814f281ce55cd444f3b7d61f5605e185437db4d18ee0ac9int, 0x6fd68dcc47774d5cfb6abf657e90d9a74851b70ba8ef05218fe28f221fe3349int);
    let e = u_square(e, 0x6fd68dcc47774d5cfb6abf657e90d9a74851b70ba8ef05218fe28f221fe3349int, 0x30dbc2c8860b9a475eca0618e1b01284986e8a72d1fda0848906b7318d26faint, 0x4fb799a8e6e2e2ec47ac374fc98e4cfc80f140962d48d4d10d03d364dca9cb57int);
    let e = u_square_times(e, 0x4fb799a8e6e2e2ec47ac374fc98e4cfc80f140962d48d4d10d03d364dca9cb57int, 0x129328eac2d8153241e91fbded21fd45ec91f03bbf6c814e318c453939c51f0bdcbf3c945e737d2a706a72604ac46aaa5d6ec5ebe5c068ee58020cf9f311a4c9int, 0x77d190bff0d1acca0e9c41b4962c1564d658a9d1b37e4f0c23e827fab5aebaf9int);
    let e = u_square_times(e, 0x77d190bff0d1acca0e9c41b4962c1564d658a9d1b37e4f0c23e827fab5aebaf9int, 0x29f69bde7568ccf806f5e6ba93bfde249d3f2444010ccb62fd0bcd31248c58aba202dda539730a1f6deeb3b55b9f8a0938b7a0963657d707638880afd800597fint, 0xefcf44d64dd40556304f5bd2bfdd167b370a205ddd2c2634587cc7bef39cec03int);
    let e = u_square_times(e, 0xefcf44d64dd40556304f5bd2bfdd167b370a205ddd2c2634587cc7bef39cec03int, 0xa8184a5a3f298136c469b6164ff1b72c0c1c0ca3786283c0e96bd32000e60589b3cdedbaf5862530708944aa2eb60419a5eaa5a9c3dc3000b6d5abfeb39d9ff1int, 0x82b6f559a221bbf678c51d83732a99559902ea153ace6b5340c0d50ebf04afc1int);
    let e = u_square_times(e, 0x82b6f559a221bbf678c51d83732a99559902ea153ace6b5340c0d50ebf04afc1int, 0x31f14529e1c116a36c8e181297951989d1723614eaee677d86be8f50843a24fb045a5975457d23be6f958a355c5fbcc92d666f89a03aed293abdf70466d14879int, 0x27439970f4dfa2ed56a81baa0da403a9e31490bbf70a05dececabfb233544d29int);
    let e = u_square_times(e, 0x27439970f4dfa2ed56a81baa0da403a9e31490bbf70a05dececabfb233544d29int, 0x481971bf411376d42daa9be0e0829bcb03f7e8c73c1b0f5501c9e03332624b2a750896a2add3431d26743a235309a93bb73e7d62a5e951e1ac53092fe888839int, 0x6aefa62f581f976486ac6d574dc760eba635a3b88e0b175c57713b4d1eeb9d89int);
    let e = u_square_times(e, 0x6aefa62f581f976486ac6d574dc760eba635a3b88e0b175c57713b4d1eeb9d89int, 0x216cc6509de459263c02aff25e20a6055cdd2cd0dce261c4b42cc4628e8f9429a5b5224dfeb996c282ee5e07c701bfd789a4159dd0744de1e8d731b3e99b96fbint, 0x5a57aefb46b159922118970f4086a2e7716723538dde55a7545e692eaaeb09c7int);
    let e = u_square_times(e, 0x5a57aefb46b159922118970f4086a2e7716723538dde55a7545e692eaaeb09c7int, 0x17db3f5695f1937559ff5b9526ea00cba609beb58cb29093badd1af2d2a30775c721ad04191f6fd2d1e275b183d4909931b4d16fe568d4b5ff86fcdb3d1e9910int, 0x3fc41d418a5d0f54a236d1f26a1c6bce6fa6d7700812f32df0e515ac1e534c32int);
    let e = u_square_times(e, 0x3fc41d418a5d0f54a236d1f26a1c6bce6fa6d7700812f32df0e515ac1e534c32int, 0xbe291c561430340c7b9f982bf720eb7ab997f42d1bcdc096cb37ec842829b46aaedf683b4548566275d27a81b0c8331cdd04b232e0de5187caf6113adc40827int, 0x4b8e0fc7d7fe8062116fa36260f673d65c9925c7eb8170b8aae79266a910ba21int);
    let e = u_square_times(e, 0x4b8e0fc7d7fe8062116fa36260f673d65c9925c7eb8170b8aae79266a910ba21int, 0x10af9002528960e631400fdb3d4463e94cff89f42712fe09a30e686940c44595ed9975f5f6939c7b3a60eb28f2ba6a90bea1031bb8559ba2a36855d839b58123int, 0xdf3befcdd64d30a1d97d203665e11475274ca095f43260be11e93f5e4425397fint);
    let e = u_square_times(e, 0xdf3befcdd64d30a1d97d203665e11475274ca095f43260be11e93f5e4425397fint, 0x91a92387b4c9dcababc38a73f852cdb391818ad824b27752fd41972682e392539ff0352d3ad0895c315e911bfde051ee19eee216d22ad966467e6a45722ec94bint, 0xb2ccf905f4bf474e2c310d4e8e52fe9cfb1d4e26932fb9e84361eee515ab50d7int);
    let e = u_square(e, 0xb2ccf905f4bf474e2c310d4e8e52fe9cfb1d4e26932fb9e84361eee515ab50d7int, 0x7ce1ae6a1c14a641ec36ae8c17ab7b397e0f8af4273d8c4861a24cd9bfa3c5d3int, 0xe1df80b780e377f451174a4b976b8e8a6f1c77f86a05cf4157ebfef0f66f46feint);
    let e = u_square(e, 0xe1df80b780e377f451174a4b976b8e8a6f1c77f86a05cf4157ebfef0f66f46feint, 0xc74aa36410fa6993703e49a1ce08d39862b0802bc6a1d8f9441d9884ed6ebd73int, 0x177576e99b26e876100a02f781a8fd316037ea9bfb41fe0b156bd2d7fe7996d1int);
    let e = u_square_times(e, 0x177576e99b26e876100a02f781a8fd316037ea9bfb41fe0b156bd2d7fe7996d1int, 0x19bc9e9e04bf746bc1e1997ace397d684fd62b5ff1566af6a2fb754a4f80323920a69e80b7e3b6287216a51311e43493c8cf3b4b0db47f83e7dd0d29ca73317int, 0x55052c099dc131df012b8501270bc9d52aba153a1b74e6f9d8ff2473514ec74bint);
    let e = u_square(e, 0x55052c099dc131df012b8501270bc9d52aba153a1b74e6f9d8ff2473514ec74bint, 0x1c3c6f5922b5c340eb6da512c4275f7609293e1f1e99625602e63b8df4463442int, 0x2ba7e1d5770d0d60430aa0ae1a32e04aef62802b2b29c75154598c5003d5a937int);
    let e = u_square(e, 0x2ba7e1d5770d0d60430aa0ae1a32e04aef62802b2b29c75154598c5003d5a937int, 0x771d3f621b8a2ca0eb5a4fa38e24cf67a74f4a9656d52813d26b29aa618080cint, 0x523b298842121e84e77d5cfa92d5e8d9b0b277476bd5fcf3f33aa30e96b292c5int);
    let e = u_square_times(e, 0x523b298842121e84e77d5cfa92d5e8d9b0b277476bd5fcf3f33aa30e96b292c5int, 0x13c3ccf1cf5a411c55589a306db382a7be4895da0ae97b690b651aee715d66c75380e8dcd2903eadba80b2838b6c8acdde9b70aee3f52afac9ed3677767915abint, 0xa3decb801757507bdd15ed955caffcee60cd24bbc83d7aa8a4443147d18b86a7int);
    let e = u_square_times(e, 0xa3decb801757507bdd15ed955caffcee60cd24bbc83d7aa8a4443147d18b86a7int, 0x4e7dc78cc329b57571ad464908cc01e3db8c40b97b6186628a2c05926b210ca71e51cd012bfd762aef46a1059545e62c10f2abcd26725d88408d3d38bcbe4418int, 0x4cd82072bfe21cc8c774ecdcb9adbe5cac6c47e0d06876d3d070ad27576d9faaint);
    let e = u_square(e, 0x4cd82072bfe21cc8c774ecdcb9adbe5cac6c47e0d06876d3d070ad27576d9faaint, 0x171109bae7aef20fc5a5054c116fce36971a5fec93f2819f9ba24ab211467ca8int, 0x743999da34915cb6df7e3d608916d213e8ea0a3b1e7be595c8e727a2d25c4e3cint);
    let e = u_square_times(e, 0x743999da34915cb6df7e3d608916d213e8ea0a3b1e7be595c8e727a2d25c4e3cint, 0x277be2ad437714c867bd7adaafe0d92b6a577a02bcdcc211a8262b2ae8bd5de053ac01d183b993294dfe316a1e805b7125ef53314c2d1206f66a66dee73c8502int, 0x70a1b77459f4f29ce17b766a5b241c21db20b79f76f25a0d8edf8251691a129eint);
    let e = u_square_times(e, 0x70a1b77459f4f29ce17b766a5b241c21db20b79f76f25a0d8edf8251691a129eint, 0x25148a9145ceddfd15d55ed3333afec2f9782ef39f1c8dd6f8ac9652dffd460028ce201247614ac51d619c4b8295dbc5c587d47f47a6b83906b9eed90972d69aint, 0x487dd0de7b1e03b25704c5630ed78bc156abbebd0e77cfcf7e7546bff37636eint);
    let e = u_square_times(e, 0x487dd0de7b1e03b25704c5630ed78bc156abbebd0e77cfcf7e7546bff37636eint, 0xf5c31bc01e2fae491ed3da39cfc410da62ea1a9584e5713f2b7dc7d24abd0e6c2752666798bf192af7187e2ed5f74d0728fbe31ba6b3fda6800e32770ed9aint, 0x88ce690e4ab678a6b48f62cc91f979a07095cd93ba9f79648fbe6e41a0d327eeint);
    let e = u_square(e, 0x88ce690e4ab678a6b48f62cc91f979a07095cd93ba9f79648fbe6e41a0d327eeint, 0x491bf60c6d7ed7f13cdee1e5e156f3ad04fc9717c825f805e3b8fb48b938c62cint, 0x3bd4dc0b00966cda73ed072615aff02b5fc0e6d77772df2946586f64598ae418int);
    let e = u_square_times(e, 0x3bd4dc0b00966cda73ed072615aff02b5fc0e6d77772df2946586f64598ae418int, 0xa76added6dc7bbbfa84bbe8f3daf0f7d5119b94243dfca2f0cf4f8b6ff96a68c8c65a61ecec9b76a7a5df01f69d4eeba643da8dade690d53892277722b94f8cint, 0xae3229a57eb9a1f1ea48b5585aaa39a5451bb910ac91e40cbce980b99c30fdf4int);
    let e = u_square(e, 0xae3229a57eb9a1f1ea48b5585aaa39a5451bb910ac91e40cbce980b99c30fdf4int, 0x76883a7143b0463c2cdfdbd3d6493eaea5609e78675d572e1b70a3efe899657fint, 0xbbc95cb4948e03a6df34d2c01d03667a769ab4472cdaedbf250f6949fcea2c51int);
    let e = u_square_times(e, 0xbbc95cb4948e03a6df34d2c01d03667a769ab4472cdaedbf250f6949fcea2c51int, 0x67130367c820281efe4927734f5ba5c129ad7c41e42406310b3a86a31cae291501adb42598eed1ebbc612af4d4da0b121f0e466f6c1e546bf495cd22f2b28317int, 0x483949691f908081c1d3658fa0cba77c1ab1b1ad956dc8cc7c91310b0806cd4bint);
    let e = u_square(e, 0x483949691f908081c1d3658fa0cba77c1ab1b1ad956dc8cc7c91310b0806cd4bint, 0x1460461ce79e75cd8886f4efd32aa66fe4a35149615eb9661641544d437aa633int, 0xa37350ec8d3a2cd9862dc9ff4c222e0a7ff3f8be3982ff6b635540e82f0c0e06int);
    let e = u_square_times(e, 0xa37350ec8d3a2cd9862dc9ff4c222e0a7ff3f8be3982ff6b635540e82f0c0e06int, 0x4e16f3347eef40e8f5950f17dab91752c08fad937f7d90d44e3939bac90a12645710306613fe088bff36342266c8c832a3bf91687e8b982cd6994efe0fdbe83fint, 0x7440c676b46e8eda54151c8c18bd26a91586d0b4aa25429a116034c123b60cc9int);
    let e = u_square(e, 0x7440c676b46e8eda54151c8c18bd26a91586d0b4aa25429a116034c123b60cc9int, 0x34cac43f68ba3ee3236e406581abb2cc7fbd6fb29bf6f0b79169b38b88b9e3aaint, 0xdb8a4d062ebb3b0ef6f0086565299d1fc8bc7ee0dc5abd8a7bc466ba14927da7int);
    let e = u_square_times(e, 0xdb8a4d062ebb3b0ef6f0086565299d1fc8bc7ee0dc5abd8a7bc466ba14927da7int, 0x8ce14a599d6003f3db683bbf82a94385a03dd120ed9aff0cadee9d75c95e069c86f6893cdb35e51eb7087ab52f01bc17fe5042775654a1e1eeea16799f70770eint, 0x3045ed7086691cbd22dc005d465ca5306fd2cd08616c774b61436cc364647d34int);
    let e = u_square_times(e, 0x3045ed7086691cbd22dc005d465ca5306fd2cd08616c774b61436cc364647d34int, 0x6cfb3fb7478778d38d2de74f5a48dd4c7e59e1020bfefc875cbc3051de7bcf5277d0131c38fcd3c683287678f99b670004002a1a61ef9bf5c2828a90fa605a1int, 0x635794953d5c6fbb29b3f9d1810a64c7df77b21c5df719a83580de017934e43fint);
    let e = u_square_times(e, 0x635794953d5c6fbb29b3f9d1810a64c7df77b21c5df719a83580de017934e43fint, 0x1cd89dcdc89b4f64292c0d686c1f3852b841791626d7b721deb61065731ecac8a974a9fef9dcab13c0ff56fedcc9acc5745ba9807f85f3ec6dfd1fe7db9df0d9int, 0xe1cef14b1179385849bc49310eaf1d0fbcd50cc596fadfbdc4d34a9eee9fdcc9int);
    let e = u_square(e, 0xe1cef14b1179385849bc49310eaf1d0fbcd50cc596fadfbdc4d34a9eee9fdcc9int, 0xc72d6b6f2cf5a10b5a02351fc68c27b896b8b1ed86dd36e366c53e5eeea70bffint, 0x986f0c3d8969031eadd7513629be9ba4077dbfce9c6b799a29f32b5301d84b12int);
    let e = u_square(e, 0x986f0c3d8969031eadd7513629be9ba4077dbfce9c6b799a29f32b5301d84b12int, 0x5ac40eb4b11fb071c1225e7e2c091f24cf70525112b1dcc8e495d8e58cbab0d6int, 0x90ac5849921e0e9eba3ffff5a374696d005302712dccef5c8e331de598f250eeint);
    let e = u_square(e, 0x90ac5849921e0e9eba3ffff5a374696d005302712dccef5c8e331de598f250eeint, 0x51c2575985b0d26f896a08bafce9db3d8e1d7dd643dcda4604dfc2b3938be2d2int, 0x1664ea7b139edacdff76ed064f1be2f4e5046e971fb0c3ca56ff64904825b3f2int);
    let e = u_square(e, 0x1664ea7b139edacdff76ed064f1be2f4e5046e971fb0c3ca56ff64904825b3f2int, 0x1f580152e4bdcc09cffd5ac8d54604f9b7d0b6a58e1416f34f0d318cbb6fa53int, 0xb5169b27674355cbb06b4db88455242f0684871f59025140a6e0d2a035e9aeb1int);
    let e = u_square(e, 0xb5169b27674355cbb06b4db88455242f0684871f59025140a6e0d2a035e9aeb1int, 0x8018f964c0d3b400f08a1ac9e4fbd8327446162ee2930c9461fba5e57be24ebcint, 0xb11cf5ec40a06e8c1398d978895ec5eb7ae48a1ba7d6e39527d6dca6794b5ca5int);
    let e = u_square(e, 0xb11cf5ec40a06e8c1398d978895ec5eb7ae48a1ba7d6e39527d6dca6794b5ca5int, 0x7a890f57694a09b02d7231bf5b0660e11ba7f9dcda1c49ae055f440be77fba85int, 0xd2c26e396902114fb09da26aebe977a3af2d316fb2656ffce7c951b8c65ce194int);
    let e = u_square_times(e, 0xd2c26e396902114fb09da26aebe977a3af2d316fb2656ffce7c951b8c65ce194int, 0x81d60b7a9d60b233f2e310c03e3396cce9a287dee71006d583a0344e5b35b17767b2888ec971156aa73417616d13f524fa89154202badc64919541fd40e5d44cint, 0xc962f741005981782befccce0f3a5861838b5fc1fe45c7f2203e9e7685fdf5d4int);
    let e = u_square_times(e, 0xc962f741005981782befccce0f3a5861838b5fc1fe45c7f2203e9e7685fdf5d4int, 0x768b7400ecee43af0269ceca15c720e7be2a79010d6e1af3677c4585a4622b9712fc100f5384af2d17426915183df5e21f6358f18d8f2db9e6fc0ebe5b75d8f3int, 0x9ddbea86f39fba4a05d039fc253e0405ee400954ccf75cc0ef308a7751b5146dint);
    let e = u_square(e, 0x9ddbea86f39fba4a05d039fc253e0405ee400954ccf75cc0ef308a7751b5146dint, 0x61577a94a091ba4b796650d2b19f9dada709d99b8d26b591bf46fbdebc521af9int, 0x3b4676caae08d83440313267febc9d4d4e5a3e937c6b5a3cbe4a7992338b2430int);
    let e = u_square(e, 0x3b4676caae08d83440313267febc9d4d4e5a3e937c6b5a3cbe4a7992338b2430int, 0xdb98e269a2eb96595bf2bfb6984c5314a6dcbe0c876dce3d4cf69b296e96f59int, 0xa03523a33a036ee99fa19ffd513bc0afc22e1bec29919c3573b421c00decaa67int);
    let e = u_square_times(e, 0xa03523a33a036ee99fa19ffd513bc0afc22e1bec29919c3573b421c00decaa67int, 0x4b0592aa78620e0e974d3d5a7a2c08f17bb58bc110f463ff36449e74088611615ea9c5d42d5ab409114b9d1d38e0aa64c16e20c537474f67a453f8983e6a8f1fint, 0x3ca53c62f47d302f6a12dceabd6733588a36dd77a5dc451ab2ad3d359b57a4e3int);
    let e = u_square_times(e, 0x3ca53c62f47d302f6a12dceabd6733588a36dd77a5dc451ab2ad3d359b57a4e3int, 0xac00ef840cc2fa7907b982603f46f7d289ded36381426b32e5664e6bad42d88b483935b266f6e6740d13f9b63026384a8d03ffd8205c52e5ba82b8e72896900int, 0x6c4fb8f874baa4ff53267be0e4d74d965261d1b1122c953d5ef4eab1025a5e72int);
    let e = u_square(e, 0x6c4fb8f874baa4ff53267be0e4d74d965261d1b1122c953d5ef4eab1025a5e72int, 0x2dd35ce5517b9f57efc62e1a333e0869b5c8369690e5a1bd0a6e8b09ae5bab88int, 0x484d6e42c654c8ee90b40394e87ccfd54e6004d0f4a901e01d32c735187bd53cint);
    let e = u_square(e, 0x484d6e42c654c8ee90b40394e87ccfd54e6004d0f4a901e01d32c735187bd53cint, 0x146ba571133873e2caf43090bc5aeca796c4bdda34bfcd98eaa33d968f39fbacint, 0xc6b8b48a8759f59fcc5b0e1df7c389b667d5c4bfbfce76fad1230c5aec5d5364int);
    let e = u_square(e, 0xc6b8b48a8759f59fcc5b0e1df7c389b667d5c4bfbfce76fad1230c5aec5d5364int, 0x9a423c8a4fd4d290fbc8250e42ab5ff02cbc8ad407c441ed51cd662a5305e428int, 0xc5d2bf4e644d4e983aa042c09de2e6aeb47f3ca8caf172c72bac3c3ddf4e8e8int);
    let e = u_square(e, 0xc5d2bf4e644d4e983aa042c09de2e6aeb47f3ca8caf172c72bac3c3ddf4e8e8int, 0x98de07ed11f19b77ddaa5ea821c7ef12dccd7168e7eb4e243ce41488ec2772int, 0x320045dff473fa026432fc797d9d38690b6cdfb6907a8cee9963b5adb21f5c4eint);
    let e = u_square(e, 0x320045dff473fa026432fc797d9d38690b6cdfb6907a8cee9963b5adb21f5c4eint, 0x9c41b4b8e8fcb5b3f640deca34ea63866ec2704b5f2209191391c55619ce699int, 0xcdc7219dae4318bb8e3df20f73f526a4de9bd6aab58940e52b2c72086082c1ebint);
    let e = u_square(e, 0xcdc7219dae4318bb8e3df20f73f526a4de9bd6aab58940e52b2c72086082c1ebint, 0xa56886bbd0a669f956b251e86e0c276ed254f63130e9d01f3b0e75cfe3c74768int, 0xc41d28df3860ad90f73f2d983d3a6c9c2e4a161d79474402e606d95dc6e5a451int);
    let e = u_square(e, 0xc41d28df3860ad90f73f2d983d3a6c9c2e4a161d79474402e606d95dc6e5a451int, 0x963ca9e8176d53eec886e265ff22ab80b55e19a3602d9a1ed7c4f911471559deint, 0x4492195a879dcbb960998fa0e83258b3bbc3df6860b9e7053d4f1ba9e150b243int);
    let e = u_square(e, 0x4492195a879dcbb960998fa0e83258b3bbc3df6860b9e7053d4f1ba9e150b243int, 0x125df0d905d152b74f5904cc404bfa500542fe1b6abd7341e379636e7ec185b4int, 0xad51e258ec0946f9eca4d09b670e45af36b9266d86ec6fcb8cdbf41de5f396d5int);
    let e = u_square_times(e, 0xad51e258ec0946f9eca4d09b670e45af36b9266d86ec6fcb8cdbf41de5f396d5int, 0x57ce02322b0ed657bc8014cdc9eba66fa1af0759008ca133650cfafa287a28cf2d92e7542d3718c79c4df0f0c540d3d4be5fd9a7ae7fc4df0ffa1fc956f6c6d0int, 0xfce4906da4bfab8050970225f40409c4fb57576642c05b74232c4e46414bb682int);
    let e = u_square(e, 0xfce4906da4bfab8050970225f40409c4fb57576642c05b74232c4e46414bb682int, 0xf9d2c8697122575b71676262d2a389550c20396cb85e2788d2b6beab1ceb805cint, 0x5561c2a334c45ae2d0d098ab5310041c0adec785860688c0d22b48187f7e26a8int);
    let e = u_square_times(e, 0x5561c2a334c45ae2d0d098ab5310041c0adec785860688c0d22b48187f7e26a8int, 0x154ef8f1e74ab80025a0f1f1a912a90de74e446b165438b8722bc1cd5597d4412929238df3d5cb8e26ebc5a03f9e1750dcca1db5e0cf8b45e7f3b2296f633324int, 0xe930f9ed3d35b59f9a1405513ab97c159489218f4cd458096d185140afe2345cint);
    let e = u_square(e, 0xe930f9ed3d35b59f9a1405513ab97c159489218f4cd458096d185140afe2345cint, 0xd46a3050866215ad81b7a040db23f04667f77551b7dc77e3883afa7353fb739cint, 0x6daf718da1f1387e671ed8715695c113ccec2c79824eb67023440b91f70a8a74int);
    let e = u_square(e, 0x6daf718da1f1387e671ed8715695c113ccec2c79824eb67023440b91f70a8a74int, 0x2efedeef0de929399eaa5f1da9e8e24be59bc7bddb277c2b1f87017d256aa882int, 0xd9c03121ce759a5dadf28faa695af483bad9aea18ab6226ad58f8f3b33a7798eint);
    let e = u_square(e, 0xd9c03121ce759a5dadf28faa695af483bad9aea18ab6226ad58f8f3b33a7798eint, 0xb93763950c27059a43554699546ab7b83f62a0a2ab0b6216f785435a721ac98bint, 0x9f4198404524adeaa2a438437dfaf88d16b787309832ca1d65a7ab172bb01379int);
    let e = u_square(e, 0x9f4198404524adeaa2a438437dfaf88d16b787309832ca1d65a7ab172bb01379int, 0x63128bee81130ee7fab8f6be99813ceee0e25386bc7ec9fe31919ce19299d806int, 0x6e5d585e0bf3932b26ceec453a12ac05a610eb374bf77b5b71966a3b3adcfabint);
    let e = u_square(e, 0x6e5d585e0bf3932b26ceec453a12ac05a610eb374bf77b5b71966a3b3adcfabint, 0x2f9459fa251acc363f509a2858756323c068a304b12d86b6c01d0eac1e7fb9int, 0x9ab1718a501db9795208261a2395da910a8e066f2580639a7ce6465ec4619540int);
    let e = u_square(e, 0x9ab1718a501db9795208261a2395da910a8e066f2580639a7ce6465ec4619540int, 0x5d79f7989c01f1b52750e5b32483e77f41c95ceded4eb9b96c8867d2233f48daint, 0x710b2940a35ef0bc46c714a0a4ba7a9f9e5b25bc2b725e459ac8b7abeef6b6a6int);
    let e = u_square(e, 0x710b2940a35ef0bc46c714a0a4ba7a9f9e5b25bc2b725e459ac8b7abeef6b6a6int, 0x31eadae7a26d9f5567808be62e279b02d1dae9bef278ecae18f9263f67f8d9edint, 0x9d12350619840171b8506f9bc5bade7e125e1ac885fd5475edcfdc7a13d5f177int);
    let e = u_square_times(e, 0x9d12350619840171b8506f9bc5bade7e125e1ac885fd5475edcfdc7a13d5f177int, 0x481cf13561f5b5927954c68dc82bc12b10eaf27bd1ae594ab109c065467a85162b81e5c69ca59387ff3af56b996cb00364e10a0075ce04710a5dfdcad2ae8f93int, 0xdf0aea03711fb46c5937d5bd5a9642c79d57293ad85ba0c2fd320fe535a8f72fint);
    let e = u_square(e, 0xdf0aea03711fb46c5937d5bd5a9642c79d57293ad85ba0c2fd320fe535a8f72fint, 0xc25404291d445da8aa778d9598d379a99cddf6c250e6c3bd75c555189b4227d4int, 0x3a5e6536f708e73a8e20fb40b5220555cbca1366332c083d4f1b2708f3bac9cdint);
    let e = u_square_times(e, 0x3a5e6536f708e73a8e20fb40b5220555cbca1366332c083d4f1b2708f3bac9cdint, 0x9f54deae4dd15f695565b952b5c52e583c1d8e8f8e6dfeea4cc7772d77a5c2c7552c4929012a49c2dcf0a6884ddba9cf1ce59eedda99d29f7652fbf4bf64b1fint, 0x14a2d63300013ec07b762f906e7369de7a619473cdcb55fe0d248eeefe4d9353int);
    let e = u_square_times(e, 0x14a2d63300013ec07b762f906e7369de7a619473cdcb55fe0d248eeefe4d9353int, 0x13ea6b7e6862054dabbb02a2fa70c6b6df25417135a34064c96f9fd63650dd7e8bef8753f6133238024a64cfd2fda7dbff63421e1dc7965c710811463ee2844int, 0xa712d99e6bacf12a08060d94d930cbb652800bd45fdabaa24c622412172e6d6eint);
    let e = u_square_times(e, 0xa712d99e6bacf12a08060d94d930cbb652800bd45fdabaa24c622412172e6d6eint, 0x51970b92780324ad55ea3f8c0bad63449012616e6d779124bfceab5a3a72855511f4be8bbb1983f6fe6a51838563d4cf79217d94b16af6a9e410d25a2e17b911int, 0x4d86d62a6c1e38f8224047add714beebf916892a04cba9d54116c184f5cc77b7int);
    let e = u_square(e, 0x4d86d62a6c1e38f8224047add714beebf916892a04cba9d54116c184f5cc77b7int, 0x177a63da6c9e51b3173194bb1609903d2d6b49bbf6eb5046ca00aa6f59322c26int, 0x4d909c49131b1a6bea28b7e4c59c809b81281a6d1da087c08e992a03b6acc92bint);
    let e = u_square(e, 0x4d909c49131b1a6bea28b7e4c59c809b81281a6d1da087c08e992a03b6acc92bint, 0x17804fb4271cf08793598c2645d5afae61a9354118eb7010b2fccac76b3685b3int, 0xdb6f4ee61786961ef2478eaf14327437e86d8d0deb271546563714c95f5027c6int);
    let e = u_square_times(e, 0xdb6f4ee61786961ef2478eaf14327437e86d8d0deb271546563714c95f5027c6int, 0x8cbea7f51dc2db0d231e52b5a861f62b4214ff75949441ce7feb82cf34cf182bed61c70ef1f1bbd88998b72a0f622a6490b5a3536387a6070d301cc25c3ae41eint, 0x9bc6a7f8280d33a3a0c1f305fd4770a97a1cdcff6b81b5027d7edd6e549a642aint);
    let e = u_square(e, 0x9bc6a7f8280d33a3a0c1f305fd4770a97a1cdcff6b81b5027d7edd6e549a642aint, 0x5eca298ec293a5c2deff31e31c168345d868db63079d6f9e0ebccfc2fce81ef0int, 0xec8275d3693dcf795d2ced4b0aa14040d4f7a8afdcfcb443147006dd8c4e0bf4int);
    let e = u_square_times(e, 0xec8275d3693dcf795d2ced4b0aa14040d4f7a8afdcfcb443147006dd8c4e0bf4int, 0xa38019916151d5f90b710cbfcde48b08b509fb7d201d3dd0727364355b751e127c60d828ffce5dc39719ba02e3282b8de0845feb344ca5950f584889d6b1856dint, 0x63d8b0e11204adfe165d2faa4b2e351cdf40767a6144d4f5576e7e2ede170173int);
    let e = u_square_times(e, 0x63d8b0e11204adfe165d2faa4b2e351cdf40767a6144d4f5576e7e2ede170173int, 0x1d23c971c33588dbdf17aafabd5cb6c7bbb057871823d9efa5dacb554699cdfcb93c2463df6154841e6782c580414229c6566317eaa05539bc88e7961961b8eaint, 0x7b5cc9a959b624b9691e91dd7059d2f456bf49fd618a64e05cc04514b4d4cec8int);
    let e = u_square_times(e, 0x7b5cc9a959b624b9691e91dd7059d2f456bf49fd618a64e05cc04514b4d4cec8int, 0x2c7b77be8ec40a89a5d2015a0dc7c259e82c54b9649ac3fa846dfa3aefcb9a462fc7abc04c469ca717774456574d0a32ce1ba7fd0f67f5ee7bda17a4e8af7a3eint, 0x9fa09c0545000b39d53b3e27e441ab051711c09f81cafa61bdc4c9adbcb928c2int);
    let e = u_square(e, 0x9fa09c0545000b39d53b3e27e441ab051711c09f81cafa61bdc4c9adbcb928c2int, 0x6388e691f162ba33b1721372f4e7e52ac8e0432b5ea68fe938548754ebb1fa78int, 0xdd3cdf500c1aa8be3ff0a334c47a31d620e309fa0c1f172aaf77eae880c8228cint);
    let e = u_square_times(e, 0xdd3cdf500c1aa8be3ff0a334c47a31d620e309fa0c1f172aaf77eae880c8228cint, 0x8f112e0f86c55fe498c67b9ec5ba7c8c4783d8a93455a8e3ac2b0538640e287d077bfca012e03da0fbea2d4f604d8bd0f6432c83ea572bb15f9084146994a8ebint, 0xce1fef3215e39af2a625d60bddfbffcbc0ccab0e30247fbe35f13dc5719db875int);
    let e = u_square_times(e, 0xce1fef3215e39af2a625d60bddfbffcbc0ccab0e30247fbe35f13dc5719db875int, 0x7c304318bd1d97508334ef79f73c005a562c172bd8aefa2f67d1bf8277232361fc2ae8d624993373ed5d1d15e9d0f3299f55b6654d53227e79deceb1e2281d01int, 0xf32644fe7d61875f57fad7ff3da3fb8fd2578ba017af4526df61a29928950b91int);
    let e = u_square_times(e, 0xf32644fe7d61875f57fad7ff3da3fb8fd2578ba017af4526df61a29928950b91int, 0xaccf43c53735a0586c6294d9d62284d14a5ab3a7b72e0528fdce0b296c281a86803bcb2f1f902d5580a13d021905d737bc31674e69d4e3587b935479c87fbd91int, 0x69773f1eed3f1f171461fb2834a62af30d1a750c9fd3f44390239dcb690dd751int);
    let e = u_square(e, 0x69773f1eed3f1f171461fb2834a62af30d1a750c9fd3f44390239dcb690dd751int, 0x2b7309531cee94b15e23e7b08805f5541b564c4033243c90348dcf389b0452b6int, 0x2ea604d9b2c8a283e867736248023e4f1b49bea506f9ed93b3c3ed753dd5f16bint);
    let e = u_square(e, 0x2ea604d9b2c8a283e867736248023e4f1b49bea506f9ed93b3c3ed753dd5f16bint, 0x880156886ab7d5104a9d5c1f4c9145efd8b12cc06f993e7530bfebdb1c48b24int, 0xb458f8fe926c8a8ad20a126b89fe809493446abd33467fedc0381926f9e52a95int);
    let e = u_square(e, 0xb458f8fe926c8a8ad20a126b89fe809493446abd33467fedc0381926f9e52a95int, 0x7f0d3d121f1b864ba65e6f4bbb5857c91407992aef26e04e3b700de97c70838aint, 0x9c79a6c7ed57499f74f1b1f4f050107dc5346512314103d9d1941420693caafint);
    let e = u_square(e, 0x9c79a6c7ed57499f74f1b1f4f050107dc5346512314103d9d1941420693caafint, 0x5fa47d12bee8a22dfc7d1b025f0e660995376aaa5984dbfeb798162b230eb6int, 0x56f1f9251e375135e6931c5f5ecee5888582ee7ec1ce22c3f9a6ef98c46bb16bint);
    let e = u_square(e, 0x56f1f9251e375135e6931c5f5ecee5888582ee7ec1ce22c3f9a6ef98c46bb16bint, 0x1d87781bfaa948e079f04f26f3f1f2e2d8559d0a3d9b521f52e17b75eac587bfint, 0x4edeae43e1cd99a24833c59243a39a44e1d53dc7f5009bd33bdbe2130c7e2c3aint);
    let e = u_square(e, 0x4edeae43e1cd99a24833c59243a39a44e1d53dc7f5009bd33bdbe2130c7e2c3aint, 0x184c73e411f54328cf16d876a39745a65480b9f30e2fd124e13d15b1c04a40b7int, 0xf38ac8bf4d2d3b1d87bc873dc3bd6bf918285b3ce2d524184a6ceca9fcd917adint);
    let e = u_square(e, 0xf38ac8bf4d2d3b1d87bc873dc3bd6bf918285b3ce2d524184a6ceca9fcd917adint, 0xe7b0c458382e8a88b8a6d7b5c882b4d222b0155cc7d749f6a8339810572500edint, 0xeb3e6f964bca35f902f290719afcad12038f5ede5f4465fd15089cae75db21bcint);
    let e = u_square_times(e, 0xeb3e6f964bca35f902f290719afcad12038f5ede5f4465fd15089cae75db21bcint, 0xa1c14c8b45e9e3073663047f234858d8bfcc23dbd2174105c74642c348fe5a28ec6251911a4c43bbef56621a81f68e52795823ad2ea37014dd4d73ecd55fe422int, 0xfc2cb3cb566ca4508eb7a156e2f4c77a6cead1100b3dfdf03fcbb9bd6d66137eint);
    let e = u_square_times(e, 0xfc2cb3cb566ca4508eb7a156e2f4c77a6cead1100b3dfdf03fcbb9bd6d66137eint, 0xb9e053572759581b1f0eb0fb5fea84053e6aaeaf6ec10cd747e16db7ae20d566c554bd5662c894d7aff2cb0462dc79784ac861677e92c3d34f622d1a066b14adint, 0xccce520302ed062bd78942c2bac975dd1f642af8720b751838cdb76c7b16e9bint);
    let e = u_square(e, 0xccce520302ed062bd78942c2bac975dd1f642af8720b751838cdb76c7b16e9bint, 0xa3d978fce3c86534b79c6df5e3c34f198e85fe9ec6cd1c293eac1ceb39ccabint, 0x7c20b13c2e069bc9c960c3c4d85acfcb127e524d718f51ba5c3e26c199692f6eint);
    let e = u_square(e, 0x7c20b13c2e069bc9c960c3c4d85acfcb127e524d718f51ba5c3e26c199692f6eint, 0x3c2fafdf16562e5d2c54850e07823740e77a7bb73b7ee1055b40dd7e8aa6f989int, 0xdd68937af036476ec720507fc726cef96769c1546a01fed2b684048be05e6e7bint);
    let e = u_square_times(e, 0xdd68937af036476ec720507fc726cef96769c1546a01fed2b684048be05e6e7bint, 0x8f49b9acaf4900ac0eeb62bebc350c0be4959983667969984e8988c7e5414531f6b7fa09b6fa46f0599f6d5e45ec9eae080155674da97729465b6bb96fa9db24int, 0x152b6d9827608470b2fd927ad93eb600d8aa21ec51bfa4e5158d0db116b580eeint);
    let e = u_square(e, 0x152b6d9827608470b2fd927ad93eb600d8aa21ec51bfa4e5158d0db116b580eeint, 0x1c02758f67dfc1df4ad8635c857bed08feb8d1961721737a1d782328d714fe6int, 0x3a10959834bf1a3ba4a164e1c8c29483cc1a2c0d3b171a1476ed369b0fe82ddeint);
    let e = u_square(e, 0x3a10959834bf1a3ba4a164e1c8c29483cc1a2c0d3b171a1476ed369b0fe82ddeint, 0xd2b84dc0257b7ab70647baaacd9489598ddbe1d7c5a2ba84051c53aef36d417int, 0xdfd82ec0abb81c5913d038dfd6d6e465997d6071338dd55e202dbf9c18f81badint);
    let e = u_square_times(e, 0xdfd82ec0abb81c5913d038dfd6d6e465997d6071338dd55e202dbf9c18f81badint, 0x927551ab5bbc6c73b043761e16b4043cac5024706d8ca66d0b067ca7ea999385177ea49946a2032267c4fde15e0f7d980a1455093ff552b3f3030c67f7329518int, 0x2b667e2ed23103e8f51cbcb39c02a509b605b05cee5292abdbd00d2b6a67439aint);
    let e = u_square_times(e, 0x2b667e2ed23103e8f51cbcb39c02a509b605b05cee5292abdbd00d2b6a67439aint, 0x58171b8e09fe6ee935527350a4bdc5ddd4d5e97699124caad5c9ec72551c78b106964cfe780c87f17060bf690d87397056938325dd82d72f655c765cfb59b1dint, 0xf92dbb6cd253c9569edbee8d660c9acd2bac352c78a9d325ccd2be49ff88d56bint);
    let e = u_square_times(e, 0xf92dbb6cd253c9569edbee8d660c9acd2bac352c78a9d325ccd2be49ff88d56bint, 0xb57c626df47628b5036d4a8f4d6163b8e944fee19e2d51e65014767709cb6ad130048d81b12e7b5525d11427f842aeb190662fc1019449dfde0c8c58ccb86300int, 0xbc9b30a75b346efd1f90abe1a0e7aada689e283b5a6039d83d71d2dbbf200952int);
    let e = u_square(e, 0xbc9b30a75b346efd1f90abe1a0e7aada689e283b5a6039d83d71d2dbbf200952int, 0x8af44d89c1dca41df566c15e3226269124a60acb880eeb10704263531d35c5b9int, 0xea89ccb6ef1d21ebb8731267c2269b8add08075d0a90e876a514108799f5b14bint);
    let e = u_square_times(e, 0xea89ccb6ef1d21ebb8731267c2269b8add08075d0a90e876a514108799f5b14bint, 0xa0c9422de348fade3490cebb32344ede67ae12f75cf2bdb86bf49cdae1029626dd6c8e4f8ddd45075cc01f5ff753d173a85461a27e6c8e6002f7167eed0b8991int, 0x753918516a5a1d0983af1db27dfc270660dc3d21b73cc42b8d3239bbafa4e801int);
    let e = u_square(e, 0x753918516a5a1d0983af1db27dfc270660dc3d21b73cc42b8d3239bbafa4e801int, 0x35ad3cf641c71880ff419d9ada0f9c715f14e49a8a9ed6b9b5ca3603410df70aint, 0xc1910a297684907c66fa01d02c95975609657b9ee728d58be2fbe16725288c77int);
    let e = u_square_times(e, 0xc1910a297684907c66fa01d02c95975609657b9ee728d58be2fbe16725288c77int, 0x6d845fb7c0c971da307fce66c7a16d1eb36cc048915d2af4f92a9e780fa0e66b2ac02e8d7c78e9057d6a975867c721d36834d95ca0b6daca818a8c2f7eb0e141int, 1int);
    assert(e == 0x10dbff26eab8198050172ee03275int);
}


/// A step of the chain that shows the order of `w`.
proof fn w_square(e: int, x: int, k: int, y: int) -> (f: int)
    requires
        e >= 0,
        pow(0x80894521654e00cb538d9bbda87ca1924c43e68444848439d39a6b50ed475170int, e as nat) % 0xfffffffffffffffffffffffffffffffebaaedce6af48a03bbfd25e8cd0364141int == x,
        0 <= y < 0xfffffffffffffffffffffffffffffffebaaedce6af48a03bbfd25e8cd0364141int,
        x * x == k * 0xfffffffffffffffffffffffffffffffebaaedce6af48a03bbfd25e8cd0364141int + y,
    ensures
        f == 2 * e,
        pow(0x80894521654e00cb538d9bbda87ca1924c43e68444848439d39a6b50ed475170int, f as nat) % 0xfffffffffffffffffffffffffffffffebaaedce6af48a03bbfd25e8cd0364141int == y,
{
    square(0x80894521654e00cb538d9bbda87ca1924c43e68444848439d39a6b50ed475170int, 0xfffffffffffffffffffffffffffffffebaaedce6af48a03bbfd25e8cd0364141int, e, x, k, y)
}

proof fn w_square_times(e: int, x: int, k: int, y: int) -> (f: int)
    requires
        e >= 0,
        pow(0x80894521654e00cb538d9bbda87ca1924c43e68444848439d39a6b50ed475170int, e as nat) % 0xfffffffffffffffffffffffffffffffebaaedce6af48a03bbfd25e8cd0364141int == x,
        0 <= y < 0xfffffffffffffffffffffffffffffffebaaedce6af48a03bbfd25e8cd0364141int,
        x * x * 0x80894521654e00cb538d9bbda87ca1924c43e68444848439d39a6b50ed475170int == k * 0xfffffffffffffffffffffffffffffffebaaedce6af48a03bbfd25e8cd0364141int + y,
    ensures
        f == 2 * e + 1,
        pow(0x80894521654e00cb538d9bbda87ca1924c43e68444848439d39a6b50ed475170int, f as nat) % 0xfffffffffffffffffffffffffffffffebaaedce6af48a03bbfd25e8cd0364141int == y,
{
    square_times(0x80894521654e00cb538d9bbda87ca1924c43e68444848439d39a6b50ed475170int, 0xfffffffffffffffffffffffffffffffebaaedce6af48a03bbfd25e8cd0364141int, e, x, k, y)
}

proof fn order_of_w()
    ensures
        pow(0x80894521654e00cb538d9bbda87ca1924c43e68444848439d39a6b50ed475170int, 0x978c6f353c3889a79int as nat) % 0xfffffffffffffffffffffffffffffffebaaedce6af48a03bbfd25e8cd0364141int == 1,
{
    let e = first_power(0x80894521654e00cb538d9bbda87ca1924c43e68444848439d39a6b50ed475170int, 0xfffffffffffffffffffffffffffffffebaaedce6af48a03bbfd25e8cd0364141int);
    let e = w_square(e, 0x80894521654e00cb538d9bbda87ca1924c43e68444848439d39a6b50ed475170int, 0x40898ebc75b7733f7fcd7d2925c6a35c58764624e12190e953737c1585210567int, 0x51e1d3bd6c6fcd3986aa6dd0d88ef8e8a00b10816bbddbbd0041feb4a28c8ad9int);
    let e = w_square(e, 0x51e1d3bd6c6fcd3986aa6dd0d88ef8e8a00b10816bbddbbd0041feb4a28c8ad9int, 0x1a30af33c0b9294ebda6f1fd20db533df5541ae10f7fc8f4a1ee55049d37474aint, 0x62d5adf1391176f92967602d2e81a6bfb202338c0440c3611ba60be6aee7c827int);
    let e = w_square_times(e, 0x62d5adf1391176f92967602d2e81a6bfb202338c0440c3611ba60be6aee7c827int, 0x13289ba20edcf804933248e70ccf99a2499e226590f5405b406538326ae0d90aaa021f78e0eb775b546e1db82b30753463cd53b4c7d6f0a1b12b56326778ae4fint, 0x7810c254393dc61e2f967d3eea1bd3974a65c6b86a3b6e5262158b2601a38961int);
    let e = w_square(e, 0x7810c254393dc61e2f967d3eea1bd3974a65c6b86a3b6e5262158b2601a38961int, 0x384fb747d3b4d3ec4dff5d4b68d34c9e0d432882afbbe35a16ccfd40014981b5int, 0x7a512a0ba328a9dd74d2f621f29b18839c32b4464c3a42a47b75dce2937812ccint);
    let e = w_square_times(e, 0x7a512a0ba328a9dd74d2f621f29b18839c32b4464c3a42a47b75dce2937812ccint, 0x1d5811679d06cfbda4798a14abe2e6715f5053357eda8374ffb7cd48aad1d670997848eeacb9cbf752ad1de9f4c8f5732f4572e3beda05ab77ab396bcf8c7645int, 0x4b5195775ebdafa00daa43d684b9ca705a86c2debc688fdc762b6b6a864227bint);
    let e = w_square_times(e, 0x4b5195775ebdafa00daa43d684b9ca705a86c2debc688fdc762b6b6a864227bint, 0xb2055a9c7c034d0657ef995aed465d251ebb46888d1971771b655f822a632d7253782c8f54aba1cc1084dede498be02a5a5820d38642a586bce1556978ad2int, 0x3e8170c44affc87022043fb94090a36baa50b860b26540d2921d7630b5ad729eint);
    let e = w_square_times(e, 0x3e8170c44affc87022043fb94090a36baa50b860b26540d2921d7630b5ad729eint, 0x7a9a8fc9cf579797f927d12cf1172d2f72d7df168a0c1eddb6c68280b6469881a31f77eacbbd53bacad115a96bce9994864e160f103bbad5d47b45e3a45e53cint, 0x1bb0c26f2acdd5adce7d2e1623d59acb8d2bbdc89a65bbad43e7694377ce7d84int);
    let e = w_square_times(e, 0x1bb0c26f2acdd5adce7d2e1623d59acb8d2bbdc89a65bbad43e7694377ce7d84int, 0x180fcad219b537330e39742fd00e1b1753b72d9b50ea1e039e1e4fdb51970d3bf002ef28614394d1707d0db98ad7d0eab338e91ec1b61b3512ef19a5d822f1bint, 0xaa5164a80e428aade2f2367ab796d0978220550f2a233d39b6e79b9d221e8625int);
    let e = w_square(e, 0xaa5164a80e428aade2f2367ab796d0978220550f2a233d39b6e79b9d221e8625int, 0x715033900cdd1fc167ec839f5f8f4c9bbc3fcf0bf3ccfe200df7a8e4fad3c822int, 0x392166a510438384637197dfa76fceb958a900caecc095b4f42486f43e344eb7int);
    let e = w_square(e, 0x392166a510438384637197dfa76fceb958a900caecc095b4f42486f43e344eb7int, 0xcbfe41120f4355ca147c3101cf7f74b3d8822bcd171ffea58b1d5154e854d34int, 0x9932e20f46bcdd68ed5a95bf80dd0b83df1e0613fc86552b6e3f4f076521389dint);
    let e = w_square(e, 0x9932e20f46bcdd68ed5a95bf80dd0b83df1e0613fc86552b6e3f4f076521389dint, 0x5baddc5358245c3cbd4e082c7b42b5d4bee7520b5f35b48144d838f98b384faeint, 0xf193abd5f679934ada919aa8c990464c30f1afb139ee30d6d412d015b2c3a71bint);
    let e = w_square_times(e, 0xf193abd5f679934ada919aa8c990464c30f1afb139ee30d6d412d015b2c3a71bint, 0x7275ec4cec78e3150b703f3f84c07edc0b77f7c1af3d3b38d3607eaca263945fd60c75f954cdf12f454cb26acf9e5f7930f29e34589fb8a81becb4eb403a1898int, 0x22d358f290a71c908a4ba757557d2522c439d945a9e9d3abfb96bb73871b7158int);
    let e = w_square_times(e, 0x22d358f290a71c908a4ba757557d2522c439d945a9e9d3abfb96bb73871b7158int, 0x260f3620a840c4f069e86a4190ffa98c2c7fdfbde67b58f1e424cc58ee6a13f40f57adb47b449a07183e62926f94744b5eaae84645b35b864ca8da713e90372int, 0xf2ffda96a56dea8645dd8249dba7a8065dbf5d16b246d655e52bbe93f466aa0eint);
    let e = w_square(e, 0xf2ffda96a56dea8645dd8249dba7a8065dbf5d16b246d655e52bbe93f466aa0eint, 0xe6a8b8fa03864ac48eb85d76f727d10f2edd5a55b4546606f98bf392380cb670int, 0xd1ae63f28821647967d0a7f2965a32be382f1b74c937a2dc8ac7ece5b2f1d654int);
    let e = w_square(e, 0xd1ae63f28821647967d0a7f2965a32be382f1b74c937a2dc8ac7ece5b2f1d654int, 0xabbe35fe06fd0e824bc72cce1cb05951cf2fb66593f9f6cb5969d26fb808df3fint, 0xae5d30d4799f1df938185b16f555e16097e46e79933548ca869b78fbcb5edd91int);
    let e = w_square(e, 0xae5d30d4799f1df938185b16f555e16097e46e79933548ca869b78fbcb5edd91int, 0x76c2d04d5905084fe3e2c48f44cb967cbb14599a7b653590e279a60ca604d2dfint, 0x27c5f9f05d31185d323fb578ccd6f7aaebc85f9ba7219d8cd9497d3660718282int);
    let e = w_square_times(e, 0x27c5f9f05d31185d323fb578ccd6f7aaebc85f9ba7219d8cd9497d3660718282int, 0x31a45df0331ecc4f78a0c8754e5e39648121efbd2b3d65089487f8d956be032b48673f3ed4c906c82781ee5451055f42afa8abb3e0d9ed73d74f41929bc8668int, 0xcdd8c31b8fe4cf7bab6cb52c91aa622d0eb7cade130a495f15740a171ef91d58int);
    let e = w_square_times(e, 0xcdd8c31b8fe4cf7bab6cb52c91aa622d0eb7cade130a495f15740a171ef91d58int, 0x531b30d045f67b111a19c7abde777e4fc9716bfca23024424bd54038f3553cccf86c4a81e65c283b9064bf2823b72ed6890232a4fb253e64ca250e33f08ec1b6int, 0xb322268769978909274f56118802d89897c4209ed1129d0c1dbaff18832616caint);
    let e = w_square(e, 0xb322268769978909274f56118802d89897c4209ed1129d0c1dbaff18832616caint, 0x7d58c66f9f6e70dcb9764aded87c571e7558a08df3df020cd658fb9f06654fa2int, 0x5a7d2f1550b235b7092674a6ba106de384887235fd7d39006c80bc32bce1fd42int);
    let e = w_square_times(e, 0x5a7d2f1550b235b7092674a6ba106de384887235fd7d39006c80bc32bce1fd42int, 0x100f47cba80a81c258c03e1c931230ee886ca23511b86ca0de89277183cab87927307d414b7dd21624045bfb4d593c72266747705e9bf1045f21eddeb23a11a0int, 0x3ec6736f8e17d2d290ede99fdbff63846f6b8bf81d0b0750558ca42509045c20int);
    let e = w_square_times(e, 0x3ec6736f8e17d2d290ede99fdbff63846f6b8bf81d0b0750558ca42509045c20int, 0x7ba9deff70aa93632f1ed2eb13c63d587eb58fd31c0903edd8bc824b6435b81e8ba95c60a8a7211d390271bbc677a82c2d330aac167e9679dfe933264bbefb8int, 0x81655ba0b1c6f072f7a3c15f736e942c5622fa3b85e177f1d257ccd808f02a48int);
    let e = w_square_times(e, 0x81655ba0b1c6f072f7a3c15f736e942c5622fa3b85e177f1d257ccd808f02a48int, 0x20d6b92f0faf80af7044495fdcb91e7a844b068de706c7e4dd8bb8df18401b7b6394bd401897c1f1311ed99d195ad9b344b68175481b798e616a0af5ce33f7ebint, 0xc4cf74d52e2ee26ff31c0dc7cb2e1403870070213f50895ca48cf8d737307e55int);
    let e = w_square_times(e, 0xc4cf74d52e2ee26ff31c0dc7cb2e1403870070213f50895ca48cf8d737307e55int, 0x4bf84b489131c00b42c94c368e89d9f3959560d2064b3dd097adee84bb58eb7c81ed9c03f1c9fb5519905b847635a7ec2e300158c68dc303b0f86fe88430fb15int, 0x3d6b06dd14b00f204d1cac328bd7f35f880de6340aced911306f91dec4f28c9bint);
    let e = w_square(e, 0x3d6b06dd14b00f204d1cac328bd7f35f880de6340aced911306f91dec4f28c9bint, 0xebc2e0418da4e47041bbcdc5dd4cdc6039bdd6819bcadd29f3b223ef7e745ffint, 0xc7a5b084bde1b62b15e26f28dc20cc18106600f3530dcb39ff1bf3e4dbfd611aint);
    let e = w_square(e, 0xc7a5b084bde1b62b15e26f28dc20cc18106600f3530dcb39ff1bf3e4dbfd611aint, 0x9bb303ab6408781687a6673812efaaed6daca33a55d571af068610e0e3e91e31int, 0xb6f51f8189da0de03bb26af4cc26b90bb3ae829dfeac0be45b7e71c351079b33int);
    let e = w_square_times(e, 0xb6f51f8189da0de03bb26af4cc26b90bb3ae829dfeac0be45b7e71c351079b33int, 0x41a6d696c408b45c2b0a05880a28ec8025618b7e5abfd7136e2e15c7eb8c667951be2bada52103951c52e7247a06d39e7cff5351ec08118722d8b6370fde4580int, 0x46d3597e8572e7a77517a022502c1d36f4c61cbea9147f9314e67422f73c2570int);
    let e = w_square_times(e, 0x46d3597e8572e7a77517a022502c1d36f4c61cbea9147f9314e67422f73c2570int, 0x9d6a37d99c0534cd06407a34e0a53a2eadfc081ab56d6754469000f0c484ec68b006991ca004f8576042ed69d665286f8c161187312d5a030fba624f03ab4a1int, 0xfa07b598554eebf7c0fc647ebe34c335d2976af38061d1a78bb0f7113a55b21fint);
    let e = w_square(e, 0xfa07b598554eebf7c0fc647ebe34c335d2976af38061d1a78bb0f7113a55b21fint, 0xf4330ee8f5c39277d04b903646e204403dd68394f2fae60a95118fd4c13194acint, 0x7896ce51d00b1eb1675b3056ec92d661af52b4cc4159b4ce176462200fe6b415int);
    let e = w_square_times(e, 0x7896ce51d00b1eb1675b3056ec92d661af52b4cc4159b4ce176462200fe6b415int, 0x1c8552911ab95716322d20c5bcf00dc0481eee1d89df67a56e9d04ca2d5bcea08a970eab0247a2421626b1f597684874ae1bdc7b28fa2417edd58112af8c072aint, 0x3a41245d883ecf950b9f3625472c8361ab5f85699e69287eb0b6d6d8a6d34e46int);
    let e = w_square(e, 0x3a41245d883ecf950b9f3625472c8361ab5f85699e69287eb0b6d6d8a6d34e46int, 0xd41950dde661672e37b94e92cf34d751c7dd93cc99583ea7d32df113f5cad07int, 0xb8ee975988a1da5636f062f2b09efa931ca966dc7b5e2284270df59f1962055dint);
    let e = w_square_times(e, 0xb8ee975988a1da5636f062f2b09efa931ca966dc7b5e2284270df59f1962055dint, 0x43138e4d2570ddb8063fe6272c980cb1ce7a372677ac0fc8b4de1f2fe8d0800bd759cbec648cfb8873342602e39e8a301eddffd6f9ed94284a45982c766aaad4int, 0x46082a673db275e367c302341c5e0321f9b250f58661b83add1d554cd3da0d1cint);
    let e = w_square(e, 0x46082a673db275e367c302341c5e0321f9b250f58661b83add1d554cd3da0d1cint, 0x1328777323377d80fe1d2504a462efe9df9787a93d6a75bafee2c7c87d57d850int, 0x1d6feb6d6268f964b7a50b15e8c27ddd897735edefb54a8d504d6e32ba419ec0int);
    let e = w_square(e, 0x1d6feb6d6268f964b7a50b15e8c27ddd897735edefb54a8d504d6e32ba419ec0int, 0x3628c44c9a920f2c40a788caa063a9f7883fde5cd5acc29fe9afb5d8fd438b7int, 0x8298a9a8fccc81ead1cb49677e131720d8d9ec93e85dd8847f4cdf4df20eb289int);
    let e = w_square_times(e, 0x8298a9a8fccc81ead1cb49677e131720d8d9ec93e85dd8847f4cdf4df20eb289int, 0x21736cf8bb9da649d72c5f6dbb97672cad40f2b5429ddeeece67368b40582faddbaad3d3b6a0506c2fe0a09aefca32d7ace11cfe0b424dc32104523c4e2a3d82int, 0xbd76f315e8889e4277ca702df4be29b7750f29afb00d5d422b40767e2923d46eint);
    let e = w_square_times(e, 0xbd76f315e8889e4277ca702df4be29b7750f29afb00d5d422b40767e2923d46eint, 0x46679d640f4ac26e689dea0272a8cedeef54650fc899269092e2c6d00846818346511e2c0812ac4cfd4e6e05cd6e879fd2ed0e7dcea3711cdefed41ffb29ddacint, 0x6b2f91ccd77ff1e4dbca61b885407e74ce993b7db7019e2b1ca3246d16583d14int);
    let e = w_square_times(e, 0x6b2f91ccd77ff1e4dbca61b885407e74ce993b7db7019e2b1ca3246d16583d14int, 0x168876c80ca250c76201f9ad2a813c9e7c1a6c6efa818c49849f0488ea473002c5255fd1d793de71d729f2c4c85cf8cac3a78130cb0d2ec6fa347927d2d1d614int, 0x3f3bd2228dffcb41d61490311c6b5edd146751887a4787c1afbf7273c1b84fecint);
    let e = w_square_times(e, 0x3f3bd2228dffcb41d61490311c6b5edd146751887a4787c1afbf7273c1b84fecint, 0x7d79fbdb583aacb2b3017b703991851a6cf2202578ee453a8cf88c29933d474abee736322dbf0369d42f470ef00ff4823fb6cf4195bc306eee8e74385552273int, 0xc2a8f44480d65f09c4d0d8df404d5cd72d5524f6a47dd096da86262634d84ccdint);
    let e = w_square(e, 0xc2a8f44480d65f09c4d0d8df404d5cd72d5524f6a47dd096da86262634d84ccdint, 0x940481b95640a954e30309ba7b4495ea9dcef4faa21ad17cd943f558df40b434int, 0x82c0a86bf58e1ad225f8099b42fa39514dcdade60b68033ba2a2141098d366f5int);
    let e = w_square(e, 0x82c0a86bf58e1ad225f8099b42fa39514dcdade60b68033ba2a2141098d366f5int, 0x42c83c0ab62288375d506989637ca705d333c6af78162fbc1e13fbe64b1a0b5aint, 0x967c0e50cc52b304f2cfb5c06e0cbd0d4371105ded44155dd1f42efb9dcb6a9fint);
    let e = w_square(e, 0x967c0e50cc52b304f2cfb5c06e0cbd0d4371105ded44155dd1f42efb9dcb6a9fint, 0x58759ce48e83c9c09baef7e31c6ab093608fbb6cd19dd00331a93abdb404a8f0int, 0x7199d5774a764c7edf08e1e67f62ca3fa2504ee6bc8f6a86ddf0ffd4c3de39d1int);
    let e = w_square(e, 0x7199d5774a764c7edf08e1e67f62ca3fa2504ee6bc8f6a86ddf0ffd4c3de39d1int, 0x32692ae42a532a6e9b7b480798e760fe172292f1e6afa1193a3f6b105658f2bbint, 0xfa6af2e0096dc8b6d242deedb509579ffc74298e48066af7b2eb33d313e1a026int);
    let e = w_square_times(e, 0xfa6af2e0096dc8b6d242deedb509579ffc74298e48066af7b2eb33d313e1a026int, 0x7afde0d0dbf9487c490c4b9aeb181d406c70d9bb2309aa1bdb7f0889bddc0ddd093f0e0fee34cde467bb5a9c4263ebda51ccd8d96e747fd8e891d33f76df85f1int, 0xe673d04a870ad09950d893c58c6eda73f68c6a6a5ec9646b0324659f4736288fint);
    let e = w_square_times(e, 0xe673d04a870ad09950d893c58c6eda73f68c6a6a5ec9646b0324659f4736288fint, 0x68296498de31350f6dfdf70e9b0f8c79b4c1950862479a9a5c0b59697dadf89a6c3a078357afc65bda05983e640af48ec96ab289292a070b8202fb73aeb4ed5aint, 0x3c99eacd817fbc4b896072dd67e800813ad8e6dc5c02cb92ae5bb087ec9d0596int);
    let e = w_square_times(e, 0x3c99eacd817fbc4b896072dd67e800813ad8e6dc5c02cb92ae5bb087ec9d0596int, 0x733f28b0a00ba4b499f29a1ada4767e56991056044ea4750c33dec7ac4c0877def0e1d0cc07168eedc0b79a66a71030c3a7551c347bedd6cb18f80afcd7131eint, 0xd01e888ab546fb46331dbf1780e0d8381bfd8bd5d9f91b5cf13aba4b48c35f22int);
    let e = w_square(e, 0xd01e888ab546fb46331dbf1780e0d8381bfd8bd5d9f91b5cf13aba4b48c35f22int, 0xa931a185afe980b85363427d5759524c9a12d0ba62b1b12df4bbc9d1feed50b2int, 0x36c0d964fd32e497293f065622d57c3ab027179b8a367d352c06fb858fdb9152int);
    let e = w_square(e, 0x36c0d964fd32e497293f065622d57c3ab027179b8a367d352c06fb858fdb9152int, 0xbb5ecfd6ae9a1ddb9dcf12bc89194daf966ab4342e4bf133e614cc7a6b66bb4int, 0xd149ca873e37079ffc9c3243e24ea9943a83b916ce5f8d76980f436cf327f190int);
    let e = w_square(e, 0xd149ca873e37079ffc9c3243e24ea9943a83b916ce5f8d76980f436cf327f190int, 0xab1991f5f4f10b7718e65410339ffdc132ea4bc54358d527432f70a05f17503eint, 0xbeb3e7b31f8fdda9e95ad598575dcaf7f68340b962c2867c792c157080715342int);
    let e = w_square_times(e, 0xbeb3e7b31f8fdda9e95ad598575dcaf7f68340b962c2867c792c157080715342int, 0x4753f1dba01f39601538c8f42c8a3fbf75f3cb257915c5f882ef0f75c105e040d642901fe89a49f40fc77de06f89f93fc3f232158fc8f3987606ef2a46d107ebint, 0x8439f97f35dc76d12bf8e35dda23bc754e64a52989650f703a14d02419d34815int);
    let e = w_square(e, 0x8439f97f35dc76d12bf8e35dda23bc754e64a52989650f703a14d02419d34815int, 0x444bd66c3d5a0cb1f9b41170dedc49191b1cdac1c7f2a9bd62e11d23dffcafdbint, 0x402a060a6c78b387a1484d7398ecb4dae53de08f115e42ede5ebb26df0e8901eint);
    let e = w_square(e, 0x402a060a6c78b387a1484d7398ecb4dae53de08f115e42ede5ebb26df0e8901eint, 0x101509eb31cc6ee108f384fe70cf28d4ab6ecf01d41e1083bf145a25546c188aint, 0xd4f10d9b89e85569ab89141d02bc762e2625faad836271e0b9633aea98b87e7aint);
    let e = w_square(e, 0xd4f10d9b89e85569ab89141d02bc762e2625faad836271e0b9633aea98b87e7aint, 0xb12021843bfb9f69b75ea90f94cf8f7ef9a14e6a1524ebdf658c95b4978cb918int, 0x97feb943fb894ba7635388dd166d0c9bc5111d5876d58ae83782e5a72d123b0cint);
    let e = w_square_times(e, 0x97feb943fb894ba7635388dd166d0c9bc5111d5876d58ae83782e5a72d123b0cint, 0x2d4fa1d0284f118bc5c0c21eda9a567dc6af45ccad347bdd268cbdcae8386cfb2f6cf013dd3a463ee835f6d8127bbe8bfedda75db2694b0eff435e603f3e045eint, 0xe58423ce85e74b606c1c09ee6b3c2e9d4fcfb766099b70b8d1ab482961d25522int);
    let e = w_square(e, 0xe58423ce85e74b606c1c09ee6b3c2e9d4fcfb766099b70b8d1ab482961d25522int, 0xcdc5ac446d8c029941bd78b7c0194f12ea4e00ea499cae7002e69968bed63d35int, 0x67ad793a14781a419eb228e206df9b250947c4425606de24814ba842b8f9990fint);
    let e = w_square(e, 0x67ad793a14781a419eb228e206df9b250947c4425606de24814ba842b8f9990fint, 0x29fd0d19ce6043fb1b44c3e457676c71fefd9f6f5d671d6b59b1c1ffca69b649int, 0x2a9795ce88a12c72e669484bcf2a0de2d500698deb2efefd21991271ab2b1d58int);
    let e = w_square_times(e, 0x2a9795ce88a12c72e669484bcf2a0de2d500698deb2efefd21991271ab2b1d58int, 0x38ed8310f09852f9390b40bea5063e00b1c53353d070d5d04223e47cfd634c8d2a0bf1f1c059dd8c4b830e9cda6b124569a45de69e2461aea41e75879a7ee3cint, 0x4c5b4faf155184c2668a908c194399ab114725d8c26194b0481987b2352fc2c4int);
    let e = w_square_times(e, 0x4c5b4faf155184c2668a908c194399ab114725d8c26194b0481987b2352fc2c4int, 0xb6f623c5005308e4986accc6d3e174ce99ab5d9c315ce79ec5bacbd6fc4821b7ed72e204e8502a05413568f8eab1db469de5dc02d8f3375d31ef90a6a4f8f79int, 0xf70d3b065253c2d2b12a3eb6a4cc7bfc88cba5e75e69deb50968038c134c9047int);
    let e = w_square(e, 0xf70d3b065253c2d2b12a3eb6a4cc7bfc88cba5e75e69deb50968038c134c9047int, 0xee6a88953f1de88eed79870f79d46809e84ce8a61a4534769cff6b50d3926e55int, 0x269ffeee51f2ad8d584efe02c278c42c7970c0f139a0fee1b4e4ffb649585b1cint);
    let e = w_square_times(e, 0x269ffeee51f2ad8d584efe02c278c42c7970c0f139a0fee1b4e4ffb649585b1cint, 0x2ed11ce6be820064e040b582e0ab3e3fa92cd3c7ea120cf2047e7904b00e9ce494d9d16d34399bd92badcba518f99f73ea275921ed0d6723bd26db879191e87int, 0xc4c335165aebdcb08a2d0794c3b227349b783d1e698294260339da8292dbdfb9int);
    let e = w_square(e, 0xc4c335165aebdcb08a2d0794c3b227349b783d1e698294260339da8292dbdfb9int, 0x973b7e242649f0d9f2bd2c3ec8b11346a17d2f8562679878753a81bcd84e2babint, 0xff72f2a76f92bd4fbc2f9d98c6d409274326b179c6eff6e118882090a3085246int);
    let e = w_square(e, 0xff72f2a76f92bd4fbc2f9d98c6d409274326b179c6eff6e118882090a3085246int, 0xfee633069366b049a3e8c877e462ba0029b794c3876161440963e17c153784fcint, 0x4781e9f1c7201d313ce7ead3b24f687319afe7d7b39d755e38320e5319cc2b28int);
    let e = w_square_times(e, 0x4781e9f1c7201d313ce7ead3b24f687319afe7d7b39d755e38320e5319cc2b28int, 0xa075eaa621f8cd84365c3acff176bf111079b9accd2519884ea952a5eb5135c983d84d9000b85c8091ce247f8e1177a31a8eacd717b73075287a9abd1082b19int, 0x560586c60f54387dc7e2fe665b309c0eabdd3f29e98cf39ef0fd459e1cb3b1a7int);
    let e = w_square_times(e, 0x560586c60f54387dc7e2fe665b309c0eabdd3f29e98cf39ef0fd459e1cb3b1a7int, 0xe835b24c9e09aeb7d9a7d4bfe117c6e8336e4cf442e7f72d6a035306a6f054dbf8bde4146a51195a65eea995e9ccb79ae7c3d7af37ca135ec554c4cd4bf8823int, 0x5257e5c8c26f07eca603aa0586f946d87c729b8efecc3dd8f5beb4915310968dint);
    let e = w_square_times(e, 0x5257e5c8c26f07eca603aa0586f946d87c729b8efecc3dd8f5beb4915310968dint, 0xd4c6a6ed466e483eb33550ea7a31e5931839cb2f8c07fbbfbec150e3a6f026fbb72a6df94272391d5d8d9b022602d080bb0d73249f3dc13ac12bdb765f54789int, 0x65618c73a87d7fde4f8a4de122662bd080c47d1d8c20a8d036c78631c842c027int);
    let e = w_square_times(e, 0x65618c73a87d7fde4f8a4de122662bd080c47d1d8c20a8d036c78631c842c027int, 0x1428963d102d6436ec9d7160fd98997e51701d12594ae72af67c42988f965d54499045c842c96c494f11589a30f050b574f7725132a955c41623a9b31e0faf7bint, 0x71952aa2112c493c1779e74b161145643859c98a25f1c43a7faad1bf7971135int);
    let e = w_square(e, 0x71952aa2112c493c1779e74b161145643859c98a25f1c43a7faad1bf7971135int, 0x3265068dbaeaaa7091e8433c79c9e3c11d060c827464497da70f23f6af1ee5int, 0x2d39e26603f1a7b14736411db74cb793138ec45f27b9f919f3d9d87ce61117d4int);
    let e = w_square(e, 0x2d39e26603f1a7b14736411db74cb793138ec45f27b9f919f3d9d87ce61117d4int, 0x7fd66ae7708fe2ed0b0fa194d2d135ea5d0f894a2315474292ccf130eedf14cint, 0x141a88b52ccba96d1a95b18972fc89341685c9e7216b648238c2cae541a93744int);
    let e = w_square_times(e, 0x141a88b52ccba96d1a95b18972fc89341685c9e7216b648238c2cae541a93744int, 0xcaecc4c91d5fab5b6c8b823c2cdd4e73de085f91931e434a62a6ff6985e45268b41b9fc04bdf896e5ea2284497a646a857dfd5cc56fbb57b4ba2ee1c03683fint, 1int);
    assert(e == 0x978c6f353c3889a79int);
}


/// The scalar field has prime order.
pub proof fn modulus_is_prime()
    ensures
        arith::is_prime(modulus()),
{
    prime_341948486974166000522343609283189();
    prime_174723607534414371449();
    order_of_u();
    order_of_w();
    unit(0xbf8ef18068f2b95b4ec1d89e969aaaf80d6a55b047c0187ebebfa98b6a4e7de2int, 0x7e44a52d4b46b005ca417d91243e86645b66fffd04cce22537827794f1dcf541int, 0x5e7bb86e5fdf5478542d5d10c793b0952af41b8a9baf728d11ec83bb8b3e6320int, 0xfffffffffffffffffffffffffffffffebaaedce6af48a03bbfd25e8cd0364141int);
    unit(0x80894521654e00cb538d9bbda87ca1924c43e68444848439d39a6b50ed475170int, 0xb71d6f711f135bed1fea75409caa7f11ceaae5f4618a3e28e0a0711f1f2d3d66int, 0x5bf0e7ec055e92c900f661e11b085cd295dafafcddb58559d48dab7c4f572df9int, 0xfffffffffffffffffffffffffffffffebaaedce6af48a03bbfd25e8cd0364141int);
    arith::prime_by_two_orders(0xfffffffffffffffffffffffffffffffebaaedce6af48a03bbfd25e8cd0364141int, 0x10dbff26eab8198050172ee03275int, 0x978c6f353c3889a79int, 0xbf8ef18068f2b95b4ec1d89e969aaaf80d6a55b047c0187ebebfa98b6a4e7de2int, 0x7e44a52d4b46b005ca417d91243e86645b66fffd04cce22537827794f1dcf541int, 0x80894521654e00cb538d9bbda87ca1924c43e68444848439d39a6b50ed475170int, 0xb71d6f711f135bed1fea75409caa7f11ceaae5f4618a3e28e0a0711f1f2d3d66int);
}

} // verus!
