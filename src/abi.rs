use vstd::prelude::*;

use crate::error::ContractError;

verus! {

/// The number that big-endian bytes `s` denote.
pub open spec fn be_value(s: Seq<u8>) -> nat
    decreases s.len(),
{
    if s.len() == 0 {
        0
    } else {
        be_value(s.drop_last()) * 256 + s.last() as nat
    }
}

/// 256 to the power `n`.
pub open spec fn pow256(n: nat) -> nat
    decreases n,
{
    if n == 0 {
        1
    } else {
        256 * pow256((n - 1) as nat)
    }
}

proof fn lemma_pow256_grows(m: nat, n: nat)
    requires
        m <= n,
    ensures
        1 <= pow256(m) <= pow256(n),
    decreases n,
{
    if m < n {
        lemma_pow256_grows(m, (n - 1) as nat);
    } else if n > 0 {
        lemma_pow256_grows(0, (n - 1) as nat);
    }
}

proof fn lemma_pow256_16()
    ensures
        pow256(16) == 0x1_0000_0000_0000_0000_0000_0000_0000_0000,
        pow256(15) == 0x0100_0000_0000_0000_0000_0000_0000_0000,
{
    reveal_with_fuel(pow256, 17);
}

/// Reads exactly sixteen bytes as a big-endian `u128`; data of any other
/// length is corrupted.
pub fn bytes_to_u128(data: &[u8]) -> (r: Result<u128, ContractError>)
    ensures
        data@.len() == 16 ==> be_value(data@) <= u128::MAX,
        r == if data@.len() == 16 {
            Ok::<u128, ContractError>(be_value(data@) as u128)
        } else {
            Err::<u128, ContractError>(ContractError::CorruptedDataFound)
        },
{
    if data.len() != 16 {
        return Err(ContractError::CorruptedDataFound);
    }
    let mut acc: u128 = 0;
    let mut i: usize = 0;
    proof {
        lemma_pow256_16();
        assert(data@.subrange(0, 0) =~= Seq::<u8>::empty());
    }
    while i < 16
        invariant
            0 <= i <= 16,
            data@.len() == 16,
            acc == be_value(data@.subrange(0, i as int)),
            acc < pow256(i as nat),
        decreases 16 - i,
    {
        proof {
            lemma_pow256_grows((i + 1) as nat, 16);
            lemma_pow256_16();
            assert(data@.subrange(0, i + 1).drop_last() =~= data@.subrange(0, i as int));
            assert(acc * 256 + data@[i as int] < pow256((i + 1) as nat)) by (nonlinear_arith)
                requires
                    acc < pow256(i as nat),
                    pow256((i + 1) as nat) == 256 * pow256(i as nat),
                    data@[i as int] < 256,
            ;
        }
        acc = acc * 256 + data[i] as u128;
        i = i + 1;
    }
    assert(data@.subrange(0, 16) =~= data@);
    Ok(acc)
}

/// The argument encoding of a `uint128` in a contract call: 32 bytes, the
/// first sixteen zero, the last sixteen the value, most significant first.
pub fn encode(delta: u128) -> (r: Vec<u8>)
    ensures
        r@.len() == 32,
        forall|i: int| 0 <= i < 16 ==> r@[i] == 0,
        be_value(r@.subrange(16, 32)) == delta,
{
    let mut a: Vec<u8> = Vec::new();
    let mut i: usize = 0;
    while i < 16
        invariant
            0 <= i <= 16,
            a@.len() == i,
            forall|j: int| 0 <= j < i ==> a@[j] == 0,
        decreases 16 - i,
    {
        a.push(0);
        i = i + 1;
    }
    let mut p: u128 = 0x0100_0000_0000_0000_0000_0000_0000_0000;
    let mut k: usize = 0;
    proof {
        lemma_pow256_16();
        assert(a@.subrange(16, 16) =~= Seq::<u8>::empty());
        assert(delta as nat / pow256(16) == 0) by (nonlinear_arith)
            requires
                pow256(16) > delta,
        ;
    }
    while k < 16
        invariant
            0 <= k <= 16,
            a@.len() == 16 + k,
            forall|j: int| 0 <= j < 16 ==> a@[j] == 0,
            k < 16 ==> p == pow256((15 - k) as nat),
            be_value(a@.subrange(16, 16 + k)) == delta as nat / pow256((16 - k) as nat),
        decreases 16 - k,
    {
        let ghost prev = a@.subrange(16, 16 + k);
        let ghost x = delta as nat;
        let ghost q = pow256((15 - k) as nat);
        proof {
            lemma_pow256_grows(0, (15 - k) as nat);
            assert(pow256((16 - k) as nat) == 256 * q);
            vstd::arithmetic::div_mod::lemma_div_denominator(x as int, q as int, 256);
            vstd::arithmetic::div_mod::lemma_fundamental_div_mod((x / q) as int, 256);
        }
        let b = ((delta / p) % 256) as u8;
        a.push(b);
        proof {
            assert(a@.subrange(16, 16 + k + 1).drop_last() =~= prev);
            assert(be_value(a@.subrange(16, 16 + k + 1)) == be_value(prev) * 256 + b as nat);
            assert(be_value(a@.subrange(16, 16 + k + 1)) == x / q);
        }
        if k < 15 {
            proof {
                assert(pow256((15 - k) as nat) == 256 * pow256((14 - k) as nat));
            }
            p = p / 256;
        }
        k = k + 1;
    }
    assert(pow256(0) == 1);
    assert(delta as nat / 1 == delta as nat);
    a
}

/// Encoding and decoding agree: `bytes_to_u128` on the last sixteen bytes of
/// `encode(v)` gives back `v`.
pub proof fn lemma_encode_round_trip(v: u128, bytes: Seq<u8>)
    requires
        bytes.len() == 32,
        be_value(bytes.subrange(16, 32)) == v,
    ensures
        bytes.subrange(16, 32).len() == 16,
        be_value(bytes.subrange(16, 32)) as u128 == v,
{
}

} // verus!
