//! Byte-string helpers: equality, concatenation, decimal rendering of
//! integers, and the handful of fixed labels the store and the resolver
//! use. Text is held as UTF-8 bytes throughout the library.

use vstd::prelude::*;

verus! {

/// Decimal digits of `n`, most significant first.
pub open spec fn spec_digits(n: nat) -> Seq<u8>
    decreases n,
{
    if n < 10 {
        seq![(48 + n) as u8]
    } else {
        spec_digits(n / 10).push((48 + n % 10) as u8)
    }
}

/// Decimal rendering of a signed value: a leading `-` for negatives.
pub open spec fn spec_decimal(n: int) -> Seq<u8> {
    if n < 0 {
        seq![45u8] + spec_digits((-n) as nat)
    } else {
        spec_digits(n as nat)
    }
}

pub fn u64_digits(n: u64) -> (r: Vec<u8>)
    ensures
        r@ == spec_digits(n as nat),
    decreases n,
{
    if n < 10 {
        let mut v: Vec<u8> = Vec::new();
        v.push(48 + (n as u8));
        proof {
            assert(v@ =~= spec_digits(n as nat));
        }
        v
    } else {
        let mut v = u64_digits(n / 10);
        v.push(48 + ((n % 10) as u8));
        v
    }
}

pub fn i64_decimal(n: i64) -> (r: Vec<u8>)
    ensures
        r@ == spec_decimal(n as int),
{
    if n >= 0 {
        u64_digits(n as u64)
    } else {
        let m: u64 = (-(n as i128)) as u64;
        let mut v: Vec<u8> = Vec::new();
        v.push(45);
        let ds = u64_digits(m);
        let mut i: usize = 0;
        let nd = ds.len();
        while i < nd
            invariant
                nd == ds@.len(),
                i <= nd,
                v@ == seq![45u8] + ds@.subrange(0, i as int),
            decreases nd - i,
        {
            v.push(ds[i]);
            proof {
                assert(seq![45u8] + ds@.subrange(0, i + 1) =~= (seq![45u8] + ds@.subrange(
                    0,
                    i as int,
                )).push(ds@[i as int]));
            }
            i = i + 1;
        }
        proof {
            assert(ds@.subrange(0, nd as int) =~= ds@);
            assert(v@ =~= spec_decimal(n as int));
        }
        v
    }
}

pub fn bytes_eq(a: &Vec<u8>, b: &Vec<u8>) -> (r: bool)
    ensures
        r == (a@ == b@),
{
    if a.len() != b.len() {
        proof {
            assert(a@ != b@);
        }
        return false;
    }
    let n = a.len();
    let mut i: usize = 0;
    while i < n
        invariant
            n == a@.len(),
            n == b@.len(),
            i <= n,
            forall|j: int| 0 <= j < i ==> a@[j] == b@[j],
        decreases n - i,
    {
        if a[i] != b[i] {
            return false;
        }
        i = i + 1;
    }
    proof {
        assert(a@ =~= b@);
    }
    true
}

pub fn append_bytes(dst: &mut Vec<u8>, src: &Vec<u8>)
    ensures
        final(dst)@ == old(dst)@ + src@,
{
    let n = src.len();
    let mut i: usize = 0;
    while i < n
        invariant
            n == src@.len(),
            i <= n,
            dst@ == old(dst)@ + src@.subrange(0, i as int),
        decreases n - i,
    {
        dst.push(src[i]);
        proof {
            assert(old(dst)@ + src@.subrange(0, i + 1) =~= (old(dst)@ + src@.subrange(
                0,
                i as int,
            )).push(src@[i as int]));
        }
        i = i + 1;
    }
    proof {
        assert(src@.subrange(0, n as int) =~= src@);
    }
}

/// `"station"`, the terminal location type.
pub open spec fn station_label() -> Seq<u8> {
    seq![115u8, 116u8, 97u8, 116u8, 105u8, 111u8, 110u8]
}

/// `"Direct"`, the chain label of an asset sitting on a station.
pub open spec fn direct_label() -> Seq<u8> {
    seq![68u8, 105u8, 114u8, 101u8, 99u8, 116u8]
}

/// `"Unknown"`, the station name when no terminal station is known.
pub open spec fn unknown_label() -> Seq<u8> {
    seq![85u8, 110u8, 107u8, 110u8, 111u8, 119u8, 110u8]
}

/// `" -> "`, the separator between container names in a chain label.
pub open spec fn chain_sep() -> Seq<u8> {
    seq![32u8, 45u8, 62u8, 32u8]
}

/// `"Container_"`, the name prefix for an unnamed container.
pub open spec fn container_prefix() -> Seq<u8> {
    seq![67u8, 111u8, 110u8, 116u8, 97u8, 105u8, 110u8, 101u8, 114u8, 95u8]
}

/// `"attribute_"`, the name prefix for a nameless dogma attribute.
pub open spec fn attribute_prefix() -> Seq<u8> {
    seq![97u8, 116u8, 116u8, 114u8, 105u8, 98u8, 117u8, 116u8, 101u8, 95u8]
}

/// `"type_"`, the name prefix for a mutator whose type is not loaded.
pub open spec fn type_prefix() -> Seq<u8> {
    seq![116u8, 121u8, 112u8, 101u8, 95u8]
}

pub fn station_label_vec() -> (r: Vec<u8>)
    ensures
        r@ == station_label(),
{
    let mut v: Vec<u8> = Vec::new();
    v.push(115);
    v.push(116);
    v.push(97);
    v.push(116);
    v.push(105);
    v.push(111);
    v.push(110);
    proof {
        assert(v@ =~= station_label());
    }
    v
}

pub fn direct_label_vec() -> (r: Vec<u8>)
    ensures
        r@ == direct_label(),
{
    let mut v: Vec<u8> = Vec::new();
    v.push(68);
    v.push(105);
    v.push(114);
    v.push(101);
    v.push(99);
    v.push(116);
    proof {
        assert(v@ =~= direct_label());
    }
    v
}

pub fn unknown_label_vec() -> (r: Vec<u8>)
    ensures
        r@ == unknown_label(),
{
    let mut v: Vec<u8> = Vec::new();
    v.push(85);
    v.push(110);
    v.push(107);
    v.push(110);
    v.push(111);
    v.push(119);
    v.push(110);
    proof {
        assert(v@ =~= unknown_label());
    }
    v
}

pub fn chain_sep_vec() -> (r: Vec<u8>)
    ensures
        r@ == chain_sep(),
{
    let mut v: Vec<u8> = Vec::new();
    v.push(32);
    v.push(45);
    v.push(62);
    v.push(32);
    proof {
        assert(v@ =~= chain_sep());
    }
    v
}

pub fn container_prefix_vec() -> (r: Vec<u8>)
    ensures
        r@ == container_prefix(),
{
    let mut v: Vec<u8> = Vec::new();
    v.push(67);
    v.push(111);
    v.push(110);
    v.push(116);
    v.push(97);
    v.push(105);
    v.push(110);
    v.push(101);
    v.push(114);
    v.push(95);
    proof {
        assert(v@ =~= container_prefix());
    }
    v
}

pub fn attribute_prefix_vec() -> (r: Vec<u8>)
    ensures
        r@ == attribute_prefix(),
{
    let mut v: Vec<u8> = Vec::new();
    v.push(97);
    v.push(116);
    v.push(116);
    v.push(114);
    v.push(105);
    v.push(98);
    v.push(117);
    v.push(116);
    v.push(101);
    v.push(95);
    proof {
        assert(v@ =~= attribute_prefix());
    }
    v
}

pub fn type_prefix_vec() -> (r: Vec<u8>)
    ensures
        r@ == type_prefix(),
{
    let mut v: Vec<u8> = Vec::new();
    v.push(116);
    v.push(121);
    v.push(112);
    v.push(101);
    v.push(95);
    proof {
        assert(v@ =~= type_prefix());
    }
    v
}

/// `prefix` followed by the decimal rendering of `n`.
pub open spec fn prefixed_decimal(prefix: Seq<u8>, n: int) -> Seq<u8> {
    prefix + spec_decimal(n)
}

pub fn prefixed_i64(prefix: Vec<u8>, n: i64) -> (r: Vec<u8>)
    ensures
        r@ == prefixed_decimal(prefix@, n as int),
{
    let mut v = prefix;
    let ds = i64_decimal(n);
    append_bytes(&mut v, &ds);
    v
}

} // verus!
