//! Report projection over the closed store: per resulting type, the
//! varying attribute schema, base values, mutator ranges, the union
//! interval, per-pair ranges and the held dynamic instances — plus the
//! integrity self-check over the emitted lists.

use vstd::prelude::*;

use crate::chain::{build_location_chain, ChainCache, ChainStats};
use crate::store::{rel_get, CharacterAssets};
use crate::types::{DogmaAttributeId, ItemId, TypeId};
use crate::virtualattr::VirtualAttributeFormula;

verus! {

/// One attribute value in the report (virtual values included).
#[derive(Clone, Copy, PartialEq, Eq, Structural, Debug)]
pub struct AttributeValue {
    pub id: DogmaAttributeId,
    pub value: i128,
}

/// One attribute interval in the report.
#[derive(Clone, Copy, PartialEq, Eq, Structural, Debug)]
pub struct AttributeRange {
    pub id: DogmaAttributeId,
    pub min: i128,
    pub max: i128,
}

/// One column of a resulting group's schema.
pub struct VaryingAttribute {
    pub id: DogmaAttributeId,
    pub name: Vec<u8>,
    pub high_is_good: Option<bool>,
}

/// Magnitude of a signed value, exactly.
pub open spec fn mag(a: i128) -> int {
    if a >= 0 {
        a as int
    } else {
        -(a as int)
    }
}

fn magnitude(a: i128) -> (r: u128)
    ensures
        r as int == mag(a),
{
    if a >= 0 {
        a as u128
    } else {
        ((-(a + 1)) as u128) + 1
    }
}

/// Truncating multiplication check: the exact product when it fits.
pub open spec fn mul_checked(a: i128, b: i128) -> Option<i128> {
    if i128::MIN <= a * b <= i128::MAX {
        Some((a * b) as i128)
    } else {
        None
    }
}

fn do_mul_checked(a: i128, b: i128) -> (r: Option<i128>)
    ensures
        r == mul_checked(a, b),
{
    let ma = magnitude(a);
    let mb = magnitude(b);
    let neg = (a < 0) != (b < 0);
    proof {
        assert(mag(a) * mag(b) == if a * b >= 0 {
            a * b
        } else {
            -(a * b)
        }) by (nonlinear_arith);
    }
    match ma.checked_mul(mb) {
        Some(m) => {
            if neg {
                if m <= 0x80000000000000000000000000000000u128 {
                    let r = if m == 0x80000000000000000000000000000000u128 {
                        i128::MIN
                    } else {
                        -(m as i128)
                    };
                    proof {
                        assert(a * b <= 0) by (nonlinear_arith)
                            requires
                                (a < 0) != (b < 0),
                        ;
                    }
                    Some(r)
                } else {
                    proof {
                        assert(a * b < 0) by (nonlinear_arith)
                            requires
                                (a < 0) != (b < 0),
                                a * b != 0,
                        ;
                    }
                    None
                }
            } else {
                if m <= 0x7fffffffffffffffffffffffffffffffu128 {
                    proof {
                        assert(a * b >= 0) by (nonlinear_arith)
                            requires
                                (a < 0) == (b < 0),
                        ;
                    }
                    Some(m as i128)
                } else {
                    proof {
                        assert(a * b >= 0) by (nonlinear_arith)
                            requires
                                (a < 0) == (b < 0),
                        ;
                    }
                    None
                }
            }
        }
        None => {
            proof {
                assert(mag(a) * mag(b) > u128::MAX);
            }
            None
        }
    }
}

/// Truncating division, the exact quotient when it is representable:
/// the magnitude quotient with the operands' sign.
pub open spec fn div_trunc(a: i128, b: i128) -> Option<i128> {
    if b == 0 {
        None
    } else {
        let q = mag(a) / mag(b);
        if (a < 0) != (b < 0) {
            if -q >= i128::MIN {
                Some((-q) as i128)
            } else {
                None
            }
        } else {
            if q <= i128::MAX {
                Some(q as i128)
            } else {
                None
            }
        }
    }
}

fn do_div_trunc(a: i128, b: i128) -> (r: Option<i128>)
    requires
        b != 0,
    ensures
        r == div_trunc(a, b),
{
    let ma = magnitude(a);
    let mb = magnitude(b);
    proof {
        assert(mb > 0);
        vstd::arithmetic::div_mod::lemma_div_nonincreasing(ma as int, mb as int);
        vstd::arithmetic::div_mod::lemma_div_pos_is_pos(ma as int, mb as int);
    }
    let q = ma / mb;
    let neg = (a < 0) != (b < 0);
    if neg {
        if q <= 0x80000000000000000000000000000000u128 {
            let r = if q == 0x80000000000000000000000000000000u128 {
                i128::MIN
            } else {
                -(q as i128)
            };
            Some(r)
        } else {
            None
        }
    } else {
        if q <= 0x7fffffffffffffffffffffffffffffffu128 {
            Some(q as i128)
        } else {
            None
        }
    }
}

/// The first value held for `id`, scanning in order.
pub open spec fn first_val(s: Seq<AttributeValue>, id: DogmaAttributeId) -> Option<i128>
    decreases s.len(),
{
    if s.len() == 0 {
        None
    } else if s[0].id == id {
        Some(s[0].value)
    } else {
        first_val(s.drop_first(), id)
    }
}

fn find_first_val(s: &Vec<AttributeValue>, id: DogmaAttributeId) -> (r: Option<i128>)
    ensures
        r == first_val(s@, id),
{
    let n = s.len();
    let mut i: usize = 0;
    proof {
        assert(s@.subrange(0, n as int) =~= s@);
    }
    while i < n
        invariant
            n == s@.len(),
            i <= n,
            first_val(s@, id) == first_val(s@.subrange(i as int, n as int), id),
        decreases n - i,
    {
        proof {
            assert(s@.subrange(i as int, n as int)[0] == s@[i as int]);
            assert(s@.subrange(i as int, n as int).drop_first() =~= s@.subrange(i + 1, n as int));
        }
        if s[i].id == id {
            return Some(s[i].value);
        }
        i = i + 1;
    }
    proof {
        assert(s@.subrange(n as int, n as int).len() == 0);
    }
    None
}

/// The first range held for `id`.
pub open spec fn first_range(s: Seq<AttributeRange>, id: DogmaAttributeId) -> Option<(i128, i128)>
    decreases s.len(),
{
    if s.len() == 0 {
        None
    } else if s[0].id == id {
        Some((s[0].min, s[0].max))
    } else {
        first_range(s.drop_first(), id)
    }
}

fn find_first_range(s: &Vec<AttributeRange>, id: DogmaAttributeId) -> (r: Option<(i128, i128)>)
    ensures
        r == first_range(s@, id),
{
    let n = s.len();
    let mut i: usize = 0;
    proof {
        assert(s@.subrange(0, n as int) =~= s@);
    }
    while i < n
        invariant
            n == s@.len(),
            i <= n,
            first_range(s@, id) == first_range(s@.subrange(i as int, n as int), id),
        decreases n - i,
    {
        proof {
            assert(s@.subrange(i as int, n as int)[0] == s@[i as int]);
            assert(s@.subrange(i as int, n as int).drop_first() =~= s@.subrange(i + 1, n as int));
        }
        if s[i].id == id {
            return Some((s[i].min, s[i].max));
        }
        i = i + 1;
    }
    proof {
        assert(s@.subrange(n as int, n as int).len() == 0);
    }
    None
}

/// Whether an id occurs among varying attributes.
pub open spec fn varying_has(s: Seq<VaryingAttribute>, id: DogmaAttributeId) -> bool {
    exists|i: int| 0 <= i < s.len() && (#[trigger] s[i]).id == id
}

/// Checked product of the values of `ids` in `attrs`: `None` when an
/// attribute is missing or the product leaves the value range.
pub open spec fn prod_vals(attrs: Seq<AttributeValue>, ids: Seq<DogmaAttributeId>) -> Option<i128>
    decreases ids.len(),
{
    if ids.len() == 0 {
        Some(1i128)
    } else {
        match first_val(attrs, ids[0]) {
            Some(v) => match prod_vals(attrs, ids.drop_first()) {
                Some(p) => mul_checked(v, p),
                None => None,
            },
            None => None,
        }
    }
}

fn compute_prod_vals(attrs: &Vec<AttributeValue>, ids: &Vec<DogmaAttributeId>, from: usize) -> (r:
    Option<i128>)
    requires
        from <= ids@.len(),
    ensures
        r == prod_vals(attrs@, ids@.subrange(from as int, ids@.len() as int)),
    decreases ids@.len() - from,
{
    if from == ids.len() {
        proof {
            assert(ids@.subrange(from as int, ids@.len() as int).len() == 0);
        }
        return Some(1);
    }
    proof {
        assert(ids@.subrange(from as int, ids@.len() as int)[0] == ids@[from as int]);
        assert(ids@.subrange(from as int, ids@.len() as int).drop_first() =~= ids@.subrange(
            from + 1,
            ids@.len() as int,
        ));
    }
    match find_first_val(attrs, ids[from]) {
        Some(v) => match compute_prod_vals(attrs, ids, from + 1) {
            Some(p) => do_mul_checked(v, p),
            None => None,
        },
        None => None,
    }
}

/// A formula's value on an attribute list: numerator product divided by
/// a non-zero denominator product, truncating.
pub open spec fn eval_formula(f: VirtualAttributeFormula, attrs: Seq<AttributeValue>) -> Option<
    i128,
> {
    match prod_vals(attrs, f.numerator_attr_ids@) {
        Some(np) => match prod_vals(attrs, f.denominator_attr_ids@) {
            Some(dp) => if dp == 0 {
                None
            } else {
                div_trunc(np, dp)
            },
            None => None,
        },
        None => None,
    }
}

/// The attribute list after appending each computable formula value, in
/// catalogue order; later formulas see earlier virtual values.
pub open spec fn append_virtual_values(
    fs: Seq<VirtualAttributeFormula>,
    attrs: Seq<AttributeValue>,
) -> Seq<AttributeValue>
    decreases fs.len(),
{
    if fs.len() == 0 {
        attrs
    } else {
        let prev = append_virtual_values(fs.drop_last(), attrs);
        match eval_formula(fs.last(), prev) {
            Some(v) => prev.push(AttributeValue { id: fs.last().virtual_id, value: v }),
            None => prev,
        }
    }
}

/// Append each computable virtual value.
pub fn append_attribute_values(
    formulas: &Vec<VirtualAttributeFormula>,
    attributes: &mut Vec<AttributeValue>,
)
    ensures
        final(attributes)@ == append_virtual_values(formulas@, old(attributes)@),
{
    let n = formulas.len();
    let mut i: usize = 0;
    proof {
        assert(formulas@.subrange(0, 0).len() == 0);
    }
    while i < n
        invariant
            n == formulas@.len(),
            i <= n,
            attributes@ == append_virtual_values(formulas@.subrange(0, i as int), old(attributes)@),
        decreases n - i,
    {
        let f = &formulas[i];
        proof {
            assert(formulas@.subrange(0, i + 1).last() == formulas@[i as int]);
            assert(formulas@.subrange(0, i + 1).drop_last() =~= formulas@.subrange(0, i as int));
        }
        let np = compute_prod_vals(attributes, &f.numerator_attr_ids, 0);
        let dp = compute_prod_vals(attributes, &f.denominator_attr_ids, 0);
        proof {
            assert(f.numerator_attr_ids@.subrange(0, f.numerator_attr_ids@.len() as int)
                =~= f.numerator_attr_ids@);
            assert(f.denominator_attr_ids@.subrange(0, f.denominator_attr_ids@.len() as int)
                =~= f.denominator_attr_ids@);
        }
        match np {
            Some(npv) => match dp {
                Some(dpv) => {
                    if dpv != 0 {
                        match do_div_trunc(npv, dpv) {
                            Some(v) => {
                                attributes.push(AttributeValue { id: f.virtual_id, value: v });
                            }
                            None => {}
                        }
                    }
                }
                None => {}
            },
            None => {}
        }
        i = i + 1;
    }
    proof {
        assert(formulas@.subrange(0, n as int) =~= formulas@);
    }
}

/// Checked min/max products of the ranges of `ids`.
pub open spec fn prod_ranges(attrs: Seq<AttributeRange>, ids: Seq<DogmaAttributeId>) -> Option<(
    i128,
    i128,
)>
    decreases ids.len(),
{
    if ids.len() == 0 {
        Some((1i128, 1i128))
    } else {
        match first_range(attrs, ids[0]) {
            Some((mn, mx)) => match prod_ranges(attrs, ids.drop_first()) {
                Some((pn, px)) => match (mul_checked(mn, pn), mul_checked(mx, px)) {
                    (Some(a), Some(b)) => Some((a, b)),
                    _ => None,
                },
                None => None,
            },
            None => None,
        }
    }
}

fn compute_prod_ranges(attrs: &Vec<AttributeRange>, ids: &Vec<DogmaAttributeId>, from: usize) -> (r:
    Option<(i128, i128)>)
    requires
        from <= ids@.len(),
    ensures
        r == prod_ranges(attrs@, ids@.subrange(from as int, ids@.len() as int)),
    decreases ids@.len() - from,
{
    if from == ids.len() {
        proof {
            assert(ids@.subrange(from as int, ids@.len() as int).len() == 0);
        }
        return Some((1, 1));
    }
    proof {
        assert(ids@.subrange(from as int, ids@.len() as int)[0] == ids@[from as int]);
        assert(ids@.subrange(from as int, ids@.len() as int).drop_first() =~= ids@.subrange(
            from + 1,
            ids@.len() as int,
        ));
    }
    match find_first_range(attrs, ids[from]) {
        Some((mn, mx)) => match compute_prod_ranges(attrs, ids, from + 1) {
            Some((pn, px)) => {
                let a = do_mul_checked(mn, pn);
                let b = do_mul_checked(mx, px);
                match (a, b) {
                    (Some(x), Some(y)) => Some((x, y)),
                    _ => None,
                }
            }
            None => None,
        },
        None => None,
    }
}

/// A formula's interval on a range list: `[num_min/den_max,
/// num_max/den_min]` normalized, both denominators non-zero.
pub open spec fn eval_formula_range(f: VirtualAttributeFormula, attrs: Seq<AttributeRange>) -> Option<
    (i128, i128),
> {
    match prod_ranges(attrs, f.numerator_attr_ids@) {
        Some((nmin, nmax)) => match prod_ranges(attrs, f.denominator_attr_ids@) {
            Some((dmin, dmax)) => if dmin == 0 || dmax == 0 {
                None
            } else {
                match (div_trunc(nmin, dmax), div_trunc(nmax, dmin)) {
                    (Some(v1), Some(v2)) => if v1 < v2 {
                        Some((v1, v2))
                    } else {
                        Some((v2, v1))
                    },
                    _ => None,
                }
            },
            None => None,
        },
        None => None,
    }
}

/// The range list after appending each computable formula interval.
pub open spec fn append_virtual_ranges(
    fs: Seq<VirtualAttributeFormula>,
    attrs: Seq<AttributeRange>,
) -> Seq<AttributeRange>
    decreases fs.len(),
{
    if fs.len() == 0 {
        attrs
    } else {
        let prev = append_virtual_ranges(fs.drop_last(), attrs);
        match eval_formula_range(fs.last(), prev) {
            Some((mn, mx)) => prev.push(AttributeRange { id: fs.last().virtual_id, min: mn, max: mx }),
            None => prev,
        }
    }
}

/// Append each computable virtual interval.
pub fn append_min_max_attribute_values(
    formulas: &Vec<VirtualAttributeFormula>,
    attributes: &mut Vec<AttributeRange>,
)
    ensures
        final(attributes)@ == append_virtual_ranges(formulas@, old(attributes)@),
{
    let n = formulas.len();
    let mut i: usize = 0;
    proof {
        assert(formulas@.subrange(0, 0).len() == 0);
    }
    while i < n
        invariant
            n == formulas@.len(),
            i <= n,
            attributes@ == append_virtual_ranges(formulas@.subrange(0, i as int), old(attributes)@),
        decreases n - i,
    {
        let f = &formulas[i];
        proof {
            assert(formulas@.subrange(0, i + 1).last() == formulas@[i as int]);
            assert(formulas@.subrange(0, i + 1).drop_last() =~= formulas@.subrange(0, i as int));
        }
        let np = compute_prod_ranges(attributes, &f.numerator_attr_ids, 0);
        let dp = compute_prod_ranges(attributes, &f.denominator_attr_ids, 0);
        proof {
            assert(f.numerator_attr_ids@.subrange(0, f.numerator_attr_ids@.len() as int)
                =~= f.numerator_attr_ids@);
            assert(f.denominator_attr_ids@.subrange(0, f.denominator_attr_ids@.len() as int)
                =~= f.denominator_attr_ids@);
        }
        match np {
            Some((nmin, nmax)) => match dp {
                Some((dmin, dmax)) => {
                    if dmin != 0 && dmax != 0 {
                        let v1 = do_div_trunc(nmin, dmax);
                        let v2 = do_div_trunc(nmax, dmin);
                        match (v1, v2) {
                            (Some(a), Some(b)) => {
                                let (mn, mx) = if a < b {
                                    (a, b)
                                } else {
                                    (b, a)
                                };
                                attributes.push(AttributeRange { id: f.virtual_id, min: mn, max: mx });
                            }
                            _ => {}
                        }
                    }
                }
                None => {}
            },
            None => {}
        }
        i = i + 1;
    }
    proof {
        assert(formulas@.subrange(0, n as int) =~= formulas@);
    }
}

/// A column that one of the formulas contributed over the base schema.
pub open spec fn appended_from(
    fs: Seq<VirtualAttributeFormula>,
    base: Seq<VaryingAttribute>,
    v: VaryingAttribute,
) -> bool {
    exists|i: int|
        0 <= i < fs.len() && {
            let f = #[trigger] fs[i];
            &&& v.id == f.virtual_id
            &&& v.name@ == f.name@
            &&& v.high_is_good == f.high_is_good
            &&& formula_applicable(f, base)
        }
}

/// Whether a formula's constituents are all present among the varying
/// attribute ids.
pub open spec fn formula_applicable(f: VirtualAttributeFormula, s: Seq<VaryingAttribute>) -> bool {
    &&& forall|i: int|
        0 <= i < f.numerator_attr_ids@.len() ==> varying_has(s, #[trigger] f.numerator_attr_ids@[i])
    &&& forall|i: int|
        0 <= i < f.denominator_attr_ids@.len() ==> varying_has(
            s,
            #[trigger] f.denominator_attr_ids@[i],
        )
}

fn varying_contains(s: &Vec<VaryingAttribute>, id: DogmaAttributeId) -> (r: bool)
    ensures
        r == varying_has(s@, id),
{
    let n = s.len();
    let mut i: usize = 0;
    while i < n
        invariant
            n == s@.len(),
            i <= n,
            forall|j: int| 0 <= j < i ==> (#[trigger] s@[j]).id != id,
        decreases n - i,
    {
        if s[i].id == id {
            return true;
        }
        i = i + 1;
    }
    false
}

/// Append a column for each formula whose constituents are all in the
/// schema. Columns are judged against the schema as it stood before any
/// virtual column was added, since virtual ids never feed formulas.
pub fn append_varying_attributes(
    formulas: &Vec<VirtualAttributeFormula>,
    attributes: &mut Vec<VaryingAttribute>,
)
    ensures
        final(attributes)@.len() >= old(attributes)@.len(),
        forall|j: int|
            0 <= j < old(attributes)@.len() ==> final(attributes)@[j] == old(attributes)@[j],
        forall|j: int|
            old(attributes)@.len() <= j < final(attributes)@.len() ==> appended_from(
                formulas@,
                old(attributes)@,
                #[trigger] final(attributes)@[j],
            ),
        forall|i: int|
            0 <= i < formulas@.len() && formula_applicable(#[trigger] formulas@[i], old(attributes)@)
                ==> exists|j: int|
                0 <= j < final(attributes)@.len() && (#[trigger] final(attributes)@[j]).id
                    == formulas@[i].virtual_id,
{
    let ghost base = attributes@;
    let mut check: Vec<VaryingAttribute> = Vec::new();
    let bn = attributes.len();
    let mut b: usize = 0;
    while b < bn
        invariant
            attributes@ == base,
            bn == base.len(),
            b <= bn,
            check@.len() == b,
            forall|j: int| 0 <= j < b ==> (#[trigger] check@[j]).id == base[j].id,
        decreases bn - b,
    {
        let e = &attributes[b];
        check.push(
            VaryingAttribute {
                id: e.id,
                name: crate::types::clone_bytes(&e.name),
                high_is_good: e.high_is_good,
            },
        );
        b = b + 1;
    }
    proof {
        assert forall|id: DogmaAttributeId| varying_has(check@, id) == varying_has(base, id) by {
            if varying_has(check@, id) {
                let j = choose|j: int| 0 <= j < check@.len() && (#[trigger] check@[j]).id == id;
                assert(base[j].id == id);
            }
            if varying_has(base, id) {
                let j = choose|j: int| 0 <= j < base.len() && (#[trigger] base[j]).id == id;
                assert(check@[j].id == id);
            }
        }
    }
    let n = formulas.len();
    let mut i: usize = 0;
    while i < n
        invariant
            n == formulas@.len(),
            i <= n,
            base.len() <= attributes@.len(),
            forall|j: int| 0 <= j < base.len() ==> #[trigger] attributes@[j] == base[j],
            forall|id: DogmaAttributeId| varying_has(check@, id) == varying_has(base, id),
            forall|j: int|
                base.len() <= j < attributes@.len() ==> appended_from(
                    formulas@,
                    base,
                    #[trigger] attributes@[j],
                ),
            forall|ii: int|
                0 <= ii < i && formula_applicable(#[trigger] formulas@[ii], base) ==> exists|j: int|
                    0 <= j < attributes@.len() && (#[trigger] attributes@[j]).id
                        == formulas@[ii].virtual_id,
        decreases n - i,
    {
        let ghost head = attributes@;
        let f = &formulas[i];
        let mut ok = true;
        let nn = f.numerator_attr_ids.len();
        let mut a: usize = 0;
        while a < nn
            invariant
                nn == f.numerator_attr_ids@.len(),
                a <= nn,
                forall|id: DogmaAttributeId| varying_has(check@, id) == varying_has(base, id),
                ok ==> forall|j: int|
                    0 <= j < a ==> varying_has(base, #[trigger] f.numerator_attr_ids@[j]),
                !ok ==> !formula_applicable(*f, base),
            decreases nn - a,
        {
            if !varying_contains(&check, f.numerator_attr_ids[a]) {
                ok = false;
            }
            a = a + 1;
        }
        let dn = f.denominator_attr_ids.len();
        let mut d: usize = 0;
        while d < dn
            invariant
                dn == f.denominator_attr_ids@.len(),
                nn == f.numerator_attr_ids@.len(),
                d <= dn,
                forall|id: DogmaAttributeId| varying_has(check@, id) == varying_has(base, id),
                ok ==> forall|j: int|
                    0 <= j < nn ==> varying_has(base, #[trigger] f.numerator_attr_ids@[j]),
                ok ==> forall|j: int|
                    0 <= j < d ==> varying_has(base, #[trigger] f.denominator_attr_ids@[j]),
                !ok ==> !formula_applicable(*f, base),
            decreases dn - d,
        {
            if !varying_contains(&check, f.denominator_attr_ids[d]) {
                ok = false;
            }
            d = d + 1;
        }
        if ok {
            let ghost prev = attributes@;
            attributes.push(
                VaryingAttribute {
                    id: f.virtual_id,
                    name: crate::types::clone_bytes(&f.name),
                    high_is_good: f.high_is_good,
                },
            );
            proof {
                assert(formula_applicable(*f, base));
                assert(attributes@[prev.len() as int].id == f.virtual_id);
                assert forall|j: int|
                    base.len() <= j < attributes@.len() implies appended_from(
                    formulas@,
                    base,
                    #[trigger] attributes@[j],
                ) by {
                    if j < prev.len() {
                        assert(attributes@[j] == prev[j]);
                    } else {
                        let v = attributes@[j];
                        assert(v.id == formulas@[i as int].virtual_id && v.name@ == formulas@[
                            i as int].name@ && v.high_is_good == formulas@[i as int].high_is_good
                            && formula_applicable(formulas@[i as int], base));
                    }
                }
            }
        }
        proof {
            assert forall|ii: int|
                0 <= ii < i + 1 && formula_applicable(#[trigger] formulas@[ii], base)
                    implies exists|j: int|
                0 <= j < attributes@.len() && (#[trigger] attributes@[j]).id
                    == formulas@[ii].virtual_id by {
                if ii < i {
                    let j = choose|j: int|
                        0 <= j < head.len() && (#[trigger] head[j]).id == formulas@[ii].virtual_id;
                    assert(attributes@[j] == head[j]);
                } else {
                    assert(formulas@[ii] == formulas@[i as int]);
                    assert(ok);
                    assert(attributes@[attributes@.len() - 1].id == formulas@[i as int].virtual_id);
                }
            }
        }
        i = i + 1;
    }
}

/// One held dynamic instance in a group.
pub struct DynamicItemData {
    pub item_id: ItemId,
    pub station_name: Vec<u8>,
    pub location_type: Vec<u8>,
    pub location_name: Vec<u8>,
    pub attributes: Vec<AttributeValue>,
}

/// One mutator column set of a group.
pub struct MutatorConcise {
    pub id: TypeId,
    pub name: Vec<u8>,
    pub attributes: Vec<AttributeRange>,
}

/// One applicable source type of a group.
pub struct BaseItemType {
    pub id: TypeId,
    pub name: Vec<u8>,
    pub attributes: Vec<AttributeValue>,
}

/// One `(source, mutator)` pair with its multiplied ranges and held
/// instances.
pub struct SourceMutatorGroup {
    pub source_type_id: TypeId,
    pub mutator_type_id: TypeId,
    pub attributes: Vec<AttributeRange>,
    pub dynamics: Vec<DynamicItemData>,
}

/// The projection of one resulting type.
pub struct ResultingGroup {
    pub resulting_type_id: TypeId,
    pub source_mutator_groups: Vec<SourceMutatorGroup>,
    pub base_types: Vec<BaseItemType>,
    pub mutators: Vec<MutatorConcise>,
    pub varying_attributes: Vec<VaryingAttribute>,
    pub min_max_attributes: Vec<AttributeRange>,
}

/// The report: groups keyed by the resulting type's name.
pub struct DynamicsReport {
    pub data: Vec<(Vec<u8>, ResultingGroup)>,
}

/// Integrity findings of the report self-check.
#[derive(Clone, Copy, PartialEq, Eq, Structural, Debug)]
pub enum DynamicsError {
    DuplicateAttributes { group: usize },
    NotFoundSourceType { group: usize, type_id: TypeId },
    DuplicateBaseTypes { group: usize },
    NotFoundMutatorType { group: usize, type_id: TypeId },
    DuplicateMutatorTypes { group: usize },
    MismatchedAttributes { group: usize },
    DatabaseError,
}

pub open spec fn unique_range_ids(s: Seq<AttributeRange>) -> bool {
    forall|p: int, q: int| 0 <= p < q < s.len() ==> (#[trigger] s[p]).id != (#[trigger] s[q]).id
}

pub open spec fn unique_value_ids(s: Seq<AttributeValue>) -> bool {
    forall|p: int, q: int| 0 <= p < q < s.len() ==> (#[trigger] s[p]).id != (#[trigger] s[q]).id
}

pub open spec fn unique_varying_ids(s: Seq<VaryingAttribute>) -> bool {
    forall|p: int, q: int| 0 <= p < q < s.len() ==> (#[trigger] s[p]).id != (#[trigger] s[q]).id
}

/// A range list carries exactly the schema's ids: same cardinality, no
/// duplicates, and mutual containment.
pub open spec fn ranges_match_schema(rs: Seq<AttributeRange>, vs: Seq<VaryingAttribute>) -> bool {
    &&& rs.len() == vs.len()
    &&& unique_range_ids(rs)
    &&& forall|k: int| 0 <= k < rs.len() ==> varying_has(vs, (#[trigger] rs[k]).id)
}

/// A value list carries exactly the schema's ids.
pub open spec fn values_match_schema(rs: Seq<AttributeValue>, vs: Seq<VaryingAttribute>) -> bool {
    &&& rs.len() == vs.len()
    &&& unique_value_ids(rs)
    &&& forall|k: int| 0 <= k < rs.len() ==> varying_has(vs, (#[trigger] rs[k]).id)
}

/// Report integrity: in every group the schema has no duplicate ids and
/// every emitted attribute list (per pair, per instance, per base type,
/// per mutator, and the union list) carries exactly the schema's ids;
/// every pair's source appears among the base types and its mutator
/// among the mutators, both duplicate-free.
pub open spec fn group_integral(g: ResultingGroup) -> bool {
    &&& unique_varying_ids(g.varying_attributes@)
    &&& forall|p: int, q: int|
        0 <= p < q < g.base_types@.len() ==> (#[trigger] g.base_types@[p]).id != (
        #[trigger] g.base_types@[q]).id
    &&& forall|p: int, q: int|
        0 <= p < q < g.mutators@.len() ==> (#[trigger] g.mutators@[p]).id != (
        #[trigger] g.mutators@[q]).id
    &&& forall|k: int|
        0 <= k < g.source_mutator_groups@.len() ==> {
            let smg = #[trigger] g.source_mutator_groups@[k];
            &&& exists|b: int|
                0 <= b < g.base_types@.len() && (#[trigger] g.base_types@[b]).id
                    == smg.source_type_id
            &&& exists|m: int|
                0 <= m < g.mutators@.len() && (#[trigger] g.mutators@[m]).id == smg.mutator_type_id
            &&& ranges_match_schema(smg.attributes@, g.varying_attributes@)
            &&& forall|d: int|
                0 <= d < smg.dynamics@.len() ==> values_match_schema(
                    (#[trigger] smg.dynamics@[d]).attributes@,
                    g.varying_attributes@,
                )
        }
    &&& forall|b: int|
        0 <= b < g.base_types@.len() ==> values_match_schema(
            (#[trigger] g.base_types@[b]).attributes@,
            g.varying_attributes@,
        )
    &&& forall|m: int|
        0 <= m < g.mutators@.len() ==> ranges_match_schema(
            (#[trigger] g.mutators@[m]).attributes@,
            g.varying_attributes@,
        )
    &&& ranges_match_schema(g.min_max_attributes@, g.varying_attributes@)
}

pub open spec fn report_integral(r: DynamicsReport) -> bool {
    forall|i: int| 0 <= i < r.data@.len() ==> group_integral((#[trigger] r.data@[i]).1)
}

fn check_ranges_match(
    group: usize,
    rs: &Vec<AttributeRange>,
    vs: &Vec<VaryingAttribute>,
) -> (r: Result<(), DynamicsError>)
    ensures
        r is Ok <==> ranges_match_schema(rs@, vs@),
        r matches Err(e) ==> e == (DynamicsError::MismatchedAttributes { group }),
{
    if rs.len() != vs.len() {
        return Err(DynamicsError::MismatchedAttributes { group });
    }
    let n = rs.len();
    let mut i: usize = 0;
    while i < n
        invariant
            n == rs@.len(),
            i <= n,
            forall|p: int, q: int|
                0 <= p < q < i ==> (#[trigger] rs@[p]).id != (#[trigger] rs@[q]).id,
            forall|k: int| 0 <= k < i ==> varying_has(vs@, (#[trigger] rs@[k]).id),
        decreases n - i,
    {
        if !varying_contains(vs, rs[i].id) {
            return Err(DynamicsError::MismatchedAttributes { group });
        }
        let mut j: usize = 0;
        while j < i
            invariant
                n == rs@.len(),
                i < n,
                j <= i,
                forall|p: int| 0 <= p < j ==> (#[trigger] rs@[p]).id != rs@[i as int].id,
            decreases i - j,
        {
            if rs[j].id == rs[i].id {
                return Err(DynamicsError::MismatchedAttributes { group });
            }
            j = j + 1;
        }
        i = i + 1;
    }
    Ok(())
}

fn check_values_match(
    group: usize,
    rs: &Vec<AttributeValue>,
    vs: &Vec<VaryingAttribute>,
) -> (r: Result<(), DynamicsError>)
    ensures
        r is Ok <==> values_match_schema(rs@, vs@),
        r matches Err(e) ==> e == (DynamicsError::MismatchedAttributes { group }),
{
    if rs.len() != vs.len() {
        return Err(DynamicsError::MismatchedAttributes { group });
    }
    let n = rs.len();
    let mut i: usize = 0;
    while i < n
        invariant
            n == rs@.len(),
            i <= n,
            forall|p: int, q: int|
                0 <= p < q < i ==> (#[trigger] rs@[p]).id != (#[trigger] rs@[q]).id,
            forall|k: int| 0 <= k < i ==> varying_has(vs@, (#[trigger] rs@[k]).id),
        decreases n - i,
    {
        if !varying_contains(vs, rs[i].id) {
            return Err(DynamicsError::MismatchedAttributes { group });
        }
        let mut j: usize = 0;
        while j < i
            invariant
                n == rs@.len(),
                i < n,
                j <= i,
                forall|p: int| 0 <= p < j ==> (#[trigger] rs@[p]).id != rs@[i as int].id,
            decreases i - j,
        {
            if rs[j].id == rs[i].id {
                return Err(DynamicsError::MismatchedAttributes { group });
            }
            j = j + 1;
        }
        i = i + 1;
    }
    Ok(())
}

/// Check one group against `group_integral`.
#[verifier::rlimit(60)]
fn check_group(group: usize, g: &ResultingGroup) -> (r: Result<(), DynamicsError>)
    ensures
        r is Ok <==> group_integral(*g),
{
    // schema ids must be unique
    let vn = g.varying_attributes.len();
    let mut i: usize = 0;
    while i < vn
        invariant
            vn == g.varying_attributes@.len(),
            i <= vn,
            forall|p: int, q: int|
                0 <= p < q < i ==> (#[trigger] g.varying_attributes@[p]).id != (
                #[trigger] g.varying_attributes@[q]).id,
        decreases vn - i,
    {
        let mut j: usize = 0;
        while j < i
            invariant
                vn == g.varying_attributes@.len(),
                i < vn,
                j <= i,
                forall|p: int|
                    0 <= p < j ==> (#[trigger] g.varying_attributes@[p]).id
                        != g.varying_attributes@[i as int].id,
            decreases i - j,
        {
            if g.varying_attributes[j].id == g.varying_attributes[i].id {
                return Err(DynamicsError::DuplicateAttributes { group });
            }
            j = j + 1;
        }
        i = i + 1;
    }
    // base types and mutators must be duplicate-free
    let bn = g.base_types.len();
    let mut i: usize = 0;
    while i < bn
        invariant
            bn == g.base_types@.len(),
            i <= bn,
            forall|p: int, q: int|
                0 <= p < q < i ==> (#[trigger] g.base_types@[p]).id != (
                #[trigger] g.base_types@[q]).id,
        decreases bn - i,
    {
        let mut j: usize = 0;
        while j < i
            invariant
                bn == g.base_types@.len(),
                i < bn,
                j <= i,
                forall|p: int|
                    0 <= p < j ==> (#[trigger] g.base_types@[p]).id != g.base_types@[i as int].id,
            decreases i - j,
        {
            if g.base_types[j].id == g.base_types[i].id {
                return Err(DynamicsError::DuplicateBaseTypes { group });
            }
            j = j + 1;
        }
        i = i + 1;
    }
    let mn = g.mutators.len();
    let mut i: usize = 0;
    while i < mn
        invariant
            mn == g.mutators@.len(),
            i <= mn,
            forall|p: int, q: int|
                0 <= p < q < i ==> (#[trigger] g.mutators@[p]).id != (#[trigger] g.mutators@[q]).id,
        decreases mn - i,
    {
        let mut j: usize = 0;
        while j < i
            invariant
                mn == g.mutators@.len(),
                i < mn,
                j <= i,
                forall|p: int|
                    0 <= p < j ==> (#[trigger] g.mutators@[p]).id != g.mutators@[i as int].id,
            decreases i - j,
        {
            if g.mutators[j].id == g.mutators[i].id {
                return Err(DynamicsError::DuplicateMutatorTypes { group });
            }
            j = j + 1;
        }
        i = i + 1;
    }
    // each pair's source and mutator appear, and its lists match
    let sn = g.source_mutator_groups.len();
    let mut k: usize = 0;
    while k < sn
        invariant
            sn == g.source_mutator_groups@.len(),
            k <= sn,
            forall|kk: int|
                0 <= kk < k ==> {
                    let smg = #[trigger] g.source_mutator_groups@[kk];
                    &&& exists|b: int|
                        0 <= b < g.base_types@.len() && (#[trigger] g.base_types@[b]).id
                            == smg.source_type_id
                    &&& exists|m: int|
                        0 <= m < g.mutators@.len() && (#[trigger] g.mutators@[m]).id
                            == smg.mutator_type_id
                    &&& ranges_match_schema(smg.attributes@, g.varying_attributes@)
                    &&& forall|d: int|
                        0 <= d < smg.dynamics@.len() ==> values_match_schema(
                            (#[trigger] smg.dynamics@[d]).attributes@,
                            g.varying_attributes@,
                        )
                },
        decreases sn - k,
    {
        let smg = &g.source_mutator_groups[k];
        let mut found = false;
        let mut b: usize = 0;
        while b < g.base_types.len()
            invariant
                sn == g.source_mutator_groups@.len(),
                k < sn,
                *smg == g.source_mutator_groups@[k as int],
                !found ==> forall|p: int|
                    0 <= p < b ==> (#[trigger] g.base_types@[p]).id != smg.source_type_id,
                found ==> exists|p: int|
                    0 <= p < g.base_types@.len() && (#[trigger] g.base_types@[p]).id
                        == smg.source_type_id,
                b <= g.base_types@.len(),
            decreases g.base_types@.len() - b,
        {
            if g.base_types[b].id == smg.source_type_id {
                found = true;
            }
            b = b + 1;
        }
        if !found {
            return Err(DynamicsError::NotFoundSourceType { group, type_id: smg.source_type_id });
        }
        let mut foundm = false;
        let mut m: usize = 0;
        while m < g.mutators.len()
            invariant
                sn == g.source_mutator_groups@.len(),
                k < sn,
                *smg == g.source_mutator_groups@[k as int],
                !foundm ==> forall|p: int|
                    0 <= p < m ==> (#[trigger] g.mutators@[p]).id != smg.mutator_type_id,
                foundm ==> exists|p: int|
                    0 <= p < g.mutators@.len() && (#[trigger] g.mutators@[p]).id
                        == smg.mutator_type_id,
                m <= g.mutators@.len(),
            decreases g.mutators@.len() - m,
        {
            if g.mutators[m].id == smg.mutator_type_id {
                foundm = true;
            }
            m = m + 1;
        }
        if !foundm {
            return Err(DynamicsError::NotFoundMutatorType { group, type_id: smg.mutator_type_id });
        }
        match check_ranges_match(group, &smg.attributes, &g.varying_attributes) {
            Ok(()) => {}
            Err(e) => {
                return Err(e);
            },
        }
        let dn = smg.dynamics.len();
        let mut d: usize = 0;
        while d < dn
            invariant
                sn == g.source_mutator_groups@.len(),
                k < sn,
                *smg == g.source_mutator_groups@[k as int],
                dn == smg.dynamics@.len(),
                d <= dn,
                forall|p: int|
                    0 <= p < d ==> values_match_schema(
                        (#[trigger] smg.dynamics@[p]).attributes@,
                        g.varying_attributes@,
                    ),
            decreases dn - d,
        {
            match check_values_match(group, &smg.dynamics[d].attributes, &g.varying_attributes) {
                Ok(()) => {}
                Err(e) => {
                    return Err(e);
                },
            }
            d = d + 1;
        }
        k = k + 1;
    }
    proof {
        assert forall|kk: int|
            0 <= kk < g.source_mutator_groups@.len() implies {
                let smg = #[trigger] g.source_mutator_groups@[kk];
                &&& exists|b: int|
                    0 <= b < g.base_types@.len() && (#[trigger] g.base_types@[b]).id
                        == smg.source_type_id
                &&& exists|m: int|
                    0 <= m < g.mutators@.len() && (#[trigger] g.mutators@[m]).id
                        == smg.mutator_type_id
                &&& ranges_match_schema(smg.attributes@, g.varying_attributes@)
                &&& forall|d: int|
                    0 <= d < smg.dynamics@.len() ==> values_match_schema(
                        (#[trigger] smg.dynamics@[d]).attributes@,
                        g.varying_attributes@,
                    )
            } by {
            let smg = g.source_mutator_groups@[kk];
            assert(exists|b: int|
                0 <= b < g.base_types@.len() && (#[trigger] g.base_types@[b]).id
                    == smg.source_type_id);
        }
    }
    // base values, mutator ranges and the union list match
    let mut b: usize = 0;
    while b < g.base_types.len()
        invariant
            b <= g.base_types@.len(),
            forall|p: int|
                0 <= p < b ==> values_match_schema(
                    (#[trigger] g.base_types@[p]).attributes@,
                    g.varying_attributes@,
                ),
        decreases g.base_types@.len() - b,
    {
        match check_values_match(group, &g.base_types[b].attributes, &g.varying_attributes) {
            Ok(()) => {}
            Err(e) => {
                return Err(e);
            },
        }
        b = b + 1;
    }
    let mut m: usize = 0;
    while m < g.mutators.len()
        invariant
            m <= g.mutators@.len(),
            forall|p: int|
                0 <= p < m ==> ranges_match_schema(
                    (#[trigger] g.mutators@[p]).attributes@,
                    g.varying_attributes@,
                ),
        decreases g.mutators@.len() - m,
    {
        match check_ranges_match(group, &g.mutators[m].attributes, &g.varying_attributes) {
            Ok(()) => {}
            Err(e) => {
                return Err(e);
            },
        }
        m = m + 1;
    }
    match check_ranges_match(group, &g.min_max_attributes, &g.varying_attributes) {
        Ok(()) => {}
        Err(e) => {
            return Err(e);
        },
    }
    proof {
        assert(unique_varying_ids(g.varying_attributes@));
        assert(forall|p: int, q: int|
            0 <= p < q < g.base_types@.len() ==> (#[trigger] g.base_types@[p]).id != (
            #[trigger] g.base_types@[q]).id);
        assert(forall|p: int, q: int|
            0 <= p < q < g.mutators@.len() ==> (#[trigger] g.mutators@[p]).id != (
            #[trigger] g.mutators@[q]).id);
        assert(forall|k: int|
            0 <= k < g.source_mutator_groups@.len() ==> {
                let smg = #[trigger] g.source_mutator_groups@[k];
                &&& exists|b: int|
                    0 <= b < g.base_types@.len() && (#[trigger] g.base_types@[b]).id
                        == smg.source_type_id
                &&& exists|m: int|
                    0 <= m < g.mutators@.len() && (#[trigger] g.mutators@[m]).id
                        == smg.mutator_type_id
                &&& ranges_match_schema(smg.attributes@, g.varying_attributes@)
                &&& forall|d: int|
                    0 <= d < smg.dynamics@.len() ==> values_match_schema(
                        (#[trigger] smg.dynamics@[d]).attributes@,
                        g.varying_attributes@,
                    )
            });
        assert(forall|b: int|
            0 <= b < g.base_types@.len() ==> values_match_schema(
                (#[trigger] g.base_types@[b]).attributes@,
                g.varying_attributes@,
            ));
        assert(forall|m: int|
            0 <= m < g.mutators@.len() ==> ranges_match_schema(
                (#[trigger] g.mutators@[m]).attributes@,
                g.varying_attributes@,
            ));
        assert(ranges_match_schema(g.min_max_attributes@, g.varying_attributes@));
        assert(group_integral(*g));
    }
    Ok(())
}

impl DynamicsReport {
    /// The integrity self-check: accepts exactly the reports whose
    /// groups satisfy `group_integral`. Emitted as a warning by callers,
    /// never a failure of report generation.
    pub fn check_integrity(&self) -> (r: Result<(), DynamicsError>)
        ensures
            r is Ok <==> report_integral(*self),
    {
        let n = self.data.len();
        let mut gi: usize = 0;
        while gi < n
            invariant
                n == self.data@.len(),
                gi <= n,
                forall|i: int| 0 <= i < gi ==> group_integral((#[trigger] self.data@[i]).1),
            decreases n - gi,
        {
            match check_group(gi, &self.data[gi].1) {
                Ok(()) => {}
                Err(e) => {
                    proof {
                        assert(!group_integral(self.data@[gi as int].1));
                    }
                    return Err(e);
                },
            }
            gi = gi + 1;
        }
        Ok(())
    }
}

fn clone_values(v: &Vec<AttributeValue>) -> (r: Vec<AttributeValue>)
    ensures
        r@ == v@,
{
    let mut r: Vec<AttributeValue> = Vec::new();
    let n = v.len();
    let mut i: usize = 0;
    while i < n
        invariant
            n == v@.len(),
            i <= n,
            r@ == v@.subrange(0, i as int),
        decreases n - i,
    {
        r.push(v[i]);
        proof {
            assert(v@.subrange(0, i + 1) =~= v@.subrange(0, i as int).push(v@[i as int]));
        }
        i = i + 1;
    }
    proof {
        assert(v@.subrange(0, n as int) =~= v@);
    }
    r
}

/// A held dynamic of the pair `(source, mutator)` exists in the store.
pub open spec fn pair_held(st: CharacterAssets, src: TypeId, mutator: TypeId) -> bool {
    exists|i: int|
        0 <= i < st.dynamics.entries_seq().len() && (
        #[trigger] st.dynamics.entries_seq()[i]).1.source_type_id == src
            && st.dynamics.entries_seq()[i].1.mutator_type_id == mutator
}

/// Every pair a report group carries is held and maps to the group's
/// resulting type.
pub open spec fn report_sound(st: CharacterAssets, rep: DynamicsReport) -> bool {
    forall|k: int, s: int|
        #![trigger rep.data@[k].1.source_mutator_groups@[s]]
        0 <= k < rep.data@.len() && 0 <= s < rep.data@[k].1.source_mutator_groups@.len() ==> {
            let g = rep.data@[k].1;
            let smg = g.source_mutator_groups@[s];
            &&& rel_get(
                st.mutaplasmid_effects.relations@,
                smg.source_type_id,
                smg.mutator_type_id,
            ) == Some(g.resulting_type_id)
            &&& pair_held(st, smg.source_type_id, smg.mutator_type_id)
        }
}

/// The `i`-th held dynamic's pair appears in some group of the report.
pub open spec fn dynamic_reported(st: CharacterAssets, rep: DynamicsReport, i: int) -> bool {
    exists|k: int, s: int|
        0 <= k < rep.data@.len() && 0 <= s < rep.data@[k].1.source_mutator_groups@.len() && (
        #[trigger] rep.data@[k].1.source_mutator_groups@[s]).source_type_id
            == st.dynamics.entries_seq()[i].1.source_type_id
            && rep.data@[k].1.source_mutator_groups@[s].mutator_type_id
            == st.dynamics.entries_seq()[i].1.mutator_type_id
}

/// Every held dynamic's pair appears in some group of the report.
pub open spec fn report_complete(st: CharacterAssets, rep: DynamicsReport) -> bool {
    forall|i: int|
        0 <= i < st.dynamics.entries_seq().len() ==> #[trigger] dynamic_reported(st, rep, i)
}

/// The `d`-th held dynamic's pair appears in the collected pair list.
pub open spec fn pair_in_list(
    st: CharacterAssets,
    pairs: Seq<(TypeId, TypeId, Vec<DynamicItemData>)>,
    d: int,
) -> bool {
    exists|p: int|
        0 <= p < pairs.len() && (#[trigger] pairs[p]).0 == st.dynamics.entries_seq()[d].1.source_type_id && pairs[p].1 == st.dynamics.entries_seq()[d].1.mutator_type_id
}

/// Every held dynamic's pair appears in the collected pair list.
pub open spec fn pairs_complete(
    st: CharacterAssets,
    pairs: Seq<(TypeId, TypeId, Vec<DynamicItemData>)>,
) -> bool {
    forall|d: int|
        0 <= d < st.dynamics.entries_seq().len() ==> #[trigger] pair_in_list(st, pairs, d)
}

/// Pair `q` has been bucketed under some resulting type.
pub open spec fn pair_bucketed(rts: Seq<(TypeId, Vec<usize>)>, q: int) -> bool {
    exists|k: int, s: int|
        0 <= k < rts.len() && 0 <= s < rts[k].1@.len() && (#[trigger] rts[k].1@[s]) as int == q
}

/// Lift raw `i64` mutator ranges into report ranges.
pub open spec fn raw_ranges(
    s: Seq<(DogmaAttributeId, crate::types::AttributeRange)>,
) -> Seq<AttributeRange> {
    s.map_values(
        |p: (DogmaAttributeId, crate::types::AttributeRange)|
            AttributeRange { id: p.0, min: p.1.min as i128, max: p.1.max as i128 },
    )
}

/// Lift the union-interval rows into report ranges.
pub open spec fn ranges_of(s: Seq<(DogmaAttributeId, i128, i128)>) -> Seq<AttributeRange> {
    s.map_values(
        |t: (DogmaAttributeId, i128, i128)| AttributeRange { id: t.0, min: t.1, max: t.2 },
    )
}

/// The union interval rows are exactly what the store's coordinate-wise
/// union yields: unique ids, each end attained by some contributing pair,
/// every contributing pair's interval contained, and a row for every
/// attribute that contributes.
pub open spec fn union_ranges_ok(
    st: CharacterAssets,
    rt: TypeId,
    u: Seq<(DogmaAttributeId, i128, i128)>,
) -> bool {
    &&& forall|p: int, q: int| 0 <= p < q < u.len() ==> (#[trigger] u[p]).0 != (#[trigger] u[q]).0
    &&& forall|k: int|
        0 <= k < u.len() ==> crate::store::min_attained(st, rt, (#[trigger] u[k]).0, u[k].1)
    &&& forall|k: int|
        0 <= k < u.len() ==> crate::store::max_attained(st, rt, (#[trigger] u[k]).0, u[k].2)
    &&& forall|a: DogmaAttributeId, p: i128, q: i128|
        #[trigger] crate::store::contributes(st, rt, a, p, q) ==> exists|k: int|
            0 <= k < u.len() && (#[trigger] u[k]).0 == a
    &&& forall|a: DogmaAttributeId, p: i128, q: i128, k: int|
        #[trigger] crate::store::contributes(st, rt, a, p, q) && 0 <= k < u.len() && (
        #[trigger] u[k]).0 == a ==> u[k].1 <= p && q <= u[k].2
}

/// The group's union list is such a union, extended by the computable
/// virtual intervals.
pub open spec fn minmax_pinned(
    st: CharacterAssets,
    formulas: Seq<VirtualAttributeFormula>,
    g: ResultingGroup,
) -> bool {
    exists|u: Seq<(DogmaAttributeId, i128, i128)>|
        union_ranges_ok(st, g.resulting_type_id, u) && g.min_max_attributes@
            == append_virtual_ranges(formulas, #[trigger] ranges_of(u))
}

/// A dynamic's raw attribute values, widened to report values.
pub open spec fn dyn_vals(attrs: Seq<crate::types::DogmaAttributeConcise>) -> Seq<AttributeValue> {
    attrs.map_values(
        |a: crate::types::DogmaAttributeConcise|
            AttributeValue { id: a.attribute_id, value: a.value as i128 },
    )
}

/// A value list restricted to the schema ids, in order.
pub open spec fn filtered_values(
    vals: Seq<AttributeValue>,
    vs: Seq<VaryingAttribute>,
) -> Seq<AttributeValue>
    decreases vals.len(),
{
    if vals.len() == 0 {
        Seq::<AttributeValue>::empty()
    } else {
        let rest = filtered_values(vals.drop_last(), vs);
        if varying_has(vs, vals.last().id) {
            rest.push(vals.last())
        } else {
            rest
        }
    }
}

/// A collected instance row comes from a held dynamic of the pair, with
/// its asset's resolved location chain and its raw values.
pub open spec fn dd_src(st: CharacterAssets, src: TypeId, mt: TypeId, dd: DynamicItemData) -> bool {
    exists|i: int|
        0 <= i < st.dynamics.entries_seq().len() && {
            let e = #[trigger] st.dynamics.entries_seq()[i];
            &&& dd.item_id == e.0
            &&& e.1.source_type_id == src
            &&& e.1.mutator_type_id == mt
            &&& st.assets.spec_get(e.0) matches Some(a) && (
                dd.station_name@,
                dd.location_type@,
                dd.location_name@,
            ) == crate::chain::chain_spec(st, a.location_id, a.location_type@)
            &&& dd.attributes@ == dyn_vals(e.1.dogma_attributes@)
        }
}

/// An emitted instance comes from a held dynamic of its pair: same item,
/// its asset's location chain, and its values restricted to the schema
/// and extended by the virtual values.
pub open spec fn instance_pinned(
    st: CharacterAssets,
    formulas: Seq<VirtualAttributeFormula>,
    vs: Seq<VaryingAttribute>,
    src: TypeId,
    mt: TypeId,
    dd: DynamicItemData,
) -> bool {
    exists|i: int|
        0 <= i < st.dynamics.entries_seq().len() && {
            let e = #[trigger] st.dynamics.entries_seq()[i];
            &&& dd.item_id == e.0
            &&& e.1.source_type_id == src
            &&& e.1.mutator_type_id == mt
            &&& st.assets.spec_get(e.0) matches Some(a) && (
                dd.station_name@,
                dd.location_type@,
                dd.location_name@,
            ) == crate::chain::chain_spec(st, a.location_id, a.location_type@)
            &&& dd.attributes@ == append_virtual_values(
                formulas,
                filtered_values(dyn_vals(e.1.dogma_attributes@), vs),
            )
        }
}

/// Every instance of every pair group is pinned to a held dynamic.
pub open spec fn instances_pinned(
    st: CharacterAssets,
    formulas: Seq<VirtualAttributeFormula>,
    g: ResultingGroup,
) -> bool {
    forall|s: int, d: int|
        #![trigger g.source_mutator_groups@[s].dynamics@[d]]
        0 <= s < g.source_mutator_groups@.len() && 0 <= d
            < g.source_mutator_groups@[s].dynamics@.len() ==> instance_pinned(
            st,
            formulas,
            g.varying_attributes@,
            g.source_mutator_groups@[s].source_type_id,
            g.source_mutator_groups@[s].mutator_type_id,
            g.source_mutator_groups@[s].dynamics@[d],
        )
}

/// The listing a mutator query returns: each row is a mutator with its
/// name and raw ranges, and every mutator has a row.
pub open spec fn muts_listing_ok(
    st: CharacterAssets,
    rt: TypeId,
    ms: Seq<(TypeId, Vec<u8>, Vec<(DogmaAttributeId, crate::types::AttributeRange)>)>,
) -> bool {
    &&& forall|k: int|
        0 <= k < ms.len() ==> {
            &&& crate::store::mutator_of(st, rt, (#[trigger] ms[k]).0)
            &&& ms[k].1@ == crate::store::mutator_name_spec(st, ms[k].0)
            &&& ms[k].2@ == crate::store::mutator_ranges(st, ms[k].0)
        }
    &&& forall|m: TypeId|
        crate::store::mutator_of(st, rt, m) ==> exists|k: int|
            0 <= k < ms.len() && (#[trigger] ms[k]).0 == m
}

/// The group's mutator list carries exactly the resulting type's
/// mutators, each with its catalogue name and its raw ranges extended by
/// the virtual intervals.
pub open spec fn mutators_pinned(
    st: CharacterAssets,
    formulas: Seq<VirtualAttributeFormula>,
    g: ResultingGroup,
) -> bool {
    &&& forall|m: int|
        0 <= m < g.mutators@.len() ==> {
            let mc = #[trigger] g.mutators@[m];
            &&& crate::store::mutator_of(st, g.resulting_type_id, mc.id)
            &&& mc.name@ == crate::store::mutator_name_spec(st, mc.id)
            &&& mc.attributes@ == append_virtual_ranges(
                formulas,
                raw_ranges(crate::store::mutator_ranges(st, mc.id)),
            )
        }
    &&& forall|m: TypeId|
        crate::store::mutator_of(st, g.resulting_type_id, m) ==> exists|k: int|
            0 <= k < g.mutators@.len() && (#[trigger] g.mutators@[k]).id == m
    &&& forall|p: int, q: int|
        0 <= p < q < g.mutators@.len() ==> (#[trigger] g.mutators@[p]).id != (
        #[trigger] g.mutators@[q]).id
}

/// A pair's normalized product interval for one source attribute.
pub open spec fn pair_row(
    a: crate::types::DogmaAttributeConcise,
    rg: crate::types::AttributeRange,
) -> AttributeRange {
    let v1 = rg.min as int * a.value as int;
    let v2 = rg.max as int * a.value as int;
    if v1 < v2 {
        AttributeRange { id: a.attribute_id, min: v1 as i128, max: v2 as i128 }
    } else {
        AttributeRange { id: a.attribute_id, min: v2 as i128, max: v1 as i128 }
    }
}

/// The pair rows over a source type's attributes: one normalized product
/// interval for each attribute the mutator ranges over, in the source's
/// attribute order.
pub open spec fn pair_rows(
    attrs: Seq<crate::types::DogmaAttributeConcise>,
    ranges: Seq<(DogmaAttributeId, crate::types::AttributeRange)>,
) -> Seq<AttributeRange>
    decreases attrs.len(),
{
    if attrs.len() == 0 {
        Seq::<AttributeRange>::empty()
    } else {
        let rest = pair_rows(attrs.drop_last(), ranges);
        match crate::store::range_get(ranges, attrs.last().attribute_id) {
            Some(rg) => rest.push(pair_row(attrs.last(), rg)),
            None => rest,
        }
    }
}

/// The per-pair interval list: empty when the source type or the
/// mutator's range table is missing.
pub open spec fn pair_ranges_spec(st: CharacterAssets, src: TypeId, mt: TypeId) -> Seq<
    AttributeRange,
> {
    match st.types.spec_get(src as i64) {
        Some(it) => match st.mutaplasmid_effects.attributes.spec_get(mt as i64) {
            Some(rv) => pair_rows(it.dogma_attributes@, rv@),
            None => Seq::<AttributeRange>::empty(),
        },
        None => Seq::<AttributeRange>::empty(),
    }
}

/// A pair group's attributes are its per-pair intervals extended by the
/// virtual intervals.
pub open spec fn pair_pinned(
    st: CharacterAssets,
    formulas: Seq<VirtualAttributeFormula>,
    smg: SourceMutatorGroup,
) -> bool {
    smg.attributes@ == append_virtual_ranges(
        formulas,
        pair_ranges_spec(st, smg.source_type_id, smg.mutator_type_id),
    )
}

/// A source type's values restricted to the schema ids, in attribute
/// order.
pub open spec fn filtered_vals(
    attrs: Seq<crate::types::DogmaAttributeConcise>,
    vs: Seq<VaryingAttribute>,
) -> Seq<AttributeValue>
    decreases attrs.len(),
{
    if attrs.len() == 0 {
        Seq::<AttributeValue>::empty()
    } else {
        let rest = filtered_vals(attrs.drop_last(), vs);
        if varying_has(vs, attrs.last().attribute_id) {
            rest.push(
                AttributeValue { id: attrs.last().attribute_id, value: attrs.last().value as i128 },
            )
        } else {
            rest
        }
    }
}

/// `t` is a source type of some relation yielding `rt`.
pub open spec fn source_of(st: CharacterAssets, rt: TypeId, t: TypeId) -> bool {
    exists|i: int|
        0 <= i < st.mutaplasmid_effects.relations@.len() && (
        #[trigger] st.mutaplasmid_effects.relations@[i]).0 == t
            && st.mutaplasmid_effects.relations@[i].2 == rt
}

/// The group's base types are exactly the applicable sources held in the
/// type table, each with its name and its schema-restricted values
/// extended by the virtual values.
pub open spec fn base_pinned(
    st: CharacterAssets,
    formulas: Seq<VirtualAttributeFormula>,
    g: ResultingGroup,
) -> bool {
    &&& forall|b: int|
        0 <= b < g.base_types@.len() ==> {
            let bt = #[trigger] g.base_types@[b];
            &&& source_of(st, g.resulting_type_id, bt.id)
            &&& st.types.spec_get(bt.id as i64) matches Some(it) && bt.name@ == it.name@
                && bt.attributes@ == append_virtual_values(
                formulas,
                filtered_vals(it.dogma_attributes@, g.varying_attributes@),
            )
        }
    &&& forall|t: TypeId|
        source_of(st, g.resulting_type_id, t) && st.types.spec_get(t as i64) is Some
            ==> exists|b: int|
            0 <= b < g.base_types@.len() && (#[trigger] g.base_types@[b]).id == t
}

/// The attribute occurs in the range table of every mutator of `rt`.
pub open spec fn id_in_all_mutators(st: CharacterAssets, rt: TypeId, id: DogmaAttributeId) -> bool {
    forall|m: TypeId|
        crate::store::mutator_of(st, rt, m) ==> crate::store::range_get(
            #[trigger] crate::store::mutator_ranges(st, m),
            id,
        ) is Some
}

/// `rt` has at least one mutator.
pub open spec fn has_mutator(st: CharacterAssets, rt: TypeId) -> bool {
    exists|m: TypeId| #[trigger] crate::store::mutator_of(st, rt, m)
}

/// A schema column's display name: the attribute's name, or
/// `attribute_<id>` when it is nameless or not loaded.
pub open spec fn attr_name_spec(st: CharacterAssets, id: DogmaAttributeId) -> Seq<u8> {
    match st.dogma_attributes.spec_get(id as i64) {
        Some(da) => match da.name {
            Some(nm) => nm@,
            None => crate::bytes::prefixed_decimal(crate::bytes::attribute_prefix(), id as int),
        },
        None => crate::bytes::prefixed_decimal(crate::bytes::attribute_prefix(), id as int),
    }
}

/// A schema column's ordering hint, from the attribute table.
pub open spec fn attr_hig_spec(st: CharacterAssets, id: DogmaAttributeId) -> Option<bool> {
    match st.dogma_attributes.spec_get(id as i64) {
        Some(da) => da.high_is_good,
        None => None,
    }
}

/// A base schema column: an attribute every mutator of `rt` ranges over,
/// with its table name and ordering hint.
pub open spec fn base_varying(st: CharacterAssets, rt: TypeId, v: VaryingAttribute) -> bool {
    &&& id_in_all_mutators(st, rt, v.id)
    &&& v.name@ == attr_name_spec(st, v.id)
    &&& v.high_is_good == attr_hig_spec(st, v.id)
}

/// A virtual schema column: carried over from one of the formulas.
pub open spec fn virtual_varying(formulas: Seq<VirtualAttributeFormula>, v: VaryingAttribute) -> bool {
    exists|i: int|
        0 <= i < formulas.len() && {
            let f = #[trigger] formulas[i];
            &&& v.id == f.virtual_id
            &&& v.name@ == f.name@
            &&& v.high_is_good == f.high_is_good
        }
}

/// The group's schema: every column is an attribute common to all the
/// mutators or a virtual column, and every attribute common to all the
/// mutators (of a type that has any) appears.
pub open spec fn varying_pinned(
    st: CharacterAssets,
    formulas: Seq<VirtualAttributeFormula>,
    g: ResultingGroup,
) -> bool {
    &&& forall|j: int|
        0 <= j < g.varying_attributes@.len() ==> base_varying(
            st,
            g.resulting_type_id,
            #[trigger] g.varying_attributes@[j],
        ) || virtual_varying(formulas, g.varying_attributes@[j])
    &&& forall|id: DogmaAttributeId|
        has_mutator(st, g.resulting_type_id) && #[trigger] id_in_all_mutators(
            st,
            g.resulting_type_id,
            id,
        ) ==> varying_has(g.varying_attributes@, id)
}

/// An attribute is found in a range table exactly when some row carries
/// its id.
pub proof fn lemma_range_get_has(
    s: Seq<(DogmaAttributeId, crate::types::AttributeRange)>,
    a: DogmaAttributeId,
)
    ensures
        (crate::store::range_get(s, a) is Some) <==> exists|x: int|
            0 <= x < s.len() && (#[trigger] s[x]).0 == a,
    decreases s.len(),
{
    if s.len() > 0 {
        if s.last().0 == a {
            assert(s[s.len() - 1].0 == a);
        } else {
            lemma_range_get_has(s.drop_last(), a);
            if exists|x: int| 0 <= x < s.len() && (#[trigger] s[x]).0 == a {
                let x = choose|x: int| 0 <= x < s.len() && (#[trigger] s[x]).0 == a;
                assert(x < s.len() - 1);
                assert(s.drop_last()[x].0 == a);
            }
            if crate::store::range_get(s.drop_last(), a) is Some {
                let x = choose|x: int| 0 <= x < s.drop_last().len() && (#[trigger] s.drop_last()[x]).0 == a;
                assert(s[x].0 == a);
            }
        }
    }
}

/// Every group's union list and mutator list are pinned to the store.
pub open spec fn report_pinned(
    st: CharacterAssets,
    formulas: Seq<VirtualAttributeFormula>,
    rep: DynamicsReport,
) -> bool {
    forall|k: int|
        0 <= k < rep.data@.len() ==> {
            let g = (#[trigger] rep.data@[k]).1;
            &&& minmax_pinned(st, formulas, g)
            &&& mutators_pinned(st, formulas, g)
            &&& base_pinned(st, formulas, g)
            &&& varying_pinned(st, formulas, g)
            &&& instances_pinned(st, formulas, g)
            &&& forall|s: int|
                0 <= s < g.source_mutator_groups@.len() ==> pair_pinned(
                    st,
                    formulas,
                    #[trigger] g.source_mutator_groups@[s],
                )
        }
}

/// The report can be projected: every held dynamic's asset is present and
/// its `(source, mutator)` pair has a known relation.
pub open spec fn report_buildable(st: CharacterAssets) -> bool {
    forall|i: int|
        0 <= i < st.dynamics.entries_seq().len() ==> {
            let e = #[trigger] st.dynamics.entries_seq()[i];
            &&& st.assets.contains_key(e.0)
            &&& rel_get(
                st.mutaplasmid_effects.relations@,
                e.1.source_type_id,
                e.1.mutator_type_id,
            ) is Some
        }
}

/// Project the closed store into the grouped report: one group per
/// resulting type reachable from a held dynamic, carrying the varying
/// schema, base values, mutator ranges, the union interval, and per-pair
/// ranges with the held instances and their location chains. Fails when
/// a held dynamic's asset is missing or its pair has no known relation.
pub fn build_report(
    st: &CharacterAssets,
    formulas: &Vec<VirtualAttributeFormula>,
    stats: &mut ChainStats,
    cache: &mut ChainCache,
) -> (r: Result<DynamicsReport, DynamicsError>)
    requires
        st.wf(),
        old(cache).valid_for(*st),
    ensures
        final(cache).valid_for(*st),
        r is Err <==> !report_buildable(*st),
        match r {
            Ok(rep) => report_sound(*st, rep) && report_complete(*st, rep) && report_pinned(
                *st,
                formulas@,
                rep,
            ),
            Err(e) => e == DynamicsError::DatabaseError,
        },
{
    // group the held dynamics by (source, mutator)
    let mut pairs: Vec<(TypeId, TypeId, Vec<DynamicItemData>)> = Vec::new();
    let nd = st.dynamics.len();
    let mut i: usize = 0;
    while i < nd
        invariant
            st.wf(),
            cache.valid_for(*st),
            nd == st.dynamics.entries_seq().len(),
            i <= nd,
            forall|p: int|
                0 <= p < pairs@.len() ==> pair_held(
                    *st,
                    (#[trigger] pairs@[p]).0,
                    pairs@[p].1,
                ),
            forall|d: int| 0 <= d < i ==> #[trigger] pair_in_list(*st, pairs@, d),
            forall|d: int|
                0 <= d < i ==> st.assets.contains_key(
                    (#[trigger] st.dynamics.entries_seq()[d]).0,
                ),
            forall|p2: int, d2: int|
                #![trigger pairs@[p2].2@[d2]]
                0 <= p2 < pairs@.len() && 0 <= d2 < pairs@[p2].2@.len() ==> dd_src(
                    *st,
                    pairs@[p2].0,
                    pairs@[p2].1,
                    pairs@[p2].2@[d2],
                ),
        decreases nd - i,
    {
        let entry = st.dynamics.at(i);
        let item_id = entry.0;
        let d = &entry.1;
        let asset = match st.assets.get(item_id) {
            Some(a) => a,
            None => {
                proof {
                    assert(!st.assets.contains_key(st.dynamics.entries_seq()[i as int].0));
                    assert(!report_buildable(*st));
                }
                return Err(DynamicsError::DatabaseError);
            },
        };
        let chain = build_location_chain(st, asset, stats, cache);
        let mut attrs: Vec<AttributeValue> = Vec::new();
        let an = d.dogma_attributes.len();
        let mut a: usize = 0;
        proof {
            assert(attrs@ =~= dyn_vals(d.dogma_attributes@.subrange(0, 0)));
        }
        while a < an
            invariant
                an == d.dogma_attributes@.len(),
                a <= an,
                attrs@ == dyn_vals(d.dogma_attributes@.subrange(0, a as int)),
            decreases an - a,
        {
            attrs.push(
                AttributeValue {
                    id: d.dogma_attributes[a].attribute_id,
                    value: d.dogma_attributes[a].value as i128,
                },
            );
            proof {
                assert(dyn_vals(d.dogma_attributes@.subrange(0, a + 1)) =~= dyn_vals(
                    d.dogma_attributes@.subrange(0, a as int),
                ).push(
                    AttributeValue {
                        id: d.dogma_attributes@[a as int].attribute_id,
                        value: d.dogma_attributes@[a as int].value as i128,
                    },
                ));
            }
            a = a + 1;
        }
        proof {
            assert(d.dogma_attributes@.subrange(0, an as int) =~= d.dogma_attributes@);
        }
        let dd = DynamicItemData {
            item_id,
            station_name: chain.0,
            location_type: chain.1,
            location_name: chain.2,
            attributes: attrs,
        };
        let src = d.source_type_id;
        let mt = d.mutator_type_id;
        let ghost ddv = dd;
        proof {
            assert(st.dynamics.entries_seq()[i as int] == *entry);
            assert(dd_src(*st, src, mt, ddv));
        }
        let pn = pairs.len();
        let mut p: usize = 0;
        let mut slot: usize = pn;
        while p < pn
            invariant
                pn == pairs@.len(),
                p <= pn,
                slot == pn || (slot < pn && pairs@[slot as int].0 == src && pairs@[slot as int].1
                    == mt),
            decreases pn - p,
        {
            if pairs[p].0 == src && pairs[p].1 == mt {
                slot = p;
                break ;
            }
            p = p + 1;
        }
        let ghost pairs0 = pairs@;
        if slot < pairs.len() {
            let mut row = pairs.remove(slot);
            row.2.push(dd);
            pairs.insert(slot, row);
            proof {
                assert(pairs@[slot as int].0 == src && pairs@[slot as int].1 == mt);
                assert forall|q: int|
                    0 <= q < pairs@.len() implies ((#[trigger] pairs@[q]).0, pairs@[q].1) == (
                    pairs0[q].0,
                    pairs0[q].1,
                ) by {
                    if q != slot {
                        assert(pairs@[q] == pairs0[q]);
                    }
                }
                assert forall|q: int|
                    0 <= q < pairs@.len() implies pair_held(
                    *st,
                    (#[trigger] pairs@[q]).0,
                    pairs@[q].1,
                ) by {
                    assert(pair_held(*st, pairs0[q].0, pairs0[q].1));
                }
                assert(pairs@[slot as int].2@ == pairs0[slot as int].2@.push(ddv));
                assert forall|p2: int, d2: int|
                    #![trigger pairs@[p2].2@[d2]]
                    0 <= p2 < pairs@.len() && 0 <= d2 < pairs@[p2].2@.len() implies dd_src(
                    *st,
                    pairs@[p2].0,
                    pairs@[p2].1,
                    pairs@[p2].2@[d2],
                ) by {
                    if p2 != slot {
                        assert(pairs@[p2] == pairs0[p2]);
                        assert(dd_src(*st, pairs0[p2].0, pairs0[p2].1, pairs0[p2].2@[d2]));
                    } else {
                        if d2 < pairs0[slot as int].2@.len() {
                            assert(pairs@[p2].2@[d2] == pairs0[p2].2@[d2]);
                            assert(dd_src(*st, pairs0[p2].0, pairs0[p2].1, pairs0[p2].2@[d2]));
                        } else {
                            assert(pairs@[p2].2@[d2] == ddv);
                        }
                    }
                }
            }
        } else {
            let mut dds: Vec<DynamicItemData> = Vec::new();
            dds.push(dd);
            pairs.push((src, mt, dds));
            proof {
                assert(pairs@[pairs0.len() as int].2@.len() == 1);
                assert(pairs@[pairs0.len() as int].2@[0] == ddv);
                assert forall|p2: int, d2: int|
                    #![trigger pairs@[p2].2@[d2]]
                    0 <= p2 < pairs@.len() && 0 <= d2 < pairs@[p2].2@.len() implies dd_src(
                    *st,
                    pairs@[p2].0,
                    pairs@[p2].1,
                    pairs@[p2].2@[d2],
                ) by {
                    if p2 < pairs0.len() {
                        assert(pairs@[p2] == pairs0[p2]);
                        assert(dd_src(*st, pairs0[p2].0, pairs0[p2].1, pairs0[p2].2@[d2]));
                    } else {
                        assert(pairs@[p2].2@[d2] == ddv);
                    }
                }
                assert(pairs@[pairs0.len() as int].0 == src && pairs@[pairs0.len() as int].1 == mt);
                assert(st.dynamics.entries_seq()[i as int].1.source_type_id == src);
                assert(pair_held(*st, src, mt));
                assert forall|q: int|
                    0 <= q < pairs@.len() implies pair_held(
                    *st,
                    (#[trigger] pairs@[q]).0,
                    pairs@[q].1,
                ) by {
                    if q < pairs0.len() {
                        assert(pairs@[q] == pairs0[q]);
                    }
                }
            }
        }
        proof {
            assert forall|dq: int|
                0 <= dq < i + 1 implies #[trigger] pair_in_list(*st, pairs@, dq) by {
                if dq < i {
                    assert(pair_in_list(*st, pairs0, dq));
                    let p = choose|p: int|
                        0 <= p < pairs0.len() && (#[trigger] pairs0[p]).0
                            == st.dynamics.entries_seq()[dq].1.source_type_id && pairs0[p].1
                            == st.dynamics.entries_seq()[dq].1.mutator_type_id;
                    assert(pairs@[p].0 == pairs0[p].0 && pairs@[p].1 == pairs0[p].1);
                } else {
                    if slot < pairs0.len() {
                        assert(pairs@[slot as int].0 == src && pairs@[slot as int].1 == mt);
                    } else {
                        assert(pairs@[pairs0.len() as int].0 == src && pairs@[
                            pairs0.len() as int].1 == mt);
                    }
                    assert(st.dynamics.entries_seq()[dq].1.source_type_id == src);
                    assert(st.dynamics.entries_seq()[dq].1.mutator_type_id == mt);
                }
            }
        }
        i = i + 1;
    }
    proof {
        assert(pairs_complete(*st, pairs@));
    }
    // bucket the pairs by their resulting type
    let mut rts: Vec<(TypeId, Vec<usize>)> = Vec::new();
    let pn = pairs.len();
    let mut p: usize = 0;
    while p < pn
        invariant
            st.wf(),
            cache.valid_for(*st),
            pn == pairs@.len(),
            p <= pn,
            forall|q: int|
                0 <= q < pairs@.len() ==> pair_held(*st, (#[trigger] pairs@[q]).0, pairs@[q].1),
            pairs_complete(*st, pairs@),
            forall|k: int, s: int|
                0 <= k < rts@.len() && 0 <= s < (#[trigger] rts@[k]).1@.len() ==> {
                    let idx = (#[trigger] rts@[k].1@[s]) as int;
                    &&& 0 <= idx < pairs@.len()
                    &&& rel_get(st.mutaplasmid_effects.relations@, pairs@[idx].0, pairs@[idx].1)
                        == Some(rts@[k].0)
                },
            forall|q: int| 0 <= q < p ==> #[trigger] pair_bucketed(rts@, q),
        decreases pn - p,
    {
        let src = pairs[p].0;
        let mt = pairs[p].1;
        let rt = match st.get_resulting_type_by_source_mutator(src, mt) {
            Ok(t) => t,
            Err(_) => {
                proof {
                    assert(pair_held(*st, src, mt));
                    let d = choose|d: int|
                        0 <= d < st.dynamics.entries_seq().len() && (
                        #[trigger] st.dynamics.entries_seq()[d]).1.source_type_id == src
                            && st.dynamics.entries_seq()[d].1.mutator_type_id == mt;
                    assert(rel_get(
                        st.mutaplasmid_effects.relations@,
                        st.dynamics.entries_seq()[d].1.source_type_id,
                        st.dynamics.entries_seq()[d].1.mutator_type_id,
                    ) is None);
                    assert(!report_buildable(*st));
                }
                return Err(DynamicsError::DatabaseError);
            },
        };
        let rn = rts.len();
        let mut k: usize = 0;
        let mut kslot: usize = rn;
        while k < rn
            invariant
                rn == rts@.len(),
                k <= rn,
                kslot == rn || (kslot < rn && rts@[kslot as int].0 == rt),
            decreases rn - k,
        {
            if rts[k].0 == rt {
                kslot = k;
                break ;
            }
            k = k + 1;
        }
        let ghost rts0 = rts@;
        if kslot < rts.len() {
            let mut row = rts.remove(kslot);
            row.1.push(p);
            rts.insert(kslot, row);
            proof {
                assert(rts@[kslot as int].0 == rt);
                assert(rts@[kslot as int].1@ == rts0[kslot as int].1@.push(p));
                assert forall|k2: int, s: int|
                    0 <= k2 < rts@.len() && 0 <= s < (#[trigger] rts@[k2]).1@.len() implies {
                    let idx = (#[trigger] rts@[k2].1@[s]) as int;
                    &&& 0 <= idx < pairs@.len()
                    &&& rel_get(st.mutaplasmid_effects.relations@, pairs@[idx].0, pairs@[idx].1)
                        == Some(rts@[k2].0)
                } by {
                    if k2 != kslot {
                        assert(rts@[k2] == rts0[k2]);
                    } else {
                        if s < rts0[kslot as int].1@.len() {
                            assert(rts@[k2].1@[s] == rts0[k2].1@[s]);
                        } else {
                            assert(rts@[k2].1@[s] == p);
                        }
                    }
                }
                assert forall|q: int| 0 <= q < p + 1 implies #[trigger] pair_bucketed(
                    rts@,
                    q,
                ) by {
                    if q < p {
                        assert(pair_bucketed(rts0, q));
                        let (k2, s): (int, int) = choose|k2: int, s: int|
                            0 <= k2 < rts0.len() && 0 <= s < rts0[k2].1@.len() && (#[trigger] rts0[k2].1@[s]) as int == q;
                        assert(rts@[k2].1@[s] as int == q);
                    } else {
                        assert(rts@[kslot as int].1@[rts0[kslot as int].1@.len() as int] as int
                            == p);
                    }
                }
            }
        } else {
            let mut idxs: Vec<usize> = Vec::new();
            idxs.push(p);
            rts.push((rt, idxs));
            proof {
                assert(rts@[rts0.len() as int].0 == rt);
                assert(rts@[rts0.len() as int].1@[0] == p);
                assert forall|k2: int, s: int|
                    0 <= k2 < rts@.len() && 0 <= s < (#[trigger] rts@[k2]).1@.len() implies {
                    let idx = (#[trigger] rts@[k2].1@[s]) as int;
                    &&& 0 <= idx < pairs@.len()
                    &&& rel_get(st.mutaplasmid_effects.relations@, pairs@[idx].0, pairs@[idx].1)
                        == Some(rts@[k2].0)
                } by {
                    if k2 < rts0.len() {
                        assert(rts@[k2] == rts0[k2]);
                    }
                }
                assert forall|q: int| 0 <= q < p + 1 implies #[trigger] pair_bucketed(
                    rts@,
                    q,
                ) by {
                    if q < p {
                        assert(pair_bucketed(rts0, q));
                        let (k2, s): (int, int) = choose|k2: int, s: int|
                            0 <= k2 < rts0.len() && 0 <= s < rts0[k2].1@.len() && (#[trigger] rts0[k2].1@[s]) as int == q;
                        assert(rts@[k2] == rts0[k2]);
                        assert(rts@[k2].1@[s] as int == q);
                    } else {
                        assert(rts@[rts0.len() as int].1@[0] as int == p);
                    }
                }
            }
        }
        p = p + 1;
    }
    // build one group per resulting type
    let mut data: Vec<(Vec<u8>, ResultingGroup)> = Vec::new();
    let rn = rts.len();
    let mut k: usize = 0;
    while k < rn
        invariant
            st.wf(),
            cache.valid_for(*st),
            rn == rts@.len(),
            k <= rn,
            pn == pairs@.len(),
            forall|q: int|
                0 <= q < pairs@.len() ==> pair_held(*st, (#[trigger] pairs@[q]).0, pairs@[q].1),
            pairs_complete(*st, pairs@),
            forall|k2: int, s: int|
                0 <= k2 < rts@.len() && 0 <= s < (#[trigger] rts@[k2]).1@.len() ==> {
                    let idx = (#[trigger] rts@[k2].1@[s]) as int;
                    &&& 0 <= idx < pairs@.len()
                    &&& rel_get(st.mutaplasmid_effects.relations@, pairs@[idx].0, pairs@[idx].1)
                        == Some(rts@[k2].0)
                },
            forall|q: int| 0 <= q < pairs@.len() ==> #[trigger] pair_bucketed(rts@, q),
            data@.len() == k,
            forall|k2: int|
                0 <= k2 < k ==> (#[trigger] data@[k2]).1.resulting_type_id == rts@[k2].0
                    && data@[k2].1.source_mutator_groups@.len() == rts@[k2].1@.len(),
            forall|k2: int, s: int|
                0 <= k2 < k && 0 <= s < (#[trigger] data@[k2]).1.source_mutator_groups@.len() ==> {
                    let smg = #[trigger] data@[k2].1.source_mutator_groups@[s];
                    let idx = rts@[k2].1@[s] as int;
                    smg.source_type_id == pairs@[idx].0 && smg.mutator_type_id == pairs@[idx].1
                },
            forall|k2: int| 0 <= k2 < k ==> minmax_pinned(*st, formulas@, (#[trigger] data@[k2]).1),
            forall|k2: int|
                0 <= k2 < k ==> mutators_pinned(*st, formulas@, (#[trigger] data@[k2]).1),
            forall|k2: int| 0 <= k2 < k ==> base_pinned(*st, formulas@, (#[trigger] data@[k2]).1),
            forall|k2: int|
                0 <= k2 < k ==> varying_pinned(*st, formulas@, (#[trigger] data@[k2]).1),
            forall|k2: int|
                0 <= k2 < k ==> instances_pinned(*st, formulas@, (#[trigger] data@[k2]).1),
            forall|p2: int, d2: int|
                #![trigger pairs@[p2].2@[d2]]
                0 <= p2 < pairs@.len() && 0 <= d2 < pairs@[p2].2@.len() ==> dd_src(
                    *st,
                    pairs@[p2].0,
                    pairs@[p2].1,
                    pairs@[p2].2@[d2],
                ),
            forall|k2: int, s: int|
                0 <= k2 < k && 0 <= s < (#[trigger] data@[k2]).1.source_mutator_groups@.len()
                    ==> pair_pinned(
                    *st,
                    formulas@,
                    #[trigger] data@[k2].1.source_mutator_groups@[s],
                ),
        decreases rn - k,
    {
        let rt = rts[k].0;
        let name: Vec<u8> = match st.types.get(rt as i64) {
            Some(t) => crate::types::clone_bytes(&t.name),
            None => crate::bytes::prefixed_i64(crate::bytes::type_prefix_vec(), rt as i64),
        };
        // the varying schema: attribute ids common to every mutator of the
        // group, then the applicable virtual columns
        let muts = st.get_mutators_by_resulting_type_id(rt);
        let mut varying: Vec<VaryingAttribute> = Vec::new();
        if muts.len() > 0 {
            let first = &muts[0].2;
            let fan = first.len();
            let mut a: usize = 0;
            while a < fan
                invariant
                    st.wf(),
                    muts_listing_ok(*st, rt, muts@),
                    muts@.len() >= 1,
                    first@ == muts@[0].2@,
                    fan == first@.len(),
                    a <= fan,
                    forall|j: int|
                        0 <= j < varying@.len() ==> base_varying(*st, rt, #[trigger] varying@[j]),
                    forall|x2: int|
                        0 <= x2 < a && id_in_all_mutators(*st, rt, (#[trigger] first@[x2]).0)
                            ==> varying_has(varying@, first@[x2].0),
                decreases fan - a,
            {
                let ghost vhead = varying@;
                let id = first[a].0;
                let mut in_all = true;
                let mut m: usize = 1;
                while m < muts.len()
                    invariant
                        st.wf(),
                        muts_listing_ok(*st, rt, muts@),
                        muts@.len() >= 1,
                        m <= muts@.len(),
                        m >= 1,
                        in_all ==> forall|mm: int|
                            1 <= mm < m ==> crate::store::range_get(
                                (#[trigger] muts@[mm]).2@,
                                id,
                            ) is Some,
                        !in_all ==> !id_in_all_mutators(*st, rt, id),
                    decreases muts@.len() - m,
                {
                    let mut present = false;
                    let ml = muts[m].2.len();
                    let mut x: usize = 0;
                    while x < ml
                        invariant
                            m < muts@.len(),
                            ml == muts@[m as int].2@.len(),
                            x <= ml,
                            present ==> exists|x2: int|
                                0 <= x2 < muts@[m as int].2@.len() && (
                                #[trigger] muts@[m as int].2@[x2]).0 == id,
                            !present ==> forall|x2: int|
                                0 <= x2 < x ==> (#[trigger] muts@[m as int].2@[x2]).0 != id,
                        decreases ml - x,
                    {
                        if muts[m].2[x].0 == id {
                            present = true;
                        }
                        x = x + 1;
                    }
                    proof {
                        lemma_range_get_has(muts@[m as int].2@, id);
                        if !present {
                            assert(crate::store::range_get(
                                crate::store::mutator_ranges(*st, muts@[m as int].0),
                                id,
                            ) is None);
                            assert(crate::store::mutator_of(*st, rt, muts@[m as int].0));
                            assert(!id_in_all_mutators(*st, rt, id));
                        }
                    }
                    if !present {
                        in_all = false;
                    }
                    m = m + 1;
                }
                let mut dup = false;
                let mut v: usize = 0;
                while v < varying.len()
                    invariant
                        v <= varying@.len(),
                        varying@ == vhead,
                        dup ==> varying_has(varying@, id),
                    decreases varying@.len() - v,
                {
                    if varying[v].id == id {
                        dup = true;
                        proof {
                            assert((varying@[v as int]).id == id);
                        }
                    }
                    v = v + 1;
                }
                if in_all && !dup {
                    proof {
                        assert forall|mt2: TypeId|
                            crate::store::mutator_of(*st, rt, mt2) implies crate::store::range_get(
                            #[trigger] crate::store::mutator_ranges(*st, mt2),
                            id,
                        ) is Some by {
                            let kk = choose|kk: int|
                                0 <= kk < muts@.len() && (#[trigger] muts@[kk]).0 == mt2;
                            lemma_range_get_has(muts@[kk].2@, id);
                            if kk == 0 {
                                assert(muts@[0].2@[a as int].0 == id);
                            }
                        }
                        assert(id_in_all_mutators(*st, rt, id));
                    }
                    let aname: Vec<u8> = match st.dogma_attributes.get(id as i64) {
                        Some(da) => match &da.name {
                            Some(nm) => crate::types::clone_bytes(nm),
                            None => crate::bytes::prefixed_i64(
                                crate::bytes::attribute_prefix_vec(),
                                id as i64,
                            ),
                        },
                        None => crate::bytes::prefixed_i64(
                            crate::bytes::attribute_prefix_vec(),
                            id as i64,
                        ),
                    };
                    let hig: Option<bool> = match st.dogma_attributes.get(id as i64) {
                        Some(da) => da.high_is_good,
                        None => None,
                    };
                    proof {
                        assert(aname@ == attr_name_spec(*st, id));
                        assert(hig == attr_hig_spec(*st, id));
                    }
                    varying.push(VaryingAttribute { id, name: aname, high_is_good: hig });
                    proof {
                        assert(varying@[vhead.len() as int].id == id);
                        assert(base_varying(*st, rt, varying@[vhead.len() as int]));
                        assert forall|j: int|
                            0 <= j < varying@.len() implies base_varying(
                            *st,
                            rt,
                            #[trigger] varying@[j],
                        ) by {
                            if j < vhead.len() {
                                assert(varying@[j] == vhead[j]);
                            }
                        }
                    }
                }
                proof {
                    assert forall|x2: int|
                        0 <= x2 < a + 1 && id_in_all_mutators(
                            *st,
                            rt,
                            (#[trigger] first@[x2]).0,
                        ) implies varying_has(varying@, first@[x2].0) by {
                        if x2 < a {
                            assert(varying_has(vhead, first@[x2].0));
                            let j = choose|j: int|
                                0 <= j < vhead.len() && (#[trigger] vhead[j]).id == first@[x2].0;
                            assert(varying@[j].id == first@[x2].0);
                        } else {
                            if in_all && !dup {
                                assert(varying@[vhead.len() as int].id == id);
                            } else if in_all {
                                let j = choose|j: int|
                                    0 <= j < vhead.len() && (#[trigger] vhead[j]).id == id;
                                assert(varying@[j].id == id);
                            } else {
                                assert(!id_in_all_mutators(*st, rt, id));
                            }
                        }
                    }
                }
                a = a + 1;
            }
            proof {
                assert forall|id2: DogmaAttributeId|
                    has_mutator(*st, rt) && #[trigger] id_in_all_mutators(*st, rt, id2)
                        implies varying_has(varying@, id2) by {
                    assert(crate::store::mutator_of(*st, rt, muts@[0].0));
                    assert(crate::store::range_get(
                        crate::store::mutator_ranges(*st, muts@[0].0),
                        id2,
                    ) is Some);
                    lemma_range_get_has(muts@[0].2@, id2);
                    let x2 = choose|x2: int|
                        0 <= x2 < muts@[0].2@.len() && (#[trigger] muts@[0].2@[x2]).0 == id2;
                    assert(first@[x2].0 == id2);
                    assert(id_in_all_mutators(*st, rt, (first@[x2]).0));
                }
            }
        } else {
            proof {
                assert forall|id2: DogmaAttributeId|
                    has_mutator(*st, rt) && #[trigger] id_in_all_mutators(*st, rt, id2)
                        implies varying_has(varying@, id2) by {
                    let mt2 = choose|mt2: TypeId| #[trigger] crate::store::mutator_of(*st, rt, mt2);
                    let kk = choose|kk: int|
                        0 <= kk < muts@.len() && (#[trigger] muts@[kk]).0 == mt2;
                }
            }
        }
        let ghost varying_base = varying@;
        proof {
            assert(forall|j: int|
                0 <= j < varying@.len() ==> base_varying(*st, rt, #[trigger] varying@[j]));
        }
        append_varying_attributes(formulas, &mut varying);
        proof {
            assert forall|j: int|
                0 <= j < varying@.len() implies base_varying(
                *st,
                rt,
                #[trigger] varying@[j],
            ) || virtual_varying(formulas@, varying@[j]) by {
                if j < varying_base.len() {
                    assert(varying@[j] == varying_base[j]);
                    assert(base_varying(*st, rt, varying_base[j]));
                } else {
                    assert(appended_from(formulas@, varying_base, varying@[j]));
                    let fi = choose|fi: int|
                        0 <= fi < formulas@.len() && {
                            let f = #[trigger] formulas@[fi];
                            &&& varying@[j].id == f.virtual_id
                            &&& varying@[j].name@ == f.name@
                            &&& varying@[j].high_is_good == f.high_is_good
                            &&& formula_applicable(f, varying_base)
                        };
                    assert(virtual_varying(formulas@, varying@[j]));
                }
            }
            assert forall|id2: DogmaAttributeId|
                has_mutator(*st, rt) && #[trigger] id_in_all_mutators(*st, rt, id2)
                    implies varying_has(varying@, id2) by {
                assert(varying_has(varying_base, id2));
                let j = choose|j: int|
                    0 <= j < varying_base.len() && (#[trigger] varying_base[j]).id == id2;
                assert(varying@[j] == varying_base[j]);
            }
        }
        // base types: the applicable sources, their values restricted to
        // the schema
        let mut base_types: Vec<BaseItemType> = Vec::new();
        match st.get_applicable_types_by_resulting_type(rt) {
            Ok(sources) => {
                let sn = sources.len();
                let mut sidx: usize = 0;
                while sidx < sn
                    invariant
                        st.wf(),
                        sn == sources@.len(),
                        sidx <= sn,
                        forall|t: TypeId| sources@.contains(t) ==> source_of(*st, rt, t),
                        forall|b2: int|
                            0 <= b2 < base_types@.len() ==> {
                                let bt = #[trigger] base_types@[b2];
                                &&& source_of(*st, rt, bt.id)
                                &&& st.types.spec_get(bt.id as i64) matches Some(it) && bt.name@
                                    == it.name@ && bt.attributes@ == append_virtual_values(
                                    formulas@,
                                    filtered_vals(it.dogma_attributes@, varying@),
                                )
                            },
                        forall|s2: int|
                            0 <= s2 < sidx && st.types.spec_get(
                                (#[trigger] sources@[s2]) as i64,
                            ) is Some ==> exists|b2: int|
                                0 <= b2 < base_types@.len() && (#[trigger] base_types@[b2]).id
                                    == sources@[s2],
                    decreases sn - sidx,
                {
                    let tid = sources[sidx];
                    let ghost bpre = base_types@;
                    proof {
                        assert(sources@.contains(sources@[sidx as int]));
                        assert(source_of(*st, rt, tid));
                    }
                    match st.types.get(tid as i64) {
                        Some(it) => {
                            let mut vals: Vec<AttributeValue> = Vec::new();
                            let tn = it.dogma_attributes.len();
                            let mut x: usize = 0;
                            proof {
                                assert(vals@ =~= filtered_vals(
                                    it.dogma_attributes@.subrange(0, 0),
                                    varying@,
                                ));
                            }
                            while x < tn
                                invariant
                                    tn == it.dogma_attributes@.len(),
                                    x <= tn,
                                    vals@ == filtered_vals(
                                        it.dogma_attributes@.subrange(0, x as int),
                                        varying@,
                                    ),
                                decreases tn - x,
                            {
                                proof {
                                    assert(it.dogma_attributes@.subrange(0, x + 1).drop_last()
                                        =~= it.dogma_attributes@.subrange(0, x as int));
                                    assert(it.dogma_attributes@.subrange(0, x + 1).last()
                                        == it.dogma_attributes@[x as int]);
                                }
                                let aid = it.dogma_attributes[x].attribute_id;
                                if varying_contains(&varying, aid) {
                                    vals.push(
                                        AttributeValue {
                                            id: aid,
                                            value: it.dogma_attributes[x].value as i128,
                                        },
                                    );
                                }
                                x = x + 1;
                            }
                            proof {
                                assert(it.dogma_attributes@.subrange(0, tn as int)
                                    =~= it.dogma_attributes@);
                            }
                            append_attribute_values(formulas, &mut vals);
                            base_types.push(
                                BaseItemType {
                                    id: tid,
                                    name: crate::types::clone_bytes(&it.name),
                                    attributes: vals,
                                },
                            );
                            proof {
                                assert(base_types@[bpre.len() as int].id == tid);
                                assert forall|s2: int|
                                    0 <= s2 < sidx + 1 && st.types.spec_get(
                                        (#[trigger] sources@[s2]) as i64,
                                    ) is Some implies exists|b2: int|
                                    0 <= b2 < base_types@.len() && (
                                    #[trigger] base_types@[b2]).id == sources@[s2] by {
                                    if s2 < sidx {
                                        let b2 = choose|b2: int|
                                            0 <= b2 < bpre.len() && (#[trigger] bpre[b2]).id
                                                == sources@[s2];
                                        assert(base_types@[b2] == bpre[b2]);
                                    } else {
                                        assert(base_types@[bpre.len() as int].id == sources@[s2]);
                                    }
                                }
                            }
                        }
                        None => {
                            proof {
                                assert(st.types.spec_get(tid as i64) is None);
                                assert forall|s2: int|
                                    0 <= s2 < sidx + 1 && st.types.spec_get(
                                        (#[trigger] sources@[s2]) as i64,
                                    ) is Some implies exists|b2: int|
                                    0 <= b2 < base_types@.len() && (
                                    #[trigger] base_types@[b2]).id == sources@[s2] by {
                                    assert(s2 != sidx);
                                }
                            }
                        }
                    }
                    sidx = sidx + 1;
                }
                proof {
                    assert forall|t: TypeId|
                        source_of(*st, rt, t) && st.types.spec_get(t as i64) is Some
                            implies exists|b2: int|
                        0 <= b2 < base_types@.len() && (#[trigger] base_types@[b2]).id == t by {
                        assert(sources@.contains(t));
                        let s2 = choose|s2: int| 0 <= s2 < sources@.len() && sources@[s2] == t;
                        assert(st.types.spec_get((sources@[s2]) as i64) is Some);
                    }
                }
            }
            Err(_) => {
                proof {
                    assert forall|t: TypeId|
                        source_of(*st, rt, t) && st.types.spec_get(t as i64) is Some
                            implies exists|b2: int|
                        0 <= b2 < base_types@.len() && (#[trigger] base_types@[b2]).id == t by {
                        let i = choose|i: int|
                            0 <= i < st.mutaplasmid_effects.relations@.len() && (
                            #[trigger] st.mutaplasmid_effects.relations@[i]).0 == t
                                && st.mutaplasmid_effects.relations@[i].2 == rt;
                        assert(st.mutaplasmid_effects.relations@[i].2 != rt);
                    }
                }
            }
        }
        // mutators with their raw ranges
        let mut mutators: Vec<MutatorConcise> = Vec::new();
        let mn = muts.len();
        let mut m: usize = 0;
        while m < mn
            invariant
                st.wf(),
                mn == muts@.len(),
                m <= mn,
                rt == rts@[k as int].0,
                k < rn,
                rn == rts@.len(),
                forall|k2: int|
                    0 <= k2 < muts@.len() ==> {
                        &&& crate::store::mutator_of(*st, rt, (#[trigger] muts@[k2]).0)
                        &&& muts@[k2].1@ == crate::store::mutator_name_spec(*st, muts@[k2].0)
                        &&& muts@[k2].2@ == crate::store::mutator_ranges(*st, muts@[k2].0)
                    },
                mutators@.len() == m,
                forall|m2: int|
                    0 <= m2 < m ==> {
                        let mc = #[trigger] mutators@[m2];
                        &&& mc.id == muts@[m2].0
                        &&& mc.name@ == muts@[m2].1@
                        &&& mc.attributes@ == append_virtual_ranges(
                            formulas@,
                            raw_ranges(muts@[m2].2@),
                        )
                    },
            decreases mn - m,
        {
            let entry = &muts[m];
            let mut ranges: Vec<AttributeRange> = Vec::new();
            let rl = entry.2.len();
            let mut x: usize = 0;
            proof {
                assert(ranges@ =~= raw_ranges(entry.2@.subrange(0, 0)));
            }
            while x < rl
                invariant
                    m < muts@.len(),
                    entry == muts@[m as int],
                    rl == entry.2@.len(),
                    x <= rl,
                    ranges@ == raw_ranges(entry.2@.subrange(0, x as int)),
                decreases rl - x,
            {
                ranges.push(
                    AttributeRange {
                        id: entry.2[x].0,
                        min: entry.2[x].1.min as i128,
                        max: entry.2[x].1.max as i128,
                    },
                );
                proof {
                    assert(raw_ranges(entry.2@.subrange(0, x + 1)) =~= raw_ranges(
                        entry.2@.subrange(0, x as int),
                    ).push(
                        AttributeRange {
                            id: entry.2@[x as int].0,
                            min: entry.2@[x as int].1.min as i128,
                            max: entry.2@[x as int].1.max as i128,
                        },
                    ));
                }
                x = x + 1;
            }
            proof {
                assert(entry.2@.subrange(0, rl as int) =~= entry.2@);
            }
            append_min_max_attribute_values(formulas, &mut ranges);
            mutators.push(
                MutatorConcise {
                    id: entry.0,
                    name: crate::types::clone_bytes(&entry.1),
                    attributes: ranges,
                },
            );
            m = m + 1;
        }
        // the union interval
        let mm = st.get_min_max_attributes_by_resulting_type_id(rt);
        proof {
            assert(union_ranges_ok(*st, rt, mm@));
        }
        let mut min_max: Vec<AttributeRange> = Vec::new();
        let mml = mm.len();
        let mut x: usize = 0;
        proof {
            assert(min_max@ =~= ranges_of(mm@.subrange(0, 0)));
        }
        while x < mml
            invariant
                mml == mm@.len(),
                x <= mml,
                min_max@ == ranges_of(mm@.subrange(0, x as int)),
            decreases mml - x,
        {
            min_max.push(AttributeRange { id: mm[x].0, min: mm[x].1, max: mm[x].2 });
            proof {
                assert(ranges_of(mm@.subrange(0, x + 1)) =~= ranges_of(
                    mm@.subrange(0, x as int),
                ).push(AttributeRange { id: mm@[x as int].0, min: mm@[x as int].1, max: mm@[x as int].2 }));
            }
            x = x + 1;
        }
        proof {
            assert(mm@.subrange(0, mml as int) =~= mm@);
        }
        append_min_max_attribute_values(formulas, &mut min_max);
        // the pairs of this resulting type
        let mut smgs: Vec<SourceMutatorGroup> = Vec::new();
        let idxs = &rts[k].1;
        let il = idxs.len();
        let mut s: usize = 0;
        while s < il
            invariant
                st.wf(),
                k < rn,
                rn == rts@.len(),
                pn == pairs@.len(),
                idxs == rts@[k as int].1,
                il == idxs@.len(),
                s <= il,
                forall|k2: int, s2: int|
                    0 <= k2 < rts@.len() && 0 <= s2 < (#[trigger] rts@[k2]).1@.len() ==> {
                        let idx = (#[trigger] rts@[k2].1@[s2]) as int;
                        &&& 0 <= idx < pairs@.len()
                        &&& rel_get(st.mutaplasmid_effects.relations@, pairs@[idx].0, pairs@[idx].1)
                            == Some(rts@[k2].0)
                    },
                smgs@.len() == s,
                forall|s2: int|
                    0 <= s2 < s ==> {
                        let smg = #[trigger] smgs@[s2];
                        let idx = rts@[k as int].1@[s2] as int;
                        smg.source_type_id == pairs@[idx].0 && smg.mutator_type_id == pairs@[idx].1
                    },
                forall|s2: int| 0 <= s2 < s ==> pair_pinned(*st, formulas@, #[trigger] smgs@[s2]),
                forall|s2: int, d2: int|
                    #![trigger smgs@[s2].dynamics@[d2]]
                    0 <= s2 < s && 0 <= d2 < smgs@[s2].dynamics@.len() ==> instance_pinned(
                        *st,
                        formulas@,
                        varying@,
                        smgs@[s2].source_type_id,
                        smgs@[s2].mutator_type_id,
                        smgs@[s2].dynamics@[d2],
                    ),
                forall|p2: int, d2: int|
                #![trigger pairs@[p2].2@[d2]]
                0 <= p2 < pairs@.len() && 0 <= d2 < pairs@[p2].2@.len() ==> dd_src(
                    *st,
                    pairs@[p2].0,
                    pairs@[p2].1,
                    pairs@[p2].2@[d2],
                ),
            decreases il - s,
        {
            let idx = idxs[s];
            proof {
                assert(rts@[k as int].1@[s as int] == idx);
            }
            let src = pairs[idx].0;
            let mt = pairs[idx].1;
            // instances restricted to the schema
            let mut dds: Vec<DynamicItemData> = Vec::new();
            let dl = pairs[idx].2.len();
            let mut di: usize = 0;
            while di < dl
                invariant
                    idx < pairs@.len(),
                    dl == pairs@[idx as int].2@.len(),
                    di <= dl,
                    src == pairs@[idx as int].0,
                    mt == pairs@[idx as int].1,
                    dds@.len() == di,
                    forall|d2: int|
                        0 <= d2 < di ==> instance_pinned(
                            *st,
                            formulas@,
                            varying@,
                            src,
                            mt,
                            #[trigger] dds@[d2],
                        ),
                    forall|p2: int, d2: int|
                #![trigger pairs@[p2].2@[d2]]
                0 <= p2 < pairs@.len() && 0 <= d2 < pairs@[p2].2@.len() ==> dd_src(
                    *st,
                    pairs@[p2].0,
                    pairs@[p2].1,
                    pairs@[p2].2@[d2],
                ),
                decreases dl - di,
            {
                let dd = &pairs[idx].2[di];
                let mut vals: Vec<AttributeValue> = Vec::new();
                let vl = dd.attributes.len();
                let mut x: usize = 0;
                proof {
                    assert(vals@ =~= filtered_values(dd.attributes@.subrange(0, 0), varying@));
                }
                while x < vl
                    invariant
                        idx < pairs@.len(),
                        di < pairs@[idx as int].2@.len(),
                        dd == pairs@[idx as int].2@[di as int],
                        vl == dd.attributes@.len(),
                        x <= vl,
                        vals@ == filtered_values(dd.attributes@.subrange(0, x as int), varying@),
                    decreases vl - x,
                {
                    proof {
                        assert(dd.attributes@.subrange(0, x + 1).drop_last() =~= dd.attributes@.subrange(
                            0,
                            x as int,
                        ));
                        assert(dd.attributes@.subrange(0, x + 1).last() == dd.attributes@[x as int]);
                    }
                    if varying_contains(&varying, dd.attributes[x].id) {
                        vals.push(dd.attributes[x]);
                    }
                    x = x + 1;
                }
                proof {
                    assert(dd.attributes@.subrange(0, vl as int) =~= dd.attributes@);
                }
                append_attribute_values(formulas, &mut vals);
                dds.push(
                    DynamicItemData {
                        item_id: dd.item_id,
                        station_name: crate::types::clone_bytes(&dd.station_name),
                        location_type: crate::types::clone_bytes(&dd.location_type),
                        location_name: crate::types::clone_bytes(&dd.location_name),
                        attributes: vals,
                    },
                );
                proof {
                    assert(dd_src(*st, src, mt, pairs@[idx as int].2@[di as int]));
                    let i2 = choose|i2: int|
                        0 <= i2 < st.dynamics.entries_seq().len() && {
                            let e = #[trigger] st.dynamics.entries_seq()[i2];
                            &&& dd.item_id == e.0
                            &&& e.1.source_type_id == src
                            &&& e.1.mutator_type_id == mt
                            &&& st.assets.spec_get(e.0) matches Some(a) && (
                                dd.station_name@,
                                dd.location_type@,
                                dd.location_name@,
                            ) == crate::chain::chain_spec(*st, a.location_id, a.location_type@)
                            &&& dd.attributes@ == dyn_vals(e.1.dogma_attributes@)
                        };
                    assert(instance_pinned(
                        *st,
                        formulas@,
                        varying@,
                        src,
                        mt,
                        dds@[di as int],
                    )) by {
                        let e = st.dynamics.entries_seq()[i2];
                        assert(dds@[di as int].attributes@ == append_virtual_values(
                            formulas@,
                            filtered_values(dyn_vals(e.1.dogma_attributes@), varying@),
                        ));
                    }
                }
                di = di + 1;
            }
            // per-pair multiplied ranges
            let mut pranges: Vec<AttributeRange> = Vec::new();
            match st.types.get(src as i64) {
                Some(it) => {
                    match st.get_attributes_by_mutator_type_id(mt) {
                        Ok(mranges) => {
                            let tn = it.dogma_attributes.len();
                            let mut x: usize = 0;
                            proof {
                                assert(pranges@ =~= pair_rows(
                                    it.dogma_attributes@.subrange(0, 0),
                                    mranges@,
                                ));
                            }
                            while x < tn
                                invariant
                                    tn == it.dogma_attributes@.len(),
                                    x <= tn,
                                    pranges@ == pair_rows(
                                        it.dogma_attributes@.subrange(0, x as int),
                                        mranges@,
                                    ),
                                decreases tn - x,
                            {
                                proof {
                                    assert(it.dogma_attributes@.subrange(0, x + 1).drop_last()
                                        =~= it.dogma_attributes@.subrange(0, x as int));
                                    assert(it.dogma_attributes@.subrange(0, x + 1).last()
                                        == it.dogma_attributes@[x as int]);
                                }
                                let attr = it.dogma_attributes[x];
                                match crate::store::find_range(&mranges, attr.attribute_id) {
                                    Some(rg) => {
                                        proof {
                                            crate::store::lemma_i64_mul_fits(rg.min, attr.value);
                                            crate::store::lemma_i64_mul_fits(rg.max, attr.value);
                                        }
                                        let v1: i128 = (rg.min as i128) * (attr.value as i128);
                                        let v2: i128 = (rg.max as i128) * (attr.value as i128);
                                        let (mnv, mxv) = if v1 < v2 {
                                            (v1, v2)
                                        } else {
                                            (v2, v1)
                                        };
                                        pranges.push(
                                            AttributeRange { id: attr.attribute_id, min: mnv, max: mxv },
                                        );
                                        proof {
                                            assert((AttributeRange {
                                                id: attr.attribute_id,
                                                min: mnv,
                                                max: mxv,
                                            }) == pair_row(attr, rg));
                                        }
                                    }
                                    None => {}
                                }
                                x = x + 1;
                            }
                            proof {
                                assert(it.dogma_attributes@.subrange(0, tn as int)
                                    =~= it.dogma_attributes@);
                                assert(pranges@ == pair_ranges_spec(*st, src, mt));
                            }
                        }
                        Err(_) => {
                            proof {
                                assert(pranges@ =~= pair_ranges_spec(*st, src, mt));
                            }
                        }
                    }
                }
                None => {
                    proof {
                        assert(pranges@ =~= pair_ranges_spec(*st, src, mt));
                    }
                }
            }
            append_min_max_attribute_values(formulas, &mut pranges);
            proof {
                assert(pranges@ == append_virtual_ranges(formulas@, pair_ranges_spec(*st, src, mt)));
            }
            smgs.push(
                SourceMutatorGroup {
                    source_type_id: src,
                    mutator_type_id: mt,
                    attributes: pranges,
                    dynamics: dds,
                },
            );
            s = s + 1;
        }
        let group = ResultingGroup {
            resulting_type_id: rt,
            source_mutator_groups: smgs,
            base_types,
            mutators,
            varying_attributes: varying,
            min_max_attributes: min_max,
        };
        proof {
            assert(minmax_pinned(*st, formulas@, group)) by {
                assert(union_ranges_ok(*st, group.resulting_type_id, mm@));
                assert(group.min_max_attributes@ == append_virtual_ranges(
                    formulas@,
                    ranges_of(mm@),
                ));
            }
            assert(varying_pinned(*st, formulas@, group)) by {
                assert(group.varying_attributes@ == varying@);
            }
            assert(instances_pinned(*st, formulas@, group)) by {
                assert forall|s2: int, d2: int|
                    #![trigger group.source_mutator_groups@[s2].dynamics@[d2]]
                    0 <= s2 < group.source_mutator_groups@.len() && 0 <= d2
                        < group.source_mutator_groups@[s2].dynamics@.len() implies instance_pinned(
                    *st,
                    formulas@,
                    group.varying_attributes@,
                    group.source_mutator_groups@[s2].source_type_id,
                    group.source_mutator_groups@[s2].mutator_type_id,
                    group.source_mutator_groups@[s2].dynamics@[d2],
                ) by {
                    assert(group.source_mutator_groups@[s2] == smgs@[s2]);
                    assert(instance_pinned(
                        *st,
                        formulas@,
                        varying@,
                        smgs@[s2].source_type_id,
                        smgs@[s2].mutator_type_id,
                        smgs@[s2].dynamics@[d2],
                    ));
                }
            }
            assert(base_pinned(*st, formulas@, group)) by {
                assert forall|b2: int| 0 <= b2 < group.base_types@.len() implies {
                    let bt = #[trigger] group.base_types@[b2];
                    &&& source_of(*st, group.resulting_type_id, bt.id)
                    &&& st.types.spec_get(bt.id as i64) matches Some(it) && bt.name@ == it.name@
                        && bt.attributes@ == append_virtual_values(
                        formulas@,
                        filtered_vals(it.dogma_attributes@, group.varying_attributes@),
                    )
                } by {
                    assert(base_types@[b2] == group.base_types@[b2]);
                }
            }
            assert(mutators_pinned(*st, formulas@, group)) by {
                assert forall|m2: int| 0 <= m2 < group.mutators@.len() implies {
                    let mc = #[trigger] group.mutators@[m2];
                    &&& crate::store::mutator_of(*st, group.resulting_type_id, mc.id)
                    &&& mc.name@ == crate::store::mutator_name_spec(*st, mc.id)
                    &&& mc.attributes@ == append_virtual_ranges(
                        formulas@,
                        raw_ranges(crate::store::mutator_ranges(*st, mc.id)),
                    )
                } by {
                    assert(group.mutators@[m2].id == muts@[m2].0);
                }
                assert forall|mt2: TypeId|
                    crate::store::mutator_of(*st, group.resulting_type_id, mt2) implies exists|
                    kk: int,
                |
                    0 <= kk < group.mutators@.len() && (#[trigger] group.mutators@[kk]).id
                        == mt2 by {
                    let kk = choose|kk: int|
                        0 <= kk < muts@.len() && (#[trigger] muts@[kk]).0 == mt2;
                    assert(group.mutators@[kk].id == mt2);
                }
                assert forall|p2: int, q2: int|
                    0 <= p2 < q2 < group.mutators@.len() implies (
                #[trigger] group.mutators@[p2]).id != (#[trigger] group.mutators@[q2]).id by {
                    assert(group.mutators@[p2].id == muts@[p2].0);
                    assert(group.mutators@[q2].id == muts@[q2].0);
                }
            }
        }
        data.push((name, group));
        k = k + 1;
    }
    let rep = DynamicsReport { data };
    proof {
        assert(report_buildable(*st)) by {
            assert forall|d: int| 0 <= d < st.dynamics.entries_seq().len() implies {
                let e = #[trigger] st.dynamics.entries_seq()[d];
                &&& st.assets.contains_key(e.0)
                &&& rel_get(
                    st.mutaplasmid_effects.relations@,
                    e.1.source_type_id,
                    e.1.mutator_type_id,
                ) is Some
            } by {
                assert(pair_in_list(*st, pairs@, d));
                let q = choose|q: int|
                    0 <= q < pairs@.len() && (#[trigger] pairs@[q]).0
                        == st.dynamics.entries_seq()[d].1.source_type_id && pairs@[q].1
                        == st.dynamics.entries_seq()[d].1.mutator_type_id;
                assert(pair_bucketed(rts@, q));
                let (k2, s): (int, int) = choose|k2: int, s: int|
                    0 <= k2 < rts@.len() && 0 <= s < rts@[k2].1@.len() && (
                    #[trigger] rts@[k2].1@[s]) as int == q;
                assert(rel_get(st.mutaplasmid_effects.relations@, pairs@[q].0, pairs@[q].1)
                    == Some(rts@[k2].0));
            }
        }
        assert(report_pinned(*st, formulas@, rep));
        assert(report_sound(*st, rep));
        assert forall|d: int|
            0 <= d < st.dynamics.entries_seq().len() implies #[trigger] dynamic_reported(
            *st,
            rep,
            d,
        ) by {
            assert(pair_in_list(*st, pairs@, d));
            let q = choose|q: int|
                0 <= q < pairs@.len() && (#[trigger] pairs@[q]).0 == st.dynamics.entries_seq()[d].1.source_type_id
                    && pairs@[q].1 == st.dynamics.entries_seq()[d].1.mutator_type_id;
            assert(pair_bucketed(rts@, q));
            let (k2, s): (int, int) = choose|k2: int, s: int|
                0 <= k2 < rts@.len() && 0 <= s < rts@[k2].1@.len() && (#[trigger] rts@[k2].1@[s]) as int == q;
            assert(rts@[k2].1@[s] as int == q);
            assert(rep.data@[k2].1.source_mutator_groups@[s].source_type_id == pairs@[q].0);
            assert(rep.data@[k2].1.source_mutator_groups@[s].mutator_type_id == pairs@[q].1);
        }
    }
    Ok(rep)
}

} // verus!
