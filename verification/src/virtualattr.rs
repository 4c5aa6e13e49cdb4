//! Virtual attributes: derived quantities computed as a product of
//! primary attribute values divided by another product, carried under
//! reserved negative ids. A value or range is computable only when every
//! constituent attribute is present and the denominator cannot be zero.

use vstd::prelude::*;

use crate::store::{CharacterAssets, StoreError};
use crate::types::DogmaAttributeId;
use vstd::string::StringSliceAdditionalSpecFns;

verus! {

pub const VIRTUAL_ARMOR_REPAIR_EFFICIENCY_ID: DogmaAttributeId = -1;

pub const VIRTUAL_ARMOR_REPAIR_SPEED_ID: DogmaAttributeId = -2;

pub const VIRTUAL_SHIELD_REPAIR_EFFICIENCY_ID: DogmaAttributeId = -3;

pub const VIRTUAL_SHIELD_REPAIR_SPEED_ID: DogmaAttributeId = -4;

pub const VIRTUAL_DPS_MODIFIER_ID: DogmaAttributeId = -5;

pub const VIRTUAL_MISSILE_DPS_MODIFIER_ID: DogmaAttributeId = -6;

pub const VIRTUAL_NEUTRALIZATION_EFFICIENCY_ID: DogmaAttributeId = -7;

/// A formula resolved to attribute ids: the value is the product of the
/// numerator attributes divided by the product of the denominators.
pub struct VirtualAttributeFormula {
    pub virtual_id: DogmaAttributeId,
    pub name: Vec<u8>,
    pub high_is_good: Option<bool>,
    pub numerator_attr_ids: Vec<DogmaAttributeId>,
    pub denominator_attr_ids: Vec<DogmaAttributeId>,
}

/// Copy the UTF-8 bytes of a literal name.
pub fn bytes_of(s: &str) -> (r: Vec<u8>)
    ensures
        r@ == s.spec_bytes(),
{
    let b = s.as_bytes();
    let n = b.len();
    let mut r: Vec<u8> = Vec::new();
    let mut i: usize = 0;
    while i < n
        invariant
            n == b@.len(),
            b@ == s.spec_bytes(),
            i <= n,
            r@ == b@.subrange(0, i as int),
        decreases n - i,
    {
        r.push(b[i]);
        proof {
            assert(b@.subrange(0, i + 1) =~= b@.subrange(0, i as int).push(b@[i as int]));
        }
        i = i + 1;
    }
    proof {
        assert(b@.subrange(0, n as int) =~= b@);
    }
    r
}

/// The id bound to an attribute name, when the reverse index has it.
pub open spec fn name_id(st: CharacterAssets, name: Seq<u8>) -> Option<DogmaAttributeId> {
    st.dogma_attributes_name_to_id.spec_get(name)
}

/// One resolved formula's shape.
pub open spec fn formula_ok(
    st: CharacterAssets,
    f: VirtualAttributeFormula,
    virtual_id: DogmaAttributeId,
    nums: Seq<Seq<u8>>,
    dens: Seq<Seq<u8>>,
) -> bool {
    &&& f.virtual_id == virtual_id
    &&& f.numerator_attr_ids@.len() == nums.len()
    &&& f.denominator_attr_ids@.len() == dens.len()
    &&& forall|i: int|
        0 <= i < nums.len() ==> Some(#[trigger] f.numerator_attr_ids@[i]) == name_id(st, nums[i])
    &&& forall|i: int|
        0 <= i < dens.len() ==> Some(#[trigger] f.denominator_attr_ids@[i]) == name_id(st, dens[i])
}

/// Resolve one name through the reverse index.
fn resolve(st: &CharacterAssets, name: &str) -> (r: Result<DogmaAttributeId, StoreError>)
    ensures
        match r {
            Ok(id) => name_id(*st, name.spec_bytes()) == Some(id),
            Err(e) => e == StoreError::AttributeNameNotFound && name_id(
                *st,
                name.spec_bytes(),
            ) is None,
        },
{
    let bytes = bytes_of(name);
    st.get_attribute_id_by_name(&bytes)
}

/// Build one single-source formula.
fn make_formula(
    st: &CharacterAssets,
    virtual_id: DogmaAttributeId,
    name: &str,
    num: &str,
    den: &str,
) -> (r: Result<VirtualAttributeFormula, StoreError>)
    ensures
        match r {
            Ok(f) => formula_ok(
                *st,
                f,
                virtual_id,
                seq![num.spec_bytes()],
                seq![den.spec_bytes()],
            ) && f.name@ == name.spec_bytes() && f.high_is_good == Some(true),
            Err(e) => e == StoreError::AttributeNameNotFound && (name_id(
                *st,
                num.spec_bytes(),
            ) is None || name_id(*st, den.spec_bytes()) is None),
        },
{
    let num_id = match resolve(st, num) {
        Ok(i) => i,
        Err(e) => {
            return Err(e);
        },
    };
    let den_id = match resolve(st, den) {
        Ok(i) => i,
        Err(e) => {
            return Err(e);
        },
    };
    let mut nums: Vec<DogmaAttributeId> = Vec::new();
    nums.push(num_id);
    let mut dens: Vec<DogmaAttributeId> = Vec::new();
    dens.push(den_id);
    Ok(
        VirtualAttributeFormula {
            virtual_id,
            name: bytes_of(name),
            high_is_good: Some(true),
            numerator_attr_ids: nums,
            denominator_attr_ids: dens,
        },
    )
}

/// Every constituent attribute name of the formula catalogue is bound
/// in the reverse index.
pub open spec fn formulas_resolvable(st: CharacterAssets) -> bool {
    &&& name_id(st, "Armor Hitpoints Repaired".spec_bytes()) is Some
    &&& name_id(st, "Activation Cost".spec_bytes()) is Some
    &&& name_id(st, "Activation time / duration".spec_bytes()) is Some
    &&& name_id(st, "Shield Bonus".spec_bytes()) is Some
    &&& name_id(st, "Damage Modifier".spec_bytes()) is Some
    &&& name_id(st, "rate of fire bonus".spec_bytes()) is Some
    &&& name_id(st, "Missile Damage Bonus".spec_bytes()) is Some
    &&& name_id(st, "Neutralization Amount".spec_bytes()) is Some
}

/// Resolve the formula catalogue against the store's dogma-attribute
/// name index, once the attribute metadata is loaded. Fails exactly when
/// a constituent attribute name is not (yet) indexed.
pub fn initialize_virtual_attributes(st: &CharacterAssets) -> (r: Result<
    Vec<VirtualAttributeFormula>,
    StoreError,
>)
    ensures
        match r {
            Ok(fs) => {
                &&& fs@.len() == 7
                &&& formula_ok(
                    *st,
                    fs@[0],
                    VIRTUAL_ARMOR_REPAIR_EFFICIENCY_ID,
                    seq!["Armor Hitpoints Repaired".spec_bytes()],
                    seq!["Activation Cost".spec_bytes()],
                )
                &&& formula_ok(
                    *st,
                    fs@[1],
                    VIRTUAL_ARMOR_REPAIR_SPEED_ID,
                    seq!["Armor Hitpoints Repaired".spec_bytes()],
                    seq!["Activation time / duration".spec_bytes()],
                )
                &&& formula_ok(
                    *st,
                    fs@[2],
                    VIRTUAL_SHIELD_REPAIR_EFFICIENCY_ID,
                    seq!["Shield Bonus".spec_bytes()],
                    seq!["Activation Cost".spec_bytes()],
                )
                &&& formula_ok(
                    *st,
                    fs@[3],
                    VIRTUAL_SHIELD_REPAIR_SPEED_ID,
                    seq!["Shield Bonus".spec_bytes()],
                    seq!["Activation time / duration".spec_bytes()],
                )
                &&& formula_ok(
                    *st,
                    fs@[4],
                    VIRTUAL_DPS_MODIFIER_ID,
                    seq!["Damage Modifier".spec_bytes()],
                    seq!["rate of fire bonus".spec_bytes()],
                )
                &&& formula_ok(
                    *st,
                    fs@[5],
                    VIRTUAL_MISSILE_DPS_MODIFIER_ID,
                    seq!["Missile Damage Bonus".spec_bytes()],
                    seq!["rate of fire bonus".spec_bytes()],
                )
                &&& formula_ok(
                    *st,
                    fs@[6],
                    VIRTUAL_NEUTRALIZATION_EFFICIENCY_ID,
                    seq!["Neutralization Amount".spec_bytes()],
                    seq!["Activation Cost".spec_bytes()],
                )
            },
            Err(e) => e == StoreError::AttributeNameNotFound,
        },
        r is Ok <==> formulas_resolvable(*st),
{
    let f0 = match make_formula(
        st,
        VIRTUAL_ARMOR_REPAIR_EFFICIENCY_ID,
        "Armor Repair Efficiency",
        "Armor Hitpoints Repaired",
        "Activation Cost",
    ) {
        Ok(f) => f,
        Err(e) => {
            return Err(e);
        },
    };
    proof {
        assert(Some(f0.numerator_attr_ids@[0]) == name_id(*st, "Armor Hitpoints Repaired".spec_bytes()));
        assert(Some(f0.denominator_attr_ids@[0]) == name_id(*st, "Activation Cost".spec_bytes()));
    }
    let f1 = match make_formula(
        st,
        VIRTUAL_ARMOR_REPAIR_SPEED_ID,
        "Armor Repair Speed",
        "Armor Hitpoints Repaired",
        "Activation time / duration",
    ) {
        Ok(f) => f,
        Err(e) => {
            return Err(e);
        },
    };
    proof {
        assert(Some(f1.numerator_attr_ids@[0]) == name_id(*st, "Armor Hitpoints Repaired".spec_bytes()));
        assert(Some(f1.denominator_attr_ids@[0]) == name_id(*st, "Activation time / duration".spec_bytes()));
    }
    let f2 = match make_formula(
        st,
        VIRTUAL_SHIELD_REPAIR_EFFICIENCY_ID,
        "Shield Repair Efficiency",
        "Shield Bonus",
        "Activation Cost",
    ) {
        Ok(f) => f,
        Err(e) => {
            return Err(e);
        },
    };
    proof {
        assert(Some(f2.numerator_attr_ids@[0]) == name_id(*st, "Shield Bonus".spec_bytes()));
        assert(Some(f2.denominator_attr_ids@[0]) == name_id(*st, "Activation Cost".spec_bytes()));
    }
    let f3 = match make_formula(
        st,
        VIRTUAL_SHIELD_REPAIR_SPEED_ID,
        "Shield Repair Speed",
        "Shield Bonus",
        "Activation time / duration",
    ) {
        Ok(f) => f,
        Err(e) => {
            return Err(e);
        },
    };
    proof {
        assert(Some(f3.numerator_attr_ids@[0]) == name_id(*st, "Shield Bonus".spec_bytes()));
        assert(Some(f3.denominator_attr_ids@[0]) == name_id(*st, "Activation time / duration".spec_bytes()));
    }
    let f4 = match make_formula(
        st,
        VIRTUAL_DPS_MODIFIER_ID,
        "DPS Modifier",
        "Damage Modifier",
        "rate of fire bonus",
    ) {
        Ok(f) => f,
        Err(e) => {
            return Err(e);
        },
    };
    proof {
        assert(Some(f4.numerator_attr_ids@[0]) == name_id(*st, "Damage Modifier".spec_bytes()));
        assert(Some(f4.denominator_attr_ids@[0]) == name_id(*st, "rate of fire bonus".spec_bytes()));
    }
    let f5 = match make_formula(
        st,
        VIRTUAL_MISSILE_DPS_MODIFIER_ID,
        "Missile DPS Modifier",
        "Missile Damage Bonus",
        "rate of fire bonus",
    ) {
        Ok(f) => f,
        Err(e) => {
            return Err(e);
        },
    };
    proof {
        assert(Some(f5.numerator_attr_ids@[0]) == name_id(*st, "Missile Damage Bonus".spec_bytes()));
        assert(Some(f5.denominator_attr_ids@[0]) == name_id(*st, "rate of fire bonus".spec_bytes()));
    }
    let f6 = match make_formula(
        st,
        VIRTUAL_NEUTRALIZATION_EFFICIENCY_ID,
        "Neutralization Efficiency",
        "Neutralization Amount",
        "Activation Cost",
    ) {
        Ok(f) => f,
        Err(e) => {
            return Err(e);
        },
    };
    proof {
        assert(Some(f6.numerator_attr_ids@[0]) == name_id(*st, "Neutralization Amount".spec_bytes()));
        assert(Some(f6.denominator_attr_ids@[0]) == name_id(*st, "Activation Cost".spec_bytes()));
    }
    let mut fs: Vec<VirtualAttributeFormula> = Vec::new();
    fs.push(f0);
    fs.push(f1);
    fs.push(f2);
    fs.push(f3);
    fs.push(f4);
    fs.push(f5);
    fs.push(f6);
    Ok(fs)
}

} // verus!
