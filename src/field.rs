use vstd::prelude::*;

verus! {

/// Modulus of the 64-bit STARK field, `p = 2^64 - 2^32 + 1`.
pub const MODULUS: u64 = 18446744069414584321;

/// A field element is held as its canonical value in `0 .. p`.
pub open spec fn is_felt(x: u64) -> bool {
    x < MODULUS
}

/// Every entry of `s` is a canonical field element.
pub open spec fn all_felts(s: Seq<u64>) -> bool {
    forall|i: int| 0 <= i < s.len() ==> is_felt(#[trigger] s[i])
}

/// Field addition.
pub fn felt_add(a: u64, b: u64) -> (r: u64)
    requires
        is_felt(a),
        is_felt(b),
    ensures
        r == (a as int + b as int) % (MODULUS as int),
        is_felt(r),
{
    let s: u128 = a as u128 + b as u128;
    (s % (MODULUS as u128)) as u64
}

/// Field multiplication.
pub fn felt_mul(a: u64, b: u64) -> (r: u64)
    requires
        is_felt(a),
        is_felt(b),
    ensures
        r == (a as int * b as int) % (MODULUS as int),
        is_felt(r),
{
    proof {
        assert((a as int) * (b as int) <= (u64::MAX as int) * (u64::MAX as int)) by (nonlinear_arith)
            requires
                a <= u64::MAX,
                b <= u64::MAX,
        ;
    }
    let p: u128 = a as u128 * b as u128;
    (p % (MODULUS as u128)) as u64
}

/// A field with a GPU implementation.
pub trait GpuField {
    /// The kernel name of the field.
    spec fn name_spec() -> Seq<char>;

    /// Used to select which GPU kernel to call.
    fn field_name() -> (r: String)
        ensures
            r@ == Self::name_spec(),
    ;
}

/// The 64-bit STARK field, whose elements are held as canonical `u64` values.
pub struct Fp;

impl GpuField for Fp {
    open spec fn name_spec() -> Seq<char> {
        "fp18446744069414584321"@
    }

    fn field_name() -> (r: String) {
        "fp18446744069414584321".to_owned()
    }
}

} // verus!
