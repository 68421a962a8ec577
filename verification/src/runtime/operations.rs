//! The operation library: one pure function per operator, over tagged
//! values. Each operation either produces a result value or fails with a
//! type mismatch (division also with [`RunError::DivisionByZero`]).
//!
//! Integer arithmetic wraps modulo `2^32`, the behaviour of the 32-bit
//! machine integers the language is defined over.
use vstd::prelude::*;

use crate::parsing::parser::{dt_view, exprs_view, lemma_exprs_view, wf_dt, wf_expr, wf_exprs,
    DataStore, DataType, Expr, ExprV, Literal, Val};
use crate::runtime::values::{err_view, ErrV, RunError};

verus! {

/// `n` reduced to the 32-bit signed range, the way machine arithmetic
/// wraps.
pub open spec fn wrap32(n: int) -> int {
    if n % 0x1_0000_0000 > i32::MAX as int {
        n % 0x1_0000_0000 - 0x1_0000_0000
    } else {
        n % 0x1_0000_0000
    }
}

/// Division truncated toward zero (the machine's signed division),
/// meaningful for `b != 0`.
pub open spec fn div_trunc(a: int, b: int) -> int {
    if a >= 0 && b > 0 {
        a / b
    } else if a >= 0 && b < 0 {
        -(a / (-b))
    } else if a < 0 && b > 0 {
        -((-a) / b)
    } else {
        (-a) / (-b)
    }
}

/// Values in the 32-bit range wrap to themselves.
pub proof fn lemma_wrap32_small(n: int)
    requires
        i32::MIN <= n <= i32::MAX,
    ensures
        wrap32(n) == n,
{
    if n >= 0 {
        vstd::arithmetic::div_mod::lemma_small_mod(n as nat, 0x1_0000_0000nat);
    } else {
        vstd::arithmetic::div_mod::lemma_mod_multiples_vanish(1, n, 0x1_0000_0000);
        vstd::arithmetic::div_mod::lemma_small_mod((n + 0x1_0000_0000) as nat, 0x1_0000_0000nat);
    }
}

/// Wrapping is periodic with period `2^32`.
pub proof fn lemma_wrap32_period(n: int)
    ensures
        wrap32(n + 0x1_0000_0000) == wrap32(n),
        wrap32(n - 0x1_0000_0000) == wrap32(n),
{
    vstd::arithmetic::div_mod::lemma_mod_multiples_vanish(1, n, 0x1_0000_0000);
    vstd::arithmetic::div_mod::lemma_mod_multiples_vanish(-1, n, 0x1_0000_0000);
}

/// What `+` denotes: 32-bit sum of integers, concatenation of strings.
pub open spec fn spec_add(l: Val, r: Val) -> Result<Val, ErrV> {
    match (l, r) {
        (Val::Int(a), Val::Int(b)) => Ok(Val::Int(wrap32(a + b))),
        (Val::Str(a), Val::Str(b)) => Ok(Val::Str(a + b)),
        _ => Err(ErrV::TypeMismatch),
    }
}

/// What `-` denotes: 32-bit difference of integers.
pub open spec fn spec_subtract(l: Val, r: Val) -> Result<Val, ErrV> {
    match (l, r) {
        (Val::Int(a), Val::Int(b)) => Ok(Val::Int(wrap32(a - b))),
        _ => Err(ErrV::TypeMismatch),
    }
}

/// What `*` denotes: 32-bit product of integers.
pub open spec fn spec_multiply(l: Val, r: Val) -> Result<Val, ErrV> {
    match (l, r) {
        (Val::Int(a), Val::Int(b)) => Ok(Val::Int(wrap32(a * b))),
        _ => Err(ErrV::TypeMismatch),
    }
}

/// What `/` denotes: truncated division of integers; dividing by zero is
/// an explicit failure, never a crash.
pub open spec fn spec_divide(l: Val, r: Val) -> Result<Val, ErrV> {
    match (l, r) {
        (Val::Int(a), Val::Int(b)) => if b == 0 {
            Err(ErrV::DivisionByZero)
        } else {
            Ok(Val::Int(wrap32(div_trunc(a, b))))
        },
        _ => Err(ErrV::TypeMismatch),
    }
}

/// What `==` denotes: comparison of two integers, two booleans or two
/// strings.
pub open spec fn spec_equals(l: Val, r: Val) -> Result<Val, ErrV> {
    match (l, r) {
        (Val::Int(a), Val::Int(b)) => Ok(Val::Bool(a == b)),
        (Val::Bool(a), Val::Bool(b)) => Ok(Val::Bool(a == b)),
        (Val::Str(a), Val::Str(b)) => Ok(Val::Bool(a == b)),
        _ => Err(ErrV::TypeMismatch),
    }
}

/// What `!=` denotes.
pub open spec fn spec_not_equal(l: Val, r: Val) -> Result<Val, ErrV> {
    match (l, r) {
        (Val::Int(a), Val::Int(b)) => Ok(Val::Bool(a != b)),
        (Val::Bool(a), Val::Bool(b)) => Ok(Val::Bool(a != b)),
        (Val::Str(a), Val::Str(b)) => Ok(Val::Bool(a != b)),
        _ => Err(ErrV::TypeMismatch),
    }
}

/// What `<` denotes.
pub open spec fn spec_lesser(l: Val, r: Val) -> Result<Val, ErrV> {
    match (l, r) {
        (Val::Int(a), Val::Int(b)) => Ok(Val::Bool(a < b)),
        _ => Err(ErrV::TypeMismatch),
    }
}

/// What `>` denotes.
pub open spec fn spec_greater(l: Val, r: Val) -> Result<Val, ErrV> {
    match (l, r) {
        (Val::Int(a), Val::Int(b)) => Ok(Val::Bool(a > b)),
        _ => Err(ErrV::TypeMismatch),
    }
}

/// What `<=` denotes.
pub open spec fn spec_equal_lesser(l: Val, r: Val) -> Result<Val, ErrV> {
    match (l, r) {
        (Val::Int(a), Val::Int(b)) => Ok(Val::Bool(a <= b)),
        _ => Err(ErrV::TypeMismatch),
    }
}

/// What `>=` denotes.
pub open spec fn spec_equal_greater(l: Val, r: Val) -> Result<Val, ErrV> {
    match (l, r) {
        (Val::Int(a), Val::Int(b)) => Ok(Val::Bool(a >= b)),
        _ => Err(ErrV::TypeMismatch),
    }
}

/// What `!` denotes.
pub open spec fn spec_not(r: Val) -> Result<Val, ErrV> {
    match r {
        Val::Bool(b) => Ok(Val::Bool(!b)),
        _ => Err(ErrV::TypeMismatch),
    }
}

/// What `&&` denotes.
pub open spec fn spec_and(l: Val, r: Val) -> Result<Val, ErrV> {
    match (l, r) {
        (Val::Bool(a), Val::Bool(b)) => Ok(Val::Bool(a && b)),
        _ => Err(ErrV::TypeMismatch),
    }
}

/// What `||` denotes.
pub open spec fn spec_or(l: Val, r: Val) -> Result<Val, ErrV> {
    match (l, r) {
        (Val::Bool(a), Val::Bool(b)) => Ok(Val::Bool(a || b)),
        _ => Err(ErrV::TypeMismatch),
    }
}

/// What `arr[i]` denotes: the literal element at the index, counted from
/// the end when the index is negative; any index outside the array, or an
/// element that is not a literal value, is a failure.
pub open spec fn spec_index(l: Val, r: Val) -> Result<Val, ErrV> {
    match (l, r) {
        (Val::Arr(es), Val::Int(i)) => {
            let adj = if i < 0 {
                es.len() + i
            } else {
                i
            };
            if 0 <= adj < es.len() {
                match es[adj] {
                    ExprV::Literal(v) => Ok(v),
                    _ => Err(ErrV::TypeMismatch),
                }
            } else {
                Err(ErrV::TypeMismatch)
            }
        },
        _ => Err(ErrV::TypeMismatch),
    }
}

/// The denotation of an operation's outcome.
pub open spec fn res_view(r: Result<DataType, RunError>) -> Result<Val, ErrV> {
    match r {
        Ok(d) => Ok(dt_view(d)),
        Err(e) => Err(err_view(e)),
    }
}

/// Packs a 32-bit integer as a value.
fn int_result(z: i32) -> (d: DataType)
    ensures
        dt_view(d) == Val::Int(z as int),
        wf_dt(d),
{
    DataType { value: String::new(), kind: Literal::Int, store: DataStore::new(Some(z), None) }
}

/// Packs a boolean as a value.
fn bool_result(z: bool) -> (d: DataType)
    ensures
        dt_view(d) == Val::Bool(z),
        wf_dt(d),
{
    DataType { value: String::new(), kind: Literal::Bool, store: DataStore::new(None, Some(z)) }
}

/// Packs text as a string value.
pub fn string_result(z: String) -> (d: DataType)
    ensures
        dt_view(d) == Val::Str(z@),
        wf_dt(d),
{
    DataType { value: z, kind: Literal::String, store: DataStore::new(None, None) }
}

/// Adds two integers (wrapping) or concatenates two strings.
pub fn add(left: DataType, right: DataType) -> (r: Result<DataType, RunError>)
    requires
        wf_dt(left),
        wf_dt(right),
    ensures
        res_view(r) == spec_add(dt_view(left), dt_view(right)),
        r matches Ok(d) ==> wf_dt(d),
{
    match (left.kind, right.kind) {
        (Literal::Int, Literal::Int) => {
            let a = int_of(&left);
            let b = int_of(&right);
            let z = a.wrapping_add(b);
            proof {
                lemma_wrap32_small(z as int);
                if a + b > i32::MAX {
                    lemma_wrap32_period(a + b - 0x1_0000_0000);
                } else if a + b < i32::MIN {
                    lemma_wrap32_period(a + b);
                }
            }
            Ok(int_result(z))
        },
        (Literal::String, Literal::String) => {
            let mut z = left.value;
            z.append(right.value.as_str());
            Ok(string_result(z))
        },
        _ => Err(RunError::TypeMismatch),
    }
}

/// Subtracts one integer from another (wrapping).
pub fn subtract(left: DataType, right: DataType) -> (r: Result<DataType, RunError>)
    requires
        wf_dt(left),
        wf_dt(right),
    ensures
        res_view(r) == spec_subtract(dt_view(left), dt_view(right)),
        r matches Ok(d) ==> wf_dt(d),
{
    match (left.kind, right.kind) {
        (Literal::Int, Literal::Int) => {
            let a = int_of(&left);
            let b = int_of(&right);
            let z = a.wrapping_sub(b);
            proof {
                lemma_wrap32_small(z as int);
                if a - b > i32::MAX {
                    lemma_wrap32_period(a - b - 0x1_0000_0000);
                } else if a - b < i32::MIN {
                    lemma_wrap32_period(a - b);
                }
            }
            Ok(int_result(z))
        },
        _ => Err(RunError::TypeMismatch),
    }
}

/// Multiplies two integers (wrapping).
pub fn multiply(left: DataType, right: DataType) -> (r: Result<DataType, RunError>)
    requires
        wf_dt(left),
        wf_dt(right),
    ensures
        res_view(r) == spec_multiply(dt_view(left), dt_view(right)),
        r matches Ok(d) ==> wf_dt(d),
{
    match (left.kind, right.kind) {
        (Literal::Int, Literal::Int) => {
            let a = int_of(&left);
            let b = int_of(&right);
            let z = a.wrapping_mul(b);
            Ok(int_result(z))
        },
        _ => Err(RunError::TypeMismatch),
    }
}

/// Divides one integer by another, truncating toward zero; division by
/// zero fails with [`RunError::DivisionByZero`].
pub fn divide(left: DataType, right: DataType) -> (r: Result<DataType, RunError>)
    requires
        wf_dt(left),
        wf_dt(right),
    ensures
        res_view(r) == spec_divide(dt_view(left), dt_view(right)),
        r matches Ok(d) ==> wf_dt(d),
{
    match (left.kind, right.kind) {
        (Literal::Int, Literal::Int) => {
            let a = int_of(&left);
            let b = int_of(&right);
            if b == 0 {
                return Err(RunError::DivisionByZero);
            }
            match a.checked_div(b) {
                Some(q) => {
                    proof {
                        lemma_wrap32_small(q as int);
                    }
                    Ok(int_result(q))
                },
                None => {
                    proof {
                        lemma_wrap32_period(i32::MIN as int);
                        lemma_wrap32_small(i32::MIN as int);
                    }
                    Ok(int_result(i32::MIN))
                },
            }
        },
        _ => Err(RunError::TypeMismatch),
    }
}

/// Compares two integers, booleans or strings for equality.
pub fn equals(left: DataType, right: DataType) -> (r: Result<DataType, RunError>)
    requires
        wf_dt(left),
        wf_dt(right),
    ensures
        res_view(r) == spec_equals(dt_view(left), dt_view(right)),
        r matches Ok(d) ==> wf_dt(d),
{
    match (left.kind, right.kind) {
        (Literal::Int, Literal::Int) => Ok(bool_result(int_of(&left) == int_of(&right))),
        (Literal::Bool, Literal::Bool) => Ok(bool_result(bool_of(&left) == bool_of(&right))),
        (Literal::String, Literal::String) => Ok(bool_result(left.value == right.value)),
        _ => Err(RunError::TypeMismatch),
    }
}

/// Compares two integers, booleans or strings for inequality.
pub fn not_equal(left: DataType, right: DataType) -> (r: Result<DataType, RunError>)
    requires
        wf_dt(left),
        wf_dt(right),
    ensures
        res_view(r) == spec_not_equal(dt_view(left), dt_view(right)),
        r matches Ok(d) ==> wf_dt(d),
{
    match (left.kind, right.kind) {
        (Literal::Int, Literal::Int) => Ok(bool_result(int_of(&left) != int_of(&right))),
        (Literal::Bool, Literal::Bool) => Ok(bool_result(bool_of(&left) != bool_of(&right))),
        (Literal::String, Literal::String) => Ok(bool_result(!(left.value == right.value))),
        _ => Err(RunError::TypeMismatch),
    }
}

/// Tests `left < right` on integers.
pub fn lesser(left: DataType, right: DataType) -> (r: Result<DataType, RunError>)
    requires
        wf_dt(left),
        wf_dt(right),
    ensures
        res_view(r) == spec_lesser(dt_view(left), dt_view(right)),
        r matches Ok(d) ==> wf_dt(d),
{
    match (left.kind, right.kind) {
        (Literal::Int, Literal::Int) => Ok(bool_result(int_of(&left) < int_of(&right))),
        _ => Err(RunError::TypeMismatch),
    }
}

/// Tests `left > right` on integers.
pub fn greater(left: DataType, right: DataType) -> (r: Result<DataType, RunError>)
    requires
        wf_dt(left),
        wf_dt(right),
    ensures
        res_view(r) == spec_greater(dt_view(left), dt_view(right)),
        r matches Ok(d) ==> wf_dt(d),
{
    match (left.kind, right.kind) {
        (Literal::Int, Literal::Int) => Ok(bool_result(int_of(&left) > int_of(&right))),
        _ => Err(RunError::TypeMismatch),
    }
}

/// Tests `left <= right` on integers.
pub fn equal_lesser(left: DataType, right: DataType) -> (r: Result<DataType, RunError>)
    requires
        wf_dt(left),
        wf_dt(right),
    ensures
        res_view(r) == spec_equal_lesser(dt_view(left), dt_view(right)),
        r matches Ok(d) ==> wf_dt(d),
{
    match (left.kind, right.kind) {
        (Literal::Int, Literal::Int) => Ok(bool_result(int_of(&left) <= int_of(&right))),
        _ => Err(RunError::TypeMismatch),
    }
}

/// Tests `left >= right` on integers.
pub fn equal_greater(left: DataType, right: DataType) -> (r: Result<DataType, RunError>)
    requires
        wf_dt(left),
        wf_dt(right),
    ensures
        res_view(r) == spec_equal_greater(dt_view(left), dt_view(right)),
        r matches Ok(d) ==> wf_dt(d),
{
    match (left.kind, right.kind) {
        (Literal::Int, Literal::Int) => Ok(bool_result(int_of(&left) >= int_of(&right))),
        _ => Err(RunError::TypeMismatch),
    }
}

/// Negates a boolean.
pub fn not(right: DataType) -> (r: Result<DataType, RunError>)
    requires
        wf_dt(right),
    ensures
        res_view(r) == spec_not(dt_view(right)),
        r matches Ok(d) ==> wf_dt(d),
{
    match right.kind {
        Literal::Bool => Ok(bool_result(!bool_of(&right))),
        _ => Err(RunError::TypeMismatch),
    }
}

/// Conjunction of two booleans.
pub fn and(left: DataType, right: DataType) -> (r: Result<DataType, RunError>)
    requires
        wf_dt(left),
        wf_dt(right),
    ensures
        res_view(r) == spec_and(dt_view(left), dt_view(right)),
        r matches Ok(d) ==> wf_dt(d),
{
    match (left.kind, right.kind) {
        (Literal::Bool, Literal::Bool) => Ok(bool_result(bool_of(&left) && bool_of(&right))),
        _ => Err(RunError::TypeMismatch),
    }
}

/// Disjunction of two booleans.
pub fn or(left: DataType, right: DataType) -> (r: Result<DataType, RunError>)
    requires
        wf_dt(left),
        wf_dt(right),
    ensures
        res_view(r) == spec_or(dt_view(left), dt_view(right)),
        r matches Ok(d) ==> wf_dt(d),
{
    match (left.kind, right.kind) {
        (Literal::Bool, Literal::Bool) => Ok(bool_result(bool_of(&left) || bool_of(&right))),
        _ => Err(RunError::TypeMismatch),
    }
}

/// Selects the array element at an integer index; a negative index counts
/// from the end. An index outside the array fails rather than crashing.
pub fn index(left: DataType, right: DataType) -> (r: Result<DataType, RunError>)
    requires
        wf_dt(left),
        wf_dt(right),
    ensures
        res_view(r) == spec_index(dt_view(left), dt_view(right)),
        r matches Ok(d) ==> wf_dt(d),
{
    match (&left.kind, &right.kind) {
        (Literal::Array, Literal::Int) => {
            let arr = match &left.store.array {
                Some(a) => a,
                None => {
                    return Err(RunError::TypeMismatch);
                },
            };
            let i = int_of(&right);
            proof {
                lemma_exprs_view(arr@);
            }
            let len = arr.len();
            if i >= 0 {
                let iu = i as usize;
                if iu < len {
                    match arr[iu].expand() {
                        Some(d) => {
                            assert(wf_expr(arr@[iu as int]));
                            Ok(d.clone())
                        },
                        None => Err(RunError::TypeMismatch),
                    }
                } else {
                    Err(RunError::TypeMismatch)
                }
            } else {
                let back = (-(i as i64)) as u64 as usize;
                if back <= len {
                    let iu = len - back;
                    match arr[iu].expand() {
                        Some(d) => {
                            assert(wf_expr(arr@[iu as int]));
                            Ok(d.clone())
                        },
                        None => Err(RunError::TypeMismatch),
                    }
                } else {
                    Err(RunError::TypeMismatch)
                }
            }
        },
        _ => Err(RunError::TypeMismatch),
    }
}

/// The integer payload of a well-formed integer value.
fn int_of(d: &DataType) -> (r: i32)
    requires
        wf_dt(*d),
        d.kind == Literal::Int,
    ensures
        dt_view(*d) == Val::Int(r as int),
{
    match d.store.integer {
        Some(i) => i,
        None => 0,
    }
}

/// The boolean payload of a well-formed boolean value.
fn bool_of(d: &DataType) -> (r: bool)
    requires
        wf_dt(*d),
        d.kind == Literal::Bool,
    ensures
        dt_view(*d) == Val::Bool(r),
{
    match d.store.boolean {
        Some(b) => b,
        None => false,
    }
}

} // verus!
