//! The builtin functions over arrays and conversions. Each takes its
//! arguments already evaluated and is pure: the evaluator evaluates the
//! call's argument expressions and dispatches here.
use vstd::prelude::*;

use crate::parsing::parser::{dt_view, expr_view, exprs_view, lemma_exprs_view, wf_dt, wf_expr,
    wf_exprs, DataStore, DataType, Expr, ExprV, Literal, Val};
use crate::runtime::operations::{res_view, string_result, wrap32};
use crate::runtime::values::{err_view, int_str, is_int_literal, int_literal_val, render_scalar,
    string_to_int, int_to_string, ErrV, RunError};

verus! {

/// What `length(arr)` denotes: the element count of an array (an array too
/// long for a 32-bit count, or any other argument, is a type mismatch).
pub open spec fn spec_run_len(args: Seq<Val>) -> Result<Val, ErrV> {
    if args.len() != 1 {
        Err(ErrV::ArityMismatch)
    } else {
        match args[0] {
            Val::Arr(es) => if es.len() <= i32::MAX {
                Ok(Val::Int(es.len() as int))
            } else {
                Err(ErrV::TypeMismatch)
            },
            _ => Err(ErrV::TypeMismatch),
        }
    }
}

/// What `pop(arr)` denotes: the array without its last element (unchanged
/// when already empty).
pub open spec fn spec_run_pop(args: Seq<Val>) -> Result<Val, ErrV> {
    if args.len() != 1 {
        Err(ErrV::ArityMismatch)
    } else {
        match args[0] {
            Val::Arr(es) => if es.len() > 0 {
                Ok(Val::Arr(es.drop_last()))
            } else {
                Ok(Val::Arr(es))
            },
            _ => Err(ErrV::TypeMismatch),
        }
    }
}

/// What `push(arr, v…)` denotes: the array with the given values appended
/// in order.
pub open spec fn spec_run_push(args: Seq<Val>) -> Result<Val, ErrV> {
    if args.len() < 1 {
        Err(ErrV::ArityMismatch)
    } else {
        match args[0] {
            Val::Arr(es) => Ok(
                Val::Arr(es + args.drop_first().map_values(|v: Val| ExprV::Literal(v))),
            ),
            _ => Err(ErrV::TypeMismatch),
        }
    }
}

/// The index adjusted from the end when negative.
pub open spec fn adj_index(len: int, i: int) -> int {
    if i < 0 {
        len + i
    } else {
        i
    }
}

/// What `swap(arr, idx, v)` denotes: the array with the element at the
/// (possibly from-end) index replaced; an index outside the array is a
/// failure.
pub open spec fn spec_run_swap(args: Seq<Val>) -> Result<Val, ErrV> {
    if args.len() != 3 {
        Err(ErrV::ArityMismatch)
    } else {
        match (args[0], args[1]) {
            (Val::Arr(es), Val::Int(i)) => {
                let adj = adj_index(es.len() as int, i);
                if 0 <= adj < es.len() {
                    Ok(Val::Arr(es.update(adj, ExprV::Literal(args[2]))))
                } else {
                    Err(ErrV::TypeMismatch)
                }
            },
            _ => Err(ErrV::TypeMismatch),
        }
    }
}

/// What `delete(arr, idx)` denotes: the array without the element at the
/// (possibly from-end) index; an index outside the array is a failure.
pub open spec fn spec_run_delete(args: Seq<Val>) -> Result<Val, ErrV> {
    if args.len() != 2 {
        Err(ErrV::ArityMismatch)
    } else {
        match (args[0], args[1]) {
            (Val::Arr(es), Val::Int(i)) => {
                let adj = adj_index(es.len() as int, i);
                if 0 <= adj < es.len() {
                    Ok(Val::Arr(es.remove(adj)))
                } else {
                    Err(ErrV::TypeMismatch)
                }
            },
            _ => Err(ErrV::TypeMismatch),
        }
    }
}

/// What `int(x)` denotes: an integer unchanged; a string read as decimal
/// text when it spells a 32-bit integer; anything else is a failure.
pub open spec fn spec_run_int(args: Seq<Val>) -> Result<Val, ErrV> {
    if args.len() != 1 {
        Err(ErrV::ArityMismatch)
    } else {
        match args[0] {
            Val::Int(i) => Ok(Val::Int(i)),
            Val::Str(s) => if is_int_literal(s) && i32::MIN <= int_literal_val(s) <= i32::MAX {
                Ok(Val::Int(int_literal_val(s)))
            } else {
                Err(ErrV::TypeMismatch)
            },
            _ => Err(ErrV::TypeMismatch),
        }
    }
}

/// What `string(x)` denotes: the scalar rendering of the value (arrays are
/// a failure).
pub open spec fn spec_run_string(args: Seq<Val>) -> Result<Val, ErrV> {
    if args.len() != 1 {
        Err(ErrV::ArityMismatch)
    } else {
        match args[0] {
            Val::Arr(es) => Err(ErrV::TypeMismatch),
            v => Ok(Val::Str(render_scalar(v))),
        }
    }
}

/// The length of an array, as an integer value.
pub fn run_len(args: Vec<DataType>) -> (r: Result<DataType, RunError>)
    requires
        wf_args(args@),
    ensures
        res_view(r) == spec_run_len(args_view(args@)),
        r matches Ok(d) ==> wf_dt(d),
{
    proof {
        lemma_args_view(args@);
    }
    if args.len() != 1 {
        return Err(RunError::ArityMismatch);
    }
    let a = &args[0];
    match (&a.kind, &a.store.array) {
        (Literal::Array, Some(es)) => {
            proof {
                lemma_exprs_view(es@);
            }
            if es.len() <= 0x7fff_ffff {
                let n = es.len() as i32;
                Ok(DataType {
                    value: String::new(),
                    kind: Literal::Int,
                    store: DataStore::new(Some(n), None),
                })
            } else {
                Err(RunError::TypeMismatch)
            }
        },
        _ => Err(RunError::TypeMismatch),
    }
}

/// The array without its last element.
pub fn run_pop(args: Vec<DataType>) -> (r: Result<DataType, RunError>)
    requires
        wf_args(args@),
    ensures
        res_view(r) == spec_run_pop(args_view(args@)),
        r matches Ok(d) ==> wf_dt(d),
{
    proof {
        lemma_args_view(args@);
    }
    if args.len() != 1 {
        return Err(RunError::ArityMismatch);
    }
    let mut args = args;
    let a = args.remove(0);
    let ghost av = dt_view(a);
    match (a.kind, a.store.array) {
        (Literal::Array, Some(mut es)) => {
            proof {
                lemma_exprs_view(es@);
            }
            if es.len() > 0 {
                let ghost pre = es@;
                es.pop();
                proof {
                    assert(es@ =~= pre.drop_last());
                    lemma_exprs_view(es@);
                    assert(exprs_view(es@) =~= exprs_view(pre).drop_last());
                }
            }
            Ok(DataType {
                value: String::new(),
                kind: Literal::Array,
                store: DataStore { integer: None, boolean: None, array: Some(es) },
            })
        },
        _ => Err(RunError::TypeMismatch),
    }
}

/// The array with the remaining arguments appended in order.
pub fn run_push(args: Vec<DataType>) -> (r: Result<DataType, RunError>)
    requires
        wf_args(args@),
    ensures
        res_view(r) == spec_run_push(args_view(args@)),
        r matches Ok(d) ==> wf_dt(d),
{
    proof {
        lemma_args_view(args@);
    }
    if args.len() < 1 {
        return Err(RunError::ArityMismatch);
    }
    let ghost argsv = args_view(args@);
    let mut args = args;
    let rest = args.split_off(1);
    let a = args.remove(0);
    proof {
        lemma_args_view(rest@);
    }
    match (a.kind, a.store.array) {
        (Literal::Array, Some(mut es)) => {
            proof {
                lemma_exprs_view(es@);
            }
            let ghost base = exprs_view(es@);
            let mut k: usize = 0;
            let n = rest.len();
            let mut rest = rest;
            while k < n
                invariant
                    k <= n,
                    n == rest@.len(),
                    wf_args(rest@),
                    wf_exprs(es@),
                    exprs_view(es@) =~= base + args_view(rest@).take(k as int).map_values(
                        |v: Val| ExprV::Literal(v),
                    ),
                decreases n - k,
            {
                let ghost pre = es@;
                let item = rest[k].clone();
                assert(wf_dt(rest@[k as int]));
                es.push(Expr::Literal(item));
                proof {
                    assert(es@ =~= pre.push(Expr::Literal(item)));
                    crate::parsing::parser::lemma_exprs_view_push(pre, Expr::Literal(item));
                    lemma_exprs_view(es@);
                    lemma_exprs_view(pre);
                    assert(exprs_view(es@) == exprs_view(pre).push(
                        ExprV::Literal(dt_view(rest@[k as int])),
                    ));
                    lemma_args_view(rest@);
                    assert(args_view(rest@).take(k + 1).map_values(
                        |v: Val| ExprV::Literal(v),
                    ) =~= args_view(rest@).take(k as int).map_values(
                        |v: Val| ExprV::Literal(v),
                    ).push(ExprV::Literal(dt_view(rest@[k as int]))));
                    assert(forall|j: int|
                        0 <= j < pre.len() ==> wf_expr(#[trigger] pre[j]) == wf_expr(es@[j]));
                }
                k += 1;
            }
            proof {
                lemma_args_view(rest@);
                assert(args_view(rest@).take(n as int) =~= args_view(rest@));
                assert forall|j: int|
                    0 <= j < rest@.len() implies args_view(rest@)[j] == argsv.drop_first()[j] by {
                    assert(args_view(rest@)[j] == dt_view(rest@[j]));
                }
                assert(args_view(rest@) =~= argsv.drop_first());
                assert(exprs_view(es@) =~= base + argsv.drop_first().map_values(
                    |v: Val| ExprV::Literal(v),
                ));
            }
            Ok(DataType {
                value: String::new(),
                kind: Literal::Array,
                store: DataStore { integer: None, boolean: None, array: Some(es) },
            })
        },
        _ => Err(RunError::TypeMismatch),
    }
}

/// The array with the element at the index replaced.
pub fn run_swap(args: Vec<DataType>) -> (r: Result<DataType, RunError>)
    requires
        wf_args(args@),
    ensures
        res_view(r) == spec_run_swap(args_view(args@)),
        r matches Ok(d) ==> wf_dt(d),
{
    proof {
        lemma_args_view(args@);
    }
    if args.len() != 3 {
        return Err(RunError::ArityMismatch);
    }
    let mut args = args;
    let v = args.remove(2);
    let idx = args.remove(1);
    let a = args.remove(0);
    match (a.kind, a.store.array, idx.kind, idx.store.integer) {
        (Literal::Array, Some(mut es), Literal::Int, Some(i)) => {
            proof {
                lemma_exprs_view(es@);
            }
            let len = es.len();
            let iu: usize;
            if i >= 0 {
                if (i as usize) < len {
                    iu = i as usize;
                } else {
                    return Err(RunError::TypeMismatch);
                }
            } else {
                let back = (-(i as i64)) as u64 as usize;
                if back <= len {
                    iu = len - back;
                } else {
                    return Err(RunError::TypeMismatch);
                }
            }
            let ghost pre = es@;
            let ghost vv = dt_view(v);
            es[iu] = Expr::Literal(v);
            proof {
                assert(es@ =~= pre.update(iu as int, es@[iu as int]));
                crate::parsing::parser::lemma_exprs_view_update(pre, iu as int, es@[iu as int]);
                lemma_exprs_view(es@);
                lemma_exprs_view(pre);
                assert(exprs_view(es@) == exprs_view(pre).update(
                    iu as int,
                    ExprV::Literal(vv),
                ));
                assert(forall|j: int|
                    0 <= j < pre.len() && j != iu ==> wf_expr(#[trigger] es@[j]) == wf_expr(
                        pre[j],
                    ));
            }
            Ok(DataType {
                value: String::new(),
                kind: Literal::Array,
                store: DataStore { integer: None, boolean: None, array: Some(es) },
            })
        },
        _ => Err(RunError::TypeMismatch),
    }
}

/// The array without the element at the index.
pub fn run_delete(args: Vec<DataType>) -> (r: Result<DataType, RunError>)
    requires
        wf_args(args@),
    ensures
        res_view(r) == spec_run_delete(args_view(args@)),
        r matches Ok(d) ==> wf_dt(d),
{
    proof {
        lemma_args_view(args@);
    }
    if args.len() != 2 {
        return Err(RunError::ArityMismatch);
    }
    let mut args = args;
    let idx = args.remove(1);
    let a = args.remove(0);
    match (a.kind, a.store.array, idx.kind, idx.store.integer) {
        (Literal::Array, Some(mut es), Literal::Int, Some(i)) => {
            proof {
                lemma_exprs_view(es@);
            }
            let len = es.len();
            let iu: usize;
            if i >= 0 {
                if (i as usize) < len {
                    iu = i as usize;
                } else {
                    return Err(RunError::TypeMismatch);
                }
            } else {
                let back = (-(i as i64)) as u64 as usize;
                if back <= len {
                    iu = len - back;
                } else {
                    return Err(RunError::TypeMismatch);
                }
            }
            let ghost pre = es@;
            es.remove(iu);
            proof {
                assert(es@ =~= pre.remove(iu as int));
                crate::parsing::parser::lemma_exprs_view_remove(pre, iu as int);
                lemma_exprs_view(es@);
                lemma_exprs_view(pre);
                assert(exprs_view(es@) == exprs_view(pre).remove(iu as int));
                assert(forall|j: int|
                    0 <= j < es@.len() ==> es@[j] == if j < iu {
                        pre[j]
                    } else {
                        pre[j + 1]
                    });
            }
            Ok(DataType {
                value: String::new(),
                kind: Literal::Array,
                store: DataStore { integer: None, boolean: None, array: Some(es) },
            })
        },
        _ => Err(RunError::TypeMismatch),
    }
}

/// Conversion to an integer.
pub fn run_int(args: Vec<DataType>) -> (r: Result<DataType, RunError>)
    requires
        wf_args(args@),
    ensures
        res_view(r) == spec_run_int(args_view(args@)),
        r matches Ok(d) ==> wf_dt(d),
{
    proof {
        lemma_args_view(args@);
    }
    if args.len() != 1 {
        return Err(RunError::ArityMismatch);
    }
    let mut args = args;
    let a = args.remove(0);
    match a.kind {
        Literal::Int => {
            let i = match a.store.integer {
                Some(i) => i,
                None => 0,
            };
            Ok(DataType {
                value: String::new(),
                kind: Literal::Int,
                store: DataStore::new(Some(i), None),
            })
        },
        Literal::String => {
            match string_to_int(a.value.as_str()) {
                Some(i) => Ok(DataType {
                    value: String::new(),
                    kind: Literal::Int,
                    store: DataStore::new(Some(i), None),
                }),
                None => Err(RunError::TypeMismatch),
            }
        },
        _ => Err(RunError::TypeMismatch),
    }
}

/// Conversion to a string: the scalar rendering of the value.
pub fn run_string(args: Vec<DataType>) -> (r: Result<DataType, RunError>)
    requires
        wf_args(args@),
    ensures
        res_view(r) == spec_run_string(args_view(args@)),
        r matches Ok(d) ==> wf_dt(d),
{
    proof {
        lemma_args_view(args@);
    }
    if args.len() != 1 {
        return Err(RunError::ArityMismatch);
    }
    let mut args = args;
    let a = args.remove(0);
    match a.kind {
        Literal::Array => Err(RunError::TypeMismatch),
        Literal::Int => {
            let i = match a.store.integer {
                Some(i) => i,
                None => 0,
            };
            Ok(string_result(int_to_string(i)))
        },
        Literal::Bool => {
            let b = match a.store.boolean {
                Some(b) => b,
                None => false,
            };
            let s = if b {
                String::from_str("true")
            } else {
                String::from_str("false")
            };
            Ok(string_result(s))
        },
        Literal::String | Literal::Variable => Ok(string_result(a.value)),
        Literal::Nil => Ok(string_result(String::new())),
    }
}

/// Every argument value is well formed.
pub open spec fn wf_args(args: Seq<DataType>) -> bool {
    forall|i: int| 0 <= i < args.len() ==> wf_dt(#[trigger] args[i])
}

/// The denotation of an evaluated argument list.
pub open spec fn args_view(args: Seq<DataType>) -> Seq<Val>
    decreases args,
{
    if args.len() == 0 {
        Seq::empty()
    } else {
        args_view(args.drop_last()).push(dt_view(args.last()))
    }
}

/// `args_view` maps the list pointwise.
pub proof fn lemma_args_view(args: Seq<DataType>)
    ensures
        args_view(args).len() == args.len(),
        forall|i: int| 0 <= i < args.len() ==> args_view(args)[i] == dt_view(#[trigger] args[i]),
    decreases args,
{
    if args.len() > 0 {
        lemma_args_view(args.drop_last());
        assert forall|i: int|
            0 <= i < args.len() implies args_view(args)[i] == dt_view(#[trigger] args[i]) by {
            if i < args.len() - 1 {
                assert(args.drop_last()[i] == args[i]);
            } else {
                assert(args.last() == args[i]);
            }
        }
    }
}

} // verus!
