//! Row-filter expressions.
//!
//! A filter is an expression over field references and literals. Evaluation
//! itself is a collaborator of the core — the reader only needs a boolean
//! verdict per row — so the contract here fixes the mask's length and leaves
//! the comparison semantics to the evaluator: comparisons on null are false,
//! integers compare as integers, strings byte for byte.

use vstd::pervasive::unreached;
use vstd::prelude::*;

use crate::array::{wf, Array, StructArray};
use crate::error::VortexError;
use crate::scalar::{PValue, Scalar, ScalarValue};

verus! {

/// A comparison or connective.
#[derive(Clone, Copy, Debug, PartialEq, Eq, Structural)]
pub enum Operator {
    Eq,
    NotEq,
    Gt,
    Gte,
    Lt,
    Lte,
    And,
    Or,
}

/// An expression over one batch's fields.
#[derive(Debug)]
pub enum Expr {
    /// The value of the named field at the current row.
    Column(String),
    /// A constant.
    Literal(Scalar),
    /// A comparison or connective over two subexpressions.
    Binary(Operator, Box<Expr>, Box<Expr>),
}

/// A row filter: rows where the expression is true survive.
#[derive(Debug)]
pub struct RowFilter {
    pub expr: Expr,
}

impl RowFilter {
    /// Wrap an expression.
    pub fn new(expr: Expr) -> (r: RowFilter) {
        RowFilter { expr }
    }
}

/// What one row evaluates to: a value, or null.
enum Verdict {
    Null,
    Bool(bool),
    Int(i128),
    Bytes(Vec<u8>),
}

/// The integer a primitive value denotes, sign included; float bits compare
/// as their raw pattern.
fn pvalue_int(p: &PValue) -> (r: i128) {
    match p {
        PValue::I8(x) => *x as i128,
        PValue::I16(x) => *x as i128,
        PValue::I32(x) => *x as i128,
        PValue::I64(x) => *x as i128,
        PValue::U8(x) => *x as i128,
        PValue::U16(x) => *x as i128,
        PValue::U32(x) => *x as i128,
        PValue::U64(x) => *x as i128,
        PValue::F16(x) => *x as i128,
        PValue::F32(x) => *x as i128,
        PValue::F64(x) => *x as i128,
    }
}

/// Evaluate an expression at one row.
fn eval_row(e: &Expr, batch: &StructArray, row: usize) -> (r: Result<Verdict, VortexError>)
    requires
        wf(Array::Struct(*batch)),
        row < batch.len,
    decreases *e,
{
    match e {
        Expr::Column(name) => {
            let idx = match find_field(batch, name) {
                Some(i) => i,
                None => {
                    return Err(VortexError::TypeMismatch);
                },
            };
            proof {
                assert(crate::array::all_wf(batch.fields@));
                assert(wf(batch.fields@[idx as int]));
                assert(crate::array::elems(batch.fields@[idx as int]).len() == batch.len as nat);
            }
            let s = match crate::compute::scalar_at(&batch.fields[idx], row) {
                Ok(s) => s,
                Err(_) => unreached(),
            };
            Ok(verdict_of(s.into_value()))
        },
        Expr::Literal(s) => Ok(verdict_of(s.value().clone())),
        Expr::Binary(op, l, r2) => {
            let lv = eval_row(l, batch, row)?;
            let rv = eval_row(r2, batch, row)?;
            match op {
                Operator::And => Ok(
                    Verdict::Bool(matches!(lv, Verdict::Bool(true)) && matches!(
                        rv,
                        Verdict::Bool(true),
                    )),
                ),
                Operator::Or => Ok(
                    Verdict::Bool(matches!(lv, Verdict::Bool(true)) || matches!(
                        rv,
                        Verdict::Bool(true),
                    )),
                ),
                _ => Ok(compare(*op, &lv, &rv)),
            }
        },
    }
}

/// The position of the named field among a batch's fields.
fn find_field(batch: &StructArray, name: &String) -> (r: Option<usize>)
    ensures
        r matches Some(i) ==> i < batch.fields@.len() && i < batch.names@.len(),
{
    let mut i: usize = 0;
    #[verifier::loop_isolation(false)]
    while i < batch.names.len()
        invariant
            0 <= i <= batch.names@.len(),
        decreases batch.names@.len() - i,
    {
        if i < batch.fields.len() && batch.names[i].eq(name) {
            return Some(i);
        }
        i = i + 1;
    }
    None
}

/// The verdict a scalar value contributes.
fn verdict_of(v: ScalarValue) -> (r: Verdict) {
    match v {
        ScalarValue::Null => Verdict::Null,
        ScalarValue::Bool(b) => Verdict::Bool(b),
        ScalarValue::Primitive(p) => Verdict::Int(pvalue_int(&p)),
        ScalarValue::Buffer(b) => Verdict::Bytes(b),
        ScalarValue::BufferString(b) => Verdict::Bytes(b),
        ScalarValue::List(_) => Verdict::Null,
        ScalarValue::Struct(_) => Verdict::Null,
    }
}

/// Compare two verdicts; any comparison on null is false.
fn compare(op: Operator, l: &Verdict, r: &Verdict) -> (res: Verdict) {
    match (l, r) {
        (Verdict::Int(a), Verdict::Int(b)) => {
            let c = match op {
                Operator::Eq => *a == *b,
                Operator::NotEq => *a != *b,
                Operator::Gt => *a > *b,
                Operator::Gte => *a >= *b,
                Operator::Lt => *a < *b,
                Operator::Lte => *a <= *b,
                _ => false,
            };
            Verdict::Bool(c)
        },
        (Verdict::Bytes(a), Verdict::Bytes(b)) => {
            let eq = crate::dtype::bytes_eq(a, b);
            let c = match op {
                Operator::Eq => eq,
                Operator::NotEq => !eq,
                _ => false,
            };
            Verdict::Bool(c)
        },
        (Verdict::Bool(a), Verdict::Bool(b)) => {
            let c = match op {
                Operator::Eq => *a == *b,
                Operator::NotEq => *a != *b,
                _ => false,
            };
            Verdict::Bool(c)
        },
        _ => Verdict::Bool(false),
    }
}

/// Evaluate a filter over a whole batch: one verdict per row.
pub fn eval_mask(filter: &RowFilter, batch: &StructArray) -> (r: Result<Vec<bool>, VortexError>)
    requires
        wf(Array::Struct(*batch)),
    ensures
        r matches Ok(mask) ==> mask@.len() == batch.len as nat,
{
    let n = batch.len;
    let mut mask: Vec<bool> = Vec::new();
    let mut i: usize = 0;
    #[verifier::loop_isolation(false)]
    while i < n
        invariant
            0 <= i <= n,
            mask@.len() == i,
        decreases n - i,
    {
        let v = eval_row(&filter.expr, batch, i)?;
        mask.push(matches!(v, Verdict::Bool(true)));
        i = i + 1;
    }
    Ok(mask)
}

} // verus!
