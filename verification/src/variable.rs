//! The runtime value representation: a tagged union of scalars, buffers and
//! homogeneous arrays, bound to output names by the dispatch engine.
use vstd::prelude::*;

verus! {

/// A runtime value.
///
/// Floating-point values are carried as their raw bit patterns (`u32` for
/// 32-bit, `u64` for 64-bit floats), so the engine never computes on them;
/// strings are carried as their bytes.
pub enum Variable {
    /// A 32-bit integer.
    I32(i32),
    /// A 64-bit integer.
    I64(i64),
    /// A 32-bit float, as its raw bit pattern.
    F32(u32),
    /// A 64-bit float, as its raw bit pattern.
    F64(u64),
    /// A string, as its bytes.
    Str(Vec<u8>),
    /// Raw bytes.
    Bytes(Vec<u8>),
    /// An array of 32-bit integers.
    I32Array(Vec<i32>),
    /// An array of 64-bit integers.
    I64Array(Vec<i64>),
    /// An array of 32-bit floats, each as its raw bit pattern.
    F32Array(Vec<u32>),
    /// An array of 64-bit floats, each as its raw bit pattern.
    F64Array(Vec<u64>),
    /// An array of strings, each as its bytes.
    StrArray(Vec<Vec<u8>>),
    /// An array of byte buffers.
    BytesArray(Vec<Vec<u8>>),
}

/// The mathematical shape of a [`Variable`]: the same tagged union over
/// sequences instead of vectors.
pub enum VarView {
    /// A 32-bit integer.
    I32(i32),
    /// A 64-bit integer.
    I64(i64),
    /// A 32-bit float, as its raw bit pattern.
    F32(u32),
    /// A 64-bit float, as its raw bit pattern.
    F64(u64),
    /// A string, as its bytes.
    Str(Seq<u8>),
    /// Raw bytes.
    Bytes(Seq<u8>),
    /// An array of 32-bit integers.
    I32Array(Seq<i32>),
    /// An array of 64-bit integers.
    I64Array(Seq<i64>),
    /// An array of 32-bit floats, each as its raw bit pattern.
    F32Array(Seq<u32>),
    /// An array of 64-bit floats, each as its raw bit pattern.
    F64Array(Seq<u64>),
    /// An array of strings, each as its bytes.
    StrArray(Seq<Seq<u8>>),
    /// An array of byte buffers.
    BytesArray(Seq<Seq<u8>>),
}

impl View for Variable {
    type V = VarView;

    open spec fn view(&self) -> VarView {
        match self {
            Variable::I32(x) => VarView::I32(*x),
            Variable::I64(x) => VarView::I64(*x),
            Variable::F32(x) => VarView::F32(*x),
            Variable::F64(x) => VarView::F64(*x),
            Variable::Str(b) => VarView::Str(b@),
            Variable::Bytes(b) => VarView::Bytes(b@),
            Variable::I32Array(a) => VarView::I32Array(a@),
            Variable::I64Array(a) => VarView::I64Array(a@),
            Variable::F32Array(a) => VarView::F32Array(a@),
            Variable::F64Array(a) => VarView::F64Array(a@),
            Variable::StrArray(a) => VarView::StrArray(a.deep_view()),
            Variable::BytesArray(a) => VarView::BytesArray(a.deep_view()),
        }
    }
}

/// An owned copy of a list of byte buffers, equal to it row for row.
fn copy_byte_rows(v: &Vec<Vec<u8>>) -> (r: Vec<Vec<u8>>)
    ensures
        r@.len() == v@.len(),
        forall|j: int| 0 <= j < v@.len() ==> (#[trigger] r@[j])@ == v@[j]@,
{
    let mut r: Vec<Vec<u8>> = Vec::new();
    let mut i: usize = 0;
    while i < v.len()
        invariant
            i <= v.len(),
            r@.len() == i,
            forall|j: int| 0 <= j < i ==> (#[trigger] r@[j])@ == v@[j]@,
        decreases v.len() - i,
    {
        let row = crate::copy_bytes(&v[i]);
        r.push(row);
        i = i + 1;
    }
    r
}

/// An owned copy of a list of `Copy` scalars, equal to it element for element.
fn copy_scalars<T: Copy>(v: &Vec<T>) -> (r: Vec<T>)
    ensures
        r@ == v@,
{
    let mut r: Vec<T> = Vec::new();
    let mut i: usize = 0;
    while i < v.len()
        invariant
            i <= v.len(),
            r@ == v@.take(i as int),
        decreases v.len() - i,
    {
        r.push(v[i]);
        proof {
            assert(r@ =~= v@.take(i + 1));
        }
        i = i + 1;
    }
    proof {
        assert(v@.take(v@.len() as int) =~= v@);
    }
    r
}

impl Variable {
    /// An owned copy of the value, carrying the same view.
    pub fn duplicate(&self) -> (r: Variable)
        ensures
            r@ == self@,
    {
        match self {
            Variable::I32(x) => Variable::I32(*x),
            Variable::I64(x) => Variable::I64(*x),
            Variable::F32(x) => Variable::F32(*x),
            Variable::F64(x) => Variable::F64(*x),
            Variable::Str(b) => Variable::Str(crate::copy_bytes(b)),
            Variable::Bytes(b) => Variable::Bytes(crate::copy_bytes(b)),
            Variable::I32Array(a) => Variable::I32Array(copy_scalars(a)),
            Variable::I64Array(a) => Variable::I64Array(copy_scalars(a)),
            Variable::F32Array(a) => Variable::F32Array(copy_scalars(a)),
            Variable::F64Array(a) => Variable::F64Array(copy_scalars(a)),
            Variable::StrArray(a) => {
                let c = copy_byte_rows(a);
                proof {
                    assert(c.deep_view() =~~= a.deep_view());
                }
                Variable::StrArray(c)
            },
            Variable::BytesArray(a) => {
                let c = copy_byte_rows(a);
                proof {
                    assert(c.deep_view() =~~= a.deep_view());
                }
                Variable::BytesArray(c)
            },
        }
    }
}

} // verus!
