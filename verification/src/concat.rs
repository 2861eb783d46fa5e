//! Concatenation: numbers become text, then bytes are joined.
//!
//! The text of an integer is written here. The text of a binary64 number is
//! the host's to write, so a concatenation with such an operand stops and
//! says which number it needs the text of.

use vstd::prelude::*;
use crate::error::VmError;
use crate::text::{decimal, int_to_text};
use crate::value::{Value, Val};

verus! {

/// One operand of a concatenation: its text, or the binary64 number whose
/// text is wanted.
#[derive(Debug)]
pub enum Piece {
    Text(Vec<u8>),
    Float(u64),
}

/// What a [`Piece`] stands for.
pub ghost enum PieceModel {
    Text(Seq<u8>),
    Float(u64),
}

impl View for Piece {
    type V = PieceModel;

    open spec fn view(&self) -> PieceModel {
        match self {
            Piece::Text(t) => PieceModel::Text(t@),
            Piece::Float(f) => PieceModel::Float(*f),
        }
    }
}

/// How far a concatenation has come.
#[derive(Debug)]
pub enum Concat {
    /// The result.
    Done(Value),
    /// The text of the left operand, a binary64 number, is wanted; the
    /// right operand waits.
    AskLeft(u64, Piece),
    /// The left text is known; the text of the right operand, a binary64
    /// number, is wanted.
    AskRight(Vec<u8>, u64),
}

/// What a [`Concat`] stands for.
pub ghost enum ConcatModel {
    Done(Val),
    AskLeft(u64, PieceModel),
    AskRight(Seq<u8>, u64),
}

impl View for Concat {
    type V = ConcatModel;

    open spec fn view(&self) -> ConcatModel {
        match self {
            Concat::Done(v) => ConcatModel::Done(v@),
            Concat::AskLeft(f, p) => ConcatModel::AskLeft(*f, p@),
            Concat::AskRight(t, f) => ConcatModel::AskRight(t@, *f),
        }
    }
}

/// What an operand contributes: a string its bytes, an integer its decimal
/// text, a binary64 number a text that is still to be written. Nothing else
/// can be concatenated.
pub open spec fn piece_of(v: Val) -> Result<PieceModel, VmError> {
    match v {
        Val::Str(s) => Ok(PieceModel::Text(s)),
        Val::Integer(i) => Ok(PieceModel::Text(decimal(i as int))),
        Val::Float(f) => Ok(PieceModel::Float(f)),
        _ => Err(VmError::Type),
    }
}

/// Two pieces put together, the left text being asked for before the right.
pub open spec fn joined(a: PieceModel, b: PieceModel) -> ConcatModel {
    match (a, b) {
        (PieceModel::Text(x), PieceModel::Text(y)) => ConcatModel::Done(Val::Str(x + y)),
        (PieceModel::Float(f), _) => ConcatModel::AskLeft(f, b),
        (PieceModel::Text(x), PieceModel::Float(g)) => ConcatModel::AskRight(x, g),
    }
}

/// The concatenation of two values.
pub open spec fn concat(a: Val, b: Val) -> Result<ConcatModel, VmError> {
    match (piece_of(a), piece_of(b)) {
        (Ok(x), Ok(y)) => Ok(joined(x, y)),
        _ => Err(VmError::Type),
    }
}

fn copy_bytes(s: &[u8]) -> (r: Vec<u8>)
    ensures
        r@ == s@,
{
    let mut out: Vec<u8> = Vec::new();
    let mut i: usize = 0;
    while i < s.len()
        invariant
            i <= s@.len(),
            out@ == s@.subrange(0, i as int),
        decreases s@.len() - i,
    {
        out.push(s[i]);
        assert(out@ =~= s@.subrange(0, i + 1));
        i += 1;
    }
    assert(out@ =~= s@);
    out
}

/// What `v` contributes to a concatenation.
pub fn piece(v: &Value) -> (r: Result<Piece, VmError>)
    ensures
        match r {
            Ok(p) => piece_of(v@) == Ok::<PieceModel, VmError>(p@),
            Err(e) => piece_of(v@) == Err::<PieceModel, VmError>(e),
        },
{
    match v {
        Value::Integer(i) => Ok(Piece::Text(int_to_text(*i))),
        Value::Float(f) => Ok(Piece::Float(*f)),
        _ => match v.as_bytes() {
            Some(s) => Ok(Piece::Text(copy_bytes(s))),
            None => Err(VmError::Type),
        },
    }
}

/// Puts two pieces together.
pub fn join(a: Piece, b: Piece) -> (r: Concat)
    ensures
        r@ == joined(a@, b@),
{
    match a {
        Piece::Float(f) => Concat::AskLeft(f, b),
        Piece::Text(x) => match b {
            Piece::Float(g) => Concat::AskRight(x, g),
            Piece::Text(y) => {
                let mut x = x;
                let mut y = y;
                x.append(&mut y);
                Concat::Done(Value::from_bytes(x))
            },
        },
    }
}

/// Concatenates two values.
pub fn exe_concat(v1: &Value, v2: &Value) -> (r: Result<Concat, VmError>)
    ensures
        match r {
            Ok(c) => concat(v1@, v2@) == Ok::<ConcatModel, VmError>(c@),
            Err(e) => concat(v1@, v2@) == Err::<ConcatModel, VmError>(e),
        },
{
    match piece(v1) {
        Err(_) => Err(VmError::Type),
        Ok(a) => match piece(v2) {
            Err(_) => Err(VmError::Type),
            Ok(b) => Ok(join(a, b)),
        },
    }
}

} // verus!
