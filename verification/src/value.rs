//! The runtime value model: a tagged union of number, text, boolean and nil.
use vstd::prelude::*;

verus! {

/// The numeric payload of a `Value::Number` and of every instruction
/// operand: a 64-bit signed integer.
pub type OperandSize = i64;

/// A runtime value. Text carries its UTF-8 bytes; the decoder only ever
/// builds a `Text` from bytes it has checked to be valid UTF-8.
#[derive(Debug, PartialEq, Eq, Clone)]
pub enum Value {
    Number(i64),
    Text(Vec<u8>),
    Boolean(bool),
    Nil,
}

/// The mathematical shape of a `Value`: the same tags, with the text
/// bytes abstracted to a sequence. Contracts speak of values through
/// this view, so that two texts with equal bytes are equal.
pub enum ValueView {
    Number(i64),
    Text(Seq<u8>),
    Boolean(bool),
    Nil,
}

impl View for Value {
    type V = ValueView;

    open spec fn view(&self) -> ValueView {
        match self {
            Value::Number(n) => ValueView::Number(*n),
            Value::Text(bytes) => ValueView::Text(bytes@),
            Value::Boolean(b) => ValueView::Boolean(*b),
            Value::Nil => ValueView::Nil,
        }
    }
}

/// Numeric coercion: only a `Number` yields its payload; every other tag
/// is a type mismatch.
pub trait ToNumber {
    fn to_number(self) -> Result<OperandSize, ()>;
}

impl ToNumber for Value {
    /// Consumes the value; succeeds exactly on numbers.
    fn to_number(self) -> (r: Result<OperandSize, ()>)
        ensures
            match self@ {
                ValueView::Number(n) => r == Ok::<OperandSize, ()>(n),
                _ => r == Err::<OperandSize, ()>(()),
            },
    {
        match self {
            Value::Number(n) => Ok(n),
            _ => Err(()),
        }
    }
}

impl Value {
    /// A structural copy with the same view, for duplicate and peek
    /// semantics: text bytes are copied, the other tags are plain data.
    pub fn duplicate(&self) -> (r: Value)
        ensures
            r@ == self@,
    {
        match self {
            Value::Number(n) => Value::Number(*n),
            Value::Text(bytes) => {
                let copy = copy_bytes(bytes);
                Value::Text(copy)
            },
            Value::Boolean(b) => Value::Boolean(*b),
            Value::Nil => Value::Nil,
        }
    }
}

/// The views of a sequence of values, element by element.
pub open spec fn views_of(s: Seq<Value>) -> Seq<ValueView> {
    s.map_values(|v: Value| v@)
}

/// Appending one value appends its view.
pub proof fn lemma_views_of_push(prev: Seq<Value>, cur: Seq<Value>, vv: ValueView)
    requires
        cur.len() == prev.len() + 1,
        forall|j: int| 0 <= j < prev.len() ==> cur[j] == prev[j],
        cur.last()@ == vv,
    ensures
        views_of(cur) == views_of(prev).push(vv),
{
    assert(views_of(cur) =~= views_of(prev).push(vv));
}

/// Dropping the last value drops the last view.
pub proof fn lemma_views_of_drop_last(s: Seq<Value>)
    requires
        s.len() > 0,
    ensures
        views_of(s.drop_last()) == views_of(s).drop_last(),
        views_of(s).last() == s.last()@,
        views_of(s).len() == s.len(),
{
    assert(views_of(s.drop_last()) =~= views_of(s).drop_last());
}

/// Copies a byte vector element by element.
fn copy_bytes(bytes: &Vec<u8>) -> (r: Vec<u8>)
    ensures
        r@ == bytes@,
{
    let mut out: Vec<u8> = Vec::new();
    let mut i: usize = 0;
    while i < bytes.len()
        invariant
            i <= bytes@.len(),
            out@ == bytes@.subrange(0, i as int),
        decreases bytes@.len() - i,
    {
        out.push(bytes[i]);
        assert(out@ =~= bytes@.subrange(0, i + 1 as int));
        i = i + 1;
    }
    assert(out@ =~= bytes@);
    out
}

} // verus!
