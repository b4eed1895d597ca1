//! The dtype/shape signature of the model inputs the adapter assembled, which
//! a predict failure is annotated with so that a shape error raised inside the
//! model states what it was actually handed.

use vstd::prelude::*;

use crate::text::{decimal, number_text};

verus! {

/// The shape of one assembled model input, as far as its signature reads it.
#[derive(Debug, PartialEq)]
pub enum InputShape {
    /// A tensor: its element type's name and its shape.
    Tensor {
        /// The element type's name, such as `float32`.
        dtype: String,
        /// The tensor's shape.
        shape: Vec<u64>,
    },
    /// Text of `len` bytes.
    Text {
        /// The text's length in bytes.
        len: u64,
    },
    /// A byte string of `len` bytes.
    Bytes {
        /// The byte string's length.
        len: u64,
    },
    /// A plain number.
    Number,
    /// A list of inputs.
    List(Vec<InputShape>),
    /// Named inputs, in key order.
    Named(Vec<(String, InputShape)>),
}

/// `[d0, d1, ...]`, the shape's dimensions in decimal.
pub open spec fn dims_text(shape: Seq<u64>) -> Seq<char>
    decreases shape.len(),
{
    if shape.len() == 0 {
        Seq::empty()
    } else if shape.len() == 1 {
        decimal(shape[0] as nat)
    } else {
        dims_text(shape.drop_last()) + ", "@ + decimal(shape.last() as nat)
    }
}

/// The signature of one input: `float32[8]`, `text(len=3)`, `bytes(len=4)`,
/// `number`, `list(len=2, first=...)` (or `list(len=0)`), and
/// `{key: ..., key: ...}` for named inputs.
pub open spec fn signature(value: InputShape) -> Seq<char>
    decreases value, 1nat, 0nat,
{
    match value {
        InputShape::Tensor { dtype, shape } => dtype@ + "["@ + dims_text(shape@) + "]"@,
        InputShape::Text { len } => "text(len="@ + decimal(len as nat) + ")"@,
        InputShape::Bytes { len } => "bytes(len="@ + decimal(len as nat) + ")"@,
        InputShape::Number => "number"@,
        InputShape::List(items) => if items@.len() == 0 {
            "list(len=0)"@
        } else {
            proof {
                vstd::std_specs::vec::axiom_vec_index_decreases(items, 0);
            }
            "list(len="@ + decimal(items@.len()) + ", first="@ + signature(items@[0]) + ")"@
        },
        InputShape::Named(entries) => "{"@ + entries_signature(value, entries@.len() as int) + "}"@,
    }
}

/// The first `n` entries of named input `map` as `key: signature` pairs
/// joined by `, `.
pub open spec fn entries_signature(map: InputShape, n: int) -> Seq<char>
    decreases map, 0nat, n,
{
    match map {
        InputShape::Named(entries) => if n <= 0 || n > entries@.len() {
            Seq::empty()
        } else {
            proof {
                vstd::std_specs::vec::axiom_vec_index_decreases(entries, n - 1);
            }
            let entry = entries@[n - 1];
            let pair = entry.0@ + ": "@ + signature(entry.1);
            if n == 1 {
                pair
            } else {
                entries_signature(map, n - 1) + ", "@ + pair
            }
        },
        _ => Seq::empty(),
    }
}

fn dims(shape: &Vec<u64>) -> (text: String)
    ensures
        text@ == dims_text(shape@),
{
    let mut text = String::new();
    let mut i: usize = 0;
    proof {
        assert(shape@.take(0) =~= Seq::<u64>::empty());
    }
    while i < shape.len()
        invariant
            i <= shape@.len(),
            text@ == dims_text(shape@.take(i as int)),
        decreases shape@.len() - i,
    {
        let ghost before = text@;
        if i > 0 {
            text.append(", ");
        }
        text.append(number_text(shape[i]).as_str());
        proof {
            reveal_strlit(", ");
            let next = shape@.take(i + 1);
            assert(next.drop_last() =~= shape@.take(i as int));
            assert(next.last() == shape@[i as int]);
            if i == 0 {
                assert(text@ =~= dims_text(next));
            } else {
                assert(text@ =~= dims_text(next));
            }
        }
        i = i + 1;
    }
    proof {
        assert(shape@.take(i as int) =~= shape@);
    }
    text
}

/// The signature of one input (see [`signature`]).
pub fn value_summary(value: &InputShape) -> (text: String)
    ensures
        text@ == signature(*value),
    decreases value, 1nat, 0nat,
{
    match value {
        InputShape::Tensor { dtype, shape } => {
            let mut text = dtype.clone();
            text.append("[");
            text.append(dims(shape).as_str());
            text.append("]");
            proof {
                reveal_strlit("[");
                reveal_strlit("]");
            }
            text
        },
        InputShape::Text { len } => {
            let mut text = String::from_str("text(len=");
            text.append(number_text(*len).as_str());
            text.append(")");
            proof {
                reveal_strlit("text(len=");
                reveal_strlit(")");
            }
            text
        },
        InputShape::Bytes { len } => {
            let mut text = String::from_str("bytes(len=");
            text.append(number_text(*len).as_str());
            text.append(")");
            proof {
                reveal_strlit("bytes(len=");
                reveal_strlit(")");
            }
            text
        },
        InputShape::Number => {
            proof {
                reveal_strlit("number");
            }
            String::from_str("number")
        },
        InputShape::List(items) => {
            if items.len() == 0 {
                proof {
                    reveal_strlit("list(len=0)");
                }
                return String::from_str("list(len=0)");
            }
            proof {
                vstd::std_specs::vec::axiom_vec_index_decreases(*items, 0);
            }
            let first = value_summary(&items[0]);
            let mut text = String::from_str("list(len=");
            text.append(number_text(items.len() as u64).as_str());
            text.append(", first=");
            text.append(first.as_str());
            text.append(")");
            proof {
                reveal_strlit("list(len=");
                reveal_strlit(", first=");
                reveal_strlit(")");
            }
            text
        },
        InputShape::Named(entries) => {
            let inner = map_summary(value, entries);
            let mut text = String::from_str("{");
            text.append(inner.as_str());
            text.append("}");
            proof {
                reveal_strlit("{");
                reveal_strlit("}");
            }
            text
        },
    }
}

fn map_summary(map: &InputShape, entries: &Vec<(String, InputShape)>) -> (text: String)
    requires
        *map == InputShape::Named(*entries),
    ensures
        text@ == entries_signature(*map, entries@.len() as int),
    decreases map, 0nat, entries@.len(),
{
    let mut text = String::new();
    let mut i: usize = 0;
    while i < entries.len()
        invariant
            *map == InputShape::Named(*entries),
            i <= entries@.len(),
            text@ == entries_signature(*map, i as int),
        decreases entries@.len() - i,
    {
        proof {
            vstd::std_specs::vec::axiom_vec_index_decreases(*entries, i as int);
            assert(decreases_to!(*map => entries@[i as int].1));
        }
        let value_text = value_summary(&entries[i].1);
        if i > 0 {
            text.append(", ");
        }
        text.append(entries[i].0.as_str());
        text.append(": ");
        text.append(value_text.as_str());
        proof {
            reveal_strlit(", ");
            reveal_strlit(": ");
            assert(text@ =~= entries_signature(*map, i + 1));
        }
        i = i + 1;
    }
    text
}

/// The signature of the inputs a predict was handed: lane 0's signature and
/// the lane count (the lanes of one vectorized fleet share one shape), or a
/// note that there were no lanes.
pub open spec fn inputs_signature(inputs: Seq<InputShape>) -> Seq<char> {
    if inputs.len() == 0 {
        "adapter-assembled model input: (no lanes)"@
    } else {
        "adapter-assembled model input (per lane): "@ + signature(inputs[0]) + "; lanes: "@ + decimal(inputs.len())
    }
}

/// The signature of the inputs a predict was handed (see
/// [`inputs_signature`]).
pub fn inputs_summary(inputs: &Vec<InputShape>) -> (text: String)
    ensures
        text@ == inputs_signature(inputs@),
{
    if inputs.len() == 0 {
        proof {
            reveal_strlit("adapter-assembled model input: (no lanes)");
        }
        return String::from_str("adapter-assembled model input: (no lanes)");
    }
    let mut text = String::from_str("adapter-assembled model input (per lane): ");
    text.append(value_summary(&inputs[0]).as_str());
    text.append("; lanes: ");
    text.append(number_text(inputs.len() as u64).as_str());
    proof {
        reveal_strlit("adapter-assembled model input (per lane): ");
        reveal_strlit("; lanes: ");
    }
    text
}

} // verus!
