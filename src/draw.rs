use vstd::prelude::*;
use vstd::string::StringExecFns;
use vstd::std_specs::iter::IteratorSpec;

verus! {

/// `m` right-aligned in a field of `width` characters, filled on the left
/// with `fill`; unchanged when it is already that wide.
pub open spec fn pad_left(m: Seq<char>, width: nat, fill: char) -> Seq<char> {
    if m.len() >= width {
        m
    } else {
        Seq::new((width - m.len()) as nat, |i: int| fill) + m
    }
}

/// The cell drawn on the wire of a qubit that a gate does not touch.
pub open spec fn empty_cell() -> Seq<char> {
    seq!['-', '-', '-', '-', '-', '-', '-']
}

/// The number of characters of `s`, counting no further than `limit`.
fn char_count_upto(s: &str, limit: usize) -> (r: usize)
    ensures
        r == (if s@.len() < limit {
            s@.len()
        } else {
            limit as nat
        }),
{
    let mut count: usize = 0;
    proof {
        broadcast use vstd::string::axiom_spec_iter;
    }
    for _c in it: s.chars()
        invariant
            count == if it.index() < limit {
                it.index()
            } else {
                limit as int
            },
            it.seq() == s@,
    {
        if count < limit {
            count = count + 1;
        }
    }
    count
}

/// Draws a one-qubit gate on the wire of qubit `indexed_qubit`: its label
/// if that is `operand`, the qubit acted on, and dashes otherwise.
pub fn return_string(indexed_qubit: usize, operand: usize, label: String) -> (r: String)
    ensures
        r@ == (if indexed_qubit == operand {
            label@
        } else {
            empty_cell()
        }),
{
    if indexed_qubit == operand {
        return label;
    }
    proof {
        reveal_strlit("-------");
    }
    String::from_str("-------")
}

/// Draws a two-qubit gate on the wire of qubit `indexed_qubit`: its label,
/// padded to five characters and marked `_C` on the control's wire and `_T`
/// on the target's, and dashes otherwise.
pub fn return_two_gate_string(indexed_qubit: usize, control: usize, target: usize, label: String) -> (r: String)
    ensures
        r@ == (if indexed_qubit == control {
            pad_left(label@, 5, '-') + seq!['_', 'C']
        } else if indexed_qubit == target {
            pad_left(label@, 5, '-') + seq!['_', 'T']
        } else {
            empty_cell()
        }),
{
    proof {
        reveal_strlit("-");
        reveal_strlit("_C");
        reveal_strlit("_T");
        reveal_strlit("-------");
    }
    if indexed_qubit != control && indexed_qubit != target {
        return String::from_str("-------");
    }
    let len = char_count_upto(label.as_str(), 5);
    let mut r = String::new();
    let mut i: usize = len;
    while i < 5
        invariant
            len == if label@.len() < 5 {
                label@.len()
            } else {
                5
            },
            len <= i <= 5,
            r@ == Seq::new((i - len) as nat, |k: int| '-'),
        decreases 5 - i,
    {
        proof {
            reveal_strlit("-");
        }
        r.append("-");
        i = i + 1;
        proof {
            assert(r@ =~= Seq::new((i - len) as nat, |k: int| '-'));
        }
    }
    r.append(label.as_str());
    proof {
        assert(r@ =~= pad_left(label@, 5, '-'));
    }
    if indexed_qubit == control {
        r.append("_C");
    } else {
        r.append("_T");
    }
    r
}

} // verus!
