//! Reading node identifiers and edges out of the fields of a record.

use crate::graph::NodeId;
use vstd::prelude::*;

verus! {

/// The byte `+`.
pub const PLUS: u8 = 0x2b;

/// The byte `0`.
pub const ZERO: u8 = 0x30;

/// The byte `9`.
pub const NINE: u8 = 0x39;

/// Whether `byte` is an ASCII decimal digit.
pub open spec fn is_digit(byte: u8) -> bool {
    ZERO <= byte <= NINE
}

/// Whether `bytes` holds ASCII decimal digits only.
pub open spec fn all_digits(bytes: Seq<u8>) -> bool {
    forall|i: int| 0 <= i < bytes.len() ==> is_digit(#[trigger] bytes[i])
}

/// The number that a digit stands for; 0 for any other byte.
pub open spec fn digit_value(byte: u8) -> nat {
    if is_digit(byte) {
        (byte - ZERO) as nat
    } else {
        0
    }
}

/// The number written by `digits` in base ten, most significant digit
/// first. The empty sequence is 0.
pub open spec fn decimal_value(digits: Seq<u8>) -> nat
    decreases digits.len(),
{
    if digits.len() == 0 {
        0
    } else {
        decimal_value(digits.drop_last()) * 10 + digit_value(digits.last())
    }
}

/// The digits of a field: the field itself, without the one `+` that may
/// stand in front.
pub open spec fn digits_of(field: Seq<u8>) -> Seq<u8> {
    if field.len() > 0 && field[0] == PLUS {
        field.skip(1)
    } else {
        field
    }
}

/// The node identifier that `field` denotes. A field denotes one when it is
/// an optional `+` followed by one or more decimal digits, and nothing
/// else, whose value fits in 32 bits. Leading zeros are accepted; spaces,
/// a `-` and an empty field are not.
pub open spec fn node_id_of(field: Seq<u8>) -> Option<NodeId> {
    let digits = digits_of(field);
    if digits.len() > 0 && all_digits(digits) && decimal_value(digits) <= u32::MAX {
        Some(decimal_value(digits) as NodeId)
    } else {
        None
    }
}

/// The fields of a record as sequences of bytes.
pub open spec fn fields_of(row: Seq<Vec<u8>>) -> Seq<Seq<u8>> {
    row.map_values(|field: Vec<u8>| field@)
}

/// The edge that a record denotes: it has exactly two fields, the source
/// and the target, and each denotes a node identifier.
pub open spec fn edge_of(fields: Seq<Seq<u8>>) -> Option<(NodeId, NodeId)> {
    if fields.len() == 2 {
        match (node_id_of(fields[0]), node_id_of(fields[1])) {
            (Some(source), Some(target)) => Some((source, target)),
            _ => None,
        }
    } else {
        None
    }
}

/// A field that holds a byte which is no digit denotes no node identifier,
/// unless that byte is a `+` at the front.
pub proof fn lemma_non_numeric_field(field: Seq<u8>, at: int)
    requires
        0 <= at < field.len(),
        !is_digit(field[at]),
        at > 0 || field[at] != PLUS,
    ensures
        node_id_of(field) is None,
{
    let digits = digits_of(field);
    if field[0] == PLUS {
        assert(!is_digit(digits[at - 1]));
    } else {
        assert(!is_digit(digits[at]));
    }
}

/// A record with a field that is not numeric denotes no edge.
pub proof fn lemma_non_numeric_record(fields: Seq<Seq<u8>>, index: int, at: int)
    requires
        0 <= index < fields.len(),
        0 <= at < fields[index].len(),
        !is_digit(fields[index][at]),
        at > 0 || fields[index][at] != PLUS,
    ensures
        edge_of(fields) is None,
{
    lemma_non_numeric_field(fields[index], at);
}

/// A number does not get smaller when digits are appended to it.
proof fn lemma_prefix_value(digits: Seq<u8>, len: int)
    requires
        0 <= len <= digits.len(),
    ensures
        decimal_value(digits.take(len)) <= decimal_value(digits),
    decreases digits.len() - len,
{
    if len == digits.len() {
        assert(digits.take(len) =~= digits);
    } else {
        lemma_prefix_value(digits.drop_last(), len);
        assert(digits.drop_last().take(len) =~= digits.take(len));
    }
}

/// Reads a node identifier from `field`.
pub fn parse_node_id(field: &[u8]) -> (id: Option<NodeId>)
    ensures
        id == node_id_of(field@),
{
    let start: usize = if field.len() > 0 && field[0] == PLUS {
        1
    } else {
        0
    };
    if start == field.len() {
        return None;
    }
    let ghost digits = digits_of(field@);
    assert(digits =~= field@.skip(start as int));
    let mut value: u64 = 0;
    let mut i: usize = start;
    while i < field.len()
        invariant
            start <= i <= field.len(),
            digits == digits_of(field@),
            digits == field@.skip(start as int),
            all_digits(digits.take(i - start)),
            value == decimal_value(digits.take(i - start)),
            value <= u32::MAX,
        decreases field.len() - i,
    {
        let byte = field[i];
        let ghost seen = digits.take(i - start + 1);
        proof {
            assert(seen.drop_last() =~= digits.take(i - start));
            assert(seen.last() == byte);
        }
        if byte < ZERO || byte > NINE {
            assert(!is_digit(digits[i - start]));
            return None;
        }
        let next: u64 = value * 10 + (byte - ZERO) as u64;
        if next > u32::MAX as u64 {
            proof {
                lemma_prefix_value(digits, i - start + 1);
            }
            return None;
        }
        value = next;
        i += 1;
    }
    assert(digits.take(i - start) =~= digits);
    Some(value as u32)
}

/// Reads the edge that a record denotes, or finds that it denotes none.
pub fn parse_edge(row: &Vec<Vec<u8>>) -> (edge: Option<(NodeId, NodeId)>)
    ensures
        edge == edge_of(fields_of(row@)),
{
    if row.len() != 2 {
        return None;
    }
    match (parse_node_id(row[0].as_slice()), parse_node_id(row[1].as_slice())) {
        (Some(source), Some(target)) => Some((source, target)),
        _ => None,
    }
}

} // verus!
