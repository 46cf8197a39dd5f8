//! Errors of graph edits, and the selector of an element by key or by index.

use crate::key::OpaqueKey;
use vstd::std_specs::convert::FromSpecImpl;
use vstd::prelude::*;
use vstd::string::StringExecFns;

verus! {

/// The character of a decimal digit.
pub open spec fn digit(value: nat) -> char {
    if value == 0 {
        '0'
    } else if value == 1 {
        '1'
    } else if value == 2 {
        '2'
    } else if value == 3 {
        '3'
    } else if value == 4 {
        '4'
    } else if value == 5 {
        '5'
    } else if value == 6 {
        '6'
    } else if value == 7 {
        '7'
    } else if value == 8 {
        '8'
    } else {
        '9'
    }
}

/// The decimal digits of a number, the most significant first and without
/// leading zeros.
pub open spec fn decimal(number: nat) -> Seq<char>
    decreases number,
{
    if number < 10 {
        seq![digit(number)]
    } else {
        decimal(number / 10).push(digit(number % 10))
    }
}

/// Appends the decimal digits of a number to a text.
fn push_decimal(text: &mut String, number: usize)
    ensures
        final(text)@ == old(text)@ + decimal(number as nat),
    decreases number,
{
    if number >= 10 {
        push_decimal(text, number / 10);
    }
    let last = number % 10;
    proof {
        reveal_strlit("0");
        reveal_strlit("1");
        reveal_strlit("2");
        reveal_strlit("3");
        reveal_strlit("4");
        reveal_strlit("5");
        reveal_strlit("6");
        reveal_strlit("7");
        reveal_strlit("8");
        reveal_strlit("9");
    }
    let figure = if last == 0 {
        "0"
    } else if last == 1 {
        "1"
    } else if last == 2 {
        "2"
    } else if last == 3 {
        "3"
    } else if last == 4 {
        "4"
    } else if last == 5 {
        "5"
    } else if last == 6 {
        "6"
    } else if last == 7 {
        "7"
    } else if last == 8 {
        "8"
    } else {
        "9"
    };
    assert(figure@ =~= seq![digit(last as nat)]);
    let ghost before = text@;
    text.append(figure);
    assert(text@ =~= old(text)@ + decimal(number as nat)) by {
        if number >= 10 {
            assert(before == old(text)@ + decimal((number / 10) as nat));
            assert(decimal(number as nat) == decimal((number / 10) as nat).push(
                digit((number % 10) as nat),
            ));
        }
    }
}

/// Why a graph edit was refused.
#[derive(Clone, Copy, Debug, PartialEq, Eq, Structural)]
pub enum GraphError {
    /// A key or an index names an element that is not there.
    TopologyNotFound,
    /// The edit would give an edge a third face or repeat what is there.
    TopologyConflict,
    /// The input is not the description of a face.
    TopologyMalformed,
    /// A face was asked for with fewer than three vertices.
    ArityNonPolygonal,
    /// The number of vertices of a face is not the one expected.
    ArityConflict { expected: usize, actual: usize },
    /// The faces do not all have the same number of vertices.
    ArityNonUniform,
    /// A geometric operation failed.
    Geometry,
}

impl GraphError {
    /// The message of the error.
    pub open spec fn text(self) -> Seq<char> {
        match self {
            GraphError::TopologyNotFound => "required topology not found"@,
            GraphError::TopologyConflict => "conflicting topology found"@,
            GraphError::TopologyMalformed => "topology malformed"@,
            GraphError::ArityNonPolygonal => "arity is non-polygonal"@,
            GraphError::ArityConflict { expected, actual } => "conflicting arity; expected "@
                + decimal(expected as nat) + ", but got "@ + decimal(actual as nat),
            GraphError::ArityNonUniform => "arity is non-uniform"@,
            GraphError::Geometry => "geometric operation failed"@,
        }
    }

    /// Gets the message of the error.
    pub fn message(&self) -> (message: String)
        ensures
            message@ == self.text(),
    {
        match self {
            GraphError::TopologyNotFound => "required topology not found".to_owned(),
            GraphError::TopologyConflict => "conflicting topology found".to_owned(),
            GraphError::TopologyMalformed => "topology malformed".to_owned(),
            GraphError::ArityNonPolygonal => "arity is non-polygonal".to_owned(),
            GraphError::ArityConflict { expected, actual } => {
                let mut message = "conflicting arity; expected ".to_owned();
                push_decimal(&mut message, *expected);
                message.append(", but got ");
                push_decimal(&mut message, *actual);
                message
            },
            GraphError::ArityNonUniform => "arity is non-uniform".to_owned(),
            GraphError::Geometry => "geometric operation failed".to_owned(),
        }
    }
}

/// Selects an element by its key, or by its index relative to another
/// element.
#[derive(Debug, PartialEq, Eq, Structural)]
pub enum Selector<K> {
    ByKey(K),
    ByIndex(usize),
}

impl<K: Copy> Clone for Selector<K> {
    fn clone(&self) -> (selector: Self)
        ensures
            selector == *self,
    {
        *self
    }
}

impl<K: Copy> Copy for Selector<K> {

}

impl<K> Selector<K> {
    /// The key of the selector, or the key that `f` finds for its index.
    pub fn key_or_else<F: Fn(usize) -> Result<K, GraphError>>(self, f: F) -> (key: Result<
        K,
        GraphError,
    >)
        requires
            self matches Selector::ByIndex(index) ==> f.requires((index,)),
        ensures
            match self {
                Selector::ByKey(selected) => key == Ok::<K, GraphError>(selected),
                Selector::ByIndex(index) => f.ensures((index,), key),
            },
    {
        match self {
            Selector::ByKey(key) => Ok(key),
            Selector::ByIndex(index) => f(index),
        }
    }

    /// The index of the selector, or the index that `f` finds for its key.
    pub fn index_or_else<F: Fn(K) -> Result<usize, GraphError>>(self, f: F) -> (index: Result<
        usize,
        GraphError,
    >)
        requires
            self matches Selector::ByKey(key) ==> f.requires((key,)),
        ensures
            match self {
                Selector::ByKey(key) => f.ensures((key,), index),
                Selector::ByIndex(selected) => index == Ok::<usize, GraphError>(selected),
            },
    {
        match self {
            Selector::ByKey(key) => f(key),
            Selector::ByIndex(index) => Ok(index),
        }
    }
}

impl<K: OpaqueKey> From<K> for Selector<K> {
    fn from(key: K) -> (selector: Self) {
        Selector::ByKey(key)
    }
}

impl<K: OpaqueKey> FromSpecImpl<K> for Selector<K> {
    open spec fn obeys_from_spec() -> bool {
        true
    }

    open spec fn from_spec(key: K) -> Self {
        Selector::ByKey(key)
    }
}

impl<K> From<usize> for Selector<K> {
    fn from(index: usize) -> (selector: Self) {
        Selector::ByIndex(index)
    }
}

impl<K> FromSpecImpl<usize> for Selector<K> {
    open spec fn obeys_from_spec() -> bool {
        true
    }

    open spec fn from_spec(index: usize) -> Self {
        Selector::ByIndex(index)
    }
}

} // verus!
