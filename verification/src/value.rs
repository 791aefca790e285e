//! The dual string/array value type and its concatenation and coercion rules.

use vstd::prelude::*;
use vstd::string::StringExecFns;

verus! {

/// Mathematical model of a [`VariableValue`]: text is a sequence of
/// characters, a list is an ordered sequence of such texts.
pub ghost enum ValueModel {
    Text(Seq<char>),
    List(Seq<Seq<char>>),
}

/// The elements of `els` joined by a single space character.
pub open spec fn join_spaces(els: Seq<Seq<char>>) -> Seq<char>
    decreases els.len(),
{
    if els.len() == 0 {
        Seq::empty()
    } else if els.len() == 1 {
        els[0]
    } else {
        join_spaces(els.drop_last()) + seq![' '] + els.last()
    }
}

/// Coercion of a value to text: a list becomes its elements joined by
/// single spaces.
pub open spec fn value_text(v: ValueModel) -> Seq<char> {
    match v {
        ValueModel::Text(t) => t,
        ValueModel::List(els) => join_spaces(els),
    }
}

/// Coercion of a value to a list: nonempty text becomes a one-element
/// list, empty text becomes the empty list.
pub open spec fn value_list(v: ValueModel) -> Seq<Seq<char>> {
    match v {
        ValueModel::Text(t) => if t.len() == 0 {
            Seq::empty()
        } else {
            seq![t]
        },
        ValueModel::List(els) => els,
    }
}

/// Concatenation of two values. The left operand's tag fixes the tag of
/// the result: text absorbs the right operand as text, a list absorbs it
/// as a list.
pub open spec fn value_concat(l: ValueModel, r: ValueModel) -> ValueModel {
    match l {
        ValueModel::Text(t) => ValueModel::Text(t + value_text(r)),
        ValueModel::List(els) => ValueModel::List(els + value_list(r)),
    }
}

/// Length of a value: byte length of the encoded text, or element count
/// of the list.
pub open spec fn value_len(v: ValueModel) -> nat {
    match v {
        ValueModel::Text(t) => vstd::utf8::encode_utf8(t).len(),
        ValueModel::List(els) => els.len(),
    }
}

/// Emptiness of a value: no characters, or no elements.
pub open spec fn value_is_empty(v: ValueModel) -> bool {
    match v {
        ValueModel::Text(t) => t.len() == 0,
        ValueModel::List(els) => els.len() == 0,
    }
}

/// Law: the type of a concatenation is the type of its left operand.
pub proof fn lemma_concat_type(l: ValueModel, r: ValueModel)
    ensures
        value_concat(l, r) is Text <==> l is Text,
        value_concat(l, r) is List <==> l is List,
{
}

/// Law: a chain of concatenations keeps the type of its leftmost operand,
/// whatever the types of the later operands.
pub proof fn lemma_concat_leftmost(l: ValueModel, r: ValueModel, m: ValueModel)
    ensures
        value_concat(value_concat(l, r), m) is Text <==> l is Text,
        value_concat(value_concat(l, r), m) is List <==> l is List,
{
}

/// Value of variables: either a single text or an array of texts.
#[derive(Debug, PartialEq, Eq, Hash)]
pub enum VariableValue {
    String(String),
    Array(Vec<String>),
}

impl View for VariableValue {
    type V = ValueModel;

    open spec fn view(&self) -> ValueModel {
        match self {
            VariableValue::String(text) => ValueModel::Text(text@),
            VariableValue::Array(els) => ValueModel::List(els.deep_view()),
        }
    }
}

/// Joins the strings of `els` with single spaces.
fn join_with_spaces(els: &Vec<String>) -> (r: String)
    ensures
        r@ == join_spaces(els.deep_view()),
{
    let ghost dv = els.deep_view();
    let mut out = String::new();
    let mut i: usize = 0;
    proof {
        reveal_strlit(" ");
    }
    while i < els.len()
        invariant
            i <= els.len(),
            dv == els.deep_view(),
            dv.len() == els@.len(),
            out@ == join_spaces(dv.take(i as int)),
        decreases els.len() - i,
    {
        if i > 0 {
            out.append(" ");
        }
        out.append(els[i].as_str());
        proof {
            reveal_strlit(" ");
            assert(dv.take(i + 1).drop_last() =~= dv.take(i as int));
            assert(dv.take(i + 1).last() == dv[i as int]);
            if i == 0 {
                assert(join_spaces(dv.take(1)) == dv[0]);
            }
        }
        i += 1;
    }
    proof {
        assert(dv.take(els@.len() as int) =~= dv);
    }
    out
}

/// Clones each string of `els`.
fn clone_strings(els: &Vec<String>) -> (r: Vec<String>)
    ensures
        r@ == els@,
{
    let mut out: Vec<String> = Vec::new();
    let mut i: usize = 0;
    while i < els.len()
        invariant
            i <= els.len(),
            out@.len() == i,
            forall|k: int| 0 <= k < i ==> out@[k] == els@[k],
        decreases els.len() - i,
    {
        out.push(els[i].clone());
        i += 1;
    }
    proof {
        assert(out@ =~= els@);
    }
    out
}

impl VariableValue {
    /// Returns the value as a string.
    ///
    /// If the value is an array, it is converted into a space-delimited
    /// string.
    #[must_use]
    pub fn as_string(&self) -> (r: String)
        ensures
            r@ == value_text(self@),
    {
        match self {
            VariableValue::String(text) => text.clone(),
            VariableValue::Array(els) => join_with_spaces(els),
        }
    }

    /// Returns the value as a string, consuming it.
    ///
    /// If the value is an array, it is converted into a space-delimited
    /// string.
    #[must_use]
    pub fn into_string(self) -> (r: String)
        ensures
            r@ == value_text(self@),
    {
        match self {
            VariableValue::String(text) => text,
            VariableValue::Array(els) => join_with_spaces(&els),
        }
    }

    /// Returns the value as an array.
    ///
    /// A nonempty string value is converted into a single-element array;
    /// an empty string value into an empty array.
    #[must_use]
    pub fn as_array(&self) -> (r: Vec<String>)
        ensures
            r.deep_view() == value_list(self@),
    {
        match self {
            VariableValue::String(text) => {
                let mut out: Vec<String> = Vec::new();
                if !text.as_str().is_empty() {
                    out.push(text.clone());
                }
                proof {
                    assert(out.deep_view() =~= value_list(self@));
                }
                out
            },
            VariableValue::Array(els) => {
                let out = clone_strings(els);
                proof {
                    assert(out.deep_view() =~= els.deep_view());
                }
                out
            },
        }
    }

    /// Returns the value as an array, consuming it.
    ///
    /// A nonempty string value is converted into a single-element array;
    /// an empty string value into an empty array.
    #[must_use]
    pub fn into_array(self) -> (r: Vec<String>)
        ensures
            r.deep_view() == value_list(self@),
    {
        match self {
            VariableValue::String(text) => {
                let mut out: Vec<String> = Vec::new();
                if !text.as_str().is_empty() {
                    out.push(text);
                }
                proof {
                    assert(out.deep_view() =~= value_list(ValueModel::Text(text@)));
                }
                out
            },
            VariableValue::Array(els) => els,
        }
    }

    /// Returns the byte length of the string, or the element count of the
    /// array.
    #[must_use]
    pub fn len(&self) -> (r: usize)
        ensures
            value_len(self@) <= usize::MAX ==> r == value_len(self@),
    {
        match self {
            VariableValue::String(text) => text.as_str().len(),
            VariableValue::Array(els) => els.len(),
        }
    }

    /// Returns whether the value is an empty string or an empty array.
    #[must_use]
    pub fn is_empty(&self) -> (r: bool)
        ensures
            r == value_is_empty(self@),
    {
        match self {
            VariableValue::String(text) => text.as_str().is_empty(),
            VariableValue::Array(els) => els.is_empty(),
        }
    }

    /// Concatenates `rhs` onto `self`; the result's type is the type of
    /// `self`, per [`value_concat`].
    #[must_use]
    pub fn concat(self, rhs: Self) -> (r: Self)
        ensures
            r@ == value_concat(self@, rhs@),
    {
        match self {
            VariableValue::String(text) => {
                let rt = rhs.into_string();
                VariableValue::String(text.concat(rt.as_str()))
            },
            VariableValue::Array(mut els) => {
                let ghost left = els.deep_view();
                let mut rest = rhs.into_array();
                let ghost right = rest.deep_view();
                els.append(&mut rest);
                proof {
                    assert(els.deep_view() =~= left + right);
                }
                VariableValue::Array(els)
            },
        }
    }
}

impl Clone for VariableValue {
    /// Clones the value; the copy models the same value.
    fn clone(&self) -> (r: Self)
        ensures
            r@ == self@,
    {
        match self {
            VariableValue::String(text) => VariableValue::String(text.clone()),
            VariableValue::Array(els) => VariableValue::Array(clone_strings(els)),
        }
    }
}

impl Default for VariableValue {
    /// The default value is an empty string.
    fn default() -> (r: Self)
        ensures
            r@ == ValueModel::Text(Seq::<char>::empty()),
    {
        VariableValue::String(String::new())
    }
}

impl From<&str> for VariableValue {
    /// Construction from text always produces a string value.
    fn from(value: &str) -> (r: Self)
        ensures
            r@ == ValueModel::Text(value@),
    {
        VariableValue::String(String::from_str(value))
    }
}

impl vstd::std_specs::convert::FromSpecImpl<&str> for VariableValue {
    open spec fn obeys_from_spec() -> bool {
        false
    }

    open spec fn from_spec(value: &str) -> Self {
        arbitrary()
    }
}

} // verus!
