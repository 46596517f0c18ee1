//! The values that fields are stored as.

use crate::infer::{column_type, ColType};
use crate::number::{
    finite_bits, int_value, lemma_words_are_no_numbers, nan_bits, nan_word, parse_int, read_real,
    real_bits, real_syntax,
};
use crate::text::{blank, copy_of, lemma_trimmed, trim, trimmed};
use vstd::prelude::*;

verus! {

/// A value bound to a parameter of an `INSERT` statement.
#[derive(Debug, PartialEq, Eq)]
pub enum SqlValue {
    Null,
    Integer(i64),
    /// The bits of a 64-bit real.
    Real(u64),
    Text(String),
}

/// What an [`SqlValue`] stands for. The many bit patterns for "not a number" are
/// one value.
pub enum Value {
    Null,
    Integer(int),
    Real(u64),
    NotANumber,
    Text(Seq<char>),
}

impl View for SqlValue {
    type V = Value;

    open spec fn view(&self) -> Value {
        match self {
            SqlValue::Null => Value::Null,
            SqlValue::Integer(i) => Value::Integer(*i as int),
            SqlValue::Real(bits) => if nan_bits(*bits) {
                Value::NotANumber
            } else {
                Value::Real(*bits)
            },
            SqlValue::Text(s) => Value::Text(s@),
        }
    }
}

/// The values of a row.
pub open spec fn values(row: Seq<SqlValue>) -> Seq<Value> {
    Seq::new(row.len(), |i: int| row[i]@)
}

/// The value that a field of a column of type `ty` is stored as: NULL where it is
/// blank, else the number that it denotes where the type asks for one, else the
/// field itself.
pub open spec fn value_of(field: Seq<char>, ty: ColType) -> Value {
    let t = trimmed(field);
    if blank(field) {
        Value::Null
    } else {
        match ty {
            ColType::Integer => match int_value(t) {
                Some(i) => Value::Integer(i as int),
                None => Value::Text(field),
            },
            ColType::Real => if nan_word(t) {
                Value::NotANumber
            } else if real_syntax(t) {
                Value::Real(real_bits(t))
            } else {
                Value::Text(field)
            },
            ColType::Text => Value::Text(field),
        }
    }
}

/// Converts a field to the value to bind, honoring the column's type. Empty
/// fields become NULL whatever the type; a field that does not parse as its
/// column's type stays text.
pub fn field_to_value(field: &str, ty: ColType) -> (r: SqlValue)
    ensures
        r@ == value_of(field@, ty),
{
    proof {
        lemma_trimmed(field@);
    }
    let t = trim(field);
    if t.as_str().is_empty() {
        return SqlValue::Null;
    }
    match ty {
        ColType::Integer => match parse_int(t.as_str()) {
            Some(i) => SqlValue::Integer(i),
            None => SqlValue::Text(copy_of(field)),
        },
        ColType::Real => match read_real(t.as_str()) {
            Some(bits) => SqlValue::Real(bits),
            None => SqlValue::Text(copy_of(field)),
        },
        ColType::Text => SqlValue::Text(copy_of(field)),
    }
}

/// Where the type was inferred from the column itself, no field falls back to
/// text: each one that is not blank is stored as a value of the column's type,
/// and reals are finite.
pub proof fn law_fields_are_stored_as_the_inferred_type(column: Seq<Seq<char>>, i: int)
    requires
        0 <= i < column.len(),
    ensures
        blank(column[i]) <==> value_of(column[i], column_type(column)) == Value::Null,
        !blank(column[i]) ==> match column_type(column) {
            ColType::Integer => int_value(trimmed(column[i])) matches Some(n) && value_of(
                column[i],
                ColType::Integer,
            ) == Value::Integer(n as int),
            ColType::Real => value_of(column[i], ColType::Real) == Value::Real(
                real_bits(trimmed(column[i])),
            ) && finite_bits(real_bits(trimmed(column[i]))),
            ColType::Text => value_of(column[i], ColType::Text) == Value::Text(column[i]),
        },
{
    lemma_words_are_no_numbers(trimmed(column[i]));
}

/// An empty field is NULL whatever the type of its column.
pub proof fn law_blank_field_is_null(field: Seq<char>, ty: ColType)
    requires
        blank(field),
    ensures
        value_of(field, ty) == Value::Null,
{
}

/// What each field is stored as. A blank one is NULL. In an INTEGER column, the integer that it
/// denotes without the white space around it; in a REAL column, the real that it denotes so;
/// where it denotes none, and in a TEXT column, the whole field as it is.
pub proof fn law_stored_values(field: Seq<char>)
    ensures
        blank(field) ==> forall|ty: ColType| #[trigger] value_of(field, ty) == Value::Null,
        !blank(field) ==> value_of(field, ColType::Text) == Value::Text(field),
        !blank(field) && int_value(trimmed(field)) is Some ==> value_of(field, ColType::Integer)
            == Value::Integer(int_value(trimmed(field))->0 as int),
        !blank(field) && int_value(trimmed(field)) is None ==> value_of(field, ColType::Integer)
            == Value::Text(field),
        !blank(field) && nan_word(trimmed(field)) ==> value_of(field, ColType::Real)
            == Value::NotANumber,
        !blank(field) && !nan_word(trimmed(field)) && real_syntax(trimmed(field)) ==> value_of(
            field,
            ColType::Real,
        ) == Value::Real(real_bits(trimmed(field))),
        !blank(field) && !real_syntax(trimmed(field)) ==> value_of(field, ColType::Real)
            == Value::Text(field),
{
}

/// A row of values has one per value, in order.
pub proof fn law_values_are_the_row(row: Seq<SqlValue>)
    ensures
        values(row).len() == row.len(),
        forall|i: int| 0 <= i < row.len() ==> #[trigger] values(row)[i] == row[i]@,
{
}

/// Values are seen as they are; a real by its bits, unless it is not a number.
pub proof fn law_views_of_values(value: SqlValue)
    ensures
        value is Null ==> value@ == Value::Null,
        value matches SqlValue::Integer(i) ==> value@ == Value::Integer(i as int),
        value matches SqlValue::Text(s) ==> value@ == Value::Text(s@),
        value matches SqlValue::Real(bits) ==> value@ == Value::Real(bits) || (value@
            == Value::NotANumber && nan_bits(bits)),
{
}

} // verus!
