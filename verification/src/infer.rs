//! Column types: what a column's values say about its type.

use crate::number::{
    decimal_number, finite_bits, infinity_word, int_value, integer_in_real_range, is_finite,
    lemma_64_bit_integers_are_in_real_range, lemma_integer_syntax_is_real_syntax,
    lemma_words_are_no_numbers, nan_word, parse_int, read_real, real_bits, unsigned_part,
};
use crate::text::{blank, lemma_trimmed, trim, trimmed};
use vstd::prelude::*;

verus! {

/// SQLite storage class inferred for a column.
#[derive(Debug, Clone, Copy, PartialEq, Eq, Structural)]
pub enum ColType {
    Integer,
    Real,
    Text,
}

impl ColType {
    /// The keyword as text.
    pub open spec fn keyword(self) -> Seq<char> {
        match self {
            ColType::Integer => "INTEGER"@,
            ColType::Real => "REAL"@,
            ColType::Text => "TEXT"@,
        }
    }

    /// The SQLite type keyword used in `CREATE TABLE`.
    pub fn sql_keyword(self) -> (r: &'static str)
        ensures
            r@ == self.keyword(),
    {
        match self {
            ColType::Integer => "INTEGER",
            ColType::Real => "REAL",
            ColType::Text => "TEXT",
        }
    }
}

/// Does the field, without the white space around it, denote a 64-bit integer?
pub open spec fn int_field(s: Seq<char>) -> bool {
    int_value(trimmed(s)) is Some
}

/// Does the field, without the white space around it, denote a finite real?
pub open spec fn real_field(s: Seq<char>) -> bool {
    let t = trimmed(s);
    decimal_number(unsigned_part(t)) && finite_bits(real_bits(t))
}

/// Is the field empty (so that it is stored as NULL and says nothing about the
/// column's type)?
pub fn is_empty(field: &str) -> (r: bool)
    ensures
        r == blank(field@),
{
    proof {
        lemma_trimmed(field@);
    }
    let t = trim(field);
    t.as_str().is_empty()
}

/// Does this field parse as a 64-bit integer?
pub fn parses_int(field: &str) -> (r: bool)
    ensures
        r == int_field(field@),
{
    let t = trim(field);
    parse_int(t.as_str()).is_some()
}

/// Does the field, without the white space around it, denote an integer that is not too
/// large for a real?
pub open spec fn large_int_field(s: Seq<char>) -> bool {
    integer_in_real_range(trimmed(s))
}

/// Does this field parse as a finite real number? Every field that parses as an integer
/// does, and so does an integer that only a real can hold.
pub fn parses_real(field: &str) -> (r: bool)
    ensures
        r == real_field(field@),
        large_int_field(field@) ==> r,
        int_field(field@) ==> r,
{
    let t = trim(field);
    proof {
        if int_value(t@) is Some {
            lemma_64_bit_integers_are_in_real_range(t@);
        }
        if integer_in_real_range(t@) {
            lemma_integer_syntax_is_real_syntax(t@);
        }
        lemma_words_are_no_numbers(t@);
    }
    match read_real(t.as_str()) {
        Some(bits) => is_finite(bits),
        None => false,
    }
}

/// The texts of a list of string slices.
pub open spec fn slices(values: Seq<&str>) -> Seq<Seq<char>> {
    Seq::new(values.len(), |i: int| values[i]@)
}

/// Is every value that is not blank an integer?
pub open spec fn all_int(values: Seq<Seq<char>>) -> bool {
    forall|i: int| 0 <= i < values.len() && !blank(#[trigger] values[i]) ==> int_field(values[i])
}

/// Is every value that is not blank a finite real?
pub open spec fn all_real(values: Seq<Seq<char>>) -> bool {
    forall|i: int| 0 <= i < values.len() && !blank(#[trigger] values[i]) ==> real_field(values[i])
}

/// Is every value that is not blank an integer that is not too large for a real?
pub open spec fn all_large_int(values: Seq<Seq<char>>) -> bool {
    forall|i: int|
        0 <= i < values.len() && !blank(#[trigger] values[i]) ==> large_int_field(values[i])
}

/// Is every value blank?
pub open spec fn all_blank(values: Seq<Seq<char>>) -> bool {
    forall|i: int| 0 <= i < values.len() ==> blank(#[trigger] values[i])
}

/// The type of a column with these values: blank values do not count; TEXT where
/// no value is left; INTEGER where all others are integers; else REAL where all
/// others are finite reals; else TEXT.
pub open spec fn column_type(values: Seq<Seq<char>>) -> ColType {
    if all_blank(values) {
        ColType::Text
    } else if all_int(values) {
        ColType::Integer
    } else if all_real(values) {
        ColType::Real
    } else {
        ColType::Text
    }
}

proof fn lemma_one_more_value(values: Seq<Seq<char>>, i: int)
    requires
        0 <= i < values.len(),
    ensures
        ({
            let before = values.take(i);
            let after = values.take(i + 1);
            let v = values[i];
            &&& all_blank(after) == (all_blank(before) && blank(v))
            &&& all_int(after) == (all_int(before) && (blank(v) || int_field(v)))
            &&& all_real(after) == (all_real(before) && (blank(v) || real_field(v)))
        }),
{
    let before = values.take(i);
    let after = values.take(i + 1);
    assert(forall|j: int| 0 <= j < i ==> #[trigger] after[j] == before[j]);
    assert(forall|j: int| 0 <= j < i ==> #[trigger] before[j] == after[j]);
    assert(after[i] == values[i]);
}

proof fn lemma_type_of_slices(values: Seq<&str>)
    ensures
        column_type(slices(values)) == ColType::Integer <==> {
            &&& exists|i: int| 0 <= i < values.len() && !blank((#[trigger] values[i])@)
            &&& forall|i: int|
                0 <= i < values.len() && !blank((#[trigger] values[i])@) ==> int_value(
                    trimmed(values[i]@),
                ) is Some
        },
        column_type(slices(values)) == ColType::Real <==> {
            &&& exists|i: int|
                0 <= i < values.len() && !blank((#[trigger] values[i])@) && int_value(
                    trimmed(values[i]@),
                ) is None
            &&& forall|i: int|
                0 <= i < values.len() && !blank((#[trigger] values[i])@) ==> decimal_number(
                    unsigned_part(trimmed(values[i]@)),
                ) && finite_bits(real_bits(trimmed(values[i]@)))
        },
{
    let column = slices(values);
    law_type_of_a_column(column);
    assert(forall|i: int| 0 <= i < values.len() ==> #[trigger] column[i] == values[i]@);
    assert(forall|i: int| 0 <= i < values.len() ==> (#[trigger] values[i])@ == column[i]);
}

/// Infers the type of one column from all of its values.
///
/// Integers too large for 64 bits fall through to REAL.
pub fn infer_column_type(values: Vec<&str>) -> (r: ColType)
    ensures
        r == column_type(slices(values@)),
        r == ColType::Integer <==> {
            &&& exists|i: int| 0 <= i < values@.len() && !blank((#[trigger] values@[i])@)
            &&& forall|i: int|
                0 <= i < values@.len() && !blank((#[trigger] values@[i])@) ==> int_value(
                    trimmed(values@[i]@),
                ) is Some
        },
        r == ColType::Real <==> {
            &&& exists|i: int|
                0 <= i < values@.len() && !blank((#[trigger] values@[i])@) && int_value(
                    trimmed(values@[i]@),
                ) is None
            &&& forall|i: int|
                0 <= i < values@.len() && !blank((#[trigger] values@[i])@) ==> decimal_number(
                    unsigned_part(trimmed(values@[i]@)),
                ) && finite_bits(real_bits(trimmed(values@[i]@)))
        },
        ({
            &&& all_large_int(slices(values@))
            &&& !all_int(slices(values@))
        }) ==> r == ColType::Real,
{
    let mut saw_value = false;
    let mut all_ints = true;
    let mut all_reals = true;
    let ghost column = slices(values@);
    assert(column.take(column.len() as int) == column);
    proof {
        lemma_type_of_slices(values@);
    }
    let mut i: usize = 0;
    while i < values.len()
        invariant_except_break
            i <= values@.len(),
            column == slices(values@),
            column.take(column.len() as int) == column,
            saw_value == !all_blank(column.take(i as int)),
            all_ints == all_int(column.take(i as int)),
            all_reals == all_real(column.take(i as int)),
            all_reals,
        ensures
            saw_value == !all_blank(column),
            all_ints == all_int(column),
            all_reals == all_real(column),
            all_large_int(column) ==> all_reals,
        decreases values@.len() - i,
    {
        let v = values[i];
        proof {
            lemma_one_more_value(column, i as int);
        }
        if is_empty(v) {
            i += 1;
            continue;
        }
        saw_value = true;
        if all_ints && !parses_int(v) {
            all_ints = false;
        }
        if all_reals && !parses_real(v) {
            all_reals = false;
        }
        if !all_reals {
            // What is no real is no integer either: the rest cannot change the answer.
            assert(!blank(column[i as int]) && !int_field(column[i as int]));
            break;
        }
        i += 1;
    }
    if !saw_value {
        return ColType::Text;
    }
    if all_ints {
        ColType::Integer
    } else if all_reals {
        ColType::Real
    } else {
        ColType::Text
    }
}

/// The type of a column depends only on which values that are not blank occur in
/// it: not on the blank ones, nor on order or repetition.
pub proof fn law_type_depends_on_the_values_present(a: Seq<Seq<char>>, b: Seq<Seq<char>>)
    requires
        forall|s: Seq<char>| !blank(s) ==> (a.contains(s) <==> b.contains(s)),
    ensures
        column_type(a) == column_type(b),
{
    lemma_types_carry_over(a, b);
    lemma_types_carry_over(b, a);
}

proof fn lemma_types_carry_over(a: Seq<Seq<char>>, b: Seq<Seq<char>>)
    requires
        forall|s: Seq<char>| !blank(s) ==> (a.contains(s) <==> b.contains(s)),
    ensures
        all_blank(a) ==> all_blank(b),
        all_int(a) ==> all_int(b),
        all_real(a) ==> all_real(b),
{
    assert forall|i: int| 0 <= i < b.len() && !blank(#[trigger] b[i]) implies exists|j: int|
        0 <= j < a.len() && a[j] == b[i] by {
        assert(b.contains(b[i]));
        assert(a.contains(b[i]));
    }
}

/// A column without a value, or with blank values alone, is TEXT.
pub proof fn law_blank_column_is_text(values: Seq<Seq<char>>)
    requires
        all_blank(values),
    ensures
        column_type(values) == ColType::Text,
{
}

/// A word for infinity or for "not a number" makes a column TEXT.
pub proof fn law_words_for_non_finite_reals_are_text(values: Seq<Seq<char>>, i: int)
    requires
        0 <= i < values.len(),
        infinity_word(trimmed(values[i])) || nan_word(trimmed(values[i])),
    ensures
        column_type(values) == ColType::Text,
{
    let t = trimmed(values[i]);
    lemma_words_are_no_numbers(t);
    if int_value(t) is Some {
        lemma_integer_syntax_is_real_syntax(t);
    }
    if blank(values[i]) {
        lemma_trimmed(values[i]);
        assert(unsigned_part(t).len() == 0);
    }
}

/// The slices of a list have one text each, in order, and each is all of the slice.
pub proof fn law_slices_are_the_texts(values: Seq<&str>)
    ensures
        slices(values).len() == values.len(),
        forall|i: int| 0 <= i < values.len() ==> #[trigger] slices(values)[i] == values[i]@,
{
}

/// A column is INTEGER exactly where some value is not blank and every such value, without the
/// white space around it, denotes a 64-bit integer; it is REAL exactly where all such values
/// denote finite reals and one of them no 64-bit integer; it is TEXT in all other cases.
pub proof fn law_type_of_a_column(values: Seq<Seq<char>>)
    ensures
        column_type(values) == ColType::Integer <==> {
            &&& exists|i: int| 0 <= i < values.len() && !blank(#[trigger] values[i])
            &&& forall|i: int|
                0 <= i < values.len() && !blank(#[trigger] values[i]) ==> int_value(
                    trimmed(values[i]),
                ) is Some
        },
        column_type(values) == ColType::Real <==> {
            &&& exists|i: int|
                0 <= i < values.len() && !blank(#[trigger] values[i]) && int_value(
                    trimmed(values[i]),
                ) is None
            &&& forall|i: int|
                0 <= i < values.len() && !blank(#[trigger] values[i]) ==> decimal_number(
                    unsigned_part(trimmed(values[i])),
                ) && finite_bits(real_bits(trimmed(values[i])))
        },
{
}

/// Whether a field is an integer or a finite real depends on what is left without the white
/// space around it, and on nothing else.
pub proof fn law_numbers_in_fields(s: Seq<char>)
    ensures
        int_field(s) <==> int_value(trimmed(s)) is Some,
        real_field(s) <==> decimal_number(unsigned_part(trimmed(s))) && finite_bits(
            real_bits(trimmed(s)),
        ),
{
}

} // verus!
