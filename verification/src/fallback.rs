//! Accessors with a fallback: for each optional field of a configuration that is declared
//! with a fallback value, an accessor that yields the field's value or, where the field is
//! empty, the fallback.

use crate::text::{chars_of, push_chars, slice_of, trim_bounds, trimmed};
use vstd::pervasive::unreached;
use vstd::prelude::*;

verus! {

/// An attribute of a field, as far as the accessors depend on it.
#[derive(Debug, PartialEq, Eq)]
pub struct Attribute {
    /// The identifier that is the attribute's path; empty where the path is no single
    /// identifier.
    pub ident: String,
    /// For `fallback`, the expression that is its argument; for `doc`, the text of the
    /// comment. `None` where the attribute holds neither.
    pub value: Option<String>,
}

/// The generic arguments of the last segment of a type's path.
#[derive(Debug, PartialEq, Eq)]
pub enum Arguments {
    /// The segment has no arguments in angle brackets.
    Absent,
    /// The segment has arguments in angle brackets; the first of them, where it is a type.
    Angle(Option<String>),
}

/// The type of a field, as far as the accessors depend on it.
#[derive(Debug, PartialEq, Eq)]
pub enum FieldType {
    /// A path: the identifier of its last segment, and that segment's arguments.
    Path(String, Arguments),
    /// Any other type.
    Other,
}

/// A named field of a struct.
#[derive(Debug, PartialEq, Eq)]
pub struct Field {
    pub name: String,
    pub ty: FieldType,
    /// The attributes in the order in which they are written; doc comments are `doc`
    /// attributes.
    pub attrs: Vec<Attribute>,
}

/// An accessor: `pub fn name(&self) -> ty`, which yields the field's value, or `fallback`
/// where the field is empty.
#[derive(Debug, PartialEq, Eq)]
pub struct Accessor {
    pub name: String,
    pub ty: String,
    pub fallback: String,
}

/// Why a field that is declared with a fallback gets no accessor.
#[derive(Debug, Clone, Copy, PartialEq, Eq, Structural)]
pub enum FallbackError {
    /// The `fallback` attribute holds no expression.
    MissingValue,
    /// The field has no doc comment.
    MissingDocComment,
    /// The last `doc` attribute holds no text.
    InvalidDocComment,
    /// The doc comment does not end with `fallback: ` and the fallback value.
    DocCommentMismatch,
    /// The field's type is not `Option<T>`.
    NotAnOption,
    /// The field's type is `Option` without arguments.
    MissingTypeParameters,
    /// The first argument of `Option` is no type.
    InvalidTypeParameter,
}

impl View for Accessor {
    type V = (Seq<char>, Seq<char>, Seq<char>);

    open spec fn view(&self) -> Self::V {
        (self.name@, self.ty@, self.fallback@)
    }
}

/// The first attribute at or behind `from` whose path is `ident`.
pub open spec fn first_from(attrs: Seq<Attribute>, ident: Seq<char>, from: int) -> Option<int>
    decreases attrs.len() - from,
{
    if from < 0 || from >= attrs.len() {
        None
    } else if attrs[from].ident@ == ident {
        Some(from)
    } else {
        first_from(attrs, ident, from + 1)
    }
}

/// The last attribute before `to` whose path is `ident`.
pub open spec fn last_before(attrs: Seq<Attribute>, ident: Seq<char>, to: int) -> Option<int>
    decreases to,
{
    if to <= 0 || to > attrs.len() {
        None
    } else if attrs[to - 1].ident@ == ident {
        Some(to - 1)
    } else {
        last_before(attrs, ident, to - 1)
    }
}

/// Whether `text` ends with `suffix`.
pub open spec fn ends_with(text: Seq<char>, suffix: Seq<char>) -> bool {
    suffix.len() <= text.len() && text.skip(text.len() - suffix.len()) == suffix
}

/// The type that `Option` wraps in `ty`.
pub open spec fn option_argument(ty: FieldType) -> Result<Seq<char>, FallbackError> {
    match ty {
        FieldType::Other => Err(FallbackError::NotAnOption),
        FieldType::Path(name, arguments) => if name@ != "Option"@ {
            Err(FallbackError::NotAnOption)
        } else {
            match arguments {
                Arguments::Absent => Err(FallbackError::MissingTypeParameters),
                Arguments::Angle(None) => Err(FallbackError::InvalidTypeParameter),
                Arguments::Angle(Some(inner)) => Ok(inner@),
            }
        },
    }
}

/// What is wrong with the doc comments of a field whose fallback value is `value`: there is
/// none, the last of them holds no text, or its text does not end, white space aside, with
/// `fallback: ` and the value. `None` where nothing is wrong.
pub open spec fn doc_fault(attrs: Seq<Attribute>, value: Seq<char>) -> Option<FallbackError> {
    match last_before(attrs, "doc"@, attrs.len() as int) {
        None => Some(FallbackError::MissingDocComment),
        Some(doc) => match attrs[doc].value {
            None => Some(FallbackError::InvalidDocComment),
            Some(comment) => if ends_with(trimmed(comment@), "fallback: "@ + value) {
                None
            } else {
                Some(FallbackError::DocCommentMismatch)
            },
        },
    }
}

/// What is made of one field. `None`: the field has no `fallback` attribute and gets no
/// accessor. Otherwise the accessor's type and fallback value, or the reason why there is
/// none: the first `fallback` attribute must hold a value, the last doc comment must end,
/// white space aside, with `fallback: ` and that value, and the type must be `Option<T>`.
pub open spec fn generated(field: Field) -> Option<Result<(Seq<char>, Seq<char>), FallbackError>> {
    let attrs = field.attrs@;
    match first_from(attrs, "fallback"@, 0) {
        None => None,
        Some(at) => Some(
            match attrs[at].value {
                None => Err(FallbackError::MissingValue),
                Some(value) => match doc_fault(attrs, value@) {
                    Some(error) => Err(error),
                    None => match option_argument(field.ty) {
                        Err(error) => Err(error),
                        Ok(inner) => Ok((inner, value@)),
                    },
                },
            },
        ),
    }
}

/// Why no accessor can be made of a field that is declared with a fallback; `None` for a
/// field of which one is made, and for one that is declared without.
pub open spec fn fault_of(field: Field) -> Option<FallbackError> {
    match generated(field) {
        Some(Err(error)) => Some(error),
        _ => None,
    }
}

/// The accessors for `fields`: one for each field of which an accessor is made, in order.
pub open spec fn expected(fields: Seq<Field>) -> Seq<(Seq<char>, Seq<char>, Seq<char>)>
    decreases fields.len(),
{
    if fields.len() == 0 {
        Seq::empty()
    } else {
        let field = fields.last();
        match generated(field) {
            Some(Ok((ty, value))) => expected(fields.drop_last()).push((field.name@, ty, value)),
            _ => expected(fields.drop_last()),
        }
    }
}

/// The reason for which the first field that is refused is refused.
pub open spec fn refused(fields: Seq<Field>) -> Option<FallbackError>
    decreases fields.len(),
{
    if fields.len() == 0 {
        None
    } else {
        match refused(fields.drop_last()) {
            Some(error) => Some(error),
            None => fault_of(fields.last()),
        }
    }
}

/// Whether both texts hold the same characters.
fn same_text(a: &str, b: &str) -> (out: bool)
    ensures
        out == (a@ == b@),
{
    a.to_owned() == b.to_owned()
}

/// The first attribute whose path is `ident`.
fn find_first_attr(attrs: &Vec<Attribute>, ident: &str) -> (out: Option<usize>)
    ensures
        match out {
            Some(at) => at < attrs@.len() && first_from(attrs@, ident@, 0) == Some(at as int),
            None => first_from(attrs@, ident@, 0) is None,
        },
{
    let mut i: usize = 0;
    while i < attrs.len()
        invariant
            i <= attrs@.len(),
            first_from(attrs@, ident@, 0) == first_from(attrs@, ident@, i as int),
        decreases attrs@.len() - i,
    {
        if same_text(attrs[i].ident.as_str(), ident) {
            return Some(i);
        }
        i = i + 1;
    }
    None
}

/// The last attribute whose path is `ident`.
fn find_last_attr(attrs: &Vec<Attribute>, ident: &str) -> (out: Option<usize>)
    ensures
        match out {
            Some(at) => at < attrs@.len() && last_before(attrs@, ident@, attrs@.len() as int)
                == Some(at as int),
            None => last_before(attrs@, ident@, attrs@.len() as int) is None,
        },
{
    let mut i: usize = attrs.len();
    while i > 0
        invariant
            i <= attrs@.len(),
            last_before(attrs@, ident@, attrs@.len() as int) == last_before(
                attrs@,
                ident@,
                i as int,
            ),
        decreases i,
    {
        if same_text(attrs[i - 1].ident.as_str(), ident) {
            return Some(i - 1);
        }
        i = i - 1;
    }
    None
}

/// Whether `text` ends with `suffix`.
fn has_suffix(text: &Vec<char>, suffix: &Vec<char>) -> (out: bool)
    ensures
        out == ends_with(text@, suffix@),
{
    if suffix.len() > text.len() {
        return false;
    }
    let n = text.len();
    let shift = n - suffix.len();
    let mut i: usize = 0;
    while i < suffix.len()
        invariant
            i <= suffix@.len(),
            n == text@.len(),
            shift + suffix@.len() == n,
            forall|j: int| 0 <= j < i ==> text@[shift + j] == suffix@[j],
        decreases suffix@.len() - i,
    {
        if text[shift + i] != suffix[i] {
            proof {
                assert(text@.skip(shift as int)[i as int] == text@[shift + i]);
            }
            return false;
        }
        i = i + 1;
    }
    proof {
        assert(text@.skip(shift as int) =~= suffix@);
    }
    true
}

/// Why `ty` is no `Option<T>`, if it is none.
fn option_fault(ty: &FieldType) -> (out: Option<FallbackError>)
    ensures
        out == match option_argument(*ty) {
            Err(error) => Some(error),
            Ok(_) => None::<FallbackError>,
        },
{
    match ty {
        FieldType::Other => Some(FallbackError::NotAnOption),
        FieldType::Path(name, arguments) => {
            if !same_text(name.as_str(), "Option") {
                return Some(FallbackError::NotAnOption);
            }
            match arguments {
                Arguments::Absent => Some(FallbackError::MissingTypeParameters),
                Arguments::Angle(None) => Some(FallbackError::InvalidTypeParameter),
                Arguments::Angle(Some(_)) => None,
            }
        },
    }
}

/// Extracts `T` from `Option<T>`. The type must be `Option<T>`.
fn unwrap_option_type(ty: &FieldType) -> (out: String)
    requires
        option_argument(*ty) is Ok,
    ensures
        option_argument(*ty) == Ok::<_, FallbackError>(out@),
{
    match ty {
        FieldType::Path(_, Arguments::Angle(Some(inner))) => inner.clone(),
        _ => unreached(),
    }
}

/// What is wrong with the doc comments of a field whose fallback value is `value`.
fn doc_comment_fault(attrs: &Vec<Attribute>, value: &str) -> (out: Option<FallbackError>)
    ensures
        out == doc_fault(attrs@, value@),
{
    match find_last_attr(attrs, "doc") {
        None => Some(FallbackError::MissingDocComment),
        Some(doc) => match &attrs[doc].value {
            None => Some(FallbackError::InvalidDocComment),
            Some(comment) => {
                let chars = chars_of(comment.as_str());
                let (from, to) = trim_bounds(&chars);
                let inner = slice_of(&chars, from, to);
                let mut suffix: Vec<char> = Vec::new();
                push_chars(&mut suffix, "fallback: ");
                push_chars(&mut suffix, value);
                proof {
                    assert(suffix@ == "fallback: "@ + value@);
                }
                if has_suffix(&inner, &suffix) {
                    None
                } else {
                    Some(FallbackError::DocCommentMismatch)
                }
            },
        },
    }
}

/// Holds the doc comments of a field against its fallback value: there must be one, and the
/// last must end, white space aside, with `fallback: ` and the value. A field that does not
/// meet this is not let in, so there is nothing left to do.
fn assert_doc_comment(attrs: &Vec<Attribute>, value: &str)
    requires
        doc_fault(attrs@, value@) is None,
{
}

/// Why no accessor can be made of `field`, if it is declared with a fallback and none can.
pub fn fault(field: &Field) -> (out: Option<FallbackError>)
    ensures
        out == fault_of(*field),
{
    match find_first_attr(&field.attrs, "fallback") {
        None => None,
        Some(at) => match &field.attrs[at].value {
            None => Some(FallbackError::MissingValue),
            Some(value) => match doc_comment_fault(&field.attrs, value.as_str()) {
                Some(error) => Some(error),
                None => option_fault(&field.ty),
            },
        },
    }
}

/// The reason for which the first field that is refused is refused; `None` where an
/// accessor can be made of every field that is declared with a fallback.
pub fn refusal(fields: &Vec<Field>) -> (out: Option<FallbackError>)
    ensures
        out == refused(fields@),
{
    let mut i: usize = 0;
    while i < fields.len()
        invariant
            i <= fields@.len(),
            refused(fields@.take(i as int)) is None,
        decreases fields@.len() - i,
    {
        proof {
            assert(fields@.take(i + 1).drop_last() == fields@.take(i as int));
            assert(fields@.take(i + 1).last() == fields@[i as int]);
        }
        match fault(&fields[i]) {
            Some(error) => {
                proof {
                    lemma_refused_stays(fields@, i + 1);
                }
                return Some(error);
            },
            None => {},
        }
        i = i + 1;
    }
    proof {
        assert(fields@.take(i as int) == fields@);
    }
    None
}

/// The accessor for one field, if one is made of it.
fn accessor(field: &Field) -> (out: Option<Accessor>)
    requires
        fault_of(*field) is None,
    ensures
        match out {
            None => generated(*field) is None,
            Some(made) => generated(*field) == Some(
                Ok::<_, FallbackError>((made.ty@, made.fallback@)),
            ) && made.name@ == field.name@,
        },
{
    match find_first_attr(&field.attrs, "fallback") {
        None => None,
        Some(at) => match &field.attrs[at].value {
            None => unreached(),
            Some(value) => {
                assert_doc_comment(&field.attrs, value.as_str());
                let ty = unwrap_option_type(&field.ty);
                Some(Accessor { name: field.name.clone(), ty, fallback: value.clone() })
            },
        },
    }
}

/// The views of `accessors`, in order.
pub open spec fn views(accessors: Seq<Accessor>) -> Seq<(Seq<char>, Seq<char>, Seq<char>)> {
    Seq::new(accessors.len(), |i: int| accessors[i]@)
}

/// The accessors for the fields of a struct: one for each field that is declared with a
/// fallback, in the order of the fields. Fields without a `fallback` attribute get none.
/// Every field that is declared with a fallback must meet the conditions for an accessor:
/// `refusal` says whether all do.
pub fn fallback(fields: &Vec<Field>) -> (out: Vec<Accessor>)
    requires
        refused(fields@) is None,
    ensures
        views(out@) == expected(fields@),
{
    let mut accessors: Vec<Accessor> = Vec::new();
    let mut i: usize = 0;
    while i < fields.len()
        invariant
            i <= fields@.len(),
            refused(fields@) is None,
            views(accessors@) == expected(fields@.take(i as int)),
        decreases fields@.len() - i,
    {
        proof {
            assert(fields@.take(i + 1).drop_last() == fields@.take(i as int));
            assert(fields@.take(i + 1).last() == fields@[i as int]);
            lemma_none_refused(fields@, i as int);
        }
        let ghost before = accessors@;
        match accessor(&fields[i]) {
            None => {},
            Some(made) => {
                accessors.push(made);
                proof {
                    assert(views(accessors@) == views(before).push(made@));
                }
            },
        }
        i = i + 1;
    }
    proof {
        assert(fields@.take(i as int) == fields@);
    }
    accessors
}

/// A refusal among the first `k` fields is the refusal of the whole.
proof fn lemma_refused_stays(fields: Seq<Field>, k: int)
    requires
        0 <= k <= fields.len(),
        refused(fields.take(k)) is Some,
    ensures
        refused(fields) == refused(fields.take(k)),
    decreases fields.len() - k,
{
    if k < fields.len() {
        assert(fields.take(k + 1).drop_last() == fields.take(k));
        lemma_refused_stays(fields, k + 1);
    } else {
        assert(fields.take(k) == fields);
    }
}

/// Where no field is refused, an accessor can be made of each that is declared with a
/// fallback.
proof fn lemma_none_refused(fields: Seq<Field>, at: int)
    requires
        0 <= at < fields.len(),
        refused(fields) is None,
    ensures
        fault_of(fields[at]) is None,
    decreases fields.len(),
{
    if at < fields.len() - 1 {
        lemma_none_refused(fields.drop_last(), at);
    }
}

/// What an accessor yields: the field's value, or the fallback where the field is empty.
pub fn fallback_value<T>(field: Option<T>, fallback: T) -> (out: T)
    ensures
        out == match field {
            Some(value) => value,
            None => fallback,
        },
{
    match field {
        Some(value) => value,
        None => fallback,
    }
}

} // verus!
