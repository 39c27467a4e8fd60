//! Reading the name of a struct type out of text.
use crate::error::LocalExecError;
use crate::types::{StructTag, StructTagView};
use vstd::prelude::*;

verus! {

/// The longest type name that is read, in characters. Reading a name takes stack
/// space for each type argument within a type argument.
pub const MAX_TYPE_NAME: usize = 4096;

/// A type of the Move language: a struct type, or another type in its textual form.
#[derive(Debug, PartialEq, Eq)]
pub enum TypeTag {
    Struct(StructTag),
    Other(String),
}

/// What a `TypeTag` says.
#[verifier::ext_equal]
pub enum TypeTagView {
    Struct(StructTagView),
    Other(Seq<char>),
}

impl View for TypeTag {
    type V = TypeTagView;

    open spec fn view(&self) -> TypeTagView {
        match self {
            TypeTag::Struct(tag) => TypeTagView::Struct(tag@),
            TypeTag::Other(text) => TypeTagView::Other(text@),
        }
    }
}

/// What the type parser of the Move language makes of a text: the type that the
/// text names, or the message that it names none.
pub uninterp spec fn parsed_type(text: Seq<char>) -> Result<TypeTagView, Seq<char>>;

/// The type that a text names.
///
/// Calls `move_core_types::parser::parse_type_tag`. Trusted: its result, or the
/// message of its error, depends on the text alone and is the one that
/// `parsed_type` names. The 16 bytes of the address in the result become the low
/// half of a 32 byte address, and type arguments become text.
#[verifier::external_body]
fn parse_type_tag(text: &str) -> (r: Result<TypeTag, String>)
    requires
        text@.len() <= MAX_TYPE_NAME,
    ensures
        match r {
            Ok(tag) => parsed_type(text@) == Ok::<TypeTagView, Seq<char>>(tag@),
            Err(message) => parsed_type(text@) == Err::<TypeTagView, Seq<char>>(message@),
        },
{
    match move_core_types::parser::parse_type_tag(text) {
        Ok(move_core_types::language_storage::TypeTag::Struct(tag)) => Ok(
            TypeTag::Struct(
                StructTag {
                    address: (0, u128::from_be_bytes(tag.address.into_bytes())),
                    module: tag.module.to_string(),
                    name: tag.name.to_string(),
                    type_params: tag.type_params.iter().map(|param| param.to_string()).collect(),
                },
            ),
        ),
        Ok(tag) => Ok(TypeTag::Other(tag.to_string())),
        Err(err) => Err(err.to_string()),
    }
}

/// Whether a result is the struct type that a parsed text names, or the error
/// that it names none.
pub open spec fn is_struct_tag_of(
    parsed: Result<TypeTagView, Seq<char>>,
    r: Result<StructTag, LocalExecError>,
) -> bool {
    match parsed {
        Ok(TypeTagView::Struct(tag)) => r matches Ok(found) && found@ == tag,
        Ok(TypeTagView::Other(text)) => r matches Err(LocalExecError::InvalidStructTag { err })
            && err@ == text,
        Err(message) => r matches Err(LocalExecError::InvalidStructTag { err }) && err@ == message,
    }
}

/// The view of what a type parser answers.
pub open spec fn parse_view(parsed: Result<TypeTag, String>) -> Result<TypeTagView, Seq<char>> {
    match parsed {
        Ok(tag) => Ok(tag@),
        Err(message) => Err(message@),
    }
}

/// The struct type in what a type parser answers. A type that is no struct is
/// an error, with the type in its textual form.
pub fn expect_struct(parsed: Result<TypeTag, String>) -> (r: Result<StructTag, LocalExecError>)
    ensures
        is_struct_tag_of(parse_view(parsed), r),
{
    match parsed {
        Ok(TypeTag::Struct(tag)) => Ok(tag),
        Ok(TypeTag::Other(text)) => Err(LocalExecError::InvalidStructTag { err: text }),
        Err(message) => Err(LocalExecError::InvalidStructTag { err: message }),
    }
}

/// The struct type that a text names.
pub fn parse_struct_tag(text: &str) -> (r: Result<StructTag, LocalExecError>)
    requires
        text@.len() <= MAX_TYPE_NAME,
    ensures
        is_struct_tag_of(parsed_type(text@), r),
{
    expect_struct(parse_type_tag(text))
}

/// Only a struct type is accepted, and it is handed on as it is. Any other type is the error with
/// that type as its text, and a failure to read a type is the error with its message.
pub proof fn law_only_struct_types_are_accepted(
    parsed: Result<TypeTag, String>,
    r: Result<StructTag, LocalExecError>,
    i: int,
)
    requires
        call_ensures(expect_struct, (parsed,), r),
    ensures
        match parsed {
            Ok(TypeTag::Struct(tag)) => {
                &&& r matches Ok(found)
                &&& found.address == tag.address
                &&& found.module@ == tag.module@
                &&& found.name@ == tag.name@
                &&& found.type_params@.len() == tag.type_params@.len()
                &&& 0 <= i < tag.type_params@.len() ==> found.type_params@[i]@
                    == tag.type_params@[i]@
            },
            Ok(TypeTag::Other(text)) => r matches Err(LocalExecError::InvalidStructTag { err })
                && err@ == text@,
            Err(message) => r matches Err(LocalExecError::InvalidStructTag { err }) && err@
                == message@,
        },
{
    if let Ok(TypeTag::Struct(tag)) = parsed {
        let found = r->Ok_0;
        assert(found@.type_params.len() == found.type_params@.len());
        assert(tag@.type_params.len() == tag.type_params@.len());
        if 0 <= i < tag.type_params@.len() {
            assert(found@.type_params[i] == found.type_params@[i]@);
            assert(tag@.type_params[i] == tag.type_params@[i]@);
        }
    }
}

/// The struct type that a text names is the one that the type parser reads in that text. A text
/// that names another type or none is an error with what the type parser says of it.
pub proof fn law_a_text_names_what_the_parser_reads(
    text: &str,
    tag: StructTagView,
    words: Seq<char>,
    r: Result<StructTag, LocalExecError>,
)
    requires
        text@.len() <= 4096,
        call_ensures(parse_struct_tag, (text,), r),
    ensures
        parsed_type(text@) == Ok::<TypeTagView, Seq<char>>(TypeTagView::Struct(tag)) ==> (
        r matches Ok(found) && found@ == tag),
        parsed_type(text@) == Ok::<TypeTagView, Seq<char>>(TypeTagView::Other(words))
            || parsed_type(text@) == Err::<TypeTagView, Seq<char>>(words) ==> (r matches Err(
            LocalExecError::InvalidStructTag { err },
        ) && err@ == words),
{
}

} // verus!
