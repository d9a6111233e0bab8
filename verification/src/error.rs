//! The errors of the library.
use vstd::prelude::*;
use vstd::string::StringExecFns;
use crate::tokenizer::debug_text;
use crate::tokenizer::token_debug_text;
use crate::tokenizer::Token;
use crate::tokenizer::TokenView;

verus! {

/// What went wrong while a schema text was read.
#[derive(Debug)]
pub enum EbdbError {
    /// The text ended while this closing character was still awaited.
    MissingCharacter(char),
    /// The first character was awaited as a closing bracket, the second was
    /// found.
    WrongClosingContainer(char, char),
    /// This closing bracket was found while no container was open.
    ClosingNonExistingContainer(char),
    /// A field of this name exists already. The reader does not return it:
    /// there, a later field takes the place of an earlier one of its name.
    DuplicateFieldName(String),
    /// A name was awaited where this token stands. The reader does not
    /// return it: there, such a token is an error in words.
    ExpectedName(Token),
    /// Any other error, in words.
    Custom(String),
}

/// The mathematical value of an [`EbdbError`].
pub enum EbdbErrorView {
    MissingCharacter(char),
    WrongClosingContainer(char, char),
    ClosingNonExistingContainer(char),
    DuplicateFieldName(Seq<char>),
    ExpectedName(TokenView),
    Custom(Seq<char>),
}

impl DeepView for EbdbError {
    type V = EbdbErrorView;

    open spec fn deep_view(&self) -> EbdbErrorView {
        match self {
            EbdbError::MissingCharacter(c) => EbdbErrorView::MissingCharacter(*c),
            EbdbError::WrongClosingContainer(awaited, found) => EbdbErrorView::WrongClosingContainer(
                *awaited,
                *found,
            ),
            EbdbError::ClosingNonExistingContainer(c) => EbdbErrorView::ClosingNonExistingContainer(
                *c,
            ),
            EbdbError::DuplicateFieldName(name) => EbdbErrorView::DuplicateFieldName(name@),
            EbdbError::ExpectedName(token) => EbdbErrorView::ExpectedName(token.deep_view()),
            EbdbError::Custom(text) => EbdbErrorView::Custom(text@),
        }
    }
}

/// What the functions of the library return: a value, or what went wrong.
pub type EbdbResult<T> = Result<T, EbdbError>;

/// The mathematical value of a result: that of what it holds.
pub open spec fn result_view<T: DeepView>(result: EbdbResult<T>) -> Result<T::V, EbdbErrorView> {
    match result {
        Ok(value) => Ok(value.deep_view()),
        Err(e) => Err(e.deep_view()),
    }
}

/// The error in words.
pub open spec fn message_of(error: EbdbErrorView) -> Seq<char> {
    match error {
        EbdbErrorView::MissingCharacter(awaited) => "Could not find the closing character: "@.push(
            awaited,
        ),
        EbdbErrorView::WrongClosingContainer(awaited, found) => "Expected '"@.push(awaited)
            + "' and received '"@.push(found).push('\''),
        EbdbErrorView::ClosingNonExistingContainer(found) => seq!['\''].push(found)
            + "' was closed but never opened"@,
        EbdbErrorView::DuplicateFieldName(name) => "Duplicate field name: "@ + name,
        EbdbErrorView::ExpectedName(token) => "Expected a name and received "@ + token_debug_text(
            token,
        ),
        EbdbErrorView::Custom(text) => text,
    }
}

impl EbdbError {
    /// The error in words.
    pub fn message(&self) -> (text: String)
        ensures
            text@ == message_of(self.deep_view()),
    {
        match self {
            EbdbError::MissingCharacter(awaited) => {
                let mut text = "Could not find the closing character: ".to_owned();
                text.push(*awaited);
                text
            },
            EbdbError::WrongClosingContainer(awaited, found) => {
                let mut text = "Expected '".to_owned();
                text.push(*awaited);
                let mut text = text.concat("' and received '");
                text.push(*found);
                text.push('\'');
                text
            },
            EbdbError::ClosingNonExistingContainer(found) => {
                let mut text = String::new();
                text.push('\'');
                text.push(*found);
                let text = text.concat("' was closed but never opened");
                text
            },
            EbdbError::DuplicateFieldName(name) => "Duplicate field name: ".to_owned().concat(
                name.as_str(),
            ),
            EbdbError::ExpectedName(token) => {
                let written = debug_text(token);
                "Expected a name and received ".to_owned().concat(written.as_str())
            },
            EbdbError::Custom(text) => text.clone(),
        }
    }
}

} // verus!
