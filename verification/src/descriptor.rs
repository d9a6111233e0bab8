//! The type of one field as it is written: from the tokens behind the
//! field's name to a [`PartialType`].
use vstd::prelude::*;
use vstd::string::StringExecFns;
use crate::error::result_view;
use crate::error::EbdbError;
use crate::error::EbdbErrorView;
use crate::error::EbdbResult;
use crate::literal::parse_usize;
use crate::literal::spells;
use crate::literal::spells_text;
use crate::literal::usize_of;
use crate::text::message;
use crate::tokenizer::debug_text;
use crate::tokenizer::lemma_container_view;
use crate::tokenizer::token_debug_text;
use crate::tokenizer::Token;
use crate::tokenizer::TokenView;

verus! {

/// The type of one field as it is written, before the names in it are
/// looked up.
#[derive(Debug)]
pub struct PartialType {
    /// The name of the type.
    pub types: String,
    /// The number in round brackets; 0 for empty brackets.
    pub size: Option<usize>,
    /// The default: absent, `null`, or a quoted text.
    pub default: Option<Option<String>>,
    /// The number in square brackets; 0 for empty brackets, 1 without them.
    pub amount: usize,
    /// Whether a `?` was written.
    pub nullable: bool,
}

/// The mathematical value of a [`PartialType`].
pub struct PartialTypeView {
    pub types: Seq<char>,
    pub size: Option<usize>,
    pub default: Option<Option<Seq<char>>>,
    pub amount: usize,
    pub nullable: bool,
}

impl DeepView for PartialType {
    type V = PartialTypeView;

    open spec fn deep_view(&self) -> PartialTypeView {
        PartialTypeView {
            types: self.types@,
            size: self.size,
            default: self.default.deep_view(),
            amount: self.amount,
            nullable: self.nullable,
        }
    }
}

impl Clone for PartialType {
    /// A type of the same value.
    fn clone(&self) -> (copy: Self)
        ensures
            copy.deep_view() == self.deep_view(),
    {
        let default = match &self.default {
            None => None,
            Some(None) => Some(None),
            Some(Some(text)) => Some(Some(text.clone())),
        };
        PartialType {
            types: self.types.clone(),
            size: self.size,
            default,
            amount: self.amount,
            nullable: self.nullable,
        }
    }
}

/// What has been read of a field's type: the type so far, and whether a `!`
/// was among it.
///
/// A `!` changes nothing in the type that is read: it is kept for texts that
/// carry it, and all that is asked of it is that it comes once at most.
pub struct Descriptor {
    pub partial: PartialType,
    pub marked: bool,
}

/// The mathematical value of a [`Descriptor`].
pub struct DescriptorView {
    pub partial: PartialTypeView,
    pub marked: bool,
}

impl DeepView for Descriptor {
    type V = DescriptorView;

    open spec fn deep_view(&self) -> DescriptorView {
        DescriptorView { partial: self.partial.deep_view(), marked: self.marked }
    }
}

/// A field's type when nothing but its name has been read: a single value
/// that must be there and has no default.
pub open spec fn plain(types: Seq<char>) -> DescriptorView {
    DescriptorView {
        partial: PartialTypeView { types, size: None, default: None, amount: 1, nullable: false },
        marked: false,
    }
}

/// Whether `text` is the word `null`, in small letters or capitals.
pub open spec fn is_null_keyword(text: Seq<char>) -> bool {
    spells(text, 0, "null"@)
}

/// The number that brackets hold which hold one token: that token must be
/// an identifier that writes a `usize`.
pub open spec fn number_in(inner: Seq<TokenView>) -> Option<usize> {
    match inner[0] {
        TokenView::Identifier(text) => usize_of(text),
        _ => None,
    }
}

/// The error that names the type `types`.
pub open spec fn type_error(text: &str, types: Seq<char>) -> EbdbErrorView {
    EbdbErrorView::Custom(text@ + types)
}

/// The error for a token that cannot stand in the type `types`.
pub open spec fn token_error(types: Seq<char>, token: TokenView) -> EbdbErrorView {
    EbdbErrorView::Custom(
        "Invalid token for creation of types "@ + types + ": "@ + token_debug_text(token),
    )
}

/// The size that round brackets write: 0 for empty ones, else the number in
/// them.
pub open spec fn size_in(inner: Seq<TokenView>) -> usize {
    if inner.len() == 0 {
        0
    } else {
        number_in(inner)->0
    }
}

/// The amount that square brackets write: 0 for empty ones, else the
/// number in them.
pub open spec fn amount_in(inner: Seq<TokenView>) -> usize {
    if inner.len() == 0 {
        0
    } else {
        number_in(inner)->0
    }
}

/// Whether a token writes a default: a quoted text, or the word `null`.
pub open spec fn writes_default(token: TokenView) -> bool {
    match token {
        TokenView::Quoted(_) => true,
        TokenView::Identifier(text) => is_null_keyword(text),
        _ => false,
    }
}

/// The default that a token writes: the text of a quoted text, nothing for
/// `null`.
pub open spec fn default_in(token: TokenView) -> Option<Seq<char>> {
    match token {
        TokenView::Quoted(text) => Some(text),
        _ => None,
    }
}

/// The error that a token draws behind what has been read, if it cannot
/// stand there.
///
/// - Brackets hold one token at most, and that token writes a number.
/// - Round brackets come once.
/// - `!` and `?` each come once.
/// - Curly brackets and a comma cannot stand in a type.
pub open spec fn refusal(before: DescriptorView, token: TokenView) -> Option<EbdbErrorView> {
    let types = before.partial.types;
    match token {
        TokenView::Parenthesis(inner) => if inner.len() > 1 {
            Some(type_error("To many tokens for Parenthesis in types ", types))
        } else if before.partial.size is Some {
            if inner.len() == 1 {
                Some(type_error("To many Parenthesis in types ", types))
            } else {
                Some(type_error("Cannot set size twice in types ", types))
            }
        } else if inner.len() == 1 && number_in(inner) is None {
            Some(type_error("Parenthisis is not a usize in types ", types))
        } else {
            None
        },
        TokenView::Square(inner) => if inner.len() > 1 {
            Some(type_error("To many tokens for Square in types ", types))
        } else if inner.len() == 1 && number_in(inner) is None {
            Some(type_error("Square is not a usize in types ", types))
        } else {
            None
        },
        TokenView::ExclamationMark => if before.marked {
            Some(type_error("One ExclamationMark maximum in types ", types))
        } else {
            None
        },
        TokenView::QuestionMark => if before.partial.nullable {
            Some(type_error("One QuestionMark maximum in types ", types))
        } else {
            None
        },
        TokenView::Curly(_) => Some(token_error(types, token)),
        TokenView::Commas => Some(token_error(types, token)),
        TokenView::Quoted(_) => None,
        TokenView::Identifier(_) => None,
    }
}

/// What a token that can stand there adds to what has been read.
///
/// - Round brackets give the size, square brackets the amount.
/// - `?` makes the field nullable. `!` is noted and changes nothing else.
/// - A quoted text is the default, and so is the word `null`. Any other
///   word is passed over.
pub open spec fn effect(before: DescriptorView, token: TokenView) -> DescriptorView {
    DescriptorView {
        partial: PartialTypeView {
            types: before.partial.types,
            size: match token {
                TokenView::Parenthesis(inner) => Some(size_in(inner)),
                _ => before.partial.size,
            },
            default: if writes_default(token) {
                Some(default_in(token))
            } else {
                before.partial.default
            },
            amount: match token {
                TokenView::Square(inner) => amount_in(inner),
                _ => before.partial.amount,
            },
            nullable: before.partial.nullable || token == TokenView::QuestionMark,
        },
        marked: before.marked || token == TokenView::ExclamationMark,
    }
}

/// What one more token makes of a field's type: the error that it draws,
/// or what it adds.
pub open spec fn descriptor_step(before: DescriptorView, token: TokenView) -> Result<
    DescriptorView,
    EbdbErrorView,
> {
    match refusal(before, token) {
        Some(e) => Err(e),
        None => Ok(effect(before, token)),
    }
}

/// What the first `n` tokens make of a field's type whose name is the first
/// of them.
pub open spec fn descriptor_after(types: Seq<char>, tokens: Seq<TokenView>, n: int) -> Result<
    DescriptorView,
    EbdbErrorView,
>
    decreases n,
{
    if n <= 1 {
        Ok(plain(types))
    } else {
        match descriptor_after(types, tokens, n - 1) {
            Ok(before) => descriptor_step(before, tokens[n - 1]),
            Err(e) => Err(e),
        }
    }
}

/// The type that the tokens of one field write: none where there are no
/// tokens; else the first token names the type and each further token adds
/// to it, as `descriptor_step` says.
pub open spec fn partial_type_of(tokens: Seq<TokenView>) -> Result<
    Option<PartialTypeView>,
    EbdbErrorView,
> {
    if tokens.len() == 0 {
        Ok(None)
    } else {
        match tokens[0] {
            TokenView::Identifier(types) => match descriptor_after(types, tokens, tokens.len() as int) {
                Ok(read) => Ok(Some(read.partial)),
                Err(e) => Err(e),
            },
            _ => Err(EbdbErrorView::Custom("The first token should be an identifier"@)),
        }
    }
}

/// The number in brackets that hold one token.
fn number_of(inner: &Vec<Token>) -> (number: Option<usize>)
    requires
        inner.len() == 1,
    ensures
        number == number_in(inner.deep_view()),
{
    match &inner[0] {
        Token::Identifier(text) => parse_usize(text.as_str()),
        _ => None,
    }
}

/// The error that names the type `types`.
fn type_failure(text: &str, types: &String) -> (error: EbdbError)
    ensures
        error.deep_view() == type_error(text, types@),
{
    EbdbError::Custom(message(text, types.as_str()))
}

/// The error for a token that cannot stand in the type `types`.
fn token_failure(types: &String, token: &Token) -> (error: EbdbError)
    ensures
        error.deep_view() == token_error(types@, token.deep_view()),
{
    let text = debug_text(token);
    EbdbError::Custom(
        message("Invalid token for creation of types ", types.as_str()).concat(": ").concat(
            text.as_str(),
        ),
    )
}

impl Descriptor {
    /// Reads one more token of a field's type.
    pub fn read(self, token: &Token) -> (result: EbdbResult<Descriptor>)
        ensures
            result_view(result) == descriptor_step(self.deep_view(), token.deep_view()),
    {
        let Descriptor { partial, marked } = self;
        let PartialType { types, size, default, amount, nullable } = partial;
        proof {
            lemma_container_view(*token);
        }
        match token {
            Token::Parenthesis(inner) => {
                if inner.len() > 1 {
                    Err(type_failure("To many tokens for Parenthesis in types ", &types))
                } else if inner.len() == 1 {
                    if size.is_some() {
                        Err(type_failure("To many Parenthesis in types ", &types))
                    } else {
                        match number_of(inner) {
                            Some(number) => Ok(
                                Descriptor {
                                    partial: PartialType {
                                        types,
                                        size: Some(number),
                                        default,
                                        amount,
                                        nullable,
                                    },
                                    marked,
                                },
                            ),
                            None => Err(
                                type_failure("Parenthisis is not a usize in types ", &types),
                            ),
                        }
                    }
                } else if size.is_some() {
                    Err(type_failure("Cannot set size twice in types ", &types))
                } else {
                    Ok(
                        Descriptor {
                            partial: PartialType { types, size: Some(0), default, amount, nullable },
                            marked,
                        },
                    )
                }
            },
            Token::Square(inner) => {
                if inner.len() > 1 {
                    Err(type_failure("To many tokens for Square in types ", &types))
                } else if inner.len() == 1 {
                    match number_of(inner) {
                        Some(number) => Ok(
                            Descriptor {
                                partial: PartialType { types, size, default, amount: number, nullable },
                                marked,
                            },
                        ),
                        None => Err(type_failure("Square is not a usize in types ", &types)),
                    }
                } else {
                    Ok(
                        Descriptor {
                            partial: PartialType { types, size, default, amount: 0, nullable },
                            marked,
                        },
                    )
                }
            },
            Token::ExclamationMark => {
                if marked {
                    Err(type_failure("One ExclamationMark maximum in types ", &types))
                } else {
                    Ok(
                        Descriptor {
                            partial: PartialType { types, size, default, amount, nullable },
                            marked: true,
                        },
                    )
                }
            },
            Token::QuestionMark => {
                if nullable {
                    Err(type_failure("One QuestionMark maximum in types ", &types))
                } else {
                    Ok(
                        Descriptor {
                            partial: PartialType { types, size, default, amount, nullable: true },
                            marked,
                        },
                    )
                }
            },
            Token::Quoted(text) => Ok(
                Descriptor {
                    partial: PartialType {
                        types,
                        size,
                        default: Some(Some(text.clone())),
                        amount,
                        nullable,
                    },
                    marked,
                },
            ),
            Token::Identifier(text) => {
                let default = if spells_text(text.as_str(), "null") {
                    Some(None)
                } else {
                    default
                };
                Ok(
                    Descriptor {
                        partial: PartialType { types, size, default, amount, nullable },
                        marked,
                    },
                )
            },
            Token::Curly(_) => Err(token_failure(&types, token)),
            Token::Commas => Err(token_failure(&types, token)),
        }
    }
}

impl PartialType {
    /// Reads the type of one field from the tokens that stand behind the
    /// field's name.
    pub fn from_tokens(tokens: &[Token]) -> (result: EbdbResult<Option<Self>>)
        ensures
            result_view(result) == partial_type_of(tokens.deep_view()),
    {
        if tokens.len() == 0 {
            return Ok(None);
        }
        let ghost views = tokens.deep_view();
        match &tokens[0] {
            Token::Identifier(types) => {
                let mut read = Descriptor {
                    partial: PartialType {
                        types: types.clone(),
                        size: None,
                        default: None,
                        amount: 1,
                        nullable: false,
                    },
                    marked: false,
                };
                let mut i: usize = 1;
                while i < tokens.len()
                    invariant
                        1 <= i <= tokens.len(),
                        views == tokens.deep_view(),
                        views[0] == TokenView::Identifier(types@),
                        descriptor_after(types@, views, i as int) == Ok::<
                            DescriptorView,
                            EbdbErrorView,
                        >(read.deep_view()),
                    decreases tokens.len() - i,
                {
                    match read.read(&tokens[i]) {
                        Ok(next) => {
                            read = next;
                        },
                        Err(e) => {
                            proof {
                                lemma_descriptor_error_stays(
                                    types@,
                                    views,
                                    i + 1,
                                    tokens.len() as int,
                                );
                            }
                            return Err(e);
                        },
                    }
                    i += 1;
                }
                Ok(Some(read.partial))
            },
            _ => Err(EbdbError::Custom("The first token should be an identifier".to_owned())),
        }
    }
}

/// Once a token has been refused, the tokens behind it change nothing.
pub proof fn lemma_descriptor_error_stays(
    types: Seq<char>,
    tokens: Seq<TokenView>,
    n: int,
    m: int,
)
    requires
        n <= m,
        descriptor_after(types, tokens, n) is Err,
    ensures
        descriptor_after(types, tokens, m) == descriptor_after(types, tokens, n),
    decreases m - n,
{
    if n < m {
        lemma_descriptor_error_stays(types, tokens, n, m - 1);
    }
}

/// Where the tokens of a type were all accepted, so was each part of them.
pub proof fn lemma_descriptor_accepted(types: Seq<char>, tokens: Seq<TokenView>, k: int, n: int)
    requires
        k <= n,
        descriptor_after(types, tokens, n) is Ok,
    ensures
        descriptor_after(types, tokens, k) is Ok,
{
    if descriptor_after(types, tokens, k) is Err {
        lemma_descriptor_error_stays(types, tokens, k, n);
    }
}

/// What is read of a type with no token behind its name: a single value,
/// not nullable, without size and without default.
pub proof fn lemma_plain_type(types: Seq<char>)
    ensures
        partial_type_of(seq![TokenView::Identifier(types)]) == Ok::<_, EbdbErrorView>(
            Some(
                PartialTypeView { types, size: None, default: None, amount: 1, nullable: false },
            ),
        ),
{
}

/// The name of the type is the one that was read first.
pub proof fn lemma_descriptor_types(types: Seq<char>, tokens: Seq<TokenView>, n: int)
    requires
        descriptor_after(types, tokens, n) is Ok,
    ensures
        descriptor_after(types, tokens, n)->Ok_0.partial.types == types,
    decreases n,
{
    if n > 1 {
        lemma_descriptor_accepted(types, tokens, n - 1, n);
        lemma_descriptor_types(types, tokens, n - 1);
    }
}

/// The amount is 1 where no square brackets were written, and else what the
/// last square brackets write.
pub proof fn lemma_descriptor_amount(types: Seq<char>, tokens: Seq<TokenView>, n: int)
    requires
        n <= tokens.len(),
        descriptor_after(types, tokens, n) is Ok,
    ensures
        (forall|i: int| 1 <= i < n ==> !(#[trigger] tokens[i] is Square)) ==> descriptor_after(
            types,
            tokens,
            n,
        )->Ok_0.partial.amount == 1,
        forall|k: int|
            1 <= k < n && #[trigger] tokens[k] is Square && (forall|i: int|
                k < i < n ==> !(#[trigger] tokens[i] is Square)) ==> descriptor_after(
                types,
                tokens,
                n,
            )->Ok_0.partial.amount == amount_in(tokens[k]->Square_0),
    decreases n,
{
    if n > 1 {
        lemma_descriptor_accepted(types, tokens, n - 1, n);
        lemma_descriptor_amount(types, tokens, n - 1);
    }
}

/// The type is nullable exactly where a `?` was written.
pub proof fn lemma_descriptor_nullable(types: Seq<char>, tokens: Seq<TokenView>, n: int)
    requires
        n <= tokens.len(),
        descriptor_after(types, tokens, n) is Ok,
    ensures
        descriptor_after(types, tokens, n)->Ok_0.partial.nullable <==> exists|i: int|
            1 <= i < n && #[trigger] tokens[i] == TokenView::QuestionMark,
    decreases n,
{
    if n > 1 {
        lemma_descriptor_accepted(types, tokens, n - 1, n);
        lemma_descriptor_nullable(types, tokens, n - 1);
    }
}

/// There is no size where no round brackets were written, and else the
/// size is what the round brackets write.
pub proof fn lemma_descriptor_size(types: Seq<char>, tokens: Seq<TokenView>, n: int)
    requires
        n <= tokens.len(),
        descriptor_after(types, tokens, n) is Ok,
    ensures
        descriptor_after(types, tokens, n)->Ok_0.partial.size is None <==> (forall|i: int|
            1 <= i < n ==> !(#[trigger] tokens[i] is Parenthesis)),
        forall|k: int|
            1 <= k < n && #[trigger] tokens[k] is Parenthesis ==> descriptor_after(
                types,
                tokens,
                n,
            )->Ok_0.partial.size == Some(size_in(tokens[k]->Parenthesis_0)),
    decreases n,
{
    if n > 1 {
        lemma_descriptor_accepted(types, tokens, n - 1, n);
        lemma_descriptor_size(types, tokens, n - 1);
    }
}

/// There is no default where no token writes one, and else the default is
/// what the last such token writes.
pub proof fn lemma_descriptor_default(types: Seq<char>, tokens: Seq<TokenView>, n: int)
    requires
        n <= tokens.len(),
        descriptor_after(types, tokens, n) is Ok,
    ensures
        (forall|i: int| 1 <= i < n ==> !writes_default(#[trigger] tokens[i])) ==> descriptor_after(
            types,
            tokens,
            n,
        )->Ok_0.partial.default is None,
        forall|k: int|
            1 <= k < n && writes_default(#[trigger] tokens[k]) && (forall|i: int|
                k < i < n ==> !writes_default(#[trigger] tokens[i])) ==> descriptor_after(
                types,
                tokens,
                n,
            )->Ok_0.partial.default == Some(default_in(tokens[k])),
    decreases n,
{
    if n > 1 {
        lemma_descriptor_accepted(types, tokens, n - 1, n);
        lemma_descriptor_default(types, tokens, n - 1);
    }
}

/// What a type says that was read from `tokens`: its name is the first
/// token; it is nullable exactly if a `?` follows; its amount is 1 without
/// square brackets and else what the last square brackets write; it has a
/// size exactly if round brackets follow, and then the one that they write;
/// it has no default where no token writes one, and else the one that the
/// last such token writes.
pub proof fn lemma_partial_type(tokens: Seq<TokenView>)
    requires
        tokens.len() > 0,
        partial_type_of(tokens) is Ok,
    ensures
        partial_type_of(tokens)->Ok_0 matches Some(partial) && {
            &&& tokens[0] == TokenView::Identifier(partial.types)
            &&& partial.nullable <==> exists|i: int|
                1 <= i < tokens.len() && #[trigger] tokens[i] == TokenView::QuestionMark
            &&& (forall|i: int| 1 <= i < tokens.len() ==> !(#[trigger] tokens[i] is Square))
                ==> partial.amount == 1
            &&& forall|k: int|
                1 <= k < tokens.len() && #[trigger] tokens[k] is Square && (forall|i: int|
                    k < i < tokens.len() ==> !(#[trigger] tokens[i] is Square)) ==> partial.amount
                    == amount_in(tokens[k]->Square_0)
            &&& partial.size is None <==> (forall|i: int|
                1 <= i < tokens.len() ==> !(#[trigger] tokens[i] is Parenthesis))
            &&& forall|k: int|
                1 <= k < tokens.len() && #[trigger] tokens[k] is Parenthesis ==> partial.size
                    == Some(size_in(tokens[k]->Parenthesis_0))
            &&& (forall|i: int| 1 <= i < tokens.len() ==> !writes_default(#[trigger] tokens[i]))
                ==> partial.default is None
            &&& forall|k: int|
                1 <= k < tokens.len() && writes_default(#[trigger] tokens[k]) && (forall|i: int|
                    k < i < tokens.len() ==> !writes_default(#[trigger] tokens[i]))
                    ==> partial.default == Some(default_in(tokens[k]))
        },
{
    let types = tokens[0]->Identifier_0;
    let n = tokens.len() as int;
    lemma_descriptor_types(types, tokens, n);
    lemma_descriptor_nullable(types, tokens, n);
    lemma_descriptor_amount(types, tokens, n);
    lemma_descriptor_size(types, tokens, n);
    lemma_descriptor_default(types, tokens, n);
}

} // verus!
