//! The structures of a schema as they are written: from the tokens of a
//! text to the fields of each structure, each with its [`PartialType`].
use vstd::prelude::*;
use vstd::slice::slice_subrange;
use crate::descriptor::partial_type_of;
use crate::descriptor::PartialTypeView;
use crate::error::result_view;
use crate::error::EbdbError;
use crate::error::EbdbErrorView;
use crate::error::EbdbResult;
use crate::name_map::lemma_find;
use crate::name_map::lemma_with_entry_distinct;
use crate::name_map::names_distinct;
use crate::name_map::with_entry;
use crate::name_map::NameMap;
use crate::text::message;
use crate::tokenizer::debug_text;
use crate::tokenizer::lemma_container_view;
use crate::tokenizer::token_debug_text;
use crate::tokenizer::Token;
use crate::tokenizer::TokenView;

pub use crate::descriptor::PartialType;
pub use crate::linker::link;

verus! {

/// The fields of one structure as they are written: each name with its
/// type.
pub struct PartialStructure {
    pub fields: NameMap<PartialType>,
}

/// The mathematical value of the fields of a structure as they are written.
pub type FieldsView = Seq<(Seq<char>, PartialTypeView)>;

impl DeepView for PartialStructure {
    type V = FieldsView;

    open spec fn deep_view(&self) -> FieldsView {
        self.fields.deep_view()
    }
}

/// How many tokens from `from` on stand before the next comma.
pub open spec fn descriptor_length(tokens: Seq<TokenView>, from: int) -> nat
    decreases tokens.len() - from,
{
    if 0 <= from < tokens.len() && tokens[from] != TokenView::Commas {
        1 + descriptor_length(tokens, from + 1)
    } else {
        0
    }
}

/// The fields that the body of a structure writes from `from` on, put into
/// `fields`.
///
/// A field is a name, then the tokens of its type up to the next comma or
/// to the end of the body. Where no token stands between the name and the
/// comma, there is no such field. A field whose name came before takes the
/// place of the earlier one.
pub open spec fn fields_from(tokens: Seq<TokenView>, from: int, fields: FieldsView) -> Result<
    FieldsView,
    EbdbErrorView,
>
    decreases
        (if from < tokens.len() {
            tokens.len() - from
        } else {
            0
        }),
{
    if from < 0 || from >= tokens.len() {
        Ok(fields)
    } else {
        match tokens[from] {
            TokenView::Identifier(name) => {
                let end = from + 1 + descriptor_length(tokens, from + 1);
                match partial_type_of(tokens.subrange(from + 1, end)) {
                    Err(e) => Err(e),
                    Ok(None) => fields_from(tokens, end + 1, fields),
                    Ok(Some(partial)) => fields_from(
                        tokens,
                        end + 1,
                        with_entry(fields, name, partial),
                    ),
                }
            },
            _ => Err(EbdbErrorView::Custom("Name not found for the structs"@)),
        }
    }
}

/// The fields that the body of a structure writes.
pub open spec fn partial_structure_of(tokens: Seq<TokenView>) -> Result<
    FieldsView,
    EbdbErrorView,
> {
    fields_from(tokens, 0, Seq::empty())
}

/// The structures of a schema as they are written: each name with its
/// fields.
pub type DeclaredView = Seq<(Seq<char>, FieldsView)>;

/// What has been read of a schema: the structures so far, and the name that
/// still waits for its body.
pub struct Collector {
    pub structures: NameMap<PartialStructure>,
    pub pending: Option<String>,
}

/// The mathematical value of a [`Collector`].
pub struct CollectorView {
    pub structures: DeclaredView,
    pub pending: Option<Seq<char>>,
}

impl DeepView for Collector {
    type V = CollectorView;

    open spec fn deep_view(&self) -> CollectorView {
        CollectorView {
            structures: self.structures.deep_view(),
            pending: self.pending.deep_view(),
        }
    }
}

/// The error for a token that cannot stand between structures.
pub open spec fn stray_token_error(token: TokenView) -> EbdbErrorView {
    EbdbErrorView::Custom("Invalid token for creation of struct: "@ + token_debug_text(token))
}

/// What one more token makes of a schema.
///
/// A structure is a name and, behind it, its body in curly brackets. A name
/// must find its body before the next name comes; a body must have a name
/// before it; nothing else can stand between structures. A structure whose
/// name came before takes the place of the earlier one.
pub open spec fn collector_step(before: CollectorView, token: TokenView) -> Result<
    CollectorView,
    EbdbErrorView,
> {
    match token {
        TokenView::Identifier(name) => if before.pending is Some {
            Err(EbdbErrorView::Custom("Cannot parse multiple name for Structs: "@ + name))
        } else {
            Ok(CollectorView { pending: Some(name), ..before })
        },
        TokenView::Curly(body) => match before.pending {
            Some(name) => match partial_structure_of(body) {
                Ok(fields) => Ok(
                    CollectorView {
                        structures: with_entry(before.structures, name, fields),
                        pending: None,
                    },
                ),
                Err(e) => Err(e),
            },
            None => Err(EbdbErrorView::Custom("Structs starts with a name"@)),
        },
        _ => Err(stray_token_error(token)),
    }
}

/// What the first `n` tokens make of a schema.
pub open spec fn collector_after(tokens: Seq<TokenView>, n: int) -> Result<
    CollectorView,
    EbdbErrorView,
>
    decreases n,
{
    if n <= 0 {
        Ok(CollectorView { structures: Seq::empty(), pending: None })
    } else {
        match collector_after(tokens, n - 1) {
            Ok(before) => collector_step(before, tokens[n - 1]),
            Err(e) => Err(e),
        }
    }
}

/// The structures that the tokens of a schema write. A name at the end that
/// no body follows is passed over.
pub open spec fn partial_structures_of(tokens: Seq<TokenView>) -> Result<
    DeclaredView,
    EbdbErrorView,
> {
    match collector_after(tokens, tokens.len() as int) {
        Ok(read) => Ok(read.structures),
        Err(e) => Err(e),
    }
}

/// Whether the structures have distinct names, and the fields of each
/// structure too.
pub open spec fn declared_distinct(declared: DeclaredView) -> bool {
    &&& names_distinct(declared)
    &&& forall|i: int| 0 <= i < declared.len() ==> names_distinct((#[trigger] declared[i]).1)
}

/// Where the tokens of the type end that begin at `from`.
fn descriptor_end(tokens: &Vec<Token>, from: usize) -> (end: usize)
    requires
        from <= tokens.len(),
    ensures
        end == from + descriptor_length(tokens.deep_view(), from as int),
        from <= end <= tokens.len(),
{
    let ghost views = tokens.deep_view();
    let mut end: usize = from;
    loop
        invariant
            views == tokens.deep_view(),
            from <= end <= tokens.len(),
            from + descriptor_length(views, from as int) == end + descriptor_length(
                views,
                end as int,
            ),
        decreases tokens.len() - end,
    {
        if end >= tokens.len() {
            return end;
        }
        match &tokens[end] {
            Token::Commas => {
                return end;
            },
            _ => {},
        }
        end += 1;
    }
}

impl PartialStructure {
    /// Reads the fields of a structure from the tokens of its body.
    pub fn from_tokens(tokens: Vec<Token>) -> (result: EbdbResult<Self>)
        ensures
            result_view(result) == partial_structure_of(tokens.deep_view()),
    {
        let ghost views = tokens.deep_view();
        let mut fields: NameMap<PartialType> = NameMap::new();
        let mut from: usize = 0;
        while from < tokens.len()
            invariant
                views == tokens.deep_view(),
                from <= tokens.len(),
                partial_structure_of(views) == fields_from(views, from as int, fields.deep_view()),
            decreases tokens.len() - from,
        {
            match &tokens[from] {
                Token::Identifier(name) => {
                    let end = descriptor_end(&tokens, from + 1);
                    let slice = slice_subrange(tokens.as_slice(), from + 1, end);
                    assert(slice.deep_view() =~= views.subrange(from + 1, end as int));
                    match PartialType::from_tokens(slice) {
                        Err(e) => {
                            return Err(e);
                        },
                        Ok(None) => {},
                        Ok(Some(partial)) => {
                            fields.insert(name.clone(), partial);
                        },
                    }
                    assert(partial_structure_of(views) == fields_from(
                        views,
                        end + 1,
                        fields.deep_view(),
                    ));
                    if end == tokens.len() {
                        return Ok(PartialStructure { fields });
                    }
                    from = end + 1;
                },
                _ => {
                    return Err(EbdbError::Custom("Name not found for the structs".to_owned()));
                },
            }
        }
        Ok(PartialStructure { fields })
    }
}

impl Collector {
    /// Reads one more token of a schema.
    pub fn read(self, token: Token) -> (result: EbdbResult<Collector>)
        ensures
            result_view(result) == collector_step(self.deep_view(), token.deep_view()),
    {
        let Collector { structures, pending } = self;
        let mut structures = structures;
        proof {
            lemma_container_view(token);
        }
        match token {
            Token::Identifier(name) => {
                if pending.is_some() {
                    Err(
                        EbdbError::Custom(
                            message("Cannot parse multiple name for Structs: ", name.as_str()),
                        ),
                    )
                } else {
                    Ok(Collector { structures, pending: Some(name) })
                }
            },
            Token::Curly(body) => {
                match pending {
                    Some(name) => {
                        match PartialStructure::from_tokens(body) {
                            Ok(fields) => {
                                structures.insert(name, fields);
                                Ok(Collector { structures, pending: None })
                            },
                            Err(e) => Err(e),
                        }
                    },
                    None => Err(EbdbError::Custom("Structs starts with a name".to_owned())),
                }
            },
            other => {
                let text = debug_text(&other);
                Err(
                    EbdbError::Custom(
                        message("Invalid token for creation of struct: ", text.as_str()),
                    ),
                )
            },
        }
    }
}

/// Reads the structures of a schema from its tokens.
pub fn parse(tokens: Vec<Token>) -> (result: EbdbResult<NameMap<PartialStructure>>)
    ensures
        result_view(result) == partial_structures_of(tokens.deep_view()),
        result matches Ok(partials) ==> declared_distinct(partials.deep_view()),
{
    let ghost views = tokens.deep_view();
    let ghost count = tokens.len() as int;
    let mut read = Collector { structures: NameMap::new(), pending: None };
    for token in it: tokens.into_iter()
        invariant
            it.seq() == tokens@,
            views == tokens.deep_view(),
            count == tokens.len(),
            collector_after(views, it.index()) == Ok::<CollectorView, EbdbErrorView>(
                read.deep_view(),
            ),
    {
        match read.read(token) {
            Ok(next) => {
                read = next;
            },
            Err(e) => {
                proof {
                    lemma_collector_error_stays(views, it.index() + 1, count);
                }
                return Err(e);
            },
        }
    }
    proof {
        lemma_collector_distinct(views, count);
    }
    Ok(read.structures)
}

/// The tokens of a field's type end inside the body, at a comma if they end
/// before the end of the body.
pub proof fn lemma_descriptor_length(tokens: Seq<TokenView>, from: int)
    requires
        0 <= from <= tokens.len(),
    ensures
        from + descriptor_length(tokens, from) <= tokens.len(),
        from + descriptor_length(tokens, from) < tokens.len() ==> tokens[from + descriptor_length(
            tokens,
            from,
        )] == TokenView::Commas,
        forall|i: int|
            from <= i < from + descriptor_length(tokens, from) ==> #[trigger] tokens[i]
                != TokenView::Commas,
    decreases tokens.len() - from,
{
    if from < tokens.len() && tokens[from] != TokenView::Commas {
        lemma_descriptor_length(tokens, from + 1);
    }
}

/// Once a token has been refused, the tokens behind it change nothing.
pub proof fn lemma_collector_error_stays(tokens: Seq<TokenView>, n: int, m: int)
    requires
        n <= m,
        collector_after(tokens, n) is Err,
    ensures
        collector_after(tokens, m) == collector_after(tokens, n),
    decreases m - n,
{
    if n < m {
        lemma_collector_error_stays(tokens, n, m - 1);
    }
}

/// The fields of a structure have distinct names.
pub proof fn lemma_fields_distinct(tokens: Seq<TokenView>, from: int, fields: FieldsView)
    requires
        names_distinct(fields),
        fields_from(tokens, from, fields) is Ok,
    ensures
        names_distinct(fields_from(tokens, from, fields)->Ok_0),
    decreases
        (if from < tokens.len() {
            tokens.len() - from
        } else {
            0
        }),
{
    if 0 <= from < tokens.len() {
        if let TokenView::Identifier(name) = tokens[from] {
            let end = from + 1 + descriptor_length(tokens, from + 1);
            match partial_type_of(tokens.subrange(from + 1, end)) {
                Ok(None) => {
                    lemma_fields_distinct(tokens, end + 1, fields);
                },
                Ok(Some(partial)) => {
                    lemma_with_entry_distinct(fields, name, partial);
                    lemma_fields_distinct(tokens, end + 1, with_entry(fields, name, partial));
                },
                Err(_) => {},
            }
        }
    }
}

/// The structures that are read have distinct names, and so have the fields
/// of each.
pub proof fn lemma_collector_distinct(tokens: Seq<TokenView>, n: int)
    requires
        n <= tokens.len(),
        collector_after(tokens, n) is Ok,
    ensures
        declared_distinct(collector_after(tokens, n)->Ok_0.structures),
    decreases n,
{
    if n > 0 {
        if collector_after(tokens, n - 1) is Err {
            lemma_collector_error_stays(tokens, n - 1, n);
        }
        lemma_collector_distinct(tokens, n - 1);
        let before = collector_after(tokens, n - 1)->Ok_0;
        if let TokenView::Curly(body) = tokens[n - 1] {
            let name = before.pending->0;
            let fields = partial_structure_of(body)->Ok_0;
            lemma_fields_distinct(body, 0, Seq::empty());
            lemma_with_entry_distinct(before.structures, name, fields);
            lemma_find(before.structures, name, 0);
        }
    }
}

} // verus!
