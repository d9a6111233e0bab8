//! Linking: every field of every structure gets its type, and every name
//! of a structure is looked up among the structures of the same schema.
use vstd::prelude::*;
use vstd::string::StringExecFns;
use crate::descriptor::PartialType;
use crate::descriptor::PartialTypeView;
use crate::error::result_view;
use crate::error::EbdbError;
use crate::error::EbdbErrorView;
use crate::error::EbdbResult;
use crate::literal::bool_of;
use crate::literal::i128_of;
use crate::literal::is_float_literal;
use crate::literal::parse_bool;
use crate::literal::parse_i128;
use crate::literal::parse_u128;
use crate::literal::u128_of;
use crate::literal::FloatLiteral;
use crate::model::Defaults;
use crate::model::Structure;
use crate::model::StructureView;
use crate::model::Type;
use crate::model::TypeView;
use crate::name_map::has_name;
use crate::name_map::lemma_find;
use crate::name_map::lemma_has_name;
use crate::name_map::names_distinct;
use crate::name_map::position;
use crate::name_map::with_entry;
use crate::name_map::NameMap;
use crate::partials::declared_distinct;
use crate::partials::DeclaredView;
use crate::partials::FieldsView;
use crate::partials::PartialStructure;
use crate::text::message;
use crate::text::same_text;

verus! {

/// Whether `types` is the name of one of the types that are built in.
pub open spec fn is_builtin(types: Seq<char>) -> bool {
    types == "int"@ || types == "uint"@ || types == "float"@ || types == "char"@ || types
        == "bool"@
}

/// The default of a field: `Required` where none was written, `Null` for
/// `null`, and for a quoted text what `convert` makes of it; nothing where
/// `convert` makes nothing of it.
pub open spec fn resolved<T>(
    default: Option<Option<Seq<char>>>,
    convert: spec_fn(Seq<char>) -> Option<T>,
) -> Option<Defaults<T>> {
    match default {
        None => Some(Defaults::Required),
        Some(None) => Some(Defaults::Null),
        Some(Some(text)) => match convert(text) {
            Some(value) => Some(Defaults::Value(value)),
            None => None,
        },
    }
}

/// The size of a numeric type: 0 where none was written.
pub open spec fn size_or_zero(size: Option<usize>) -> usize {
    match size {
        Some(size) => size,
        None => 0,
    }
}

/// A floating-point literal is kept as it is written.
pub open spec fn float_of(text: Seq<char>) -> Option<Seq<char>> {
    if is_float_literal(text) {
        Some(text)
    } else {
        None
    }
}

/// The error for a default that is not written as its type asks.
pub open spec fn default_error(partial: PartialTypeView, field: Seq<char>) -> EbdbErrorView {
    EbdbErrorView::Custom(
        "Cannot read the default of "@ + field + " as "@ + partial.types + ": "@
            + partial.default->0->0,
    )
}

/// The error for a size on a type that takes none.
pub open spec fn size_error(field: Seq<char>) -> EbdbErrorView {
    EbdbErrorView::Custom("String uses square braquets for they size: "@ + field)
}

/// The error for a type that is neither built in nor declared.
pub open spec fn undefined_error(types: Seq<char>) -> EbdbErrorView {
    EbdbErrorView::Custom("Type '"@ + types + "' has no been defined"@)
}

/// The type of the field `field`, written as `partial`, in a schema that
/// declares the structures `declared`.
///
/// - `int`, `uint` and `float` are the numeric types. Their size is the
///   one written, or 0.
/// - `char` is text and `bool` a truth value. Neither takes a size.
/// - Any other name must be that of a declared structure, wherever in the
///   schema that structure stands.
///
/// A default that is a quoted text must be written as its type asks.
pub open spec fn type_of(declared: DeclaredView, field: Seq<char>, partial: PartialTypeView) -> Result<
    TypeView,
    EbdbErrorView,
> {
    let PartialTypeView { types, size, default, amount, nullable } = partial;
    if types == "int"@ {
        match resolved(default, |text: Seq<char>| i128_of(text)) {
            Some(default) => Ok(
                TypeView::Integer { amount, size: size_or_zero(size), default, nullable },
            ),
            None => Err(default_error(partial, field)),
        }
    } else if types == "uint"@ {
        match resolved(default, |text: Seq<char>| u128_of(text)) {
            Some(default) => Ok(
                TypeView::UnsignedInteger { amount, size: size_or_zero(size), default, nullable },
            ),
            None => Err(default_error(partial, field)),
        }
    } else if types == "float"@ {
        match resolved(default, |text: Seq<char>| float_of(text)) {
            Some(default) => Ok(
                TypeView::Float { amount, size: size_or_zero(size), default, nullable },
            ),
            None => Err(default_error(partial, field)),
        }
    } else if types == "char"@ {
        if size is Some {
            Err(size_error(field))
        } else {
            match resolved(default, |text: Seq<char>| Some(text)) {
                Some(default) => Ok(TypeView::Text { amount, default, nullable }),
                None => Err(default_error(partial, field)),
            }
        }
    } else if types == "bool"@ {
        if size is Some {
            Err(size_error(field))
        } else {
            match resolved(default, |text: Seq<char>| bool_of(text)) {
                Some(default) => Ok(TypeView::Boolean { amount, default, nullable }),
                None => Err(default_error(partial, field)),
            }
        }
    } else if has_name(declared, types) {
        Ok(TypeView::Datatype { amount, types, nullable })
    } else {
        Err(undefined_error(types))
    }
}

/// The types of the first `n` fields of `fields`.
pub open spec fn fields_after(declared: DeclaredView, fields: FieldsView, n: int) -> Result<
    Seq<(Seq<char>, TypeView)>,
    EbdbErrorView,
>
    decreases n,
{
    if n <= 0 {
        Ok(Seq::empty())
    } else {
        match fields_after(declared, fields, n - 1) {
            Ok(before) => match type_of(declared, fields[n - 1].0, fields[n - 1].1) {
                Ok(resolved) => Ok(with_entry(before, fields[n - 1].0, resolved)),
                Err(e) => Err(e),
            },
            Err(e) => Err(e),
        }
    }
}

/// The structure that stands at place `at` among `declared`, with the type
/// of each of its fields.
pub open spec fn structure_of(declared: DeclaredView, at: int) -> Result<
    StructureView,
    EbdbErrorView,
> {
    match fields_after(declared, declared[at].1, declared[at].1.len() as int) {
        Ok(fields) => Ok(StructureView { name: declared[at].0, fields }),
        Err(e) => Err(e),
    }
}

/// The first `n` structures of `declared`, with the type of each field.
pub open spec fn structures_after(declared: DeclaredView, n: int) -> Result<
    Seq<StructureView>,
    EbdbErrorView,
>
    decreases n,
{
    if n <= 0 {
        Ok(Seq::empty())
    } else {
        match structures_after(declared, n - 1) {
            Ok(before) => match structure_of(declared, n - 1) {
                Ok(structure) => Ok(before.push(structure)),
                Err(e) => Err(e),
            },
            Err(e) => Err(e),
        }
    }
}

/// The schema that `declared` writes: its structures in their order, each
/// field with its type, or the error of the first field that has none.
pub open spec fn linked(declared: DeclaredView) -> Result<Seq<StructureView>, EbdbErrorView> {
    structures_after(declared, declared.len() as int)
}

/// What holds of every schema: no two structures have the same name, no two
/// fields of a structure have the same name, and every field whose type is
/// a structure names a structure of the schema.
pub open spec fn schema_well_formed(structures: Seq<StructureView>) -> bool {
    &&& forall|i: int, j: int|
        0 <= i < j < structures.len() ==> (#[trigger] structures[i]).name
            != (#[trigger] structures[j]).name
    &&& forall|i: int|
        0 <= i < structures.len() ==> names_distinct((#[trigger] structures[i]).fields)
    &&& forall|i: int, f: int|
        0 <= i < structures.len() && 0 <= f < structures[i].fields.len() ==> (
        #[trigger] structures[i].fields[f].1 matches TypeView::Datatype { types, .. }
            ==> exists|j: int| 0 <= j < structures.len() && (#[trigger] structures[j]).name == types)
}

/// The error for a default that is not written as its type asks.
fn default_failure(partial: &PartialType, field: &String, text: &String) -> (error: EbdbError)
    requires
        partial.default == Some(Some(*text)),
    ensures
        error.deep_view() == default_error(partial.deep_view(), field@),
{
    EbdbError::Custom(
        message("Cannot read the default of ", field.as_str()).concat(" as ").concat(
            partial.types.as_str(),
        ).concat(": ").concat(text.as_str()),
    )
}

/// The type of the field `field`, written as `types`, in a schema that
/// declares the structures `partials`.
pub fn parse_type_info(
    partials: &NameMap<PartialStructure>,
    field: &String,
    types: &PartialType,
) -> (result: EbdbResult<Type>)
    ensures
        result_view(result) == type_of(partials.deep_view(), field@, types.deep_view()),
{
    let name = types.types.as_str();
    let amount = types.amount;
    let nullable = types.nullable;
    let size = match types.size {
        Some(size) => size,
        None => 0,
    };
    if same_text(name, "int") {
        let default = match &types.default {
            None => Defaults::Required,
            Some(None) => Defaults::Null,
            Some(Some(text)) => match parse_i128(text.as_str()) {
                Some(value) => Defaults::Value(value),
                None => {
                    return Err(default_failure(types, field, text));
                },
            },
        };
        Ok(Type::Integer { amount, size, default, nullable })
    } else if same_text(name, "uint") {
        let default = match &types.default {
            None => Defaults::Required,
            Some(None) => Defaults::Null,
            Some(Some(text)) => match parse_u128(text.as_str()) {
                Some(value) => Defaults::Value(value),
                None => {
                    return Err(default_failure(types, field, text));
                },
            },
        };
        Ok(Type::UnsignedInteger { amount, size, default, nullable })
    } else if same_text(name, "float") {
        let default = match &types.default {
            None => Defaults::Required,
            Some(None) => Defaults::Null,
            Some(Some(text)) => match FloatLiteral::parse(text.as_str()) {
                Some(value) => Defaults::Value(value),
                None => {
                    return Err(default_failure(types, field, text));
                },
            },
        };
        Ok(Type::Float { amount, size, default, nullable })
    } else if same_text(name, "char") {
        if types.size.is_some() {
            return Err(
                EbdbError::Custom(
                    message("String uses square braquets for they size: ", field.as_str()),
                ),
            );
        }
        let default = match &types.default {
            None => Defaults::Required,
            Some(None) => Defaults::Null,
            Some(Some(text)) => Defaults::Value(text.clone()),
        };
        Ok(Type::Text { amount, default, nullable })
    } else if same_text(name, "bool") {
        if types.size.is_some() {
            return Err(
                EbdbError::Custom(
                    message("String uses square braquets for they size: ", field.as_str()),
                ),
            );
        }
        let default = match &types.default {
            None => Defaults::Required,
            Some(None) => Defaults::Null,
            Some(Some(text)) => match parse_bool(text.as_str()) {
                Some(value) => Defaults::Value(value),
                None => {
                    return Err(default_failure(types, field, text));
                },
            },
        };
        Ok(Type::Boolean { amount, default, nullable })
    } else if partials.contains_key(name) {
        Ok(Type::Datatype { amount, types: types.types.clone(), nullable })
    } else {
        Err(EbdbError::Custom(message("Type '", name).concat("' has no been defined")))
    }
}

/// The structure at place `at` of `partials`, with the type of each field.
fn link_structure(partials: &NameMap<PartialStructure>, at: usize) -> (result: EbdbResult<
    Structure,
>)
    requires
        at < partials.deep_view().len(),
    ensures
        result_view(result) == structure_of(partials.deep_view(), at as int),
        names_distinct(partials.deep_view()[at as int].1),
{
    let ghost declared = partials.deep_view();
    let partial = partials.value_at(at);
    let ghost written = partial.deep_view();
    proof {
        use_type_invariant(&partial.fields);
        partial.fields.lemma_names_distinct();
    }
    let mut fields: NameMap<Type> = NameMap::new();
    let count = partial.fields.len();
    let mut i: usize = 0;
    while i < count
        invariant
            declared == partials.deep_view(),
            written == partial.fields.deep_view(),
            at < declared.len(),
            written == declared[at as int].1,
            names_distinct(written),
            count == written.len(),
            i <= count,
            fields_after(declared, written, i as int) == Ok::<
                Seq<(Seq<char>, TypeView)>,
                EbdbErrorView,
            >(fields.deep_view()),
        decreases count - i,
    {
        let field = partial.fields.name_at(i);
        match parse_type_info(partials, field, partial.fields.value_at(i)) {
            Ok(resolved) => {
                fields.insert(field.clone(), resolved);
            },
            Err(e) => {
                proof {
                    lemma_fields_error_stays(declared, written, i + 1, count as int);
                }
                return Err(e);
            },
        }
        i += 1;
    }
    Ok(Structure::new(partials.name_at(at).clone(), fields))
}

/// Gives every field of every structure its type.
pub fn link(partials: NameMap<PartialStructure>) -> (result: EbdbResult<Vec<Structure>>)
    ensures
        result_view(result) == linked(partials.deep_view()),
        result matches Ok(structures) ==> schema_well_formed(structures.deep_view()),
{
    let ghost declared = partials.deep_view();
    proof {
        use_type_invariant(&partials);
        partials.lemma_names_distinct();
    }
    let mut structures: Vec<Structure> = Vec::new();
    let count = partials.len();
    let mut at: usize = 0;
    assert(structures.deep_view() =~= Seq::<StructureView>::empty());
    while at < count
        invariant
            declared == partials.deep_view(),
            count == declared.len(),
            at <= count,
            names_distinct(declared),
            forall|i: int| 0 <= i < at ==> names_distinct((#[trigger] declared[i]).1),
            structures_after(declared, at as int) == Ok::<Seq<StructureView>, EbdbErrorView>(
                structures.deep_view(),
            ),
        decreases count - at,
    {
        match link_structure(&partials, at) {
            Ok(structure) => {
                let ghost before = structures.deep_view();
                structures.push(structure);
                assert(structures.deep_view() =~= before.push(structure.deep_view()));
            },
            Err(e) => {
                proof {
                    lemma_structures_error_stays(declared, at + 1, count as int);
                }
                return Err(e);
            },
        }
        at += 1;
    }
    proof {
        lemma_linked_well_formed(declared);
    }
    Ok(structures)
}

/// The names of the built-in types are five different names.
pub proof fn lemma_builtin_names()
    ensures
        "int"@ != "uint"@,
        "int"@ != "float"@,
        "int"@ != "char"@,
        "int"@ != "bool"@,
        "uint"@ != "float"@,
        "uint"@ != "char"@,
        "uint"@ != "bool"@,
        "float"@ != "char"@,
        "float"@ != "bool"@,
        "char"@ != "bool"@,
{
    reveal_strlit("int");
    reveal_strlit("uint");
    reveal_strlit("float");
    reveal_strlit("char");
    reveal_strlit("bool");
    assert("float"@.len() == 5);
    assert("uint"@.len() == 4 && "uint"@[0] == 'u');
    assert("char"@.len() == 4 && "char"@[0] == 'c');
    assert("bool"@.len() == 4 && "bool"@[0] == 'b');
}

/// The type of a field has the amount that was written and is nullable
/// exactly if that was written; a numeric type has the size that was
/// written, or 0.
pub proof fn lemma_type_keeps(declared: DeclaredView, field: Seq<char>, partial: PartialTypeView)
    requires
        type_of(declared, field, partial) is Ok,
    ensures
        type_of(declared, field, partial)->Ok_0.amount() == partial.amount,
        type_of(declared, field, partial)->Ok_0.nullable() == partial.nullable,
        match type_of(declared, field, partial)->Ok_0 {
            TypeView::Integer { size, .. } => size == size_or_zero(partial.size),
            TypeView::UnsignedInteger { size, .. } => size == size_or_zero(partial.size),
            TypeView::Float { size, .. } => size == size_or_zero(partial.size),
            _ => true,
        },
{
}

/// How the default of a built-in type comes out: `Required` exactly where
/// none was written, `Null` exactly where `null` was written, and where a
/// text was written, the value that the text gives for that type.
pub proof fn lemma_default_resolved(
    declared: DeclaredView,
    field: Seq<char>,
    partial: PartialTypeView,
)
    requires
        is_builtin(partial.types),
        type_of(declared, field, partial) is Ok,
    ensures
        type_of(declared, field, partial)->Ok_0.is_required() <==> partial.default is None,
        type_of(declared, field, partial)->Ok_0.is_null() <==> partial.default == Some(
            None::<Seq<char>>,
        ),
        partial.default matches Some(Some(text)) ==> match type_of(declared, field, partial)->Ok_0 {
            TypeView::Integer { default, .. } => i128_of(text) == Some(default->Value_0)
                && default is Value,
            TypeView::UnsignedInteger { default, .. } => u128_of(text) == Some(default->Value_0)
                && default is Value,
            TypeView::Float { default, .. } => is_float_literal(text) && default
                == Defaults::Value(text),
            TypeView::Text { default, .. } => default == Defaults::Value(text),
            TypeView::Boolean { default, .. } => bool_of(text) == Some(default->Value_0)
                && default is Value,
            TypeView::Datatype { .. } => false,
        },
{
    lemma_builtin_names();
}

/// A default that is written, and not as its type asks, is refused.
pub proof fn lemma_default_refused(declared: DeclaredView, field: Seq<char>, partial: PartialTypeView)
    requires
        partial.default matches Some(Some(text)) && {
            ||| partial.types == "int"@ && i128_of(text) is None
            ||| partial.types == "uint"@ && u128_of(text) is None
            ||| partial.types == "float"@ && !is_float_literal(text)
            ||| partial.types == "bool"@ && bool_of(text) is None && partial.size is None
        },
    ensures
        type_of(declared, field, partial) == Err::<TypeView, _>(default_error(partial, field)),
{
    lemma_builtin_names();
}

/// `char` and `bool` take no size: a field of such a type that has one is
/// refused.
pub proof fn lemma_size_refused(declared: DeclaredView, field: Seq<char>, partial: PartialTypeView)
    requires
        partial.types == "char"@ || partial.types == "bool"@,
        partial.size is Some,
    ensures
        type_of(declared, field, partial) == Err::<TypeView, _>(size_error(field)),
{
    lemma_builtin_names();
}

/// A name that is not built in is the name of a structure: the field gets
/// the type `Datatype` where such a structure is declared, whatever its
/// place among the structures, and is refused where none is.
pub proof fn lemma_reference(declared: DeclaredView, field: Seq<char>, partial: PartialTypeView)
    requires
        !is_builtin(partial.types),
    ensures
        (exists|at: int| 0 <= at < declared.len() && (#[trigger] declared[at]).0 == partial.types)
            ==> type_of(declared, field, partial) == Ok::<_, EbdbErrorView>(
            TypeView::Datatype {
                amount: partial.amount,
                types: partial.types,
                nullable: partial.nullable,
            },
        ),
        (forall|at: int| 0 <= at < declared.len() ==> (#[trigger] declared[at]).0 != partial.types)
            ==> type_of(declared, field, partial) == Err::<TypeView, _>(
            undefined_error(partial.types),
        ),
{
    lemma_has_name(declared, partial.types);
}

/// A type that names a structure names a declared one.
pub proof fn lemma_reference_declared(
    declared: DeclaredView,
    field: Seq<char>,
    partial: PartialTypeView,
)
    ensures
        type_of(declared, field, partial) matches Ok(TypeView::Datatype { types, .. })
            ==> has_name(declared, types),
{
}

/// Once a field has no type, the fields behind it change nothing.
pub proof fn lemma_fields_error_stays(declared: DeclaredView, fields: FieldsView, n: int, m: int)
    requires
        n <= m,
        fields_after(declared, fields, n) is Err,
    ensures
        fields_after(declared, fields, m) == fields_after(declared, fields, n),
    decreases m - n,
{
    if n < m {
        lemma_fields_error_stays(declared, fields, n, m - 1);
    }
}

/// Once a structure has a field without a type, the structures behind it
/// change nothing.
pub proof fn lemma_structures_error_stays(declared: DeclaredView, n: int, m: int)
    requires
        n <= m,
        structures_after(declared, n) is Err,
    ensures
        structures_after(declared, m) == structures_after(declared, n),
    decreases m - n,
{
    if n < m {
        lemma_structures_error_stays(declared, n, m - 1);
    }
}

/// Where the first `n` fields all got their type, so did the first `k`.
pub proof fn lemma_fields_accepted(declared: DeclaredView, fields: FieldsView, k: int, n: int)
    requires
        k <= n,
        fields_after(declared, fields, n) is Ok,
    ensures
        fields_after(declared, fields, k) is Ok,
{
    if fields_after(declared, fields, k) is Err {
        lemma_fields_error_stays(declared, fields, k, n);
    }
}

/// Where the first `n` structures were all linked, so were the first `k`.
pub proof fn lemma_structures_accepted(declared: DeclaredView, k: int, n: int)
    requires
        k <= n,
        structures_after(declared, n) is Ok,
    ensures
        structures_after(declared, k) is Ok,
{
    if structures_after(declared, k) is Err {
        lemma_structures_error_stays(declared, k, n);
    }
}

/// The typed fields of a structure are its written fields, one for one and
/// in their order, each with the type that `type_of` gives it.
pub proof fn lemma_fields_typed(declared: DeclaredView, fields: FieldsView, n: int)
    requires
        0 <= n <= fields.len(),
        names_distinct(fields),
        fields_after(declared, fields, n) is Ok,
    ensures
        fields_after(declared, fields, n)->Ok_0.len() == n,
        forall|i: int|
            0 <= i < n ==> {
                &&& (#[trigger] fields_after(declared, fields, n)->Ok_0[i]).0 == fields[i].0
                &&& type_of(declared, fields[i].0, fields[i].1) == Ok::<_, EbdbErrorView>(
                    fields_after(declared, fields, n)->Ok_0[i].1,
                )
            },
    decreases n,
{
    if n > 0 {
        lemma_fields_accepted(declared, fields, n - 1, n);
        lemma_fields_typed(declared, fields, n - 1);
        let before = fields_after(declared, fields, n - 1)->Ok_0;
        let name = fields[n - 1].0;
        lemma_find(before, name, 0);
    }
}

/// The linked structures are the written ones, one for one and in their
/// order.
pub proof fn lemma_structures_linked(declared: DeclaredView, n: int)
    requires
        0 <= n <= declared.len(),
        structures_after(declared, n) is Ok,
    ensures
        structures_after(declared, n)->Ok_0.len() == n,
        forall|i: int|
            0 <= i < n ==> structure_of(declared, i) == Ok::<_, EbdbErrorView>(
                #[trigger] structures_after(declared, n)->Ok_0[i],
            ),
    decreases n,
{
    if n > 0 {
        lemma_structures_accepted(declared, n - 1, n);
        lemma_structures_linked(declared, n - 1);
    }
}

/// One field without a type is enough for linking to fail.
pub proof fn lemma_field_without_type(declared: DeclaredView, at: int, field: int)
    requires
        0 <= at < declared.len(),
        0 <= field < declared[at].1.len(),
        type_of(declared, declared[at].1[field].0, declared[at].1[field].1) is Err,
    ensures
        linked(declared) is Err,
{
    let fields = declared[at].1;
    if fields_after(declared, fields, field) is Err {
        lemma_fields_error_stays(declared, fields, field, field + 1);
    }
    lemma_fields_error_stays(declared, fields, field + 1, fields.len() as int);
    if structures_after(declared, at) is Err {
        lemma_structures_error_stays(declared, at, at + 1);
    }
    lemma_structures_error_stays(declared, at + 1, declared.len() as int);
}

/// A field whose type is neither built in nor the name of a declared
/// structure makes linking fail.
pub proof fn lemma_undeclared_type(declared: DeclaredView, at: int, field: int)
    requires
        0 <= at < declared.len(),
        0 <= field < declared[at].1.len(),
        !is_builtin(declared[at].1[field].1.types),
        forall|other: int|
            0 <= other < declared.len() ==> (#[trigger] declared[other]).0
                != declared[at].1[field].1.types,
    ensures
        linked(declared) is Err,
{
    lemma_reference(declared, declared[at].1[field].0, declared[at].1[field].1);
    lemma_field_without_type(declared, at, field);
}

/// A `char` or `bool` field with a size makes linking fail.
pub proof fn lemma_sized_text(declared: DeclaredView, at: int, field: int)
    requires
        0 <= at < declared.len(),
        0 <= field < declared[at].1.len(),
        declared[at].1[field].1.types == "char"@ || declared[at].1[field].1.types == "bool"@,
        declared[at].1[field].1.size is Some,
    ensures
        linked(declared) is Err,
{
    lemma_size_refused(declared, declared[at].1[field].0, declared[at].1[field].1);
    lemma_field_without_type(declared, at, field);
}

/// Where the first `n` fields all have a type, they all get it.
pub proof fn lemma_fields_succeed(declared: DeclaredView, fields: FieldsView, n: int)
    requires
        0 <= n <= fields.len(),
        forall|i: int| 0 <= i < n ==> type_of(declared, fields[i].0, (#[trigger] fields[i]).1) is Ok,
    ensures
        fields_after(declared, fields, n) is Ok,
    decreases n,
{
    if n > 0 {
        lemma_fields_succeed(declared, fields, n - 1);
    }
}

/// Linking succeeds exactly if every field of every structure has a type.
pub proof fn lemma_linked_exactly(declared: DeclaredView)
    ensures
        linked(declared) is Ok <==> forall|at: int, field: int|
            0 <= at < declared.len() && 0 <= field < declared[at].1.len() ==> type_of(
                declared,
                declared[at].1[field].0,
                #[trigger] declared[at].1[field].1,
            ) is Ok,
{
    if forall|at: int, field: int|
        0 <= at < declared.len() && 0 <= field < declared[at].1.len() ==> type_of(
            declared,
            declared[at].1[field].0,
            #[trigger] declared[at].1[field].1,
        ) is Ok {
        lemma_structures_succeed(declared, declared.len() as int);
    } else {
        let (at, field) = choose|at: int, field: int|
            0 <= at < declared.len() && 0 <= field < declared[at].1.len() && !(type_of(
                declared,
                declared[at].1[field].0,
                #[trigger] declared[at].1[field].1,
            ) is Ok);
        lemma_field_without_type(declared, at, field);
    }
}

/// Where every field of the first `n` structures has a type, these
/// structures are all linked.
proof fn lemma_structures_succeed(declared: DeclaredView, n: int)
    requires
        0 <= n <= declared.len(),
        forall|at: int, field: int|
            0 <= at < declared.len() && 0 <= field < declared[at].1.len() ==> type_of(
                declared,
                declared[at].1[field].0,
                #[trigger] declared[at].1[field].1,
            ) is Ok,
    ensures
        structures_after(declared, n) is Ok,
    decreases n,
{
    if n > 0 {
        lemma_structures_succeed(declared, n - 1);
        let fields = declared[n - 1].1;
        assert forall|i: int| 0 <= i < fields.len() implies type_of(
            declared,
            fields[i].0,
            (#[trigger] fields[i]).1,
        ) is Ok by {}
        lemma_fields_succeed(declared, fields, fields.len() as int);
    }
}

/// Linking structures whose names are distinct gives a well-formed schema.
pub proof fn lemma_linked_well_formed(declared: DeclaredView)
    requires
        declared_distinct(declared),
        linked(declared) is Ok,
    ensures
        schema_well_formed(linked(declared)->Ok_0),
{
    let structures = linked(declared)->Ok_0;
    lemma_structures_linked(declared, declared.len() as int);
    assert forall|i: int| 0 <= i < structures.len() implies {
        &&& (#[trigger] structures[i]).name == declared[i].0
        &&& names_distinct(structures[i].fields)
        &&& forall|f: int|
            0 <= f < structures[i].fields.len() ==> (
            #[trigger] structures[i].fields[f].1 matches TypeView::Datatype { types, .. }
                ==> has_name(declared, types))
    } by {
        let fields = declared[i].1;
        lemma_fields_typed(declared, fields, fields.len() as int);
        let typed = structures[i].fields;
        assert forall|a: int, b: int| 0 <= a < b < typed.len() implies (#[trigger] typed[a]).0 != (
        #[trigger] typed[b]).0 by {}
    }
    assert forall|i: int, f: int|
        0 <= i < structures.len() && 0 <= f < structures[i].fields.len() implies (
    #[trigger] structures[i].fields[f].1 matches TypeView::Datatype { types, .. } ==> exists|
        j: int,
    | 0 <= j < structures.len() && (#[trigger] structures[j]).name == types) by {
        if let TypeView::Datatype { types, .. } = structures[i].fields[f].1 {
            lemma_find(declared, types, 0);
            let j = position(declared, types);
            assert(structures[j].name == types);
        }
    }
    assert forall|i: int, j: int| 0 <= i < j < structures.len() implies (
    #[trigger] structures[i]).name != (#[trigger] structures[j]).name by {}
}

} // verus!
