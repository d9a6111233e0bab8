//! The schema that linking gives: structures, and the types of their fields.
use vstd::prelude::*;
use crate::literal::FloatLiteral;
use crate::name_map::names_distinct;
use crate::name_map::value_of;
use crate::name_map::NameMap;

verus! {

/// What a field holds when a record does not say.
#[derive(Debug)]
pub enum Defaults<T> {
    /// This value.
    Value(T),
    /// Nothing: the field was declared with `null`.
    Null,
    /// The field has no default: every record must give it a value.
    Required,
}

impl<T: DeepView> DeepView for Defaults<T> {
    type V = Defaults<T::V>;

    open spec fn deep_view(&self) -> Defaults<T::V> {
        match self {
            Defaults::Value(value) => Defaults::Value(value.deep_view()),
            Defaults::Null => Defaults::Null,
            Defaults::Required => Defaults::Required,
        }
    }
}

/// The type of a field.
///
/// `amount` says how many values the field holds: 1 for a single value, 0
/// for as many as a record brings, any other number for exactly that many.
/// `size` is the number in round brackets behind a numeric type, 0 where
/// there was none.
#[derive(Debug)]
#[allow(inconsistent_fields)]
pub enum Type {
    /// `int`
    Integer { amount: usize, size: usize, default: Defaults<i128>, nullable: bool },
    /// `uint`
    UnsignedInteger { amount: usize, size: usize, default: Defaults<u128>, nullable: bool },
    /// `float`; its default is kept as it was written.
    Float { amount: usize, size: usize, default: Defaults<FloatLiteral>, nullable: bool },
    /// `char`
    Text { amount: usize, default: Defaults<String>, nullable: bool },
    /// `bool`
    Boolean { amount: usize, default: Defaults<bool>, nullable: bool },
    /// Another structure of the same schema, by its name.
    Datatype { amount: usize, types: String, nullable: bool },
}

/// The mathematical value of a [`Type`].
#[allow(inconsistent_fields)]
pub enum TypeView {
    Integer { amount: usize, size: usize, default: Defaults<i128>, nullable: bool },
    UnsignedInteger { amount: usize, size: usize, default: Defaults<u128>, nullable: bool },
    Float { amount: usize, size: usize, default: Defaults<Seq<char>>, nullable: bool },
    Text { amount: usize, default: Defaults<Seq<char>>, nullable: bool },
    Boolean { amount: usize, default: Defaults<bool>, nullable: bool },
    Datatype { amount: usize, types: Seq<char>, nullable: bool },
}

impl DeepView for Type {
    type V = TypeView;

    open spec fn deep_view(&self) -> TypeView {
        match self {
            Type::Integer { amount, size, default, nullable } => TypeView::Integer {
                amount: *amount,
                size: *size,
                default: default.deep_view(),
                nullable: *nullable,
            },
            Type::UnsignedInteger { amount, size, default, nullable } => TypeView::UnsignedInteger {
                amount: *amount,
                size: *size,
                default: default.deep_view(),
                nullable: *nullable,
            },
            Type::Float { amount, size, default, nullable } => TypeView::Float {
                amount: *amount,
                size: *size,
                default: default.deep_view(),
                nullable: *nullable,
            },
            Type::Text { amount, default, nullable } => TypeView::Text {
                amount: *amount,
                default: default.deep_view(),
                nullable: *nullable,
            },
            Type::Boolean { amount, default, nullable } => TypeView::Boolean {
                amount: *amount,
                default: default.deep_view(),
                nullable: *nullable,
            },
            Type::Datatype { amount, types, nullable } => TypeView::Datatype {
                amount: *amount,
                types: types@,
                nullable: *nullable,
            },
        }
    }
}

impl TypeView {
    /// How many values a field of this type holds.
    pub open spec fn amount(self) -> usize {
        match self {
            TypeView::Integer { amount, .. } => amount,
            TypeView::UnsignedInteger { amount, .. } => amount,
            TypeView::Float { amount, .. } => amount,
            TypeView::Text { amount, .. } => amount,
            TypeView::Boolean { amount, .. } => amount,
            TypeView::Datatype { amount, .. } => amount,
        }
    }

    /// Whether a field of this type may hold nothing.
    pub open spec fn nullable(self) -> bool {
        match self {
            TypeView::Integer { nullable, .. } => nullable,
            TypeView::UnsignedInteger { nullable, .. } => nullable,
            TypeView::Float { nullable, .. } => nullable,
            TypeView::Text { nullable, .. } => nullable,
            TypeView::Boolean { nullable, .. } => nullable,
            TypeView::Datatype { nullable, .. } => nullable,
        }
    }

    /// Whether the type has a default and it is `Required`.
    pub open spec fn is_required(self) -> bool {
        match self {
            TypeView::Integer { default, .. } => default is Required,
            TypeView::UnsignedInteger { default, .. } => default is Required,
            TypeView::Float { default, .. } => default is Required,
            TypeView::Text { default, .. } => default is Required,
            TypeView::Boolean { default, .. } => default is Required,
            TypeView::Datatype { .. } => false,
        }
    }

    /// Whether the type has a default and it is `Null`.
    pub open spec fn is_null(self) -> bool {
        match self {
            TypeView::Integer { default, .. } => default is Null,
            TypeView::UnsignedInteger { default, .. } => default is Null,
            TypeView::Float { default, .. } => default is Null,
            TypeView::Text { default, .. } => default is Null,
            TypeView::Boolean { default, .. } => default is Null,
            TypeView::Datatype { .. } => false,
        }
    }
}

/// A structure of the schema: its name and the types of its fields.
pub struct Structure {
    name: String,
    fields: NameMap<Type>,
}

/// The mathematical value of a [`Structure`].
pub struct StructureView {
    pub name: Seq<char>,
    pub fields: Seq<(Seq<char>, TypeView)>,
}

impl DeepView for Structure {
    type V = StructureView;

    closed spec fn deep_view(&self) -> StructureView {
        StructureView { name: self.name@, fields: self.fields.deep_view() }
    }
}

impl Structure {
    /// The structure called `name` with the given fields.
    pub fn new(name: String, fields: NameMap<Type>) -> (structure: Self)
        ensures
            structure.deep_view() == (StructureView { name: name@, fields: fields.deep_view() }),
    {
        Self { name, fields }
    }

    /// The type of the field called `name`, if there is such a field.
    pub fn get_field(&self, name: &str) -> (field: Option<&Type>)
        ensures
            field.deep_view() == value_of(self.deep_view().fields, name@),
    {
        self.fields.get(name)
    }

    /// The fields. No two of them have the same name.
    pub fn get_fields(&self) -> (fields: &NameMap<Type>)
        ensures
            fields.deep_view() == self.deep_view().fields,
            names_distinct(self.deep_view().fields),
    {
        proof {
            use_type_invariant(&self.fields);
            self.fields.lemma_names_distinct();
        }
        &self.fields
    }

    /// The name.
    pub fn get_name(&self) -> (name: &str)
        ensures
            name@ == self.deep_view().name,
    {
        self.name.as_str()
    }
}

} // verus!
