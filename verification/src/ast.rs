//! The schema syntax tree.

use vstd::prelude::*;

verus! {

/// A whole schema: its Layer and its items.
#[derive(Debug, Clone, PartialEq, Eq)]
pub struct Schema {
    pub version: u16,
    pub items: Vec<Item>,
    pub comments: Vec<String>,
    pub item_comments: Vec<Vec<String>>,
    pub functions: Vec<Function>,
}

/// A remote procedure: a request constructor and the result it is answered
/// with.
#[derive(Debug, Clone, PartialEq, Eq)]
pub struct Function {
    pub name: String,
    pub request: String,
    pub result: String,
    pub deprecated: Option<String>,
}

#[derive(Debug, Clone, PartialEq, Eq)]
pub enum Item {
    Alias(Alias),
    Struct(Struct),
    Enum(Enum),
    Flags(Flags),
}

/// `type Name = T;`, possibly with an exact byte length.
#[derive(Debug, Clone, PartialEq, Eq)]
pub struct Alias {
    pub name: String,
    pub ty: Type,
    pub exact_len: Option<usize>,
}

/// One constructor with named fields.
#[derive(Debug, Clone, PartialEq, Eq)]
pub struct Struct {
    pub name: String,
    pub cid: Option<String>,
    pub fields: Vec<Field>,
}

/// Several constructors (variants with fields), or an integer enum (variants
/// without fields, each with a value).
#[derive(Debug, Clone, PartialEq, Eq)]
pub struct Enum {
    pub name: String,
    pub variants: Vec<EnumVariant>,
}

#[derive(Debug, Clone, PartialEq, Eq)]
pub struct EnumVariant {
    pub name: String,
    pub cid: Option<String>,
    pub fields: Vec<Field>,
    pub value: Option<u64>,
}

/// A set of named bits over an unsigned integer type.
#[derive(Debug, Clone, PartialEq, Eq)]
pub struct Flags {
    pub name: String,
    pub underlying: String,
    pub bits: Vec<FlagsBit>,
}

#[derive(Debug, Clone, PartialEq, Eq)]
pub struct FlagsBit {
    pub name: String,
    pub value: u64,
}

/// A field; `guard` names the flags field and bit that decide whether the
/// field is on the wire (`owner.bit`).
#[derive(Debug, Clone, PartialEq, Eq)]
pub struct Field {
    pub name: String,
    pub guard: Option<String>,
    pub exact_len: Option<usize>,
    pub ty: Type,
    pub deprecated: Option<String>,
}

#[derive(Debug, PartialEq, Eq)]
pub enum Type {
    Primitive(String),
    FixedBytes(usize),
    Optional(Box<Type>),
    Vec(Box<Type>),
    Mapping(Box<Type>, Box<Type>),
}

impl Clone for Type {
    fn clone(&self) -> (r: Self)
        ensures
            r == *self,
        decreases self,
    {
        match self {
            Type::Primitive(name) => Type::Primitive(name.clone()),
            Type::FixedBytes(n) => Type::FixedBytes(*n),
            Type::Optional(item) => Type::Optional(Box::new((**item).clone())),
            Type::Vec(item) => Type::Vec(Box::new((**item).clone())),
            Type::Mapping(key, value) => Type::Mapping(
                Box::new((**key).clone()),
                Box::new((**value).clone()),
            ),
        }
    }
}

impl Item {
    /// The name the item declares.
    pub open spec fn spec_name(&self) -> Seq<char> {
        match self {
            Item::Alias(x) => x.name@,
            Item::Struct(x) => x.name@,
            Item::Enum(x) => x.name@,
            Item::Flags(x) => x.name@,
        }
    }

    pub(crate) fn name(&self) -> (r: &String)
        ensures
            r@ == self.spec_name(),
            r@ == self@.name(),
    {
        match self {
            Item::Alias(x) => &x.name,
            Item::Struct(x) => &x.name,
            Item::Enum(x) => &x.name,
            Item::Flags(x) => &x.name,
        }
    }
}


// ---------------------------------------------------------------------------
// The mathematical values of the tree
// ---------------------------------------------------------------------------

/// The value of a [`Type`].
pub enum TypeModel {
    Primitive(Seq<char>),
    FixedBytes(nat),
    Optional(Box<TypeModel>),
    Vec(Box<TypeModel>),
    Mapping(Box<TypeModel>, Box<TypeModel>),
}

/// The value of a [`Field`].
pub struct FieldModel {
    pub name: Seq<char>,
    pub guard: Option<Seq<char>>,
    pub exact_len: Option<usize>,
    pub ty: TypeModel,
    pub deprecated: Option<Seq<char>>,
}

/// The value of an [`Alias`].
pub struct AliasModel {
    pub name: Seq<char>,
    pub ty: TypeModel,
    pub exact_len: Option<usize>,
}

/// The value of a [`Struct`].
pub struct StructModel {
    pub name: Seq<char>,
    pub cid: Option<Seq<char>>,
    pub fields: Seq<FieldModel>,
}

/// The value of an [`EnumVariant`].
pub struct VariantModel {
    pub name: Seq<char>,
    pub cid: Option<Seq<char>>,
    pub fields: Seq<FieldModel>,
    pub value: Option<u64>,
}

/// The value of an [`Enum`].
pub struct EnumModel {
    pub name: Seq<char>,
    pub variants: Seq<VariantModel>,
}

/// The value of a [`FlagsBit`].
pub struct BitModel {
    pub name: Seq<char>,
    pub value: u64,
}

/// The value of a [`Flags`].
pub struct FlagsModel {
    pub name: Seq<char>,
    pub underlying: Seq<char>,
    pub bits: Seq<BitModel>,
}

/// The value of an [`Item`].
pub enum ItemModel {
    Alias(AliasModel),
    Struct(StructModel),
    Enum(EnumModel),
    Flags(FlagsModel),
}

/// The value of a [`Function`].
pub struct FunctionModel {
    pub name: Seq<char>,
    pub request: Seq<char>,
    pub result: Seq<char>,
    pub deprecated: Option<Seq<char>>,
}

/// The value of a [`Schema`].
pub struct SchemaModel {
    pub version: u16,
    pub items: Seq<ItemModel>,
    pub comments: Seq<Seq<char>>,
    pub item_comments: Seq<Seq<Seq<char>>>,
    pub functions: Seq<FunctionModel>,
}

impl ItemModel {
    /// The name the item declares.
    pub open spec fn name(self) -> Seq<char> {
        match self {
            ItemModel::Alias(x) => x.name,
            ItemModel::Struct(x) => x.name,
            ItemModel::Enum(x) => x.name,
            ItemModel::Flags(x) => x.name,
        }
    }
}

/// The text of an optional string.
pub open spec fn text_model(text: Option<String>) -> Option<Seq<char>> {
    match text {
        Some(t) => Some(t@),
        None => None,
    }
}

pub open spec fn type_model(ty: Type) -> TypeModel
    decreases ty,
{
    match ty {
        Type::Primitive(name) => TypeModel::Primitive(name@),
        Type::FixedBytes(n) => TypeModel::FixedBytes(n as nat),
        Type::Optional(item) => TypeModel::Optional(Box::new(type_model(*item))),
        Type::Vec(item) => TypeModel::Vec(Box::new(type_model(*item))),
        Type::Mapping(k, v) => TypeModel::Mapping(Box::new(type_model(*k)), Box::new(type_model(*v))),
    }
}

impl View for Type {
    type V = TypeModel;

    open spec fn view(&self) -> TypeModel {
        type_model(*self)
    }
}

impl View for Field {
    type V = FieldModel;

    open spec fn view(&self) -> FieldModel {
        FieldModel {
            name: self.name@,
            guard: text_model(self.guard),
            exact_len: self.exact_len,
            ty: self.ty@,
            deprecated: text_model(self.deprecated),
        }
    }
}

/// The values of a list of fields.
pub open spec fn fields_model(fields: Seq<Field>) -> Seq<FieldModel> {
    fields.map_values(|f: Field| f@)
}

impl View for Alias {
    type V = AliasModel;

    open spec fn view(&self) -> AliasModel {
        AliasModel { name: self.name@, ty: self.ty@, exact_len: self.exact_len }
    }
}

impl View for Struct {
    type V = StructModel;

    open spec fn view(&self) -> StructModel {
        StructModel { name: self.name@, cid: text_model(self.cid), fields: fields_model(self.fields@) }
    }
}

impl View for EnumVariant {
    type V = VariantModel;

    open spec fn view(&self) -> VariantModel {
        VariantModel {
            name: self.name@,
            cid: text_model(self.cid),
            fields: fields_model(self.fields@),
            value: self.value,
        }
    }
}

impl View for Enum {
    type V = EnumModel;

    open spec fn view(&self) -> EnumModel {
        EnumModel { name: self.name@, variants: self.variants@.map_values(|v: EnumVariant| v@) }
    }
}

impl View for FlagsBit {
    type V = BitModel;

    open spec fn view(&self) -> BitModel {
        BitModel { name: self.name@, value: self.value }
    }
}

impl View for Flags {
    type V = FlagsModel;

    open spec fn view(&self) -> FlagsModel {
        FlagsModel {
            name: self.name@,
            underlying: self.underlying@,
            bits: self.bits@.map_values(|b: FlagsBit| b@),
        }
    }
}

impl View for Item {
    type V = ItemModel;

    open spec fn view(&self) -> ItemModel {
        match self {
            Item::Alias(x) => ItemModel::Alias(x@),
            Item::Struct(x) => ItemModel::Struct(x@),
            Item::Enum(x) => ItemModel::Enum(x@),
            Item::Flags(x) => ItemModel::Flags(x@),
        }
    }
}

impl View for Function {
    type V = FunctionModel;

    open spec fn view(&self) -> FunctionModel {
        FunctionModel {
            name: self.name@,
            request: self.request@,
            result: self.result@,
            deprecated: text_model(self.deprecated),
        }
    }
}

/// The values of a list of items.
pub open spec fn items_model(items: Seq<Item>) -> Seq<ItemModel> {
    items.map_values(|i: Item| i@)
}

impl View for Schema {
    type V = SchemaModel;

    open spec fn view(&self) -> SchemaModel {
        SchemaModel {
            version: self.version,
            items: items_model(self.items@),
            comments: self.comments@.map_values(|c: String| c@),
            item_comments: self.item_comments@.map_values(
                |cs: Vec<String>| cs@.map_values(|c: String| c@),
            ),
            functions: self.functions@.map_values(|f: Function| f@),
        }
    }
}

} // verus!
