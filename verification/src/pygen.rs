//! Python dataclasses for Rust types.

use crate::dataclass;
use crate::dataclass::{Dataclass, DataclassInit, DataclassItem, InitArgs};
use crate::text;
use crate::text::join_strings;
use vstd::prelude::*;

verus! {

/// The Python code at the beginning of the generated file.
pub const PYGEN_PREAMBLE: &'static str = "
# This file is automatically @generated by probe_macros

import sys
import typing
from dataclasses import dataclass

mod = sys.modules[__name__]

";

/// A type, as far as it matters to its Python counterpart.
pub enum Type {
    /// An array of elements of one type.
    Array(Box<Type>),
    /// A path, by the names of its segments.
    Path(Vec<String>),
    /// Any other kind of type.
    Other,
}

/// A named field.
pub struct Field {
    pub ident: String,
    pub ty: Type,
}

/// The fields of a struct or of an enum variant.
pub enum Fields {
    Named(Vec<Field>),
    Unnamed(Vec<Type>),
    Unit,
}

/// A variant of an enum.
pub struct Variant {
    pub ident: String,
    pub fields: Fields,
}

/// What a type is made of.
pub enum Data {
    Struct(Fields),
    Enum(Vec<Variant>),
    Union,
}

/// The declaration of a type.
pub struct DeriveInput {
    pub ident: String,
    pub data: Data,
}

/// What has no Python counterpart.
#[derive(Debug, Clone, Copy, PartialEq, Eq, Structural)]
pub enum Unsupported {
    /// A struct without named fields.
    StructShape,
    /// A field whose type is neither an array nor a path.
    FieldType,
    /// A tuple variant that does not have exactly one field.
    TupleVariant,
    /// A variant without fields.
    UnitVariant,
    /// An enum without variants.
    NoVariants,
    /// A union.
    Union,
}

/// The names of C and Rust integer types that become `int`.
pub open spec fn is_int_name(name: Seq<char>) -> bool {
    ||| name == "__dev_t"@
    ||| name == "__gid_t"@
    ||| name == "__ino_t"@
    ||| name == "__mode_t"@
    ||| name == "__s32"@
    ||| name == "__s64"@
    ||| name == "__suseconds_t"@
    ||| name == "__syscall_slong_t"@
    ||| name == "__syseconds_t"@
    ||| name == "__time_t"@
    ||| name == "__u16"@
    ||| name == "__u32"@
    ||| name == "__u64"@
    ||| name == "__uid_t"@
    ||| name == "c_int"@
    ||| name == "c_long"@
    ||| name == "c_uint"@
    ||| name == "dev_t"@
    ||| name == "gid_t"@
    ||| name == "i32"@
    ||| name == "ino_t"@
    ||| name == "mode_t"@
    ||| name == "pid_t"@
    ||| name == "uid_t"@
}

/// The Python name of the type with the base name `name`.
pub open spec fn python_name(name: Seq<char>) -> Seq<char> {
    if is_int_name(name) {
        "int"@
    } else if name == "CString"@ {
        "bytes"@
    } else {
        name
    }
}

/// Whether there is a Python type for `ty`.
pub open spec fn has_pytype(ty: Type) -> bool
    decreases ty,
{
    match ty {
        Type::Array(elem) => has_pytype(*elem),
        Type::Path(segments) => segments@.len() > 0,
        Type::Other => false,
    }
}

/// The Python type for `ty`.
pub open spec fn pytype(ty: Type) -> Seq<char>
    recommends
        has_pytype(ty),
    decreases ty,
{
    match ty {
        Type::Array(elem) => "list["@ + pytype(*elem) + "]"@,
        Type::Path(segments) => python_name(segments@.last()@),
        Type::Other => seq![],
    }
}

/// The Python types that are built from a plain value.
pub open spec fn is_primitive(ty: Seq<char>) -> bool {
    ty == "bytes"@ || ty == "int"@ || ty == "str"@ || ty == "bool"@
}

/// The expression that turns the argument `ident` into a value of type `ty`: a primitive type is
/// called on it, the constructor of another one gets it unpacked.
pub open spec fn conversion(ident: Seq<char>, ty: Seq<char>) -> Seq<char> {
    if is_primitive(ty) {
        ty + "("@ + ident + ")"@
    } else {
        ty + "(**"@ + ident + ")"@
    }
}

/// The line that stores the argument `ident` in the field of that name.
pub open spec fn assignment(ident: Seq<char>, ty: Seq<char>) -> Seq<char> {
    "self."@ + ident + " = "@ + conversion(ident, ty)
}

/// The dataclass with the given fields, in order, and a constructor that converts an argument for
/// each of them.
pub open spec fn basic_class(
    name: Seq<char>,
    pairs: Seq<dataclass::NameAndType>,
) -> dataclass::ClassModel {
    dataclass::ClassModel {
        indent: 0,
        name,
        inclasses: seq![],
        items: pairs.map_values(
            |pair: dataclass::NameAndType|
                dataclass::ItemModel { indent: 4, name: pair.0, ty: pair.1 },
        ),
        init: Some(
            dataclass::InitModel {
                indent: 4,
                args: pairs,
                body: pairs.map_values(|pair: dataclass::NameAndType| assignment(pair.0, pair.1)),
            },
        ),
    }
}

/// The name and Python type of each field.
pub open spec fn field_pairs(fields: Seq<Field>) -> Seq<dataclass::NameAndType> {
    fields.map_values(|field: Field| (field.ident@, pytype(field.ty)))
}

/// The classes for the variants with named fields, in order, one step in.
pub open spec fn variant_classes(variants: Seq<Variant>) -> Seq<dataclass::ClassModel>
    decreases variants.len(),
{
    if variants.len() == 0 {
        seq![]
    } else {
        let front = variant_classes(variants.drop_last());
        let variant = variants.last();
        match variant.fields {
            Fields::Named(fields) => front.push(
                basic_class(variant.ident@, field_pairs(fields@)).with_indent(4),
            ),
            _ => front,
        }
    }
}

/// The Python type of the values of a variant: the class made for it, or its only field's type.
pub open spec fn variant_type(variant: Variant) -> Seq<char> {
    match variant.fields {
        Fields::Named(_) => variant.ident@,
        Fields::Unnamed(types) => pytype(types@[0]),
        Fields::Unit => seq![],
    }
}

/// The union over the types of all variants.
pub open spec fn union_type(variants: Seq<Variant>) -> Seq<char> {
    "typing.Union["@ + text::joined(
        variants.map_values(|variant: Variant| variant_type(variant)),
        ", "@,
    ) + "]"@
}

/// The body of the constructor of the class for an enum.
pub open spec fn enum_init_body() -> Seq<Seq<char>> {
    seq![
        "if len(kwargs) != 1:"@,
        "    raise ValueError(\"Malformed Enum constructor args\")"@,
        "key = list(kwargs.keys())[0]"@,
        "if key in self.__class__.__dict__:"@,
        "    self.value = self.__class__.__dict__[key](**kwargs[key])"@,
        "else:"@,
        "    self.value = mod.__dict__[key](**kwargs[key])"@,
    ]
}

/// The class for an enum: it holds a value of one of the variants.
pub open spec fn enum_class(name: Seq<char>, variants: Seq<Variant>) -> dataclass::ClassModel {
    dataclass::ClassModel {
        indent: 0,
        name,
        inclasses: variant_classes(variants),
        items: seq![
            dataclass::ItemModel { indent: 4, name: "value"@, ty: union_type(variants) },
        ],
        init: Some(
            dataclass::InitModel {
                indent: 4,
                args: seq![("**kwargs"@, "typing.Mapping[str, typing.Any]"@)],
                body: enum_init_body(),
            },
        ),
    }
}

/// The dataclass for a declaration.
pub open spec fn class_of(input: DeriveInput) -> dataclass::ClassModel
    recommends
        unsupported_part(input) is None,
{
    match input.data {
        Data::Struct(Fields::Named(fields)) => basic_class(input.ident@, field_pairs(fields@)),
        Data::Enum(variants) => enum_class(input.ident@, variants@),
        _ => dataclass::empty_class(input.ident@),
    }
}

/// Whether every field has a Python type.
pub open spec fn all_have_pytype(fields: Seq<Field>) -> bool {
    forall|i: int| 0 <= i < fields.len() ==> has_pytype((#[trigger] fields[i]).ty)
}

/// What keeps a variant from having a Python counterpart.
pub open spec fn unsupported_in_variant(variant: Variant) -> Option<Unsupported> {
    match variant.fields {
        Fields::Named(fields) => if all_have_pytype(fields@) {
            None
        } else {
            Some(Unsupported::FieldType)
        },
        Fields::Unnamed(types) => if types@.len() != 1 {
            Some(Unsupported::TupleVariant)
        } else if has_pytype(types@[0]) {
            None
        } else {
            Some(Unsupported::FieldType)
        },
        Fields::Unit => Some(Unsupported::UnitVariant),
    }
}

/// What keeps the first unsupported variant from having a Python counterpart.
pub open spec fn unsupported_in_variants(variants: Seq<Variant>) -> Option<Unsupported>
    decreases variants.len(),
{
    if variants.len() == 0 {
        None
    } else {
        match unsupported_in_variant(variants[0]) {
            Some(part) => Some(part),
            None => unsupported_in_variants(variants.drop_first()),
        }
    }
}

/// The first part of a declaration that has no Python counterpart.
pub open spec fn unsupported_part(input: DeriveInput) -> Option<Unsupported> {
    match input.data {
        Data::Struct(Fields::Named(fields)) => if all_have_pytype(fields@) {
            None
        } else {
            Some(Unsupported::FieldType)
        },
        Data::Struct(_) => Some(Unsupported::StructShape),
        Data::Enum(variants) => match unsupported_in_variants(variants@) {
            Some(part) => Some(part),
            None => if variants@.len() == 0 {
                Some(Unsupported::NoVariants)
            } else {
                None
            },
        },
        Data::Union => Some(Unsupported::Union),
    }
}

/// Whether `s` is `literal`.
fn is_str(s: &String, literal: &str) -> (res: bool)
    ensures
        res == (s@ == literal@),
{
    *s == literal.to_owned()
}

/// Whether `name` becomes `int`.
fn is_int(name: &String) -> (res: bool)
    ensures
        res == is_int_name(name@),
{
    is_str(name, "__dev_t") || is_str(name, "__gid_t") || is_str(name, "__ino_t") || is_str(
        name,
        "__mode_t",
    ) || is_str(name, "__s32") || is_str(name, "__s64") || is_str(name, "__suseconds_t") || is_str(
        name,
        "__syscall_slong_t",
    ) || is_str(name, "__syseconds_t") || is_str(name, "__time_t") || is_str(name, "__u16")
        || is_str(name, "__u32") || is_str(name, "__u64") || is_str(name, "__uid_t") || is_str(
        name,
        "c_int",
    ) || is_str(name, "c_long") || is_str(name, "c_uint") || is_str(name, "dev_t") || is_str(
        name,
        "gid_t",
    ) || is_str(name, "i32") || is_str(name, "ino_t") || is_str(name, "mode_t") || is_str(
        name,
        "pid_t",
    ) || is_str(name, "uid_t")
}

/// The base name of a path type: its last segment.
pub fn type_basename(segments: &Vec<String>) -> (res: &String)
    requires
        segments@.len() > 0,
    ensures
        *res == segments@.last(),
{
    &segments[segments.len() - 1]
}

/// Whether there is a Python type for `ty`.
pub fn is_convertible(ty: &Type) -> (res: bool)
    ensures
        res == has_pytype(*ty),
    decreases ty,
{
    match ty {
        Type::Array(elem) => is_convertible(elem),
        Type::Path(segments) => segments.len() > 0,
        Type::Other => false,
    }
}

/// Writes the Python type for `ty`.
pub fn convert_to_pytype(ty: &Type) -> (res: String)
    requires
        has_pytype(*ty),
    ensures
        res@ == pytype(*ty),
    decreases ty,
{
    match ty {
        Type::Array(elem) => {
            let mut res = "list[".to_owned();
            res.append(convert_to_pytype(elem).as_str());
            res.append("]");
            res
        },
        Type::Path(segments) => {
            let name = type_basename(segments);
            if is_int(name) {
                "int".to_owned()
            } else if is_str(name, "CString") {
                "bytes".to_owned()
            } else {
                name.clone()
            }
        },
        Type::Other => String::new(),
    }
}

/// Writes the expression that converts the argument `ident` for storage in a field of type `ty`.
pub fn make_conversion(ident: &String, ty: &String) -> (res: String)
    ensures
        res@ == conversion(ident@, ty@),
{
    let mut res = ty.clone();
    if is_str(ty, "bytes") || is_str(ty, "int") || is_str(ty, "str") || is_str(ty, "bool") {
        res.append("(");
    } else {
        res.append("(**");
    }
    res.append(ident.as_str());
    res.append(")");
    res
}

/// The contents of a list of names and types.
pub open spec fn pair_views(pairs: Seq<(String, String)>) -> Seq<dataclass::NameAndType> {
    pairs.map_values(|pair: (String, String)| (pair.0@, pair.1@))
}

/// Makes the dataclass with the given fields.
pub fn basic_dataclass(name: String, pairs: &[(String, String)]) -> (res: Dataclass)
    ensures
        res@ == basic_class(name@, pair_views(pairs@)),
{
    let mut class = Dataclass::new(name);
    let mut init = DataclassInit::new();
    let mut args = InitArgs::new();
    let ghost all = pair_views(pairs@);
    let ghost model = basic_class(name@, all);
    let mut i: usize = 0;
    assert(class@.items =~= model.items.take(0));
    assert(args@ =~= all.take(0));
    assert(init@.body =~= model.init->0.body.take(0));
    while i < pairs.len()
        invariant
            i <= pairs@.len(),
            all == pair_views(pairs@),
            model == basic_class(name@, all),
            class@ == (dataclass::ClassModel {
                items: model.items.take(i as int),
                init: None,
                ..model
            }),
            args@ == all.take(i as int),
            init@.indent == 0,
            init@.body == model.init->0.body.take(i as int),
        decreases pairs@.len() - i,
    {
        let ident = &pairs[i].0;
        let ty = &pairs[i].1;
        class.add_item(DataclassItem::new(ident.clone(), ty.clone()));
        let mut line = "self.".to_owned();
        line.append(ident.as_str());
        line.append(" = ");
        line.append(make_conversion(ident, ty).as_str());
        init.add_line(line);
        args.add(ident.clone(), ty.clone());
        proof {
            assert(all[i as int] == (ident@, ty@));
            assert(class@.items =~= model.items.take(i + 1));
            assert(args@ =~= all.take(i + 1));
            assert(init@.body =~= model.init->0.body.take(i + 1));
        }
        i = i + 1;
    }
    init.set_args(args);
    class.set_init(Some(init));
    proof {
        assert(all.take(i as int) =~= all);
        assert(model.items.take(i as int) =~= model.items);
        assert(model.init->0.body.take(i as int) =~= model.init->0.body);
    }
    class
}

/// Converts the types of named fields.
fn convert_fields(fields: &Vec<Field>) -> (res: Vec<(String, String)>)
    requires
        all_have_pytype(fields@),
    ensures
        pair_views(res@) == field_pairs(fields@),
{
    let mut pairs: Vec<(String, String)> = Vec::new();
    let mut i: usize = 0;
    while i < fields.len()
        invariant
            i <= fields@.len(),
            all_have_pytype(fields@),
            pairs@.len() == i,
            forall|j: int|
                0 <= j < i ==> (#[trigger] pairs@[j]).0@ == fields@[j].ident@ && pairs@[j].1@
                    == pytype(fields@[j].ty),
        decreases fields@.len() - i,
    {
        pairs.push((fields[i].ident.clone(), convert_to_pytype(&fields[i].ty)));
        i = i + 1;
    }
    assert(pair_views(pairs@) =~= field_pairs(fields@));
    pairs
}

/// The constructor of the class for an enum, which looks up the class of the variant by its name.
fn enum_init() -> (res: DataclassInit)
    ensures
        res@ == (dataclass::InitModel {
            indent: 0,
            args: seq![("**kwargs"@, "typing.Mapping[str, typing.Any]"@)],
            body: enum_init_body(),
        }),
{
    let mut init = DataclassInit::new();
    let mut args = InitArgs::new();
    args.add("**kwargs".to_owned(), "typing.Mapping[str, typing.Any]".to_owned());
    init.add_line("if len(kwargs) != 1:".to_owned());
    init.add_line("    raise ValueError(\"Malformed Enum constructor args\")".to_owned());
    init.add_line("key = list(kwargs.keys())[0]".to_owned());
    init.add_line("if key in self.__class__.__dict__:".to_owned());
    init.add_line("    self.value = self.__class__.__dict__[key](**kwargs[key])".to_owned());
    init.add_line("else:".to_owned());
    init.add_line("    self.value = mod.__dict__[key](**kwargs[key])".to_owned());
    init.set_args(args);
    assert(init@.args =~= seq![("**kwargs"@, "typing.Mapping[str, typing.Any]"@)]);
    assert(init@.body =~= enum_init_body());
    init
}

/// Every variant of a supported list is supported.
proof fn lemma_each_variant_supported(variants: Seq<Variant>, i: int)
    requires
        unsupported_in_variants(variants) is None,
        0 <= i < variants.len(),
    ensures
        unsupported_in_variant(variants[i]) is None,
    decreases variants.len(),
{
    if i > 0 {
        lemma_each_variant_supported(variants.drop_first(), i - 1);
        assert(variants.drop_first()[i - 1] == variants[i]);
    }
}

/// Makes the dataclass for a declaration.
pub fn make_py_dataclass_internal(input: &DeriveInput) -> (res: Dataclass)
    requires
        unsupported_part(*input) is None,
    ensures
        res@ == class_of(*input),
{
    match &input.data {
        Data::Struct(Fields::Named(fields)) => basic_dataclass(
            input.ident.clone(),
            convert_fields(fields).as_slice(),
        ),
        Data::Enum(data_enum) => {
            let mut class = Dataclass::new(input.ident.clone());
            // this is the types that the produced union is over
            let mut variants: Vec<String> = Vec::new();
            let ghost types = data_enum@.map_values(|variant: Variant| variant_type(variant));
            let mut i: usize = 0;
            assert(variant_classes(data_enum@.take(0)) =~= seq![]);
            assert(text::views(variants@) =~= types.take(0));
            while i < data_enum.len()
                invariant
                    i <= data_enum@.len(),
                    unsupported_in_variants(data_enum@) is None,
                    types == data_enum@.map_values(|variant: Variant| variant_type(variant)),
                    class@ == (dataclass::ClassModel {
                        inclasses: variant_classes(data_enum@.take(i as int)),
                        ..dataclass::empty_class(input.ident@)
                    }),
                    text::views(variants@) == types.take(i as int),
                decreases data_enum@.len() - i,
            {
                proof {
                    lemma_each_variant_supported(data_enum@, i as int);
                    assert(data_enum@.take(i + 1).drop_last() =~= data_enum@.take(i as int));
                    assert(data_enum@.take(i + 1).last() == data_enum@[i as int]);
                }
                let variant = &data_enum[i];
                let ghost before = variants@;
                match &variant.fields {
                    Fields::Named(inner) => {
                        let name = variant.ident.clone();
                        let pairs = convert_fields(inner);
                        class.add_inclass(basic_dataclass(name.clone(), pairs.as_slice()));
                        variants.push(name);
                    },
                    Fields::Unnamed(inner) => {
                        variants.push(convert_to_pytype(&inner[0]));
                    },
                    Fields::Unit => {},
                }
                proof {
                    assert(variants@ =~= before.push(variants@.last()));
                    assert(text::views(variants@) =~= text::views(before).push(types[i as int]));
                    assert(types.take(i + 1) =~= types.take(i as int).push(types[i as int]));
                }
                i = i + 1;
            }
            assert(data_enum@.take(i as int) =~= data_enum@);
            assert(types.take(i as int) =~= types);

            // here we merge the variants together in a python union
            let mut union_type = "typing.Union[".to_owned();
            union_type.append(join_strings(&variants, ", ").as_str());
            union_type.append("]");
            class.add_item(DataclassItem::new("value".to_owned(), union_type));
            class.set_init(Some(enum_init()));
            assert(class@.items =~= class_of(*input).items);
            class
        },
        _ => Dataclass::new(input.ident.clone()),
    }
}

/// Whether every field has a Python type.
fn are_convertible(fields: &Vec<Field>) -> (res: bool)
    ensures
        res == all_have_pytype(fields@),
{
    let mut i: usize = 0;
    while i < fields.len()
        invariant
            i <= fields@.len(),
            forall|j: int| 0 <= j < i ==> has_pytype((#[trigger] fields@[j]).ty),
        decreases fields@.len() - i,
    {
        if !is_convertible(&fields[i].ty) {
            assert(!has_pytype(fields@[i as int].ty));
            return false;
        }
        i = i + 1;
    }
    true
}

/// Finds what keeps a variant from having a Python counterpart.
fn find_unsupported_in_variant(variant: &Variant) -> (res: Option<Unsupported>)
    ensures
        res == unsupported_in_variant(*variant),
{
    match &variant.fields {
        Fields::Named(fields) => if are_convertible(fields) {
            None
        } else {
            Some(Unsupported::FieldType)
        },
        Fields::Unnamed(types) => if types.len() != 1 {
            Some(Unsupported::TupleVariant)
        } else if is_convertible(&types[0]) {
            None
        } else {
            Some(Unsupported::FieldType)
        },
        Fields::Unit => Some(Unsupported::UnitVariant),
    }
}

/// Finds the first part of a declaration that has no Python counterpart.
pub fn find_unsupported(input: &DeriveInput) -> (res: Option<Unsupported>)
    ensures
        res == unsupported_part(*input),
{
    match &input.data {
        Data::Struct(Fields::Named(fields)) => if are_convertible(fields) {
            None
        } else {
            Some(Unsupported::FieldType)
        },
        Data::Struct(_) => Some(Unsupported::StructShape),
        Data::Enum(variants) => {
            let mut i: usize = 0;
            assert(variants@.skip(0) =~= variants@);
            while i < variants.len()
                invariant
                    i <= variants@.len(),
                    input.data == Data::Enum(*variants),
                    unsupported_in_variants(variants@) == unsupported_in_variants(
                        variants@.skip(i as int),
                    ),
                decreases variants@.len() - i,
            {
                assert(variants@.skip(i as int)[0] == variants@[i as int]);
                assert(variants@.skip(i as int).drop_first() =~= variants@.skip(i + 1));
                match find_unsupported_in_variant(&variants[i]) {
                    Some(part) => {
                        return Some(part);
                    },
                    None => {},
                }
                i = i + 1;
            }
            if variants.len() == 0 {
                Some(Unsupported::NoVariants)
            } else {
                None
            }
        },
        Data::Union => Some(Unsupported::Union),
    }
}

/// The Python file that the classes are written to, one after the other.
pub struct PygenFile {
    started: bool,
}

/// What is added to the file for a class: the preamble in front of the first one, and an empty
/// line behind each.
pub open spec fn chunk(started: bool, class: dataclass::ClassModel) -> Seq<char> {
    (if started {
        seq![]
    } else {
        PYGEN_PREAMBLE@
    }) + class.text() + "\n"@
}

impl PygenFile {
    /// Whether anything has been written yet.
    pub closed spec fn is_started(self) -> bool {
        self.started
    }

    /// A file with nothing in it.
    pub fn new() -> (res: Self)
        ensures
            !res.is_started(),
    {
        PygenFile { started: false }
    }

    /// What to add to the file for `item`.
    pub fn write_pygen(&mut self, item: &Dataclass) -> (res: String)
        ensures
            res@ == chunk(old(self).is_started(), item@),
            final(self).is_started(),
    {
        let mut res = String::new();
        if !self.started {
            res.append(PYGEN_PREAMBLE);
        }
        res.append(item.render().as_str());
        res.append("\n");
        self.started = true;
        res
    }
}

/// All that is added to a file for `classes`, one after the other.
pub open spec fn all_chunks(started: bool, classes: Seq<dataclass::ClassModel>) -> Seq<char>
    decreases classes.len(),
{
    if classes.len() == 0 {
        seq![]
    } else {
        chunk(started, classes[0]) + all_chunks(true, classes.drop_first())
    }
}

/// The text of each class with an empty line behind it.
pub open spec fn class_texts(classes: Seq<dataclass::ClassModel>) -> Seq<char>
    decreases classes.len(),
{
    if classes.len() == 0 {
        seq![]
    } else {
        classes[0].text() + "\n"@ + class_texts(classes.drop_first())
    }
}

/// The preamble stands once in a file, in front of all classes, however many there are.
pub proof fn law_preamble_once(classes: Seq<dataclass::ClassModel>)
    ensures
        all_chunks(true, classes) == class_texts(classes),
        classes.len() > 0 ==> all_chunks(false, classes) == PYGEN_PREAMBLE@ + class_texts(classes),
    decreases classes.len(),
{
    if classes.len() > 0 {
        law_preamble_once(classes.drop_first());
        assert(all_chunks(true, classes) =~= class_texts(classes));
        assert(all_chunks(false, classes) =~= PYGEN_PREAMBLE@ + class_texts(classes));
    }
}

/// The class for any supported declaration is properly indented throughout.
pub proof fn law_generated_class_aligned(input: DeriveInput)
    requires
        unsupported_part(input) is None,
    ensures
        class_of(input).aligned(),
        class_of(input).indent == 0,
{
    if let Data::Enum(variants) = input.data {
        lemma_variant_classes_aligned(variants@);
    }
}

proof fn lemma_variant_classes_aligned(variants: Seq<Variant>)
    ensures
        forall|i: int|
            0 <= i < variant_classes(variants).len() ==> (#[trigger] variant_classes(
                variants,
            )[i]).indent == 4 && variant_classes(variants)[i].aligned(),
    decreases variants.len(),
{
    if variants.len() > 0 {
        lemma_variant_classes_aligned(variants.drop_last());
        let variant = variants.last();
        if let Fields::Named(fields) = variant.fields {
            dataclass::law_indent_aligns(basic_class(variant.ident@, field_pairs(fields@)), 4);
        }
    }
}

/// Every variant with named fields stands in the union by its name, and the class for the enum
/// has an inner class of that name.
pub proof fn law_variants_represented(variants: Seq<Variant>, i: int)
    requires
        0 <= i < variants.len(),
        variants[i].fields is Named,
    ensures
        exists|k: int|
            0 <= k < variant_classes(variants).len() && (#[trigger] variant_classes(
                variants,
            )[k]).name == variants[i].ident@,
        variant_type(variants[i]) == variants[i].ident@,
    decreases variants.len(),
{
    let classes = variant_classes(variants);
    let front = variant_classes(variants.drop_last());
    if i == variants.len() - 1 {
        assert(classes[classes.len() - 1].name == variants[i].ident@);
    } else {
        assert(variants.drop_last()[i] == variants[i]);
        law_variants_represented(variants.drop_last(), i);
        let k = choose|k: int|
            0 <= k < front.len() && (#[trigger] front[k]).name == variants[i].ident@;
        assert(classes[k] == front[k]);
    }
}

/// The names of C and Rust integer types, in alphabetical order.
pub open spec fn int_names() -> Seq<Seq<char>> {
    seq![
        "__dev_t"@,
        "__gid_t"@,
        "__ino_t"@,
        "__mode_t"@,
        "__s32"@,
        "__s64"@,
        "__suseconds_t"@,
        "__syscall_slong_t"@,
        "__syseconds_t"@,
        "__time_t"@,
        "__u16"@,
        "__u32"@,
        "__u64"@,
        "__uid_t"@,
        "c_int"@,
        "c_long"@,
        "c_uint"@,
        "dev_t"@,
        "gid_t"@,
        "i32"@,
        "ino_t"@,
        "mode_t"@,
        "pid_t"@,
        "uid_t"@,
    ]
}

/// The integer types and no others become `int`, C strings become `bytes`, and any other type keeps
/// its base name, which is the last segment of its path whatever is in front of it; an array
/// becomes a list of what its elements become. Other types have no counterpart.
#[verifier::spinoff_prover]
#[verifier::rlimit(30)]
pub proof fn law_python_types(elem: Type, segments: Vec<String>)
    ensures
        has_pytype(Type::Array(Box::new(elem))) <==> has_pytype(elem),
        has_pytype(Type::Path(segments)) <==> segments@.len() > 0,
        !has_pytype(Type::Other),
        pytype(Type::Array(Box::new(elem))) == "list["@ + pytype(elem) + "]"@,
        segments@.len() > 0 ==> ({
            let name = segments@[segments@.len() - 1]@;
            pytype(Type::Path(segments)) == (if int_names().contains(name) {
                "int"@
            } else if name == "CString"@ {
                "bytes"@
            } else {
                name
            })
        }),
{
    let list = int_names();
    assert(list[0] == "__dev_t"@);
    assert(list[1] == "__gid_t"@);
    assert(list[2] == "__ino_t"@);
    assert(list[3] == "__mode_t"@);
    assert(list[4] == "__s32"@);
    assert(list[5] == "__s64"@);
    assert(list[6] == "__suseconds_t"@);
    assert(list[7] == "__syscall_slong_t"@);
    assert(list[8] == "__syseconds_t"@);
    assert(list[9] == "__time_t"@);
    assert(list[10] == "__u16"@);
    assert(list[11] == "__u32"@);
    assert(list[12] == "__u64"@);
    assert(list[13] == "__uid_t"@);
    assert(list[14] == "c_int"@);
    assert(list[15] == "c_long"@);
    assert(list[16] == "c_uint"@);
    assert(list[17] == "dev_t"@);
    assert(list[18] == "gid_t"@);
    assert(list[19] == "i32"@);
    assert(list[20] == "ino_t"@);
    assert(list[21] == "mode_t"@);
    assert(list[22] == "pid_t"@);
    assert(list[23] == "uid_t"@);
    if segments@.len() > 0 {
        let name = segments@.last()@;
        assert(list.contains(name) <==> is_int_name(name));
    }
    reveal_with_fuel(pytype, 2);
    reveal_with_fuel(has_pytype, 2);
}

/// A primitive type is called on the argument, any other one on what the argument unpacks to, and
/// the result is stored in the field of the same name.
pub proof fn law_argument_stored(ident: Seq<char>, ty: Seq<char>)
    ensures
        ({
            let primitive = seq!["bytes"@, "int"@, "str"@, "bool"@].contains(ty);
            let value = if primitive {
                ty + "("@ + ident + ")"@
            } else {
                ty + "(**"@ + ident + ")"@
            };
            &&& conversion(ident, ty) == value
            &&& assignment(ident, ty) == "self."@ + ident + " = "@ + value
        }),
{
    let list = seq!["bytes"@, "int"@, "str"@, "bool"@];
    assert(list[0] == "bytes"@ && list[1] == "int"@ && list[2] == "str"@ && list[3] == "bool"@);
    assert(list.contains(ty) <==> is_primitive(ty));
}

/// The class `class` has exactly one field, one argument of its constructor and one line in the
/// constructor's body for each field of a declaration, in order, with its name and Python type.
pub open spec fn represents(class: dataclass::ClassModel, fields: Seq<Field>) -> bool {
    &&& class.inclasses.len() == 0
    &&& class.items.len() == fields.len()
    &&& class.init is Some
    &&& class.init->0.indent == class.indent + 4
    &&& class.init->0.args.len() == fields.len()
    &&& class.init->0.body.len() == fields.len()
    &&& forall|i: int|
        #![trigger fields[i]]
        0 <= i < fields.len() ==> {
            let name = fields[i].ident@;
            let ty = pytype(fields[i].ty);
            &&& class.items[i].indent == class.indent + 4
            &&& class.items[i].name == name
            &&& class.items[i].ty == ty
            &&& class.init->0.args[i] == (name, ty)
            &&& class.init->0.body[i] == "self."@ + name + " = "@ + conversion(name, ty)
        }
}

/// The class for a struct has the name of the struct and all its fields.
pub proof fn law_struct_represented(input: DeriveInput, fields: Vec<Field>)
    requires
        input.data == Data::Struct(Fields::Named(fields)),
    ensures
        class_of(input).name == input.ident@,
        class_of(input).indent == 0,
        represents(class_of(input), fields@),
{
}

/// A class made of names and types has all of them, in order, as fields, as arguments of its
/// constructor and in the constructor's body.
pub proof fn law_pairs_represented(name: Seq<char>, pairs: Seq<dataclass::NameAndType>)
    ensures
        ({
            let class = basic_class(name, pairs);
            &&& class.name == name
            &&& class.indent == 0
            &&& class.inclasses.len() == 0
            &&& class.items.len() == pairs.len()
            &&& class.init matches Some(init) && init.args == pairs && init.indent == 4
                && init.body.len() == pairs.len()
            &&& forall|i: int|
                #![trigger pairs[i]]
                0 <= i < pairs.len() ==> {
                    &&& class.items[i].indent == 4
                    &&& class.items[i].name == pairs[i].0
                    &&& class.items[i].ty == pairs[i].1
                    &&& class.init->0.body[i] == "self."@ + pairs[i].0 + " = "@ + conversion(
                        pairs[i].0,
                        pairs[i].1,
                    )
                }
        }),
{
}

/// The number of variants with named fields.
pub open spec fn named_variants(variants: Seq<Variant>) -> nat
    decreases variants.len(),
{
    if variants.len() == 0 {
        0
    } else {
        named_variants(variants.drop_last()) + (if variants.last().fields is Named {
            1nat
        } else {
            0
        })
    }
}

/// The class for an enum has one inner class for each variant with named fields and no others, in
/// the order of the variants; it has the name of the variant and all its fields.
#[verifier::spinoff_prover]
#[verifier::rlimit(30)]
pub proof fn law_variant_fields_represented(variants: Seq<Variant>)
    ensures
        variant_classes(variants).len() == named_variants(variants),
        forall|i: int|
            #![trigger variants[i]]
            0 <= i < variants.len() ==> (variants[i].fields matches Fields::Named(fields) ==> {
                let k = named_variants(variants.take(i)) as int;
                &&& 0 <= k < variant_classes(variants).len()
                &&& variant_classes(variants)[k].name == variants[i].ident@
                &&& variant_classes(variants)[k].indent == 4
                &&& represents(variant_classes(variants)[k], fields@)
            }),
    decreases variants.len(),
{
    if variants.len() > 0 {
        let front = variants.drop_last();
        let classes = variant_classes(variants);
        let last = variants.len() - 1;
        law_variant_fields_represented(front);
        assert(variants.take(last) =~= front);
        assert forall|i: int|
            #![trigger variants[i]]
            0 <= i < variants.len() implies (variants[i].fields matches Fields::Named(fields) ==> {
            let k = named_variants(variants.take(i)) as int;
            &&& 0 <= k < classes.len()
            &&& classes[k].name == variants[i].ident@
            &&& classes[k].indent == 4
            &&& represents(classes[k], fields@)
        }) by {
            if let Fields::Named(fields) = variants[i].fields {
                let k = named_variants(variants.take(i)) as int;
                if i < last {
                    assert(front[i] == variants[i]);
                    assert(front.take(i) =~= variants.take(i));
                    assert(classes[k] == variant_classes(front)[k]);
                } else {
                    let flat = basic_class(variants[i].ident@, field_pairs(fields@));
                    assert(classes[k] == flat.with_indent(4));
                    dataclass::law_indent_keeps_contents(
                        flat,
                        arbitrary(),
                        arbitrary(),
                        4,
                    );
                    let class = flat.with_indent(4);
                    assert(class.indent == 4);
                    assert forall|j: int|
                        #![trigger fields@[j]]
                        0 <= j < fields@.len() implies {
                        let name = fields@[j].ident@;
                        let ty = pytype(fields@[j].ty);
                        &&& class.items[j].indent == class.indent + 4
                        &&& class.items[j].name == name
                        &&& class.items[j].ty == ty
                        &&& class.init->0.args[j] == (name, ty)
                        &&& class.init->0.body[j] == "self."@ + name + " = "@ + conversion(name, ty)
                    } by {
                        assert(field_pairs(fields@)[j] == (
                            fields@[j].ident@,
                            pytype(fields@[j].ty),
                        ));
                        assert(class.items[j].name == flat.items[j].name);
                    }
                }
            }
        }
    }
}

/// The class for an enum holds one value, of the union over all its variants: of each variant the
/// class made for it, or the type of its only field. Its constructor takes one keyword argument,
/// the variant, and makes the value by the class of that name.
#[verifier::spinoff_prover]
#[verifier::rlimit(30)]
pub proof fn law_enum_represented(
    input: DeriveInput,
    variants: Vec<Variant>,
    types: Seq<Seq<char>>,
)
    requires
        input.data == Data::Enum(variants),
        unsupported_part(input) is None,
        types.len() == variants@.len(),
        forall|i: int|
            #![trigger variants@[i]]
            0 <= i < types.len() ==> types[i] == (match variants@[i].fields {
                Fields::Named(_) => variants@[i].ident@,
                Fields::Unnamed(fields) => pytype(fields@[0]),
                Fields::Unit => types[i],
            }),
    ensures
        ({
            let class = class_of(input);
            &&& class.name == input.ident@
            &&& class.indent == 0
            &&& class.inclasses == variant_classes(variants@)
            &&& class.items.len() == 1
            &&& class.items[0].indent == 4
            &&& class.items[0].name == "value"@
            &&& class.items[0].ty == "typing.Union["@ + text::joined(types, ", "@) + "]"@
            &&& class.init matches Some(init) && init.indent == 4 && init.args == seq![
                ("**kwargs"@, "typing.Mapping[str, typing.Any]"@),
            ] && init.body == seq![
                "if len(kwargs) != 1:"@,
                "    raise ValueError(\"Malformed Enum constructor args\")"@,
                "key = list(kwargs.keys())[0]"@,
                "if key in self.__class__.__dict__:"@,
                "    self.value = self.__class__.__dict__[key](**kwargs[key])"@,
                "else:"@,
                "    self.value = mod.__dict__[key](**kwargs[key])"@,
            ]
        }),
{
    let expected = variants@.map_values(|variant: Variant| variant_type(variant));
    assert forall|i: int| 0 <= i < types.len() implies types[i] == expected[i] by {
        lemma_each_variant_supported(variants@, i);
        assert(expected[i] == variant_type(variants@[i]));
    }
    assert(types =~= expected);
}

/// A variant is supported exactly if it has named fields that all have a Python type, or one
/// unnamed field that has one; otherwise the reason is its shape or the type.
pub proof fn law_variant_supported(variant: Variant)
    ensures
        match variant.fields {
            Fields::Named(fields) => unsupported_in_variant(variant) == (if forall|i: int|
                0 <= i < fields@.len() ==> has_pytype((#[trigger] fields@[i]).ty) {
                None
            } else {
                Some(Unsupported::FieldType)
            }),
            Fields::Unnamed(types) => unsupported_in_variant(variant) == (if types@.len() != 1 {
                Some(Unsupported::TupleVariant)
            } else if has_pytype(types@[0]) {
                None
            } else {
                Some(Unsupported::FieldType)
            }),
            Fields::Unit => unsupported_in_variant(variant) == Some(Unsupported::UnitVariant),
        },
{
}

/// An enum is supported exactly if it has variants and all of them are; otherwise the reason is
/// that of the first that is not. A struct is supported exactly if it has named fields that all
/// have a Python type, and a union never is.
#[verifier::spinoff_prover]
#[verifier::rlimit(30)]
pub proof fn law_declaration_supported(input: DeriveInput)
    ensures
        match input.data {
            Data::Union => unsupported_part(input) == Some(Unsupported::Union),
            Data::Struct(Fields::Named(fields)) => unsupported_part(input) == (if forall|i: int|
                0 <= i < fields@.len() ==> has_pytype((#[trigger] fields@[i]).ty) {
                None
            } else {
                Some(Unsupported::FieldType)
            }),
            Data::Struct(_) => unsupported_part(input) == Some(Unsupported::StructShape),
            Data::Enum(variants) => {
                ||| variants@.len() == 0 && unsupported_part(input) == Some(Unsupported::NoVariants)
                ||| variants@.len() > 0 && unsupported_part(input) is None && forall|i: int|
                    0 <= i < variants@.len() ==> unsupported_in_variant(
                        #[trigger] variants@[i],
                    ) is None
                ||| exists|k: int|
                    0 <= k < variants@.len() && unsupported_part(input) == unsupported_in_variant(
                        #[trigger] variants@[k],
                    ) && unsupported_part(input) is Some && forall|i: int|
                        0 <= i < k ==> unsupported_in_variant(#[trigger] variants@[i]) is None
            },
        },
{
    if let Data::Enum(variants) = input.data {
        lemma_first_unsupported(variants@);
    }
}

proof fn lemma_first_unsupported(variants: Seq<Variant>)
    ensures
        match unsupported_in_variants(variants) {
            None => forall|i: int|
                0 <= i < variants.len() ==> unsupported_in_variant(#[trigger] variants[i]) is None,
            Some(part) => exists|k: int|
                0 <= k < variants.len() && unsupported_in_variant(#[trigger] variants[k]) == Some(
                    part,
                ) && forall|i: int|
                    0 <= i < k ==> unsupported_in_variant(#[trigger] variants[i]) is None,
        },
    decreases variants.len(),
{
    if variants.len() > 0 {
        let rest = variants.drop_first();
        lemma_first_unsupported(rest);
        if unsupported_in_variant(variants[0]) is None {
            match unsupported_in_variants(rest) {
                None => {
                    assert forall|i: int| 0 <= i < variants.len() implies unsupported_in_variant(
                        #[trigger] variants[i],
                    ) is None by {
                        if i > 0 {
                            assert(rest[i - 1] == variants[i]);
                        }
                    }
                },
                Some(part) => {
                    let k = choose|k: int|
                        0 <= k < rest.len() && unsupported_in_variant(#[trigger] rest[k]) == Some(
                            part,
                        ) && forall|i: int|
                            0 <= i < k ==> unsupported_in_variant(#[trigger] rest[i]) is None;
                    assert(variants[k + 1] == rest[k]);
                    assert forall|i: int| 0 <= i < k + 1 implies unsupported_in_variant(
                        #[trigger] variants[i],
                    ) is None by {
                        if i > 0 {
                            assert(rest[i - 1] == variants[i]);
                        }
                    }
                },
            }
        } else {
            assert(variants[0] == variants[0]);
        }
    }
}

/// What is written to the file for one class: its text and an empty line, and in front of the first
/// class the preamble, which names the generator and brings what the classes use.
pub proof fn law_file_of_classes(class: dataclass::ClassModel)
    ensures
        chunk(true, class) == class.text() + "\n"@,
        chunk(false, class) == PYGEN_PREAMBLE@ + class.text() + "\n"@,
        PYGEN_PREAMBLE@
            == "\n# This file is automatically @generated by probe_macros\n\nimport sys\nimport typing\nfrom dataclasses import dataclass\n\nmod = sys.modules[__name__]\n\n"@,
{
    assert(chunk(true, class) =~= class.text() + "\n"@);
}

/// A list of names and types is seen as it is written, as are the fields of a declaration.
pub proof fn law_pairs_in_order(pairs: Seq<(String, String)>, fields: Seq<Field>)
    ensures
        pair_views(pairs).len() == pairs.len(),
        forall|i: int|
            0 <= i < pairs.len() ==> #[trigger] pair_views(pairs)[i] == (pairs[i].0@, pairs[i].1@),
        field_pairs(fields).len() == fields.len(),
        forall|i: int|
            0 <= i < fields.len() ==> #[trigger] field_pairs(fields)[i] == (
                fields[i].ident@,
                pytype(fields[i].ty),
            ),
{
}

} // verus!
