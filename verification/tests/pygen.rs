use probe::{
    basic_dataclass, convert_to_pytype, find_unsupported, is_convertible, make_conversion,
    make_py_dataclass_internal, Data, Dataclass, DataclassInit, DataclassItem, DeriveInput, Field,
    Fields, InitArgs, PygenFile, Type, Unsupported, Variant, PYGEN_PREAMBLE,
};

fn path(segments: &[&str]) -> Type {
    Type::Path(segments.iter().map(|s| s.to_string()).collect())
}

fn field(ident: &str, ty: Type) -> Field {
    Field { ident: ident.to_string(), ty }
}

fn pairs(list: &[(&str, &str)]) -> Vec<(String, String)> {
    list.iter().map(|(a, b)| (a.to_string(), b.to_string())).collect()
}

fn input(ident: &str, data: Data) -> DeriveInput {
    DeriveInput { ident: ident.to_string(), data }
}

fn variant(ident: &str, fields: Fields) -> Variant {
    Variant { ident: ident.to_string(), fields }
}

#[test]
fn types_become_python_types() {
    for name in [
        "__dev_t", "__gid_t", "__ino_t", "__mode_t", "__s32", "__s64", "__suseconds_t",
        "__syscall_slong_t", "__syseconds_t", "__time_t", "__u16", "__u32", "__u64", "__uid_t",
        "c_int", "c_long", "c_uint", "dev_t", "gid_t", "i32", "ino_t", "mode_t", "pid_t", "uid_t",
    ] {
        assert_eq!(convert_to_pytype(&path(&[name])), "int", "{name}");
    }
    assert_eq!(convert_to_pytype(&path(&["std", "ffi", "CString"])), "bytes");
    assert_eq!(convert_to_pytype(&path(&["libc", "c_int"])), "int");
    assert_eq!(convert_to_pytype(&path(&["c_int", "Timespec"])), "Timespec");
    assert_eq!(convert_to_pytype(&path(&["i64"])), "i64");
    assert_eq!(convert_to_pytype(&path(&["bool"])), "bool");
    let array = Type::Array(Box::new(Type::Array(Box::new(path(&["i32"])))));
    assert_eq!(convert_to_pytype(&array), "list[list[int]]");
    assert!(is_convertible(&array));
    assert!(!is_convertible(&Type::Array(Box::new(Type::Other))));
}

#[test]
fn conversions_of_arguments() {
    for ty in ["bytes", "int", "str", "bool"] {
        assert_eq!(make_conversion(&"x".to_string(), &ty.to_string()), format!("{ty}(x)"));
    }
    assert_eq!(make_conversion(&"x".to_string(), &"Path".to_string()), "Path(**x)");
    assert_eq!(make_conversion(&"x".to_string(), &"list[int]".to_string()), "list[int](**x)");
}

#[test]
fn items_args_and_inits() {
    let mut item = DataclassItem::new("a".to_string(), "int".to_string());
    assert_eq!(item.render(), "a: int");
    assert_eq!(item.set_indent(3), 0);
    assert_eq!(item.set_indent(2), 3);
    assert_eq!(item.render(), "  a: int");

    let mut args = InitArgs::new();
    assert_eq!(args.render(), "");
    args.add("a".to_string(), "int".to_string());
    args.add("b".to_string(), "P".to_string());
    assert_eq!(args.render(), ", a: int, b: P");

    let mut init = DataclassInit::new();
    assert_eq!(init.render(), "def __init__(self):\n");
    init.set_args(args);
    init.add_line("pass".to_string());
    init.add_line("".to_string());
    assert_eq!(init.set_indent(2), 0);
    assert_eq!(
        init.render(),
        "  def __init__(self, a: int, b: P):\n      pass\n      \n"
    );
}

#[test]
fn a_class_with_a_generated_constructor() {
    let mut class = Dataclass::new("C".to_string());
    assert_eq!(class.render(), "@dataclass(init=True)\nclass C:\n");
    class.add_item(DataclassItem::new("a".to_string(), "int".to_string()));
    assert_eq!(class.render(), "@dataclass(init=True)\nclass C:\n    a: int\n");
    class.set_init(Some(DataclassInit::new()));
    assert_eq!(
        class.render(),
        "@dataclass(init=False)\nclass C:\n    a: int\n    def __init__(self):\n"
    );
    class.set_init(None);
    assert_eq!(class.render(), "@dataclass(init=True)\nclass C:\n    a: int\n");
}

#[test]
fn basic_dataclasses() {
    let class = basic_dataclass("Open".to_string(), &pairs(&[("path", "Path"), ("flags", "int")]));
    assert_eq!(
        class.render(),
        "@dataclass(init=False)\n\
         class Open:\n    \
             path: Path\n    \
             flags: int\n    \
             def __init__(self, path: Path, flags: int):\n        \
                 self.path = Path(**path)\n        \
                 self.flags = int(flags)\n"
    );
    let empty = basic_dataclass("E".to_string(), &[]);
    assert_eq!(empty.render(), "@dataclass(init=False)\nclass E:\n    def __init__(self):\n");
}

#[test]
fn inner_classes_are_indented_with_their_contents() {
    let mut outer = Dataclass::new("Outer".to_string());
    let mut middle = Dataclass::new("Middle".to_string());
    middle.add_inclass(basic_dataclass("Inner".to_string(), &pairs(&[("a", "int")])));
    outer.add_inclass(middle);
    let text = "@dataclass(init=True)\n\
        class Outer:\n    \
            @dataclass(init=True)\n    \
            class Middle:\n        \
                @dataclass(init=False)\n        \
                class Inner:\n            \
                    a: int\n            \
                    def __init__(self, a: int):\n                \
                        self.a = int(a)\n\n\n";
    assert_eq!(outer.render(), text);

    assert_eq!(outer.set_indent(2), 0);
    let shifted: String = text
        .lines()
        .map(|line| if line.is_empty() { "\n".to_string() } else { format!("  {line}\n") })
        .collect();
    assert_eq!(outer.render(), shifted);
    assert_eq!(outer.set_indent(7), 2);
    assert_eq!(outer.set_indent(0), 7);
    assert_eq!(outer.render(), text);
}

#[test]
fn a_struct() {
    let declaration = input(
        "Stat",
        Data::Struct(Fields::Named(vec![
            field("mode", path(&["mode_t"])),
            field("name", path(&["CString"])),
        ])),
    );
    assert_eq!(find_unsupported(&declaration), None);
    assert_eq!(
        make_py_dataclass_internal(&declaration).render(),
        "@dataclass(init=False)\n\
         class Stat:\n    \
             mode: int\n    \
             name: bytes\n    \
             def __init__(self, mode: int, name: bytes):\n        \
                 self.mode = int(mode)\n        \
                 self.name = bytes(name)\n"
    );
}

#[test]
fn an_enum() {
    let declaration = input(
        "Metadata",
        Data::Enum(vec![
            variant("Mode", Fields::Named(vec![field("mode", path(&["mode_t"]))])),
            variant("Other", Fields::Unnamed(vec![path(&["ops", "OtherOp"])])),
        ]),
    );
    assert_eq!(find_unsupported(&declaration), None);
    assert_eq!(
        make_py_dataclass_internal(&declaration).render(),
        "@dataclass(init=False)\n\
         class Metadata:\n    \
             @dataclass(init=False)\n    \
             class Mode:\n        \
                 mode: int\n        \
                 def __init__(self, mode: int):\n            \
                     self.mode = int(mode)\n\n    \
             value: typing.Union[Mode, OtherOp]\n    \
             def __init__(self, **kwargs: typing.Mapping[str, typing.Any]):\n        \
                 if len(kwargs) != 1:\n            \
                     raise ValueError(\"Malformed Enum constructor args\")\n        \
                 key = list(kwargs.keys())[0]\n        \
                 if key in self.__class__.__dict__:\n            \
                     self.value = self.__class__.__dict__[key](**kwargs[key])\n        \
                 else:\n            \
                     self.value = mod.__dict__[key](**kwargs[key])\n"
    );
}

#[test]
fn unsupported_declarations() {
    let cases = [
        (Data::Struct(Fields::Unit), Unsupported::StructShape),
        (Data::Struct(Fields::Unnamed(vec![path(&["i32"])])), Unsupported::StructShape),
        (Data::Struct(Fields::Named(vec![field("a", Type::Other)])), Unsupported::FieldType),
        (Data::Enum(vec![]), Unsupported::NoVariants),
        (Data::Enum(vec![variant("A", Fields::Unit)]), Unsupported::UnitVariant),
        (Data::Enum(vec![variant("A", Fields::Unnamed(vec![]))]), Unsupported::TupleVariant),
        (
            Data::Enum(vec![
                variant("A", Fields::Unnamed(vec![path(&["i32"])])),
                variant("B", Fields::Unnamed(vec![Type::Other])),
                variant("C", Fields::Unit),
            ]),
            Unsupported::FieldType,
        ),
        (
            Data::Enum(vec![variant("A", Fields::Named(vec![field("a", path(&[]))]))]),
            Unsupported::FieldType,
        ),
        (Data::Union, Unsupported::Union),
    ];
    for (data, part) in cases {
        assert_eq!(find_unsupported(&input("T", data)), Some(part));
    }
}

#[test]
fn the_preamble_stands_once_in_the_file() {
    let mut file = PygenFile::new();
    let a = Dataclass::new("A".to_string());
    let b = Dataclass::new("B".to_string());
    let text = file.write_pygen(&a) + &file.write_pygen(&b);
    assert_eq!(text, format!("{}{}\n{}\n", PYGEN_PREAMBLE, a.render(), b.render()));
    assert!(PYGEN_PREAMBLE.starts_with("\n# This file is automatically @"));
    assert!(PYGEN_PREAMBLE.ends_with(
        "\n\nimport sys\nimport typing\nfrom dataclasses import dataclass\n\n\
         mod = sys.modules[__name__]\n\n"
    ));
}
